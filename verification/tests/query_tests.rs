use dnf::custom::{CustomOp, OpRegistry};
use dnf::field::DnfField;
use dnf::operator::Op;
use dnf::parser::parse_with_fields;
use dnf::query::{root_field_kind, Condition, Conjunction, DnfEvaluable, DnfQuery};
use dnf::builder::QueryBuilder;
use dnf::value::Value;
use dnf::{FieldInfo, FieldKind};
use std::collections::HashSet;
use std::rc::Rc;

// ==================== Mock Implementation ====================

struct MockStruct {
    age: i32,
    name: String,
    active: bool,
}

impl DnfEvaluable for MockStruct {
    fn evaluate_field(&self, field_name: &str, operator: &Op, value: &Value) -> bool {
        match field_name {
            "age" => (self.age as i64).evaluate(operator, value),
            "name" => self.name.evaluate(operator, value),
            "active" => self.active.evaluate(operator, value),
            _ => false,
        }
    }

    fn field_value(&self, _field_name: &str) -> Option<Value> {
        None
    }

    fn fields() -> Vec<FieldInfo> {
        vec![
            FieldInfo::new("age", "i32"),
            FieldInfo::new("name", "String"),
            FieldInfo::new("active", "bool"),
        ]
    }

    fn validate_field_path(path: &str) -> Option<FieldKind> {
        root_field_kind(&Self::fields(), path)
    }
}

fn mock(age: i32, name: &str, active: bool) -> MockStruct {
    MockStruct {
        age,
        name: name.to_string(),
        active,
    }
}

fn text(s: &str) -> Value {
    Value::String(s.to_string())
}

/// A custom operator made from a closure.
#[derive(Clone)]
struct FnOp(Rc<dyn Fn(&Value, &Value) -> bool>);

impl std::fmt::Debug for FnOp {
    fn fmt(&self, f: &mut std::fmt::Formatter<'_>) -> std::fmt::Result {
        f.write_str("FnOp")
    }
}

impl CustomOp for FnOp {
    fn apply(&self, field: &Value, query: &Value) -> bool {
        (self.0)(field, query)
    }
}

fn op(f: impl Fn(&Value, &Value) -> bool + 'static) -> FnOp {
    FnOp(Rc::new(f))
}

// ==================== Condition Evaluation Tests (Data-Driven) ====================

#[test]
fn test_condition_evaluation() {
    let obj = mock(25, "Alice", true);

    let test_cases = vec![
        ("age", Op::GT(), Value::Int(18), true, "age > 18"),
        ("age", Op::LT(), Value::Int(18), false, "age < 18 (false)"),
        ("age", Op::EQ(), Value::Int(25), true, "age == 25"),
        ("age", Op::NE(), Value::Int(25), false, "age != 25 (false)"),
        ("age", Op::GTE(), Value::Int(25), true, "age >= 25"),
        ("age", Op::LTE(), Value::Int(25), true, "age <= 25"),
        ("name", Op::EQ(), text("Alice"), true, "name == Alice"),
        ("name", Op::CONTAINS(), text("lic"), true, "name contains 'lic'"),
        ("name", Op::STARTS_WITH(), text("Ali"), true, "name starts with 'Ali'"),
        ("name", Op::ENDS_WITH(), text("ice"), true, "name ends with 'ice'"),
        ("active", Op::EQ(), Value::Bool(true), true, "active == true"),
        ("active", Op::NE(), Value::Bool(true), false, "active != true (false)"),
        ("unknown", Op::EQ(), Value::Int(1), false, "unknown field"),
    ];

    for (field, op, value, expected, desc) in test_cases {
        let condition = Condition::new(field, op, value);
        assert_eq!(condition.evaluate(&obj), expected, "Failed: {}", desc);
    }
}

// ==================== Conjunction Evaluation Tests ====================

#[test]
fn test_conjunction_evaluation() {
    let test_cases = vec![
        (
            mock(25, "Alice", true),
            vec![("age", Op::GT(), Value::Int(18))],
            true,
            "single passing condition",
        ),
        (
            mock(25, "Alice", true),
            vec![("age", Op::LT(), Value::Int(18))],
            false,
            "single failing condition",
        ),
        (
            mock(25, "Alice", true),
            vec![
                ("age", Op::GT(), Value::Int(18)),
                ("active", Op::EQ(), Value::Bool(true)),
            ],
            true,
            "multiple passing conditions (AND)",
        ),
        (
            mock(25, "Alice", true),
            vec![
                ("age", Op::GT(), Value::Int(18)),
                ("active", Op::EQ(), Value::Bool(false)),
            ],
            false,
            "one failing in AND",
        ),
        (mock(25, "Alice", true), vec![], true, "empty conjunction (vacuously true)"),
    ];

    for (obj, conditions, expected, desc) in test_cases {
        let conj = Conjunction::from_conditions(
            conditions
                .into_iter()
                .map(|(field, op, value)| Condition::new(field, op, value))
                .collect(),
        );
        assert_eq!(conj.evaluate(&obj), expected, "Failed: {}", desc);
    }
}

// ==================== DnfQuery Evaluation Tests ====================

#[test]
fn test_dnf_query_evaluation() {
    // (age > 18 AND active) OR (name == "Alice")
    let query = DnfQuery::builder()
        .or(|c| c.and("age", Op::GT(), 18).and("active", Op::EQ(), true))
        .or(|c| c.and("name", Op::EQ(), "Alice"))
        .build();

    let test_cases = vec![
        (mock(25, "Alice", true), true, "matches both conjunctions"),
        (mock(25, "Bob", true), true, "matches first conjunction only"),
        (mock(15, "Alice", false), true, "matches second conjunction only"),
        (mock(15, "Bob", false), false, "matches neither"),
        (mock(25, "Bob", false), false, "age ok but not active, name wrong"),
    ];

    for (obj, expected, desc) in test_cases {
        assert_eq!(query.evaluate(&obj), expected, "Failed: {}", desc);
    }
}

#[test]
fn test_empty_query_evaluation() {
    let query: DnfQuery = DnfQuery::from_conjunctions(vec![]);
    assert!(!query.evaluate(&mock(25, "Alice", true)));
    assert!(!query.evaluate(&mock(0, "", false)));
}

#[test]
fn test_query_with_empty_conjunction() {
    let query: DnfQuery =
        DnfQuery::from_conjunctions(vec![Conjunction::from_conditions(vec![])]);
    assert!(query.evaluate(&mock(25, "Alice", true)));
    assert!(query.evaluate(&mock(0, "", false)));
}

// ==================== Display Tests (Data-Driven) ====================

#[test]
fn test_condition_display() {
    let test_cases = vec![
        ("age", Op::GT(), Value::Int(18), "age > 18"),
        ("age", Op::LT(), Value::Int(18), "age < 18"),
        ("age", Op::EQ(), Value::Int(18), "age == 18"),
        ("age", Op::NE(), Value::Int(18), "age != 18"),
        ("age", Op::GTE(), Value::Int(18), "age >= 18"),
        ("age", Op::LTE(), Value::Int(18), "age <= 18"),
        ("name", Op::EQ(), text("Alice"), "name == \"Alice\""),
        ("name", Op::CONTAINS(), text("x"), "name CONTAINS \"x\""),
        ("name", Op::STARTS_WITH(), text("A"), "name STARTS WITH \"A\""),
        ("name", Op::ENDS_WITH(), text("e"), "name ENDS WITH \"e\""),
        ("active", Op::EQ(), Value::Bool(true), "active == true"),
    ];

    for (field, op, value, expected) in test_cases {
        let condition = Condition::new(field, op, value);
        assert_eq!(condition.to_string(), expected);
    }
}

#[test]
fn test_conjunction_display() {
    let conj = Conjunction::from_conditions(vec![
        Condition::new("age", Op::GT(), Value::Int(18)),
        Condition::new("active", Op::EQ(), Value::Bool(true)),
    ]);

    let display = conj.to_string();
    assert!(display.contains("age > 18"));
    assert!(display.contains("active == true"));
    assert!(display.contains("AND"));
}

#[test]
fn test_query_display() {
    let query = DnfQuery::builder()
        .or(|c| c.and("age", Op::GT(), 18))
        .or(|c| c.and("active", Op::EQ(), true))
        .build();

    let display = query.to_string();
    assert!(display.contains("age > 18"));
    assert!(display.contains("active == true"));
    assert!(display.contains("OR"));
}

// ==================== Introspection API Tests (Data-Driven) ====================

#[test]
fn test_field_names() {
    type TestCase = (fn() -> DnfQuery, Vec<&'static str>, &'static str);
    let test_cases: Vec<TestCase> = vec![
        (|| DnfQuery::from_conjunctions(vec![]), vec![], "empty query"),
        (
            || DnfQuery::builder().or(|c| c.and("age", Op::GT(), 18)).build(),
            vec!["age"],
            "single field",
        ),
        (
            || {
                DnfQuery::builder()
                    .or(|c| c.and("age", Op::GT(), 18).and("name", Op::EQ(), "x"))
                    .build()
            },
            vec!["age", "name"],
            "multiple fields in one conjunction",
        ),
        (
            || {
                DnfQuery::builder()
                    .or(|c| c.and("age", Op::GT(), 18))
                    .or(|c| c.and("name", Op::EQ(), "x"))
                    .build()
            },
            vec!["age", "name"],
            "fields across conjunctions",
        ),
        (
            || {
                DnfQuery::builder()
                    .or(|c| c.and("age", Op::GT(), 18).and("age", Op::LT(), 65))
                    .build()
            },
            vec!["age"],
            "duplicate field (should appear once)",
        ),
    ];

    for (build_fn, expected_fields, desc) in test_cases {
        let query = build_fn();
        let fields: HashSet<String> = query.field_names().into_iter().collect();
        let expected: HashSet<String> =
            expected_fields.into_iter().map(|s| s.to_string()).collect();
        assert_eq!(fields, expected, "Failed: {}", desc);
    }
}

#[test]
fn test_condition_count() {
    type TestCase = (fn() -> DnfQuery, usize, &'static str);
    let test_cases: Vec<TestCase> = vec![
        (|| DnfQuery::from_conjunctions(vec![]), 0, "empty query"),
        (
            || DnfQuery::builder().or(|c| c.and("a", Op::EQ(), 1)).build(),
            1,
            "single condition",
        ),
        (
            || {
                DnfQuery::builder()
                    .or(|c| c.and("a", Op::EQ(), 1).and("b", Op::EQ(), 2))
                    .build()
            },
            2,
            "two conditions in one conjunction",
        ),
        (
            || {
                DnfQuery::builder()
                    .or(|c| c.and("a", Op::EQ(), 1))
                    .or(|c| c.and("b", Op::EQ(), 2))
                    .build()
            },
            2,
            "two conditions across conjunctions",
        ),
        (
            || {
                DnfQuery::builder()
                    .or(|c| c.and("a", Op::EQ(), 1).and("b", Op::EQ(), 2))
                    .or(|c| c.and("c", Op::EQ(), 3))
                    .build()
            },
            3,
            "three conditions total",
        ),
        (
            || DnfQuery::from_conjunctions(vec![Conjunction::from_conditions(vec![])]),
            0,
            "empty conjunction",
        ),
    ];

    for (build_fn, expected, desc) in test_cases {
        let query = build_fn();
        assert_eq!(query.condition_count(), expected, "Failed: {}", desc);
    }
}

#[test]
fn test_uses_field() {
    let query = DnfQuery::builder()
        .or(|c| c.and("age", Op::GT(), 18).and("name", Op::EQ(), "x"))
        .or(|c| c.and("active", Op::EQ(), true))
        .build();

    let test_cases = vec![
        ("age", true),
        ("name", true),
        ("active", true),
        ("unknown", false),
        ("AGE", false), // case sensitive
        ("", false),
    ];

    for (field, expected) in test_cases {
        assert_eq!(query.uses_field(field), expected, "Failed for field: '{}'", field);
    }
}

#[test]
fn test_is_always_false() {
    type TestCase = (fn() -> DnfQuery, bool, &'static str);
    let test_cases: Vec<TestCase> = vec![
        (|| DnfQuery::from_conjunctions(vec![]), true, "empty query"),
        (
            || DnfQuery::builder().or(|c| c.and("x", Op::EQ(), 1)).build(),
            false,
            "query with condition",
        ),
        (
            || DnfQuery::from_conjunctions(vec![Conjunction::from_conditions(vec![])]),
            false,
            "query with empty conjunction (always true)",
        ),
    ];

    for (build_fn, expected, desc) in test_cases {
        let query = build_fn();
        assert_eq!(query.is_always_false(), expected, "Failed: {}", desc);
    }
}

#[test]
fn test_is_always_true() {
    type TestCase = (fn() -> DnfQuery, bool, &'static str);
    let test_cases: Vec<TestCase> = vec![
        (
            || DnfQuery::from_conjunctions(vec![]),
            false,
            "empty query (always false, not true)",
        ),
        (
            || DnfQuery::builder().or(|c| c.and("x", Op::EQ(), 1)).build(),
            false,
            "query with condition",
        ),
        (
            || DnfQuery::from_conjunctions(vec![Conjunction::from_conditions(vec![])]),
            true,
            "query with empty conjunction",
        ),
        (
            || {
                DnfQuery::from_conjunctions(vec![
                    Conjunction::from_conditions(vec![]),
                    Conjunction::from_conditions(vec![Condition::new(
                        "x",
                        Op::EQ(),
                        Value::Int(1),
                    )]),
                ])
            },
            true,
            "one empty + one non-empty conjunction",
        ),
    ];

    for (build_fn, expected, desc) in test_cases {
        let query = build_fn();
        assert_eq!(query.is_always_true(), expected, "Failed: {}", desc);
    }
}

// ==================== Edge Cases ====================

#[test]
fn test_unicode_field_names() {
    let query = DnfQuery::builder()
        .or(|c| c.and("名前", Op::EQ(), "太郎"))
        .or(|c| c.and("émoji", Op::EQ(), "🎉"))
        .build();

    assert!(query.uses_field("名前"));
    assert!(query.uses_field("émoji"));
    assert_eq!(query.condition_count(), 2);
}

#[test]
fn test_empty_string_values() {
    let query = DnfQuery::builder().or(|c| c.and("name", Op::EQ(), "")).build();

    assert_eq!(query.to_string(), "(name == \"\")");
}

#[test]
fn test_special_characters_in_strings() {
    let query = DnfQuery::builder()
        .or(|c| c.and("text", Op::EQ(), "hello \"world\""))
        .build();

    let display = query.to_string();
    assert!(display.contains("hello"));
}

#[test]
fn test_boundary_numeric_values() {
    let query = DnfQuery::builder()
        .or(|c| c.and("max_i64", Op::EQ(), i64::MAX))
        .or(|c| c.and("min_i64", Op::EQ(), i64::MIN))
        .or(|c| c.and("max_u64", Op::EQ(), u64::MAX))
        .or(|c| c.and("zero", Op::EQ(), 0i64))
        .build();

    assert_eq!(query.condition_count(), 4);
    assert!(query.uses_field("max_i64"));
    assert!(query.uses_field("min_i64"));
}

// ==================== Display / Parse Round Trip ====================

#[test]
fn test_display_roundtrip() {
    let query = DnfQuery::builder()
        .or(|c| c.and("age", Op::GT(), 18).and("country", Op::EQ(), "US"))
        .or(|c| c.and("premium", Op::EQ(), true).and("score", Op::GTE(), 100))
        .build();

    let display_str = query.to_string();
    assert_eq!(
        display_str,
        "(age > 18 AND country == \"US\") OR (premium == true AND score >= 100)"
    );

    let fields = vec![
        FieldInfo::new("age", "i64"),
        FieldInfo::new("country", "String"),
        FieldInfo::new("premium", "bool"),
        FieldInfo::new("score", "i64"),
    ];

    let parsed: DnfQuery = parse_with_fields(&display_str, &fields, None, None).unwrap();
    assert_eq!(query, parsed);
}

#[test]
fn test_display_roundtrip_single_condition() {
    let query = DnfQuery::builder().or(|c| c.and("name", Op::EQ(), "Alice")).build();

    let display_str = query.to_string();
    assert_eq!(display_str, "(name == \"Alice\")");

    let fields = vec![FieldInfo::new("name", "String")];
    let parsed: DnfQuery = parse_with_fields(&display_str, &fields, None, None).unwrap();
    assert_eq!(query, parsed);
}

#[test]
fn test_display_roundtrip_all_types() {
    let query = DnfQuery::builder()
        .or(|c| {
            c.and("int_field", Op::EQ(), 42)
                .and("uint_field", Op::EQ(), 7u64)
                .and("bool_field", Op::EQ(), true)
                .and("str_field", Op::EQ(), "hello")
        })
        .build();

    let display_str = query.to_string();

    let fields = vec![
        FieldInfo::new("int_field", "i64"),
        FieldInfo::new("uint_field", "u64"),
        FieldInfo::new("bool_field", "bool"),
        FieldInfo::new("str_field", "String"),
    ];

    let parsed: DnfQuery = parse_with_fields(&display_str, &fields, None, None).unwrap();
    assert_eq!(query, parsed);
}

// ==================== Custom Operator Tests ====================

struct MockWithFieldValue {
    age: i64,
    score: i64,
    name: String,
}

impl DnfEvaluable for MockWithFieldValue {
    fn evaluate_field(&self, field_name: &str, operator: &Op, value: &Value) -> bool {
        match field_name {
            "age" => self.age.evaluate(operator, value),
            "score" => self.score.evaluate(operator, value),
            "name" => self.name.evaluate(operator, value),
            _ => false,
        }
    }

    fn field_value(&self, field_name: &str) -> Option<Value> {
        match field_name {
            "age" => Some(Value::Int(self.age)),
            "score" => Some(Value::Int(self.score)),
            "name" => Some(Value::String(self.name.clone())),
            _ => None,
        }
    }

    fn fields() -> Vec<FieldInfo> {
        vec![
            FieldInfo::new("age", "i64"),
            FieldInfo::new("score", "i64"),
            FieldInfo::new("name", "String"),
        ]
    }

    fn validate_field_path(path: &str) -> Option<FieldKind> {
        root_field_kind(&Self::fields(), path)
    }
}

fn is_adult(field: &Value, _query: &Value) -> bool {
    matches!(field, Value::Int(n) if *n >= 18)
}

#[test]
fn test_custom_operator_basic() {
    let user = MockWithFieldValue { age: 25, score: 85, name: "Alice".to_string() };

    // Custom operator: IS_ADULT (age >= 18)
    let query = QueryBuilder::<FnOp>::new()
        .with_custom_op("IS_ADULT", false, op(is_adult))
        .or(|c| c.and("age", Op::custom("IS_ADULT"), Value::Null))
        .build();

    assert!(query.evaluate(&user));
}

fn between_op(field: &Value, query: &Value) -> bool {
    let Value::IntArray(range) = query else {
        return false;
    };
    if range.len() < 2 {
        return false;
    }
    match field {
        Value::Int(n) => *n >= range[0] && *n <= range[1],
        _ => false,
    }
}

#[test]
fn test_custom_operator_with_query_value() {
    let user = MockWithFieldValue { age: 25, score: 85, name: "Alice".to_string() };

    let query = QueryBuilder::<FnOp>::new()
        .with_custom_op("BETWEEN", false, op(between_op))
        .or(|c| c.and("score", Op::custom("BETWEEN"), vec![80i64, 100]))
        .build();

    assert!(query.evaluate(&user));

    // Out of range
    let query = QueryBuilder::<FnOp>::new()
        .with_custom_op("BETWEEN", false, op(between_op))
        .or(|c| c.and("score", Op::custom("BETWEEN"), vec![90i64, 100]))
        .build();

    assert!(!query.evaluate(&user));
}

#[test]
fn test_custom_operator_not() {
    let user = MockWithFieldValue { age: 15, score: 85, name: "Bob".to_string() };

    // NOT IS_ADULT (age < 18)
    let query = QueryBuilder::<FnOp>::new()
        .with_custom_op("IS_ADULT", false, op(is_adult))
        .or(|c| c.and("age", Op::not_custom("IS_ADULT"), Value::Null))
        .build();

    assert!(query.evaluate(&user)); // 15 is NOT adult
}

#[test]
fn test_custom_operator_without_registry() {
    let user = MockWithFieldValue { age: 25, score: 85, name: "Alice".to_string() };

    // No custom op registered - should return false
    let query = DnfQuery::builder()
        .or(|c| c.and("age", Op::custom("UNKNOWN_OP"), Value::Null))
        .build();

    assert!(!query.evaluate(&user));
}

#[test]
fn test_custom_operator_combined_with_standard() {
    let user = MockWithFieldValue { age: 25, score: 85, name: "Alice".to_string() };

    let query = QueryBuilder::<FnOp>::new()
        .with_custom_op("IS_ADULT", false, op(is_adult))
        .or(|c| {
            c.and("name", Op::STARTS_WITH(), "Ali")
                .and("age", Op::custom("IS_ADULT"), Value::Null)
        })
        .build();

    assert!(query.evaluate(&user));
}

#[test]
fn test_custom_operator_registry() {
    let user = MockWithFieldValue { age: 25, score: 85, name: "Alice".to_string() };

    let mut registry = OpRegistry::new();
    registry.register("IS_ADULT", true, op(is_adult));
    registry.register(
        "IS_PASSING",
        true,
        op(|field, _| matches!(field, Value::Int(n) if *n >= 60)),
    );

    let query = QueryBuilder::<FnOp>::new()
        .with_custom_ops(registry)
        .or(|c| {
            c.and("age", Op::custom("IS_ADULT"), Value::Null)
                .and("score", Op::custom("IS_PASSING"), Value::Null)
        })
        .build();

    assert!(query.evaluate(&user));
}
