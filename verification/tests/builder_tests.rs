use dnf::builder::QueryBuilder;
use dnf::custom::{CustomOp, NoCustomOp, OpRegistry};
use dnf::field::DnfField;
use dnf::operator::Op;
use dnf::query::{root_field_kind, DnfEvaluable, DnfQuery};
use dnf::value::Value;
use dnf::{DnfError, FieldInfo, FieldKind};
use std::rc::Rc;

fn text(s: &str) -> Value {
    Value::String(s.to_string())
}

/// A custom operator made from a closure.
#[derive(Clone)]
struct FnOp(Rc<dyn Fn(&Value, &Value) -> bool>);

impl std::fmt::Debug for FnOp {
    fn fmt(&self, f: &mut std::fmt::Formatter<'_>) -> std::fmt::Result {
        f.write_str("FnOp")
    }
}

impl CustomOp for FnOp {
    fn apply(&self, field: &Value, query: &Value) -> bool {
        (self.0)(field, query)
    }
}

fn op(f: impl Fn(&Value, &Value) -> bool + 'static) -> FnOp {
    FnOp(Rc::new(f))
}

// ==================== Data-Driven Structure Tests ====================

struct BuilderStructureCase {
    name: &'static str,
    build_fn: fn() -> DnfQuery,
    expected_conjunctions: usize,
    expected_conditions_per_conjunction: Vec<usize>,
}

#[test]
fn test_builder_structure() {
    let cases = vec![
        BuilderStructureCase {
            name: "empty query",
            build_fn: || QueryBuilder::new().build(),
            expected_conjunctions: 0,
            expected_conditions_per_conjunction: vec![],
        },
        BuilderStructureCase {
            name: "single condition",
            build_fn: || QueryBuilder::new().or(|c| c.and("age", Op::GT(), 18)).build(),
            expected_conjunctions: 1,
            expected_conditions_per_conjunction: vec![1],
        },
        BuilderStructureCase {
            name: "two conditions in one conjunction (AND)",
            build_fn: || {
                QueryBuilder::new()
                    .or(|c| c.and("age", Op::GT(), 18).and("country", Op::EQ(), "US"))
                    .build()
            },
            expected_conjunctions: 1,
            expected_conditions_per_conjunction: vec![2],
        },
        BuilderStructureCase {
            name: "two conjunctions (OR)",
            build_fn: || {
                QueryBuilder::new()
                    .or(|c| c.and("age", Op::GT(), 18))
                    .or(|c| c.and("premium", Op::EQ(), true))
                    .build()
            },
            expected_conjunctions: 2,
            expected_conditions_per_conjunction: vec![1, 1],
        },
        BuilderStructureCase {
            name: "complex: (A AND B) OR (C AND D)",
            build_fn: || {
                QueryBuilder::new()
                    .or(|c| c.and("age", Op::GT(), 18).and("country", Op::EQ(), "US"))
                    .or(|c| c.and("premium", Op::EQ(), true).and("verified", Op::EQ(), true))
                    .build()
            },
            expected_conjunctions: 2,
            expected_conditions_per_conjunction: vec![2, 2],
        },
        BuilderStructureCase {
            name: "many conditions in single conjunction",
            build_fn: || {
                QueryBuilder::new()
                    .or(|c| {
                        c.and("a", Op::EQ(), 1)
                            .and("b", Op::EQ(), 2)
                            .and("c", Op::EQ(), 3)
                            .and("d", Op::EQ(), 4)
                            .and("e", Op::EQ(), 5)
                    })
                    .build()
            },
            expected_conjunctions: 1,
            expected_conditions_per_conjunction: vec![5],
        },
        BuilderStructureCase {
            name: "many conjunctions with single condition each",
            build_fn: || {
                QueryBuilder::new()
                    .or(|c| c.and("a", Op::EQ(), 1))
                    .or(|c| c.and("b", Op::EQ(), 2))
                    .or(|c| c.and("c", Op::EQ(), 3))
                    .or(|c| c.and("d", Op::EQ(), 4))
                    .or(|c| c.and("e", Op::EQ(), 5))
                    .build()
            },
            expected_conjunctions: 5,
            expected_conditions_per_conjunction: vec![1, 1, 1, 1, 1],
        },
        BuilderStructureCase {
            name: "empty conjunction (filtered out)",
            build_fn: || QueryBuilder::new().or(|c| c).build(),
            expected_conjunctions: 0,
            expected_conditions_per_conjunction: vec![],
        },
    ];

    for case in cases {
        let query = (case.build_fn)();

        assert_eq!(
            query.conjunctions().len(),
            case.expected_conjunctions,
            "Failed '{}': conjunction count mismatch",
            case.name
        );

        for (i, &expected_count) in case.expected_conditions_per_conjunction.iter().enumerate() {
            assert_eq!(
                query.conjunctions()[i].conditions().len(),
                expected_count,
                "Failed '{}': condition count mismatch in conjunction {}",
                case.name,
                i
            );
        }
    }
}

// ==================== Operator Coverage Tests ====================

#[test]
fn test_builder_all_operators() {
    let test_cases: Vec<(&str, Op, Value)> = vec![
        ("eq", Op::EQ(), Value::Int(1)),
        ("ne", Op::NE(), Value::Int(2)),
        ("gt", Op::GT(), Value::Int(3)),
        ("lt", Op::LT(), Value::Int(4)),
        ("gte", Op::GTE(), Value::Int(5)),
        ("lte", Op::LTE(), Value::Int(6)),
        ("contains", Op::CONTAINS(), text("test")),
        ("not_contains", Op::NOT_CONTAINS(), text("bad")),
        ("starts_with", Op::STARTS_WITH(), text("hello")),
        ("not_starts_with", Op::NOT_STARTS_WITH(), text("x")),
        ("ends_with", Op::ENDS_WITH(), text("world")),
        ("not_ends_with", Op::NOT_ENDS_WITH(), text("y")),
        ("all_of", Op::ALL_OF(), Value::IntArray(vec![1, 2, 3])),
        ("any_of", Op::ANY_OF(), Value::IntArray(vec![4, 5, 6])),
    ];

    for (name, op, value) in test_cases {
        let query: DnfQuery = QueryBuilder::new()
            .or(|c| c.and("field", op.clone(), value.clone()))
            .build();

        assert_eq!(query.conjunctions().len(), 1, "Failed for operator: {}", name);
        let condition = &query.conjunctions()[0].conditions()[0];
        assert_eq!(condition.field_name(), "field", "Failed for operator: {}", name);
        assert_eq!(condition.operator(), &op, "Failed for operator: {}", name);
    }
}

// ==================== Value Type Tests ====================

#[test]
fn test_builder_value_types() {
    type TestCase = (&'static str, fn() -> DnfQuery);

    let test_cases: Vec<TestCase> = vec![
        ("i64", || QueryBuilder::new().or(|c| c.and("field", Op::EQ(), 42i64)).build()),
        ("i32", || QueryBuilder::new().or(|c| c.and("field", Op::EQ(), 42i32)).build()),
        ("u64", || QueryBuilder::new().or(|c| c.and("field", Op::EQ(), 42u64)).build()),
        ("u32", || QueryBuilder::new().or(|c| c.and("field", Op::EQ(), 42u32)).build()),
        ("bool true", || QueryBuilder::new().or(|c| c.and("field", Op::EQ(), true)).build()),
        ("bool false", || QueryBuilder::new().or(|c| c.and("field", Op::EQ(), false)).build()),
        ("&str", || QueryBuilder::new().or(|c| c.and("field", Op::EQ(), "hello")).build()),
        ("String", || {
            QueryBuilder::new()
                .or(|c| c.and("field", Op::EQ(), String::from("hello")))
                .build()
        }),
        ("empty string", || QueryBuilder::new().or(|c| c.and("field", Op::EQ(), "")).build()),
        ("Vec<i64>", || {
            QueryBuilder::new()
                .or(|c| c.and("field", Op::ANY_OF(), vec![1i64, 2, 3]))
                .build()
        }),
        ("Vec<&str>", || {
            QueryBuilder::new()
                .or(|c| c.and("field", Op::ANY_OF(), vec!["a", "b", "c"]))
                .build()
        }),
    ];

    for (type_label, build_fn) in test_cases {
        let query = build_fn();
        assert_eq!(query.conjunctions().len(), 1, "Failed for type: {}", type_label);
        assert_eq!(
            query.conjunctions()[0].conditions().len(),
            1,
            "Failed for type: {}",
            type_label
        );
    }
}

// ==================== Field Name Edge Cases ====================

#[test]
fn test_builder_field_name_edge_cases() {
    let test_cases: Vec<(&str, &str)> = vec![
        ("simple", "age"),
        ("underscore", "user_name"),
        ("camelCase", "userName"),
        ("with numbers", "field123"),
        ("single char", "x"),
        ("unicode", "名前"),
        ("emoji", "🎉"),
        ("dots (nested)", "user.address.city"),
        ("spaces", "field with spaces"),
        ("empty string", ""),
    ];

    for (name, field_name) in test_cases {
        let query: DnfQuery = QueryBuilder::new().or(|c| c.and(field_name, Op::EQ(), 1)).build();

        assert_eq!(
            query.conjunctions()[0].conditions()[0].field_name(),
            field_name,
            "Failed for field name case: {}",
            name
        );
    }
}

// ==================== Condition Content Verification ====================

#[test]
fn test_builder_condition_content() {
    let query: DnfQuery = QueryBuilder::new().or(|c| c.and("age", Op::GT(), 18i64)).build();
    let cond = &query.conjunctions()[0].conditions()[0];
    assert_eq!(cond.field_name(), "age");
    assert_eq!(cond.operator(), &Op::GT());
    assert_eq!(cond.value(), &Value::Int(18));

    let query: DnfQuery = QueryBuilder::new().or(|c| c.and("name", Op::EQ(), "Alice")).build();
    let cond = &query.conjunctions()[0].conditions()[0];
    assert_eq!(cond.field_name(), "name");
    assert_eq!(cond.operator(), &Op::EQ());
    assert_eq!(cond.value(), &text("Alice"));

    let query: DnfQuery = QueryBuilder::new().or(|c| c.and("active", Op::NE(), false)).build();
    let cond = &query.conjunctions()[0].conditions()[0];
    assert_eq!(cond.field_name(), "active");
    assert_eq!(cond.operator(), &Op::NE());
    assert_eq!(cond.value(), &Value::Bool(false));

    let query: DnfQuery = QueryBuilder::new()
        .or(|c| c.and("a", Op::EQ(), 1i64).and("b", Op::GT(), 2i64).and("c", Op::LT(), 3i64))
        .build();
    let conditions = query.conjunctions()[0].conditions();
    assert_eq!(conditions[0].field_name(), "a");
    assert_eq!(conditions[1].field_name(), "b");
    assert_eq!(conditions[2].field_name(), "c");
}

// ==================== Custom Operator Tests ====================

struct TestData {
    age: i64,
    score: i64,
}

impl DnfEvaluable for TestData {
    fn evaluate_field(&self, field_name: &str, operator: &Op, value: &Value) -> bool {
        match field_name {
            "age" => self.age.evaluate(operator, value),
            "score" => self.score.evaluate(operator, value),
            _ => false,
        }
    }

    fn field_value(&self, field_name: &str) -> Option<Value> {
        match field_name {
            "age" => Some(Value::Int(self.age)),
            "score" => Some(Value::Int(self.score)),
            _ => None,
        }
    }

    fn fields() -> Vec<FieldInfo> {
        vec![FieldInfo::new("age", "i64"), FieldInfo::new("score", "i64")]
    }

    fn validate_field_path(path: &str) -> Option<FieldKind> {
        root_field_kind(&Self::fields(), path)
    }
}

fn is_adult(field: &Value, _query: &Value) -> bool {
    matches!(field, Value::Int(n) if *n >= 18)
}

fn high_score(field: &Value, query: &Value) -> bool {
    matches!((field, query), (Value::Int(f), Value::Int(q)) if f >= q)
}

#[test]
fn test_builder_with_custom_ops() {
    let mut registry = OpRegistry::new();
    registry.register("IS_ADULT", true, op(is_adult));

    let query = QueryBuilder::<FnOp>::new()
        .with_custom_ops(registry)
        .or(|c| c.and("age", Op::custom("IS_ADULT"), Value::Null))
        .build();

    let adult = TestData { age: 25, score: 100 };
    let child = TestData { age: 10, score: 90 };

    assert!(query.evaluate(&adult), "Adult should match IS_ADULT");
    assert!(!query.evaluate(&child), "Child should not match IS_ADULT");

    let query = QueryBuilder::<FnOp>::new()
        .with_custom_op("HIGH_SCORE", false, op(high_score))
        .or(|c| c.and("score", Op::custom("HIGH_SCORE"), 95))
        .build();

    assert!(query.evaluate(&adult), "Adult with score 100 should match HIGH_SCORE >= 95");
    assert!(!query.evaluate(&child), "Child with score 90 should not match HIGH_SCORE >= 95");

    let query = QueryBuilder::<FnOp>::new()
        .with_custom_op("IS_ADULT", false, op(is_adult))
        .with_custom_op("HIGH_SCORE", false, op(high_score))
        .or(|c| c.and("age", Op::custom("IS_ADULT"), Value::Null))
        .or(|c| c.and("score", Op::custom("HIGH_SCORE"), 95))
        .build();

    assert!(query.evaluate(&adult), "Adult should match (adult OR high score)");
    assert!(!query.evaluate(&child), "Child should not match (adult OR high score)");

    let query = QueryBuilder::<FnOp>::new()
        .with_custom_op("IS_ADULT", false, op(is_adult))
        .or(|c| c.and("age", Op::custom("IS_ADULT"), Value::Null).and("score", Op::GT(), 80))
        .build();

    let young_high_scorer = TestData { age: 16, score: 95 };

    assert!(
        query.evaluate(&adult),
        "Adult with score 100 should match (IS_ADULT AND score > 80)"
    );
    assert!(
        !query.evaluate(&young_high_scorer),
        "Young high scorer should not match (IS_ADULT AND score > 80)"
    );
}

// ==================== Parser Integration ====================

struct TestUser {
    age: u32,
    name: String,
    active: bool,
}

impl DnfEvaluable for TestUser {
    fn evaluate_field(&self, field_name: &str, operator: &Op, value: &Value) -> bool {
        match field_name {
            "age" => self.age.evaluate(operator, value),
            "name" => self.name.evaluate(operator, value),
            "active" => self.active.evaluate(operator, value),
            _ => false,
        }
    }

    fn field_value(&self, _field_name: &str) -> Option<Value> {
        None
    }

    fn fields() -> Vec<FieldInfo> {
        vec![
            FieldInfo::new("age", "u32"),
            FieldInfo::new("name", "String"),
            FieldInfo::new("active", "bool"),
        ]
    }

    fn validate_field_path(path: &str) -> Option<FieldKind> {
        root_field_kind(&Self::fields(), path)
    }
}

#[test]
fn test_from_query() {
    let test_cases = vec![
        ("age > 18", 1, vec![1]),
        ("age > 18 AND name == \"Alice\"", 1, vec![2]),
        ("age > 18 OR active == true", 2, vec![1, 1]),
        ("(age > 18 AND name == \"Alice\") OR active == true", 2, vec![2, 1]),
    ];

    for (query_str, expected_conj, expected_conds) in test_cases {
        let query = QueryBuilder::from_query::<TestUser>(query_str)
            .unwrap_or_else(|e| panic!("Failed to parse '{}': {:?}", query_str, e));

        assert_eq!(
            query.conjunctions().len(),
            expected_conj,
            "Conjunction count mismatch for: {}",
            query_str
        );

        for (i, &expected_count) in expected_conds.iter().enumerate() {
            assert_eq!(
                query.conjunctions()[i].conditions().len(),
                expected_count,
                "Condition count mismatch for '{}' conjunction {}",
                query_str,
                i
            );
        }
    }
}

#[test]
fn test_from_query_errors() {
    let error_cases = vec![
        ("unknown_field > 18", "unknown field"),
        ("age > \"not a number\"", "type mismatch"),
        ("age >", "incomplete expression"),
        ("", "empty query"),
    ];

    for (query_str, desc) in error_cases {
        let result = QueryBuilder::from_query::<TestUser>(query_str);
        assert!(
            result.is_err(),
            "Expected error for '{}' ({}), got: {:?}",
            query_str,
            desc,
            result
        );
    }
}

// ==================== Builder Validate Tests ====================

struct TestDoc {
    title: String,
    count: u32,
}

impl DnfEvaluable for TestDoc {
    fn evaluate_field(&self, field_name: &str, operator: &Op, value: &Value) -> bool {
        match field_name {
            "title" => self.title.evaluate(operator, value),
            "count" => self.count.evaluate(operator, value),
            _ => false,
        }
    }

    fn field_value(&self, _field_name: &str) -> Option<Value> {
        None
    }

    fn fields() -> Vec<FieldInfo> {
        vec![FieldInfo::new("title", "String"), FieldInfo::new("count", "u32")]
    }

    fn validate_field_path(path: &str) -> Option<FieldKind> {
        root_field_kind(&Self::fields(), path)
    }
}

#[test]
fn test_builder_validate_fields() {
    let test_cases: Vec<(&str, bool, &str)> = vec![
        ("title", true, "valid field"),
        ("count", true, "valid field"),
        ("unknown", false, "unknown field"),
        ("titl", false, "typo in field"),
    ];

    for (field, expected_ok, desc) in test_cases {
        let result = QueryBuilder::<NoCustomOp>::new()
            .or(|c| c.and(field, Op::EQ(), "test"))
            .validate::<TestDoc>();

        assert_eq!(result.is_ok(), expected_ok, "Failed: {}", desc);
    }
}

#[test]
fn test_builder_validate_custom_ops() {
    let test_cases: Vec<(bool, bool, &str)> = vec![
        (true, true, "registered custom op"),
        (false, false, "unregistered custom op"),
    ];

    for (has_registration, expected_ok, desc) in test_cases {
        let mut builder = QueryBuilder::<FnOp>::new();

        if has_registration {
            builder = builder.with_custom_op("CUSTOM", true, op(|_, _| true));
        }

        let result = builder
            .or(|c| c.and("title", Op::custom("CUSTOM"), Value::Null))
            .validate::<TestDoc>();

        assert_eq!(result.is_ok(), expected_ok, "Failed: {}", desc);
    }
}

#[test]
fn test_builder_validate_chaining() {
    let query = QueryBuilder::<NoCustomOp>::new()
        .or(|c| c.and("title", Op::EQ(), "test"))
        .validate::<TestDoc>()
        .expect("should validate")
        .or(|c| c.and("count", Op::GT(), 0))
        .build();

    assert_eq!(query.conjunctions().len(), 2);
}

#[test]
fn test_builder_validate_map_target_on_non_map() {
    let result = QueryBuilder::<NoCustomOp>::new()
        .or(|c| c.and("title", Op::EQ(), Value::at_key("k", "v")))
        .validate::<TestDoc>();

    assert!(result.is_err());
    match result.unwrap_err() {
        DnfError::InvalidMapTarget { field_name, field_kind } => {
            assert_eq!(&*field_name, "title");
            assert_eq!(field_kind, FieldKind::Scalar);
        }
        err => panic!("Expected InvalidMapTarget, got {:?}", err),
    }
}

#[test]
fn test_builder_or_query() {
    let test_cases: Vec<(usize, usize, usize)> = vec![(1, 1, 2), (2, 1, 3), (0, 2, 2), (3, 0, 3)];

    for (q1_count, q2_count, expected) in test_cases {
        let mut builder1 = QueryBuilder::<NoCustomOp>::new();
        for i in 0..q1_count {
            builder1 = builder1.or(|c| c.and(&format!("field{}", i), Op::EQ(), i as i64));
        }

        let mut builder2 = QueryBuilder::<NoCustomOp>::new();
        for i in 0..q2_count {
            builder2 = builder2.or(|c| c.and(&format!("other{}", i), Op::EQ(), (i + 10) as i64));
        }
        let query2 = builder2.build();

        let combined = builder1.or_query(query2).build();

        assert_eq!(
            combined.conjunctions().len(),
            expected,
            "Failed: {} + {} = {}",
            q1_count,
            q2_count,
            expected
        );
    }
}

#[test]
fn test_builder_or_query_with_validate() {
    let parsed = QueryBuilder::<NoCustomOp>::new().or(|c| c.and("count", Op::GT(), 0)).build();

    let query = QueryBuilder::<NoCustomOp>::new()
        .or(|c| c.and("title", Op::EQ(), "test"))
        .or_query(parsed)
        .validate::<TestDoc>()
        .expect("should validate")
        .build();

    assert_eq!(query.conjunctions().len(), 2);
}

// ==================== Merge Tests ====================

#[test]
fn test_query_merge() {
    let test_cases: Vec<(usize, usize, usize)> = vec![(1, 1, 2), (2, 3, 5), (0, 1, 1), (1, 0, 1)];

    for (q1_count, q2_count, expected) in test_cases {
        let mut builder1 = QueryBuilder::<NoCustomOp>::new();
        for i in 0..q1_count {
            builder1 = builder1.or(|c| c.and(&format!("a{}", i), Op::EQ(), i as i64));
        }
        let q1 = builder1.build();

        let mut builder2 = QueryBuilder::<NoCustomOp>::new();
        for i in 0..q2_count {
            builder2 = builder2.or(|c| c.and(&format!("b{}", i), Op::EQ(), i as i64));
        }
        let q2 = builder2.build();

        let merged = q1.merge(q2);

        assert_eq!(
            merged.conjunctions().len(),
            expected,
            "Failed: {} + {} = {}",
            q1_count,
            q2_count,
            expected
        );
    }
}

#[test]
fn test_query_merge_preserves_custom_ops() {
    let q1 = QueryBuilder::<FnOp>::new()
        .with_custom_op("OP1", true, op(|_, _| true))
        .or(|c| c.and("x", Op::custom("OP1"), Value::Null))
        .build();

    let q2 = QueryBuilder::<FnOp>::new()
        .with_custom_op("OP2", true, op(|_, _| false))
        .or(|c| c.and("y", Op::custom("OP2"), Value::Null))
        .build();

    let merged = q1.merge(q2);

    assert!(merged.has_custom_op("OP1"));
    assert!(merged.has_custom_op("OP2"));
}
