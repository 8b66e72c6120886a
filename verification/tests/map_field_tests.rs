use dnf::builder::QueryBuilder;
use dnf::custom::CustomOp;
use dnf::field::{DnfField, FieldMap};
use dnf::operator::Op;
use dnf::query::{root_field_kind, DnfEvaluable, DnfQuery};
use dnf::types::field_info_for;
use dnf::value::Value;
use dnf::{DnfError, FieldInfo, FieldKind};
use std::rc::Rc;

// ==================== Map-Field Structs ====================

#[derive(Debug)]
struct Document {
    title: String,
    metadata: FieldMap<String>,
}

impl DnfEvaluable for Document {
    fn evaluate_field(&self, field_name: &str, operator: &Op, value: &Value) -> bool {
        match field_name {
            "title" => self.title.evaluate(operator, value),
            "metadata" => self.metadata.evaluate(operator, value),
            _ => false,
        }
    }

    fn field_value(&self, field_name: &str) -> Option<Value> {
        match field_name {
            "title" => Some(Value::String(self.title.clone())),
            _ => None,
        }
    }

    fn fields() -> Vec<FieldInfo> {
        vec![
            field_info_for("title", "String", false),
            field_info_for("metadata", "HashMap < String , String >", false),
        ]
    }

    fn validate_field_path(path: &str) -> Option<FieldKind> {
        root_field_kind(&Self::fields(), path)
    }
}

#[derive(Debug)]
struct Config {
    name: String,
    settings: FieldMap<i64>,
}

impl DnfEvaluable for Config {
    fn evaluate_field(&self, field_name: &str, operator: &Op, value: &Value) -> bool {
        match field_name {
            "name" => self.name.evaluate(operator, value),
            "settings" => self.settings.evaluate(operator, value),
            _ => false,
        }
    }

    fn field_value(&self, field_name: &str) -> Option<Value> {
        match field_name {
            "name" => Some(Value::String(self.name.clone())),
            _ => None,
        }
    }

    fn fields() -> Vec<FieldInfo> {
        vec![
            field_info_for("name", "String", false),
            field_info_for("settings", "HashMap < String , i64 >", false),
        ]
    }

    fn validate_field_path(path: &str) -> Option<FieldKind> {
        root_field_kind(&Self::fields(), path)
    }
}

/// A custom operator made from a closure.
#[derive(Clone)]
struct FnOp(Rc<dyn Fn(&Value, &Value) -> bool>);

impl std::fmt::Debug for FnOp {
    fn fmt(&self, f: &mut std::fmt::Formatter<'_>) -> std::fmt::Result {
        f.write_str("FnOp")
    }
}

impl CustomOp for FnOp {
    fn apply(&self, field: &Value, query: &Value) -> bool {
        (self.0)(field, query)
    }
}

fn op(f: impl Fn(&Value, &Value) -> bool + 'static) -> FnOp {
    FnOp(Rc::new(f))
}

// ==================== Tests: AtKey Access ====================

#[test]
fn test_hashmap_at_key_equals() {
    let mut metadata = FieldMap::new();
    metadata.insert("author".to_string(), "Alice".to_string());
    metadata.insert("version".to_string(), "1.0".to_string());

    let doc = Document {
        title: "README".to_string(),
        metadata,
    };

    // metadata["author"] == "Alice"
    let query = DnfQuery::builder()
        .or(|c| c.and("metadata", Op::EQ(), Value::at_key("author", "Alice")))
        .build();

    assert!(query.evaluate(&doc));
}

#[test]
fn test_hashmap_at_key_not_equals() {
    let mut metadata = FieldMap::new();
    metadata.insert("author".to_string(), "Alice".to_string());

    let doc = Document {
        title: "README".to_string(),
        metadata,
    };

    // metadata["author"] != "Bob"
    let query = DnfQuery::builder()
        .or(|c| c.and("metadata", Op::NE(), Value::at_key("author", "Bob")))
        .build();

    assert!(query.evaluate(&doc));
}

#[test]
fn test_hashmap_at_key_missing() {
    let metadata = FieldMap::new();
    let doc = Document {
        title: "README".to_string(),
        metadata,
    };

    // metadata["author"] == "Alice" -> false (key doesn't exist)
    let query = DnfQuery::builder()
        .or(|c| c.and("metadata", Op::EQ(), Value::at_key("author", "Alice")))
        .build();

    assert!(!query.evaluate(&doc));
}

#[test]
fn test_hashmap_at_key_missing_not_equals() {
    let metadata = FieldMap::new();
    let doc = Document {
        title: "README".to_string(),
        metadata,
    };

    // metadata["author"] != "Alice" -> true (missing key != anything)
    let query = DnfQuery::builder()
        .or(|c| c.and("metadata", Op::NE(), Value::at_key("author", "Alice")))
        .build();

    assert!(query.evaluate(&doc));
}

#[test]
fn test_hashmap_at_key_numeric() {
    let mut settings = FieldMap::new();
    settings.insert("timeout".to_string(), 30);
    settings.insert("retries".to_string(), 3);

    let config = Config {
        name: "default".to_string(),
        settings,
    };

    // settings["timeout"] > 20
    let query = DnfQuery::builder()
        .or(|c| c.and("settings", Op::GT(), Value::at_key("timeout", 20)))
        .build();

    assert!(query.evaluate(&config));
}

// ==================== Tests: Keys Access ====================

#[test]
fn test_hashmap_keys_contains() {
    let mut metadata = FieldMap::new();
    metadata.insert("author".to_string(), "Alice".to_string());
    metadata.insert("version".to_string(), "1.0".to_string());

    let doc = Document {
        title: "README".to_string(),
        metadata,
    };

    // metadata.@keys CONTAINS "author"
    let query = DnfQuery::builder()
        .or(|c| c.and("metadata", Op::CONTAINS(), Value::keys("author")))
        .build();

    assert!(query.evaluate(&doc));
}

#[test]
fn test_hashmap_keys_not_contains() {
    let mut metadata = FieldMap::new();
    metadata.insert("author".to_string(), "Alice".to_string());

    let doc = Document {
        title: "README".to_string(),
        metadata,
    };

    // metadata.@keys NOT CONTAINS "missing_key"
    let query = DnfQuery::builder()
        .or(|c| c.and("metadata", Op::NOT_CONTAINS(), Value::keys("missing_key")))
        .build();

    assert!(query.evaluate(&doc));
}

#[test]
fn test_hashmap_keys_all_of() {
    let mut metadata = FieldMap::new();
    metadata.insert("author".to_string(), "Alice".to_string());
    metadata.insert("version".to_string(), "1.0".to_string());
    metadata.insert("date".to_string(), "2024-01-01".to_string());

    let doc = Document {
        title: "README".to_string(),
        metadata,
    };

    // metadata.@keys ALL OF ["author", "version"]
    let query = DnfQuery::builder()
        .or(|c| {
            c.and(
                "metadata",
                Op::ALL_OF(),
                Value::keys(vec!["author", "version"]),
            )
        })
        .build();

    assert!(query.evaluate(&doc));
}

#[test]
fn test_hashmap_keys_any_of() {
    let mut metadata = FieldMap::new();
    metadata.insert("author".to_string(), "Alice".to_string());

    let doc = Document {
        title: "README".to_string(),
        metadata,
    };

    // metadata.@keys ANY OF ["author", "editor", "approver"]
    let query = DnfQuery::builder()
        .or(|c| {
            c.and(
                "metadata",
                Op::ANY_OF(),
                Value::keys(vec!["author", "editor", "approver"]),
            )
        })
        .build();

    assert!(query.evaluate(&doc));
}

// ==================== Tests: Values Access ====================

#[test]
fn test_hashmap_values_contains() {
    let mut metadata = FieldMap::new();
    metadata.insert("author".to_string(), "Alice".to_string());
    metadata.insert("editor".to_string(), "Bob".to_string());

    let doc = Document {
        title: "README".to_string(),
        metadata,
    };

    // metadata.@values CONTAINS "Alice"
    let query = DnfQuery::builder()
        .or(|c| c.and("metadata", Op::CONTAINS(), Value::values("Alice")))
        .build();

    assert!(query.evaluate(&doc));
}

#[test]
fn test_hashmap_values_any_of() {
    let mut metadata = FieldMap::new();
    metadata.insert("author".to_string(), "Alice".to_string());

    let doc = Document {
        title: "README".to_string(),
        metadata,
    };

    // metadata.@values ANY OF ["Alice", "Charlie"]
    let query = DnfQuery::builder()
        .or(|c| {
            c.and(
                "metadata",
                Op::ANY_OF(),
                Value::values(vec!["Alice", "Charlie"]),
            )
        })
        .build();

    assert!(query.evaluate(&doc));
}

#[test]
fn test_hashmap_values_numeric() {
    let mut settings = FieldMap::new();
    settings.insert("timeout".to_string(), 30);
    settings.insert("retries".to_string(), 3);

    let config = Config {
        name: "default".to_string(),
        settings,
    };

    // settings.@values CONTAINS 30
    let query = DnfQuery::builder()
        .or(|c| c.and("settings", Op::CONTAINS(), Value::values(30i64)))
        .build();

    assert!(query.evaluate(&config));
}

// ==================== Tests: FieldInfo ====================

// ==================== Tests: Empty Maps ====================

#[test]
fn test_hashmap_empty_keys_contains() {
    let doc = Document {
        title: "Empty".to_string(),
        metadata: FieldMap::new(),
    };

    // metadata.@keys CONTAINS "author" -> false
    let query = DnfQuery::builder()
        .or(|c| c.and("metadata", Op::CONTAINS(), Value::keys("author")))
        .build();

    assert!(!query.evaluate(&doc));
}

#[test]
fn test_hashmap_empty_keys_not_contains() {
    let doc = Document {
        title: "Empty".to_string(),
        metadata: FieldMap::new(),
    };

    // metadata.@keys NOT CONTAINS "author" -> true
    let query = DnfQuery::builder()
        .or(|c| c.and("metadata", Op::NOT_CONTAINS(), Value::keys("author")))
        .build();

    assert!(query.evaluate(&doc));
}

// ==================== Tests: Complex Queries ====================

#[test]
fn test_hashmap_combined_with_scalar_fields() {
    let mut metadata = FieldMap::new();
    metadata.insert("author".to_string(), "Alice".to_string());

    let doc = Document {
        title: "README".to_string(),
        metadata,
    };

    // title == "README" AND metadata["author"] == "Alice"
    let query = DnfQuery::builder()
        .or(|c| {
            c.and("title", Op::EQ(), "README").and(
                "metadata",
                Op::EQ(),
                Value::at_key("author", "Alice"),
            )
        })
        .build();

    assert!(query.evaluate(&doc));
}

#[test]
fn test_hashmap_or_with_keys_and_values() {
    let mut metadata = FieldMap::new();
    metadata.insert("author".to_string(), "Alice".to_string());

    let doc = Document {
        title: "README".to_string(),
        metadata,
    };

    // metadata.@keys CONTAINS "author" OR metadata.@values CONTAINS "Bob"
    let query = DnfQuery::builder()
        .or(|c| c.and("metadata", Op::CONTAINS(), Value::keys("author")))
        .or(|c| c.and("metadata", Op::CONTAINS(), Value::values("Bob")))
        .build();

    assert!(query.evaluate(&doc));
}

// ==================== Tests: Value Display ====================

#[test]
fn test_value_display() {
    let at_key = Value::at_key("author", "Alice");
    let keys = Value::keys("author");
    let values = Value::values("Alice");

    assert!(at_key.to_string().contains("author"));
    assert!(keys.to_string().contains("keys"));
    assert!(values.to_string().contains("values"));
}

// ==================== Tests: Serde ====================

// ==================== Parser Tests ====================


    #[test]
    fn test_parse_at_key_equals() {
        let mut metadata = FieldMap::new();
        metadata.insert("author".to_string(), "Alice".to_string());

        let doc = Document {
            title: "README".to_string(),
            metadata,
        };

        // metadata["author"] == "Alice"
        let query = QueryBuilder::from_query::<Document>(r#"metadata["author"] == "Alice""#)
            .expect("should parse");

        assert!(query.evaluate(&doc));
    }

    #[test]
    fn test_parse_at_key_not_equals() {
        let mut metadata = FieldMap::new();
        metadata.insert("author".to_string(), "Alice".to_string());

        let doc = Document {
            title: "README".to_string(),
            metadata,
        };

        // metadata["author"] != "Bob"
        let query = QueryBuilder::from_query::<Document>(r#"metadata["author"] != "Bob""#)
            .expect("should parse");

        assert!(query.evaluate(&doc));
    }

    #[test]
    fn test_parse_keys_contains() {
        let mut metadata = FieldMap::new();
        metadata.insert("author".to_string(), "Alice".to_string());

        let doc = Document {
            title: "README".to_string(),
            metadata,
        };

        // metadata.@keys CONTAINS "author"
        let query = QueryBuilder::from_query::<Document>(r#"metadata.@keys CONTAINS "author""#)
            .expect("should parse");

        assert!(query.evaluate(&doc));
    }

    #[test]
    fn test_parse_keys_not_contains() {
        let mut metadata = FieldMap::new();
        metadata.insert("author".to_string(), "Alice".to_string());

        let doc = Document {
            title: "README".to_string(),
            metadata,
        };

        // metadata.@keys NOT CONTAINS "missing"
        let query =
            QueryBuilder::from_query::<Document>(r#"metadata.@keys NOT CONTAINS "missing""#)
                .expect("should parse");

        assert!(query.evaluate(&doc));
    }

    #[test]
    fn test_parse_values_contains() {
        let mut metadata = FieldMap::new();
        metadata.insert("author".to_string(), "Alice".to_string());

        let doc = Document {
            title: "README".to_string(),
            metadata,
        };

        // metadata.@values CONTAINS "Alice"
        let query = QueryBuilder::from_query::<Document>(r#"metadata.@values CONTAINS "Alice""#)
            .expect("should parse");

        assert!(query.evaluate(&doc));
    }

    #[test]
    fn test_parse_combined_query() {
        let mut metadata = FieldMap::new();
        metadata.insert("author".to_string(), "Alice".to_string());

        let doc = Document {
            title: "README".to_string(),
            metadata,
        };

        // title == "README" AND metadata["author"] == "Alice"
        let query = QueryBuilder::from_query::<Document>(
            r#"title == "README" AND metadata["author"] == "Alice""#,
        )
        .expect("should parse");

        assert!(query.evaluate(&doc));
    }

    #[test]
    fn test_parse_keys_any_of() {
        let mut metadata = FieldMap::new();
        metadata.insert("author".to_string(), "Alice".to_string());

        let doc = Document {
            title: "README".to_string(),
            metadata,
        };

        // metadata.@keys IN ["author", "editor"]
        let query =
            QueryBuilder::from_query::<Document>(r#"metadata.@keys IN ["author", "editor"]"#)
                .expect("should parse");

        assert!(query.evaluate(&doc));
    }

    #[test]
    fn test_parse_error_non_map_with_bracket() {
        // title is not a map field, should error
        let result = QueryBuilder::from_query::<Document>(r#"title["key"] == "value""#);
        assert!(result.is_err());
    }

    #[test]
    fn test_parse_error_non_map_with_at_keys() {
        // title is not a map field, should error
        let result = QueryBuilder::from_query::<Document>(r#"title.@keys CONTAINS "x""#);
        assert!(result.is_err());
    }

// ==================== Validate Tests ====================

#[test]
fn test_validate_map_field_with_map_value() {
    // Valid: map field with map target value
    let query = DnfQuery::builder()
        .or(|c| c.and("metadata", Op::EQ(), Value::at_key("author", "Alice")))
        .build();

    let result = query.validate::<Document>();
    assert!(result.is_ok());
}

#[test]
fn test_validate_map_field_with_keys() {
    let query = DnfQuery::builder()
        .or(|c| c.and("metadata", Op::CONTAINS(), Value::keys("author")))
        .build();

    let result = query.validate::<Document>();
    assert!(result.is_ok());
}

#[test]
fn test_validate_map_field_with_values() {
    let query = DnfQuery::builder()
        .or(|c| c.and("metadata", Op::CONTAINS(), Value::values("Alice")))
        .build();

    let result = query.validate::<Document>();
    assert!(result.is_ok());
}

#[test]
fn test_validate_non_map_field_with_map_value_fails() {
    // Invalid: non-map field with AtKey value
    let query = DnfQuery::builder()
        .or(|c| c.and("title", Op::EQ(), Value::at_key("key", "value")))
        .build();

    let result = query.validate::<Document>();
    assert!(result.is_err());

    let err = result.unwrap_err();
    match err {
        DnfError::InvalidMapTarget {
            field_name,
            field_kind,
        } => {
            assert_eq!(&*field_name, "title");
            assert_eq!(field_kind, FieldKind::Scalar);
        }
        _ => panic!("Expected InvalidMapTarget error, got {:?}", err),
    }
}

#[test]
fn test_validate_non_map_field_with_keys_fails() {
    let query = DnfQuery::builder()
        .or(|c| c.and("title", Op::CONTAINS(), Value::keys("x")))
        .build();

    let result = query.validate::<Document>();
    assert!(result.is_err());
}

#[test]
fn test_validate_scalar_field_ok() {
    // Regular scalar field should validate fine
    let query = DnfQuery::builder()
        .or(|c| c.and("title", Op::EQ(), "README"))
        .build();

    let result = query.validate::<Document>();
    assert!(result.is_ok());
}

#[test]
fn test_validate_unknown_field_fails() {
    let query = DnfQuery::builder()
        .or(|c| c.and("unknown_field", Op::EQ(), "value"))
        .build();

    let result = query.validate::<Document>();
    assert!(result.is_err());

    let err = result.unwrap_err();
    match err {
        DnfError::UnknownField { field_name, .. } => {
            assert_eq!(&*field_name, "unknown_field");
        }
        _ => panic!("Expected UnknownField error, got {:?}", err),
    }
}

// ==================== Nested Field Validation Tests ====================

// ==================== Nested Field Validation Tests ====================

#[derive(Debug)]
struct Address {
    city: String,
    zip: String,
}

impl DnfEvaluable for Address {
    fn evaluate_field(&self, field_name: &str, operator: &Op, value: &Value) -> bool {
        match field_name {
            "city" => self.city.evaluate(operator, value),
            "zip" => self.zip.evaluate(operator, value),
            _ => false,
        }
    }

    fn field_value(&self, _field_name: &str) -> Option<Value> {
        None
    }

    fn fields() -> Vec<FieldInfo> {
        vec![field_info_for("city", "String", false), field_info_for("zip", "String", false)]
    }

    fn validate_field_path(path: &str) -> Option<FieldKind> {
        root_field_kind(&Self::fields(), path)
    }
}

#[derive(Debug)]
struct Person {
    name: String,
    address: Address,
}

impl DnfEvaluable for Person {
    fn evaluate_field(&self, field_name: &str, operator: &Op, value: &Value) -> bool {
        match field_name {
            "name" => self.name.evaluate(operator, value),
            _ => match field_name.strip_prefix("address.") {
                Some(rest) => self.address.evaluate_field(rest, operator, value),
                None => false,
            },
        }
    }

    fn field_value(&self, _field_name: &str) -> Option<Value> {
        None
    }

    fn fields() -> Vec<FieldInfo> {
        vec![
            field_info_for("name", "String", false),
            field_info_for("address", "Address", false),
        ]
    }

    fn validate_field_path(path: &str) -> Option<FieldKind> {
        root_field_kind(&Self::fields(), path)
    }
}

#[test]
fn test_validate_field_names() {
    // (field, expected_ok, description)
    let test_cases: Vec<(&str, bool, &str)> = vec![
        ("name", true, "valid root field"),
        ("address.city", true, "valid nested field"),
        ("address.zip", true, "valid nested field zip"),
        ("unknown", false, "unknown root field"),
        ("unknown.city", false, "unknown nested root"),
        ("address.unknown", true, "unknown nested leaf (root valid)"),
    ];

    for (field, expected_ok, desc) in test_cases {
        let query = DnfQuery::builder()
            .or(|c| c.and(field, Op::EQ(), "test"))
            .build();

        let result = query.validate::<Person>();
        assert_eq!(result.is_ok(), expected_ok, "Failed: {}", desc);
    }
}

#[test]
fn test_validate_custom_ops() {
    // (has_registration, expected_ok, description)
    let test_cases: Vec<(bool, bool, &str)> = vec![
        (true, true, "registered custom op"),
        (false, false, "unregistered custom op"),
    ];

    for (has_registration, expected_ok, desc) in test_cases {
        let mut builder = QueryBuilder::<FnOp>::new();

        if has_registration {
            builder = builder.with_custom_op(
                "IS_VALID",
                true,
                op(|field, _| matches!(field, Value::String(s) if !s.is_empty())),
            );
        }

        let query = builder
            .or(|c| c.and("title", Op::custom("IS_VALID"), Value::Null))
            .build();

        let result = query.validate::<Document>();
        assert_eq!(result.is_ok(), expected_ok, "Failed: {}", desc);
    }
}

#[test]
fn test_validate_error_types() {
    // (query_builder, expected_error_variant, description)
    enum ExpectedError {
        UnknownField(&'static str),
        UnregisteredCustomOp(&'static str),
        InvalidMapTarget(&'static str),
    }

    let test_cases: Vec<(DnfQuery, ExpectedError, &str)> = vec![
        (
            DnfQuery::builder()
                .or(|c| c.and("unknown", Op::EQ(), "x"))
                .build(),
            ExpectedError::UnknownField("unknown"),
            "unknown field error",
        ),
        (
            DnfQuery::builder()
                .or(|c| c.and("title", Op::custom("MISSING"), Value::Null))
                .build(),
            ExpectedError::UnregisteredCustomOp("MISSING"),
            "unregistered custom op error",
        ),
        (
            DnfQuery::builder()
                .or(|c| c.and("title", Op::EQ(), Value::at_key("k", "v")))
                .build(),
            ExpectedError::InvalidMapTarget("title"),
            "map target on non-map field",
        ),
    ];

    for (query, expected_error, desc) in test_cases {
        let result = query.validate::<Document>();
        assert!(result.is_err(), "Expected error for: {}", desc);

        let err = result.unwrap_err();
        match (&expected_error, &err) {
            (ExpectedError::UnknownField(name), DnfError::UnknownField { field_name, .. }) => {
                assert_eq!(&**field_name, *name, "Wrong field name for: {}", desc);
            }
            (
                ExpectedError::UnregisteredCustomOp(name),
                DnfError::UnregisteredCustomOp { operator_name },
            ) => {
                assert_eq!(&**operator_name, *name, "Wrong op name for: {}", desc);
            }
            (
                ExpectedError::InvalidMapTarget(name),
                DnfError::InvalidMapTarget { field_name, .. },
            ) => {
                assert_eq!(&**field_name, *name, "Wrong field for: {}", desc);
            }
            _ => panic!("Wrong error type for {}: got {:?}", desc, err),
        }
    }
}

#[test]
fn test_validate_chained_api() {
    // Validate returns Self for chaining
    let query = DnfQuery::builder()
        .or(|c| c.and("title", Op::EQ(), "README"))
        .build()
        .validate::<Document>()
        .expect("should validate");

    assert!(query.uses_field("title"));
}
