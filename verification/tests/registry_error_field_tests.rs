use dnf::custom::{CustomOp, OpRegistry};
use dnf::error::get_context;
use dnf::field::DnfField;
use dnf::operator::Op;
use dnf::value::Value;
use dnf::DnfError;
use std::rc::Rc;

/// A custom operator made from a closure.
#[derive(Clone)]
struct FnOp(Rc<dyn Fn(&Value, &Value) -> bool>);

impl std::fmt::Debug for FnOp {
    fn fmt(&self, f: &mut std::fmt::Formatter<'_>) -> std::fmt::Result {
        f.write_str("FnOp")
    }
}

impl CustomOp for FnOp {
    fn apply(&self, field: &Value, query: &Value) -> bool {
        (self.0)(field, query)
    }
}

fn op(f: impl Fn(&Value, &Value) -> bool + 'static) -> FnOp {
    FnOp(Rc::new(f))
}

// ==================== Registry ====================

#[test]
fn test_register_and_evaluate() {
    let mut registry = OpRegistry::new();

    registry.register("IS_POSITIVE", true, op(|field, _| matches!(field, Value::Int(n) if *n > 0)));

    assert!(registry.contains("IS_POSITIVE"));
    assert!(!registry.contains("UNKNOWN"));

    let result = registry.evaluate("IS_POSITIVE", &Value::Int(42), &Value::Null);
    assert_eq!(result, Some(true));

    let result = registry.evaluate("IS_POSITIVE", &Value::Int(-5), &Value::Null);
    assert_eq!(result, Some(false));

    let result = registry.evaluate("UNKNOWN", &Value::Int(42), &Value::Null);
    assert_eq!(result, None);
}

#[test]
fn test_between_operator() {
    let mut registry = OpRegistry::new();

    registry.register(
        "BETWEEN",
        false,
        op(|field, query| {
            let Value::IntArray(range) = query else {
                return false;
            };
            if range.len() < 2 {
                return false;
            }
            match field {
                Value::Int(n) => *n >= range[0] && *n <= range[1],
                _ => false,
            }
        }),
    );

    let range = Value::IntArray(vec![10, 100]);

    assert_eq!(registry.evaluate("BETWEEN", &Value::Int(50), &range), Some(true));
    assert_eq!(registry.evaluate("BETWEEN", &Value::Int(5), &range), Some(false));
    assert_eq!(registry.evaluate("BETWEEN", &Value::Int(100), &range), Some(true));
}

#[test]
fn test_registry_replace_and_merge() {
    let mut a = OpRegistry::new();
    a.register("X", true, op(|_, _| true));
    a.register("X", false, op(|_, _| false));
    assert_eq!(a.len(), 1);
    assert!(!a.is_novalue("X"));
    assert_eq!(a.evaluate("X", &Value::Null, &Value::Null), Some(false));

    let mut b = OpRegistry::new();
    b.register("X", true, op(|_, _| true));
    b.register("Y", false, op(|_, _| true));
    a.merge(b);
    assert_eq!(a.len(), 2);
    assert!(a.is_novalue("X"));
    assert_eq!(a.evaluate("X", &Value::Null, &Value::Null), Some(true));
    let mut names = a.operator_names();
    names.sort();
    assert_eq!(names, vec!["X".to_string(), "Y".to_string()]);
    assert_eq!(a.novalue_ops(), vec!["X".to_string()]);
}

// ==================== Error Messages ====================

struct ErrorFormatCase {
    desc: &'static str,
    error: DnfError,
    expected_substrings: Vec<&'static str>,
}

#[test]
fn test_error_format() {
    let long_query = "a".repeat(50) + " > 18 AND invalid_token";

    let cases = vec![
        ErrorFormatCase {
            desc: "unexpected token",
            error: DnfError::UnexpectedToken {
                expected: "operator".to_string(),
                found: "identifier 'foo'".to_string(),
                position: 10,
                input: "age > 18 AND foo country == \"US\"".to_string(),
            },
            expected_substrings: vec![
                "at position 10",
                "near `",
                "Expected operator",
                "found identifier 'foo'",
            ],
        },
        ErrorFormatCase {
            desc: "invalid number",
            error: DnfError::InvalidNumber {
                value: "123abc".to_string(),
                position: 6,
                input: "age > 123abc".to_string(),
            },
            expected_substrings: vec!["Invalid number '123abc'", "at position 6"],
        },
        ErrorFormatCase {
            desc: "unterminated string",
            error: DnfError::UnterminatedString {
                position: 9,
                input: r#"name == "unclosed string"#.to_string(),
            },
            expected_substrings: vec!["Unterminated string", "at position 9"],
        },
        ErrorFormatCase {
            desc: "invalid escape",
            error: DnfError::InvalidEscape {
                escape: "\\x".to_string(),
                position: 15,
                input: r#"name == "test\xfail""#.to_string(),
            },
            expected_substrings: vec!["Invalid escape sequence '\\x'", "at position 15"],
        },
        ErrorFormatCase {
            desc: "context truncated with ellipsis",
            error: DnfError::UnexpectedToken {
                expected: "value".to_string(),
                found: "identifier".to_string(),
                position: 60,
                input: long_query,
            },
            expected_substrings: vec!["...", "at position 60"],
        },
        ErrorFormatCase {
            desc: "empty query",
            error: DnfError::EmptyQuery,
            expected_substrings: vec!["Query string is empty"],
        },
        ErrorFormatCase {
            desc: "unexpected EOF",
            error: DnfError::UnexpectedEof { position: 8, input: "age > 18".to_string() },
            expected_substrings: vec!["Unexpected end of input", "at position 8"],
        },
    ];

    for case in cases {
        let msg = case.error.to_string();
        for substring in &case.expected_substrings {
            assert!(
                msg.contains(substring),
                "case '{}': expected substring '{}' in message, got: {}",
                case.desc,
                substring,
                msg
            );
        }
    }
}

#[test]
fn test_get_context() {
    type Validator = Box<dyn Fn(&str) -> bool>;
    let cases: Vec<(&'static str, &'static str, usize, Validator)> = vec![
        ("short input fits without ellipses", "age > 18", 5, Box::new(|c: &str| c == "age > 18")),
        (
            "position at start has no leading ellipsis",
            "this is a long query string",
            0,
            Box::new(|c: &str| !c.starts_with("...")),
        ),
        (
            "position at end has no trailing ellipsis",
            "this is a long query string",
            "this is a long query string".len() - 1,
            Box::new(|c: &str| !c.ends_with("...")),
        ),
    ];

    for (desc, input, position, validator) in cases {
        let context = get_context(input, position);
        assert!(
            validator(&context),
            "case '{}': context did not satisfy validator, got: '{}'",
            desc,
            context
        );
    }
}

#[test]
fn test_get_context_exact_window() {
    let input = "0123456789012345678901234567890123456789012345678901234567890";
    assert_eq!(get_context(input, 30), "...0123456789012345678901234567890123456789...");
    assert_eq!(get_context("abc", 1), "abc");
}

// ==================== Option Fields ====================

#[test]
fn test_option_evaluation_semantics() {
    struct TestCase {
        name: &'static str,
        field: Option<u32>,
        op: Op,
        value: Value,
        expected: bool,
    }

    let test_cases = vec![
        TestCase { name: "None == null", field: None, op: Op::EQ(), value: Value::Null, expected: true },
        TestCase { name: "None != null", field: None, op: Op::NE(), value: Value::Null, expected: false },
        TestCase { name: "None > 0", field: None, op: Op::GT(), value: Value::Uint(0), expected: false },
        TestCase { name: "None < 100", field: None, op: Op::LT(), value: Value::Uint(100), expected: false },
        TestCase { name: "None >= 0", field: None, op: Op::GTE(), value: Value::Uint(0), expected: false },
        TestCase {
            name: "None <= 100",
            field: None,
            op: Op::LTE(),
            value: Value::Uint(100),
            expected: false,
        },
        TestCase {
            name: "None BETWEEN [0, 100]",
            field: None,
            op: Op::BETWEEN(),
            value: Value::UintArray(vec![0, 100]),
            expected: false,
        },
        TestCase { name: "Some(5) > 0", field: Some(5), op: Op::GT(), value: Value::Uint(0), expected: true },
        TestCase {
            name: "Some(5) < 100",
            field: Some(5),
            op: Op::LT(),
            value: Value::Uint(100),
            expected: true,
        },
        TestCase { name: "Some(5) == null", field: Some(5), op: Op::EQ(), value: Value::Null, expected: false },
        TestCase { name: "Some(5) != null", field: Some(5), op: Op::NE(), value: Value::Null, expected: true },
        TestCase { name: "Some(5) == 5", field: Some(5), op: Op::EQ(), value: Value::Uint(5), expected: true },
        TestCase {
            name: "Some(5) != 10",
            field: Some(5),
            op: Op::NE(),
            value: Value::Uint(10),
            expected: true,
        },
        TestCase {
            name: "Some(5) BETWEEN [0, 100]",
            field: Some(5),
            op: Op::BETWEEN(),
            value: Value::UintArray(vec![0, 100]),
            expected: true,
        },
    ];

    for case in test_cases {
        let result = case.field.evaluate(&case.op, &case.value);
        assert_eq!(
            result, case.expected,
            "Test '{}' failed: expected {}, got {}",
            case.name, case.expected, result
        );
    }
}
