use dnf::value::escape_string;

#[test]
fn test_escape_string() {
    assert_eq!(escape_string("simple"), "simple");
    assert_eq!(escape_string("with \"quotes\""), "with \\\"quotes\\\"");
    assert_eq!(escape_string("with\\backslash"), "with\\\\backslash");
    assert_eq!(escape_string("with\nnewline"), "with\\nnewline");
    assert_eq!(escape_string("with\ttab"), "with\\ttab");
    assert_eq!(escape_string("with/slash"), "with\\/slash");
    assert_eq!(
        escape_string("C:\\Path\\To\\File"),
        "C:\\\\Path\\\\To\\\\File"
    );
    assert_eq!(
        escape_string("He said \"Hello\"\nNext line"),
        "He said \\\"Hello\\\"\\nNext line"
    );
}

use dnf::convert::IntoValue;
use dnf::text::Order;
use dnf::value::{bool_equals, int_equals, int_order, str_equals, str_order, uint_equals, uint_order, Value};
use std::borrow::Cow;
use std::cmp::Ordering;
use std::collections::HashSet;

fn v<T: IntoValue>(x: T) -> Value {
    x.into_value()
}

fn chars(s: &str) -> Vec<char> {
    s.chars().collect()
}

#[test]
fn test_value_display_with_escapes() {
    let val = Value::String("He said \"Hello\"".to_string());
    assert_eq!(val.to_string(), r#""He said \"Hello\"""#);

    let val = Value::String("C:\\Users\\Test".to_string());
    assert_eq!(val.to_string(), r#""C:\\Users\\Test""#);

    let val = Value::String("Line1\nLine2\tTabbed".to_string());
    assert_eq!(val.to_string(), r#""Line1\nLine2\tTabbed""#);

    let val = Value::String("https://example.com".to_string());
    assert_eq!(val.to_string(), r#""https:\/\/example.com""#);

    let val = v(vec![
        "simple".to_string(),
        "with \"quotes\"".to_string(),
        "with\\slash".to_string(),
    ]);
    assert_eq!(val.to_string(), r#"["simple", "with \"quotes\"", "with\\slash"]"#);
}

// ==================== Data-Driven Equality Tests ====================

#[test]
fn test_same_type_equality() {
    let test_cases = vec![
        (Value::Int(42), Value::Int(42), true, "int == int"),
        (Value::Int(42), Value::Int(43), false, "int != int"),
        (Value::Uint(42), Value::Uint(42), true, "uint == uint"),
        (Value::Bool(true), Value::Bool(true), true, "bool == bool"),
        (Value::Bool(true), Value::Bool(false), false, "bool != bool"),
        (v("hello"), v("hello"), true, "str == str"),
        (v("hello"), v("world"), false, "str != str"),
        (Value::Null, Value::Null, true, "none == none"),
    ];

    for (left, right, expected, desc) in test_cases {
        assert_eq!(left == right, expected, "Failed: {}", desc);
    }
}

#[test]
fn test_cross_type_equality() {
    let test_cases = vec![
        (Value::Int(42), Value::Uint(42), true, "positive int == uint"),
        (Value::Uint(42), Value::Int(42), true, "uint == positive int"),
        (Value::Int(-1), Value::Uint(0), false, "negative int != uint"),
        (Value::Int(-42), Value::Uint(42), false, "negative int != uint (same abs)"),
        (v("42"), Value::Int(42), true, "string '42' == int 42"),
        (v("42"), Value::Uint(42), true, "string '42' == uint 42"),
        (v("true"), Value::Bool(true), true, "string 'true' == bool true"),
        (v("false"), Value::Bool(false), true, "string 'false' == bool false"),
        (Value::Null, Value::Int(0), false, "none != int"),
        (Value::Null, Value::Bool(false), false, "none != bool"),
    ];

    for (left, right, expected, desc) in test_cases {
        assert_eq!(left == right, expected, "Failed: {}", desc);
    }
}

// ==================== Data-Driven Ordering Tests ====================

#[test]
fn test_same_type_ordering() {
    let test_cases = vec![
        (Value::Int(10), Value::Int(5), Some(Ordering::Greater), "int > int"),
        (Value::Int(5), Value::Int(10), Some(Ordering::Less), "int < int"),
        (Value::Int(5), Value::Int(5), Some(Ordering::Equal), "int == int"),
        (Value::Uint(10), Value::Uint(5), Some(Ordering::Greater), "uint > uint"),
        (v("b"), v("a"), Some(Ordering::Greater), "str > str"),
        (v("a"), v("b"), Some(Ordering::Less), "str < str"),
        (Value::Bool(true), Value::Bool(false), Some(Ordering::Greater), "true > false"),
        (Value::Null, Value::Null, Some(Ordering::Equal), "none == none"),
    ];

    for (left, right, expected, desc) in test_cases {
        assert_eq!(left.partial_cmp(&right), expected, "Failed: {}", desc);
    }
}

#[test]
fn test_cross_type_ordering() {
    let test_cases = vec![
        (Value::Int(-1), Value::Uint(0), Some(Ordering::Less), "negative int < uint"),
        (Value::Int(-1000), Value::Uint(1), Some(Ordering::Less), "negative int < any uint"),
        (Value::Int(10), Value::Uint(5), Some(Ordering::Greater), "positive int > smaller uint"),
        (Value::Int(5), Value::Uint(10), Some(Ordering::Less), "positive int < larger uint"),
        (Value::Int(42), Value::Uint(42), Some(Ordering::Equal), "int == uint (same value)"),
        (Value::Uint(0), Value::Int(-1), Some(Ordering::Greater), "uint > negative int"),
        (Value::Null, Value::Int(0), None, "none vs int: incomparable"),
        (Value::Int(0), Value::Null, None, "int vs none: incomparable"),
    ];

    for (left, right, expected, desc) in test_cases {
        assert_eq!(left.partial_cmp(&right), expected, "Failed: {}", desc);
    }
}

// ==================== Large Number Precision Tests ====================

#[test]
fn test_large_number_precision() {
    const MAX_SAFE_INT: u64 = 9_007_199_254_740_992; // 2^53
    const LARGE_VAL: u64 = 1u64 << 54;

    let test_cases = vec![
        (Value::Uint(LARGE_VAL + 1), Value::Uint(LARGE_VAL + 1), true, "large uint == large uint"),
        (
            Value::Uint(LARGE_VAL + 1),
            Value::Uint(LARGE_VAL + 2),
            false,
            "large uint != different large uint",
        ),
        (
            Value::Int(MAX_SAFE_INT as i64 + 1),
            Value::Uint(MAX_SAFE_INT + 1),
            true,
            "large int == large uint",
        ),
        (Value::Int(i64::MAX), Value::Uint(i64::MAX as u64), true, "max i64 == uint"),
        (Value::Int(i64::MIN), Value::Uint(0), false, "min i64 != uint 0"),
    ];

    for (left, right, expected, desc) in test_cases {
        assert_eq!(left == right, expected, "Failed: {}", desc);
    }

    assert_eq!(
        Value::Uint(MAX_SAFE_INT + 1).partial_cmp(&Value::Uint(MAX_SAFE_INT + 3)),
        Some(Ordering::Less),
        "Large uint ordering preserved"
    );

    assert!(Value::Uint(u64::MAX) > Value::Int(i64::MAX), "max u64 > max i64");
    assert!(Value::Int(i64::MIN) < Value::Uint(0), "min i64 < uint 0");
}

// ==================== Array Tests (Data-Driven) ====================

#[test]
fn test_array_from_conversions() {
    assert!(matches!(v(vec!["a", "b"]), Value::StringArray(_)));
    assert!(matches!(v(vec!["hello".to_string()]), Value::StringArray(_)));
    assert!(matches!(v(vec![1i64, 2]), Value::IntArray(_)));
    assert!(matches!(v(vec![1i32, 2]), Value::IntArray(_)));
    assert!(matches!(v(vec![1u64, 2]), Value::UintArray(_)));
    assert!(matches!(v(vec![1u32, 2]), Value::UintArray(_)));
    assert!(matches!(v(vec![true, false]), Value::BoolArray(_)));
}

#[test]
fn test_array_equality() {
    let test_cases: Vec<(Value, Value, bool, &str)> = vec![
        (v(vec!["a", "b"]), v(vec!["a", "b"]), true, "string arrays equal"),
        (v(vec!["a", "b"]), v(vec!["a", "c"]), false, "string arrays differ"),
        (v(vec![1i64, 2]), v(vec![1i64, 2]), true, "int arrays equal"),
        (v(vec![1i64, 2]), v(vec![1i64, 3]), false, "int arrays differ"),
        (v(vec![1u64, 2]), v(vec![1u64, 2]), true, "uint arrays equal"),
        (v(vec![true, false]), v(vec![true, false]), true, "bool arrays equal"),
        (v(vec![1i64, 2]), v(vec![1i64, 2, 3]), false, "different length arrays"),
    ];

    for (left, right, expected, desc) in test_cases {
        assert_eq!(left == right, expected, "Failed: {}", desc);
    }
}

#[test]
fn test_array_ordering() {
    let test_cases: Vec<(Value, Value, Ordering, &str)> = vec![
        (v(vec!["a", "b"]), v(vec!["a", "c"]), Ordering::Less, "string array lexicographic"),
        (v(vec!["a"]), v(vec!["a", "b"]), Ordering::Less, "shorter array < longer"),
        (v(vec![1i64, 2]), v(vec![1i64, 3]), Ordering::Less, "int array lexicographic"),
        (v(vec![1u64, 2]), v(vec![1u64, 3]), Ordering::Less, "uint array lexicographic"),
        (v(vec![false, false]), v(vec![false, true]), Ordering::Less, "bool array lexicographic"),
    ];

    for (left, right, expected, desc) in test_cases {
        assert_eq!(left.partial_cmp(&right), Some(expected), "Failed: {}", desc);
    }
}

#[test]
fn test_array_display() {
    let test_cases = vec![
        (v(vec!["a", "b", "c"]), "[\"a\", \"b\", \"c\"]"),
        (v(vec![1i64, 2, 3]), "[1, 2, 3]"),
        (v(vec![1u64, 2, 3]), "[1, 2, 3]"),
        (v(vec![true, false]), "[true, false]"),
        (Value::IntArray(Vec::<i64>::new()), "[]"),
    ];

    for (value, expected) in test_cases {
        assert_eq!(value.to_string(), expected);
    }
}

// ==================== Corner Cases ====================

#[test]
fn test_zero_values() {
    let test_cases = vec![
        (Value::Int(0), Value::Int(0), true, "int 0 == int 0"),
        (Value::Uint(0), Value::Uint(0), true, "uint 0 == uint 0"),
        (Value::Int(0), Value::Uint(0), true, "int 0 == uint 0"),
    ];

    for (left, right, expected, desc) in test_cases {
        assert_eq!(left == right, expected, "Failed: {}", desc);
    }
}

#[test]
fn test_empty_values() {
    assert_eq!(v(""), v(""));
    assert_ne!(v(""), v("x"));

    let empty_int = Value::IntArray(vec![]);
    let empty_int2 = Value::IntArray(vec![]);
    assert_eq!(empty_int, empty_int2);

    assert_eq!(Value::Null, Value::Null);
    assert_ne!(Value::Null, Value::Int(0));
}

#[test]
fn test_string_to_repr_edge_cases() {
    let test_cases = vec![
        (Value::Null, ""),
        (v(Vec::<&str>::new()), "[]"),
        (v(Vec::<i64>::new()), "[]"),
        (v(vec!["a"]), "[\"a\"]"),
        (v(vec![1i64]), "[1]"),
    ];

    for (value, expected) in test_cases {
        assert_eq!(value.to_string_repr(), expected);
    }
}

// ==================== Conversion Coverage ====================

#[test]
fn test_from_all_primitive_types() {
    assert!(matches!(v(42i8), Value::Int(42)));
    assert!(matches!(v(42i16), Value::Int(42)));
    assert!(matches!(v(42i32), Value::Int(42)));
    assert!(matches!(v(42i64), Value::Int(42)));
    assert!(matches!(v(42isize), Value::Int(42)));
    assert!(matches!(v(42u8), Value::Uint(42)));
    assert!(matches!(v(42u16), Value::Uint(42)));
    assert!(matches!(v(42u32), Value::Uint(42)));
    assert!(matches!(v(42u64), Value::Uint(42)));
    assert!(matches!(v(42usize), Value::Uint(42)));
    assert!(matches!(v(true), Value::Bool(true)));

    let i: i32 = 42;
    let u: u32 = 42;
    let b: bool = true;
    let s: String = "hello".to_string();

    assert!(matches!(v(i), Value::Int(42)));
    assert!(matches!(v(u), Value::Uint(42)));
    assert!(matches!(v(b), Value::Bool(true)));
    assert!(matches!(v(s.as_str()), Value::String(_)));
}

#[test]
fn test_from_vec_types() {
    assert!(matches!(v(vec![1i16, 2]), Value::IntArray(_)));
    assert!(matches!(v(vec![1i8, 2]), Value::IntArray(_)));
    assert!(matches!(v(vec![1u16, 2]), Value::UintArray(_)));
    assert!(matches!(v(vec![1u8, 2]), Value::UintArray(_)));
    assert!(matches!(v(vec![1isize, 2]), Value::IntArray(_)));
    assert!(matches!(v(vec![1usize, 2]), Value::UintArray(_)));

    let vi: Vec<i32> = vec![1, 2, 3];
    let vu: Vec<u32> = vec![1, 2, 3];
    let vb: Vec<bool> = vec![true, false];

    assert!(matches!(v(vi.clone()), Value::IntArray(_)));
    assert!(matches!(v(vu.clone()), Value::UintArray(_)));
    assert!(matches!(v(vb.clone()), Value::BoolArray(_)));
    assert_eq!(v(vec![-1i16, 300]), Value::IntArray(vec![-1, 300]));
    assert_eq!(v(vec![7usize, 8]), Value::UintArray(vec![7, 8]));
}

#[test]
fn test_from_hashset_types() {
    let mut set_i16: HashSet<i16> = HashSet::new();
    set_i16.insert(1);
    set_i16.insert(2);
    assert!(matches!(
        Value::int_set(set_i16.into_iter().map(i64::from).collect()),
        Value::IntSet(_)
    ));

    let mut set_u64: HashSet<u64> = HashSet::new();
    set_u64.insert(1);
    assert!(matches!(Value::uint_set(set_u64.iter().copied().collect()), Value::UintSet(_)));

    let mut set_bool: HashSet<bool> = HashSet::new();
    set_bool.insert(true);
    assert!(matches!(Value::bool_set(set_bool.into_iter().collect()), Value::BoolSet(_)));

    let mut set_str: HashSet<String> = HashSet::new();
    set_str.insert("hello".to_string());
    assert!(matches!(Value::string_set(set_str.into_iter().collect()), Value::StringSet(_)));
}

#[test]
fn test_value_set_keeps_each_element_once() {
    assert_eq!(Value::int_set(vec![3, 1, 3, 2, 1]), Value::IntSet(vec![3, 1, 2]));
    assert_eq!(Value::string_set(vec!["a", "b", "a"]), Value::StringSet(vec!["a".to_string(), "b".to_string()]));
    // Sets compare without regard to order.
    assert_eq!(Value::IntSet(vec![1, 2]), Value::IntSet(vec![2, 1]));
    assert_ne!(Value::IntSet(vec![1, 2]), Value::IntSet(vec![1, 3]));
}

// ==================== Direct Comparison Tests ====================

#[test]
fn test_direct_str_comparison() {
    let val = v("hello");

    assert!(str_equals(&chars("hello"), &val));
    assert!(!str_equals(&chars("world"), &val));

    let s = String::from("hello");
    assert!(str_equals(&chars(&s), &val));

    assert!(str_equals(&chars("42"), &Value::Int(42)));
    assert!(str_equals(&chars("true"), &Value::Bool(true)));
}

#[test]
fn test_direct_i64_comparison() {
    let val = Value::Int(42);

    assert!(int_equals(42, &val));
    assert!(!int_equals(43, &val));

    assert!(int_equals(42, &Value::Uint(42)));
    assert!(!int_equals(-1, &Value::Uint(42)));
}

#[test]
fn test_direct_u64_comparison() {
    let val = Value::Uint(42);

    assert!(uint_equals(42, &val));
    assert!(!uint_equals(43, &val));

    assert!(uint_equals(42, &Value::Int(42)));
    assert!(!uint_equals(42, &Value::Int(-1)));
}

#[test]
fn test_direct_bool_comparison() {
    let val_true = Value::Bool(true);
    let val_false = Value::Bool(false);

    assert!(bool_equals(true, &val_true));
    assert!(!bool_equals(false, &val_true));
    assert!(bool_equals(false, &val_false));

    assert!(bool_equals(true, &v("true")));
    assert!(bool_equals(false, &v("false")));
}

#[test]
fn test_direct_ordering_i64() {
    let val = Value::Int(42);

    assert_eq!(int_order(41, &val), Some(Order::Less));
    assert_eq!(int_order(43, &val), Some(Order::Greater));
    assert_eq!(int_order(42, &val), Some(Order::Equal));

    assert_eq!(int_order(40, &Value::Uint(50)), Some(Order::Less));
}

#[test]
fn test_direct_ordering_u64() {
    let val = Value::Uint(42);

    assert_eq!(uint_order(41, &val), Some(Order::Less));
    assert_eq!(uint_order(43, &val), Some(Order::Greater));
    assert_eq!(uint_order(42, &val), Some(Order::Equal));

    assert_eq!(int_order(-1, &Value::Uint(42)), Some(Order::Less));
}

#[test]
fn test_direct_ordering_str() {
    let val = v("hello");

    assert_eq!(str_order(&chars("apple"), &val), Some(Order::Less));
    assert_eq!(str_order(&chars("zebra"), &val), Some(Order::Greater));
    assert_eq!(str_order(&chars("hello"), &val), Some(Order::Equal));
}

// ==================== Cow<str> Tests ====================

#[test]
fn test_cow_str_from() {
    let test_cases = vec![
        (Cow::Borrowed("hello"), "hello", "borrowed variant"),
        (Cow::Owned("world".to_string()), "world", "owned variant"),
        (Cow::Borrowed(""), "", "empty borrowed"),
        (Cow::Owned(String::new()), "", "empty owned"),
    ];

    for (cow, expected, desc) in test_cases {
        let val = v(cow.as_ref());
        assert!(matches!(val, Value::String(_)), "Failed: {}", desc);
        assert_eq!(val, v(expected), "Failed: {}", desc);
    }
}

#[test]
fn test_cow_str_equality() {
    let test_cases: Vec<(Cow<str>, Value, bool, &str)> = vec![
        (Cow::Borrowed("hello"), v("hello"), true, "borrowed cow == string"),
        (Cow::Borrowed("hello"), v("world"), false, "borrowed cow != different string"),
        (Cow::Owned("hello".to_string()), v("hello"), true, "owned cow == string"),
        (Cow::Owned("world".to_string()), v("hello"), false, "owned cow != different string"),
        (Cow::Borrowed("42"), Value::Int(42), true, "cow '42' == int 42"),
        (Cow::Borrowed("true"), Value::Bool(true), true, "cow 'true' == bool true"),
        (Cow::Borrowed(""), v(""), true, "empty cow == empty string"),
    ];

    for (cow, value, expected, desc) in test_cases {
        assert_eq!(str_equals(&chars(&cow), &value), expected, "Failed: {}", desc);
    }
}

#[test]
fn test_cow_str_ordering() {
    let test_cases: Vec<(Cow<str>, Value, Option<Order>, &str)> = vec![
        (Cow::Borrowed("apple"), v("hello"), Some(Order::Less), "apple < hello"),
        (Cow::Borrowed("zebra"), v("hello"), Some(Order::Greater), "zebra > hello"),
        (Cow::Borrowed("hello"), v("hello"), Some(Order::Equal), "hello == hello (borrowed)"),
        (Cow::Owned("hello".to_string()), v("hello"), Some(Order::Equal), "hello == hello (owned)"),
        (Cow::Borrowed("a"), v("b"), Some(Order::Less), "a < b"),
        (Cow::Borrowed(""), v(""), Some(Order::Equal), "empty == empty"),
    ];

    for (cow, value, expected, desc) in test_cases {
        assert_eq!(str_order(&chars(&cow), &value), expected, "Failed: {}", desc);
    }
}

#[test]
fn test_whitespace_class_matches_std() {
    for code in 0u32..=0x10FFFF {
        if let Some(c) = char::from_u32(code) {
            assert_eq!(dnf::text::is_whitespace(c), c.is_whitespace(), "U+{:04X}", code);
        }
    }
}
