use dnf::operator::Op;

#[test]
fn test_operator_display() {
    let test_cases: Vec<(Op, &str)> = vec![
        (Op::EQ(), "=="),
        (Op::NE(), "!="),
        (Op::GT(), ">"),
        (Op::LT(), "<"),
        (Op::GTE(), ">="),
        (Op::LTE(), "<="),
        (Op::CONTAINS(), "CONTAINS"),
        (Op::NOT_CONTAINS(), "NOT CONTAINS"),
        (Op::STARTS_WITH(), "STARTS WITH"),
        (Op::ENDS_WITH(), "ENDS WITH"),
        (Op::NOT_STARTS_WITH(), "NOT STARTS WITH"),
        (Op::NOT_ENDS_WITH(), "NOT ENDS WITH"),
        (Op::ALL_OF(), "ALL OF"),
        (Op::NOT_ALL_OF(), "NOT ALL OF"),
        (Op::ANY_OF(), "IN"),
        (Op::NOT_ANY_OF(), "NOT IN"),
        (Op::BETWEEN(), "BETWEEN"),
        (Op::NOT_BETWEEN(), "NOT BETWEEN"),
    ];

    for (op, expected) in test_cases {
        assert_eq!(op.to_string(), expected, "Failed: {:?} != {}", op, expected);
    }
}

use dnf::convert::IntoValue;
use dnf::field::DnfField;
use dnf::value::Value;

fn v<T: IntoValue>(x: T) -> Value {
    x.into_value()
}

fn int_set(vals: &[i64]) -> Value {
    Value::int_set(vals.to_vec())
}

fn uint_set(vals: &[u64]) -> Value {
    Value::uint_set(vals.to_vec())
}

fn str_set(vals: &[&str]) -> Value {
    Value::string_set(vals.to_vec())
}

fn bool_set(vals: &[bool]) -> Value {
    Value::bool_set(vals.to_vec())
}

#[test]
fn test_comparison_operators() {
    let test_cases: Vec<(Op, Value, Value, bool, &str)> = vec![
        (Op::EQ(), Value::Int(42), Value::Int(42), true, "eq: equal values"),
        (Op::EQ(), Value::Int(42), Value::Int(43), false, "eq: different values"),
        (Op::NE(), Value::Int(42), Value::Int(43), true, "ne: different values"),
        (Op::NE(), Value::Int(42), Value::Int(42), false, "ne: equal values"),
        (Op::GT(), Value::Int(10), Value::Int(5), true, "gt: greater"),
        (Op::GT(), Value::Int(5), Value::Int(10), false, "gt: less"),
        (Op::GT(), Value::Int(5), Value::Int(5), false, "gt: equal"),
        (Op::LT(), Value::Int(5), Value::Int(10), true, "lt: less"),
        (Op::LT(), Value::Int(10), Value::Int(5), false, "lt: greater"),
        (Op::LT(), Value::Int(5), Value::Int(5), false, "lt: equal"),
        (Op::GTE(), Value::Int(10), Value::Int(5), true, "gte: greater"),
        (Op::GTE(), Value::Int(5), Value::Int(5), true, "gte: equal"),
        (Op::GTE(), Value::Int(5), Value::Int(10), false, "gte: less"),
        (Op::LTE(), Value::Int(5), Value::Int(10), true, "lte: less"),
        (Op::LTE(), Value::Int(5), Value::Int(5), true, "lte: equal"),
        (Op::LTE(), Value::Int(10), Value::Int(5), false, "lte: greater"),
    ];

    for (op, left, right, expected, desc) in test_cases {
        assert_eq!(left.evaluate(&op, &right), expected, "Failed: {}", desc);
    }
}

#[test]
fn test_string_operators() {
    let test_cases: Vec<(Op, Value, Value, bool, &str)> = vec![
        (Op::CONTAINS(), v("hello world"), v("world"), true, "contains: found"),
        (Op::CONTAINS(), v("hello world"), v("xyz"), false, "contains: not found"),
        (Op::NOT_CONTAINS(), v("hello world"), v("xyz"), true, "not_contains: missing"),
        (Op::NOT_CONTAINS(), v("hello world"), v("world"), false, "not_contains: found"),
        (Op::STARTS_WITH(), v("hello"), v("hel"), true, "starts_with: match"),
        (Op::STARTS_WITH(), v("hello"), v("bye"), false, "starts_with: no match"),
        (Op::NOT_STARTS_WITH(), v("hello"), v("bye"), true, "not_starts_with: no match"),
        (Op::NOT_STARTS_WITH(), v("hello"), v("hel"), false, "not_starts_with: match"),
        (Op::NOT_STARTS_WITH(), v("hello"), v("hello"), false, "not_starts_with: exact match"),
        (Op::ENDS_WITH(), v("hello"), v("llo"), true, "ends_with: match"),
        (Op::ENDS_WITH(), v("hello"), v("xyz"), false, "ends_with: no match"),
        (Op::NOT_ENDS_WITH(), v("hello"), v("xyz"), true, "not_ends_with: no match"),
        (Op::NOT_ENDS_WITH(), v("hello"), v("llo"), false, "not_ends_with: match"),
        (Op::NOT_ENDS_WITH(), v("hello"), v("hello"), false, "not_ends_with: exact match"),
        (Op::NOT_STARTS_WITH(), Value::Int(142), Value::Int(99), true, "numeric not_starts_with: no match"),
        (Op::NOT_STARTS_WITH(), Value::Int(142), Value::Int(14), false, "numeric not_starts_with: match"),
        (Op::NOT_ENDS_WITH(), Value::Int(142), Value::Int(99), true, "numeric not_ends_with: no match"),
        (Op::NOT_ENDS_WITH(), Value::Int(142), Value::Int(42), false, "numeric not_ends_with: match"),
        (Op::NOT_STARTS_WITH(), v("hello"), v(""), false, "not_starts_with: everything starts with empty"),
        (Op::NOT_STARTS_WITH(), v(""), v("x"), true, "not_starts_with: empty doesn't start with x"),
        (Op::NOT_ENDS_WITH(), v("hello"), v(""), false, "not_ends_with: everything ends with empty"),
        (Op::NOT_ENDS_WITH(), v(""), v("x"), true, "not_ends_with: empty doesn't end with x"),
    ];

    for (op, left, right, expected, desc) in test_cases {
        assert_eq!(left.evaluate(&op, &right), expected, "Failed: {}", desc);
    }
}

#[test]
fn test_between_operators() {
    let int_range = |min: i64, max: i64| v(vec![min, max]);
    let uint_range = |min: u64, max: u64| v(vec![min, max]);

    let test_cases: Vec<(Op, Value, Value, bool, &str)> = vec![
        (Op::BETWEEN(), Value::Int(50), int_range(10, 100), true, "i64: middle of range"),
        (Op::BETWEEN(), Value::Int(10), int_range(10, 100), true, "i64: at min (inclusive)"),
        (Op::BETWEEN(), Value::Int(100), int_range(10, 100), true, "i64: at max (inclusive)"),
        (Op::BETWEEN(), Value::Int(5), int_range(10, 100), false, "i64: below min"),
        (Op::BETWEEN(), Value::Int(101), int_range(10, 100), false, "i64: above max"),
        (Op::BETWEEN(), Value::Uint(50), uint_range(10, 100), true, "u64: middle of range"),
        (Op::BETWEEN(), Value::Uint(10), uint_range(10, 100), true, "u64: at min"),
        (Op::BETWEEN(), Value::Uint(100), uint_range(10, 100), true, "u64: at max"),
        (Op::BETWEEN(), Value::Uint(5), uint_range(10, 100), false, "u64: below min"),
        (Op::BETWEEN(), Value::Uint(101), uint_range(10, 100), false, "u64: above max"),
        (Op::NOT_BETWEEN(), Value::Int(50), int_range(10, 100), false, "NOT BETWEEN: inside range"),
        (Op::NOT_BETWEEN(), Value::Int(5), int_range(10, 100), true, "NOT BETWEEN: below min"),
        (Op::NOT_BETWEEN(), Value::Int(101), int_range(10, 100), true, "NOT BETWEEN: above max"),
        (Op::BETWEEN(), Value::Uint(50), int_range(10, 100), true, "u64 with IntArray range"),
        (Op::BETWEEN(), Value::Int(50), int_range(50, 50), true, "single value range: exact match"),
        (Op::BETWEEN(), Value::Int(49), int_range(50, 50), false, "single value range: below"),
        (Op::BETWEEN(), Value::Int(51), int_range(50, 50), false, "single value range: above"),
        (Op::BETWEEN(), Value::Int(-50), int_range(-100, -10), true, "negative range: inside"),
        (Op::BETWEEN(), Value::Int(-5), int_range(-100, -10), false, "negative range: above max"),
        (Op::BETWEEN(), Value::Int(-101), int_range(-100, -10), false, "negative range: below min"),
        (Op::BETWEEN(), Value::Int(0), int_range(-10, 10), true, "zero-crossing: at zero"),
        (Op::BETWEEN(), Value::Int(-5), int_range(-10, 10), true, "zero-crossing: negative"),
        (Op::BETWEEN(), Value::Int(5), int_range(-10, 10), true, "zero-crossing: positive"),
        (Op::BETWEEN(), Value::Int(50), Value::Int(100), false, "invalid: scalar instead of array"),
        (Op::BETWEEN(), Value::Int(50), v("10,100"), false, "invalid: string"),
        (Op::BETWEEN(), Value::Int(50), v(vec![10i64]), false, "invalid: array with 1 element"),
        (Op::BETWEEN(), v("hello"), int_range(10, 100), false, "string field: not supported"),
        (Op::BETWEEN(), Value::Bool(true), int_range(0, 1), false, "bool field: not supported"),
        (Op::BETWEEN(), Value::Int(0), int_range(i64::MIN, i64::MAX), true, "i64 extremes: zero"),
        (Op::BETWEEN(), Value::Int(i64::MIN), int_range(i64::MIN, i64::MAX), true, "i64 extremes: MIN"),
        (Op::BETWEEN(), Value::Int(i64::MAX), int_range(i64::MIN, i64::MAX), true, "i64 extremes: MAX"),
        (Op::BETWEEN(), Value::Uint(0), uint_range(0, u64::MAX), true, "u64 extremes: zero"),
        (Op::BETWEEN(), Value::Uint(u64::MAX), uint_range(0, u64::MAX), true, "u64 extremes: MAX"),
    ];

    for (op, field, range, expected, desc) in test_cases {
        assert_eq!(field.evaluate(&op, &range), expected, "Failed: {}", desc);
    }
}

#[test]
fn test_all_of_operators() {
    let field_int: [i64; 5] = [1, 2, 3, 4, 5];
    let field_uint: [u64; 3] = [10, 20, 30];
    let field_str: [String; 3] = ["apple".to_string(), "banana".to_string(), "cherry".to_string()];
    let field_bool: [bool; 2] = [true, false];
    let empty_field: [i64; 0] = [];

    type TestCase<'a, T> = (Op, &'a [T], Value, bool, &'static str);

    let int_tests: Vec<TestCase<i64>> = vec![
        (Op::ALL_OF(), &field_int, v(vec![2, 3]), true, "subset present"),
        (Op::ALL_OF(), &field_int, v(vec![2, 6]), false, "missing element"),
        (Op::ALL_OF(), &field_int, v(vec![0i64; 0]), true, "empty subset (vacuously true)"),
        (Op::ALL_OF(), &field_int, v(vec![2u64, 3]), true, "cross-type int/uint"),
        (Op::ALL_OF(), &field_int, v(vec![2, 3, 2, 3]), true, "duplicates ignored"),
        (Op::ALL_OF(), &field_int, int_set(&[2, 3]), true, "IntSet: contains all"),
        (Op::ALL_OF(), &field_int, int_set(&[2, 6]), false, "IntSet: missing 6"),
        (Op::ALL_OF(), &field_int, int_set(&[]), true, "IntSet: empty (vacuously true)"),
        (Op::NOT_ALL_OF(), &field_int, v(vec![2, 3]), false, "NOT ALL OF: subset present"),
        (Op::NOT_ALL_OF(), &field_int, v(vec![2, 6]), true, "NOT ALL OF: missing element"),
        (Op::ALL_OF(), &empty_field, v(vec![1, 2, 3]), false, "empty field: returns false"),
        (Op::ALL_OF(), &empty_field, int_set(&[]), true, "empty field + empty set: true"),
    ];

    for (op, field, query, expected, desc) in int_tests {
        assert_eq!(op.any(field, &query), expected, "Failed: {}", desc);
    }

    let uint_tests: Vec<TestCase<u64>> =
        vec![(Op::ALL_OF(), &field_uint, v(vec![10u64, 20, 10]), true, "duplicates ignored")];

    for (op, field, query, expected, desc) in uint_tests {
        assert_eq!(op.any(field, &query), expected, "Failed: {}", desc);
    }

    let str_tests: Vec<TestCase<String>> = vec![
        (Op::ALL_OF(), &field_str, v(vec!["banana", "cherry"]), true, "string subset present"),
        (Op::ALL_OF(), &field_str, v(vec!["banana", "grape"]), false, "string missing element"),
        (Op::ALL_OF(), &field_str, str_set(&["apple", "cherry"]), true, "StringSet: contains all"),
        (Op::ALL_OF(), &field_str, str_set(&["apple", "grape"]), false, "StringSet: missing grape"),
    ];

    for (op, field, query, expected, desc) in str_tests {
        assert_eq!(op.any(field, &query), expected, "Failed: {}", desc);
    }

    let bool_tests: Vec<TestCase<bool>> = vec![
        (Op::ALL_OF(), &field_bool, v(vec![true, true, true]), true, "bool: multiple true = single true"),
        (Op::ALL_OF(), &field_bool, v(vec![true, false, true, false]), true, "bool: duplicates of both"),
        (Op::ALL_OF(), &[true, true, true], v(vec![true, false]), false, "bool: all true missing false"),
    ];

    for (op, field, query, expected, desc) in bool_tests {
        assert_eq!(op.any(field, &query), expected, "Failed: {}", desc);
    }

    let large_field: Vec<i64> = (1..=100).collect();
    let large_tests = vec![
        (v((1..=70).collect::<Vec<i64>>()), true, "70 required elements"),
        (v((1..=100).collect::<Vec<i64>>()), true, "100 required elements"),
        (v((2..=101).collect::<Vec<i64>>()), false, "missing element 101"),
    ];

    for (query, expected, desc) in large_tests {
        assert_eq!(Op::ALL_OF().any(&large_field, &query), expected, "Failed: {}", desc);
    }
}

#[test]
fn test_any_of_operators() {
    let field_int: [i64; 5] = [1, 2, 3, 4, 5];
    let field_uint: [u64; 3] = [3, 5, 7];
    let field_str: [String; 3] = ["foo".to_string(), "bar".to_string(), "baz".to_string()];
    let field_bool: [bool; 2] = [true, false];
    let empty_field: [i64; 0] = [];

    type TestCase<'a, T> = (Op, &'a [T], Value, bool, &'static str);

    let int_tests: Vec<TestCase<i64>> = vec![
        (Op::ANY_OF(), &field_int, v(vec![3, 6, 9]), true, "array contains one"),
        (Op::ANY_OF(), &field_int, v(vec![6, 7, 8]), false, "array contains none"),
        (Op::NOT_ANY_OF(), &field_int, v(vec![3, 6, 9]), false, "NOT ANY OF: contains one"),
        (Op::NOT_ANY_OF(), &field_int, v(vec![6, 7, 8]), true, "NOT ANY OF: contains none"),
        (Op::ANY_OF(), &field_int, int_set(&[3, 6, 9]), true, "IntSet: contains 3"),
        (Op::ANY_OF(), &field_int, int_set(&[6, 7, 8]), false, "IntSet: contains none"),
        (Op::ANY_OF(), &field_int, int_set(&[]), false, "IntSet: empty set returns false"),
        (Op::ANY_OF(), &empty_field, v(vec![1, 2, 3]), false, "empty field returns false"),
        (Op::NOT_ANY_OF(), &empty_field, v(vec![1, 2, 3]), true, "NOT ANY OF: empty field returns true"),
    ];

    for (op, field, query, expected, desc) in int_tests {
        assert_eq!(op.any(field, &query), expected, "Failed: {}", desc);
    }

    let uint_tests: Vec<TestCase<u64>> = vec![
        (Op::ANY_OF(), &field_uint, v(vec![5i64, 9]), true, "cross-type uint/int contains one"),
        (Op::ANY_OF(), &field_uint, uint_set(&[20, 40]), false, "UintSet: contains none"),
    ];

    for (op, field, query, expected, desc) in uint_tests {
        assert_eq!(op.any(field, &query), expected, "Failed: {}", desc);
    }

    let str_tests: Vec<TestCase<String>> = vec![
        (Op::ANY_OF(), &field_str, v(vec!["foo", "qux"]), true, "string array contains one"),
        (Op::ANY_OF(), &field_str, v(vec!["qux", "xyz"]), false, "string array contains none"),
        (Op::ANY_OF(), &field_str, str_set(&["bar", "grape"]), true, "StringSet: contains bar"),
        (Op::ANY_OF(), &field_str, str_set(&["grape", "melon"]), false, "StringSet: contains none"),
    ];

    for (op, field, query, expected, desc) in str_tests {
        assert_eq!(op.any(field, &query), expected, "Failed: {}", desc);
    }

    let bool_tests: Vec<TestCase<bool>> = vec![
        (Op::ANY_OF(), &field_bool, bool_set(&[true]), true, "BoolSet: contains true"),
        (Op::ANY_OF(), &[true, true, true], bool_set(&[false]), false, "all true doesn't contain false"),
        (Op::ANY_OF(), &[true, false, true], bool_set(&[true, false]), true, "mixed contains both"),
    ];

    for (op, field, query, expected, desc) in bool_tests {
        assert_eq!(op.any(field, &query), expected, "Failed: {}", desc);
    }

    let large_field: Vec<i64> = (1..=100).collect();
    let edge_tests = vec![
        (Op::ANY_OF(), int_set(&(50..=150).collect::<Vec<_>>()), true, "large set: overlap"),
        (Op::ANY_OF(), int_set(&(200..=300).collect::<Vec<_>>()), false, "large set: no overlap"),
    ];

    for (op, query, expected, desc) in edge_tests {
        assert_eq!(op.any(&large_field, &query), expected, "Failed: {}", desc);
    }

    let field_extremes: [i64; 5] = [i64::MIN, -1, 0, 1, i64::MAX];
    assert!(
        Op::ANY_OF().any(&field_extremes, &int_set(&[i64::MIN, i64::MAX])),
        "boundary: i64 extremes"
    );
}

#[test]
fn test_scalar_operators_return_false_for_collection_ops() {
    let test_cases: Vec<(Op, Value, Value, &str)> = vec![
        (Op::ALL_OF(), v(vec![1, 2, 3]), v(vec![2, 3]), "ALL OF on Value"),
        (Op::ANY_OF(), Value::Int(5), v(vec![3, 5, 7]), "ANY OF on Value"),
    ];

    for (op, field, query, desc) in test_cases {
        assert!(!field.evaluate(&op, &query), "Failed: {} should return false", desc);
    }
}

#[test]
fn test_all_operators_smoke() {
    let scalar_tests: Vec<(Value, Op, Value, bool, &str)> = vec![
        (Value::Int(5), Op::EQ(), Value::Int(5), true, "EQ"),
        (Value::Int(5), Op::NE(), Value::Int(3), true, "NE"),
        (Value::Int(5), Op::GT(), Value::Int(3), true, "GT"),
        (Value::Int(3), Op::LT(), Value::Int(5), true, "LT"),
        (Value::Int(5), Op::GTE(), Value::Int(5), true, "GTE"),
        (Value::Int(5), Op::LTE(), Value::Int(5), true, "LTE"),
        (v("hello"), Op::CONTAINS(), v("ell"), true, "CONTAINS"),
        (v("hello"), Op::NOT_CONTAINS(), v("xyz"), true, "NOT_CONTAINS"),
        (v("hello"), Op::STARTS_WITH(), v("hel"), true, "STARTS_WITH"),
        (v("hello"), Op::ENDS_WITH(), v("llo"), true, "ENDS_WITH"),
        (v("hello"), Op::NOT_STARTS_WITH(), v("bye"), true, "NOT_STARTS_WITH"),
        (v("hello"), Op::NOT_ENDS_WITH(), v("xyz"), true, "NOT_ENDS_WITH"),
    ];

    for (field, op, query, expected, desc) in scalar_tests {
        assert_eq!(field.evaluate(&op, &query), expected, "Failed: {}", desc);
    }

    let field = [1, 2, 3];
    let collection_tests: Vec<(Op, Value, bool, &str)> = vec![
        (Op::ALL_OF(), v(vec![2, 3]), true, "ALL_OF"),
        (Op::NOT_ALL_OF(), v(vec![2, 5]), true, "NOT_ALL_OF"),
        (Op::ANY_OF(), v(vec![2, 7]), true, "ANY_OF"),
        (Op::NOT_ANY_OF(), v(vec![4, 5]), true, "NOT_ANY_OF"),
    ];

    for (op, query, expected, desc) in collection_tests {
        assert_eq!(op.any(&field, &query), expected, "Failed: {}", desc);
    }
}
