use dnf::custom::{CustomOp, NoCustomOp, OpRegistry};
use dnf::error::get_context;
use dnf::operator::Op;
use dnf::parser::{parse_with_fields, Parser};
use dnf::query::{root_field_kind, DnfEvaluable, DnfQuery};
use dnf::token::tokenize;
use dnf::value::Value;
use dnf::{DnfError, FieldInfo, FieldKind};
use std::rc::Rc;

#[derive(Clone)]
struct FnOp(Rc<dyn Fn(&Value, &Value) -> bool>);

impl std::fmt::Debug for FnOp {
    fn fmt(&self, f: &mut std::fmt::Formatter<'_>) -> std::fmt::Result {
        f.write_str("FnOp")
    }
}

impl CustomOp for FnOp {
    fn apply(&self, field: &Value, query: &Value) -> bool {
        (self.0)(field, query)
    }
}

fn op(f: fn(&Value, &Value) -> bool) -> FnOp {
    FnOp(Rc::new(f))
}

#[test]
fn test_query_equality_counts_custom_op_names() {
    let q1: DnfQuery<FnOp> = dnf::builder::QueryBuilder::new()
        .with_custom_op("A", true, op(|_, _| true))
        .or(|c| c.and("x", Op::EQ(), 1i64))
        .build();
    let q2: DnfQuery<FnOp> =
        dnf::builder::QueryBuilder::new().or(|c| c.and("x", Op::EQ(), 1i64)).build();
    assert!(q1 != q2);
    assert!(q1 == q1.clone());
    assert!(q2 == q2.clone());
    let q3: DnfQuery<FnOp> = dnf::builder::QueryBuilder::new()
        .with_custom_op("A", false, op(|_, _| false))
        .or(|c| c.and("x", Op::EQ(), 1i64))
        .build();
    assert!(q1 == q3);
}

#[test]
fn test_merge_takes_other_registration() {
    let mut a = OpRegistry::new();
    a.register("X", true, op(|_, _| true));
    let mut b = OpRegistry::new();
    b.register("X", false, op(|_, _| false));
    b.register("Y", false, op(|_, _| true));
    a.merge(b);
    assert_eq!(a.len(), 2);
    assert!(a.contains("Y"));
    assert_eq!(a.evaluate("X", &Value::Null, &Value::Null), Some(false));
    assert!(!a.is_novalue("X"));
}

fn parser_for(s: &str, fields: &[FieldInfo]) -> Parser {
    Parser::new(tokenize(s, None).unwrap(), fields, s.to_string(), None)
}

#[test]
fn test_mixed_sign_arrays_promote() {
    let mut p = parser_for("[-5, 0, 5]", &[]);
    let v = p.parse_array().unwrap();
    assert!(matches!(v, Value::IntArray(ref a) if a == &vec![-5, 0, 5]), "{:?}", v);
    assert!(p.is_at_end());
    let mut p = parser_for("[5, -1]", &[]);
    assert!(matches!(p.parse_array().unwrap(), Value::IntArray(ref a) if a == &vec![5, -1]));
    let mut p = parser_for("[1, 2]", &[]);
    assert!(matches!(p.parse_array().unwrap(), Value::UintArray(ref a) if a == &vec![1, 2]));
    let mut p = parser_for("[-1, 18446744073709551615]", &[]);
    assert!(matches!(p.parse_array(), Err(DnfError::TypeMismatch { .. })));
    let fields = vec![FieldInfo::new("n", "i64")];
    let q: DnfQuery = parse_with_fields("n IN [-5, 0, 5]", &fields, None, None).unwrap();
    assert!(matches!(q.conjunctions()[0].conditions()[0].value(), Value::IntArray(_)));
}

#[test]
fn test_type_mismatch_names_the_field() {
    let fields = vec![FieldInfo::new("age", "u32")];
    let mut p = parser_for(r#"age > "not a number""#, &fields);
    match p.parse_condition() {
        Err(DnfError::TypeMismatch { field, expected, actual, .. }) => {
            assert_eq!(field, "age");
            assert_eq!(expected, "u32");
            assert_eq!(actual, "String");
        },
        other => panic!("{:?}", other),
    }
}

#[test]
fn test_two_decimal_points_are_invalid_numbers() {
    let fields = vec![FieldInfo::new("score", "i64")];
    let err = parse_with_fields::<NoCustomOp>("score == 1.2.3", &fields, None, None).unwrap_err();
    assert!(matches!(err, DnfError::InvalidNumber { ref value, .. } if value == "1.2.3"), "{:?}", err);
    let err = parse_with_fields::<NoCustomOp>("score > 1.2.3", &fields, None, None).unwrap_err();
    assert!(matches!(err, DnfError::InvalidNumber { .. }), "{:?}", err);
    let err = parse_with_fields::<NoCustomOp>("score == 1.5", &fields, None, None).unwrap_err();
    assert!(matches!(err, DnfError::TypeMismatch { .. }), "{:?}", err);
}

#[test]
fn test_parser_position_after_errors() {
    let fields = vec![FieldInfo::new("age", "u32")];
    let mut p = parser_for("age age", &fields);
    assert!(p.parse_operator().is_err());
    assert!(p.parse_operator().is_err());
    assert!(p.is_at_end());
    let mut p = parser_for("\"x\" 1", &fields);
    assert!(p.parse_value("age", "u32").is_err());
    assert!(p.parse_value("age", "u32").is_ok());
    assert!(p.is_at_end());
    let mut p = parser_for("[\"k\"]", &fields);
    assert!(p.parse_map_target(FieldKind::Scalar).is_err());
    assert!(!p.is_at_end());
    assert!(p.parse_map_target(FieldKind::Mapping).unwrap().is_some());
}

#[test]
fn test_context_for_any_position() {
    let input = "é".repeat(30);
    let ctx = get_context(&input, 59);
    assert!(ctx.starts_with("..."));
    let ctx = get_context("abc", 1000);
    assert_eq!(ctx, "abc");
    let e = DnfError::UnexpectedEof { position: 59, input: input.clone() };
    assert!(e.to_string().contains("at position 59"));
}

struct Person {
    age: u32,
}

impl DnfEvaluable for Person {
    fn evaluate_field(&self, field_name: &str, op: &Op, value: &Value) -> bool {
        match field_name {
            "age" => op.scalar_uint(self.age as u64, value),
            _ => false,
        }
    }

    fn field_value(&self, _field_name: &str) -> Option<Value> {
        None
    }

    fn fields() -> Vec<FieldInfo> {
        vec![FieldInfo::new("age", "u32"), FieldInfo::with_kind("tags", "HashMap<String, u32>", FieldKind::Mapping)]
    }
}

#[test]
fn test_default_path_check_and_shared_validation() {
    assert_eq!(Person::validate_field_path("age"), Some(FieldKind::Scalar));
    assert_eq!(Person::validate_field_path("tags.@keys"), Some(FieldKind::Mapping));
    assert_eq!(Person::validate_field_path("missing"), None);
    assert_eq!(Person::validate_field_path("age"), root_field_kind(&Person::fields(), "age"));
    let ok = DnfQuery::builder().or(|c| c.and("age", Op::GT(), 3u64));
    assert!(ok.validate::<Person>().is_ok());
    let bad = || DnfQuery::builder().or(|c| c.and("agee", Op::GT(), 3u64));
    let from_builder = bad().validate::<Person>().unwrap_err();
    let from_query = bad().build().validate::<Person>().unwrap_err();
    assert_eq!(from_builder.to_string(), from_query.to_string());
    assert!(matches!(from_builder, DnfError::UnknownField { ref field_name, position: None } if field_name == "agee"));
    assert!(Person { age: 5 }.evaluate_field("age", &Op::GT(), &Value::Uint(3)));
}

#[test]
fn test_parse_error_positions_are_byte_offsets() {
    let fields = vec![FieldInfo::new("age", "u32"), FieldInfo::new("note", "String")];
    let s = "age > 18 AND unknown == 1";
    let err = parse_with_fields::<NoCustomOp>(s, &fields, None, None).unwrap_err();
    assert!(
        matches!(err, DnfError::UnknownField { ref field_name, position: Some(13) } if field_name == "unknown"),
        "{:?}",
        err
    );
    let s = "note == \"é\" AND unknown == 1";
    let at = s.find("unknown").unwrap();
    let err = parse_with_fields::<NoCustomOp>(s, &fields, None, None).unwrap_err();
    assert!(matches!(err, DnfError::UnknownField { position: Some(p), .. } if p == at), "{:?}", err);
    let s = "age > \"x\"";
    let err = parse_with_fields::<NoCustomOp>(s, &fields, None, None).unwrap_err();
    assert!(matches!(err, DnfError::TypeMismatch { position: Some(6), .. }), "{:?}", err);
    let mut p = parser_for("age > 18 AND unknown == 1", &fields);
    for _ in 0..4 {
        p.advance();
    }
    assert!(matches!(p.parse_condition(), Err(DnfError::UnknownField { position: Some(13), .. })));
}
