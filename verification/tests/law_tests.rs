use dnf::builder::QueryBuilder;
use dnf::custom::CustomOp;
use dnf::field::DnfField;
use dnf::operator::Op;
use dnf::parser::parse_with_fields;
use dnf::query::{root_field_kind, DnfEvaluable, DnfQuery};
use dnf::text::Order;
use dnf::token::{tokenize, Token};
use dnf::value::Value;
use dnf::{DnfError, FieldInfo, FieldKind};
use std::cmp::Ordering;
use std::rc::Rc;

#[derive(Clone)]
struct FnOp(Rc<dyn Fn(&Value, &Value) -> bool>);

impl std::fmt::Debug for FnOp {
    fn fmt(&self, f: &mut std::fmt::Formatter<'_>) -> std::fmt::Result {
        f.write_str("FnOp")
    }
}

impl CustomOp for FnOp {
    fn apply(&self, field: &Value, query: &Value) -> bool {
        (self.0)(field, query)
    }
}

struct Item {
    n: i64,
    tags: Vec<String>,
}

impl DnfEvaluable for Item {
    fn evaluate_field(&self, field_name: &str, op: &Op, value: &Value) -> bool {
        match field_name {
            "n" => self.n.evaluate(op, value),
            "tags" => op.any(&self.tags, value),
            _ => false,
        }
    }

    fn field_value(&self, field_name: &str) -> Option<Value> {
        match field_name {
            "n" => Some(Value::Int(self.n)),
            _ => None,
        }
    }

    fn fields() -> Vec<FieldInfo> {
        vec![FieldInfo::new("n", "i64"), FieldInfo::new("tags", "Vec < String >")]
    }

    fn validate_field_path(path: &str) -> Option<FieldKind> {
        root_field_kind(&Self::fields(), path)
    }
}

fn item(n: i64, tags: &[&str]) -> Item {
    Item { n, tags: tags.iter().map(|s| s.to_string()).collect() }
}

#[test]
fn test_merge_is_or_of_both_queries() {
    let a = DnfQuery::builder().or(|c| c.and("n", Op::GT(), 10)).build();
    let b = DnfQuery::builder().or(|c| c.and("tags", Op::CONTAINS(), "x")).build();
    for target in [item(11, &[]), item(5, &["x"]), item(5, &[]), item(20, &["x"])] {
        let expected = a.evaluate(&target) || b.evaluate(&target);
        let merged = a.clone().merge(b.clone());
        assert_eq!(merged.evaluate(&target), expected);
        let combined = QueryBuilder::new().or_query(a.clone()).or_query(b.clone()).build();
        assert_eq!(combined.evaluate(&target), expected);
    }
}

#[test]
fn test_registry_ignored_without_custom_conditions() {
    let plain: DnfQuery<FnOp> =
        QueryBuilder::new().or(|c| c.and("n", Op::EQ(), 3)).build();
    let with_ops: DnfQuery<FnOp> = QueryBuilder::new()
        .with_custom_op("ALWAYS", true, FnOp(Rc::new(|_, _| true)))
        .or(|c| c.and("n", Op::EQ(), 3))
        .build();
    for n in [2, 3, 4] {
        assert_eq!(plain.evaluate(&item(n, &[])), with_ops.evaluate(&item(n, &[])));
    }
}

#[test]
fn test_negated_forms_negate() {
    let target = item(7, &["a", "b"]);
    let pairs = [
        (Op::EQ(), Op::NE()),
        (Op::GT(), Op::LTE()),
        (Op::LT(), Op::GTE()),
        (Op::CONTAINS(), Op::NOT_CONTAINS()),
        (Op::STARTS_WITH(), Op::NOT_STARTS_WITH()),
        (Op::ENDS_WITH(), Op::NOT_ENDS_WITH()),
        (Op::ALL_OF(), Op::NOT_ALL_OF()),
        (Op::ANY_OF(), Op::NOT_ANY_OF()),
        (Op::BETWEEN(), Op::NOT_BETWEEN()),
    ];
    let values = [
        Value::Int(7),
        Value::Int(3),
        Value::String("7".to_string()),
        Value::IntArray(vec![1, 9]),
        Value::StringArray(vec!["a".to_string()]),
        Value::Null,
    ];
    for (plain, negated) in pairs.iter() {
        for v in values.iter() {
            assert_eq!(7i64.evaluate(negated, v), !7i64.evaluate(plain, v), "{:?} {:?}", plain, v);
            assert_eq!(
                target.evaluate_field("tags", negated, v),
                !target.evaluate_field("tags", plain, v),
                "{:?} {:?}",
                plain,
                v
            );
        }
    }

    let q = QueryBuilder::<FnOp>::new()
        .with_custom_op("BIG", false, FnOp(Rc::new(|f, _| matches!(f, Value::Int(n) if *n > 5))))
        .or(|c| c.and("n", Op::custom("BIG"), Value::Null))
        .build();
    let nq = QueryBuilder::<FnOp>::new()
        .with_custom_op("BIG", false, FnOp(Rc::new(|f, _| matches!(f, Value::Int(n) if *n > 5))))
        .or(|c| c.and("n", Op::not_custom("BIG"), Value::Null))
        .build();
    for n in [1, 6] {
        assert_eq!(nq.evaluate(&item(n, &[])), !q.evaluate(&item(n, &[])));
    }
}

#[test]
fn test_options_decide_by_membership() {
    let target = item(0, &["a", "b", "c"]);
    for op in [Op::ALL_OF(), Op::ANY_OF(), Op::NOT_ALL_OF(), Op::NOT_ANY_OF()] {
        let list = Value::StringArray(vec!["a".into(), "z".into(), "a".into()]);
        let set = Value::string_set(vec!["a", "z", "a"]);
        assert_eq!(target.evaluate_field("tags", &op, &list), target.evaluate_field("tags", &op, &set));
        let ints = [1i64, 2, 2, 1];
        let field = [1i64, 2, 3];
        assert_eq!(
            op.any(&field, &Value::IntArray(ints.to_vec())),
            op.any(&field, &Value::int_set(ints.to_vec()))
        );
    }
}

#[test]
fn test_parsed_query_names_given_fields() {
    let fields = vec![FieldInfo::new("n", "i64")];
    let q: DnfQuery = parse_with_fields("n > 1 OR (n < 0 AND n != -5)", &fields, None, None).unwrap();
    for name in q.field_names() {
        assert!(fields.iter().any(|f| f.name() == name));
    }
    let err = parse_with_fields::<dnf::custom::NoCustomOp>("n > 1 OR m < 0", &fields, None, None)
        .unwrap_err();
    assert!(matches!(err, DnfError::UnknownField { ref field_name, .. } if field_name == "m"));
}

#[test]
fn test_equality_and_ordering_agree() {
    let values = vec![
        Value::Int(3),
        Value::Uint(3),
        Value::Int(-1),
        Value::String("3".to_string()),
        Value::String("abc".to_string()),
        Value::Bool(true),
        Value::String("true".to_string()),
        Value::Null,
        Value::IntArray(vec![1, 2]),
        Value::IntArray(vec![1, 3]),
        Value::IntSet(vec![2, 1]),
        Value::IntSet(vec![1, 2]),
        Value::at_key("k", 1i64),
        Value::keys("k"),
    ];
    for a in values.iter() {
        assert!(a == a, "{:?}", a);
        for b in values.iter() {
            assert_eq!(a == b, b == a, "{:?} {:?}", a, b);
            assert_eq!(a == b, a.partial_cmp(b) == Some(Ordering::Equal), "{:?} {:?}", a, b);
            assert_eq!(b.partial_cmp(a), a.partial_cmp(b).map(Ordering::reverse), "{:?} {:?}", a, b);
            let o = a.order(b);
            let flipped = b.order(a).map(|x| match x {
                Order::Less => Order::Greater,
                Order::Greater => Order::Less,
                Order::Equal => Order::Equal,
            });
            assert_eq!(o, flipped);
        }
    }
}

#[test]
fn test_quoted_text_tokenizes_back() {
    for s in ["plain", "with \"quotes\"", "back\\slash", "a/b", "line\nnext\ttab\rend", "", "日本語"] {
        let written = Value::String(s.to_string()).to_string();
        let tokens = tokenize(&written, None).unwrap();
        assert_eq!(tokens, vec![Token::String(s.to_string())], "{}", written);
    }
}

#[test]
fn test_rendered_integers_parse_back() {
    for n in [0i64, 7, -7, 10, -10, 1234567890, i64::MAX, i64::MIN] {
        let text: Vec<char> = dnf::text::i64_to_string(n).chars().collect();
        assert_eq!(dnf::numeric::parse_i64_chars(&text), Some(n));
    }
    for n in [0u64, 9, 10, 99, 100, u64::MAX] {
        let text: Vec<char> = dnf::text::u64_to_string(n).chars().collect();
        assert_eq!(dnf::numeric::parse_u64_chars(&text), Some(n));
    }
}

#[test]
fn test_written_query_parses_back() {
    let fields = vec![
        FieldInfo::new("n", "i64"),
        FieldInfo::new("u", "u32"),
        FieldInfo::new("name", "String"),
        FieldInfo::new("tags", "Vec < String >"),
    ];
    let query: DnfQuery = DnfQuery::builder()
        .or(|c| {
            c.and("n", Op::GT(), -3i64)
                .and("name", Op::STARTS_WITH(), "a \"b\"")
                .and("tags", Op::ANY_OF(), vec!["x", "y"])
        })
        .or(|c| c.and("u", Op::LTE(), 7u64).and("tags", Op::NOT_ALL_OF(), vec![1u64, 2]))
        .or(|c| c.and("n", Op::ANY_OF(), vec![-1i64, -2]).and("name", Op::NE(), Value::Null))
        .or(|c| c.and("tags", Op::ALL_OF(), Vec::<String>::new()).and("name", Op::EQ(), true))
        .build();
    let written = query.to_string();
    let read = parse_with_fields::<dnf::custom::NoCustomOp>(&written, &fields, None, None).unwrap();
    assert!(read.equals(&query), "{}", written);
    assert_eq!(read.to_string(), written);
}

#[test]
fn test_written_query_parses_back_equal() {
    let fields = vec![FieldInfo::new("n", "i64"), FieldInfo::new("tags", "Vec < String >")];
    let query: DnfQuery = DnfQuery::builder()
        .or(|c| c.and("n", Op::EQ(), 42i64).and("tags", Op::CONTAINS(), 0i64))
        .or(|c| c.and("n", Op::GT(), 18i64))
        .build();
    let written = query.to_string();
    assert_eq!(written, "(n == 42 AND tags CONTAINS 0) OR (n > 18)");
    let read = parse_with_fields::<dnf::custom::NoCustomOp>(&written, &fields, None, None).unwrap();
    assert!(read.equals(&query));
    assert!(matches!(read.conjunctions()[0].conditions()[0].value(), Value::Uint(42)));
    assert!(matches!(read.conjunctions()[1].conditions()[0].value(), Value::Int(18)));
}

#[test]
fn test_written_comparisons_parse_back() {
    let fields = vec![
        FieldInfo::new("age", "u32"),
        FieldInfo::new("n", "i64"),
        FieldInfo::new("name", "String"),
        FieldInfo::new("ok", "bool"),
        FieldInfo::new("maybe", "Option<i32>"),
    ];
    let query: DnfQuery = DnfQuery::builder()
        .or(|c| c.and("age", Op::GT(), 18i64).and("n", Op::LT(), 5u64))
        .or(|c| c.and("name", Op::GTE(), "m").and("ok", Op::LTE(), true).and("maybe", Op::GT(), Value::Null))
        .build();
    let written = query.to_string();
    let read = parse_with_fields::<dnf::custom::NoCustomOp>(&written, &fields, None, None).unwrap();
    assert!(read.equals(&query), "{}", written);
    assert_eq!(read.to_string(), written);
    assert!(matches!(read.conjunctions()[0].conditions()[0].value(), Value::Uint(18)));
    assert!(matches!(read.conjunctions()[0].conditions()[1].value(), Value::Int(5)));
    assert!(matches!(read.conjunctions()[1].conditions()[2].value(), Value::Null));
}

#[test]
fn test_written_ranges_parse_back() {
    let fields = vec![FieldInfo::new("age", "u32"), FieldInfo::new("n", "i64"), FieldInfo::new("name", "String")];
    let query: DnfQuery = DnfQuery::builder()
        .or(|c| c.and("age", Op::BETWEEN(), vec![18u64, 65]).and("n", Op::NOT_BETWEEN(), vec![-5i64, 5]))
        .or(|c| c.and("name", Op::BETWEEN(), vec![1i64, 2, 3]))
        .build();
    let written = query.to_string();
    assert_eq!(written, "(age BETWEEN [18, 65] AND n NOT BETWEEN [-5, 5]) OR (name BETWEEN [1, 2, 3])");
    let read = parse_with_fields::<dnf::custom::NoCustomOp>(&written, &fields, None, None).unwrap();
    assert!(read.equals(&query), "{}", written);
    assert!(matches!(read.conjunctions()[1].conditions()[0].value(), Value::IntArray(_)));
}

#[test]
fn test_written_custom_operators_parse_back() {
    let fields = vec![FieldInfo::new("age", "u32"), FieldInfo::new("name", "String")];
    let query: DnfQuery = DnfQuery::builder()
        .or(|c| c.and("age", Op::custom("OVER"), 18i64).and("name", Op::custom("LIKE"), "a%"))
        .build();
    let written = query.to_string();
    assert_eq!(written, "(age OVER 18 AND name LIKE \"a%\")");
    let read = parse_with_fields::<dnf::custom::NoCustomOp>(
        &written,
        &fields,
        Some(&["OVER".to_string(), "LIKE".to_string()][..]),
        None,
    )
    .unwrap();
    assert!(read.equals(&query), "{}", written);
    assert!(matches!(read.conjunctions()[0].conditions()[0].value(), Value::Uint(18)));
}

#[test]
fn test_written_dotted_fields_parse_back() {
    let fields = vec![FieldInfo::new("user.name.first", "String"), FieldInfo::new("person.age", "u32")];
    let query: DnfQuery = DnfQuery::builder()
        .or(|c| c.and("user.name.first", Op::EQ(), "Ann").and("person.age", Op::GTE(), 21u64))
        .build();
    let written = query.to_string();
    assert_eq!(written, "(user.name.first == \"Ann\" AND person.age >= 21)");
    let read = parse_with_fields::<dnf::custom::NoCustomOp>(&written, &fields, None, None).unwrap();
    assert!(read.equals(&query), "{}", written);
}

#[test]
fn test_unregistered_custom_never_holds() {
    let plain: DnfQuery = DnfQuery::builder().or(|c| c.and("n", Op::custom("TYPO"), Value::Null)).build();
    let negated: DnfQuery =
        DnfQuery::builder().or(|c| c.and("n", Op::not_custom("TYPO"), Value::Null)).build();
    for n in [1, 6] {
        assert!(!plain.evaluate(&item(n, &[])));
        assert!(!negated.evaluate(&item(n, &[])));
    }
    let registered_other = QueryBuilder::<FnOp>::new()
        .with_custom_op("BIG", false, FnOp(Rc::new(|_, _| true)))
        .or(|c| c.and("n", Op::not_custom("TYPO"), Value::Null))
        .build();
    assert!(!registered_other.evaluate(&item(1, &[])));
}

#[test]
fn test_between_compares_as_integers() {
    let r = Value::IntArray(vec![-10, 10]);
    assert!(Op::BETWEEN().scalar_uint(5, &r));
    assert!(!Op::NOT_BETWEEN().scalar_uint(5, &r));
    assert!(!Op::BETWEEN().scalar_uint(11, &r));
    let big = Value::UintArray(vec![0, u64::MAX]);
    assert!(Op::BETWEEN().scalar_int(7, &big));
    assert!(!Op::BETWEEN().scalar_int(-1, &big));
}

#[test]
fn test_builder_validation_agrees_with_built_query() {
    let good = || {
        QueryBuilder::<FnOp>::new()
            .or(|c| c)
            .or(|c| c.and("n", Op::GT(), 3).and("tags", Op::CONTAINS(), "a"))
    };
    assert!(good().validate::<Item>().is_ok());
    assert!(good().build().validate::<Item>().is_ok());
    let kept = good().validate::<Item>().unwrap().build();
    assert!(kept == good().build());

    let typo = || {
        QueryBuilder::<FnOp>::new()
            .or(|c| c)
            .or(|c| c.and("n", Op::GT(), 3))
            .or(|c| c.and("nn", Op::EQ(), 1).and("tagz", Op::EQ(), 2))
    };
    let from_builder = typo().validate::<Item>().unwrap_err();
    let from_query = typo().build().validate::<Item>().unwrap_err();
    assert_eq!(from_builder.to_string(), from_query.to_string());
    assert!(matches!(from_builder, DnfError::UnknownField { ref field_name, position: None } if field_name == "nn"));

    let unregistered = || {
        QueryBuilder::<FnOp>::new()
            .or(|c| c)
            .or(|c| c.and("tagz", Op::EQ(), 2))
            .or(|c| c.and("n", Op::custom("IS_ODD"), 1))
    };
    let from_builder = unregistered().validate::<Item>().unwrap_err();
    let from_query = unregistered().build().validate::<Item>().unwrap_err();
    assert_eq!(from_builder.to_string(), from_query.to_string());
    assert!(matches!(from_builder, DnfError::UnregisteredCustomOp { ref operator_name } if operator_name == "IS_ODD"));
}
