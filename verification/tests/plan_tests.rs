use dnf::field::FieldMap;
use dnf::operator::Op;
use dnf::plan::{
    any_item_holds, derive_dnf_evaluable, map_entries_holds, map_path, plan_field,
    split_field_path, value_conversion, DirectArm, FieldDecl, ItemShape, MapPath, NestedArm,
    ValueArm,
};
use dnf::query::{root_field_kind, DnfEvaluable};
use dnf::value::Value;
use dnf::{FieldInfo, FieldKind};

fn decl(name: &str, ty: &str) -> FieldDecl {
    FieldDecl {
        name: name.to_string(),
        type_str: ty.to_string(),
        skip: false,
        nested: false,
        rename: None,
        iter: None,
    }
}

fn text(s: &str) -> Value {
    Value::String(s.to_string())
}

#[test]
fn test_primitives_use_dnf_field() {
    for ty in ["String", "u32", "i64", "f64", "bool"] {
        let conversion = value_conversion(&decl("field", ty));
        assert!(matches!(conversion, DirectArm::Evaluate), "{}: {:?}", ty, conversion);
    }
}

#[test]
fn test_collections_use_dnf_field() {
    for ty in ["Vec<String>", "HashSet<i32>"] {
        let conversion = value_conversion(&decl("field", ty));
        assert!(matches!(conversion, DirectArm::Evaluate), "{}: {:?}", ty, conversion);
    }
}

#[test]
fn test_custom_types_use_dnf_field() {
    for ty in ["Score", "CustomEnum", "MyStruct"] {
        let conversion = value_conversion(&decl("field", ty));
        assert!(matches!(conversion, DirectArm::Evaluate), "{}: {:?}", ty, conversion);
    }
}

#[test]
fn test_iter_attribute_generates_any() {
    let mut d = decl("field", "LinkedList < String >");
    d.iter = Some(None);
    let conversion = value_conversion(&d);
    assert!(matches!(conversion, DirectArm::AnyOver(ref m) if m == "iter"), "{:?}", conversion);
}

#[test]
fn test_iter_attribute_with_custom_method() {
    let mut d = decl("field", "CustomList < i32 >");
    d.iter = Some(Some("items".to_string()));
    let conversion = value_conversion(&d);
    assert!(matches!(conversion, DirectArm::AnyOver(ref m) if m == "items"), "{:?}", conversion);
}

#[test]
fn test_field_plans() {
    let mut skipped = decl("secret", "String");
    skipped.skip = true;
    assert!(plan_field(&skipped).is_none());

    let mut renamed = decl("user_name", "String");
    renamed.rename = Some("name".to_string());
    let p = plan_field(&renamed).unwrap();
    assert_eq!(p.query_name, "name");
    assert!(matches!(p.direct, Some(DirectArm::Evaluate)));
    assert_eq!(p.nested, None);
    assert_eq!(p.value, Some(ValueArm::Direct));
    assert_eq!(p.kind, FieldKind::Scalar);

    let p = plan_field(&decl("tags", "Vec < String >")).unwrap();
    assert_eq!(p.type_str, "Vec < String >");
    assert_eq!(p.kind, FieldKind::Iter);
    assert!(matches!(p.direct, Some(DirectArm::Evaluate)));
    assert_eq!(p.value, Some(ValueArm::Direct));

    let p = plan_field(&decl("nickname", "Option<String>")).unwrap();
    assert_eq!(p.value, Some(ValueArm::OrNull));

    let p = plan_field(&decl("offices", "Vec<Address>")).unwrap();
    assert!(p.direct.is_none());
    assert_eq!(p.nested, Some(NestedArm::Each));
    assert_eq!(p.value, None);
    assert_eq!(p.kind, FieldKind::Iter);

    let p = plan_field(&decl("branches", "HashMap<String, Branch>")).unwrap();
    assert_eq!(p.nested, Some(NestedArm::MapEntries));
    assert_eq!(p.kind, FieldKind::Mapping);

    let p = plan_field(&decl("scores", "HashMap<String, u32>")).unwrap();
    assert_eq!(p.nested, None);
    assert!(matches!(p.direct, Some(DirectArm::Evaluate)));

    let mut address = decl("address", "Address");
    address.nested = true;
    let p = plan_field(&address).unwrap();
    assert!(p.direct.is_none());
    assert_eq!(p.nested, Some(NestedArm::Delegate));

    let mut home = decl("home", "Option<Address>");
    home.nested = true;
    assert_eq!(plan_field(&home).unwrap().nested, Some(NestedArm::IfSome));

    let mut items = decl("items", "Vec<Address>");
    items.iter = Some(None);
    let p = plan_field(&items).unwrap();
    assert!(matches!(p.direct, Some(DirectArm::AnyOver(ref m)) if m == "iter"));
    assert_eq!(p.nested, None);
}

#[test]
fn test_derive_plans_and_errors() {
    let mut skipped = decl("secret", "String");
    skipped.skip = true;
    let fields = vec![decl("name", "String"), skipped, decl("age", "u32")];
    let plan = derive_dnf_evaluable("User".to_string(), ItemShape::NamedStruct(fields)).unwrap();
    assert_eq!(plan.struct_name, "User");
    let names: Vec<&str> = plan.fields.iter().map(|p| p.query_name.as_str()).collect();
    assert_eq!(names, vec!["name", "age"]);

    let err = derive_dnf_evaluable("Pair".to_string(), ItemShape::UnnamedStruct).unwrap_err();
    assert_eq!(err, "DnfEvaluable can only be derived for structs with named fields");
    let err = derive_dnf_evaluable("Kind".to_string(), ItemShape::NotStruct).unwrap_err();
    assert_eq!(err, "DnfEvaluable can only be derived for structs");
}

#[test]
fn test_map_paths() {
    assert!(matches!(map_path("@values.city"), MapPath::Values(ref r) if r == "city"));
    assert!(matches!(map_path("@keys"), MapPath::Keys));
    assert!(matches!(map_path("[\"hq\"].city"), MapPath::Entry(ref k, ref r) if k == "hq" && r == "city"));
    assert!(matches!(map_path("[\"hq\"]..city"), MapPath::Entry(ref k, ref r) if k == "hq" && r == "city"));
    assert!(matches!(map_path("[\"\"].city"), MapPath::Entry(ref k, ref r) if k.is_empty() && r == "city"));
    assert!(matches!(map_path("[\"hq\"]"), MapPath::Unreadable));
    assert!(matches!(map_path("[\"hq\"]."), MapPath::Unreadable));
    assert!(matches!(map_path("[\"hq"), MapPath::Unreadable));
    assert!(matches!(map_path("@values"), MapPath::Unreadable));
    assert!(matches!(map_path("city"), MapPath::Unreadable));
}

#[test]
fn test_split_field_path() {
    assert_eq!(split_field_path("address.city"), Some(("address".to_string(), "city".to_string())));
    assert_eq!(
        split_field_path("branches.@values.city"),
        Some(("branches".to_string(), "@values.city".to_string()))
    );
    assert_eq!(split_field_path("name"), None);
}

struct Branch {
    city: String,
}

impl DnfEvaluable for Branch {
    fn evaluate_field(&self, field_name: &str, op: &Op, value: &Value) -> bool {
        match field_name {
            "city" => dnf::field::DnfField::evaluate(&self.city, op, value),
            _ => false,
        }
    }

    fn field_value(&self, field_name: &str) -> Option<Value> {
        match field_name {
            "city" => Some(Value::String(self.city.clone())),
            _ => None,
        }
    }

    fn fields() -> Vec<FieldInfo> {
        vec![FieldInfo::new("city", "String")]
    }

    fn validate_field_path(path: &str) -> Option<FieldKind> {
        root_field_kind(&Self::fields(), path)
    }
}

fn branch(city: &str) -> Branch {
    Branch { city: city.to_string() }
}

#[test]
fn test_nested_collections_and_maps() {
    let offices = vec![branch("Boston"), branch("Seattle")];
    assert!(any_item_holds(&offices, "city", &Op::EQ(), &text("Seattle")));
    assert!(!any_item_holds(&offices, "city", &Op::EQ(), &text("Chicago")));
    assert!(!any_item_holds(&offices, "zip", &Op::EQ(), &text("Boston")));

    let mut branches: FieldMap<Branch> = FieldMap::new();
    branches.insert("hq".to_string(), branch("Boston"));
    branches.insert("west".to_string(), branch("Seattle"));
    assert!(map_entries_holds(&branches, "@values.city", &Op::EQ(), &text("Seattle")));
    assert!(!map_entries_holds(&branches, "@values.city", &Op::EQ(), &text("Chicago")));
    assert!(map_entries_holds(&branches, "@keys", &Op::CONTAINS(), &text("hq")));
    assert!(!map_entries_holds(&branches, "@keys", &Op::CONTAINS(), &text("europe")));
    assert!(map_entries_holds(&branches, "[\"hq\"].city", &Op::EQ(), &text("Boston")));
    assert!(!map_entries_holds(&branches, "[\"hq\"].city", &Op::EQ(), &text("Seattle")));
    assert!(!map_entries_holds(&branches, "[\"europe\"].city", &Op::EQ(), &text("Boston")));
    assert!(!map_entries_holds(&branches, "[\"hq\"]", &Op::EQ(), &text("Boston")));
    assert!(!map_entries_holds(&branches, "city", &Op::EQ(), &text("Boston")));
}

#[test]
fn test_fields_reached_one_way() {
    let types = ["String", "Vec<String>", "Vec<Address>", "Option<Address>", "HashMap<String, Branch>", "Address"];
    for ty in types {
        for nested in [false, true] {
            for iter in [None, Some(None)] {
                let mut d = decl("f", ty);
                d.nested = nested;
                d.iter = iter.clone();
                let p = plan_field(&d).unwrap();
                if nested && iter.is_some() {
                    assert!(p.direct.is_none() && p.nested.is_none(), "{}", ty);
                } else {
                    assert!(p.direct.is_some() != p.nested.is_some(), "{} {} {:?}", ty, nested, iter);
                }
            }
        }
    }
}
