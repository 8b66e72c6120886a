use dnf::field::FieldMap;
use dnf::operator::Op;
use dnf::query::DnfEvaluable;
use dnf::types::field_info_for;
use dnf::value::Value;
use dnf::{FieldInfo, FieldKind};
use std::collections::LinkedList;

/// A document whose iterable fields are linked lists, declared as
/// iterable.
#[derive(Debug)]
struct DocumentWithLinkedList {
    id: u64,
    tags: LinkedList<String>,
    scores: LinkedList<i32>,
}

impl DnfEvaluable for DocumentWithLinkedList {
    fn evaluate_field(&self, field_name: &str, operator: &Op, value: &Value) -> bool {
        match field_name {
            "id" => dnf::field::DnfField::evaluate(&self.id, operator, value),
            "tags" => {
                let items: Vec<String> = self.tags.iter().cloned().collect();
                operator.any(&items, value)
            }
            "scores" => {
                let items: Vec<i32> = self.scores.iter().cloned().collect();
                operator.any(&items, value)
            }
            _ => false,
        }
    }

    fn field_value(&self, field_name: &str) -> Option<Value> {
        match field_name {
            "id" => Some(Value::Uint(self.id)),
            _ => None,
        }
    }

    fn fields() -> Vec<FieldInfo> {
        vec![
            field_info_for("id", "u64", false),
            field_info_for("tags", "LinkedList < String >", true),
            field_info_for("scores", "LinkedList < i32 >", true),
        ]
    }

    fn validate_field_path(path: &str) -> Option<FieldKind> {
        dnf::query::root_field_kind(&Self::fields(), path)
    }
}

#[test]
fn test_dnf_iter_field_kind() {
    // Verify that fields with #[dnf(iter)] are reported as Iter kind
    let fields: Vec<_> = DocumentWithLinkedList::fields();

    let tags_field = fields.iter().find(|f| f.name() == "tags").unwrap();
    assert_eq!(tags_field.kind(), dnf::FieldKind::Iter);

    let scores_field = fields.iter().find(|f| f.name() == "scores").unwrap();
    assert_eq!(scores_field.kind(), dnf::FieldKind::Iter);
}

/// A document with a map field.
#[derive(Debug)]
struct Document {
    title: String,
    metadata: FieldMap<String>,
}

impl DnfEvaluable for Document {
    fn evaluate_field(&self, field_name: &str, operator: &Op, value: &Value) -> bool {
        match field_name {
            "title" => dnf::field::DnfField::evaluate(&self.title, operator, value),
            "metadata" => dnf::field::DnfField::evaluate(&self.metadata, operator, value),
            _ => false,
        }
    }

    fn field_value(&self, field_name: &str) -> Option<Value> {
        match field_name {
            "title" => Some(Value::String(self.title.clone())),
            _ => None,
        }
    }

    fn fields() -> Vec<FieldInfo> {
        vec![
            field_info_for("title", "String", false),
            field_info_for("metadata", "HashMap < String , String >", false),
        ]
    }

    fn validate_field_path(path: &str) -> Option<FieldKind> {
        dnf::query::root_field_kind(&Self::fields(), path)
    }
}

#[test]
fn test_hashmap_field_kind() {
    let fields: Vec<_> = Document::fields();

    let title_field = fields.iter().find(|f| f.name == "title").unwrap();
    let metadata_field = fields.iter().find(|f| f.name == "metadata").unwrap();

    assert_eq!(title_field.kind, FieldKind::Scalar);
    assert_eq!(metadata_field.kind, FieldKind::Mapping);
}

#[test]
fn test_hashmap_document_evaluates_through_field_map() {
    let mut metadata = FieldMap::new();
    metadata.insert("author".to_string(), "Alice".to_string());
    let doc = Document { title: "Doc".to_string(), metadata };
    let q = dnf::query::DnfQuery::builder()
        .or(|c| c.and("metadata", Op::EQ(), Value::at_key("author", "Alice")))
        .build();
    assert!(q.evaluate(&doc));
}
