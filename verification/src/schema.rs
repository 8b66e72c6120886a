//! Static metadata about the queryable fields of a type.
use vstd::prelude::*;

verus! {

/// Classifies a field by how it must be evaluated against a query.
#[derive(Debug, Copy, Clone, PartialEq, Eq, Structural)]
pub enum FieldKind {
    /// Scalar field: primitives, strings, `bool`, or any single value.
    Scalar,
    /// Iterator-based field such as `Vec<T>` or `HashSet<T>`.
    Iter,
    /// Map field (`HashMap<K, V>` or `BTreeMap<K, V>`).
    Mapping,
}

impl FieldKind {
    /// The lowercase tag of the kind: `scalar`, `iter` or `map`.
    pub open spec fn spec_tag(self) -> Seq<char> {
        match self {
            FieldKind::Scalar => seq!['s', 'c', 'a', 'l', 'a', 'r'],
            FieldKind::Iter => seq!['i', 't', 'e', 'r'],
            FieldKind::Mapping => seq!['m', 'a', 'p'],
        }
    }

    /// Renders the kind as a lowercase tag: `scalar`, `iter`, or `map`.
    pub fn to_string(&self) -> (r: String)
        ensures
            r@ == self.spec_tag(),
    {
        let mut s = String::new();
        match self {
            FieldKind::Scalar => {
                crate::text::push_char(&mut s, 's');
                crate::text::push_char(&mut s, 'c');
                crate::text::push_char(&mut s, 'a');
                crate::text::push_char(&mut s, 'l');
                crate::text::push_char(&mut s, 'a');
                crate::text::push_char(&mut s, 'r');
            },
            FieldKind::Iter => {
                crate::text::push_char(&mut s, 'i');
                crate::text::push_char(&mut s, 't');
                crate::text::push_char(&mut s, 'e');
                crate::text::push_char(&mut s, 'r');
            },
            FieldKind::Mapping => {
                crate::text::push_char(&mut s, 'm');
                crate::text::push_char(&mut s, 'a');
                crate::text::push_char(&mut s, 'p');
            },
        }
        assert(s@ =~= self.spec_tag());
        s
    }
}

impl Default for FieldKind {
    /// The default kind is [`FieldKind::Scalar`].
    fn default() -> (r: Self)
        ensures
            r == FieldKind::Scalar,
    {
        FieldKind::Scalar
    }
}

/// Static metadata about one queryable field.
#[derive(Debug, Copy, Clone, PartialEq, Eq)]
pub struct FieldInfo {
    pub name: &'static str,
    pub field_type: &'static str,
    pub kind: FieldKind,
}

impl FieldInfo {
    /// Constructs a [`FieldInfo`] with [`FieldKind::Scalar`].
    pub fn new(name: &'static str, field_type: &'static str) -> (r: Self)
        ensures
            r.name@ == name@,
            r.field_type@ == field_type@,
            r.kind == FieldKind::Scalar,
    {
        FieldInfo { name, field_type, kind: FieldKind::Scalar }
    }

    /// Constructs a [`FieldInfo`] with an explicit [`FieldKind`].
    pub fn with_kind(name: &'static str, field_type: &'static str, kind: FieldKind) -> (r: Self)
        ensures
            r.name@ == name@,
            r.field_type@ == field_type@,
            r.kind == kind,
    {
        FieldInfo { name, field_type, kind }
    }

    /// Returns the field's name as it appears in queries.
    pub fn name(&self) -> (r: &'static str)
        ensures
            r@ == self.name@,
    {
        self.name
    }

    /// Returns the Rust type of the field as a string.
    pub fn field_type(&self) -> (r: &'static str)
        ensures
            r@ == self.field_type@,
    {
        self.field_type
    }

    /// Returns how the field must be evaluated.
    pub fn kind(&self) -> (r: FieldKind)
        ensures
            r == self.kind,
    {
        self.kind
    }

    /// The rendering `name: type` of the field.
    pub open spec fn spec_text(self) -> Seq<char> {
        self.name@ + seq![':', ' '] + self.field_type@
    }

    /// Renders the field as `name: type`.
    pub fn to_string(&self) -> (r: String)
        ensures
            r@ == self.spec_text(),
    {
        let mut s = String::new();
        crate::text::push_str(&mut s, self.name);
        crate::text::push_char(&mut s, ':');
        crate::text::push_char(&mut s, ' ');
        crate::text::push_str(&mut s, self.field_type);
        assert(s@ =~= self.spec_text());
        s
    }
}

} // verus!
