//! What an implementation of [`DnfEvaluable`](crate::query::DnfEvaluable)
//! derived for a struct does with each of its fields: under which name a
//! query reaches the field, whether the field is evaluated directly, as a
//! collection or through the fields of a nested struct, how its value is
//! handed to custom operators, and how it is listed.
//!
//! A field is described by plain values: its name, its type as written, and
//! its `dnf` attributes (`skip`, `nested`, `rename = ".."`, `iter` or
//! `iter = ".."`).
use vstd::prelude::*;

use crate::field::{map_of, FieldMap};
use crate::operator::{any_holds, Op, OpModel};
use crate::query::DnfEvaluable;
use crate::schema::FieldKind;
use crate::text::{starts_with_seq, string_of};
use crate::value::{Value, ValueModel};
use crate::types::{
    find_char, first_index, field_kind_for, is_nested_type, is_value_convertible, kind_for_type, nested_type,
    starts_with_str, value_convertible, without_spaces,
};

verus! {

/// A field of a struct, with its `dnf` attributes.
pub struct FieldDecl {
    /// The field's name.
    pub name: String,
    /// The field's type as written.
    pub type_str: String,
    /// `#[dnf(skip)]`: the field takes no part in queries.
    pub skip: bool,
    /// `#[dnf(nested)]`: the field is a struct whose fields queries reach.
    pub nested: bool,
    /// `#[dnf(rename = "..")]`: the name under which queries reach the field.
    pub rename: Option<String>,
    /// `#[dnf(iter)]` (`Some(None)`) or `#[dnf(iter = "method")]`: the field
    /// is a collection walked by that method (`iter` by default).
    pub iter: Option<Option<String>>,
}

/// A field as plain values.
pub struct FieldDeclModel {
    pub name: Seq<char>,
    pub type_str: Seq<char>,
    pub skip: bool,
    pub nested: bool,
    pub rename: Option<Seq<char>>,
    pub iter: Option<Option<Seq<char>>>,
}

/// The view of an optional text.
pub open spec fn opt_text(s: Option<String>) -> Option<Seq<char>> {
    match s {
        Some(t) => Some(t@),
        None => None,
    }
}

impl View for FieldDecl {
    type V = FieldDeclModel;

    open spec fn view(&self) -> FieldDeclModel {
        FieldDeclModel {
            name: self.name@,
            type_str: self.type_str@,
            skip: self.skip,
            nested: self.nested,
            rename: opt_text(self.rename),
            iter: match self.iter {
                Some(m) => Some(opt_text(m)),
                None => None,
            },
        }
    }
}

/// How a query on the field itself is evaluated.
#[derive(Debug)]
pub enum DirectArm {
    /// The field evaluates the operator against the value itself.
    Evaluate,
    /// The operator holds on some item that the named method walks.
    AnyOver(String),
}

/// A direct arm as plain values.
pub enum DirectArmModel {
    Evaluate,
    AnyOver(Seq<char>),
}

impl View for DirectArm {
    type V = DirectArmModel;

    open spec fn view(&self) -> DirectArmModel {
        match self {
            DirectArm::Evaluate => DirectArmModel::Evaluate,
            DirectArm::AnyOver(m) => DirectArmModel::AnyOver(m@),
        }
    }
}

/// How a query on a field of a nested struct (`field.inner`) is handed on.
#[derive(Debug, Copy, Clone, PartialEq, Eq, Structural)]
pub enum NestedArm {
    /// `Vec<T>`: the query holds on some item.
    Each,
    /// `Option<Vec<T>>`: the query holds on some item, and never on `None`.
    EachIfSome,
    /// A map: `@values.inner` on some value, `@keys` on the keys,
    /// `["key"].inner` on the value under `key`.
    MapEntries,
    /// An optional map: as a map, and never on `None`.
    MapEntriesIfSome,
    /// `Option<T>`: the query holds on the value, and never on `None`.
    IfSome,
    /// A struct: the query is handed to it.
    Delegate,
}

/// How the field's value is handed to custom operators.
#[derive(Debug, Copy, Clone, PartialEq, Eq, Structural)]
pub enum ValueArm {
    /// The field converted into a value.
    Direct,
    /// The value inside the option, `null` for `None`.
    OrNull,
}

/// What the evaluation does with one field.
#[derive(Debug)]
pub struct FieldPlan {
    /// The name under which queries reach the field.
    pub query_name: String,
    /// The field's type as written.
    pub type_str: String,
    /// The field's kind, as it is listed.
    pub kind: FieldKind,
    /// The arm for queries on the field itself, if any.
    pub direct: Option<DirectArm>,
    /// The arm for queries on fields of a nested struct, if any.
    pub nested: Option<NestedArm>,
    /// The arm handing the field's value to custom operators, if any.
    pub value: Option<ValueArm>,
}

/// A field plan as plain values.
pub struct FieldPlanModel {
    pub query_name: Seq<char>,
    pub type_str: Seq<char>,
    pub kind: FieldKind,
    pub direct: Option<DirectArmModel>,
    pub nested: Option<NestedArm>,
    pub value: Option<ValueArm>,
}

impl View for FieldPlan {
    type V = FieldPlanModel;

    open spec fn view(&self) -> FieldPlanModel {
        FieldPlanModel {
            query_name: self.query_name@,
            type_str: self.type_str@,
            kind: self.kind,
            direct: match self.direct {
                Some(a) => Some(a@),
                None => None,
            },
            nested: self.nested,
            value: self.value,
        }
    }
}

/// The name under which queries reach a field: its `rename`, else its own.
pub open spec fn query_name_of(d: FieldDeclModel) -> Seq<char> {
    match d.rename {
        Some(r) => r,
        None => d.name,
    }
}

/// A field reached only through the fields of a nested struct: marked
/// `nested`, or, unless marked `iter`, of a type that holds structs (see
/// [`nested_type`]).
pub open spec fn is_nested_field(d: FieldDeclModel) -> bool {
    d.nested || (d.iter is None && nested_type(without_spaces(d.type_str)))
}

/// How a query on the field itself is evaluated: for a field marked
/// `iter`, the operator on some item its method walks (`iter` unless
/// named); otherwise the field's own evaluation.
pub open spec fn conversion_of(d: FieldDeclModel) -> DirectArmModel {
    match d.iter {
        Some(Some(m)) => DirectArmModel::AnyOver(m),
        Some(None) => DirectArmModel::AnyOver("iter"@),
        None => DirectArmModel::Evaluate,
    }
}

/// The arm for queries on the field itself: none for a nested field,
/// otherwise the field's evaluation (see [`conversion_of`]).
pub open spec fn direct_arm_of(d: FieldDeclModel) -> Option<DirectArmModel> {
    if is_nested_field(d) {
        None
    } else {
        Some(conversion_of(d))
    }
}

/// How queries on a nested struct's fields are handed on, by the type
/// (written without spaces).
pub open spec fn nested_arm_kind(t: Seq<char>) -> NestedArm {
    if starts_with_seq(t, "Vec<"@) {
        NestedArm::Each
    } else if starts_with_seq(t, "Option<Vec<"@) {
        NestedArm::EachIfSome
    } else if starts_with_seq(t, "HashMap<"@) || starts_with_seq(t, "BTreeMap<"@) {
        NestedArm::MapEntries
    } else if starts_with_seq(t, "Option<HashMap<"@) || starts_with_seq(t, "Option<BTreeMap<"@) {
        NestedArm::MapEntriesIfSome
    } else if starts_with_seq(t, "Option<"@) {
        NestedArm::IfSome
    } else {
        NestedArm::Delegate
    }
}

/// The arm for queries on fields of a nested struct: none for a field
/// marked `iter` or one that holds no structs; otherwise by its type.
pub open spec fn nested_arm_of(d: FieldDeclModel) -> Option<NestedArm> {
    let t = without_spaces(d.type_str);
    if d.iter is Some || !(d.nested || nested_type(t)) {
        None
    } else {
        Some(nested_arm_kind(t))
    }
}

/// The arm handing the field's value to custom operators: none for a
/// nested field or one whose type converts into no value (see
/// [`value_convertible`]); the value inside the option for an `Option`,
/// the field's value otherwise.
pub open spec fn value_arm_of(d: FieldDeclModel) -> Option<ValueArm> {
    let t = without_spaces(d.type_str);
    if is_nested_field(d) || !value_convertible(t) {
        None
    } else if starts_with_seq(t, "Option<"@) {
        Some(ValueArm::OrNull)
    } else {
        Some(ValueArm::Direct)
    }
}

/// What the evaluation does with a field: nothing for a field marked
/// `skip`.
pub open spec fn plan_of(d: FieldDeclModel) -> Option<FieldPlanModel> {
    if d.skip {
        None
    } else {
        Some(
            FieldPlanModel {
                query_name: query_name_of(d),
                type_str: d.type_str,
                kind: kind_for_type(d.type_str, d.iter is Some),
                direct: direct_arm_of(d),
                nested: nested_arm_of(d),
                value: value_arm_of(d),
            },
        )
    }
}

/// Every field that is not skipped is reached in exactly one way, directly
/// or through the fields of a nested struct, except a field marked both
/// `nested` and `iter`, which is reached in neither.
pub proof fn lemma_field_reached_one_way(d: FieldDeclModel)
    requires
        !d.skip,
    ensures
        plan_of(d) matches Some(p) && (p.direct is Some) != (p.nested is Some) <==> !(d.nested
            && d.iter is Some),
        plan_of(d) matches Some(p) && (d.nested && d.iter is Some ==> p.direct is None
            && p.nested is None),
{
}

/// The view of an optional field plan.
pub open spec fn opt_plan(p: Option<FieldPlan>) -> Option<FieldPlanModel> {
    match p {
        Some(x) => Some(x@),
        None => None,
    }
}

/// A copy of a text.
fn copy_text(s: &String) -> (r: String)
    ensures
        r@ == s@,
{
    string_of(s.as_str())
}

/// The type written without spaces.
fn type_without_spaces(s: &str) -> (r: Vec<char>)
    ensures
        r@ == without_spaces(s@),
{
    let cs = crate::text::chars_of(s);
    let mut t: Vec<char> = Vec::new();
    let mut i: usize = 0;
    while i < cs.len()
        invariant
            i <= cs@.len(),
            t@ == without_spaces(cs@.take(i as int)),
        decreases cs.len() - i,
    {
        assert(cs@.take(i + 1).drop_last() =~= cs@.take(i as int));
        if cs[i] != ' ' {
            t.push(cs[i]);
        }
        i = i + 1;
    }
    assert(cs@.take(cs@.len() as int) =~= cs@);
    t
}

/// How a query on the field itself is evaluated (see [`conversion_of`]).
pub fn value_conversion(d: &FieldDecl) -> (r: DirectArm)
    ensures
        r@ == conversion_of(d@),
{
    match &d.iter {
        Some(Some(m)) => DirectArm::AnyOver(copy_text(m)),
        Some(None) => DirectArm::AnyOver(string_of("iter")),
        None => DirectArm::Evaluate,
    }
}

/// What the evaluation does with a field (see [`plan_of`]).
pub fn plan_field(d: &FieldDecl) -> (r: Option<FieldPlan>)
    ensures
        opt_plan(r) == plan_of(d@),
{
    if d.skip {
        return None;
    }
    let t = type_without_spaces(d.type_str.as_str());
    let t = t.as_slice();
    let has_iter = d.iter.is_some();
    let query_name = match &d.rename {
        Some(r) => copy_text(r),
        None => copy_text(&d.name),
    };
    let nested_type_field = is_nested_type(t);
    let nested_field = d.nested || (!has_iter && nested_type_field);
    let direct = if nested_field {
        None
    } else {
        Some(value_conversion(d))
    };
    let nested = if has_iter || !(d.nested || nested_type_field) {
        None
    } else if starts_with_str(t, "Vec<") {
        Some(NestedArm::Each)
    } else if starts_with_str(t, "Option<Vec<") {
        Some(NestedArm::EachIfSome)
    } else if starts_with_str(t, "HashMap<") || starts_with_str(t, "BTreeMap<") {
        Some(NestedArm::MapEntries)
    } else if starts_with_str(t, "Option<HashMap<") || starts_with_str(t, "Option<BTreeMap<") {
        Some(NestedArm::MapEntriesIfSome)
    } else if starts_with_str(t, "Option<") {
        Some(NestedArm::IfSome)
    } else {
        Some(NestedArm::Delegate)
    };
    let value = if nested_field || !is_value_convertible(t) {
        None
    } else if starts_with_str(t, "Option<") {
        Some(ValueArm::OrNull)
    } else {
        Some(ValueArm::Direct)
    };
    let kind = field_kind_for(d.type_str.as_str(), has_iter);
    Some(
        FieldPlan {
            query_name,
            type_str: copy_text(&d.type_str),
            kind,
            direct,
            nested,
            value,
        },
    )
}

/// What is derived for a struct, by its shape.
pub enum ItemShape {
    /// A struct with named fields.
    NamedStruct(Vec<FieldDecl>),
    /// A tuple or unit struct.
    UnnamedStruct,
    /// An enum or a union.
    NotStruct,
}

/// What the evaluation derived for a struct does with its fields.
#[derive(Debug)]
pub struct EvaluablePlan {
    /// The struct's name.
    pub struct_name: String,
    /// The plans of the fields not skipped, in order.
    pub fields: Vec<FieldPlan>,
}

/// The plans of the fields not skipped, in order.
pub open spec fn plans_of(ds: Seq<FieldDeclModel>) -> Seq<FieldPlanModel>
    decreases ds.len(),
{
    if ds.len() == 0 {
        Seq::empty()
    } else {
        let rest = plans_of(ds.drop_last());
        match plan_of(ds.last()) {
            Some(p) => rest.push(p),
            None => rest,
        }
    }
}

/// The views of field declarations.
pub open spec fn decl_views(ds: Seq<FieldDecl>) -> Seq<FieldDeclModel> {
    ds.map_values(|d: FieldDecl| d@)
}

/// The views of field plans.
pub open spec fn plan_views(ps: Seq<FieldPlan>) -> Seq<FieldPlanModel> {
    ps.map_values(|p: FieldPlan| p@)
}

/// The message for a struct without named fields.
pub open spec fn unnamed_fields_message() -> Seq<char> {
    "DnfEvaluable can only be derived for structs with named fields"@
}

/// The message for an item that is no struct.
pub open spec fn not_struct_message() -> Seq<char> {
    "DnfEvaluable can only be derived for structs"@
}

/// What deriving `DnfEvaluable` does for an item: for a struct with named
/// fields, the plans of its fields not skipped, in order; for any other
/// struct or item, the error message the derivation reports.
pub fn derive_dnf_evaluable(struct_name: String, shape: ItemShape) -> (r: Result<EvaluablePlan, String>)
    ensures
        match shape {
            ItemShape::NamedStruct(fs) => r matches Ok(p) && p.struct_name@ == struct_name@
                && plan_views(p.fields@) == plans_of(decl_views(fs@)),
            ItemShape::UnnamedStruct => r matches Err(e) && e@ == unnamed_fields_message(),
            ItemShape::NotStruct => r matches Err(e) && e@ == not_struct_message(),
        },
{
    match shape {
        ItemShape::NamedStruct(fs) => {
            let mut fields: Vec<FieldPlan> = Vec::new();
            let mut i: usize = 0;
            while i < fs.len()
                invariant
                    i <= fs@.len(),
                    plan_views(fields@) == plans_of(decl_views(fs@.take(i as int))),
                decreases fs.len() - i,
            {
                assert(decl_views(fs@.take(i + 1)).drop_last() =~= decl_views(fs@.take(i as int)));
                assert(decl_views(fs@.take(i + 1)).last() == fs@[i as int]@);
                match plan_field(&fs[i]) {
                    Some(p) => {
                        fields.push(p);
                        assert(plan_views(fields@) =~= plans_of(decl_views(fs@.take(i as int))).push(
                            fields@.last()@,
                        ));
                    },
                    None => {},
                }
                i = i + 1;
            }
            assert(fs@.take(fs@.len() as int) =~= fs@);
            Ok(EvaluablePlan { struct_name, fields })
        },
        ItemShape::UnnamedStruct => {
            let e = string_of("DnfEvaluable can only be derived for structs with named fields");
            Err(e)
        },
        ItemShape::NotStruct => {
            let e = string_of("DnfEvaluable can only be derived for structs");
            Err(e)
        },
    }
}

// ---------------------------------------------------------------------
// Reaching the fields of nested structs
// ---------------------------------------------------------------------
/// A path into a map field whose values are structs, after the field's
/// name and its dot.
#[derive(Debug)]
pub enum MapPath {
    /// `@values.inner`: `inner` on some value.
    Values(String),
    /// `@keys`: the operator on the keys.
    Keys,
    /// `["key"].inner` (or `["key"]inner`): `inner` on the value under
    /// `key`.
    Entry(String, String),
    /// Any other path, on which nothing holds.
    Unreadable,
}

/// A map path as plain values.
pub enum MapPathModel {
    Values(Seq<char>),
    Keys,
    Entry(Seq<char>, Seq<char>),
    Unreadable,
}

impl View for MapPath {
    type V = MapPathModel;

    open spec fn view(&self) -> MapPathModel {
        match self {
            MapPath::Values(r) => MapPathModel::Values(r@),
            MapPath::Keys => MapPathModel::Keys,
            MapPath::Entry(k, r) => MapPathModel::Entry(k@, r@),
            MapPath::Unreadable => MapPathModel::Unreadable,
        }
    }
}

/// The first index from `i` on where `"]` stands in `s`.
pub open spec fn closing_from(s: Seq<char>, i: int) -> Option<int>
    decreases s.len() - i,
{
    if i < 0 || i + 1 >= s.len() {
        None
    } else if s[i] == '"' && s[i + 1] == ']' {
        Some(i)
    } else {
        closing_from(s, i + 1)
    }
}

/// Where `closing_from` finds `"]`, it stands there, at or after `i`.
proof fn lemma_closing_from(s: Seq<char>, i: int)
    ensures
        closing_from(s, i) matches Some(e) ==> i <= e && e + 1 < s.len() && s[e] == '"' && s[e + 1]
            == ']',
    decreases s.len() - i,
{
    if !(i < 0 || i + 1 >= s.len()) && !(s[i] == '"' && s[i + 1] == ']') {
        lemma_closing_from(s, i + 1);
    }
}

/// `s` without its leading dots.
pub open spec fn without_leading_dots(s: Seq<char>) -> Seq<char>
    decreases s.len(),
{
    if s.len() > 0 && s[0] == '.' {
        without_leading_dots(s.drop_first())
    } else {
        s
    }
}

/// How a path into a map field is read: `@values.` and what follows;
/// `@keys`; `["` then the key up to the first `"]`, then what follows
/// without its leading dots, which must not be empty; anything else is
/// unreadable.
pub open spec fn map_path_of(s: Seq<char>) -> MapPathModel {
    if starts_with_seq(s, "@values."@) {
        MapPathModel::Values(s.skip(8))
    } else if s == "@keys"@ {
        MapPathModel::Keys
    } else if starts_with_seq(s, "[\""@) {
        match closing_from(s, 0) {
            Some(e) => {
                let rest = without_leading_dots(s.skip(e + 2));
                if rest.len() == 0 {
                    MapPathModel::Unreadable
                } else {
                    MapPathModel::Entry(s.subrange(2, e), rest)
                }
            },
            None => MapPathModel::Unreadable,
        }
    } else {
        MapPathModel::Unreadable
    }
}

/// The first index from `i` on where `"]` stands.
fn find_closing(s: &[char], i: usize) -> (r: Option<usize>)
    ensures
        match r {
            Some(e) => closing_from(s@, i as int) == Some(e as int),
            None => closing_from(s@, i as int) is None,
        },
    decreases s.len() - i,
{
    if i >= s.len() || s.len() - i < 2 {
        None
    } else if s[i] == '"' && s[i + 1] == ']' {
        Some(i)
    } else {
        find_closing(s, i + 1)
    }
}

/// The index of the first character that is not a dot, from `i` on.
fn skip_dots(s: &[char], i: usize) -> (r: usize)
    requires
        i <= s.len(),
    ensures
        i <= r <= s.len(),
        s@.subrange(r as int, s.len() as int) == without_leading_dots(
            s@.subrange(i as int, s.len() as int),
        ),
    decreases s.len() - i,
{
    let ghost t = s@.subrange(i as int, s.len() as int);
    if i < s.len() && s[i] == '.' {
        assert(t.drop_first() =~= s@.subrange(i + 1, s.len() as int));
        skip_dots(s, i + 1)
    } else {
        i
    }
}

/// Reads a path into a map field (see [`map_path_of`]).
pub fn map_path(inner: &str) -> (r: MapPath)
    requires
        !starts_with_seq(inner@, "[\"]"@),
    ensures
        r@ == map_path_of(inner@),
{
    proof {
        reveal_strlit("@values.");
        reveal_strlit("@keys");
        reveal_strlit("[\"");
        reveal_strlit("[\"]");
    }
    let s = crate::text::chars_of(inner);
    let s = s.as_slice();
    if starts_with_str(s, "@values.") {
        let rest = crate::token::slice_chars(s, 8, s.len());
        assert(rest@ =~= inner@.skip(8));
        return MapPath::Values(crate::text::string_from_chars(rest.as_slice()));
    }
    if crate::types::is_str(s, "@keys") {
        return MapPath::Keys;
    }
    if !starts_with_str(s, "[\"") {
        return MapPath::Unreadable;
    }
    match find_closing(s, 0) {
        Some(e) => {
            proof {
                lemma_closing_from(inner@, 0);
            }
            assert(e >= 2) by {
                assert(inner@[0] == inner@.take(2)[0]);
                if e == 1 {
                    assert(inner@.take(3) =~= "[\"]"@);
                }
            }
            let from = skip_dots(s, e + 2);
            assert(inner@.skip(e + 2) =~= s@.subrange(e + 2, s.len() as int));
            if from == s.len() {
                MapPath::Unreadable
            } else {
                let key = crate::token::slice_chars(s, 2, e);
                let rest = crate::token::slice_chars(s, from, s.len());
                MapPath::Entry(
                    crate::text::string_from_chars(key.as_slice()),
                    crate::text::string_from_chars(rest.as_slice()),
                )
            }
        },
        None => MapPath::Unreadable,
    }
}

/// A query on the fields of some item holds.
pub open spec fn some_item_holds<T: DnfEvaluable>(
    items: Seq<T>,
    inner: Seq<char>,
    op: OpModel,
    value: ValueModel,
) -> bool {
    exists|i: int| 0 <= i < items.len() && #[trigger] items[i].spec_field_holds(inner, op, value)
}

/// Whether a query on the fields of nested structs holds on some item of
/// a collection (see [`some_item_holds`]).
pub fn any_item_holds<T: DnfEvaluable>(items: &[T], inner: &str, op: &Op, value: &Value) -> (r: bool)
    ensures
        r == some_item_holds(items@, inner@, op@, value@),
{
    let mut i: usize = 0;
    while i < items.len()
        invariant
            i <= items@.len(),
            forall|j: int| 0 <= j < i ==> !(#[trigger] items@[j]).spec_field_holds(inner@, op@, value@),
        decreases items.len() - i,
    {
        if items[i].evaluate_field(inner, op, value) {
            return true;
        }
        i = i + 1;
    }
    false
}

/// What a query on a map field of nested structs gives, by its path: on
/// `@values.inner`, whether `inner` holds on some value; on `@keys`, the
/// operator on the keys; on `["key"].inner`, whether there is a value
/// under `key` and `inner` holds on it; nothing on any other path.
pub open spec fn map_entries_hold<V: DnfEvaluable>(
    keys: Seq<String>,
    vals: Seq<V>,
    path: MapPathModel,
    op: OpModel,
    value: ValueModel,
) -> bool {
    match path {
        MapPathModel::Values(rest) => some_item_holds(vals, rest, op, value),
        MapPathModel::Keys => any_holds(op, keys, value),
        MapPathModel::Entry(key, rest) => {
            let m = map_of(keys, vals);
            m.contains_key(key) && m[key].spec_field_holds(rest, op, value)
        },
        MapPathModel::Unreadable => false,
    }
}

/// Whether a query reaching into a map field of nested structs holds (see
/// [`map_entries_hold`]); `inner` is the path after the field's name and
/// its dot.
pub fn map_entries_holds<V: DnfEvaluable>(
    map: &FieldMap<V>,
    inner: &str,
    op: &Op,
    value: &Value,
) -> (r: bool)
    requires
        !starts_with_seq(inner@, "[\"]"@),
    ensures
        r == map_entries_hold(map.spec_keys(), map.spec_vals(), map_path_of(inner@), op@, value@),
{
    match map_path(inner) {
        MapPath::Values(rest) => any_item_holds(map.values(), rest.as_str(), op, value),
        MapPath::Keys => op.any(map.keys(), value),
        MapPath::Entry(key, rest) => match map.get(key.as_str()) {
            Some(item) => item.evaluate_field(rest.as_str(), op, value),
            None => false,
        },
        MapPath::Unreadable => false,
    }
}

/// A dotted field path split at its first dot: the field, and the path
/// into it.
pub open spec fn split_at_dot(path: Seq<char>) -> Option<(Seq<char>, Seq<char>)> {
    match first_index(path, '.') {
        Some(i) => Some((path.take(i), path.skip(i + 1))),
        None => None,
    }
}

/// Splits a dotted field path at its first dot (see [`split_at_dot`]).
pub fn split_field_path(path: &str) -> (r: Option<(String, String)>)
    ensures
        match r {
            Some((outer, inner)) => split_at_dot(path@) == Some((outer@, inner@)),
            None => split_at_dot(path@) is None,
        },
{
    let cs = crate::text::chars_of(path);
    let cs = cs.as_slice();
    let n = cs.len();
    match find_char(cs, '.') {
        Some(i) => {
            let outer = crate::token::slice_chars(cs, 0, i);
            let inner = crate::token::slice_chars(cs, i + 1, n);
            assert(outer@ =~= path@.take(i as int));
            assert(inner@ =~= path@.skip(i + 1));
            Some(
                (
                    crate::text::string_from_chars(outer.as_slice()),
                    crate::text::string_from_chars(inner.as_slice()),
                ),
            )
        },
        None => None,
    }
}

} // verus!
