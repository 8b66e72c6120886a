//! Conversions of plain Rust values into [`Value`], and the constructors of
//! map-targeted and set values.
use vstd::prelude::*;

use crate::compare::{scalar_contains, text_contains};
use crate::text::string_of;
use crate::value::{string_views, Value, ValueModel};

verus! {

/// Types that convert into a [`Value`].
pub trait IntoValue {
    /// The value this converts into (by default, `Null`).
    open spec fn value_view(&self) -> ValueModel {
        ValueModel::Null
    }

    /// Converts into a [`Value`].
    fn into_value(self) -> (r: Value)
        ensures
            r@ == self.value_view(),
    ;
}

/// Types that hold a text.
pub trait TextLike {
    /// The characters of the text (by default, none).
    open spec fn text(&self) -> Seq<char> {
        Seq::empty()
    }

    /// The text as an owned `String`.
    fn to_text(&self) -> (r: String)
        ensures
            r@ == self.text(),
    ;
}

impl TextLike for String {
    open spec fn text(&self) -> Seq<char> {
        self@
    }

    fn to_text(&self) -> (r: String) {
        self.clone()
    }
}

impl<'a> TextLike for &'a str {
    open spec fn text(&self) -> Seq<char> {
        (*self)@
    }

    fn to_text(&self) -> (r: String) {
        string_of(*self)
    }
}

/// The texts of a list.
pub open spec fn texts_of<S: TextLike>(v: Seq<S>) -> Seq<Seq<char>> {
    v.map_values(|s: S| s.text())
}

/// Owned copies of a list of texts.
fn owned_texts<S: TextLike>(v: &Vec<S>) -> (r: Vec<String>)
    ensures
        string_views(r@) == texts_of(v@),
{
    let mut r: Vec<String> = Vec::new();
    let mut i: usize = 0;
    while i < v.len()
        invariant
            i <= v@.len(),
            r@.len() == i,
            forall|k: int| 0 <= k < i ==> r@[k]@ == v@[k].text(),
        decreases v.len() - i,
    {
        r.push(v[i].to_text());
        i = i + 1;
    }
    assert(string_views(r@) =~= texts_of(v@));
    r
}

impl IntoValue for Value {
    open spec fn value_view(&self) -> ValueModel {
        self@
    }

    fn into_value(self) -> (r: Value) {
        self
    }
}

impl IntoValue for String {
    open spec fn value_view(&self) -> ValueModel {
        ValueModel::Str(self@)
    }

    fn into_value(self) -> (r: Value) {
        Value::String(self)
    }
}

impl<'a> IntoValue for &'a str {
    open spec fn value_view(&self) -> ValueModel {
        ValueModel::Str((*self)@)
    }

    fn into_value(self) -> (r: Value) {
        Value::String(string_of(self))
    }
}

impl IntoValue for i64 {
    open spec fn value_view(&self) -> ValueModel {
        ValueModel::Int(*self)
    }

    fn into_value(self) -> (r: Value) {
        Value::Int(self)
    }
}

impl IntoValue for i32 {
    open spec fn value_view(&self) -> ValueModel {
        ValueModel::Int(*self as i64)
    }

    fn into_value(self) -> (r: Value) {
        Value::Int(self as i64)
    }
}

impl IntoValue for i16 {
    open spec fn value_view(&self) -> ValueModel {
        ValueModel::Int(*self as i64)
    }

    fn into_value(self) -> (r: Value) {
        Value::Int(self as i64)
    }
}

impl IntoValue for i8 {
    open spec fn value_view(&self) -> ValueModel {
        ValueModel::Int(*self as i64)
    }

    fn into_value(self) -> (r: Value) {
        Value::Int(self as i64)
    }
}

impl IntoValue for isize {
    open spec fn value_view(&self) -> ValueModel {
        ValueModel::Int(*self as i64)
    }

    fn into_value(self) -> (r: Value) {
        Value::Int(self as i64)
    }
}

impl IntoValue for u64 {
    open spec fn value_view(&self) -> ValueModel {
        ValueModel::Uint(*self)
    }

    fn into_value(self) -> (r: Value) {
        Value::Uint(self)
    }
}

impl IntoValue for u32 {
    open spec fn value_view(&self) -> ValueModel {
        ValueModel::Uint(*self as u64)
    }

    fn into_value(self) -> (r: Value) {
        Value::Uint(self as u64)
    }
}

impl IntoValue for u16 {
    open spec fn value_view(&self) -> ValueModel {
        ValueModel::Uint(*self as u64)
    }

    fn into_value(self) -> (r: Value) {
        Value::Uint(self as u64)
    }
}

impl IntoValue for u8 {
    open spec fn value_view(&self) -> ValueModel {
        ValueModel::Uint(*self as u64)
    }

    fn into_value(self) -> (r: Value) {
        Value::Uint(self as u64)
    }
}

impl IntoValue for usize {
    open spec fn value_view(&self) -> ValueModel {
        ValueModel::Uint(*self as u64)
    }

    fn into_value(self) -> (r: Value) {
        Value::Uint(self as u64)
    }
}

impl IntoValue for bool {
    open spec fn value_view(&self) -> ValueModel {
        ValueModel::Bool(*self)
    }

    fn into_value(self) -> (r: Value) {
        Value::Bool(self)
    }
}

impl IntoValue for Vec<String> {
    open spec fn value_view(&self) -> ValueModel {
        ValueModel::StringArray(string_views(self@))
    }

    fn into_value(self) -> (r: Value) {
        Value::StringArray(self)
    }
}

impl<'a> IntoValue for Vec<&'a str> {
    open spec fn value_view(&self) -> ValueModel {
        ValueModel::StringArray(texts_of(self@))
    }

    fn into_value(self) -> (r: Value) {
        Value::StringArray(owned_texts(&self))
    }
}

impl IntoValue for Vec<i64> {
    open spec fn value_view(&self) -> ValueModel {
        ValueModel::IntArray(self@)
    }

    fn into_value(self) -> (r: Value) {
        Value::IntArray(self)
    }
}

impl IntoValue for Vec<i32> {
    open spec fn value_view(&self) -> ValueModel {
        ValueModel::IntArray(self@.map_values(|n: i32| n as i64))
    }

    fn into_value(self) -> (r: Value) {
        let mut r: Vec<i64> = Vec::new();
        let mut i: usize = 0;
        while i < self.len()
            invariant
                i <= self@.len(),
                r@.len() == i,
                forall|k: int| 0 <= k < i ==> r@[k] == self@[k] as i64,
            decreases self.len() - i,
        {
            r.push(self[i] as i64);
            i = i + 1;
        }
        assert(r@ =~= self@.map_values(|n: i32| n as i64));
        Value::IntArray(r)
    }
}

impl IntoValue for Vec<u64> {
    open spec fn value_view(&self) -> ValueModel {
        ValueModel::UintArray(self@)
    }

    fn into_value(self) -> (r: Value) {
        Value::UintArray(self)
    }
}

impl IntoValue for Vec<u32> {
    open spec fn value_view(&self) -> ValueModel {
        ValueModel::UintArray(self@.map_values(|n: u32| n as u64))
    }

    fn into_value(self) -> (r: Value) {
        let mut r: Vec<u64> = Vec::new();
        let mut i: usize = 0;
        while i < self.len()
            invariant
                i <= self@.len(),
                r@.len() == i,
                forall|k: int| 0 <= k < i ==> r@[k] == self@[k] as u64,
            decreases self.len() - i,
        {
            r.push(self[i] as u64);
            i = i + 1;
        }
        assert(r@ =~= self@.map_values(|n: u32| n as u64));
        Value::UintArray(r)
    }
}

impl IntoValue for Vec<i16> {
    open spec fn value_view(&self) -> ValueModel {
        ValueModel::IntArray(self@.map_values(|n: i16| n as i64))
    }

    fn into_value(self) -> (r: Value) {
        let mut r: Vec<i64> = Vec::new();
        let mut i: usize = 0;
        while i < self.len()
            invariant
                i <= self@.len(),
                r@.len() == i,
                forall|k: int| 0 <= k < i ==> r@[k] == self@[k] as i64,
            decreases self.len() - i,
        {
            r.push(self[i] as i64);
            i = i + 1;
        }
        assert(r@ =~= self@.map_values(|n: i16| n as i64));
        Value::IntArray(r)
    }
}

impl IntoValue for Vec<i8> {
    open spec fn value_view(&self) -> ValueModel {
        ValueModel::IntArray(self@.map_values(|n: i8| n as i64))
    }

    fn into_value(self) -> (r: Value) {
        let mut r: Vec<i64> = Vec::new();
        let mut i: usize = 0;
        while i < self.len()
            invariant
                i <= self@.len(),
                r@.len() == i,
                forall|k: int| 0 <= k < i ==> r@[k] == self@[k] as i64,
            decreases self.len() - i,
        {
            r.push(self[i] as i64);
            i = i + 1;
        }
        assert(r@ =~= self@.map_values(|n: i8| n as i64));
        Value::IntArray(r)
    }
}

impl IntoValue for Vec<isize> {
    open spec fn value_view(&self) -> ValueModel {
        ValueModel::IntArray(self@.map_values(|n: isize| n as i64))
    }

    fn into_value(self) -> (r: Value) {
        let mut r: Vec<i64> = Vec::new();
        let mut i: usize = 0;
        while i < self.len()
            invariant
                i <= self@.len(),
                r@.len() == i,
                forall|k: int| 0 <= k < i ==> r@[k] == self@[k] as i64,
            decreases self.len() - i,
        {
            r.push(self[i] as i64);
            i = i + 1;
        }
        assert(r@ =~= self@.map_values(|n: isize| n as i64));
        Value::IntArray(r)
    }
}

impl IntoValue for Vec<u16> {
    open spec fn value_view(&self) -> ValueModel {
        ValueModel::UintArray(self@.map_values(|n: u16| n as u64))
    }

    fn into_value(self) -> (r: Value) {
        let mut r: Vec<u64> = Vec::new();
        let mut i: usize = 0;
        while i < self.len()
            invariant
                i <= self@.len(),
                r@.len() == i,
                forall|k: int| 0 <= k < i ==> r@[k] == self@[k] as u64,
            decreases self.len() - i,
        {
            r.push(self[i] as u64);
            i = i + 1;
        }
        assert(r@ =~= self@.map_values(|n: u16| n as u64));
        Value::UintArray(r)
    }
}

impl IntoValue for Vec<u8> {
    open spec fn value_view(&self) -> ValueModel {
        ValueModel::UintArray(self@.map_values(|n: u8| n as u64))
    }

    fn into_value(self) -> (r: Value) {
        let mut r: Vec<u64> = Vec::new();
        let mut i: usize = 0;
        while i < self.len()
            invariant
                i <= self@.len(),
                r@.len() == i,
                forall|k: int| 0 <= k < i ==> r@[k] == self@[k] as u64,
            decreases self.len() - i,
        {
            r.push(self[i] as u64);
            i = i + 1;
        }
        assert(r@ =~= self@.map_values(|n: u8| n as u64));
        Value::UintArray(r)
    }
}

impl IntoValue for Vec<usize> {
    open spec fn value_view(&self) -> ValueModel {
        ValueModel::UintArray(self@.map_values(|n: usize| n as u64))
    }

    fn into_value(self) -> (r: Value) {
        let mut r: Vec<u64> = Vec::new();
        let mut i: usize = 0;
        while i < self.len()
            invariant
                i <= self@.len(),
                r@.len() == i,
                forall|k: int| 0 <= k < i ==> r@[k] == self@[k] as u64,
            decreases self.len() - i,
        {
            r.push(self[i] as u64);
            i = i + 1;
        }
        assert(r@ =~= self@.map_values(|n: usize| n as u64));
        Value::UintArray(r)
    }
}

impl IntoValue for Vec<bool> {
    open spec fn value_view(&self) -> ValueModel {
        ValueModel::BoolArray(self@)
    }

    fn into_value(self) -> (r: Value) {
        Value::BoolArray(self)
    }
}

/// The first occurrence of each element, in order.
pub open spec fn dedup<A>(s: Seq<A>) -> Seq<A>
    decreases s.len(),
{
    if s.len() == 0 {
        s
    } else {
        let d = dedup(s.drop_last());
        if d.contains(s.last()) {
            d
        } else {
            d.push(s.last())
        }
    }
}

/// The elements of a list of texts, each once, in order of first
/// occurrence.
fn dedup_texts(v: Vec<String>) -> (r: Vec<String>)
    ensures
        string_views(r@) == dedup(string_views(v@)),
{
    let ghost vs = string_views(v@);
    let mut r: Vec<String> = Vec::new();
    let mut i: usize = 0;
    while i < v.len()
        invariant
            i <= v@.len(),
            vs == string_views(v@),
            string_views(r@) == dedup(vs.take(i as int)),
        decreases v.len() - i,
    {
        assert(vs.take(i + 1).drop_last() =~= vs.take(i as int));
        assert(vs.take(i + 1).last() == v@[i as int]@);
        if !text_contains(&r, &v[i]) {
            let ghost prev = r@;
            r.push(v[i].clone());
            assert(string_views(r@) =~= string_views(prev).push(v@[i as int]@));
        }
        i = i + 1;
    }
    assert(vs.take(v@.len() as int) =~= vs);
    r
}

/// The elements of a list, each once, in order of first occurrence.
fn dedup_scalars<T: crate::compare::RankExec>(v: Vec<T>) -> (r: Vec<T>)
    ensures
        r@ == dedup(v@),
{
    let mut r: Vec<T> = Vec::new();
    let mut i: usize = 0;
    while i < v.len()
        invariant
            i <= v@.len(),
            r@ == dedup(v@.take(i as int)),
        decreases v.len() - i,
    {
        assert(v@.take(i + 1).drop_last() =~= v@.take(i as int));
        if !scalar_contains(r.as_slice(), v[i]) {
            r.push(v[i]);
        }
        i = i + 1;
    }
    assert(v@.take(v@.len() as int) =~= v@);
    r
}

impl Value {
    /// The value at map key `key`: `metadata["author"] == "Alice"`.
    pub fn at_key<V: IntoValue>(key: &str, value: V) -> (r: Value)
        ensures
            r@ == ValueModel::AtKey(key@, Box::new(value.value_view())),
    {
        Value::AtKey(string_of(key), Box::new(value.into_value()))
    }

    /// Matches against a map's keys: `metadata.@keys CONTAINS "author"`.
    pub fn keys<V: IntoValue>(value: V) -> (r: Value)
        ensures
            r@ == ValueModel::Keys(Box::new(value.value_view())),
    {
        Value::Keys(Box::new(value.into_value()))
    }

    /// Matches against a map's values: `metadata.@values IN ["a", "b"]`.
    pub fn values<V: IntoValue>(value: V) -> (r: Value)
        ensures
            r@ == ValueModel::Values(Box::new(value.value_view())),
    {
        Value::Values(Box::new(value.into_value()))
    }

    /// A set of strings (each kept once, in order of first occurrence).
    pub fn string_set<S: TextLike>(values: Vec<S>) -> (r: Value)
        ensures
            r@ == ValueModel::StringSet(dedup(texts_of(values@))),
    {
        let owned = owned_texts(&values);
        Value::StringSet(dedup_texts(owned))
    }

    /// A set of signed integers (each kept once, in order of first
    /// occurrence).
    pub fn int_set(values: Vec<i64>) -> (r: Value)
        ensures
            r@ == ValueModel::IntSet(dedup(values@)),
    {
        Value::IntSet(dedup_scalars(values))
    }

    /// A set of unsigned integers (each kept once, in order of first
    /// occurrence).
    pub fn uint_set(values: Vec<u64>) -> (r: Value)
        ensures
            r@ == ValueModel::UintSet(dedup(values@)),
    {
        Value::UintSet(dedup_scalars(values))
    }

    /// A set of booleans (each kept once, in order of first occurrence).
    pub fn bool_set(values: Vec<bool>) -> (r: Value)
        ensures
            r@ == ValueModel::BoolSet(dedup(values@)),
    {
        Value::BoolSet(dedup_scalars(values))
    }
}

/// The elements of a deduplicated list are those of the list, each once.
pub proof fn lemma_dedup<A>(s: Seq<A>)
    ensures
        dedup(s).to_set() == s.to_set(),
        dedup(s).no_duplicates(),
    decreases s.len(),
{
    if s.len() > 0 {
        lemma_dedup(s.drop_last());
        let d = dedup(s.drop_last());
        assert(s =~= s.drop_last().push(s.last()));
        s.drop_last().lemma_push_to_set_commute(s.last());
        if !d.contains(s.last()) {
            d.lemma_push_to_set_commute(s.last());
        } else {
            assert(d.to_set().contains(s.last()));
            assert(d.to_set().insert(s.last()) =~= d.to_set());
        }
    } else {
        assert(dedup(s).to_set() =~= s.to_set());
    }
}

} // verus!
