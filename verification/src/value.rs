//! Values used on the right-hand side of query conditions, their text
//! rendering and the field-against-value comparisons that every operator is
//! built from.
use vstd::prelude::*;

use crate::text::{
    chars_of, dec_int, dec_nat, i64_chars, lex_order, push_char, push_chars, push_str, u64_chars,
    Order,
};
use crate::token::{bool_text, push_bool};

verus! {

/// A value that can be used in DNF query conditions.
///
/// Numbers are integers (`Int`, `Uint`); set variants hold their elements in
/// a vector.
#[derive(Debug)]
pub enum Value {
    /// String value
    String(String),
    /// Signed integer value
    Int(i64),
    /// Unsigned integer value
    Uint(u64),
    /// Boolean value
    Bool(bool),
    /// Null value
    Null,
    /// Array of strings
    StringArray(Vec<String>),
    /// Array of signed integers
    IntArray(Vec<i64>),
    /// Array of unsigned integers
    UintArray(Vec<u64>),
    /// Array of booleans
    BoolArray(Vec<bool>),
    /// Set of strings
    StringSet(Vec<String>),
    /// Set of signed integers
    IntSet(Vec<i64>),
    /// Set of unsigned integers
    UintSet(Vec<u64>),
    /// Set of booleans
    BoolSet(Vec<bool>),
    /// Access value at a specific map key: `metadata["author"] == "Alice"`
    AtKey(String, Box<Value>),
    /// Match against map keys: `metadata.@keys CONTAINS "author"`
    Keys(Box<Value>),
    /// Match against map values: `metadata.@values IN ["v1", "v2"]`
    Values(Box<Value>),
}

/// The mathematical content of a [`Value`]: texts as character sequences,
/// lists as sequences.
pub enum ValueModel {
    Str(Seq<char>),
    Int(i64),
    Uint(u64),
    Bool(bool),
    Null,
    StringArray(Seq<Seq<char>>),
    IntArray(Seq<i64>),
    UintArray(Seq<u64>),
    BoolArray(Seq<bool>),
    StringSet(Seq<Seq<char>>),
    IntSet(Seq<i64>),
    UintSet(Seq<u64>),
    BoolSet(Seq<bool>),
    AtKey(Seq<char>, Box<ValueModel>),
    Keys(Box<ValueModel>),
    Values(Box<ValueModel>),
}

/// The views of a list of strings.
pub open spec fn string_views(v: Seq<String>) -> Seq<Seq<char>> {
    v.map_values(|s: String| s@)
}

/// The model of a value.
pub open spec fn value_model(v: Value) -> ValueModel
    decreases v,
{
    match v {
        Value::String(s) => ValueModel::Str(s@),
        Value::Int(n) => ValueModel::Int(n),
        Value::Uint(n) => ValueModel::Uint(n),
        Value::Bool(b) => ValueModel::Bool(b),
        Value::Null => ValueModel::Null,
        Value::StringArray(a) => ValueModel::StringArray(string_views(a@)),
        Value::IntArray(a) => ValueModel::IntArray(a@),
        Value::UintArray(a) => ValueModel::UintArray(a@),
        Value::BoolArray(a) => ValueModel::BoolArray(a@),
        Value::StringSet(a) => ValueModel::StringSet(string_views(a@)),
        Value::IntSet(a) => ValueModel::IntSet(a@),
        Value::UintSet(a) => ValueModel::UintSet(a@),
        Value::BoolSet(a) => ValueModel::BoolSet(a@),
        Value::AtKey(k, inner) => ValueModel::AtKey(k@, Box::new(value_model(*inner))),
        Value::Keys(inner) => ValueModel::Keys(Box::new(value_model(*inner))),
        Value::Values(inner) => ValueModel::Values(Box::new(value_model(*inner))),
    }
}

impl View for Value {
    type V = ValueModel;

    open spec fn view(&self) -> ValueModel {
        value_model(*self)
    }
}

fn clone_strings(a: &Vec<String>) -> (r: Vec<String>)
    ensures
        string_views(r@) == string_views(a@),
{
    let r = a.clone();
    assert(r@ =~= a@);
    r
}

fn clone_ints(a: &Vec<i64>) -> (r: Vec<i64>)
    ensures
        r@ == a@,
{
    let r = a.clone();
    assert(r@ =~= a@);
    r
}

fn clone_uints(a: &Vec<u64>) -> (r: Vec<u64>)
    ensures
        r@ == a@,
{
    let r = a.clone();
    assert(r@ =~= a@);
    r
}

fn clone_bools(a: &Vec<bool>) -> (r: Vec<bool>)
    ensures
        r@ == a@,
{
    let r = a.clone();
    assert(r@ =~= a@);
    r
}

impl Value {
    /// A copy of the value.
    pub fn duplicate(&self) -> (r: Value)
        ensures
            r@ == self@,
        decreases self,
    {
        match self {
            Value::String(s) => {
                let c = s.clone();
                assert(c@ == s@);
                Value::String(c)
            },
            Value::Int(n) => Value::Int(*n),
            Value::Uint(n) => Value::Uint(*n),
            Value::Bool(b) => Value::Bool(*b),
            Value::Null => Value::Null,
            Value::StringArray(a) => Value::StringArray(clone_strings(a)),
            Value::IntArray(a) => Value::IntArray(clone_ints(a)),
            Value::UintArray(a) => Value::UintArray(clone_uints(a)),
            Value::BoolArray(a) => Value::BoolArray(clone_bools(a)),
            Value::StringSet(a) => Value::StringSet(clone_strings(a)),
            Value::IntSet(a) => Value::IntSet(clone_ints(a)),
            Value::UintSet(a) => Value::UintSet(clone_uints(a)),
            Value::BoolSet(a) => Value::BoolSet(clone_bools(a)),
            Value::AtKey(k, v) => Value::AtKey(k.clone(), Box::new((**v).duplicate())),
            Value::Keys(v) => Value::Keys(Box::new((**v).duplicate())),
            Value::Values(v) => Value::Values(Box::new((**v).duplicate())),
        }
    }
}

impl Clone for Value {
    fn clone(&self) -> (r: Self)
        ensures
            r@ == self@,
    {
        self.duplicate()
    }
}

// ---------------------------------------------------------------------
// Escaping and rendering
// ---------------------------------------------------------------------
/// The escape sequence written for `c` in query syntax.
pub open spec fn escape_char(c: char) -> Seq<char> {
    if c == '\\' {
        seq!['\\', '\\']
    } else if c == '"' {
        seq!['\\', '"']
    } else if c == '\n' {
        seq!['\\', 'n']
    } else if c == '\t' {
        seq!['\\', 't']
    } else if c == '\r' {
        seq!['\\', 'r']
    } else if c == '/' {
        seq!['\\', '/']
    } else {
        seq![c]
    }
}

/// `s` with backslash, double quote, newline, tab, carriage return and
/// forward slash escaped.
pub open spec fn escape_seq(s: Seq<char>) -> Seq<char>
    decreases s.len(),
{
    if s.len() == 0 {
        Seq::empty()
    } else {
        escape_seq(s.drop_last()) + escape_char(s.last())
    }
}

/// `s` escaped and enclosed in double quotes.
pub open spec fn quoted(s: Seq<char>) -> Seq<char> {
    seq!['"'] + escape_seq(s) + seq!['"']
}

/// The items separated by `, `.
pub open spec fn join_items(items: Seq<Seq<char>>) -> Seq<char>
    decreases items.len(),
{
    if items.len() == 0 {
        Seq::empty()
    } else if items.len() == 1 {
        items[0]
    } else {
        join_items(items.drop_last()) + seq![',', ' '] + items.last()
    }
}

/// The items separated by `, ` and enclosed in square brackets.
pub open spec fn bracketed(items: Seq<Seq<char>>) -> Seq<char> {
    seq!['['] + join_items(items) + seq![']']
}

/// Renderings of the elements of a string list, each quoted.
pub open spec fn quoted_items(v: Seq<Seq<char>>) -> Seq<Seq<char>> {
    v.map_values(|s: Seq<char>| quoted(s))
}

/// Renderings of the elements of a signed list.
pub open spec fn int_items(v: Seq<i64>) -> Seq<Seq<char>> {
    v.map_values(|n: i64| dec_int(n as int))
}

/// Renderings of the elements of an unsigned list.
pub open spec fn uint_items(v: Seq<u64>) -> Seq<Seq<char>> {
    v.map_values(|n: u64| dec_nat(n as nat))
}

/// Renderings of the elements of a boolean list.
pub open spec fn bool_items(v: Seq<bool>) -> Seq<Seq<char>> {
    v.map_values(|b: bool| bool_text(b))
}

impl ValueModel {
    /// How the value is written in query syntax.
    pub open spec fn display(self) -> Seq<char>
        decreases self,
    {
        match self {
            ValueModel::Str(s) => quoted(s),
            ValueModel::Int(n) => dec_int(n as int),
            ValueModel::Uint(n) => dec_nat(n as nat),
            ValueModel::Bool(b) => bool_text(b),
            ValueModel::Null => "null"@,
            ValueModel::StringArray(a) => bracketed(quoted_items(a)),
            ValueModel::IntArray(a) => bracketed(int_items(a)),
            ValueModel::UintArray(a) => bracketed(uint_items(a)),
            ValueModel::BoolArray(a) => bracketed(bool_items(a)),
            ValueModel::StringSet(a) => bracketed(quoted_items(a)),
            ValueModel::IntSet(a) => bracketed(int_items(a)),
            ValueModel::UintSet(a) => bracketed(uint_items(a)),
            ValueModel::BoolSet(a) => bracketed(bool_items(a)),
            ValueModel::AtKey(k, v) => "@[\""@ + escape_seq(k) + "\"]:"@ + (*v).display(),
            ValueModel::Keys(v) => "@keys:"@ + (*v).display(),
            ValueModel::Values(v) => "@values:"@ + (*v).display(),
        }
    }

    /// The text a string operator compares against: strings as they are,
    /// scalars by their rendering, `Null` as the empty text, and everything
    /// else as written in query syntax.
    pub open spec fn repr(self) -> Seq<char> {
        match self {
            ValueModel::Str(s) => s,
            ValueModel::Int(n) => dec_int(n as int),
            ValueModel::Uint(n) => dec_nat(n as nat),
            ValueModel::Bool(b) => bool_text(b),
            ValueModel::Null => Seq::empty(),
            _ => self.display(),
        }
    }

    /// A value that targets a map field (`AtKey`, `Keys` or `Values`).
    pub open spec fn is_map_target(self) -> bool {
        self is AtKey || self is Keys || self is Values
    }
}

/// Appends the characters of `s` escaped.
pub fn push_escaped(out: &mut String, s: &[char])
    ensures
        final(out)@ == old(out)@ + escape_seq(s@),
{
    let mut i: usize = 0;
    while i < s.len()
        invariant
            i <= s@.len(),
            out@ == old(out)@ + escape_seq(s@.take(i as int)),
        decreases s.len() - i,
    {
        let c = s[i];
        if c == '\\' {
            push_char(out, '\\');
            push_char(out, '\\');
        } else if c == '"' {
            push_char(out, '\\');
            push_char(out, '"');
        } else if c == '\n' {
            push_char(out, '\\');
            push_char(out, 'n');
        } else if c == '\t' {
            push_char(out, '\\');
            push_char(out, 't');
        } else if c == '\r' {
            push_char(out, '\\');
            push_char(out, 'r');
        } else if c == '/' {
            push_char(out, '\\');
            push_char(out, '/');
        } else {
            push_char(out, c);
        }
        assert(s@.take(i + 1).drop_last() =~= s@.take(i as int));
        i = i + 1;
    }
    assert(s@.take(s@.len() as int) =~= s@);
}

/// Escapes a string for use in query syntax: backslash, double quote,
/// newline, tab, carriage return and forward slash.
pub fn escape_string(s: &str) -> (r: String)
    ensures
        r@ == escape_seq(s@),
{
    let cs = chars_of(s);
    let mut out = String::new();
    push_escaped(&mut out, cs.as_slice());
    out
}

fn push_quoted(out: &mut String, s: &String)
    ensures
        final(out)@ == old(out)@ + quoted(s@),
{
    push_char(out, '"');
    let cs = chars_of(s.as_str());
    push_escaped(out, cs.as_slice());
    push_char(out, '"');
}

fn push_string_list(out: &mut String, a: &Vec<String>)
    ensures
        final(out)@ == old(out)@ + bracketed(quoted_items(string_views(a@))),
{
    push_char(out, '[');
    let ghost start = out@;
    let mut i: usize = 0;
    while i < a.len()
        invariant
            i <= a@.len(),
            out@ == start + join_items(quoted_items(string_views(a@.take(i as int)))),
        decreases a.len() - i,
    {
        let ghost before = out@;
        if i > 0 {
            push_char(out, ',');
            push_char(out, ' ');
        }
        push_quoted(out, &a[i]);
        proof {
            let items = quoted_items(string_views(a@.take(i + 1)));
            assert(items.drop_last() =~= quoted_items(string_views(a@.take(i as int))));
            assert(items.last() == quoted(a@[i as int]@));
            if i == 0 {
                assert(items.len() == 1);
            }
        }
        i = i + 1;
    }
    assert(a@.take(a@.len() as int) =~= a@);
    push_char(out, ']');
}

fn push_int_list(out: &mut String, a: &Vec<i64>)
    ensures
        final(out)@ == old(out)@ + bracketed(int_items(a@)),
{
    push_char(out, '[');
    let ghost start = out@;
    let mut i: usize = 0;
    while i < a.len()
        invariant
            i <= a@.len(),
            out@ == start + join_items(int_items(a@.take(i as int))),
        decreases a.len() - i,
    {
        if i > 0 {
            push_char(out, ',');
            push_char(out, ' ');
        }
        let digits = i64_chars(a[i]);
        push_chars(out, digits.as_slice());
        proof {
            let items = int_items(a@.take(i + 1));
            assert(items.drop_last() =~= int_items(a@.take(i as int)));
            assert(items.last() == dec_int(a@[i as int] as int));
            if i == 0 {
                assert(items.len() == 1);
            }
        }
        i = i + 1;
    }
    assert(a@.take(a@.len() as int) =~= a@);
    push_char(out, ']');
}

fn push_uint_list(out: &mut String, a: &Vec<u64>)
    ensures
        final(out)@ == old(out)@ + bracketed(uint_items(a@)),
{
    push_char(out, '[');
    let ghost start = out@;
    let mut i: usize = 0;
    while i < a.len()
        invariant
            i <= a@.len(),
            out@ == start + join_items(uint_items(a@.take(i as int))),
        decreases a.len() - i,
    {
        if i > 0 {
            push_char(out, ',');
            push_char(out, ' ');
        }
        let digits = u64_chars(a[i]);
        push_chars(out, digits.as_slice());
        proof {
            let items = uint_items(a@.take(i + 1));
            assert(items.drop_last() =~= uint_items(a@.take(i as int)));
            assert(items.last() == dec_nat(a@[i as int] as nat));
            if i == 0 {
                assert(items.len() == 1);
            }
        }
        i = i + 1;
    }
    assert(a@.take(a@.len() as int) =~= a@);
    push_char(out, ']');
}

fn push_bool_list(out: &mut String, a: &Vec<bool>)
    ensures
        final(out)@ == old(out)@ + bracketed(bool_items(a@)),
{
    push_char(out, '[');
    let ghost start = out@;
    let mut i: usize = 0;
    while i < a.len()
        invariant
            i <= a@.len(),
            out@ == start + join_items(bool_items(a@.take(i as int))),
        decreases a.len() - i,
    {
        if i > 0 {
            push_char(out, ',');
            push_char(out, ' ');
        }
        push_bool(out, a[i]);
        proof {
            let items = bool_items(a@.take(i + 1));
            assert(items.drop_last() =~= bool_items(a@.take(i as int)));
            assert(items.last() == bool_text(a@[i as int]));
            if i == 0 {
                assert(items.len() == 1);
            }
        }
        i = i + 1;
    }
    assert(a@.take(a@.len() as int) =~= a@);
    push_char(out, ']');
}

impl Value {
    /// Appends the query-syntax rendering of the value.
    pub fn push_display(&self, out: &mut String)
        ensures
            final(out)@ == old(out)@ + self@.display(),
        decreases self,
    {
        match self {
            Value::String(s) => push_quoted(out, s),
            Value::Int(n) => {
                let d = i64_chars(*n);
                push_chars(out, d.as_slice());
            },
            Value::Uint(n) => {
                let d = u64_chars(*n);
                push_chars(out, d.as_slice());
            },
            Value::Bool(b) => push_bool(out, *b),
            Value::Null => push_str(out, "null"),
            Value::StringArray(a) => push_string_list(out, a),
            Value::IntArray(a) => push_int_list(out, a),
            Value::UintArray(a) => push_uint_list(out, a),
            Value::BoolArray(a) => push_bool_list(out, a),
            Value::StringSet(a) => push_string_list(out, a),
            Value::IntSet(a) => push_int_list(out, a),
            Value::UintSet(a) => push_uint_list(out, a),
            Value::BoolSet(a) => push_bool_list(out, a),
            Value::AtKey(k, v) => {
                push_str(out, "@[\"");
                let kc = chars_of(k.as_str());
                push_escaped(out, kc.as_slice());
                push_str(out, "\"]:");
                (**v).push_display(out);
            },
            Value::Keys(v) => {
                push_str(out, "@keys:");
                (**v).push_display(out);
            },
            Value::Values(v) => {
                push_str(out, "@values:");
                (**v).push_display(out);
            },
        }
    }

    /// Renders the value as it is written in query syntax.
    pub fn to_string(&self) -> (r: String)
        ensures
            r@ == self@.display(),
    {
        let mut s = String::new();
        self.push_display(&mut s);
        assert(s@ =~= self@.display());
        s
    }

    /// The text string operators compare against (see [`ValueModel::repr`]).
    pub fn to_string_repr(&self) -> (r: String)
        ensures
            r@ == self@.repr(),
    {
        match self {
            Value::String(s) => s.clone(),
            Value::Int(n) => crate::text::i64_to_string(*n),
            Value::Uint(n) => crate::text::u64_to_string(*n),
            Value::Bool(b) => {
                let mut s = String::new();
                push_bool(&mut s, *b);
                assert(s@ =~= bool_text(*b));
                s
            },
            Value::Null => String::new(),
            _ => self.to_string(),
        }
    }

    /// Returns `true` for `AtKey`, `Keys` and `Values`.
    pub fn is_map_targeted(&self) -> (r: bool)
        ensures
            r == self@.is_map_target(),
    {
        match self {
            Value::AtKey(_, _) | Value::Keys(_) | Value::Values(_) => true,
            _ => false,
        }
    }
}


// ---------------------------------------------------------------------
// Field-against-value comparisons
// ---------------------------------------------------------------------
/// Order of two integers.
pub open spec fn order_of_ints(a: int, b: int) -> Order {
    if a < b {
        Order::Less
    } else if a == b {
        Order::Equal
    } else {
        Order::Greater
    }
}

/// Order of two booleans (`false < true`).
pub open spec fn order_of_bools(a: bool, b: bool) -> Order {
    if a == b {
        Order::Equal
    } else if !a {
        Order::Less
    } else {
        Order::Greater
    }
}

/// A text field equals a value when it equals the value's text form.
pub open spec fn str_equals_value(f: Seq<char>, v: ValueModel) -> bool {
    f == v.repr()
}

/// A text field is ordered against a value by the value's text form.
pub open spec fn str_order_value(f: Seq<char>, v: ValueModel) -> Option<Order> {
    Some(lex_order(f, v.repr()))
}

/// A signed field equals integers of the same mathematical value, and
/// strings that spell its decimal rendering.
pub open spec fn int_equals_value(n: i64, v: ValueModel) -> bool {
    match v {
        ValueModel::Int(m) => n == m,
        ValueModel::Uint(u) => n as int == u as int,
        ValueModel::Str(s) => dec_int(n as int) == s,
        _ => false,
    }
}

/// A signed field is ordered against integers by mathematical value, and is
/// unordered against anything else.
pub open spec fn int_order_value(n: i64, v: ValueModel) -> Option<Order> {
    match v {
        ValueModel::Int(m) => Some(order_of_ints(n as int, m as int)),
        ValueModel::Uint(u) => Some(order_of_ints(n as int, u as int)),
        _ => None,
    }
}

/// An unsigned field equals integers of the same mathematical value, and
/// strings that spell its decimal rendering.
pub open spec fn uint_equals_value(n: u64, v: ValueModel) -> bool {
    match v {
        ValueModel::Uint(u) => n == u,
        ValueModel::Int(m) => n as int == m as int,
        ValueModel::Str(s) => dec_nat(n as nat) == s,
        _ => false,
    }
}

/// An unsigned field is ordered against integers by mathematical value,
/// and is unordered against anything else.
pub open spec fn uint_order_value(n: u64, v: ValueModel) -> Option<Order> {
    match v {
        ValueModel::Uint(u) => Some(order_of_ints(n as int, u as int)),
        ValueModel::Int(m) => Some(order_of_ints(n as int, m as int)),
        _ => None,
    }
}

/// A boolean field equals the same boolean and the strings `true`/`false`.
pub open spec fn bool_equals_value(b: bool, v: ValueModel) -> bool {
    match v {
        ValueModel::Bool(c) => b == c,
        ValueModel::Str(s) => s == bool_text(b),
        _ => false,
    }
}

/// A boolean field is ordered only against booleans.
pub open spec fn bool_order_value(b: bool, v: ValueModel) -> Option<Order> {
    match v {
        ValueModel::Bool(c) => Some(order_of_bools(b, c)),
        _ => None,
    }
}

fn order_i128(a: i128, b: i128) -> (r: Order)
    ensures
        r == order_of_ints(a as int, b as int),
{
    if a < b {
        Order::Less
    } else if a == b {
        Order::Equal
    } else {
        Order::Greater
    }
}

/// Compares a text field with a value.
pub fn str_equals(f: &[char], v: &Value) -> (r: bool)
    ensures
        r == str_equals_value(f@, v@),
{
    match v {
        Value::String(s) => {
            let cs = chars_of(s.as_str());
            crate::text::chars_equal(f, cs.as_slice())
        },
        _ => {
            let rep = v.to_string_repr();
            let cs = chars_of(rep.as_str());
            crate::text::chars_equal(f, cs.as_slice())
        },
    }
}

/// Orders a text field against a value.
pub fn str_order(f: &[char], v: &Value) -> (r: Option<Order>)
    ensures
        r == str_order_value(f@, v@),
{
    let rep = v.to_string_repr();
    let cs = chars_of(rep.as_str());
    Some(crate::text::lex_order_chars(f, cs.as_slice()))
}

/// Compares a signed field with a value.
pub fn int_equals(n: i64, v: &Value) -> (r: bool)
    ensures
        r == int_equals_value(n, v@),
{
    match v {
        Value::Int(m) => n == *m,
        Value::Uint(u) => (n as i128) == (*u as i128),
        Value::String(s) => {
            let d = i64_chars(n);
            let cs = chars_of(s.as_str());
            crate::text::chars_equal(d.as_slice(), cs.as_slice())
        },
        _ => false,
    }
}

/// Orders a signed field against a value.
pub fn int_order(n: i64, v: &Value) -> (r: Option<Order>)
    ensures
        r == int_order_value(n, v@),
{
    match v {
        Value::Int(m) => Some(order_i128(n as i128, *m as i128)),
        Value::Uint(u) => Some(order_i128(n as i128, *u as i128)),
        _ => None,
    }
}

/// Compares an unsigned field with a value.
pub fn uint_equals(n: u64, v: &Value) -> (r: bool)
    ensures
        r == uint_equals_value(n, v@),
{
    match v {
        Value::Uint(u) => n == *u,
        Value::Int(m) => (n as i128) == (*m as i128),
        Value::String(s) => {
            let d = u64_chars(n);
            let cs = chars_of(s.as_str());
            crate::text::chars_equal(d.as_slice(), cs.as_slice())
        },
        _ => false,
    }
}

/// Orders an unsigned field against a value.
pub fn uint_order(n: u64, v: &Value) -> (r: Option<Order>)
    ensures
        r == uint_order_value(n, v@),
{
    match v {
        Value::Uint(u) => Some(order_i128(n as i128, *u as i128)),
        Value::Int(m) => Some(order_i128(n as i128, *m as i128)),
        _ => None,
    }
}

/// Compares a boolean field with a value.
pub fn bool_equals(b: bool, v: &Value) -> (r: bool)
    ensures
        r == bool_equals_value(b, v@),
{
    match v {
        Value::Bool(c) => b == *c,
        Value::String(s) => {
            let mut t = String::new();
            push_bool(&mut t, b);
            assert(t@ =~= bool_text(b));
            let tc = chars_of(t.as_str());
            let cs = chars_of(s.as_str());
            crate::text::chars_equal(cs.as_slice(), tc.as_slice())
        },
        _ => false,
    }
}

/// Orders a boolean field against a value.
pub fn bool_order(b: bool, v: &Value) -> (r: Option<Order>)
    ensures
        r == bool_order_value(b, v@),
{
    match v {
        Value::Bool(c) => {
            if b == *c {
                Some(Order::Equal)
            } else if !b {
                Some(Order::Less)
            } else {
                Some(Order::Greater)
            }
        },
        _ => None,
    }
}

/// An element of a collection field, comparable against a [`Value`].
pub trait FieldElem {
    /// The element equals the value (by default, never).
    open spec fn spec_equals(&self, v: ValueModel) -> bool {
        false
    }

    /// How the element is ordered against the value, if at all (by default,
    /// not at all).
    open spec fn spec_order(&self, v: ValueModel) -> Option<Order> {
        None
    }

    /// Compares the element with a value.
    fn equals_value(&self, v: &Value) -> (r: bool)
        ensures
            r == self.spec_equals(v@),
    ;

    /// Orders the element against a value.
    fn order_value(&self, v: &Value) -> (r: Option<Order>)
        ensures
            r == self.spec_order(v@),
    ;
}

impl FieldElem for String {
    open spec fn spec_equals(&self, v: ValueModel) -> bool {
        str_equals_value(self@, v)
    }

    open spec fn spec_order(&self, v: ValueModel) -> Option<Order> {
        str_order_value(self@, v)
    }

    fn equals_value(&self, v: &Value) -> (r: bool) {
        let cs = chars_of(self.as_str());
        str_equals(cs.as_slice(), v)
    }

    fn order_value(&self, v: &Value) -> (r: Option<Order>) {
        let cs = chars_of(self.as_str());
        str_order(cs.as_slice(), v)
    }
}

impl FieldElem for i64 {
    open spec fn spec_equals(&self, v: ValueModel) -> bool {
        int_equals_value(*self, v)
    }

    open spec fn spec_order(&self, v: ValueModel) -> Option<Order> {
        int_order_value(*self, v)
    }

    fn equals_value(&self, v: &Value) -> (r: bool) {
        int_equals(*self, v)
    }

    fn order_value(&self, v: &Value) -> (r: Option<Order>) {
        int_order(*self, v)
    }
}

impl FieldElem for i32 {
    open spec fn spec_equals(&self, v: ValueModel) -> bool {
        int_equals_value(*self as i64, v)
    }

    open spec fn spec_order(&self, v: ValueModel) -> Option<Order> {
        int_order_value(*self as i64, v)
    }

    fn equals_value(&self, v: &Value) -> (r: bool) {
        int_equals(*self as i64, v)
    }

    fn order_value(&self, v: &Value) -> (r: Option<Order>) {
        int_order(*self as i64, v)
    }
}

impl FieldElem for u64 {
    open spec fn spec_equals(&self, v: ValueModel) -> bool {
        uint_equals_value(*self, v)
    }

    open spec fn spec_order(&self, v: ValueModel) -> Option<Order> {
        uint_order_value(*self, v)
    }

    fn equals_value(&self, v: &Value) -> (r: bool) {
        uint_equals(*self, v)
    }

    fn order_value(&self, v: &Value) -> (r: Option<Order>) {
        uint_order(*self, v)
    }
}

impl FieldElem for u32 {
    open spec fn spec_equals(&self, v: ValueModel) -> bool {
        uint_equals_value(*self as u64, v)
    }

    open spec fn spec_order(&self, v: ValueModel) -> Option<Order> {
        uint_order_value(*self as u64, v)
    }

    fn equals_value(&self, v: &Value) -> (r: bool) {
        uint_equals(*self as u64, v)
    }

    fn order_value(&self, v: &Value) -> (r: Option<Order>) {
        uint_order(*self as u64, v)
    }
}

impl FieldElem for bool {
    open spec fn spec_equals(&self, v: ValueModel) -> bool {
        bool_equals_value(*self, v)
    }

    open spec fn spec_order(&self, v: ValueModel) -> Option<Order> {
        bool_order_value(*self, v)
    }

    fn equals_value(&self, v: &Value) -> (r: bool) {
        bool_equals(*self, v)
    }

    fn order_value(&self, v: &Value) -> (r: Option<Order>) {
        bool_order(*self, v)
    }
}

} // verus!
