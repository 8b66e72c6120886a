//! Classification of Rust type names, as written in field metadata
//! (`"u32"`, `"Option<String>"`, `"HashMap<String, i64>"`): which types
//! are strings, booleans or options, which convert into a [`Value`](crate::value::Value),
//! which are maps or collections, and the [`FieldKind`] a field of a given
//! type has.
use vstd::prelude::*;

use crate::schema::{FieldInfo, FieldKind};
use crate::text::{
    chars_equal, chars_of, contains_chars, contains_seq, ends_with_chars, ends_with_seq,
    is_whitespace, spec_is_whitespace, starts_with_chars, starts_with_seq, string_from_chars,
};

verus! {

// ---------------------------------------------------------------------
// Text helpers
// ---------------------------------------------------------------------
/// `s` without its leading whitespace.
pub open spec fn trim_start(s: Seq<char>) -> Seq<char>
    decreases s.len(),
{
    if s.len() > 0 && spec_is_whitespace(s[0]) {
        trim_start(s.drop_first())
    } else {
        s
    }
}

/// `s` without its trailing whitespace.
pub open spec fn trim_end(s: Seq<char>) -> Seq<char>
    decreases s.len(),
{
    if s.len() > 0 && spec_is_whitespace(s.last()) {
        trim_end(s.drop_last())
    } else {
        s
    }
}

/// `s` without leading and trailing whitespace (`str::trim`).
pub open spec fn trim(s: Seq<char>) -> Seq<char> {
    trim_end(trim_start(s))
}

/// `s` without `prefix`, when it begins with it.
pub open spec fn strip_prefix(s: Seq<char>, prefix: Seq<char>) -> Option<Seq<char>> {
    if starts_with_seq(s, prefix) {
        Some(s.skip(prefix.len() as int))
    } else {
        None
    }
}

/// `s` without `suffix`, when it ends with it.
pub open spec fn strip_suffix(s: Seq<char>, suffix: Seq<char>) -> Option<Seq<char>> {
    if ends_with_seq(s, suffix) {
        Some(s.take(s.len() - suffix.len()))
    } else {
        None
    }
}

/// `s` without `prefix` and then without `suffix`, when both are there.
pub open spec fn strip_both(s: Seq<char>, prefix: Seq<char>, suffix: Seq<char>) -> Option<
    Seq<char>,
> {
    match strip_prefix(s, prefix) {
        Some(rest) => strip_suffix(rest, suffix),
        None => None,
    }
}

/// Removes leading and trailing whitespace.
pub fn trim_chars(s: &[char]) -> (r: Vec<char>)
    ensures
        r@ == trim(s@),
{
    let mut a: usize = 0;
    assert(s@.skip(0) =~= s@);
    while a < s.len() && is_whitespace(s[a])
        invariant
            a <= s@.len(),
            trim_start(s@) == trim_start(s@.skip(a as int)),
        decreases s.len() - a,
    {
        assert(s@.skip(a as int)[0] == s@[a as int]);
        assert(s@.skip(a as int).drop_first() =~= s@.skip(a + 1));
        a = a + 1;
    }
    if a < s.len() {
        assert(s@.skip(a as int)[0] == s@[a as int]);
    }
    let ghost start = s@.skip(a as int);
    let mut b: usize = s.len();
    assert(start.take(start.len() as int) =~= start);
    while b > a && is_whitespace(s[b - 1])
        invariant
            a <= b <= s@.len(),
            start == s@.skip(a as int),
            trim_end(start) == trim_end(start.take(b - a)),
        decreases b,
    {
        assert(start.take(b - a).last() == s@[b - 1]);
        assert(start.take(b - a).drop_last() =~= start.take(b - 1 - a));
        b = b - 1;
    }
    if b > a {
        assert(start.take(b - a).last() == s@[b - 1]);
    }
    let mut r: Vec<char> = Vec::new();
    let mut k: usize = a;
    while k < b
        invariant
            a <= k <= b <= s@.len(),
            r@ == s@.subrange(a as int, k as int),
        decreases b - k,
    {
        r.push(s[k]);
        assert(s@.subrange(a as int, k + 1) =~= s@.subrange(a as int, k as int).push(s@[k as int]));
        k = k + 1;
    }
    assert(r@ =~= start.take(b - a));
    r
}

/// The characters of `s` from `i` to `j`.
fn slice_of(s: &[char], i: usize, j: usize) -> (r: Vec<char>)
    requires
        i <= j <= s@.len(),
    ensures
        r@ == s@.subrange(i as int, j as int),
{
    let mut r: Vec<char> = Vec::new();
    let mut k: usize = i;
    while k < j
        invariant
            i <= k <= j <= s@.len(),
            r@ == s@.subrange(i as int, k as int),
        decreases j - k,
    {
        r.push(s[k]);
        assert(s@.subrange(i as int, k + 1) =~= s@.subrange(i as int, k as int).push(s@[k as int]));
        k = k + 1;
    }
    r
}

/// Removes `prefix`, when `s` begins with it.
fn strip_prefix_chars(s: &[char], prefix: &str) -> (r: Option<Vec<char>>)
    ensures
        match strip_prefix(s@, prefix@) {
            Some(rest) => r matches Some(v) && v@ == rest,
            None => r is None,
        },
{
    let p = chars_of(prefix);
    if starts_with_chars(s, p.as_slice()) {
        let v = slice_of(s, p.len(), s.len());
        assert(v@ =~= s@.skip(p@.len() as int));
        Some(v)
    } else {
        None
    }
}

/// Removes `suffix`, when `s` ends with it.
fn strip_suffix_chars(s: &[char], suffix: &str) -> (r: Option<Vec<char>>)
    ensures
        match strip_suffix(s@, suffix@) {
            Some(rest) => r matches Some(v) && v@ == rest,
            None => r is None,
        },
{
    let p = chars_of(suffix);
    if ends_with_chars(s, p.as_slice()) {
        let v = slice_of(s, 0, s.len() - p.len());
        assert(v@ =~= s@.take(s@.len() - p@.len()));
        Some(v)
    } else {
        None
    }
}

/// Removes `prefix` and then `suffix`, when both are there.
fn strip_both_chars(s: &[char], prefix: &str, suffix: &str) -> (r: Option<Vec<char>>)
    ensures
        match strip_both(s@, prefix@, suffix@) {
            Some(rest) => r matches Some(v) && v@ == rest,
            None => r is None,
        },
{
    match strip_prefix_chars(s, prefix) {
        Some(rest) => strip_suffix_chars(rest.as_slice(), suffix),
        None => None,
    }
}

/// `s` begins with the text `p`.
pub fn starts_with_str(s: &[char], p: &str) -> (r: bool)
    ensures
        r == starts_with_seq(s@, p@),
{
    let pc = chars_of(p);
    starts_with_chars(s, pc.as_slice())
}

/// `s` ends with the text `p`.
fn ends_with_str(s: &[char], p: &str) -> (r: bool)
    ensures
        r == ends_with_seq(s@, p@),
{
    let pc = chars_of(p);
    ends_with_chars(s, pc.as_slice())
}

/// `p` occurs in `s`.
pub fn contains_str(s: &[char], p: &str) -> (r: bool)
    ensures
        r == contains_seq(s@, p@),
{
    let pc = chars_of(p);
    contains_chars(s, pc.as_slice())
}

/// `s` is the text `p`.
pub fn is_str(s: &[char], p: &str) -> (r: bool)
    ensures
        r == (s@ == p@),
{
    let pc = chars_of(p);
    chars_equal(s, pc.as_slice())
}

// ---------------------------------------------------------------------
// Option, string and boolean types
// ---------------------------------------------------------------------
/// The first index of `c` in `s`.
pub open spec fn first_index(s: Seq<char>, c: char) -> Option<int> {
    if exists|i: int| 0 <= i < s.len() && s[i] == c {
        Some(choose|i: int| 0 <= i < s.len() && s[i] == c && forall|j: int| 0 <= j < i ==> s[j] != c)
    } else {
        None
    }
}

/// The last index of `c` in `s`.
pub open spec fn last_index(s: Seq<char>, c: char) -> Option<int> {
    if exists|i: int| 0 <= i < s.len() && s[i] == c {
        Some(
            choose|i: int| 0 <= i < s.len() && s[i] == c && forall|j: int| i < j < s.len() ==> s[j] != c,
        )
    } else {
        None
    }
}

/// The inner type of an `Option<T>` type name: `Option<T>` exactly, or a
/// name that begins with `Option` and holds a `<` before its last `>`
/// (such as `Option < T >`); the inner type is trimmed.
pub open spec fn option_inner(type_str: Seq<char>) -> Option<Seq<char>> {
    let t = trim(type_str);
    match strip_both(t, "Option<"@, ">"@) {
        Some(inner) => Some(trim(inner)),
        None => if starts_with_seq(t, "Option"@) {
            match (first_index(t, '<'), last_index(t, '>')) {
                (Some(start), Some(end)) => if start < end {
                    Some(trim(t.subrange(start + 1, end)))
                } else {
                    None
                },
                _ => None,
            }
        } else {
            None
        },
    }
}

/// A type name without its `Option<..>` wrapper, if it has one.
pub open spec fn base_type(type_str: Seq<char>) -> Seq<char> {
    match option_inner(type_str) {
        Some(inner) => inner,
        None => type_str,
    }
}

/// A string type: `String`, `str`, `&str`, or a reference to a type whose
/// name mentions `str` but not `struct` (after removing `Option<..>`).
pub open spec fn is_string_type_name(type_str: Seq<char>) -> bool {
    let t = trim(base_type(type_str));
    ||| t == "String"@
    ||| t == "str"@
    ||| t == "&str"@
    ||| starts_with_seq(t, "&"@) && contains_seq(t, "str"@) && !contains_seq(t, "struct"@)
}

/// A boolean type: `bool` (after removing `Option<..>`).
pub open spec fn is_bool_type_name(type_str: Seq<char>) -> bool {
    base_type(type_str) == "bool"@
}

/// Finds the first index of `c`.
pub(crate) fn find_char(s: &[char], c: char) -> (r: Option<usize>)
    ensures
        match r {
            Some(i) => i < s@.len() && first_index(s@, c) == Some(i as int),
            None => first_index(s@, c) is None,
        },
{
    let mut i: usize = 0;
    while i < s.len()
        invariant
            i <= s@.len(),
            forall|j: int| 0 <= j < i ==> s@[j] != c,
        decreases s.len() - i,
    {
        if s[i] == c {
            proof {
                let w = choose|k: int| 0 <= k < s@.len() && s@[k] == c && forall|j: int| 0 <= j < k ==> s@[j] != c;
                assert(w == i) by {
                    if w < i {
                        assert(s@[w] != c);
                    } else if w > i {
                        assert(s@[i as int] != c);
                    }
                }
            }
            return Some(i);
        }
        i = i + 1;
    }
    None
}

/// Finds the last index of `c`.
fn rfind_char(s: &[char], c: char) -> (r: Option<usize>)
    ensures
        match r {
            Some(i) => i < s@.len() && last_index(s@, c) == Some(i as int),
            None => last_index(s@, c) is None,
        },
{
    let mut i: usize = s.len();
    while i > 0
        invariant
            i <= s@.len(),
            forall|j: int| i <= j < s@.len() ==> s@[j] != c,
        decreases i,
    {
        if s[i - 1] == c {
            proof {
                let w = choose|k: int|
                    0 <= k < s@.len() && s@[k] == c && forall|j: int| k < j < s@.len() ==> s@[j] != c;
                assert(w == i - 1) by {
                    if w < i - 1 {
                        assert(s@[i - 1] != c);
                    } else if w > i - 1 {
                        assert(s@[w] != c);
                    }
                }
            }
            return Some(i - 1);
        }
        i = i - 1;
    }
    None
}

/// The inner type of an `Option<T>` type name (see [`option_inner`]).
pub fn unwrap_option(type_str: &str) -> (r: Option<Vec<char>>)
    ensures
        match option_inner(type_str@) {
            Some(inner) => r matches Some(v) && v@ == inner,
            None => r is None,
        },
{
    let cs = chars_of(type_str);
    let t = trim_chars(cs.as_slice());
    match strip_both_chars(t.as_slice(), "Option<", ">") {
        Some(inner) => {
            return Some(trim_chars(inner.as_slice()));
        },
        None => {},
    }
    if starts_with_str(t.as_slice(), "Option") {
        let f = find_char(t.as_slice(), '<');
        let l = rfind_char(t.as_slice(), '>');
        match f {
            Some(start) => {
                match l {
                    Some(end) => {
                        assert(first_index(t@, '<') == Some(start as int));
                        assert(last_index(t@, '>') == Some(end as int));
                        if start < end {
                            let inner = slice_of(t.as_slice(), start + 1, end);
                            return Some(trim_chars(inner.as_slice()));
                        }
                        return None;
                    },
                    None => {
                        assert(last_index(t@, '>') is None);
                        return None;
                    },
                }
            },
            None => {
                assert(first_index(t@, '<') is None);
                return None;
            },
        }
    }
    None
}

/// A type name without its `Option<..>` wrapper.
pub fn base_type_chars(type_str: &str) -> (r: Vec<char>)
    ensures
        r@ == base_type(type_str@),
{
    match unwrap_option(type_str) {
        Some(inner) => inner,
        None => chars_of(type_str),
    }
}

/// Whether the type is a string type (see [`is_string_type_name`]).
pub fn is_string_type(field_type: &str) -> (r: bool)
    ensures
        r == is_string_type_name(field_type@),
{
    let b = base_type_chars(field_type);
    let t = trim_chars(b.as_slice());
    let t = t.as_slice();
    is_str(t, "String") || is_str(t, "str") || is_str(t, "&str") || (starts_with_str(t, "&")
        && contains_str(t, "str") && !contains_str(t, "struct"))
}

/// Whether the type is `bool` (see [`is_bool_type_name`]).
pub fn is_bool_type(field_type: &str) -> (r: bool)
    ensures
        r == is_bool_type_name(field_type@),
{
    let b = base_type_chars(field_type);
    is_str(b.as_slice(), "bool")
}

// ---------------------------------------------------------------------
// Classification of field types
// ---------------------------------------------------------------------
/// The floating-point type names: `f` followed by `32` or `64`.
pub open spec fn is_float_name(t: Seq<char>) -> bool {
    t.len() == 3 && t[0] == 'f' && ((t[1] == '3' && t[2] == '2') || (t[1] == '6' && t[2] == '4'))
}

/// Whether `t` names a floating-point type.
pub fn float_name(t: &[char]) -> (r: bool)
    ensures
        r == is_float_name(t@),
{
    t.len() == 3 && t[0] == 'f' && ((t[1] == '3' && t[2] == '2') || (t[1] == '6' && t[2] == '4'))
}

/// The primitive type names.
pub open spec fn is_primitive_name(t: Seq<char>) -> bool {
    ||| t == "i8"@
    ||| t == "i16"@
    ||| t == "i32"@
    ||| t == "i64"@
    ||| t == "isize"@
    ||| t == "u8"@
    ||| t == "u16"@
    ||| t == "u32"@
    ||| t == "u64"@
    ||| t == "usize"@
    ||| is_float_name(t)
    ||| t == "bool"@
    ||| t == "String"@
}

/// Whether `t` is a primitive type name.
fn primitive_name(t: &[char]) -> (r: bool)
    ensures
        r == is_primitive_name(t@),
{
    is_str(t, "i8") || is_str(t, "i16") || is_str(t, "i32") || is_str(t, "i64") || is_str(
        t,
        "isize",
    ) || is_str(t, "u8") || is_str(t, "u16") || is_str(t, "u32") || is_str(t, "u64") || is_str(
        t,
        "usize",
    ) || float_name(t) || is_str(t, "bool") || is_str(t, "String")
}

/// A reference to a string-like type (`&str`, `&'a str`, ...).
pub open spec fn is_str_ref(t: Seq<char>) -> bool {
    starts_with_seq(t, "&"@) && contains_seq(t, "str"@)
}

/// A `Cow` of a string-like type.
pub open spec fn is_cow_str(t: Seq<char>) -> bool {
    starts_with_seq(t, "Cow<"@) && contains_seq(t, "str"@)
}

/// Whether a field of this type converts into a [`Value`](crate::value::Value):
/// primitives, string references and `Cow`s, vectors of primitives, hash
/// sets of non-float primitives, and options of those.
pub open spec fn value_convertible(t: Seq<char>) -> bool
    decreases t.len(),
{
    if is_primitive_name(t) || is_str_ref(t) || is_cow_str(t) {
        true
    } else if strip_both(t, "Vec<"@, ">"@) is Some {
        is_primitive_name(strip_both(t, "Vec<"@, ">"@)->0)
    } else if strip_both(t, "HashSet<"@, ">"@) is Some {
        let inner = strip_both(t, "HashSet<"@, ">"@)->0;
        is_primitive_name(inner) && !is_float_name(inner)
    } else if strip_both(t, "Option<"@, ">"@) is Some {
        let inner = strip_both(t, "Option<"@, ">"@)->0;
        if inner.len() < t.len() {
            value_convertible(inner)
        } else {
            false
        }
    } else {
        false
    }
}

/// Whether a field of this type converts into a [`Value`] (see
/// [`value_convertible`]).
pub fn is_value_convertible(type_str: &[char]) -> (r: bool)
    ensures
        r == value_convertible(type_str@),
    decreases type_str@.len(),
{
    let t = type_str;
    if primitive_name(t) || (starts_with_str(t, "&") && contains_str(t, "str")) || (starts_with_str(
        t,
        "Cow<",
    ) && contains_str(t, "str")) {
        return true;
    }
    match strip_both_chars(t, "Vec<", ">") {
        Some(inner) => {
            return primitive_name(inner.as_slice());
        },
        None => {},
    }
    match strip_both_chars(t, "HashSet<", ">") {
        Some(inner) => {
            let i = inner.as_slice();
            return primitive_name(i) && !float_name(i);
        },
        None => {},
    }
    match strip_both_chars(t, "Option<", ">") {
        Some(inner) => {
            if inner.len() < t.len() {
                return is_value_convertible(inner.as_slice());
            } else {
                return false;
            }
        },
        None => {},
    }
    false
}

/// A map type name: `HashMap<..>` or `BTreeMap<..>`.
pub open spec fn is_map_type_name(t: Seq<char>) -> bool {
    starts_with_seq(t, "HashMap<"@) || starts_with_seq(t, "BTreeMap<"@)
}

/// Whether the type is a map type (see [`is_map_type_name`]).
pub fn is_map_type(type_str: &[char]) -> (r: bool)
    ensures
        r == is_map_type_name(type_str@),
{
    starts_with_str(type_str, "HashMap<") || starts_with_str(type_str, "BTreeMap<")
}

/// The nesting depth of angle brackets over the first `k` characters.
pub open spec fn bracket_depth(s: Seq<char>, k: int) -> int
    decreases k,
{
    if k <= 0 {
        0
    } else {
        let d = bracket_depth(s, k - 1);
        if s[k - 1] == '<' {
            d + 1
        } else if s[k - 1] == '>' {
            d - 1
        } else {
            d
        }
    }
}

/// The index of the first comma outside angle brackets.
pub open spec fn top_level_comma(s: Seq<char>) -> Option<int> {
    if exists|i: int| 0 <= i < s.len() && s[i] == ',' && bracket_depth(s, i) == 0 {
        Some(
            choose|i: int|
                0 <= i < s.len() && s[i] == ',' && bracket_depth(s, i) == 0 && forall|j: int|
                    0 <= j < i ==> !(s[j] == ',' && bracket_depth(s, j) == 0),
        )
    } else {
        None
    }
}

/// The text between `HashMap<` (or `BTreeMap<`) and the final `>`.
pub open spec fn map_inner(t: Seq<char>) -> Option<Seq<char>> {
    match strip_prefix(t, "HashMap<"@) {
        Some(r) => strip_suffix(r, ">"@),
        None => match strip_prefix(t, "BTreeMap<"@) {
            Some(r) => strip_suffix(r, ">"@),
            None => None,
        },
    }
}

/// Splits at the first comma outside angle brackets, trimming both parts.
pub open spec fn split_top_level(inner: Seq<char>) -> Option<(Seq<char>, Seq<char>)> {
    match top_level_comma(inner) {
        Some(pos) => Some((trim(inner.take(pos)), trim(inner.skip(pos + 1)))),
        None => None,
    }
}

/// The key and value types of a map type name, split at the first comma
/// outside angle brackets and trimmed.
pub open spec fn map_types(t: Seq<char>) -> Option<(Seq<char>, Seq<char>)> {
    match map_inner(t) {
        Some(inner) => split_top_level(inner),
        None => None,
    }
}

/// The key and value types of a map type name (see [`map_types`]).
pub fn extract_map_types(type_str: &[char]) -> (r: Option<(String, String)>)
    ensures
        match map_types(type_str@) {
            Some((k, v)) => r matches Some((rk, rv)) && rk@ == k && rv@ == v,
            None => r is None,
        },
{
    let rest = match strip_prefix_chars(type_str, "HashMap<") {
        Some(r) => r,
        None => match strip_prefix_chars(type_str, "BTreeMap<") {
            Some(r) => r,
            None => {
                return None;
            },
        },
    };
    let inner = match strip_suffix_chars(rest.as_slice(), ">") {
        Some(i) => i,
        None => {
            return None;
        },
    };
    assert(map_inner(type_str@) == Some(inner@));
    let s = inner.as_slice();
    let mut depth: i128 = 0;
    let mut i: usize = 0;
    while i < s.len()
        invariant
            i <= s@.len(),
            s@ == inner@,
            map_inner(type_str@) == Some(inner@),
            depth == bracket_depth(s@, i as int),
            -(i as int) <= depth <= i as int,
            forall|j: int| 0 <= j < i ==> !(s@[j] == ',' && bracket_depth(s@, j) == 0),
        decreases s.len() - i,
    {
        let c = s[i];
        if c == ',' && depth == 0 {
            proof {
                let w = choose|k: int|
                    0 <= k < s@.len() && s@[k] == ',' && bracket_depth(s@, k) == 0 && forall|j: int|
                        0 <= j < k ==> !(s@[j] == ',' && bracket_depth(s@, j) == 0);
                assert(w == i) by {
                    if w < i {
                    } else if w > i {
                        assert(!(s@[i as int] == ',' && bracket_depth(s@, i as int) == 0));
                    }
                }
            }
            assert(top_level_comma(s@) == Some(i as int));
            let key = slice_of(s, 0, i);
            let value = slice_of(s, i + 1, s.len());
            let kt = trim_chars(key.as_slice());
            let vt = trim_chars(value.as_slice());
            assert(key@ =~= s@.take(i as int));
            assert(value@ =~= s@.skip(i + 1));
            assert(kt@ == trim(inner@.take(i as int)));
            assert(vt@ == trim(inner@.skip(i + 1)));
            assert(top_level_comma(inner@) == Some(i as int));
            assert(split_top_level(inner@) == Some((kt@, vt@)));
            let ks = string_from_chars(kt.as_slice());
            let vs = string_from_chars(vt.as_slice());
            return Some((ks, vs));
        }
        if c == '<' {
            depth = depth + 1;
        } else if c == '>' {
            depth = depth - 1;
        }
        i = i + 1;
    }
    None
}

/// A string-like map key type: `String`, `str`, `&str`, or a reference with
/// a lifetime to `str`.
pub open spec fn is_string_key_name(key_type: Seq<char>) -> bool {
    let t = trim(key_type);
    ||| t == "String"@
    ||| t == "str"@
    ||| t == "&str"@
    ||| starts_with_seq(t, "&'"@) && (ends_with_seq(t, "str"@) || ends_with_seq(t, " str"@))
}

/// Whether a map key type is string-like (see [`is_string_key_name`]).
pub fn is_string_key(key_type: &[char]) -> (r: bool)
    ensures
        r == is_string_key_name(key_type@),
{
    let t = trim_chars(key_type);
    let t = t.as_slice();
    is_str(t, "String") || is_str(t, "str") || is_str(t, "&str") || (starts_with_str(t, "&'") && (
    ends_with_str(t, "str") || ends_with_str(t, " str")))
}

/// Whether a type is handled without nested field access: primitives,
/// string references and `Cow`s, and vectors, hash sets (not of floats) and
/// string-keyed maps of such types.
pub open spec fn primitive_or_builtin(t: Seq<char>) -> bool
    decreases t.len(),
{
    if is_primitive_name(t) || is_str_ref(t) || is_cow_str(t) {
        true
    } else if strip_both(t, "Vec<"@, ">"@) is Some {
        let inner = strip_both(t, "Vec<"@, ">"@)->0;
        if inner.len() < t.len() {
            primitive_or_builtin(inner)
        } else {
            false
        }
    } else if strip_both(t, "HashSet<"@, ">"@) is Some {
        let inner = strip_both(t, "HashSet<"@, ">"@)->0;
        if is_float_name(inner) {
            false
        } else if inner.len() < t.len() {
            primitive_or_builtin(inner)
        } else {
            false
        }
    } else if is_map_type_name(t) && map_types(t) is Some {
        let (k, v) = map_types(t)->0;
        if v.len() < t.len() {
            is_string_key_name(k) && primitive_or_builtin(v)
        } else {
            false
        }
    } else {
        false
    }
}

/// Whether a type is handled without nested field access (see
/// [`primitive_or_builtin`]).
pub fn is_primitive_or_builtin(type_str: &[char]) -> (r: bool)
    ensures
        r == primitive_or_builtin(type_str@),
    decreases type_str@.len(),
{
    let t = type_str;
    if primitive_name(t) || (starts_with_str(t, "&") && contains_str(t, "str")) || (starts_with_str(
        t,
        "Cow<",
    ) && contains_str(t, "str")) {
        return true;
    }
    match strip_both_chars(t, "Vec<", ">") {
        Some(inner) => {
            if inner.len() < t.len() {
                return is_primitive_or_builtin(inner.as_slice());
            } else {
                return false;
            }
        },
        None => {},
    }
    match strip_both_chars(t, "HashSet<", ">") {
        Some(inner) => {
            let i = inner.as_slice();
            if float_name(i) {
                return false;
            }
            if inner.len() < t.len() {
                return is_primitive_or_builtin(i);
            } else {
                return false;
            }
        },
        None => {},
    }
    if is_map_type(t) {
        match extract_map_types(t) {
            Some((k, v)) => {
                let kc = chars_of(k.as_str());
                let vc = chars_of(v.as_str());
                if vc.len() < t.len() {
                    return is_string_key(kc.as_slice()) && is_primitive_or_builtin(vc.as_slice());
                } else {
                    return false;
                }
            },
            None => {},
        }
    }
    false
}

/// Whether a field of this type needs nested field access: a vector (or an
/// optional vector) of non-primitive elements, or a map (or an optional
/// map) of non-primitive values.
pub open spec fn nested_type(t: Seq<char>) -> bool {
    if strip_both(t, "Vec<"@, ">"@) is Some {
        !primitive_or_builtin(strip_both(t, "Vec<"@, ">"@)->0)
    } else if strip_both(t, "Option<Vec<"@, ">>"@) is Some {
        !primitive_or_builtin(strip_both(t, "Option<Vec<"@, ">>"@)->0)
    } else if is_map_type_name(t) && map_types(t) is Some {
        !primitive_or_builtin((map_types(t)->0).1)
    } else if (starts_with_seq(t, "Option<HashMap<"@) || starts_with_seq(t, "Option<BTreeMap<"@))
        && strip_both(t, "Option<"@, ">"@) is Some && map_types(
        strip_both(t, "Option<"@, ">"@)->0,
    ) is Some {
        !primitive_or_builtin((map_types(strip_both(t, "Option<"@, ">"@)->0)->0).1)
    } else {
        false
    }
}

/// Whether a field of this type needs nested field access (see
/// [`nested_type`]).
pub fn is_nested_type(type_str: &[char]) -> (r: bool)
    ensures
        r == nested_type(type_str@),
{
    let t = type_str;
    match strip_both_chars(t, "Vec<", ">") {
        Some(inner) => {
            return !is_primitive_or_builtin(inner.as_slice());
        },
        None => {},
    }
    match strip_both_chars(t, "Option<Vec<", ">>") {
        Some(inner) => {
            return !is_primitive_or_builtin(inner.as_slice());
        },
        None => {},
    }
    if is_map_type(t) {
        match extract_map_types(t) {
            Some((_, v)) => {
                let vc = chars_of(v.as_str());
                return !is_primitive_or_builtin(vc.as_slice());
            },
            None => {},
        }
    }
    if starts_with_str(t, "Option<HashMap<") || starts_with_str(t, "Option<BTreeMap<") {
        match strip_both_chars(t, "Option<", ">") {
            Some(inner) => {
                match extract_map_types(inner.as_slice()) {
                    Some((_, v)) => {
                        let vc = chars_of(v.as_str());
                        return !is_primitive_or_builtin(vc.as_slice());
                    },
                    None => {},
                }
            },
            None => {},
        }
    }
    false
}

/// `s` with every space character removed.
pub open spec fn without_spaces(s: Seq<char>) -> Seq<char>
    decreases s.len(),
{
    if s.len() == 0 {
        s
    } else if s.last() == ' ' {
        without_spaces(s.drop_last())
    } else {
        without_spaces(s.drop_last()).push(s.last())
    }
}

/// The kind of a field of the given type: `Iter` when it is marked as an
/// iterable field, `Mapping` for map types, `Iter` for vectors and sets, and
/// `Scalar` otherwise (judged on the type name without spaces).
pub open spec fn kind_for_type(type_str: Seq<char>, iter_attribute: bool) -> FieldKind {
    let t = without_spaces(type_str);
    if iter_attribute {
        FieldKind::Iter
    } else if is_map_type_name(t) {
        FieldKind::Mapping
    } else if starts_with_seq(t, "Vec<"@) || starts_with_seq(t, "HashSet<"@) || starts_with_seq(
        t,
        "BTreeSet<"@,
    ) {
        FieldKind::Iter
    } else {
        FieldKind::Scalar
    }
}

/// The kind of a field of the given type (see [`kind_for_type`]).
pub fn field_kind_for(type_str: &str, iter_attribute: bool) -> (r: FieldKind)
    ensures
        r == kind_for_type(type_str@, iter_attribute),
{
    let cs = chars_of(type_str);
    let mut t: Vec<char> = Vec::new();
    let mut i: usize = 0;
    while i < cs.len()
        invariant
            i <= cs@.len(),
            t@ == without_spaces(cs@.take(i as int)),
        decreases cs.len() - i,
    {
        assert(cs@.take(i + 1).drop_last() =~= cs@.take(i as int));
        if cs[i] != ' ' {
            t.push(cs[i]);
        }
        i = i + 1;
    }
    assert(cs@.take(cs@.len() as int) =~= cs@);
    let t = t.as_slice();
    if iter_attribute {
        FieldKind::Iter
    } else if is_map_type(t) {
        FieldKind::Mapping
    } else if starts_with_str(t, "Vec<") || starts_with_str(t, "HashSet<") || starts_with_str(
        t,
        "BTreeSet<",
    ) {
        FieldKind::Iter
    } else {
        FieldKind::Scalar
    }
}

/// Field metadata for a field of the given name and type, its kind
/// classified from the type (see [`kind_for_type`]).
pub fn field_info_for(name: &'static str, type_str: &'static str, iter_attribute: bool) -> (r:
    FieldInfo)
    ensures
        r.name@ == name@,
        r.field_type@ == type_str@,
        r.kind == kind_for_type(type_str@, iter_attribute),
{
    FieldInfo::with_kind(name, type_str, field_kind_for(type_str, iter_attribute))
}

} // verus!
