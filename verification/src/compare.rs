//! Equality and ordering between two [`Value`]s.
//!
//! Values of the same kind compare by content (lists lexicographically,
//! sets by their elements); signed and unsigned integers compare by
//! mathematical value; a string compares with any other value through that
//! value's text form (see [`ValueModel::repr`]).
use vstd::prelude::*;

use crate::text::{chars_of, lex_order, lex_order_chars, str_equal, Order};
use crate::value::{order_of_bools, order_of_ints, string_views, Value, ValueModel};

verus! {

/// Element types whose lists are ordered lexicographically.
pub trait Ranked: Sized {
    /// How two elements are ordered.
    spec fn rank(a: Self, b: Self) -> Order;
}

impl Ranked for Seq<char> {
    open spec fn rank(a: Self, b: Self) -> Order {
        lex_order(a, b)
    }
}

impl Ranked for i64 {
    open spec fn rank(a: Self, b: Self) -> Order {
        order_of_ints(a as int, b as int)
    }
}

impl Ranked for u64 {
    open spec fn rank(a: Self, b: Self) -> Order {
        order_of_ints(a as int, b as int)
    }
}

impl Ranked for bool {
    open spec fn rank(a: Self, b: Self) -> Order {
        order_of_bools(a, b)
    }
}

/// Lexicographic order of two lists: the first differing element decides,
/// and a proper prefix comes first.
pub open spec fn list_order<T: Ranked>(a: Seq<T>, b: Seq<T>) -> Order
    decreases a.len(),
{
    if a.len() == 0 {
        if b.len() == 0 {
            Order::Equal
        } else {
            Order::Less
        }
    } else if b.len() == 0 {
        Order::Greater
    } else if T::rank(a[0], b[0]) != Order::Equal {
        T::rank(a[0], b[0])
    } else {
        list_order(a.drop_first(), b.drop_first())
    }
}

/// Two lists hold the same elements, ignoring order and repetition.
pub open spec fn same_elements<T>(a: Seq<T>, b: Seq<T>) -> bool {
    a.to_set() == b.to_set()
}

/// When two values are equal.
pub open spec fn values_equal(a: ValueModel, b: ValueModel) -> bool
    decreases a,
{
    match (a, b) {
        (ValueModel::Str(x), ValueModel::Str(y)) => x == y,
        (ValueModel::Int(x), ValueModel::Int(y)) => x == y,
        (ValueModel::Uint(x), ValueModel::Uint(y)) => x == y,
        (ValueModel::Bool(x), ValueModel::Bool(y)) => x == y,
        (ValueModel::Null, ValueModel::Null) => true,
        (ValueModel::StringArray(x), ValueModel::StringArray(y)) => x == y,
        (ValueModel::IntArray(x), ValueModel::IntArray(y)) => x == y,
        (ValueModel::UintArray(x), ValueModel::UintArray(y)) => x == y,
        (ValueModel::BoolArray(x), ValueModel::BoolArray(y)) => x == y,
        (ValueModel::StringSet(x), ValueModel::StringSet(y)) => same_elements(x, y),
        (ValueModel::IntSet(x), ValueModel::IntSet(y)) => same_elements(x, y),
        (ValueModel::UintSet(x), ValueModel::UintSet(y)) => same_elements(x, y),
        (ValueModel::BoolSet(x), ValueModel::BoolSet(y)) => same_elements(x, y),
        (ValueModel::AtKey(k1, v1), ValueModel::AtKey(k2, v2)) => k1 == k2 && values_equal(
            *v1,
            *v2,
        ),
        (ValueModel::Keys(v1), ValueModel::Keys(v2)) => values_equal(*v1, *v2),
        (ValueModel::Values(v1), ValueModel::Values(v2)) => values_equal(*v1, *v2),
        (ValueModel::Int(x), ValueModel::Uint(y)) => x as int == y as int,
        (ValueModel::Uint(x), ValueModel::Int(y)) => x as int == y as int,
        (ValueModel::Str(x), other) => x == other.repr(),
        (other, ValueModel::Str(y)) => other.repr() == y,
        _ => false,
    }
}

/// How two values are ordered, if they are comparable at all.
pub open spec fn value_order(a: ValueModel, b: ValueModel) -> Option<Order>
    decreases a,
{
    match (a, b) {
        (ValueModel::Str(x), ValueModel::Str(y)) => Some(lex_order(x, y)),
        (ValueModel::Int(x), ValueModel::Int(y)) => Some(order_of_ints(x as int, y as int)),
        (ValueModel::Uint(x), ValueModel::Uint(y)) => Some(order_of_ints(x as int, y as int)),
        (ValueModel::Bool(x), ValueModel::Bool(y)) => Some(order_of_bools(x, y)),
        (ValueModel::Null, ValueModel::Null) => Some(Order::Equal),
        (ValueModel::StringArray(x), ValueModel::StringArray(y)) => Some(list_order(x, y)),
        (ValueModel::IntArray(x), ValueModel::IntArray(y)) => Some(list_order(x, y)),
        (ValueModel::UintArray(x), ValueModel::UintArray(y)) => Some(list_order(x, y)),
        (ValueModel::BoolArray(x), ValueModel::BoolArray(y)) => Some(list_order(x, y)),
        (ValueModel::StringSet(x), ValueModel::StringSet(y)) => if same_elements(x, y) {
            Some(Order::Equal)
        } else {
            None
        },
        (ValueModel::IntSet(x), ValueModel::IntSet(y)) => if same_elements(x, y) {
            Some(Order::Equal)
        } else {
            None
        },
        (ValueModel::UintSet(x), ValueModel::UintSet(y)) => if same_elements(x, y) {
            Some(Order::Equal)
        } else {
            None
        },
        (ValueModel::BoolSet(x), ValueModel::BoolSet(y)) => if same_elements(x, y) {
            Some(Order::Equal)
        } else {
            None
        },
        (ValueModel::AtKey(k1, v1), ValueModel::AtKey(k2, v2)) => if k1 == k2 {
            value_order(*v1, *v2)
        } else {
            Some(lex_order(k1, k2))
        },
        (ValueModel::Keys(v1), ValueModel::Keys(v2)) => value_order(*v1, *v2),
        (ValueModel::Values(v1), ValueModel::Values(v2)) => value_order(*v1, *v2),
        (ValueModel::Int(x), ValueModel::Uint(y)) => Some(order_of_ints(x as int, y as int)),
        (ValueModel::Uint(x), ValueModel::Int(y)) => Some(order_of_ints(x as int, y as int)),
        (ValueModel::Str(x), other) => Some(lex_order(x, other.repr())),
        (other, ValueModel::Str(y)) => Some(lex_order(other.repr(), y)),
        _ => None,
    }
}

// ---------------------------------------------------------------------
// Executable comparisons
// ---------------------------------------------------------------------
/// Scalar list elements with an executable three-way comparison.
pub trait RankExec: Ranked + Copy {
    /// Compares two elements.
    fn rank_of(a: Self, b: Self) -> (r: Order)
        ensures
            r == Self::rank(a, b),
    ;

    /// Elements rank equal exactly when they are the same.
    proof fn lemma_rank_equal(a: Self, b: Self)
        ensures
            (Self::rank(a, b) == Order::Equal) == (a == b),
    ;
}

impl RankExec for i64 {
    fn rank_of(a: Self, b: Self) -> (r: Order) {
        if a < b {
            Order::Less
        } else if a == b {
            Order::Equal
        } else {
            Order::Greater
        }
    }

    proof fn lemma_rank_equal(a: Self, b: Self) {
    }
}

impl RankExec for u64 {
    fn rank_of(a: Self, b: Self) -> (r: Order) {
        if a < b {
            Order::Less
        } else if a == b {
            Order::Equal
        } else {
            Order::Greater
        }
    }

    proof fn lemma_rank_equal(a: Self, b: Self) {
    }
}

impl RankExec for bool {
    fn rank_of(a: Self, b: Self) -> (r: Order) {
        if a == b {
            Order::Equal
        } else if !a {
            Order::Less
        } else {
            Order::Greater
        }
    }

    proof fn lemma_rank_equal(a: Self, b: Self) {
    }
}

/// Orders two scalar lists lexicographically.
fn order_scalar_lists<T: RankExec>(a: &[T], b: &[T]) -> (r: Order)
    ensures
        r == list_order(a@, b@),
{
    let mut i: usize = 0;
    assert(a@.skip(0) =~= a@);
    assert(b@.skip(0) =~= b@);
    while i < a.len() && i < b.len()
        invariant
            i <= a@.len(),
            i <= b@.len(),
            list_order(a@, b@) == list_order(a@.skip(i as int), b@.skip(i as int)),
        decreases a.len() - i,
    {
        let c = T::rank_of(a[i], b[i]);
        assert(a@.skip(i as int)[0] == a@[i as int]);
        assert(b@.skip(i as int)[0] == b@[i as int]);
        if c != Order::Equal {
            return c;
        }
        assert(a@.skip(i as int).drop_first() =~= a@.skip(i + 1));
        assert(b@.skip(i as int).drop_first() =~= b@.skip(i + 1));
        i = i + 1;
    }
    if i == a.len() {
        if i == b.len() {
            Order::Equal
        } else {
            Order::Less
        }
    } else {
        Order::Greater
    }
}

/// Orders two lists of strings lexicographically.
fn order_text_lists(a: &Vec<String>, b: &Vec<String>) -> (r: Order)
    ensures
        r == list_order(string_views(a@), string_views(b@)),
{
    let ghost va = string_views(a@);
    let ghost vb = string_views(b@);
    let mut i: usize = 0;
    assert(va.skip(0) =~= va);
    assert(vb.skip(0) =~= vb);
    while i < a.len() && i < b.len()
        invariant
            va == string_views(a@),
            vb == string_views(b@),
            i <= a@.len(),
            i <= b@.len(),
            list_order(va, vb) == list_order(va.skip(i as int), vb.skip(i as int)),
        decreases a.len() - i,
    {
        let ca = chars_of(a[i].as_str());
        let cb = chars_of(b[i].as_str());
        let c = lex_order_chars(ca.as_slice(), cb.as_slice());
        assert(va.skip(i as int)[0] == a@[i as int]@);
        assert(vb.skip(i as int)[0] == b@[i as int]@);
        if c != Order::Equal {
            return c;
        }
        assert(va.skip(i as int).drop_first() =~= va.skip(i + 1));
        assert(vb.skip(i as int).drop_first() =~= vb.skip(i + 1));
        i = i + 1;
    }
    if i == a.len() {
        if i == b.len() {
            Order::Equal
        } else {
            Order::Less
        }
    } else {
        Order::Greater
    }
}

/// Two scalar lists are equal element by element.
fn scalar_lists_equal<T: RankExec>(a: &[T], b: &[T]) -> (r: bool)
    ensures
        r == (a@ == b@),
{
    if a.len() != b.len() {
        return false;
    }
    let mut i: usize = 0;
    while i < a.len()
        invariant
            a@.len() == b@.len(),
            i <= a@.len(),
            forall|k: int| 0 <= k < i ==> a@[k] == b@[k],
        decreases a.len() - i,
    {
        proof {
            T::lemma_rank_equal(a@[i as int], b@[i as int]);
        }
        if T::rank_of(a[i], b[i]) != Order::Equal {
            assert(a@[i as int] != b@[i as int]);
            return false;
        }
        i = i + 1;
    }
    assert(a@ =~= b@);
    true
}

/// Two lists of strings are equal element by element.
fn text_lists_equal(a: &Vec<String>, b: &Vec<String>) -> (r: bool)
    ensures
        r == (string_views(a@) == string_views(b@)),
{
    if a.len() != b.len() {
        assert(string_views(a@).len() != string_views(b@).len());
        return false;
    }
    let mut i: usize = 0;
    while i < a.len()
        invariant
            a@.len() == b@.len(),
            i <= a@.len(),
            forall|k: int| 0 <= k < i ==> a@[k]@ == b@[k]@,
        decreases a.len() - i,
    {
        if !str_equal(a[i].as_str(), b[i].as_str()) {
            assert(string_views(a@)[i as int] != string_views(b@)[i as int]);
            return false;
        }
        i = i + 1;
    }
    assert(string_views(a@) =~= string_views(b@));
    true
}

/// `x` occurs in the scalar list `b`.
pub fn scalar_contains<T: RankExec>(b: &[T], x: T) -> (r: bool)
    ensures
        r == b@.contains(x),
{
    let mut i: usize = 0;
    while i < b.len()
        invariant
            i <= b@.len(),
            forall|k: int| 0 <= k < i ==> b@[k] != x,
        decreases b.len() - i,
    {
        proof {
            T::lemma_rank_equal(b@[i as int], x);
        }
        if T::rank_of(b[i], x) == Order::Equal {
            return true;
        }
        i = i + 1;
    }
    false
}

/// Every element of `a` occurs in `b`.
fn scalar_all_in<T: RankExec>(a: &[T], b: &[T]) -> (r: bool)
    ensures
        r == (forall|i: int| 0 <= i < a@.len() ==> b@.contains(#[trigger] a@[i])),
{
    let mut i: usize = 0;
    while i < a.len()
        invariant
            i <= a@.len(),
            forall|k: int| 0 <= k < i ==> b@.contains(#[trigger] a@[k]),
        decreases a.len() - i,
    {
        if !scalar_contains(b, a[i]) {
            return false;
        }
        i = i + 1;
    }
    true
}

/// Two scalar lists hold the same elements.
fn scalar_sets_equal<T: RankExec>(a: &[T], b: &[T]) -> (r: bool)
    ensures
        r == same_elements(a@, b@),
{
    let ab = scalar_all_in(a, b);
    let ba = scalar_all_in(b, a);
    proof {
        if ab && ba {
            assert forall|x: T| a@.to_set().contains(x) == b@.to_set().contains(x) by {
                if a@.contains(x) {
                    let i = choose|i: int| 0 <= i < a@.len() && a@[i] == x;
                    assert(b@.contains(a@[i]));
                }
                if b@.contains(x) {
                    let i = choose|i: int| 0 <= i < b@.len() && b@[i] == x;
                    assert(a@.contains(b@[i]));
                }
            }
            assert(a@.to_set() =~= b@.to_set());
        } else if !ab {
            let i = choose|i: int| 0 <= i < a@.len() && !b@.contains(#[trigger] a@[i]);
            assert(a@.to_set().contains(a@[i]));
            assert(!b@.to_set().contains(a@[i]));
        } else {
            let i = choose|i: int| 0 <= i < b@.len() && !a@.contains(#[trigger] b@[i]);
            assert(b@.to_set().contains(b@[i]));
            assert(!a@.to_set().contains(b@[i]));
        }
    }
    ab && ba
}

/// `x` occurs in the list of strings `b` (by content).
pub fn text_contains(b: &Vec<String>, x: &String) -> (r: bool)
    ensures
        r == string_views(b@).contains(x@),
{
    let mut i: usize = 0;
    while i < b.len()
        invariant
            i <= b@.len(),
            forall|k: int| 0 <= k < i ==> b@[k]@ != x@,
        decreases b.len() - i,
    {
        if str_equal(b[i].as_str(), x.as_str()) {
            assert(string_views(b@)[i as int] == x@);
            return true;
        }
        i = i + 1;
    }
    assert forall|k: int| 0 <= k < string_views(b@).len() implies string_views(b@)[k] != x@ by {
        assert(string_views(b@)[k] == b@[k]@);
    }
    false
}

/// Every string of `a` occurs in `b`.
fn text_all_in(a: &Vec<String>, b: &Vec<String>) -> (r: bool)
    ensures
        r == (forall|i: int|
            0 <= i < a@.len() ==> string_views(b@).contains(#[trigger] string_views(a@)[i])),
{
    let mut i: usize = 0;
    while i < a.len()
        invariant
            i <= a@.len(),
            forall|k: int|
                0 <= k < i ==> string_views(b@).contains(#[trigger] string_views(a@)[k]),
        decreases a.len() - i,
    {
        assert(string_views(a@)[i as int] == a@[i as int]@);
        if !text_contains(b, &a[i]) {
            return false;
        }
        i = i + 1;
    }
    true
}

/// Two lists of strings hold the same strings.
fn text_sets_equal(a: &Vec<String>, b: &Vec<String>) -> (r: bool)
    ensures
        r == same_elements(string_views(a@), string_views(b@)),
{
    let ghost va = string_views(a@);
    let ghost vb = string_views(b@);
    let ab = text_all_in(a, b);
    let ba = text_all_in(b, a);
    proof {
        if ab && ba {
            assert forall|x: Seq<char>| va.to_set().contains(x) == vb.to_set().contains(x) by {
                if va.contains(x) {
                    let i = choose|i: int| 0 <= i < va.len() && va[i] == x;
                    assert(vb.contains(va[i]));
                }
                if vb.contains(x) {
                    let i = choose|i: int| 0 <= i < vb.len() && vb[i] == x;
                    assert(va.contains(vb[i]));
                }
            }
            assert(va.to_set() =~= vb.to_set());
        } else if !ab {
            let i = choose|i: int| 0 <= i < a@.len() && !vb.contains(#[trigger] va[i]);
            assert(va.to_set().contains(va[i]));
            assert(!vb.to_set().contains(va[i]));
        } else {
            let i = choose|i: int| 0 <= i < b@.len() && !va.contains(#[trigger] vb[i]);
            assert(vb.to_set().contains(vb[i]));
            assert(!va.to_set().contains(vb[i]));
        }
    }
    ab && ba
}

impl Value {
    /// Whether two values are equal (see [`values_equal`]).
    pub fn equals(&self, other: &Value) -> (r: bool)
        ensures
            r == values_equal(self@, other@),
        decreases self,
    {
        match (self, other) {
            (Value::String(x), Value::String(y)) => str_equal(x.as_str(), y.as_str()),
            (Value::Int(x), Value::Int(y)) => *x == *y,
            (Value::Uint(x), Value::Uint(y)) => *x == *y,
            (Value::Bool(x), Value::Bool(y)) => *x == *y,
            (Value::Null, Value::Null) => true,
            (Value::StringArray(x), Value::StringArray(y)) => text_lists_equal(x, y),
            (Value::IntArray(x), Value::IntArray(y)) => scalar_lists_equal(
                x.as_slice(),
                y.as_slice(),
            ),
            (Value::UintArray(x), Value::UintArray(y)) => scalar_lists_equal(
                x.as_slice(),
                y.as_slice(),
            ),
            (Value::BoolArray(x), Value::BoolArray(y)) => scalar_lists_equal(
                x.as_slice(),
                y.as_slice(),
            ),
            (Value::StringSet(x), Value::StringSet(y)) => text_sets_equal(x, y),
            (Value::IntSet(x), Value::IntSet(y)) => scalar_sets_equal(x.as_slice(), y.as_slice()),
            (Value::UintSet(x), Value::UintSet(y)) => scalar_sets_equal(
                x.as_slice(),
                y.as_slice(),
            ),
            (Value::BoolSet(x), Value::BoolSet(y)) => scalar_sets_equal(
                x.as_slice(),
                y.as_slice(),
            ),
            (Value::AtKey(k1, v1), Value::AtKey(k2, v2)) => {
                if str_equal(k1.as_str(), k2.as_str()) {
                    (**v1).equals(&**v2)
                } else {
                    false
                }
            },
            (Value::Keys(v1), Value::Keys(v2)) => (**v1).equals(&**v2),
            (Value::Values(v1), Value::Values(v2)) => (**v1).equals(&**v2),
            (Value::Int(x), Value::Uint(y)) => *x >= 0 && (*x as u64) == *y,
            (Value::Uint(x), Value::Int(y)) => *y >= 0 && *x == (*y as u64),
            (Value::String(x), _) => {
                let rep = other.to_string_repr();
                str_equal(x.as_str(), rep.as_str())
            },
            (_, Value::String(y)) => {
                let rep = self.to_string_repr();
                str_equal(rep.as_str(), y.as_str())
            },
            _ => false,
        }
    }

    /// How two values are ordered (see [`value_order`]).
    pub fn order(&self, other: &Value) -> (r: Option<Order>)
        ensures
            r == value_order(self@, other@),
        decreases self,
    {
        match (self, other) {
            (Value::String(x), Value::String(y)) => {
                let cx = chars_of(x.as_str());
                let cy = chars_of(y.as_str());
                Some(lex_order_chars(cx.as_slice(), cy.as_slice()))
            },
            (Value::Int(x), Value::Int(y)) => Some(i64::rank_of(*x, *y)),
            (Value::Uint(x), Value::Uint(y)) => Some(u64::rank_of(*x, *y)),
            (Value::Bool(x), Value::Bool(y)) => Some(bool::rank_of(*x, *y)),
            (Value::Null, Value::Null) => Some(Order::Equal),
            (Value::StringArray(x), Value::StringArray(y)) => Some(order_text_lists(x, y)),
            (Value::IntArray(x), Value::IntArray(y)) => Some(
                order_scalar_lists(x.as_slice(), y.as_slice()),
            ),
            (Value::UintArray(x), Value::UintArray(y)) => Some(
                order_scalar_lists(x.as_slice(), y.as_slice()),
            ),
            (Value::BoolArray(x), Value::BoolArray(y)) => Some(
                order_scalar_lists(x.as_slice(), y.as_slice()),
            ),
            (Value::StringSet(x), Value::StringSet(y)) => if text_sets_equal(x, y) {
                Some(Order::Equal)
            } else {
                None
            },
            (Value::IntSet(x), Value::IntSet(y)) => if scalar_sets_equal(
                x.as_slice(),
                y.as_slice(),
            ) {
                Some(Order::Equal)
            } else {
                None
            },
            (Value::UintSet(x), Value::UintSet(y)) => if scalar_sets_equal(
                x.as_slice(),
                y.as_slice(),
            ) {
                Some(Order::Equal)
            } else {
                None
            },
            (Value::BoolSet(x), Value::BoolSet(y)) => if scalar_sets_equal(
                x.as_slice(),
                y.as_slice(),
            ) {
                Some(Order::Equal)
            } else {
                None
            },
            (Value::AtKey(k1, v1), Value::AtKey(k2, v2)) => {
                if str_equal(k1.as_str(), k2.as_str()) {
                    (**v1).order(&**v2)
                } else {
                    let c1 = chars_of(k1.as_str());
                    let c2 = chars_of(k2.as_str());
                    Some(lex_order_chars(c1.as_slice(), c2.as_slice()))
                }
            },
            (Value::Keys(v1), Value::Keys(v2)) => (**v1).order(&**v2),
            (Value::Values(v1), Value::Values(v2)) => (**v1).order(&**v2),
            (Value::Int(x), Value::Uint(y)) => {
                if *x < 0 {
                    Some(Order::Less)
                } else {
                    Some(u64::rank_of(*x as u64, *y))
                }
            },
            (Value::Uint(x), Value::Int(y)) => {
                if *y < 0 {
                    Some(Order::Greater)
                } else {
                    Some(u64::rank_of(*x, *y as u64))
                }
            },
            (Value::String(x), _) => {
                let cx = chars_of(x.as_str());
                let rep = other.to_string_repr();
                let cr = chars_of(rep.as_str());
                Some(lex_order_chars(cx.as_slice(), cr.as_slice()))
            },
            (_, Value::String(y)) => {
                let rep = self.to_string_repr();
                let cr = chars_of(rep.as_str());
                let cy = chars_of(y.as_str());
                Some(lex_order_chars(cr.as_slice(), cy.as_slice()))
            },
            _ => None,
        }
    }
}

} // verus!
