//! Evaluation of a struct field against an operator and a value.
use vstd::prelude::*;

use crate::operator::{
    any_holds, bool_holds, int_holds, str_holds, uint_holds, BaseModel, BaseOperator, Op, OpModel,
};
use crate::value::{FieldElem, Value, ValueModel};

verus! {

/// Evaluates a struct field against a DNF operator and value.
pub trait DnfField {
    /// The field satisfies `op` against `v` (by default, never).
    open spec fn spec_holds(&self, op: OpModel, v: ValueModel) -> bool {
        false
    }

    /// Evaluates this field against `op` and `value`.
    fn evaluate(&self, op: &Op, value: &Value) -> (r: bool)
        ensures
            r == self.spec_holds(op@, value@),
    ;
}

/// Outcome of an operator on a field holding a [`Value`]: scalars as their
/// type; `Null` equals only `Null` (under `==`/`!=`); collections and map
/// targets never hold (collections go through [`Op::any`]).
pub open spec fn value_holds(f: ValueModel, op: OpModel, v: ValueModel) -> bool {
    match f {
        ValueModel::Str(s) => str_holds(op, s, v),
        ValueModel::Int(n) => int_holds(op, n, v),
        ValueModel::Uint(n) => uint_holds(op, n, v),
        ValueModel::Bool(b) => bool_holds(op, b, v),
        ValueModel::Null => match op.base {
            BaseModel::Eq => if op.inverse {
                !(v is Null)
            } else {
                v is Null
            },
            _ => false,
        },
        _ => false,
    }
}

impl DnfField for String {
    open spec fn spec_holds(&self, op: OpModel, v: ValueModel) -> bool {
        str_holds(op, self@, v)
    }

    fn evaluate(&self, op: &Op, value: &Value) -> (r: bool) {
        op.scalar_str(self.as_str(), value)
    }
}

impl DnfField for i64 {
    open spec fn spec_holds(&self, op: OpModel, v: ValueModel) -> bool {
        int_holds(op, *self, v)
    }

    fn evaluate(&self, op: &Op, value: &Value) -> (r: bool) {
        op.scalar_int(*self, value)
    }
}

impl DnfField for i32 {
    open spec fn spec_holds(&self, op: OpModel, v: ValueModel) -> bool {
        int_holds(op, *self as i64, v)
    }

    fn evaluate(&self, op: &Op, value: &Value) -> (r: bool) {
        op.scalar_int(*self as i64, value)
    }
}

impl DnfField for i16 {
    open spec fn spec_holds(&self, op: OpModel, v: ValueModel) -> bool {
        int_holds(op, *self as i64, v)
    }

    fn evaluate(&self, op: &Op, value: &Value) -> (r: bool) {
        op.scalar_int(*self as i64, value)
    }
}

impl DnfField for i8 {
    open spec fn spec_holds(&self, op: OpModel, v: ValueModel) -> bool {
        int_holds(op, *self as i64, v)
    }

    fn evaluate(&self, op: &Op, value: &Value) -> (r: bool) {
        op.scalar_int(*self as i64, value)
    }
}

impl DnfField for u64 {
    open spec fn spec_holds(&self, op: OpModel, v: ValueModel) -> bool {
        uint_holds(op, *self, v)
    }

    fn evaluate(&self, op: &Op, value: &Value) -> (r: bool) {
        op.scalar_uint(*self, value)
    }
}

impl DnfField for u32 {
    open spec fn spec_holds(&self, op: OpModel, v: ValueModel) -> bool {
        uint_holds(op, *self as u64, v)
    }

    fn evaluate(&self, op: &Op, value: &Value) -> (r: bool) {
        op.scalar_uint(*self as u64, value)
    }
}

impl DnfField for u16 {
    open spec fn spec_holds(&self, op: OpModel, v: ValueModel) -> bool {
        uint_holds(op, *self as u64, v)
    }

    fn evaluate(&self, op: &Op, value: &Value) -> (r: bool) {
        op.scalar_uint(*self as u64, value)
    }
}

impl DnfField for u8 {
    open spec fn spec_holds(&self, op: OpModel, v: ValueModel) -> bool {
        uint_holds(op, *self as u64, v)
    }

    fn evaluate(&self, op: &Op, value: &Value) -> (r: bool) {
        op.scalar_uint(*self as u64, value)
    }
}

impl DnfField for usize {
    open spec fn spec_holds(&self, op: OpModel, v: ValueModel) -> bool {
        uint_holds(op, *self as u64, v)
    }

    fn evaluate(&self, op: &Op, value: &Value) -> (r: bool) {
        op.scalar_uint(*self as u64, value)
    }
}

impl DnfField for bool {
    open spec fn spec_holds(&self, op: OpModel, v: ValueModel) -> bool {
        bool_holds(op, *self, v)
    }

    fn evaluate(&self, op: &Op, value: &Value) -> (r: bool) {
        op.scalar_bool(*self, value)
    }
}

impl DnfField for Value {
    open spec fn spec_holds(&self, op: OpModel, v: ValueModel) -> bool {
        value_holds(self@, op, v)
    }

    fn evaluate(&self, op: &Op, value: &Value) -> (r: bool) {
        match self {
            Value::String(s) => op.scalar_str(s.as_str(), value),
            Value::Int(n) => op.scalar_int(*n, value),
            Value::Uint(n) => op.scalar_uint(*n, value),
            Value::Bool(b) => op.scalar_bool(*b, value),
            Value::Null => {
                match &op.base {
                    BaseOperator::Eq => {
                        let result = match value {
                            Value::Null => true,
                            _ => false,
                        };
                        if op.inverse {
                            !result
                        } else {
                            result
                        }
                    },
                    _ => false,
                }
            },
            _ => false,
        }
    }
}

impl<T: FieldElem> DnfField for Vec<T> {
    open spec fn spec_holds(&self, op: OpModel, v: ValueModel) -> bool {
        any_holds(op, self@, v)
    }

    fn evaluate(&self, op: &Op, value: &Value) -> (r: bool) {
        op.any(self.as_slice(), value)
    }
}

impl<T: DnfField> DnfField for Option<T> {
    open spec fn spec_holds(&self, op: OpModel, v: ValueModel) -> bool {
        match self {
            Some(x) => x.spec_holds(op, v),
            None => value_holds(ValueModel::Null, op, v),
        }
    }

    fn evaluate(&self, op: &Op, value: &Value) -> (r: bool) {
        match self {
            Some(x) => x.evaluate(op, value),
            None => Value::Null.evaluate(op, value),
        }
    }
}

/// A map field keyed by strings, with its entries in iteration order.
///
/// Keys are distinct.
#[derive(Debug)]
pub struct FieldMap<V> {
    keys: Vec<String>,
    vals: Vec<V>,
}

/// Keys are pairwise distinct.
pub open spec fn distinct_keys(keys: Seq<String>) -> bool {
    forall|i: int, j: int| 0 <= i < j < keys.len() ==> keys[i]@ != keys[j]@
}

/// The map from key text to value that parallel key and value lists hold.
pub open spec fn map_of<V>(keys: Seq<String>, vals: Seq<V>) -> Map<Seq<char>, V> {
    Map::new(
        |k: Seq<char>| exists|i: int| 0 <= i < keys.len() && keys[i]@ == k,
        |k: Seq<char>| vals[choose|i: int| 0 <= i < keys.len() && keys[i]@ == k],
    )
}

/// With distinct keys, the entry at position `i` is found under its key.
pub proof fn lemma_map_of_at<V>(keys: Seq<String>, vals: Seq<V>, i: int)
    requires
        keys.len() == vals.len(),
        distinct_keys(keys),
        0 <= i < keys.len(),
    ensures
        map_of(keys, vals).contains_key(keys[i]@),
        map_of(keys, vals)[keys[i]@] == vals[i],
{
    let k = keys[i]@;
    assert(exists|j: int| 0 <= j < keys.len() && keys[j]@ == k);
    let j = choose|j: int| 0 <= j < keys.len() && keys[j]@ == k;
    if j < i {
        assert(keys[j]@ != keys[i]@);
    } else if j > i {
        assert(keys[i]@ != keys[j]@);
    }
}

impl<V> FieldMap<V> {
    /// Keys and values line up, and no key occurs twice.
    #[verifier::type_invariant]
    spec fn wf(self) -> bool {
        &&& self.keys@.len() == self.vals@.len()
        &&& distinct_keys(self.keys@)
    }

    /// The keys, in iteration order.
    pub closed spec fn spec_keys(self) -> Seq<String> {
        self.keys@
    }

    /// The values, in iteration order (aligned with the keys).
    pub closed spec fn spec_vals(self) -> Seq<V> {
        self.vals@
    }

    /// The entries as a map from key text to value.
    pub open spec fn spec_map(self) -> Map<Seq<char>, V> {
        map_of(self.spec_keys(), self.spec_vals())
    }

    /// Takes the map apart into its keys and values.
    pub fn into_parts(self) -> (r: (Vec<String>, Vec<V>))
        ensures
            r.0@ == self.spec_keys(),
            r.1@ == self.spec_vals(),
            r.0@.len() == r.1@.len(),
            distinct_keys(r.0@),
    {
        proof {
            use_type_invariant(&self);
        }
        let FieldMap { keys, vals } = self;
        (keys, vals)
    }

    /// An empty map.
    pub fn new() -> (r: Self)
        ensures
            r.spec_keys().len() == 0,
            r.spec_vals().len() == 0,
            r.spec_map() == Map::<Seq<char>, V>::empty(),
    {
        let r = FieldMap { keys: Vec::new(), vals: Vec::new() };
        assert(r.spec_map() =~= Map::<Seq<char>, V>::empty());
        r
    }

    /// Index of the entry with the given key.
    fn find(&self, key: &str) -> (r: Option<usize>)
        ensures
            match r {
                Some(i) => i < self.spec_keys().len() && self.spec_keys()[i as int]@ == key@,
                None => forall|i: int|
                    0 <= i < self.spec_keys().len() ==> self.spec_keys()[i]@ != key@,
            },
    {
        let mut i: usize = 0;
        while i < self.keys.len()
            invariant
                i <= self.keys@.len(),
                forall|k: int| 0 <= k < i ==> self.keys@[k]@ != key@,
            decreases self.keys.len() - i,
        {
            if crate::text::str_equal(self.keys[i].as_str(), key) {
                return Some(i);
            }
            i = i + 1;
        }
        None
    }

    /// Sets the value stored under `key`, replacing an existing entry in
    /// place or appending a new one.
    pub fn insert(&mut self, key: String, value: V)
        ensures
            ({
                let ks = old(self).spec_keys();
                if exists|i: int| 0 <= i < ks.len() && ks[i]@ == key@ {
                    &&& final(self).spec_keys() == ks
                    &&& exists|i: int|
                        0 <= i < ks.len() && ks[i]@ == key@ && final(self).spec_vals() == old(
                            self,
                        ).spec_vals().update(i, value)
                } else {
                    &&& final(self).spec_keys() == ks.push(key)
                    &&& final(self).spec_vals() == old(self).spec_vals().push(value)
                }
            }),
            final(self).spec_map() == old(self).spec_map().insert(key@, value),
    {
        proof {
            use_type_invariant(&*self);
        }
        let found = self.find(key.as_str());
        let ghost ks0 = self.keys@;
        let ghost vs0 = self.vals@;
        let ghost k = key@;
        let mut taken = FieldMap::new();
        std::mem::swap(&mut taken, self);
        let FieldMap { mut keys, mut vals } = taken;
        match found {
            Some(i) => {
                vals.set(i, value);
                assert(vals@ == old(self).spec_vals().update(i as int, value));
                assert(old(self).spec_keys()[i as int]@ == key@);
            },
            None => {
                let ghost ks = keys@;
                keys.push(key);
                vals.push(value);
                assert(distinct_keys(keys@)) by {
                    assert forall|a: int, b: int| 0 <= a < b < keys@.len() implies keys@[a]@
                        != keys@[b]@ by {
                        if b == ks.len() {
                            assert(keys@[a] == ks[a]);
                        } else {
                            assert(keys@[a] == ks[a] && keys@[b] == ks[b]);
                        }
                    }
                }
            },
        }
        proof {
            let m0 = map_of(ks0, vs0);
            let m1 = map_of(keys@, vals@);
            assert forall|q: Seq<char>| #[trigger] m1.contains_key(q) == m0.insert(k, value).contains_key(q) by {
                if m1.contains_key(q) {
                    let j = choose|j: int| 0 <= j < keys@.len() && keys@[j]@ == q;
                    if q != k {
                        assert(j < ks0.len() && ks0[j]@ == q);
                    }
                }
                if m0.contains_key(q) {
                    let j = choose|j: int| 0 <= j < ks0.len() && ks0[j]@ == q;
                    assert(keys@[j]@ == q);
                }
                if q == k {
                    match found {
                        Some(i) => { assert(keys@[i as int]@ == q); },
                        None => { assert(keys@[ks0.len() as int]@ == q); },
                    }
                }
            }
            assert forall|q: Seq<char>| #[trigger] m1.contains_key(q) implies m1[q] == m0.insert(k, value)[q] by {
                let j = choose|j: int| 0 <= j < keys@.len() && keys@[j]@ == q;
                lemma_map_of_at(keys@, vals@, j);
                if q == k {
                    match found {
                        Some(i) => { lemma_map_of_at(keys@, vals@, i as int); },
                        None => { lemma_map_of_at(keys@, vals@, ks0.len() as int); },
                    }
                } else {
                    assert(j < ks0.len());
                    lemma_map_of_at(ks0, vs0, j);
                }
            }
            assert(m1 =~= m0.insert(k, value));
        }
        *self = FieldMap { keys, vals };
    }

    /// Whether an entry is stored under `key`.
    pub fn contains_key(&self, key: &str) -> (r: bool)
        ensures
            r == self.spec_map().contains_key(key@),
    {
        proof {
            use_type_invariant(self);
        }
        match self.find(key) {
            Some(i) => {
                proof {
                    lemma_map_of_at(self.keys@, self.vals@, i as int);
                }
                true
            },
            None => false,
        }
    }

    /// The value stored under `key`.
    pub fn get(&self, key: &str) -> (r: Option<&V>)
        ensures
            match r {
                Some(v) => self.spec_map().contains_key(key@) && self.spec_map()[key@] == *v,
                None => !self.spec_map().contains_key(key@),
            },
            match r {
                Some(v) => exists|i: int|
                    0 <= i < self.spec_keys().len() && self.spec_keys()[i]@ == key@
                        && self.spec_vals()[i] == *v,
                None => forall|i: int|
                    0 <= i < self.spec_keys().len() ==> self.spec_keys()[i]@ != key@,
            },
    {
        proof {
            use_type_invariant(self);
        }
        match self.find(key) {
            Some(i) => {
                assert(self.spec_vals()[i as int] == self.vals@[i as int]);
                proof {
                    lemma_map_of_at(self.keys@, self.vals@, i as int);
                }
                Some(&self.vals[i])
            },
            None => None,
        }
    }

    /// The keys, in iteration order.
    pub fn keys(&self) -> (r: &[String])
        ensures
            r@ == self.spec_keys(),
            distinct_keys(self.spec_keys()),
            self.spec_keys().len() == self.spec_vals().len(),
    {
        proof {
            use_type_invariant(self);
        }
        self.keys.as_slice()
    }

    /// The values, in iteration order.
    pub fn values(&self) -> (r: &[V])
        ensures
            r@ == self.spec_vals(),
    {
        self.vals.as_slice()
    }

    /// Number of entries.
    pub fn len(&self) -> (r: usize)
        ensures
            r == self.spec_keys().len(),
    {
        self.keys.len()
    }
}

impl<V: Clone> Clone for FieldMap<V> {
    /// A copy with the same keys, and each value cloned.
    fn clone(&self) -> (r: Self)
        ensures
            r.spec_keys() == self.spec_keys(),
            r.spec_vals().len() == self.spec_vals().len(),
            forall|i: int|
                0 <= i < self.spec_vals().len() ==> cloned::<V>(
                    self.spec_vals()[i],
                    #[trigger] r.spec_vals()[i],
                ),
    {
        proof {
            use_type_invariant(self);
        }
        let keys = self.keys.clone();
        assert(keys@ =~= self.keys@);
        let vals = self.vals.clone();
        FieldMap { keys, vals }
    }
}

/// The index of the entry with key `k` (keys are distinct).
pub open spec fn key_index(keys: Seq<String>, k: Seq<char>) -> Option<int> {
    if exists|i: int| 0 <= i < keys.len() && keys[i]@ == k {
        Some(choose|i: int| 0 <= i < keys.len() && keys[i]@ == k)
    } else {
        None
    }
}

/// Outcome of an operator on a map field: `AtKey` applies it to the value at
/// the key (a missing key behaves as `Null`), `Keys` and `Values` apply it
/// to the keys or the values as a collection; other values never hold.
pub open spec fn map_holds<V: DnfField + FieldElem>(
    keys: Seq<String>,
    vals: Seq<V>,
    op: OpModel,
    v: ValueModel,
) -> bool {
    match v {
        ValueModel::AtKey(k, inner) => match key_index(keys, k) {
            Some(i) => vals[i].spec_holds(op, *inner),
            None => value_holds(ValueModel::Null, op, *inner),
        },
        ValueModel::Keys(inner) => any_holds(op, keys, *inner),
        ValueModel::Values(inner) => any_holds(op, vals, *inner),
        _ => false,
    }
}

impl<V: DnfField + FieldElem> DnfField for FieldMap<V> {
    open spec fn spec_holds(&self, op: OpModel, v: ValueModel) -> bool {
        map_holds(self.spec_keys(), self.spec_vals(), op, v)
    }

    fn evaluate(&self, op: &Op, value: &Value) -> (r: bool) {
        proof {
            use_type_invariant(self);
        }
        match value {
            Value::AtKey(key, inner) => {
                match self.find(key.as_str()) {
                    Some(i) => {
                        proof {
                            let ks = self.spec_keys();
                            let c = choose|j: int| 0 <= j < ks.len() && ks[j]@ == key@;
                            assert(ks[i as int]@ == key@);
                            assert(c == i);
                        }
                        self.vals[i].evaluate(op, &**inner)
                    },
                    None => Value::Null.evaluate(op, &**inner),
                }
            },
            Value::Keys(inner) => op.any(self.keys.as_slice(), &**inner),
            Value::Values(inner) => op.any(self.vals.as_slice(), &**inner),
            _ => false,
        }
    }
}

} // verus!
