//! Custom operators: user-supplied predicates that a query dispatches
//! through an [`OpRegistry`] when a condition uses [`Op::custom`](crate::operator::Op::custom).
use vstd::prelude::*;

use crate::field::{distinct_keys, lemma_map_of_at, map_of, FieldMap};
use crate::text::{str_equal, string_of};
use crate::value::{string_views, Value, ValueModel};

verus! {

/// A custom operator: a predicate over the field's value and the query's
/// value.
pub trait CustomOp {
    /// Whether the operator holds for a field value and a query value (by
    /// default, never).
    open spec fn spec_apply(&self, field: ValueModel, query: ValueModel) -> bool {
        false
    }

    /// Applies the operator.
    fn apply(&self, field: &Value, query: &Value) -> (r: bool)
        ensures
            r == self.spec_apply(field@, query@),
    ;
}

/// The operator type of a registry that holds no operator: it never holds.
#[derive(Debug, Clone, Copy)]
pub struct NoCustomOp;

impl CustomOp for NoCustomOp {
    open spec fn spec_apply(&self, field: ValueModel, query: ValueModel) -> bool {
        false
    }

    fn apply(&self, field: &Value, query: &Value) -> (r: bool) {
        false
    }
}

/// A registry of custom operators, keyed by name.
///
/// Re-registering a name replaces its operator. Operators registered as
/// `novalue` take no right-hand value in query text.
#[derive(Debug)]
pub struct OpRegistry<O> {
    ops: FieldMap<O>,
    novalue: Vec<String>,
}

/// Appends `name` to `names` unless it is already there.
fn add_name(names: &mut Vec<String>, name: &str)
    requires
        distinct_keys(old(names)@),
    ensures
        distinct_keys(final(names)@),
        string_views(final(names)@).to_set() == string_views(old(names)@).to_set().insert(name@),
{
    let ghost before = string_views(names@);
    let mut i: usize = 0;
    while i < names.len()
        invariant
            i <= names@.len(),
            before == string_views(names@),
            distinct_keys(names@),
            forall|k: int| 0 <= k < i ==> names@[k]@ != name@,
        decreases names.len() - i,
    {
        if str_equal(names[i].as_str(), name) {
            proof {
                assert(before[i as int] == name@);
                assert(before.contains(name@));
                assert(before.to_set().contains(name@));
                assert(before.to_set().insert(name@) =~= before.to_set());
            }
            return;
        }
        i = i + 1;
    }
    let ghost old_names = names@;
    names.push(string_of(name));
    proof {
        assert forall|a: int, b: int| 0 <= a < b < names@.len() implies names@[a]@
            != names@[b]@ by {
            if b == old_names.len() {
                assert(names@[a] == old_names[a]);
            } else {
                assert(names@[a] == old_names[a] && names@[b] == old_names[b]);
            }
        }
        let after = string_views(names@);
        assert(after =~= before.push(name@));
        assert forall|x: Seq<char>| after.to_set().contains(x) == before.to_set().insert(
            name@,
        ).contains(x) by {
            if after.contains(x) {
                let j = choose|j: int| 0 <= j < after.len() && after[j] == x;
                if j < before.len() {
                    assert(before[j] == x);
                }
            }
            if before.contains(x) {
                let j = choose|j: int| 0 <= j < before.len() && before[j] == x;
                assert(after[j] == x);
            }
            if x == name@ {
                assert(after[before.len() as int] == x);
            }
        }
        assert(after.to_set() =~= before.to_set().insert(name@));
    }
}

/// Removes `name` from `names`.
fn remove_name(names: &mut Vec<String>, name: &str)
    requires
        distinct_keys(old(names)@),
    ensures
        distinct_keys(final(names)@),
        string_views(final(names)@).to_set() == string_views(old(names)@).to_set().remove(name@),
{
    let ghost before = string_views(names@);
    let mut kept: Vec<String> = Vec::new();
    let mut i: usize = 0;
    while i < names.len()
        invariant
            i <= names@.len(),
            before == string_views(names@),
            distinct_keys(names@),
            distinct_keys(kept@),
            forall|k: int| 0 <= k < kept@.len() ==> kept@[k]@ != name@,
            forall|k: int|
                0 <= k < kept@.len() ==> exists|j: int| 0 <= j < i && names@[j]@ == #[trigger] kept@[k]@,
            forall|j: int|
                0 <= j < i && names@[j]@ != name@ ==> exists|k: int|
                    0 <= k < kept@.len() && kept@[k]@ == #[trigger] names@[j]@,
        decreases names.len() - i,
    {
        if !str_equal(names[i].as_str(), name) {
            let ghost prev = kept@;
            let c = names[i].clone();
            kept.push(c);
            proof {
                assert forall|a: int, b: int| 0 <= a < b < kept@.len() implies kept@[a]@
                    != kept@[b]@ by {
                    if b == prev.len() {
                        assert(kept@[a] == prev[a]);
                        let j = choose|j: int| 0 <= j < i && names@[j]@ == prev[a]@;
                        assert(names@[j]@ != names@[i as int]@);
                    } else {
                        assert(kept@[a] == prev[a] && kept@[b] == prev[b]);
                    }
                }
                assert forall|k: int| 0 <= k < kept@.len() implies exists|j: int|
                    0 <= j < i + 1 && names@[j]@ == #[trigger] kept@[k]@ by {
                    if k == prev.len() {
                        assert(names@[i as int]@ == kept@[k]@);
                    } else {
                        assert(kept@[k] == prev[k]);
                        let j = choose|j: int| 0 <= j < i && names@[j]@ == prev[k]@;
                    }
                }
                assert forall|j: int| 0 <= j < i + 1 && names@[j]@ != name@ implies exists|k: int|
                    0 <= k < kept@.len() && kept@[k]@ == #[trigger] names@[j]@ by {
                    if j == i {
                        assert(kept@[prev.len() as int]@ == names@[j]@);
                    } else {
                        let k = choose|k: int| 0 <= k < prev.len() && prev[k]@ == names@[j]@;
                        assert(kept@[k] == prev[k]);
                    }
                }
            }
        }
        i = i + 1;
    }
    proof {
        let after = string_views(kept@);
        assert forall|x: Seq<char>| after.to_set().contains(x) == before.to_set().remove(
            name@,
        ).contains(x) by {
            if after.contains(x) {
                let k = choose|k: int| 0 <= k < after.len() && after[k] == x;
                assert(kept@[k]@ == x);
                let j = choose|j: int| 0 <= j < names@.len() && names@[j]@ == kept@[k]@;
                assert(before[j] == x);
            }
            if before.contains(x) && x != name@ {
                let j = choose|j: int| 0 <= j < before.len() && before[j] == x;
                assert(names@[j]@ == x);
                let k = choose|k: int| 0 <= k < kept@.len() && kept@[k]@ == names@[j]@;
                assert(after[k] == x);
            }
        }
        assert(after.to_set() =~= before.to_set().remove(name@));
    }
    *names = kept;
}

/// With distinct keys, the key texts of a list are as many as its keys.
proof fn lemma_distinct_views(keys: Seq<String>)
    requires
        distinct_keys(keys),
    ensures
        string_views(keys).no_duplicates(),
        string_views(keys).to_set().len() == keys.len(),
{
    let v = string_views(keys);
    assert forall|a: int, b: int| 0 <= a < v.len() && 0 <= b < v.len() && a != b implies v[a]
        != v[b] by {
        if a < b {
            assert(keys[a]@ != keys[b]@);
        } else {
            assert(keys[b]@ != keys[a]@);
        }
    }
    v.unique_seq_to_set();
}

/// The domain of the map a key list gives is the set of its key texts.
proof fn lemma_map_dom<V>(keys: Seq<String>, vals: Seq<V>)
    ensures
        map_of(keys, vals).dom() == string_views(keys).to_set(),
{
    let v = string_views(keys);
    assert forall|k: Seq<char>| map_of(keys, vals).dom().contains(k) == v.to_set().contains(k) by {
        if v.contains(k) {
            let j = choose|j: int| 0 <= j < v.len() && v[j] == k;
            assert(keys[j]@ == k);
        }
        if map_of(keys, vals).dom().contains(k) {
            let j = choose|j: int| 0 <= j < keys.len() && keys[j]@ == k;
            assert(v[j] == k);
        }
    }
    assert(map_of(keys, vals).dom() =~= v.to_set());
}

impl<O> OpRegistry<O> {
    /// No name is listed twice as `novalue`.
    #[verifier::type_invariant]
    spec fn wf(self) -> bool {
        distinct_keys(self.novalue@)
    }
}

impl<O: CustomOp + Clone> Clone for OpRegistry<O> {
    /// A copy with the same names, each operator cloned.
    fn clone(&self) -> (r: Self)
        ensures
            r.spec_novalue() == self.spec_novalue(),
            r.spec_ops().dom() == self.spec_ops().dom(),
            forall|name: Seq<char>|
                #![trigger r.spec_ops()[name]]
                self.spec_ops().contains_key(name) ==> cloned::<O>(
                    self.spec_ops()[name],
                    r.spec_ops()[name],
                ),
    {
        proof {
            use_type_invariant(self);
        }
        let novalue = self.novalue.clone();
        assert(novalue@ =~= self.novalue@);
        let ops = self.ops.clone();
        let _ = self.ops.keys();
        proof {
            lemma_map_dom(ops.spec_keys(), ops.spec_vals());
            lemma_map_dom(self.ops.spec_keys(), self.ops.spec_vals());
            assert forall|name: Seq<char>|
                #![trigger ops.spec_map()[name]]
                self.ops.spec_map().contains_key(name) implies cloned::<O>(
                self.ops.spec_map()[name],
                ops.spec_map()[name],
            ) by {
                let keys = self.ops.spec_keys();
                let i = choose|i: int| 0 <= i < keys.len() && keys[i]@ == name;
                assert(self.ops.spec_map()[name] == self.ops.spec_vals()[i]);
                assert(ops.spec_map()[name] == ops.spec_vals()[i]);
                assert(cloned::<O>(self.ops.spec_vals()[i], ops.spec_vals()[i]));
            }
        }
        OpRegistry { ops, novalue }
    }
}

impl<O: CustomOp> OpRegistry<O> {
    /// The registered operators, by name.
    pub closed spec fn spec_ops(self) -> Map<Seq<char>, O> {
        self.ops.spec_map()
    }

    /// The names registered as taking no right-hand value.
    pub closed spec fn spec_novalue(self) -> Set<Seq<char>> {
        string_views(self.novalue@).to_set()
    }

    /// An empty registry.
    pub fn new() -> (r: Self)
        ensures
            r.spec_ops() == Map::<Seq<char>, O>::empty(),
            r.spec_novalue() == Set::<Seq<char>>::empty(),
    {
        let r = OpRegistry { ops: FieldMap::new(), novalue: Vec::new() };
        assert(r.spec_novalue() =~= Set::<Seq<char>>::empty());
        r
    }

    /// Registers `op` under `name`, replacing an operator of the same name,
    /// and records whether it takes a right-hand value.
    pub fn register(&mut self, name: &str, novalue: bool, op: O)
        ensures
            final(self).spec_ops() == old(self).spec_ops().insert(name@, op),
            final(self).spec_novalue() == (if novalue {
                old(self).spec_novalue().insert(name@)
            } else {
                old(self).spec_novalue().remove(name@)
            }),
    {
        proof {
            use_type_invariant(&*self);
        }
        let mut taken = OpRegistry::new();
        std::mem::swap(&mut taken, self);
        let OpRegistry { mut ops, novalue: mut names } = taken;
        if novalue {
            add_name(&mut names, name);
        } else {
            remove_name(&mut names, name);
        }
        ops.insert(string_of(name), op);
        *self = OpRegistry { ops, novalue: names };
    }

    /// Whether two registries register the same names.
    pub fn same_names(&self, other: &Self) -> (r: bool)
        ensures
            r == (self.spec_ops().dom() == other.spec_ops().dom()),
    {
        let a = self.ops.keys();
        let b = other.ops.keys();
        proof {
            lemma_map_dom(self.ops.spec_keys(), self.ops.spec_vals());
            lemma_map_dom(other.ops.spec_keys(), other.ops.spec_vals());
        }
        let mut i: usize = 0;
        while i < a.len()
            invariant
                i <= a@.len(),
                a@ == self.ops.spec_keys(),
                forall|k: int| 0 <= k < i ==> other.spec_ops().contains_key(#[trigger] a@[k]@),
            decreases a.len() - i,
        {
            if !other.ops.contains_key(a[i].as_str()) {
                proof {
                    assert(string_views(a@)[i as int] == a@[i as int]@);
                    assert(self.spec_ops().dom().contains(a@[i as int]@));
                }
                return false;
            }
            i = i + 1;
        }
        let mut j: usize = 0;
        while j < b.len()
            invariant
                j <= b@.len(),
                b@ == other.ops.spec_keys(),
                forall|k: int| 0 <= k < j ==> self.spec_ops().contains_key(#[trigger] b@[k]@),
            decreases b.len() - j,
        {
            if !self.ops.contains_key(b[j].as_str()) {
                proof {
                    assert(string_views(b@)[j as int] == b@[j as int]@);
                    assert(other.spec_ops().dom().contains(b@[j as int]@));
                }
                return false;
            }
            j = j + 1;
        }
        proof {
            assert forall|q: Seq<char>| self.spec_ops().dom().contains(q) == other.spec_ops().dom().contains(q) by {
                if self.spec_ops().dom().contains(q) {
                    let k = choose|k: int| 0 <= k < string_views(a@).len() && string_views(a@)[k] == q;
                    assert(a@[k]@ == q);
                }
                if other.spec_ops().dom().contains(q) {
                    let k = choose|k: int| 0 <= k < string_views(b@).len() && string_views(b@)[k] == q;
                    assert(b@[k]@ == q);
                }
            }
            assert(self.spec_ops().dom() =~= other.spec_ops().dom());
        }
        true
    }

    /// Applies the operator registered under `name`; `None` when there is
    /// none.
    pub fn evaluate(&self, name: &str, field_value: &Value, query_value: &Value) -> (r: Option<
        bool,
    >)
        ensures
            r == (if self.spec_ops().contains_key(name@) {
                Some(self.spec_ops()[name@].spec_apply(field_value@, query_value@))
            } else {
                None
            }),
    {
        match self.ops.get(name) {
            Some(op) => Some(op.apply(field_value, query_value)),
            None => None,
        }
    }

    /// Whether an operator is registered under `name`.
    pub fn contains(&self, name: &str) -> (r: bool)
        ensures
            r == self.spec_ops().contains_key(name@),
    {
        self.ops.contains_key(name)
    }

    /// The number of registered operators.
    pub fn len(&self) -> (r: usize)
        ensures
            r == self.spec_ops().dom().len(),
    {
        let keys = self.ops.keys();
        proof {
            lemma_map_dom(self.ops.spec_keys(), self.ops.spec_vals());
            lemma_distinct_views(self.ops.spec_keys());
        }
        self.ops.len()
    }

    /// Whether no operator is registered.
    pub fn is_empty(&self) -> (r: bool)
        ensures
            r == (self.spec_ops().dom().len() == 0),
    {
        self.len() == 0
    }

    /// The names of the registered operators, each once.
    pub fn operator_names(&self) -> (r: Vec<String>)
        ensures
            string_views(r@).to_set() == self.spec_ops().dom(),
            string_views(r@).no_duplicates(),
    {
        let keys = self.ops.keys();
        let mut r: Vec<String> = Vec::new();
        let mut i: usize = 0;
        while i < keys.len()
            invariant
                i <= keys@.len(),
                r@.len() == i,
                forall|k: int| 0 <= k < i ==> r@[k]@ == keys@[k]@,
            decreases keys.len() - i,
        {
            r.push(keys[i].clone());
            i = i + 1;
        }
        proof {
            assert(string_views(r@) =~= string_views(keys@));
            lemma_map_dom(self.ops.spec_keys(), self.ops.spec_vals());
            lemma_distinct_views(self.ops.spec_keys());
        }
        r
    }

    /// Whether `name` was registered as taking no right-hand value.
    pub fn is_novalue(&self, name: &str) -> (r: bool)
        ensures
            r == self.spec_novalue().contains(name@),
    {
        let mut i: usize = 0;
        while i < self.novalue.len()
            invariant
                i <= self.novalue@.len(),
                forall|k: int| 0 <= k < i ==> self.novalue@[k]@ != name@,
            decreases self.novalue.len() - i,
        {
            if str_equal(self.novalue[i].as_str(), name) {
                assert(string_views(self.novalue@)[i as int] == name@);
                return true;
            }
            i = i + 1;
        }
        assert forall|k: int| 0 <= k < string_views(self.novalue@).len() implies string_views(
            self.novalue@,
        )[k] != name@ by {
            assert(string_views(self.novalue@)[k] == self.novalue@[k]@);
        }
        false
    }

    /// The names registered as taking no right-hand value, each once.
    pub fn novalue_ops(&self) -> (r: Vec<String>)
        ensures
            string_views(r@).to_set() == self.spec_novalue(),
            string_views(r@).no_duplicates(),
    {
        proof {
            use_type_invariant(self);
            lemma_distinct_views(self.novalue@);
        }
        let r = self.novalue.clone();
        assert(r@ =~= self.novalue@);
        r
    }

    /// Adds every operator of `other`; on a name registered in both, the
    /// registration of `other` replaces the existing one, its operator and
    /// whether it takes a value alike.
    pub fn merge(&mut self, other: Self)
        ensures
            final(self).spec_ops() == old(self).spec_ops().union_prefer_right(other.spec_ops()),
            final(self).spec_novalue() == old(self).spec_novalue().difference(
                other.spec_ops().dom(),
            ).union(other.spec_novalue()),
    {
        proof {
            use_type_invariant(&*self);
            use_type_invariant(&other);
        }
        let ghost other_ops = other.spec_ops();
        let ghost other_novalue = other.spec_novalue();
        let OpRegistry { ops: other_map, novalue: other_names } = other;
        let (keys, vals) = other_map.into_parts();
        let mut taken = OpRegistry::new();
        std::mem::swap(&mut taken, self);
        let OpRegistry { mut ops, novalue: mut names } = taken;
        let ghost start_ops = ops.spec_map();
        let ghost start_names = string_views(names@).to_set();
        let mut vals = vals;
        let ghost all_vals = vals@;
        // Walk the entries of `other` from the last to the first, so that
        // the values come off the end of `vals`.
        let n = keys.len();
        let mut j: usize = n;
        while j > 0
            invariant
                j <= n,
                n == keys@.len(),
                keys@.len() == all_vals.len(),
                vals@ == all_vals.take(j as int),
                distinct_keys(keys@),
                other_ops == map_of(keys@, all_vals),
                ops.spec_map() == start_ops.union_prefer_right(
                    map_of(keys@.skip(j as int), all_vals.skip(j as int)),
                ),
            decreases j,
        {
            j = j - 1;
            let v = vals.pop().unwrap();
            assert(v == all_vals[j as int]);
            let k = keys[j].clone();
            let ghost before = ops.spec_map();
            ops.insert(k, v);
            proof {
                let ks = keys@.skip(j as int);
                let vs = all_vals.skip(j as int);
                let ks1 = keys@.skip(j + 1);
                let vs1 = all_vals.skip(j + 1);
                let m = map_of(ks, vs);
                let m1 = map_of(ks1, vs1);
                assert(ks.len() == vs.len());
                assert(distinct_keys(ks)) by {
                    assert forall|a: int, b: int| 0 <= a < b < ks.len() implies ks[a]@
                        != ks[b]@ by {
                        assert(ks[a] == keys@[j + a] && ks[b] == keys@[j + b]);
                    }
                }
                assert(m =~= m1.insert(keys@[j as int]@, all_vals[j as int])) by {
                    assert forall|q: Seq<char>| #[trigger] m.contains_key(q) == m1.insert(
                        keys@[j as int]@,
                        all_vals[j as int],
                    ).contains_key(q) by {
                        if m.contains_key(q) {
                            let t = choose|t: int| 0 <= t < ks.len() && ks[t]@ == q;
                            if t > 0 {
                                assert(ks1[t - 1] == ks[t]);
                            } else {
                                assert(ks[0] == keys@[j as int]);
                            }
                        }
                        if m1.contains_key(q) {
                            let t = choose|t: int| 0 <= t < ks1.len() && ks1[t]@ == q;
                            assert(ks[t + 1] == ks1[t]);
                        }
                        if q == keys@[j as int]@ {
                            assert(ks[0] == keys@[j as int]);
                        }
                    }
                    assert forall|q: Seq<char>| #[trigger] m.contains_key(q) implies m[q] == m1.insert(
                        keys@[j as int]@,
                        all_vals[j as int],
                    )[q] by {
                        let t = choose|t: int| 0 <= t < ks.len() && ks[t]@ == q;
                        lemma_map_of_at(ks, vs, t);
                        if t == 0 {
                            assert(ks[0] == keys@[j as int]);
                            assert(vs[0] == all_vals[j as int]);
                        } else {
                            assert(ks1[t - 1] == ks[t]);
                            assert(vs1[t - 1] == vs[t]);
                            assert(distinct_keys(ks1)) by {
                                assert forall|a: int, b: int| 0 <= a < b < ks1.len() implies ks1[a]@
                                    != ks1[b]@ by {
                                    assert(ks1[a] == ks[a + 1] && ks1[b] == ks[b + 1]);
                                }
                            }
                            lemma_map_of_at(ks1, vs1, t - 1);
                            assert(ks[t]@ != ks[0]@);
                        }
                    }
                }
                assert(ops.spec_map() =~= start_ops.union_prefer_right(m));
            }
        }
        proof {
            assert(keys@.skip(0) =~= keys@);
            assert(all_vals.skip(0) =~= all_vals);
        }
        let mut u: usize = 0;
        let ghost kv = string_views(keys@);
        while u < keys.len()
            invariant
                u <= keys@.len(),
                kv == string_views(keys@),
                distinct_keys(names@),
                string_views(names@).to_set() == start_names.difference(kv.take(u as int).to_set()),
            decreases keys.len() - u,
        {
            remove_name(&mut names, keys[u].as_str());
            proof {
                assert(kv.take(u + 1) =~= kv.take(u as int).push(kv[u as int]));
                kv.take(u as int).lemma_push_to_set_commute(kv[u as int]);
                assert(string_views(names@).to_set() =~= start_names.difference(
                    kv.take(u + 1).to_set(),
                ));
            }
            u = u + 1;
        }
        proof {
            assert(kv.take(kv.len() as int) =~= kv);
            lemma_map_dom(keys@, all_vals);
        }
        let ghost start_names = start_names.difference(other_ops.dom());
        let mut t: usize = 0;
        let ghost on = string_views(other_names@);
        while t < other_names.len()
            invariant
                t <= other_names@.len(),
                on == string_views(other_names@),
                distinct_keys(names@),
                string_views(names@).to_set() == start_names.union(on.take(t as int).to_set()),
            decreases other_names.len() - t,
        {
            let ghost before = string_views(names@).to_set();
            add_name(&mut names, other_names[t].as_str());
            proof {
                assert(on.take(t + 1) =~= on.take(t as int).push(on[t as int]));
                on.take(t as int).lemma_push_to_set_commute(on[t as int]);
                assert(string_views(names@).to_set() =~= start_names.union(
                    on.take(t + 1).to_set(),
                ));
            }
            t = t + 1;
        }
        proof {
            assert(on.take(on.len() as int) =~= on);
            assert(string_views(names@).to_set() =~= start_names.union(other_novalue));
        }
        *self = OpRegistry { ops, novalue: names };
    }
}

} // verus!
