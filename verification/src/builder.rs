//! Fluent construction of [`DnfQuery`] values.
use vstd::prelude::*;

use crate::convert::IntoValue;
use crate::custom::{CustomOp, NoCustomOp, OpRegistry};
use crate::error::{DnfError, ErrorModel};
use crate::query::{
    all_registered, at, cond_views, conj_views, custom_name_of, earlier, field_error, result_error,
    validation_result,
    first_field_error, first_unregistered, registry_ops, unregistered, CondModel, Condition, Conjunction, DnfEvaluable,
    DnfQuery,
};
use crate::operator::Op;
use crate::parser::{parse_query_text, parse_with_fields};
use crate::schema::{FieldInfo, FieldKind};
use crate::value::string_views;

verus! {

/// Builds the conditions of one conjunction.
#[derive(Debug)]
pub struct ConjunctionBuilder {
    conditions: Vec<Condition>,
}

impl View for ConjunctionBuilder {
    type V = Seq<CondModel>;

    closed spec fn view(&self) -> Seq<CondModel> {
        cond_views(self.conditions@)
    }
}

impl ConjunctionBuilder {
    /// A builder with no conditions.
    pub fn new() -> (r: Self)
        ensures
            r@ == Seq::<CondModel>::empty(),
    {
        let r = ConjunctionBuilder { conditions: Vec::new() };
        assert(r@ =~= Seq::<CondModel>::empty());
        r
    }

    /// Adds the condition `field_name operator value`.
    pub fn and<V: IntoValue>(self, field_name: &str, operator: Op, value: V) -> (r: Self)
        ensures
            r@ == self@.push(
                CondModel { field: field_name@, op: operator@, value: value.value_view() },
            ),
    {
        let ConjunctionBuilder { mut conditions } = self;
        let ghost before = conditions@;
        let c = Condition::new(field_name, operator, value.into_value());
        conditions.push(c);
        assert(cond_views(conditions@) =~= cond_views(before).push(c@));
        ConjunctionBuilder { conditions }
    }

    /// The conjunction of the conditions added so far.
    pub fn build(self) -> (r: Conjunction)
        ensures
            r@ == self@,
    {
        Conjunction::from_conditions(self.conditions)
    }
}

impl Default for ConjunctionBuilder {
    fn default() -> (r: Self)
        ensures
            r@ == Seq::<CondModel>::empty(),
    {
        ConjunctionBuilder::new()
    }
}

/// The conjunctions of a query that have at least one condition, in order.
pub open spec fn nonempty_conjunctions(q: Seq<Seq<CondModel>>) -> Seq<Seq<CondModel>>
    decreases q.len(),
{
    if q.len() == 0 {
        q
    } else {
        let rest = nonempty_conjunctions(q.drop_last());
        if q.last().len() > 0 {
            rest.push(q.last())
        } else {
            rest
        }
    }
}

/// Fluent builder for [`DnfQuery`]: an OR of conjunctions, each built with a
/// [`ConjunctionBuilder`].
#[derive(Debug)]
pub struct QueryBuilder<O = NoCustomOp> {
    conjunctions: Vec<Conjunction>,
    custom_ops: Option<OpRegistry<O>>,
}

impl<O> View for QueryBuilder<O> {
    type V = Seq<Seq<CondModel>>;

    closed spec fn view(&self) -> Seq<Seq<CondModel>> {
        conj_views(self.conjunctions@)
    }
}

impl DnfQuery<NoCustomOp> {
    /// A new builder for a query without custom operators.
    pub fn builder() -> (r: QueryBuilder<NoCustomOp>)
        ensures
            r@ == Seq::<Seq<CondModel>>::empty(),
            r.spec_registry() is None,
    {
        QueryBuilder::new()
    }
}

impl<O: CustomOp> QueryBuilder<O> {
    /// The registry the builder carries.
    pub closed spec fn spec_registry(self) -> Option<OpRegistry<O>> {
        self.custom_ops
    }

    /// The custom operators the builder carries.
    pub open spec fn spec_ops(self) -> Option<Map<Seq<char>, O>> {
        registry_ops(self.spec_registry())
    }

    /// An empty builder.
    pub fn new() -> (r: Self)
        ensures
            r@ == Seq::<Seq<CondModel>>::empty(),
            r.spec_registry() is None,
    {
        let r = QueryBuilder { conjunctions: Vec::new(), custom_ops: None };
        assert(r@ =~= Seq::<Seq<CondModel>>::empty());
        r
    }

    /// Adds a conjunction, built by `f` from an empty [`ConjunctionBuilder`].
    pub fn or<F: FnOnce(ConjunctionBuilder) -> ConjunctionBuilder>(self, f: F) -> (r: Self)
        requires
            forall|b: ConjunctionBuilder| b@.len() == 0 ==> call_requires(f, (b,)),
        ensures
            exists|a: ConjunctionBuilder, b: ConjunctionBuilder|
                a@.len() == 0 && call_ensures(f, (a,), b) && r@ == self@.push(b@),
            r.spec_registry() == self.spec_registry(),
    {
        let QueryBuilder { mut conjunctions, custom_ops } = self;
        let ghost before = conjunctions@;
        let start = ConjunctionBuilder::new();
        let ghost a = start;
        let built = f(start);
        let c = built.build();
        conjunctions.push(c);
        assert(conj_views(conjunctions@) =~= conj_views(before).push(built@));
        QueryBuilder { conjunctions, custom_ops }
    }

    /// Adds every conjunction of `query`, and its custom operators (the
    /// query's operator winning on a shared name).
    pub fn or_query(self, query: DnfQuery<O>) -> (r: Self)
        ensures
            r@ == self@ + query@,
            r.spec_ops() == (match (self.spec_ops(), query.spec_ops()) {
                (Some(a), Some(b)) => Some(a.union_prefer_right(b)),
                (None, Some(b)) => Some(b),
                (a, None) => a,
            }),
    {
        let QueryBuilder { mut conjunctions, custom_ops } = self;
        let ghost qv = query@;
        let ghost qops = query.spec_ops();
        let (mut more, other_ops) = query.into_parts();
        let ghost first = conjunctions@;
        let ghost second = more@;
        conjunctions.append(&mut more);
        assert(conj_views(conjunctions@) =~= conj_views(first) + conj_views(second));
        let merged = match (custom_ops, other_ops) {
            (Some(mut a), Some(b)) => {
                a.merge(b);
                Some(a)
            },
            (None, Some(b)) => Some(b),
            (a, None) => a,
        };
        QueryBuilder { conjunctions, custom_ops: merged }
    }

    /// Replaces the custom-operator registry.
    pub fn with_custom_ops(self, registry: OpRegistry<O>) -> (r: Self)
        ensures
            r@ == self@,
            r.spec_registry() == Some(registry),
    {
        QueryBuilder { conjunctions: self.conjunctions, custom_ops: Some(registry) }
    }

    /// Registers a custom operator, creating the registry if there is none.
    pub fn with_custom_op(self, name: &str, novalue: bool, op: O) -> (r: Self)
        ensures
            r@ == self@,
            r.spec_registry() matches Some(reg) && reg.spec_ops() == (match self.spec_registry() {
                Some(old_reg) => old_reg.spec_ops(),
                None => Map::<Seq<char>, O>::empty(),
            }).insert(name@, op) && reg.spec_novalue() == (match self.spec_registry() {
                Some(old_reg) => if novalue {
                    old_reg.spec_novalue().insert(name@)
                } else {
                    old_reg.spec_novalue().remove(name@)
                },
                None => if novalue {
                    Set::<Seq<char>>::empty().insert(name@)
                } else {
                    Set::<Seq<char>>::empty().remove(name@)
                },
            }),
    {
        let QueryBuilder { conjunctions, custom_ops } = self;
        let mut reg = match custom_ops {
            Some(reg) => reg,
            None => OpRegistry::new(),
        };
        reg.register(name, novalue, op);
        QueryBuilder { conjunctions, custom_ops: Some(reg) }
    }

    /// Checks the conditions against the target type, as
    /// [`DnfQuery::validate`] does: custom operators first, then, in order,
    /// that the type knows every field path (see
    /// [`DnfEvaluable::validate_field_path`]) and that map-targeted values go
    /// to map fields.
    pub fn validate<T: DnfEvaluable>(self) -> (r: Result<Self, DnfError>)
        ensures
            validation_result::<T, O>(self.spec_ops(), self@, result_error(r)),
            r matches Ok(b) ==> b@ == self@ && b.spec_registry() == self.spec_registry(),
    {
        let mut i: usize = 0;
        while i < self.conjunctions.len()
            invariant
                i <= self@.len(),
                forall|i2: int, j2: int|
                    at(self@, i2, j2) && i2 < i ==> !unregistered(
                        self.spec_ops(),
                        #[trigger] self@[i2][j2],
                    ),
            decreases self.conjunctions.len() - i,
        {
            let conds = self.conjunctions[i].conditions();
            assert(self@[i as int] == cond_views(conds@));
            let mut j: usize = 0;
            while j < conds.len()
                invariant
                    i < self@.len(),
                    self@[i as int] == cond_views(conds@),
                    j <= conds@.len(),
                    forall|i2: int, j2: int|
                        at(self@, i2, j2) && earlier(i2, j2, i as int, j as int) ==> !unregistered(
                            self.spec_ops(),
                            #[trigger] self@[i2][j2],
                        ),
                decreases conds.len() - j,
            {
                assert(self@[i as int][j as int] == conds@[j as int]@);
                match conds[j].operator().custom_name() {
                    Some(name) => {
                        let registered = match &self.custom_ops {
                            Some(reg) => reg.contains(name),
                            None => false,
                        };
                        if !registered {
                            let e = DnfError::UnregisteredCustomOp {
                                operator_name: crate::text::string_of(name),
                            };
                            assert(first_unregistered(self.spec_ops(), self@, i as int, j as int));
                            return Err(e);
                        }
                    },
                    None => {},
                }
                j = j + 1;
            }
            i = i + 1;
        }
        let mut i: usize = 0;
        while i < self.conjunctions.len()
            invariant
                i <= self@.len(),
                all_registered(self.spec_ops(), self@),
                forall|i2: int, j2: int|
                    at(self@, i2, j2) && i2 < i ==> field_error::<T>(#[trigger] self@[i2][j2])
                        is None,
            decreases self.conjunctions.len() - i,
        {
            let conds = self.conjunctions[i].conditions();
            assert(self@[i as int] == cond_views(conds@));
            let mut j: usize = 0;
            while j < conds.len()
                invariant
                    i < self@.len(),
                    self@[i as int] == cond_views(conds@),
                    j <= conds@.len(),
                    all_registered(self.spec_ops(), self@),
                    forall|i2: int, j2: int|
                        at(self@, i2, j2) && earlier(i2, j2, i as int, j as int)
                            ==> field_error::<T>(#[trigger] self@[i2][j2]) is None,
                decreases conds.len() - j,
            {
                assert(self@[i as int][j as int] == conds@[j as int]@);
                let cond = &conds[j];
                match T::validate_field_path(cond.field_name()) {
                    None => {
                        let e = DnfError::UnknownField {
                            field_name: crate::text::string_of(cond.field_name()),
                            position: None,
                        };
                        assert(first_field_error::<T>(self@, i as int, j as int));
                        return Err(e);
                    },
                    Some(kind) => {
                        if cond.value().is_map_targeted() && kind != FieldKind::Mapping {
                            let e = DnfError::InvalidMapTarget {
                                field_name: crate::text::string_of(cond.field_name()),
                                field_kind: kind,
                            };
                            assert(first_field_error::<T>(self@, i as int, j as int));
                            return Err(e);
                        }
                    },
                }
                j = j + 1;
            }
            i = i + 1;
        }
        Ok(self)
    }

    /// The query of the conjunctions added so far, leaving out empty ones,
    /// with the builder's custom operators.
    pub fn build(self) -> (r: DnfQuery<O>)
        ensures
            r@ == nonempty_conjunctions(self@),
            r.spec_registry() == self.spec_registry(),
    {
        let QueryBuilder { conjunctions, custom_ops } = self;
        let ghost all = conj_views(conjunctions@);
        let mut kept: Vec<Conjunction> = Vec::new();
        let mut rest = conjunctions;
        // Move the conjunctions out from the back, then restore their order.
        let mut rev: Vec<Conjunction> = Vec::new();
        let n = rest.len();
        while rest.len() > 0
            invariant
                rest@.len() <= n,
                n == all.len(),
                conj_views(rest@) == all.take(rest@.len() as int),
                rev@.len() == n - rest@.len(),
                forall|k: int| 0 <= k < rev@.len() ==> #[trigger] rev@[k]@ == all[n - 1 - k],
            decreases rest@.len(),
        {
            let ghost before = rest@;
            let c = rest.pop().unwrap();
            assert(c@ == all[before.len() - 1]) by {
                assert(conj_views(before)[before.len() - 1] == all.take(before.len() as int)[before.len() - 1]);
            }
            assert(conj_views(rest@) =~= all.take(rest@.len() as int)) by {
                assert forall|k: int| 0 <= k < rest@.len() implies conj_views(rest@)[k] == all[k] by {
                    assert(rest@[k] == before[k]);
                    assert(conj_views(before)[k] == all.take(before.len() as int)[k]);
                }
            }
            rev.push(c);
        }
        let mut i: usize = 0;
        assert(all.take(0) =~= Seq::<Seq<CondModel>>::empty());
        assert(conj_views(kept@) =~= nonempty_conjunctions(all.take(0)));
        while rev.len() > 0
            invariant
                n == all.len(),
                rev@.len() + i == n,
                forall|k: int| 0 <= k < rev@.len() ==> #[trigger] rev@[k]@ == all[n - 1 - k],
                conj_views(kept@) == nonempty_conjunctions(all.take(i as int)),
            decreases rev@.len(),
        {
            let ghost before = rev@;
            let c = rev.pop().unwrap();
            assert(c@ == all[i as int]);
            assert(all.take(i + 1).drop_last() =~= all.take(i as int));
            assert(all.take(i + 1).last() == all[i as int]);
            if !c.is_empty() {
                let ghost prev = kept@;
                kept.push(c);
                assert(conj_views(kept@) =~= conj_views(prev).push(all[i as int]));
            }
            assert forall|k: int| 0 <= k < rev@.len() implies #[trigger] rev@[k]@ == all[n - 1 - k] by {
                assert(rev@[k] == before[k]);
            }
            i = i + 1;
        }
        assert(all.take(n as int) =~= all);
        let query = DnfQuery::from_conjunctions(kept);
        match custom_ops {
            Some(reg) => query.set_custom_ops(reg),
            None => query,
        }
    }
}

impl<O: CustomOp> Default for QueryBuilder<O> {
    fn default() -> (r: Self)
        ensures
            r@ == Seq::<Seq<CondModel>>::empty(),
            r.spec_registry() is None,
    {
        QueryBuilder::new()
    }
}

impl QueryBuilder<NoCustomOp> {
    /// Parses a query text against the fields of `T`.
    pub fn from_query<T: DnfEvaluable>(query: &str) -> (r: Result<DnfQuery<NoCustomOp>, DnfError>)
        ensures
            match parse_query_text(query@, T::spec_fields(), None, Set::empty()) {
                Ok(q) => r matches Ok(d) && d@ == q && d.spec_registry() is None,
                Err(e) => r matches Err(x) && x@ == e,
            },
    {
        let fields = T::fields();
        parse_with_fields(query, fields.as_slice(), None, None)
    }
}

impl<O: CustomOp> QueryBuilder<O> {
    /// Parses a query text against the fields of `T`, recognizing the
    /// builder's custom operators, and adds its conjunctions.
    pub fn parse<T: DnfEvaluable>(self, query: &str) -> (r: Result<Self, DnfError>)
        ensures
            match parse_query_text(
                query@,
                T::spec_fields(),
                match self.spec_ops() {
                    Some(m) => Some(m.dom()),
                    None => None,
                },
                match self.spec_registry() {
                    Some(reg) => reg.spec_novalue(),
                    None => Set::empty(),
                },
            ) {
                Ok(q) => r matches Ok(b) && b@ == self@ + q && b.spec_registry()
                    == self.spec_registry(),
                Err(e) => r matches Err(x) && x@ == e,
            },
    {
        let fields = T::fields();
        let (names, novalue) = match &self.custom_ops {
            Some(reg) => (Some(reg.operator_names()), Some(reg.novalue_ops())),
            None => (None, None),
        };
        let names_slice: Option<&[String]> = match &names {
            Some(v) => Some(v.as_slice()),
            None => None,
        };
        let novalue_slice: Option<&[String]> = match &novalue {
            Some(v) => Some(v.as_slice()),
            None => None,
        };
        proof {
            if let Some(v) = names_slice {
                assert(crate::token::custom_names(names_slice) == Some(string_views(v@).to_set()));
            }
        }
        let parsed: DnfQuery<O> = match parse_with_fields(
            query,
            fields.as_slice(),
            names_slice,
            novalue_slice,
        ) {
            Ok(q) => q,
            Err(e) => {
                return Err(e);
            },
        };
        let (mut more, _) = parsed.into_parts();
        let QueryBuilder { mut conjunctions, custom_ops } = self;
        let ghost first = conjunctions@;
        let ghost second = more@;
        conjunctions.append(&mut more);
        assert(conj_views(conjunctions@) =~= conj_views(first) + conj_views(second));
        Ok(QueryBuilder { conjunctions, custom_ops })
    }
}

} // verus!
