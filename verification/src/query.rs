//! DNF queries: conditions, conjunctions (AND of conditions) and queries
//! (OR of conjunctions), with their evaluation against a target.
use vstd::prelude::*;

use crate::custom::{CustomOp, NoCustomOp, OpRegistry};
use crate::error::{DnfError, ErrorModel};
use crate::operator::{op_text, BaseModel, Op, OpModel};
use crate::schema::{FieldInfo, FieldKind};
use crate::text::{push_str, str_equal, string_of};
use crate::value::{string_views, Value, ValueModel};

verus! {

/// Types that can be evaluated against a [`DnfQuery`].
///
/// An implementation answers, for a field name, whether an operator holds
/// against a value, and can hand out the field's value for custom
/// operators. Unknown fields never hold and have no value.
pub trait DnfEvaluable: Sized {
    /// Whether `op` holds for the field named `field` against `value`.
    ///
    /// An implementation that states no model of its own keeps this
    /// default, under which nothing holds.
    open spec fn spec_field_holds(&self, field: Seq<char>, op: OpModel, value: ValueModel) -> bool {
        false
    }

    /// The value of the field named `field`, if there is such a field
    /// (by default, none).
    open spec fn spec_field_value(&self, field: Seq<char>) -> Option<ValueModel> {
        None
    }

    /// The queryable fields of the type (by default, none).
    open spec fn spec_fields() -> Seq<FieldInfo> {
        Seq::empty()
    }

    /// Evaluates one condition against `self`.
    fn evaluate_field(&self, field_name: &str, operator: &Op, value: &Value) -> (r: bool)
        ensures
            r == self.spec_field_holds(field_name@, operator@, value@),
    ;

    /// The field's value as a [`Value`], for custom operators.
    fn field_value(&self, field_name: &str) -> (r: Option<Value>)
        ensures
            match r {
                Some(v) => self.spec_field_value(field_name@) == Some(v@),
                None => self.spec_field_value(field_name@) is None,
            },
    ;

    /// Metadata for every queryable field.
    fn fields() -> (r: Vec<FieldInfo>)
        ensures
            r@ == Self::spec_fields(),
    ;

    /// The kind of the field at `path`, or `None` when it names no field:
    /// the kind of the first field of [`fields`](Self::fields) named like the
    /// path's root segment (see [`root_field_kind`]). An implementation may
    /// replace this body, keeping its result.
    fn validate_field_path(path: &str) -> (r: Option<FieldKind>)
        ensures
            r == kind_named(Self::spec_fields(), root_segment(path@)),
    {
        let fields = Self::fields();
        root_field_kind(fields.as_slice(), path)
    }
}

/// The kind of the field a (possibly dotted) path names on a type: that of
/// the first field of the type's list named like the path's root segment.
pub open spec fn path_kind<T: DnfEvaluable>(path: Seq<char>) -> Option<FieldKind> {
    kind_named(T::spec_fields(), root_segment(path))
}

/// The part of a path before its first `.` (the whole path when it has none).
pub open spec fn root_segment(path: Seq<char>) -> Seq<char>
    decreases path.len(),
{
    if path.len() == 0 {
        path
    } else if path[0] == '.' {
        Seq::empty()
    } else {
        seq![path[0]] + root_segment(path.drop_first())
    }
}

/// The kind of the first field in `fields` whose name is `name`.
pub open spec fn kind_named(fields: Seq<FieldInfo>, name: Seq<char>) -> Option<FieldKind>
    decreases fields.len(),
{
    if fields.len() == 0 {
        None
    } else if fields[0].name@ == name {
        Some(fields[0].kind)
    } else {
        kind_named(fields.drop_first(), name)
    }
}

/// The kind of the field that the root segment of `path` names: how a type
/// without nested fields validates a path.
pub fn root_field_kind(fields: &[FieldInfo], path: &str) -> (r: Option<FieldKind>)
    ensures
        r == kind_named(fields@, root_segment(path@)),
{
    let cs = crate::text::chars_of(path);
    let mut root: Vec<char> = Vec::new();
    let mut i: usize = 0;
    assert(cs@.skip(0) =~= cs@);
    assert(root@ + root_segment(cs@.skip(0)) =~= root_segment(cs@));
    while i < cs.len() && cs[i] != '.'
        invariant
            i <= cs@.len(),
            root_segment(cs@) == root@ + root_segment(cs@.skip(i as int)),
        decreases cs.len() - i,
    {
        assert(cs@.skip(i as int)[0] == cs@[i as int]);
        assert(cs@.skip(i as int).drop_first() =~= cs@.skip(i + 1));
        root.push(cs[i]);
        assert(root_segment(cs@.skip(i as int)) =~= seq![cs@[i as int]] + root_segment(
            cs@.skip(i + 1),
        ));
        i = i + 1;
    }
    proof {
        if i < cs@.len() {
            assert(cs@.skip(i as int)[0] == '.');
        }
        assert(root@ =~= root_segment(cs@));
    }
    let mut k: usize = 0;
    assert(fields@.skip(0) =~= fields@);
    while k < fields.len()
        invariant
            k <= fields@.len(),
            root@ == root_segment(path@),
            kind_named(fields@, root@) == kind_named(fields@.skip(k as int), root@),
        decreases fields.len() - k,
    {
        let name = crate::text::chars_of(fields[k].name);
        assert(fields@.skip(k as int)[0] == fields@[k as int]);
        if crate::text::chars_equal(name.as_slice(), root.as_slice()) {
            return Some(fields[k].kind);
        }
        assert(fields@.skip(k as int).drop_first() =~= fields@.skip(k + 1));
        k = k + 1;
    }
    None
}

/// The mathematical content of a [`Condition`].
pub struct CondModel {
    pub field: Seq<char>,
    pub op: OpModel,
    pub value: ValueModel,
}

/// A single `field operator value` test.
#[derive(Debug)]
pub struct Condition {
    field_name: String,
    operator: Op,
    value: Value,
}

impl View for Condition {
    type V = CondModel;

    closed spec fn view(&self) -> CondModel {
        CondModel { field: self.field_name@, op: self.operator@, value: self.value@ }
    }
}

/// The models of a list of conditions.
pub open spec fn cond_views(cs: Seq<Condition>) -> Seq<CondModel> {
    cs.map_values(|c: Condition| c@)
}

impl Condition {
    /// A condition on `field_name`.
    pub fn new(field_name: &str, operator: Op, value: Value) -> (r: Condition)
        ensures
            r@ == (CondModel { field: field_name@, op: operator@, value: value@ }),
    {
        Condition { field_name: string_of(field_name), operator, value }
    }

    /// The field name this condition tests.
    pub fn field_name(&self) -> (r: &str)
        ensures
            r@ == self@.field,
    {
        self.field_name.as_str()
    }

    /// The operator of this condition.
    pub fn operator(&self) -> (r: &Op)
        ensures
            r@ == self@.op,
    {
        &self.operator
    }

    /// The right-hand value of this condition.
    pub fn value(&self) -> (r: &Value)
        ensures
            r@ == self@.value,
    {
        &self.value
    }

    /// Evaluates the condition against a target through
    /// [`DnfEvaluable::evaluate_field`] (custom operators are not dispatched
    /// here).
    pub fn evaluate<T: DnfEvaluable>(&self, target: &T) -> (r: bool)
        ensures
            r == target.spec_field_holds(self@.field, self@.op, self@.value),
    {
        target.evaluate_field(self.field_name.as_str(), &self.operator, &self.value)
    }
}

impl Clone for Condition {
    fn clone(&self) -> (r: Self)
        ensures
            r@ == self@,
    {
        let field_name = self.field_name.clone();
        Condition { field_name, operator: self.operator.clone(), value: self.value.clone() }
    }
}

/// Copies of a list of conditions.
fn clone_conditions(cs: &Vec<Condition>) -> (r: Vec<Condition>)
    ensures
        cond_views(r@) == cond_views(cs@),
{
    let mut r: Vec<Condition> = Vec::new();
    let mut i: usize = 0;
    while i < cs.len()
        invariant
            i <= cs@.len(),
            r@.len() == i,
            forall|k: int| 0 <= k < i ==> r@[k]@ == cs@[k]@,
        decreases cs.len() - i,
    {
        r.push(cs[i].clone());
        i = i + 1;
    }
    assert(cond_views(r@) =~= cond_views(cs@));
    r
}

/// An AND of [`Condition`]s.
#[derive(Debug)]
pub struct Conjunction {
    conditions: Vec<Condition>,
}

impl View for Conjunction {
    type V = Seq<CondModel>;

    closed spec fn view(&self) -> Seq<CondModel> {
        cond_views(self.conditions@)
    }
}

/// The models of a list of conjunctions.
pub open spec fn conj_views(cs: Seq<Conjunction>) -> Seq<Seq<CondModel>> {
    cs.map_values(|c: Conjunction| c@)
}

/// Every condition of a conjunction holds for `target` under
/// [`DnfEvaluable::evaluate_field`].
pub open spec fn conj_fields_hold<T: DnfEvaluable>(target: T, cs: Seq<CondModel>) -> bool {
    forall|i: int|
        0 <= i < cs.len() ==> target.spec_field_holds(
            #[trigger] cs[i].field,
            cs[i].op,
            cs[i].value,
        )
}

impl Conjunction {
    /// A conjunction of the given conditions.
    pub fn from_conditions(conditions: Vec<Condition>) -> (r: Conjunction)
        ensures
            r@ == cond_views(conditions@),
    {
        Conjunction { conditions }
    }

    /// The conditions joined by `AND`.
    pub fn conditions(&self) -> (r: &[Condition])
        ensures
            cond_views(r@) == self@,
    {
        self.conditions.as_slice()
    }

    /// Every condition holds (an empty conjunction holds vacuously).
    pub fn evaluate<T: DnfEvaluable>(&self, target: &T) -> (r: bool)
        ensures
            r == conj_fields_hold(*target, self@),
    {
        let mut i: usize = 0;
        while i < self.conditions.len()
            invariant
                i <= self.conditions@.len(),
                forall|k: int|
                    0 <= k < i ==> target.spec_field_holds(
                        #[trigger] self@[k].field,
                        self@[k].op,
                        self@[k].value,
                    ),
            decreases self.conditions.len() - i,
        {
            if !self.conditions[i].evaluate(target) {
                assert(self@[i as int] == self.conditions@[i as int]@);
                return false;
            }
            assert(self@[i as int] == self.conditions@[i as int]@);
            i = i + 1;
        }
        true
    }

    /// The number of conditions.
    pub fn len(&self) -> (r: usize)
        ensures
            r == self@.len(),
    {
        self.conditions.len()
    }

    /// Whether the conjunction has no conditions.
    pub fn is_empty(&self) -> (r: bool)
        ensures
            r == (self@.len() == 0),
    {
        self.conditions.len() == 0
    }
}

impl Clone for Conjunction {
    fn clone(&self) -> (r: Self)
        ensures
            r@ == self@,
    {
        Conjunction { conditions: clone_conditions(&self.conditions) }
    }
}

impl Default for Conjunction {
    fn default() -> (r: Conjunction)
        ensures
            r@ == Seq::<CondModel>::empty(),
    {
        let r = Conjunction { conditions: Vec::new() };
        assert(r@ =~= Seq::<CondModel>::empty());
        r
    }
}

// ---------------------------------------------------------------------
// Semantics of a query
// ---------------------------------------------------------------------
/// Whether a condition holds for `target`, given the query's custom
/// operators (if it has a registry).
///
/// A built-in operator goes to [`DnfEvaluable::evaluate_field`]. A custom
/// operator that is not registered (no registry, or a name the registry
/// lacks) never holds, in either form. A registered one decides on the
/// field's value, negated for the inverse form; without a field value the
/// condition holds exactly when the operator is the inverse form.
pub open spec fn cond_holds<T: DnfEvaluable, O: CustomOp>(
    ops: Option<Map<Seq<char>, O>>,
    target: T,
    c: CondModel,
) -> bool {
    match c.op.base {
        BaseModel::Custom(name) => match ops {
            Some(m) => if m.contains_key(name) {
                match target.spec_field_value(c.field) {
                    Some(fv) => {
                        let outcome = m[name].spec_apply(fv, c.value);
                        if c.op.inverse {
                            !outcome
                        } else {
                            outcome
                        }
                    },
                    None => c.op.inverse,
                }
            } else {
                false
            },
            None => false,
        },
        _ => target.spec_field_holds(c.field, c.op, c.value),
    }
}

/// Every condition of a conjunction holds.
pub open spec fn conj_holds<T: DnfEvaluable, O: CustomOp>(
    ops: Option<Map<Seq<char>, O>>,
    target: T,
    cs: Seq<CondModel>,
) -> bool {
    forall|i: int| 0 <= i < cs.len() ==> #[trigger] cond_holds(ops, target, cs[i])
}

/// Some conjunction of the query holds.
pub open spec fn query_holds<T: DnfEvaluable, O: CustomOp>(
    ops: Option<Map<Seq<char>, O>>,
    target: T,
    q: Seq<Seq<CondModel>>,
) -> bool {
    exists|i: int| 0 <= i < q.len() && #[trigger] conj_holds(ops, target, q[i])
}

/// A query in disjunctive normal form: an OR of [`Conjunction`]s, with an
/// optional registry of custom operators.
#[derive(Debug)]
pub struct DnfQuery<O = NoCustomOp> {
    conjunctions: Vec<Conjunction>,
    custom_ops: Option<OpRegistry<O>>,
}

impl<O> View for DnfQuery<O> {
    type V = Seq<Seq<CondModel>>;

    closed spec fn view(&self) -> Seq<Seq<CondModel>> {
        conj_views(self.conjunctions@)
    }
}

/// The operators of an optional registry.
pub open spec fn registry_ops<O: CustomOp>(r: Option<OpRegistry<O>>) -> Option<
    Map<Seq<char>, O>,
> {
    match r {
        Some(reg) => Some(reg.spec_ops()),
        None => None,
    }
}

impl<O: CustomOp> DnfQuery<O> {
    /// The custom operators the query carries, if it has a registry.
    pub open spec fn spec_ops(self) -> Option<Map<Seq<char>, O>> {
        registry_ops(self.spec_registry())
    }

    /// The registry the query carries.
    pub closed spec fn spec_registry(self) -> Option<OpRegistry<O>> {
        self.custom_ops
    }

    /// A query of the given conjunctions, without custom operators.
    pub fn from_conjunctions(conjunctions: Vec<Conjunction>) -> (r: Self)
        ensures
            r@ == conj_views(conjunctions@),
            r.spec_registry() is None,
    {
        DnfQuery { conjunctions, custom_ops: None }
    }

    /// The query with `registry` attached.
    pub fn set_custom_ops(self, registry: OpRegistry<O>) -> (r: Self)
        ensures
            r@ == self@,
            r.spec_registry() == Some(registry),
    {
        DnfQuery { conjunctions: self.conjunctions, custom_ops: Some(registry) }
    }

    /// The conjunctions joined by `OR`.
    pub fn conjunctions(&self) -> (r: &[Conjunction])
        ensures
            conj_views(r@) == self@,
    {
        self.conjunctions.as_slice()
    }

    /// Takes the query apart into its conjunctions and registry.
    pub fn into_parts(self) -> (r: (Vec<Conjunction>, Option<OpRegistry<O>>))
        ensures
            conj_views(r.0@) == self@,
            r.1 == self.spec_registry(),
    {
        (self.conjunctions, self.custom_ops)
    }

    /// The attached custom-operator registry.
    pub fn custom_ops(&self) -> (r: Option<&OpRegistry<O>>)
        ensures
            match r {
                Some(reg) => self.spec_registry() == Some(*reg),
                None => self.spec_registry() is None,
            },
    {
        match &self.custom_ops {
            Some(reg) => Some(reg),
            None => None,
        }
    }

    /// Whether a custom operator named `name` is registered.
    pub fn has_custom_op(&self, name: &str) -> (r: bool)
        ensures
            r == (match self.spec_ops() {
                Some(m) => m.contains_key(name@),
                None => false,
            }),
    {
        match &self.custom_ops {
            Some(reg) => reg.contains(name),
            None => false,
        }
    }

    /// Evaluates one condition, dispatching custom operators through the
    /// registry.
    fn evaluate_condition<T: DnfEvaluable>(&self, cond: &Condition, target: &T) -> (r: bool)
        ensures
            r == cond_holds(self.spec_ops(), *target, cond@),
    {
        match cond.operator.custom_name() {
            Some(name) => {
                match &self.custom_ops {
                    Some(reg) => {
                        if !reg.contains(name) {
                            return false;
                        }
                        match target.field_value(cond.field_name.as_str()) {
                            Some(fv) => {
                                let outcome = match reg.evaluate(name, &fv, &cond.value) {
                                    Some(b) => b,
                                    None => false,
                                };
                                if cond.operator.is_inverse() {
                                    !outcome
                                } else {
                                    outcome
                                }
                            },
                            None => cond.operator.is_inverse(),
                        }
                    },
                    None => false,
                }
            },
            None => target.evaluate_field(cond.field_name.as_str(), &cond.operator, &cond.value),
        }
    }

    /// Every condition of `conj` holds (an empty conjunction holds).
    fn evaluate_conjunction<T: DnfEvaluable>(&self, conj: &Conjunction, target: &T) -> (r: bool)
        ensures
            r == conj_holds(self.spec_ops(), *target, conj@),
    {
        let mut i: usize = 0;
        while i < conj.conditions.len()
            invariant
                i <= conj.conditions@.len(),
                forall|k: int| 0 <= k < i ==> #[trigger] cond_holds(self.spec_ops(), *target, conj@[k]),
            decreases conj.conditions.len() - i,
        {
            assert(conj@[i as int] == conj.conditions@[i as int]@);
            if !self.evaluate_condition(&conj.conditions[i], target) {
                return false;
            }
            i = i + 1;
        }
        true
    }

    /// Whether some conjunction holds for `target`.
    pub fn evaluate<T: DnfEvaluable>(&self, target: &T) -> (r: bool)
        ensures
            r == query_holds(self.spec_ops(), *target, self@),
    {
        let mut i: usize = 0;
        while i < self.conjunctions.len()
            invariant
                i <= self.conjunctions@.len(),
                forall|k: int| 0 <= k < i ==> !#[trigger] conj_holds(self.spec_ops(), *target, self@[k]),
            decreases self.conjunctions.len() - i,
        {
            assert(self@[i as int] == self.conjunctions@[i as int]@);
            if self.evaluate_conjunction(&self.conjunctions[i], target) {
                return true;
            }
            i = i + 1;
        }
        false
    }

    /// The number of conjunctions.
    pub fn len(&self) -> (r: usize)
        ensures
            r == self@.len(),
    {
        self.conjunctions.len()
    }

    /// Whether the query has no conjunctions.
    pub fn is_empty(&self) -> (r: bool)
        ensures
            r == (self@.len() == 0),
    {
        self.conjunctions.len() == 0
    }

    /// Whether the query has no conjunctions and so matches nothing.
    pub fn is_always_false(&self) -> (r: bool)
        ensures
            r == (self@.len() == 0),
    {
        self.conjunctions.len() == 0
    }

    /// Whether some conjunction is empty and so matches everything.
    pub fn is_always_true(&self) -> (r: bool)
        ensures
            r == (exists|i: int| 0 <= i < self@.len() && #[trigger] self@[i].len() == 0),
    {
        let mut i: usize = 0;
        while i < self.conjunctions.len()
            invariant
                i <= self.conjunctions@.len(),
                forall|k: int| 0 <= k < i ==> #[trigger] self@[k].len() != 0,
            decreases self.conjunctions.len() - i,
        {
            assert(self@[i as int] == self.conjunctions@[i as int]@);
            if self.conjunctions[i].is_empty() {
                return true;
            }
            i = i + 1;
        }
        false
    }
}


// ---------------------------------------------------------------------
// Validation
// ---------------------------------------------------------------------
/// `(i, j)` addresses a condition of the query.
pub open spec fn at(q: Seq<Seq<CondModel>>, i: int, j: int) -> bool {
    0 <= i < q.len() && 0 <= j < q[i].len()
}

/// Condition `(i2, j2)` comes before condition `(i, j)`.
pub open spec fn earlier(i2: int, j2: int, i: int, j: int) -> bool {
    i2 < i || (i2 == i && j2 < j)
}

/// The condition uses a custom operator that is not registered.
pub open spec fn unregistered<O: CustomOp>(ops: Option<Map<Seq<char>, O>>, c: CondModel) -> bool {
    match c.op.base {
        BaseModel::Custom(name) => match ops {
            Some(m) => !m.contains_key(name),
            None => true,
        },
        _ => false,
    }
}

/// The name of a custom operator (empty for built-in operators).
pub open spec fn custom_name_of(c: CondModel) -> Seq<char> {
    match c.op.base {
        BaseModel::Custom(name) => name,
        _ => Seq::empty(),
    }
}

/// No condition uses an unregistered custom operator.
pub open spec fn all_registered<O: CustomOp>(
    ops: Option<Map<Seq<char>, O>>,
    q: Seq<Seq<CondModel>>,
) -> bool {
    forall|i: int, j: int| at(q, i, j) ==> !unregistered(ops, #[trigger] q[i][j])
}

/// Condition `(i, j)` is the first one with an unregistered custom operator.
pub open spec fn first_unregistered<O: CustomOp>(
    ops: Option<Map<Seq<char>, O>>,
    q: Seq<Seq<CondModel>>,
    i: int,
    j: int,
) -> bool {
    &&& at(q, i, j)
    &&& unregistered(ops, q[i][j])
    &&& forall|i2: int, j2: int|
        at(q, i2, j2) && earlier(i2, j2, i, j) ==> !unregistered(ops, #[trigger] q[i2][j2])
}

/// What is wrong with a condition for a target type: a field it does not
/// have, or a map-targeted value on a field that is not a map.
pub open spec fn field_error<T: DnfEvaluable>(c: CondModel) -> Option<ErrorModel> {
    match path_kind::<T>(c.field) {
        None => Some(ErrorModel::UnknownField { field_name: c.field, position: None }),
        Some(k) => if c.value.is_map_target() && k != FieldKind::Mapping {
            Some(ErrorModel::InvalidMapTarget { field_name: c.field, field_kind: k })
        } else {
            None
        },
    }
}

/// Condition `(i, j)` is the first one with a field error.
pub open spec fn first_field_error<T: DnfEvaluable>(q: Seq<Seq<CondModel>>, i: int, j: int) -> bool {
    &&& at(q, i, j)
    &&& field_error::<T>(q[i][j]) is Some
    &&& forall|i2: int, j2: int|
        at(q, i2, j2) && earlier(i2, j2, i, j) ==> field_error::<T>(#[trigger] q[i2][j2]) is None
}

/// A result with its success value left out and its error as a model.
pub open spec fn result_error<X>(r: Result<X, DnfError>) -> Result<(), ErrorModel> {
    match r {
        Ok(_) => Ok(()),
        Err(e) => Err(e@),
    }
}

/// What validating the conditions of `q` against a target type gives:
/// success when every custom operator is registered and every field is
/// known and suits its value; otherwise the error of the first condition
/// with an unregistered custom operator or, when there is none, of the
/// first condition with a field error.
pub open spec fn validation_result<T: DnfEvaluable, O: CustomOp>(
    ops: Option<Map<Seq<char>, O>>,
    q: Seq<Seq<CondModel>>,
    r: Result<(), ErrorModel>,
) -> bool {
    match r {
        Ok(_) => {
            &&& all_registered(ops, q)
            &&& forall|i: int, j: int| at(q, i, j) ==> field_error::<T>(#[trigger] q[i][j]) is None
        },
        Err(e) => {
            ||| exists|i: int, j: int|
                first_unregistered(ops, q, i, j) && e == (ErrorModel::UnregisteredCustomOp {
                    operator_name: custom_name_of(#[trigger] q[i][j]),
                })
            ||| all_registered(ops, q) && exists|i: int, j: int|
                first_field_error::<T>(q, i, j) && field_error::<T>(#[trigger] q[i][j]) == Some(e)
        },
    }
}

// ---------------------------------------------------------------------
// Inspection and rendering
// ---------------------------------------------------------------------
/// The field names of a conjunction's conditions.
pub open spec fn conj_fields(cs: Seq<CondModel>) -> Seq<Seq<char>> {
    cs.map_values(|c: CondModel| c.field)
}

/// The field names of all conditions of a query, in order.
pub open spec fn all_fields(q: Seq<Seq<CondModel>>) -> Seq<Seq<char>>
    decreases q.len(),
{
    if q.len() == 0 {
        Seq::empty()
    } else {
        all_fields(q.drop_last()) + conj_fields(q.last())
    }
}

/// The number of conditions of a query.
pub open spec fn total_conditions(q: Seq<Seq<CondModel>>) -> nat
    decreases q.len(),
{
    if q.len() == 0 {
        0
    } else {
        total_conditions(q.drop_last()) + q.last().len()
    }
}

/// Texts joined with a separator.
pub open spec fn join_with(items: Seq<Seq<char>>, sep: Seq<char>) -> Seq<char>
    decreases items.len(),
{
    if items.len() == 0 {
        Seq::empty()
    } else if items.len() == 1 {
        items[0]
    } else {
        join_with(items.drop_last(), sep) + sep + items.last()
    }
}

/// One more item on a join.
pub proof fn lemma_join_step(items: Seq<Seq<char>>, sep: Seq<char>, i: int)
    requires
        0 <= i < items.len(),
    ensures
        join_with(items.take(i + 1), sep) == (if i == 0 {
            items[0]
        } else {
            join_with(items.take(i), sep) + sep + items[i]
        }),
{
    assert(items.take(i + 1).drop_last() =~= items.take(i));
}

/// How a condition is written: `field op value`.
pub open spec fn cond_text(c: CondModel) -> Seq<char> {
    c.field + " "@ + op_text(c.op) + " "@ + c.value.display()
}

/// How a conjunction is written: `true` when empty, else its conditions
/// joined by ` AND ` in parentheses.
pub open spec fn conj_text(cs: Seq<CondModel>) -> Seq<char> {
    if cs.len() == 0 {
        "true"@
    } else {
        "("@ + join_with(cs.map_values(|c: CondModel| cond_text(c)), " AND "@) + ")"@
    }
}

/// How a query is written: `false` when empty, else its conjunctions joined
/// by ` OR `.
pub open spec fn query_text(q: Seq<Seq<CondModel>>) -> Seq<char> {
    if q.len() == 0 {
        "false"@
    } else {
        join_with(q.map_values(|cs: Seq<CondModel>| conj_text(cs)), " OR "@)
    }
}

impl Condition {
    /// Appends how the condition is written.
    pub fn push_text(&self, out: &mut String)
        ensures
            final(out)@ == old(out)@ + cond_text(self@),
    {
        push_str(out, self.field_name.as_str());
        push_str(out, " ");
        let o = self.operator.to_string();
        push_str(out, o.as_str());
        push_str(out, " ");
        self.value.push_display(out);
        proof {
            reveal_strlit(" ");
        }
        assert(out@ =~= old(out)@ + cond_text(self@));
    }

    /// How the condition is written: `field op value`.
    pub fn to_string(&self) -> (r: String)
        ensures
            r@ == cond_text(self@),
    {
        let mut s = String::new();
        self.push_text(&mut s);
        assert(s@ =~= cond_text(self@));
        s
    }
}

impl Conjunction {
    /// Appends how the conjunction is written.
    pub fn push_text(&self, out: &mut String)
        ensures
            final(out)@ == old(out)@ + conj_text(self@),
    {
        if self.conditions.len() == 0 {
            push_str(out, "true");
            return;
        }
        let ghost texts = self@.map_values(|c: CondModel| cond_text(c));
        let ghost start = old(out)@;
        push_str(out, "(");
        let mut i: usize = 0;
        while i < self.conditions.len()
            invariant
                i <= self.conditions@.len(),
                texts == self@.map_values(|c: CondModel| cond_text(c)),
                out@ == start + "("@ + join_with(texts.take(i as int), " AND "@),
            decreases self.conditions.len() - i,
        {
            proof {
                lemma_join_step(texts, " AND "@, i as int);
                assert(self@[i as int] == self.conditions@[i as int]@);
            }
            if i > 0 {
                push_str(out, " AND ");
            }
            self.conditions[i].push_text(out);
            proof {
                if i == 0 {
                    assert(texts.take(0) =~= Seq::<Seq<char>>::empty());
                }
            }
            assert(out@ =~= start + "("@ + join_with(texts.take(i + 1), " AND "@));
            i = i + 1;
        }
        push_str(out, ")");
        assert(texts.take(self@.len() as int) =~= texts);
        assert(out@ =~= start + conj_text(self@));
    }

    /// How the conjunction is written.
    pub fn to_string(&self) -> (r: String)
        ensures
            r@ == conj_text(self@),
    {
        let mut s = String::new();
        self.push_text(&mut s);
        assert(s@ =~= conj_text(self@));
        s
    }
}

impl<O: CustomOp> DnfQuery<O> {
    /// Checks that every custom operator the query uses is registered; the
    /// error names the first one that is not.
    pub fn validate_custom_ops(&self) -> (r: Result<(), DnfError>)
        ensures
            match r {
                Ok(()) => all_registered(self.spec_ops(), self@),
                Err(e) => exists|i: int, j: int|
                    first_unregistered(self.spec_ops(), self@, i, j) && e@
                        == (ErrorModel::UnregisteredCustomOp {
                        operator_name: custom_name_of(#[trigger] self@[i][j]),
                    }),
            },
    {
        let mut i: usize = 0;
        while i < self.conjunctions.len()
            invariant
                i <= self@.len(),
                forall|i2: int, j2: int|
                    at(self@, i2, j2) && i2 < i ==> !unregistered(
                        self.spec_ops(),
                        #[trigger] self@[i2][j2],
                    ),
            decreases self.conjunctions.len() - i,
        {
            let conj = &self.conjunctions[i];
            assert(self@[i as int] == conj@);
            let mut j: usize = 0;
            while j < conj.conditions.len()
                invariant
                    i < self@.len(),
                    self@[i as int] == conj@,
                    j <= conj@.len(),
                    forall|i2: int, j2: int|
                        at(self@, i2, j2) && earlier(i2, j2, i as int, j as int) ==> !unregistered(
                            self.spec_ops(),
                            #[trigger] self@[i2][j2],
                        ),
                decreases conj.conditions.len() - j,
            {
                let cond = &conj.conditions[j];
                assert(conj@[j as int] == cond@);
                match cond.operator.custom_name() {
                    Some(name) => {
                        if !self.has_custom_op(name) {
                            let e = DnfError::UnregisteredCustomOp { operator_name: string_of(name) };
                            assert(first_unregistered(self.spec_ops(), self@, i as int, j as int));
                            return Err(e);
                        }
                    },
                    None => {},
                }
                j = j + 1;
            }
            i = i + 1;
        }
        Ok(())
    }

    /// Checks the query against the target type: custom operators first (as
    /// [`validate_custom_ops`](Self::validate_custom_ops)), then, in order,
    /// that every field exists and that map-targeted values go to map fields.
    pub fn validate<T: DnfEvaluable>(self) -> (r: Result<Self, DnfError>)
        ensures
            validation_result::<T, O>(self.spec_ops(), self@, result_error(r)),
            r matches Ok(q) ==> q@ == self@ && q.spec_registry() == self.spec_registry(),
    {
        match self.validate_custom_ops() {
            Err(e) => {
                return Err(e);
            },
            Ok(()) => {},
        }
        let mut i: usize = 0;
        while i < self.conjunctions.len()
            invariant
                i <= self@.len(),
                all_registered(self.spec_ops(), self@),
                forall|i2: int, j2: int|
                    at(self@, i2, j2) && i2 < i ==> field_error::<T>(#[trigger] self@[i2][j2]) is None,
            decreases self.conjunctions.len() - i,
        {
            let conj = &self.conjunctions[i];
            assert(self@[i as int] == conj@);
            let mut j: usize = 0;
            while j < conj.conditions.len()
                invariant
                    i < self@.len(),
                    self@[i as int] == conj@,
                    j <= conj@.len(),
                    all_registered(self.spec_ops(), self@),
                    forall|i2: int, j2: int|
                        at(self@, i2, j2) && earlier(i2, j2, i as int, j as int)
                            ==> field_error::<T>(#[trigger] self@[i2][j2]) is None,
                decreases conj.conditions.len() - j,
            {
                let cond = &conj.conditions[j];
                assert(conj@[j as int] == cond@);
                match T::validate_field_path(cond.field_name.as_str()) {
                    None => {
                        let e = DnfError::UnknownField {
                            field_name: cond.field_name.clone(),
                            position: None,
                        };
                        assert(first_field_error::<T>(self@, i as int, j as int));
                        return Err(e);
                    },
                    Some(kind) => {
                        if cond.value.is_map_targeted() && kind != FieldKind::Mapping {
                            let e = DnfError::InvalidMapTarget {
                                field_name: cond.field_name.clone(),
                                field_kind: kind,
                            };
                            assert(first_field_error::<T>(self@, i as int, j as int));
                            return Err(e);
                        }
                    },
                }
                j = j + 1;
            }
            i = i + 1;
        }
        Ok(self)
    }

    /// The query OR-ed with `other`: the conjunctions of both, in order, and
    /// the registries of both, `other`'s operator winning on a shared name.
    pub fn merge(self, other: Self) -> (r: Self)
        ensures
            r@ == self@ + other@,
            r.spec_ops() == (match (self.spec_ops(), other.spec_ops()) {
                (Some(a), Some(b)) => Some(a.union_prefer_right(b)),
                (None, Some(b)) => Some(b),
                (a, None) => a,
            }),
    {
        let DnfQuery { mut conjunctions, custom_ops } = self;
        let DnfQuery { conjunctions: mut more, custom_ops: other_ops } = other;
        let ghost first = conjunctions@;
        let ghost second = more@;
        conjunctions.append(&mut more);
        assert(conj_views(conjunctions@) =~= conj_views(first) + conj_views(second));
        let merged = match (custom_ops, other_ops) {
            (Some(mut a), Some(b)) => {
                a.merge(b);
                Some(a)
            },
            (None, Some(b)) => Some(b),
            (a, None) => a,
        };
        DnfQuery { conjunctions, custom_ops: merged }
    }

    /// The field names of all conditions, in order, with repetitions.
    pub fn field_names(&self) -> (r: Vec<String>)
        ensures
            string_views(r@) == all_fields(self@),
    {
        let mut out: Vec<String> = Vec::new();
        let mut i: usize = 0;
        while i < self.conjunctions.len()
            invariant
                i <= self@.len(),
                string_views(out@) == all_fields(self@.take(i as int)),
            decreases self.conjunctions.len() - i,
        {
            let conj = &self.conjunctions[i];
            assert(self@[i as int] == conj@);
            let ghost base = string_views(out@);
            let mut j: usize = 0;
            while j < conj.conditions.len()
                invariant
                    j <= conj@.len(),
                    string_views(out@) == base + conj_fields(conj@.take(j as int)),
                decreases conj.conditions.len() - j,
            {
                assert(conj@[j as int] == conj.conditions@[j as int]@);
                let ghost prev = out@;
                let name = conj.conditions[j].field_name.clone();
                out.push(name);
                assert(string_views(out@) =~= string_views(prev).push(conj@[j as int].field));
                assert(conj_fields(conj@.take(j + 1)) =~= conj_fields(conj@.take(j as int)).push(
                    conj@[j as int].field,
                ));
                assert(string_views(out@) =~= base + conj_fields(conj@.take(j + 1)));
                j = j + 1;
            }
            assert(conj@.take(conj@.len() as int) =~= conj@);
            assert(self@.take(i + 1).drop_last() =~= self@.take(i as int));
            assert(string_views(out@) =~= all_fields(self@.take(i + 1)));
            i = i + 1;
        }
        assert(self@.take(self@.len() as int) =~= self@);
        out
    }

    /// The total number of conditions.
    pub fn condition_count(&self) -> (r: usize)
        requires
            total_conditions(self@) <= usize::MAX,
        ensures
            r == total_conditions(self@),
    {
        let mut n: usize = 0;
        let mut i: usize = 0;
        while i < self.conjunctions.len()
            invariant
                i <= self@.len(),
                n == total_conditions(self@.take(i as int)),
                total_conditions(self@) <= usize::MAX,
            decreases self.conjunctions.len() - i,
        {
            assert(self@[i as int] == self.conjunctions@[i as int]@);
            assert(self@.take(i + 1).drop_last() =~= self@.take(i as int));
            proof {
                lemma_total_prefix(self@, i + 1);
            }
            n = n + self.conjunctions[i].len();
            i = i + 1;
        }
        assert(self@.take(self@.len() as int) =~= self@);
        n
    }

    /// Whether some condition tests the field `name`.
    pub fn uses_field(&self, name: &str) -> (r: bool)
        ensures
            r == (exists|i: int, j: int| at(self@, i, j) && (#[trigger] self@[i][j]).field == name@),
    {
        let mut i: usize = 0;
        while i < self.conjunctions.len()
            invariant
                i <= self@.len(),
                forall|i2: int, j2: int|
                    at(self@, i2, j2) && i2 < i ==> (#[trigger] self@[i2][j2]).field != name@,
            decreases self.conjunctions.len() - i,
        {
            let conj = &self.conjunctions[i];
            assert(self@[i as int] == conj@);
            let mut j: usize = 0;
            while j < conj.conditions.len()
                invariant
                    i < self@.len(),
                    self@[i as int] == conj@,
                    j <= conj@.len(),
                    forall|i2: int, j2: int|
                        at(self@, i2, j2) && earlier(i2, j2, i as int, j as int)
                            ==> (#[trigger] self@[i2][j2]).field != name@,
                decreases conj.conditions.len() - j,
            {
                assert(conj@[j as int] == conj.conditions@[j as int]@);
                if str_equal(conj.conditions[j].field_name.as_str(), name) {
                    assert(at(self@, i as int, j as int));
                    return true;
                }
                j = j + 1;
            }
            i = i + 1;
        }
        false
    }

    /// How the query is written: conjunctions joined by ` OR `, or `false`
    /// when there is none.
    pub fn to_string(&self) -> (r: String)
        ensures
            r@ == query_text(self@),
    {
        let mut out = String::new();
        if self.conjunctions.len() == 0 {
            push_str(&mut out, "false");
            assert(out@ =~= query_text(self@));
            return out;
        }
        let ghost texts = self@.map_values(|cs: Seq<CondModel>| conj_text(cs));
        let mut i: usize = 0;
        while i < self.conjunctions.len()
            invariant
                i <= self@.len(),
                texts == self@.map_values(|cs: Seq<CondModel>| conj_text(cs)),
                out@ == join_with(texts.take(i as int), " OR "@),
            decreases self.conjunctions.len() - i,
        {
            proof {
                lemma_join_step(texts, " OR "@, i as int);
                assert(self@[i as int] == self.conjunctions@[i as int]@);
                if i == 0 {
                    assert(texts.take(0) =~= Seq::<Seq<char>>::empty());
                }
            }
            if i > 0 {
                push_str(&mut out, " OR ");
            }
            self.conjunctions[i].push_text(&mut out);
            assert(out@ =~= join_with(texts.take(i + 1), " OR "@));
            i = i + 1;
        }
        assert(texts.take(self@.len() as int) =~= texts);
        out
    }
}

/// A prefix of a query has no more conditions than the query.
proof fn lemma_total_prefix(q: Seq<Seq<CondModel>>, k: int)
    requires
        0 <= k <= q.len(),
    ensures
        total_conditions(q.take(k)) <= total_conditions(q),
    decreases q.len(),
{
    if k < q.len() {
        assert(q.drop_last().take(k) =~= q.take(k));
        lemma_total_prefix(q.drop_last(), k);
    } else {
        assert(q.take(k) =~= q);
    }
}

impl<O: CustomOp> Default for DnfQuery<O> {
    fn default() -> (r: Self)
        ensures
            r@ == Seq::<Seq<CondModel>>::empty(),
            r.spec_registry() is None,
    {
        let r = DnfQuery { conjunctions: Vec::new(), custom_ops: None };
        assert(r@ =~= Seq::<Seq<CondModel>>::empty());
        r
    }
}

impl<O: CustomOp + Clone> Clone for DnfQuery<O> {
    fn clone(&self) -> (r: Self)
        ensures
            r@ == self@,
            match (r.spec_registry(), self.spec_registry()) {
                (Some(a), Some(b)) => a.spec_novalue() == b.spec_novalue() && a.spec_ops().dom()
                    == b.spec_ops().dom() && forall|name: Seq<char>|
                    #![trigger a.spec_ops()[name]]
                    b.spec_ops().contains_key(name) ==> cloned::<O>(
                        b.spec_ops()[name],
                        a.spec_ops()[name],
                    ),
                (None, None) => true,
                _ => false,
            },
    {
        let mut conjunctions: Vec<Conjunction> = Vec::new();
        let mut i: usize = 0;
        while i < self.conjunctions.len()
            invariant
                i <= self.conjunctions@.len(),
                conjunctions@.len() == i,
                forall|k: int| 0 <= k < i ==> conjunctions@[k]@ == self.conjunctions@[k]@,
            decreases self.conjunctions.len() - i,
        {
            conjunctions.push(self.conjunctions[i].clone());
            i = i + 1;
        }
        assert(conj_views(conjunctions@) =~= conj_views(self.conjunctions@));
        let custom_ops = match &self.custom_ops {
            Some(reg) => Some(reg.clone()),
            None => None,
        };
        DnfQuery { conjunctions, custom_ops }
    }
}

// ---------------------------------------------------------------------
// Equality
// ---------------------------------------------------------------------
/// Two conditions are equal: same field, same operator, equal values.
pub open spec fn cond_equal(a: CondModel, b: CondModel) -> bool {
    a.field == b.field && a.op == b.op && crate::compare::values_equal(a.value, b.value)
}

/// Two conjunctions are equal condition by condition.
pub open spec fn conj_equal(a: Seq<CondModel>, b: Seq<CondModel>) -> bool {
    a.len() == b.len() && forall|i: int| 0 <= i < a.len() ==> cond_equal(#[trigger] a[i], b[i])
}

/// Two queries are equal conjunction by conjunction (their custom
/// operators are not compared).
pub open spec fn query_equal(a: Seq<Seq<CondModel>>, b: Seq<Seq<CondModel>>) -> bool {
    a.len() == b.len() && forall|i: int| 0 <= i < a.len() ==> conj_equal(#[trigger] a[i], b[i])
}

impl Condition {
    /// Whether two conditions are equal (see [`cond_equal`]).
    pub fn equals(&self, other: &Condition) -> (r: bool)
        ensures
            r == cond_equal(self@, other@),
    {
        str_equal(self.field_name.as_str(), other.field_name.as_str()) && self.operator.same(
            &other.operator,
        ) && self.value.equals(&other.value)
    }
}

impl Conjunction {
    /// Whether two conjunctions are equal (see [`conj_equal`]).
    pub fn equals(&self, other: &Conjunction) -> (r: bool)
        ensures
            r == conj_equal(self@, other@),
    {
        if self.conditions.len() != other.conditions.len() {
            return false;
        }
        let mut i: usize = 0;
        while i < self.conditions.len()
            invariant
                i <= self@.len(),
                self@.len() == other@.len(),
                forall|k: int| 0 <= k < i ==> cond_equal(#[trigger] self@[k], other@[k]),
            decreases self.conditions.len() - i,
        {
            assert(self@[i as int] == self.conditions@[i as int]@);
            assert(other@[i as int] == other.conditions@[i as int]@);
            if !self.conditions[i].equals(&other.conditions[i]) {
                return false;
            }
            i = i + 1;
        }
        true
    }
}

/// The names of the custom operators an optional registry registers (none
/// without a registry).
pub open spec fn registry_names<O: CustomOp>(r: Option<OpRegistry<O>>) -> Set<Seq<char>> {
    match r {
        Some(reg) => reg.spec_ops().dom(),
        None => Set::empty(),
    }
}

/// Two queries are equal: equal conjunctions (see [`query_equal`]), and the
/// same names of registered custom operators.
pub open spec fn queries_equal<O: CustomOp>(a: DnfQuery<O>, b: DnfQuery<O>) -> bool {
    query_equal(a@, b@) && registry_names(a.spec_registry()) == registry_names(b.spec_registry())
}

impl<O: CustomOp> DnfQuery<O> {
    /// Whether two queries register the same custom operator names.
    fn same_op_names(&self, other: &DnfQuery<O>) -> (r: bool)
        ensures
            r == (registry_names(self.spec_registry()) == registry_names(other.spec_registry())),
    {
        match (&self.custom_ops, &other.custom_ops) {
            (Some(a), Some(b)) => a.same_names(b),
            (Some(a), None) => {
                let empty: OpRegistry<O> = OpRegistry::new();
                let r = a.same_names(&empty);
                assert(Map::<Seq<char>, O>::empty().dom() =~= Set::<Seq<char>>::empty());
                r
            },
            (None, Some(b)) => {
                let empty: OpRegistry<O> = OpRegistry::new();
                let r = b.same_names(&empty);
                assert(Map::<Seq<char>, O>::empty().dom() =~= Set::<Seq<char>>::empty());
                r
            },
            (None, None) => true,
        }
    }

    /// Whether two queries are equal (see [`queries_equal`]): equal
    /// conjunctions and the same registered custom operator names.
    pub fn equals(&self, other: &DnfQuery<O>) -> (r: bool)
        ensures
            r == queries_equal(*self, *other),
    {
        if !self.same_op_names(other) {
            return false;
        }
        if self.conjunctions.len() != other.conjunctions.len() {
            return false;
        }
        let mut i: usize = 0;
        while i < self.conjunctions.len()
            invariant
                i <= self@.len(),
                self@.len() == other@.len(),
                forall|k: int| 0 <= k < i ==> conj_equal(#[trigger] self@[k], other@[k]),
            decreases self.conjunctions.len() - i,
        {
            assert(self@[i as int] == self.conjunctions@[i as int]@);
            assert(other@[i as int] == other.conjunctions@[i as int]@);
            if !self.conjunctions[i].equals(&other.conjunctions[i]) {
                return false;
            }
            i = i + 1;
        }
        true
    }
}

impl PartialEq for Condition {
    fn eq(&self, other: &Condition) -> (r: bool) {
        self.equals(other)
    }
}

impl vstd::std_specs::cmp::PartialEqSpecImpl for Condition {
    open spec fn obeys_eq_spec() -> bool {
        true
    }

    open spec fn eq_spec(&self, other: &Condition) -> bool {
        cond_equal(self@, other@)
    }
}

impl PartialEq for Conjunction {
    fn eq(&self, other: &Conjunction) -> (r: bool) {
        self.equals(other)
    }
}

impl vstd::std_specs::cmp::PartialEqSpecImpl for Conjunction {
    open spec fn obeys_eq_spec() -> bool {
        true
    }

    open spec fn eq_spec(&self, other: &Conjunction) -> bool {
        conj_equal(self@, other@)
    }
}

impl<O: CustomOp> PartialEq for DnfQuery<O> {
    fn eq(&self, other: &DnfQuery<O>) -> (r: bool) {
        self.equals(other)
    }
}

impl<O: CustomOp> vstd::std_specs::cmp::PartialEqSpecImpl for DnfQuery<O> {
    open spec fn obeys_eq_spec() -> bool {
        true
    }

    open spec fn eq_spec(&self, other: &DnfQuery<O>) -> bool {
        queries_equal(*self, *other)
    }
}

} // verus!
