//! Query operators and what each of them means for scalar and collection
//! fields.
use vstd::prelude::*;

use crate::text::{
    chars_of, contains_chars, contains_seq, dec_int, dec_nat, ends_with_chars, ends_with_seq,
    i64_chars, push_str, starts_with_chars, starts_with_seq, string_of, u64_chars, Order,
};
use crate::value::{
    bool_equals, bool_equals_value, bool_order, bool_order_value, int_equals, int_equals_value,
    int_order, int_order_value, str_equals, str_equals_value, str_order, str_order_value,
    uint_equals, uint_equals_value, uint_order, uint_order_value, FieldElem, Value, ValueModel,
};

verus! {

/// Direction of an ordered comparison.
///
/// Combined with [`Op::is_inverse`] to form the four ordering operators:
/// `Greater` + `false` = `>`, `Greater` + `true` = `<=`, `Less` + `false` =
/// `<`, `Less` + `true` = `>=`.
#[derive(Debug, Clone, Copy, PartialEq, Eq, Hash, Structural)]
pub enum ComparisonOrdering {
    /// `>` when not inverse, `<=` when inverse.
    Greater,
    /// `<` when not inverse, `>=` when inverse.
    Less,
}

/// Underlying operator without negation.
#[derive(Debug, PartialEq, Eq, Hash)]
pub enum BaseOperator {
    /// Equality (`==`, or `!=` when inverse).
    Eq,
    /// Ordered comparison along the given direction.
    Comparison(ComparisonOrdering),
    /// Substring containment for strings.
    Contains,
    /// Prefix match for strings.
    StartsWith,
    /// Suffix match for strings.
    EndsWith,
    /// Collection contains every required value.
    AllOf,
    /// Collection contains any required value.
    AnyOf,
    /// Inclusive range check `[min, max]`.
    Between,
    /// User-supplied operator resolved through the query's operator registry.
    Custom(String),
}

/// A query operator with an optional negation flag.
#[derive(Debug, PartialEq)]
pub struct Op {
    pub base: BaseOperator,
    pub inverse: bool,
}

/// The mathematical content of a [`BaseOperator`].
pub enum BaseModel {
    Eq,
    Comparison(ComparisonOrdering),
    Contains,
    StartsWith,
    EndsWith,
    AllOf,
    AnyOf,
    Between,
    Custom(Seq<char>),
}

/// The mathematical content of an [`Op`].
pub struct OpModel {
    pub base: BaseModel,
    pub inverse: bool,
}

impl View for BaseOperator {
    type V = BaseModel;

    open spec fn view(&self) -> BaseModel {
        match self {
            BaseOperator::Eq => BaseModel::Eq,
            BaseOperator::Comparison(o) => BaseModel::Comparison(*o),
            BaseOperator::Contains => BaseModel::Contains,
            BaseOperator::StartsWith => BaseModel::StartsWith,
            BaseOperator::EndsWith => BaseModel::EndsWith,
            BaseOperator::AllOf => BaseModel::AllOf,
            BaseOperator::AnyOf => BaseModel::AnyOf,
            BaseOperator::Between => BaseModel::Between,
            BaseOperator::Custom(name) => BaseModel::Custom(name@),
        }
    }
}

impl View for Op {
    type V = OpModel;

    open spec fn view(&self) -> OpModel {
        OpModel { base: self.base@, inverse: self.inverse }
    }
}

impl Clone for BaseOperator {
    fn clone(&self) -> (r: Self)
        ensures
            r@ == self@,
    {
        match self {
            BaseOperator::Eq => BaseOperator::Eq,
            BaseOperator::Comparison(o) => BaseOperator::Comparison(*o),
            BaseOperator::Contains => BaseOperator::Contains,
            BaseOperator::StartsWith => BaseOperator::StartsWith,
            BaseOperator::EndsWith => BaseOperator::EndsWith,
            BaseOperator::AllOf => BaseOperator::AllOf,
            BaseOperator::AnyOf => BaseOperator::AnyOf,
            BaseOperator::Between => BaseOperator::Between,
            BaseOperator::Custom(name) => BaseOperator::Custom(name.clone()),
        }
    }
}

impl Clone for Op {
    fn clone(&self) -> (r: Self)
        ensures
            r@ == self@,
    {
        Op { base: self.base.clone(), inverse: self.inverse }
    }
}

/// The surface syntax of an operator.
pub open spec fn op_text(op: OpModel) -> Seq<char> {
    let prefix = if op.inverse {
        "NOT "@
    } else {
        Seq::empty()
    };
    match op.base {
        BaseModel::Eq => if op.inverse {
            "!="@
        } else {
            "=="@
        },
        BaseModel::Comparison(ComparisonOrdering::Greater) => if op.inverse {
            "<="@
        } else {
            ">"@
        },
        BaseModel::Comparison(ComparisonOrdering::Less) => if op.inverse {
            ">="@
        } else {
            "<"@
        },
        BaseModel::Custom(name) => prefix + name,
        BaseModel::Contains => prefix + "CONTAINS"@,
        BaseModel::StartsWith => prefix + "STARTS WITH"@,
        BaseModel::EndsWith => prefix + "ENDS WITH"@,
        BaseModel::AllOf => prefix + "ALL OF"@,
        BaseModel::AnyOf => prefix + "IN"@,
        BaseModel::Between => prefix + "BETWEEN"@,
    }
}

#[allow(non_snake_case)]
impl Op {
    /// The equality operator (`==`).
    pub fn EQ() -> (r: Op)
        ensures
            r@ == (OpModel { base: BaseModel::Eq, inverse: false }),
    {
        Op { base: BaseOperator::Eq, inverse: false }
    }

    /// The inequality operator (`!=`).
    pub fn NE() -> (r: Op)
        ensures
            r@ == (OpModel { base: BaseModel::Eq, inverse: true }),
    {
        Op { base: BaseOperator::Eq, inverse: true }
    }

    /// The greater-than operator (`>`).
    pub fn GT() -> (r: Op)
        ensures
            r@ == (OpModel {
                base: BaseModel::Comparison(ComparisonOrdering::Greater),
                inverse: false,
            }),
    {
        Op { base: BaseOperator::Comparison(ComparisonOrdering::Greater), inverse: false }
    }

    /// The less-than-or-equal operator (`<=`).
    pub fn LTE() -> (r: Op)
        ensures
            r@ == (OpModel {
                base: BaseModel::Comparison(ComparisonOrdering::Greater),
                inverse: true,
            }),
    {
        Op { base: BaseOperator::Comparison(ComparisonOrdering::Greater), inverse: true }
    }

    /// The less-than operator (`<`).
    pub fn LT() -> (r: Op)
        ensures
            r@ == (OpModel { base: BaseModel::Comparison(ComparisonOrdering::Less), inverse: false }),
    {
        Op { base: BaseOperator::Comparison(ComparisonOrdering::Less), inverse: false }
    }

    /// The greater-than-or-equal operator (`>=`).
    pub fn GTE() -> (r: Op)
        ensures
            r@ == (OpModel { base: BaseModel::Comparison(ComparisonOrdering::Less), inverse: true }),
    {
        Op { base: BaseOperator::Comparison(ComparisonOrdering::Less), inverse: true }
    }

    /// Substring containment for strings (`CONTAINS`).
    pub fn CONTAINS() -> (r: Op)
        ensures
            r@ == (OpModel { base: BaseModel::Contains, inverse: false }),
    {
        Op { base: BaseOperator::Contains, inverse: false }
    }

    /// Negated `CONTAINS` (`NOT CONTAINS`).
    pub fn NOT_CONTAINS() -> (r: Op)
        ensures
            r@ == (OpModel { base: BaseModel::Contains, inverse: true }),
    {
        Op { base: BaseOperator::Contains, inverse: true }
    }

    /// Prefix match for strings (`STARTS WITH`).
    pub fn STARTS_WITH() -> (r: Op)
        ensures
            r@ == (OpModel { base: BaseModel::StartsWith, inverse: false }),
    {
        Op { base: BaseOperator::StartsWith, inverse: false }
    }

    /// Negated `STARTS_WITH` (`NOT STARTS WITH`).
    pub fn NOT_STARTS_WITH() -> (r: Op)
        ensures
            r@ == (OpModel { base: BaseModel::StartsWith, inverse: true }),
    {
        Op { base: BaseOperator::StartsWith, inverse: true }
    }

    /// Suffix match for strings (`ENDS WITH`).
    pub fn ENDS_WITH() -> (r: Op)
        ensures
            r@ == (OpModel { base: BaseModel::EndsWith, inverse: false }),
    {
        Op { base: BaseOperator::EndsWith, inverse: false }
    }

    /// Negated `ENDS_WITH` (`NOT ENDS WITH`).
    pub fn NOT_ENDS_WITH() -> (r: Op)
        ensures
            r@ == (OpModel { base: BaseModel::EndsWith, inverse: true }),
    {
        Op { base: BaseOperator::EndsWith, inverse: true }
    }

    /// Every required value is present in the field (`ALL OF`).
    pub fn ALL_OF() -> (r: Op)
        ensures
            r@ == (OpModel { base: BaseModel::AllOf, inverse: false }),
    {
        Op { base: BaseOperator::AllOf, inverse: false }
    }

    /// Negated `ALL_OF` (`NOT ALL OF`).
    pub fn NOT_ALL_OF() -> (r: Op)
        ensures
            r@ == (OpModel { base: BaseModel::AllOf, inverse: true }),
    {
        Op { base: BaseOperator::AllOf, inverse: true }
    }

    /// The field contains at least one of the values (`IN`).
    pub fn ANY_OF() -> (r: Op)
        ensures
            r@ == (OpModel { base: BaseModel::AnyOf, inverse: false }),
    {
        Op { base: BaseOperator::AnyOf, inverse: false }
    }

    /// Negated `ANY_OF` (`NOT IN`).
    pub fn NOT_ANY_OF() -> (r: Op)
        ensures
            r@ == (OpModel { base: BaseModel::AnyOf, inverse: true }),
    {
        Op { base: BaseOperator::AnyOf, inverse: true }
    }

    /// Inclusive range check (`BETWEEN [min, max]`).
    pub fn BETWEEN() -> (r: Op)
        ensures
            r@ == (OpModel { base: BaseModel::Between, inverse: false }),
    {
        Op { base: BaseOperator::Between, inverse: false }
    }

    /// Negated `BETWEEN` (`NOT BETWEEN [min, max]`).
    pub fn NOT_BETWEEN() -> (r: Op)
        ensures
            r@ == (OpModel { base: BaseModel::Between, inverse: true }),
    {
        Op { base: BaseOperator::Between, inverse: true }
    }
}

impl Op {
    /// Constructs a custom operator referenced by `name`.
    pub fn custom(name: &str) -> (r: Op)
        ensures
            r@ == (OpModel { base: BaseModel::Custom(name@), inverse: false }),
    {
        Op { base: BaseOperator::Custom(string_of(name)), inverse: false }
    }

    /// Constructs the negated form of a custom operator.
    pub fn not_custom(name: &str) -> (r: Op)
        ensures
            r@ == (OpModel { base: BaseModel::Custom(name@), inverse: true }),
    {
        Op { base: BaseOperator::Custom(string_of(name)), inverse: true }
    }

    /// Returns the custom operator's name, or `None` for built-in operators.
    pub fn custom_name(&self) -> (r: Option<&str>)
        ensures
            match self@.base {
                BaseModel::Custom(name) => r matches Some(s) && s@ == name,
                _ => r is None,
            },
    {
        match &self.base {
            BaseOperator::Custom(name) => Some(name.as_str()),
            _ => None,
        }
    }

    /// Returns `true` if this is a custom operator.
    pub fn is_custom(&self) -> (r: bool)
        ensures
            r == (self@.base is Custom),
    {
        match &self.base {
            BaseOperator::Custom(_) => true,
            _ => false,
        }
    }

    /// Returns the underlying [`BaseOperator`].
    pub fn base(&self) -> (r: &BaseOperator)
        ensures
            r@ == self@.base,
    {
        &self.base
    }

    /// Returns `true` if the operator is the negated form.
    pub fn is_inverse(&self) -> (r: bool)
        ensures
            r == self@.inverse,
    {
        self.inverse
    }

    /// Renders the operator in query syntax.
    pub fn to_string(&self) -> (r: String)
        ensures
            r@ == op_text(self@),
    {
        let mut s = String::new();
        match &self.base {
            BaseOperator::Eq => {
                if self.inverse {
                    push_str(&mut s, "!=");
                } else {
                    push_str(&mut s, "==");
                }
            },
            BaseOperator::Comparison(ComparisonOrdering::Greater) => {
                if self.inverse {
                    push_str(&mut s, "<=");
                } else {
                    push_str(&mut s, ">");
                }
            },
            BaseOperator::Comparison(ComparisonOrdering::Less) => {
                if self.inverse {
                    push_str(&mut s, ">=");
                } else {
                    push_str(&mut s, "<");
                }
            },
            base => {
                if self.inverse {
                    push_str(&mut s, "NOT ");
                }
                match base {
                    BaseOperator::Custom(name) => push_str(&mut s, name.as_str()),
                    BaseOperator::Contains => push_str(&mut s, "CONTAINS"),
                    BaseOperator::StartsWith => push_str(&mut s, "STARTS WITH"),
                    BaseOperator::EndsWith => push_str(&mut s, "ENDS WITH"),
                    BaseOperator::AllOf => push_str(&mut s, "ALL OF"),
                    BaseOperator::AnyOf => push_str(&mut s, "IN"),
                    _ => push_str(&mut s, "BETWEEN"),
                }
            },
        }
        assert(s@ =~= op_text(self@));
        s
    }
}


// ---------------------------------------------------------------------
// Semantics of operators
// ---------------------------------------------------------------------
/// The outcome of an operator from the outcome of its base: negated for the
/// inverse form; a custom operator never holds here (custom operators are
/// applied through the query's registry).
pub open spec fn with_inverse(op: OpModel, r: bool) -> bool {
    if op.base is Custom {
        false
    } else if op.inverse {
        !r
    } else {
        r
    }
}

/// The inclusive range `[min, max]` a `BETWEEN` value gives an integer
/// field: the first two elements of an array of signed or unsigned
/// integers, compared as integers whatever the field's sign.
pub open spec fn integer_range(v: ValueModel) -> Option<(int, int)> {
    match v {
        ValueModel::IntArray(a) => if a.len() >= 2 {
            Some((a[0] as int, a[1] as int))
        } else {
            None
        },
        ValueModel::UintArray(a) => if a.len() >= 2 {
            Some((a[0] as int, a[1] as int))
        } else {
            None
        },
        _ => None,
    }
}

/// `n` lies in the range, when there is one.
pub open spec fn in_range(n: int, range: Option<(int, int)>) -> bool {
    match range {
        Some((lo, hi)) => lo <= n && n <= hi,
        None => false,
    }
}

/// The base operator applied to a text field.
pub open spec fn str_base_holds(base: BaseModel, f: Seq<char>, v: ValueModel) -> bool {
    match base {
        BaseModel::Eq => str_equals_value(f, v),
        BaseModel::Comparison(ComparisonOrdering::Greater) => str_order_value(f, v) == Some(
            Order::Greater,
        ),
        BaseModel::Comparison(ComparisonOrdering::Less) => str_order_value(f, v) == Some(
            Order::Less,
        ),
        BaseModel::Contains => contains_seq(f, v.repr()),
        BaseModel::StartsWith => starts_with_seq(f, v.repr()),
        BaseModel::EndsWith => ends_with_seq(f, v.repr()),
        _ => false,
    }
}

/// The base operator applied to a signed field.
pub open spec fn int_base_holds(base: BaseModel, n: i64, v: ValueModel) -> bool {
    match base {
        BaseModel::Eq => int_equals_value(n, v),
        BaseModel::Comparison(ComparisonOrdering::Greater) => int_order_value(n, v) == Some(
            Order::Greater,
        ),
        BaseModel::Comparison(ComparisonOrdering::Less) => int_order_value(n, v) == Some(
            Order::Less,
        ),
        BaseModel::Contains => contains_seq(dec_int(n as int), v.repr()),
        BaseModel::StartsWith => starts_with_seq(dec_int(n as int), v.repr()),
        BaseModel::EndsWith => ends_with_seq(dec_int(n as int), v.repr()),
        BaseModel::Between => in_range(n as int, integer_range(v)),
        _ => false,
    }
}

/// The base operator applied to an unsigned field.
pub open spec fn uint_base_holds(base: BaseModel, n: u64, v: ValueModel) -> bool {
    match base {
        BaseModel::Eq => uint_equals_value(n, v),
        BaseModel::Comparison(ComparisonOrdering::Greater) => uint_order_value(n, v) == Some(
            Order::Greater,
        ),
        BaseModel::Comparison(ComparisonOrdering::Less) => uint_order_value(n, v) == Some(
            Order::Less,
        ),
        BaseModel::Contains => contains_seq(dec_nat(n as nat), v.repr()),
        BaseModel::StartsWith => starts_with_seq(dec_nat(n as nat), v.repr()),
        BaseModel::EndsWith => ends_with_seq(dec_nat(n as nat), v.repr()),
        BaseModel::Between => in_range(n as int, integer_range(v)),
        _ => false,
    }
}

/// The base operator applied to a boolean field.
pub open spec fn bool_base_holds(base: BaseModel, b: bool, v: ValueModel) -> bool {
    match base {
        BaseModel::Eq => bool_equals_value(b, v),
        BaseModel::Comparison(ComparisonOrdering::Greater) => bool_order_value(b, v) == Some(
            Order::Greater,
        ),
        BaseModel::Comparison(ComparisonOrdering::Less) => bool_order_value(b, v) == Some(
            Order::Less,
        ),
        _ => false,
    }
}

/// Outcome of an operator on a text field.
pub open spec fn str_holds(op: OpModel, f: Seq<char>, v: ValueModel) -> bool {
    with_inverse(op, str_base_holds(op.base, f, v))
}

/// Outcome of an operator on a signed field.
pub open spec fn int_holds(op: OpModel, n: i64, v: ValueModel) -> bool {
    with_inverse(op, int_base_holds(op.base, n, v))
}

/// Outcome of an operator on an unsigned field.
pub open spec fn uint_holds(op: OpModel, n: u64, v: ValueModel) -> bool {
    with_inverse(op, uint_base_holds(op.base, n, v))
}

/// Outcome of an operator on a boolean field.
pub open spec fn bool_holds(op: OpModel, b: bool, v: ValueModel) -> bool {
    with_inverse(op, bool_base_holds(op.base, b, v))
}

// ---------------------------------------------------------------------
// Collections
// ---------------------------------------------------------------------
/// Some element of the collection equals `v`.
pub open spec fn has_equal<T: FieldElem>(items: Seq<T>, v: ValueModel) -> bool {
    exists|i: int| 0 <= i < items.len() && #[trigger] items[i].spec_equals(v)
}

/// Text options as scalar values.
pub open spec fn str_options(o: Seq<Seq<char>>) -> Seq<ValueModel> {
    o.map_values(|s: Seq<char>| ValueModel::Str(s))
}

/// Signed options as scalar values.
pub open spec fn int_options(o: Seq<i64>) -> Seq<ValueModel> {
    o.map_values(|n: i64| ValueModel::Int(n))
}

/// Unsigned options as scalar values.
pub open spec fn uint_options(o: Seq<u64>) -> Seq<ValueModel> {
    o.map_values(|n: u64| ValueModel::Uint(n))
}

/// Boolean options as scalar values.
pub open spec fn bool_options(o: Seq<bool>) -> Seq<ValueModel> {
    o.map_values(|b: bool| ValueModel::Bool(b))
}

/// The list of options an `IN`/`ALL OF` value stands for: the elements of an
/// array or set, each as a scalar value; `None` for any other value.
pub open spec fn option_list(v: ValueModel) -> Option<Seq<ValueModel>> {
    match v {
        ValueModel::StringArray(o) => Some(str_options(o)),
        ValueModel::StringSet(o) => Some(str_options(o)),
        ValueModel::IntArray(o) => Some(int_options(o)),
        ValueModel::IntSet(o) => Some(int_options(o)),
        ValueModel::UintArray(o) => Some(uint_options(o)),
        ValueModel::UintSet(o) => Some(uint_options(o)),
        ValueModel::BoolArray(o) => Some(bool_options(o)),
        ValueModel::BoolSet(o) => Some(bool_options(o)),
        _ => None,
    }
}

/// Some option equals some element.
pub open spec fn some_option_present<T: FieldElem>(items: Seq<T>, opts: Seq<ValueModel>) -> bool {
    exists|j: int| 0 <= j < opts.len() && #[trigger] has_equal(items, opts[j])
}

/// Every option equals some element.
pub open spec fn every_option_present<T: FieldElem>(items: Seq<T>, opts: Seq<ValueModel>) -> bool {
    forall|j: int| 0 <= j < opts.len() ==> #[trigger] has_equal(items, opts[j])
}

/// `IN`: some element equals some option (or the single value).
pub open spec fn any_of_holds<T: FieldElem>(items: Seq<T>, v: ValueModel) -> bool {
    match option_list(v) {
        Some(opts) => some_option_present(items, opts),
        None => has_equal(items, v),
    }
}

/// `ALL OF`: every option equals some element (or the single value does).
pub open spec fn all_of_holds<T: FieldElem>(items: Seq<T>, v: ValueModel) -> bool {
    match option_list(v) {
        Some(req) => every_option_present(items, req),
        None => has_equal(items, v),
    }
}

/// The base operator applied to a collection field.
pub open spec fn any_base_holds<T: FieldElem>(base: BaseModel, items: Seq<T>, v: ValueModel) -> bool {
    match base {
        BaseModel::Eq => items.len() == 1 && items[0].spec_equals(v),
        BaseModel::Comparison(ComparisonOrdering::Greater) => items.len() >= 1
            && items[0].spec_order(v) == Some(Order::Greater),
        BaseModel::Comparison(ComparisonOrdering::Less) => items.len() >= 1 && items[0].spec_order(
            v,
        ) == Some(Order::Less),
        BaseModel::Contains => has_equal(items, v),
        BaseModel::StartsWith => items.len() >= 1 && items[0].spec_equals(v),
        BaseModel::EndsWith => items.len() >= 1 && items.last().spec_equals(v),
        BaseModel::AllOf => all_of_holds(items, v),
        BaseModel::AnyOf => any_of_holds(items, v),
        _ => false,
    }
}

/// Outcome of an operator on a collection field.
pub open spec fn any_holds<T: FieldElem>(op: OpModel, items: Seq<T>, v: ValueModel) -> bool {
    with_inverse(op, any_base_holds(op.base, items, v))
}

/// Tests whether some element equals `v`.
fn has_equal_exec<T: FieldElem>(items: &[T], v: &Value) -> (r: bool)
    ensures
        r == has_equal(items@, v@),
{
    let mut i: usize = 0;
    while i < items.len()
        invariant
            i <= items@.len(),
            forall|k: int| 0 <= k < i ==> !#[trigger] items@[k].spec_equals(v@),
        decreases items.len() - i,
    {
        if items[i].equals_value(v) {
            return true;
        }
        i = i + 1;
    }
    false
}

/// `IN` over options given as scalar values built one by one.
fn any_of_strings<T: FieldElem>(items: &[T], opts: &Vec<String>) -> (r: bool)
    ensures
        r == (exists|j: int|
            0 <= j < opts@.len() && #[trigger] has_equal(items@, ValueModel::Str(opts@[j]@))),
{
    let mut j: usize = 0;
    while j < opts.len()
        invariant
            j <= opts@.len(),
            forall|k: int| 0 <= k < j ==> !#[trigger] has_equal(items@, ValueModel::Str(opts@[k]@)),
        decreases opts.len() - j,
    {
        let opt = Value::String(opts[j].clone());
        if has_equal_exec(items, &opt) {
            return true;
        }
        j = j + 1;
    }
    false
}

fn all_of_strings<T: FieldElem>(items: &[T], req: &Vec<String>) -> (r: bool)
    ensures
        r == (forall|j: int|
            0 <= j < req@.len() ==> #[trigger] has_equal(items@, ValueModel::Str(req@[j]@))),
{
    let mut j: usize = 0;
    while j < req.len()
        invariant
            j <= req@.len(),
            forall|k: int| 0 <= k < j ==> #[trigger] has_equal(items@, ValueModel::Str(req@[k]@)),
        decreases req.len() - j,
    {
        let want = Value::String(req[j].clone());
        if !has_equal_exec(items, &want) {
            return false;
        }
        j = j + 1;
    }
    true
}

fn any_of_ints<T: FieldElem>(items: &[T], opts: &Vec<i64>) -> (r: bool)
    ensures
        r == (exists|j: int|
            0 <= j < opts@.len() && #[trigger] has_equal(items@, ValueModel::Int(opts@[j]))),
{
    let mut j: usize = 0;
    while j < opts.len()
        invariant
            j <= opts@.len(),
            forall|k: int| 0 <= k < j ==> !#[trigger] has_equal(items@, ValueModel::Int(opts@[k])),
        decreases opts.len() - j,
    {
        if has_equal_exec(items, &Value::Int(opts[j])) {
            return true;
        }
        j = j + 1;
    }
    false
}

fn all_of_ints<T: FieldElem>(items: &[T], req: &Vec<i64>) -> (r: bool)
    ensures
        r == (forall|j: int|
            0 <= j < req@.len() ==> #[trigger] has_equal(items@, ValueModel::Int(req@[j]))),
{
    let mut j: usize = 0;
    while j < req.len()
        invariant
            j <= req@.len(),
            forall|k: int| 0 <= k < j ==> #[trigger] has_equal(items@, ValueModel::Int(req@[k])),
        decreases req.len() - j,
    {
        if !has_equal_exec(items, &Value::Int(req[j])) {
            return false;
        }
        j = j + 1;
    }
    true
}

fn any_of_uints<T: FieldElem>(items: &[T], opts: &Vec<u64>) -> (r: bool)
    ensures
        r == (exists|j: int|
            0 <= j < opts@.len() && #[trigger] has_equal(items@, ValueModel::Uint(opts@[j]))),
{
    let mut j: usize = 0;
    while j < opts.len()
        invariant
            j <= opts@.len(),
            forall|k: int| 0 <= k < j ==> !#[trigger] has_equal(items@, ValueModel::Uint(opts@[k])),
        decreases opts.len() - j,
    {
        if has_equal_exec(items, &Value::Uint(opts[j])) {
            return true;
        }
        j = j + 1;
    }
    false
}

fn all_of_uints<T: FieldElem>(items: &[T], req: &Vec<u64>) -> (r: bool)
    ensures
        r == (forall|j: int|
            0 <= j < req@.len() ==> #[trigger] has_equal(items@, ValueModel::Uint(req@[j]))),
{
    let mut j: usize = 0;
    while j < req.len()
        invariant
            j <= req@.len(),
            forall|k: int| 0 <= k < j ==> #[trigger] has_equal(items@, ValueModel::Uint(req@[k])),
        decreases req.len() - j,
    {
        if !has_equal_exec(items, &Value::Uint(req[j])) {
            return false;
        }
        j = j + 1;
    }
    true
}

fn any_of_bools<T: FieldElem>(items: &[T], opts: &Vec<bool>) -> (r: bool)
    ensures
        r == (exists|j: int|
            0 <= j < opts@.len() && #[trigger] has_equal(items@, ValueModel::Bool(opts@[j]))),
{
    let mut j: usize = 0;
    while j < opts.len()
        invariant
            j <= opts@.len(),
            forall|k: int| 0 <= k < j ==> !#[trigger] has_equal(items@, ValueModel::Bool(opts@[k])),
        decreases opts.len() - j,
    {
        if has_equal_exec(items, &Value::Bool(opts[j])) {
            return true;
        }
        j = j + 1;
    }
    false
}

/// `ALL OF` with boolean requirements: at most two distinct values are
/// needed, so the requirements are first reduced to "needs `true`" and
/// "needs `false`", and the field is scanned once for both.
fn all_of_bools<T: FieldElem>(items: &[T], req: &Vec<bool>) -> (r: bool)
    ensures
        r == (forall|j: int|
            0 <= j < req@.len() ==> #[trigger] has_equal(items@, ValueModel::Bool(req@[j]))),
{
    let mut need_true = false;
    let mut need_false = false;
    let mut j: usize = 0;
    while j < req.len()
        invariant
            j <= req@.len(),
            need_true <==> exists|k: int| 0 <= k < j && req@[k] == true,
            need_false <==> exists|k: int| 0 <= k < j && req@[k] == false,
        decreases req.len() - j,
    {
        if req[j] {
            need_true = true;
        } else {
            need_false = true;
        }
        j = j + 1;
    }
    if !need_true && !need_false {
        assert(req@.len() == 0) by {
            if req@.len() > 0 {
                if req@[0] {
                    assert(exists|k: int| 0 <= k < j && req@[k] == true);
                } else {
                    assert(exists|k: int| 0 <= k < j && req@[k] == false);
                }
            }
        }
        return true;
    }
    let mut found_true = !need_true;
    let mut found_false = !need_false;
    let mut i: usize = 0;
    while i < items.len()
        invariant
            i <= items@.len(),
            need_true <==> exists|k: int| 0 <= k < req@.len() && req@[k] == true,
            need_false <==> exists|k: int| 0 <= k < req@.len() && req@[k] == false,
            found_true == (!need_true || exists|k: int|
                0 <= k < i && #[trigger] items@[k].spec_equals(ValueModel::Bool(true))),
            found_false == (!need_false || exists|k: int|
                0 <= k < i && #[trigger] items@[k].spec_equals(ValueModel::Bool(false))),
        decreases items.len() - i,
    {
        if need_true && !found_true && items[i].equals_value(&Value::Bool(true)) {
            found_true = true;
        }
        if need_false && !found_false && items[i].equals_value(&Value::Bool(false)) {
            found_false = true;
        }
        if found_true && found_false {
            proof {
                lemma_bool_requirements(items@, req@, need_true, need_false);
            }
            return true;
        }
        i = i + 1;
    }
    proof {
        lemma_bool_requirements(items@, req@, need_true, need_false);
    }
    found_true && found_false
}

/// Boolean requirements reduce to whether `true` and `false` are needed.
proof fn lemma_bool_requirements<T: FieldElem>(
    items: Seq<T>,
    req: Seq<bool>,
    need_true: bool,
    need_false: bool,
)
    requires
        need_true <==> exists|k: int| 0 <= k < req.len() && req[k] == true,
        need_false <==> exists|k: int| 0 <= k < req.len() && req[k] == false,
    ensures
        (forall|j: int| 0 <= j < req.len() ==> #[trigger] has_equal(items, ValueModel::Bool(req[j])))
            <==> ((!need_true || has_equal(items, ValueModel::Bool(true))) && (!need_false
            || has_equal(items, ValueModel::Bool(false)))),
{
    if need_true {
        let k = choose|k: int| 0 <= k < req.len() && req[k] == true;
        assert(req[k] == true);
    }
    if need_false {
        let k = choose|k: int| 0 <= k < req.len() && req[k] == false;
        assert(req[k] == false);
    }
    assert forall|j: int| 0 <= j < req.len() && (!need_true || has_equal(items, ValueModel::Bool(true)))
        && (!need_false || has_equal(items, ValueModel::Bool(false))) implies #[trigger] has_equal(
        items,
        ValueModel::Bool(req[j]),
    ) by {
        if req[j] {
            assert(need_true);
        } else {
            assert(need_false);
        }
    }
}


/// The integer range of a `BETWEEN` value (see [`integer_range`]).
fn integer_range_exec(v: &Value) -> (r: Option<(i128, i128)>)
    ensures
        match r {
            Some((lo, hi)) => integer_range(v@) == Some((lo as int, hi as int)),
            None => integer_range(v@) is None,
        },
{
    match v {
        Value::IntArray(a) => {
            if a.len() >= 2 {
                Some((a[0] as i128, a[1] as i128))
            } else {
                None
            }
        },
        Value::UintArray(a) => {
            if a.len() >= 2 {
                Some((a[0] as i128, a[1] as i128))
            } else {
                None
            }
        },
        _ => None,
    }
}

/// A signed `n` lies in the integer range of a `BETWEEN` value.
fn int_in_range(n: i64, v: &Value) -> (r: bool)
    ensures
        r == in_range(n as int, integer_range(v@)),
{
    let m = n as i128;
    match integer_range_exec(v) {
        Some((lo, hi)) => lo <= m && m <= hi,
        None => false,
    }
}

/// An unsigned `n` lies in the integer range of a `BETWEEN` value.
fn uint_in_range(n: u64, v: &Value) -> (r: bool)
    ensures
        r == in_range(n as int, integer_range(v@)),
{
    let m = n as i128;
    match integer_range_exec(v) {
        Some((lo, hi)) => lo <= m && m <= hi,
        None => false,
    }
}

/// Applies the inverse flag to a base result.
fn finish(op: &Op, r: bool) -> (out: bool)
    ensures
        out == with_inverse(op@, r),
{
    if op.is_custom() {
        false
    } else if op.inverse {
        !r
    } else {
        r
    }
}

/// Applies a string operator to the characters `f` of a field's text.
fn text_op(base: &BaseOperator, f: &[char], v: &Value) -> (r: bool)
    requires
        base@ is Contains || base@ is StartsWith || base@ is EndsWith,
    ensures
        r == (match base@ {
            BaseModel::Contains => contains_seq(f@, v@.repr()),
            BaseModel::StartsWith => starts_with_seq(f@, v@.repr()),
            _ => ends_with_seq(f@, v@.repr()),
        }),
{
    let rep = v.to_string_repr();
    let needle = chars_of(rep.as_str());
    match base {
        BaseOperator::Contains => contains_chars(f, needle.as_slice()),
        BaseOperator::StartsWith => starts_with_chars(f, needle.as_slice()),
        _ => ends_with_chars(f, needle.as_slice()),
    }
}

impl Op {
    /// Compares a string field against a query value.
    pub fn scalar_str(&self, field: &str, value: &Value) -> (r: bool)
        ensures
            r == str_holds(self@, field@, value@),
    {
        let f = chars_of(field);
        let base = match &self.base {
            BaseOperator::Eq => str_equals(f.as_slice(), value),
            BaseOperator::Comparison(ComparisonOrdering::Greater) => {
                match str_order(f.as_slice(), value) {
                    Some(Order::Greater) => true,
                    _ => false,
                }
            },
            BaseOperator::Comparison(ComparisonOrdering::Less) => {
                match str_order(f.as_slice(), value) {
                    Some(Order::Less) => true,
                    _ => false,
                }
            },
            BaseOperator::Contains | BaseOperator::StartsWith | BaseOperator::EndsWith => text_op(
                &self.base,
                f.as_slice(),
                value,
            ),
            _ => false,
        };
        finish(self, base)
    }

    /// Compares a signed integer field against a query value.
    pub fn scalar_int(&self, field: i64, value: &Value) -> (r: bool)
        ensures
            r == int_holds(self@, field, value@),
    {
        let base = match &self.base {
            BaseOperator::Eq => int_equals(field, value),
            BaseOperator::Comparison(ComparisonOrdering::Greater) => {
                match int_order(field, value) {
                    Some(Order::Greater) => true,
                    _ => false,
                }
            },
            BaseOperator::Comparison(ComparisonOrdering::Less) => {
                match int_order(field, value) {
                    Some(Order::Less) => true,
                    _ => false,
                }
            },
            BaseOperator::Contains | BaseOperator::StartsWith | BaseOperator::EndsWith => {
                let d = i64_chars(field);
                text_op(&self.base, d.as_slice(), value)
            },
            BaseOperator::Between => int_in_range(field, value),
            _ => false,
        };
        finish(self, base)
    }

    /// Compares an unsigned integer field against a query value.
    pub fn scalar_uint(&self, field: u64, value: &Value) -> (r: bool)
        ensures
            r == uint_holds(self@, field, value@),
    {
        let base = match &self.base {
            BaseOperator::Eq => uint_equals(field, value),
            BaseOperator::Comparison(ComparisonOrdering::Greater) => {
                match uint_order(field, value) {
                    Some(Order::Greater) => true,
                    _ => false,
                }
            },
            BaseOperator::Comparison(ComparisonOrdering::Less) => {
                match uint_order(field, value) {
                    Some(Order::Less) => true,
                    _ => false,
                }
            },
            BaseOperator::Contains | BaseOperator::StartsWith | BaseOperator::EndsWith => {
                let d = u64_chars(field);
                text_op(&self.base, d.as_slice(), value)
            },
            BaseOperator::Between => uint_in_range(field, value),
            _ => false,
        };
        finish(self, base)
    }

    /// Compares a boolean field against a query value.
    pub fn scalar_bool(&self, field: bool, value: &Value) -> (r: bool)
        ensures
            r == bool_holds(self@, field, value@),
    {
        let base = match &self.base {
            BaseOperator::Eq => bool_equals(field, value),
            BaseOperator::Comparison(ComparisonOrdering::Greater) => {
                match bool_order(field, value) {
                    Some(Order::Greater) => true,
                    _ => false,
                }
            },
            BaseOperator::Comparison(ComparisonOrdering::Less) => {
                match bool_order(field, value) {
                    Some(Order::Less) => true,
                    _ => false,
                }
            },
            _ => false,
        };
        finish(self, base)
    }

    /// Applies the operator to the elements of a collection field.
    ///
    /// `==` holds only for a single matching element; `>`/`<` compare the
    /// first element; `CONTAINS` looks for an equal element; `STARTS WITH`
    /// and `ENDS WITH` test the first and last element; `IN` and `ALL OF`
    /// test membership of any or all of the options. `BETWEEN` never holds
    /// for collections, and custom operators are not applied here.
    pub fn any<T: FieldElem>(&self, items: &[T], query_value: &Value) -> (r: bool)
        ensures
            r == any_holds(self@, items@, query_value@),
    {
        let n = items.len();
        let base = match &self.base {
            BaseOperator::Eq => n == 1 && items[0].equals_value(query_value),
            BaseOperator::Comparison(ComparisonOrdering::Greater) => {
                if n >= 1 {
                    match items[0].order_value(query_value) {
                        Some(Order::Greater) => true,
                        _ => false,
                    }
                } else {
                    false
                }
            },
            BaseOperator::Comparison(ComparisonOrdering::Less) => {
                if n >= 1 {
                    match items[0].order_value(query_value) {
                        Some(Order::Less) => true,
                        _ => false,
                    }
                } else {
                    false
                }
            },
            BaseOperator::Contains => has_equal_exec(items, query_value),
            BaseOperator::StartsWith => n >= 1 && items[0].equals_value(query_value),
            BaseOperator::EndsWith => n >= 1 && items[n - 1].equals_value(query_value),
            BaseOperator::AllOf => Self::iter_all_of(items, query_value),
            BaseOperator::AnyOf => Self::iter_any_of(items, query_value),
            _ => false,
        };
        finish(self, base)
    }

    fn iter_any_of<T: FieldElem>(items: &[T], query_value: &Value) -> (r: bool)
        ensures
            r == any_of_holds(items@, query_value@),
    {
        match query_value {
            Value::StringArray(o) | Value::StringSet(o) => {
                let r = any_of_strings(items, o);
                proof {
                    lemma_string_options(items@, o@);
                }
                r
            },
            Value::IntArray(o) | Value::IntSet(o) => {
                let r = any_of_ints(items, o);
                proof {
                    lemma_int_options(items@, o@);
                }
                r
            },
            Value::UintArray(o) | Value::UintSet(o) => {
                let r = any_of_uints(items, o);
                proof {
                    lemma_uint_options(items@, o@);
                }
                r
            },
            Value::BoolArray(o) | Value::BoolSet(o) => {
                let r = any_of_bools(items, o);
                proof {
                    lemma_bool_options(items@, o@);
                }
                r
            },
            _ => has_equal_exec(items, query_value),
        }
    }

    fn iter_all_of<T: FieldElem>(items: &[T], query_value: &Value) -> (r: bool)
        ensures
            r == all_of_holds(items@, query_value@),
    {
        match query_value {
            Value::StringArray(o) | Value::StringSet(o) => {
                let r = all_of_strings(items, o);
                proof {
                    lemma_string_options(items@, o@);
                }
                r
            },
            Value::IntArray(o) | Value::IntSet(o) => {
                let r = all_of_ints(items, o);
                proof {
                    lemma_int_options(items@, o@);
                }
                r
            },
            Value::UintArray(o) | Value::UintSet(o) => {
                let r = all_of_uints(items, o);
                proof {
                    lemma_uint_options(items@, o@);
                }
                r
            },
            Value::BoolArray(o) | Value::BoolSet(o) => {
                let r = all_of_bools(items, o);
                proof {
                    lemma_bool_options(items@, o@);
                }
                r
            },
            _ => has_equal_exec(items, query_value),
        }
    }
}

proof fn lemma_string_options<T: FieldElem>(items: Seq<T>, o: Seq<String>)
    ensures
        ({
            let opts = str_options(crate::value::string_views(o));
            &&& (exists|j: int| 0 <= j < o.len() && #[trigger] has_equal(items, ValueModel::Str(o[j]@)))
                == some_option_present(items, opts)
            &&& (forall|j: int| 0 <= j < o.len() ==> #[trigger] has_equal(items, ValueModel::Str(o[j]@)))
                == every_option_present(items, opts)
        }),
{
    let opts = str_options(crate::value::string_views(o));
    assert forall|j: int| 0 <= j < o.len() implies opts[j] == ValueModel::Str(o[j]@) by {}
    if exists|j: int| 0 <= j < o.len() && #[trigger] has_equal(items, ValueModel::Str(o[j]@)) {
        let j = choose|j: int| 0 <= j < o.len() && #[trigger] has_equal(items, ValueModel::Str(o[j]@));
        assert(has_equal(items, opts[j]));
    }
    if exists|j: int| 0 <= j < opts.len() && #[trigger] has_equal(items, opts[j]) {
        let j = choose|j: int| 0 <= j < opts.len() && #[trigger] has_equal(items, opts[j]);
        assert(has_equal(items, ValueModel::Str(o[j]@)));
    }
    if forall|j: int| 0 <= j < o.len() ==> #[trigger] has_equal(items, ValueModel::Str(o[j]@)) {
        assert forall|j: int| 0 <= j < opts.len() implies #[trigger] has_equal(items, opts[j]) by {
            assert(has_equal(items, ValueModel::Str(o[j]@)));
        }
    }
    if forall|j: int| 0 <= j < opts.len() ==> #[trigger] has_equal(items, opts[j]) {
        assert forall|j: int| 0 <= j < o.len() implies #[trigger] has_equal(items, ValueModel::Str(o[j]@)) by {
            assert(has_equal(items, opts[j]));
        }
    }
}

proof fn lemma_int_options<T: FieldElem>(items: Seq<T>, o: Seq<i64>)
    ensures
        ({
            let opts = int_options(o);
            &&& (exists|j: int| 0 <= j < o.len() && #[trigger] has_equal(items, ValueModel::Int(o[j])))
                == some_option_present(items, opts)
            &&& (forall|j: int| 0 <= j < o.len() ==> #[trigger] has_equal(items, ValueModel::Int(o[j])))
                == every_option_present(items, opts)
        }),
{
    let opts = int_options(o);
    if exists|j: int| 0 <= j < o.len() && #[trigger] has_equal(items, ValueModel::Int(o[j])) {
        let j = choose|j: int| 0 <= j < o.len() && #[trigger] has_equal(items, ValueModel::Int(o[j]));
        assert(has_equal(items, opts[j]));
    }
    if exists|j: int| 0 <= j < opts.len() && #[trigger] has_equal(items, opts[j]) {
        let j = choose|j: int| 0 <= j < opts.len() && #[trigger] has_equal(items, opts[j]);
        assert(has_equal(items, ValueModel::Int(o[j])));
    }
    if forall|j: int| 0 <= j < o.len() ==> #[trigger] has_equal(items, ValueModel::Int(o[j])) {
        assert forall|j: int| 0 <= j < opts.len() implies #[trigger] has_equal(items, opts[j]) by {
            assert(has_equal(items, ValueModel::Int(o[j])));
        }
    }
    if forall|j: int| 0 <= j < opts.len() ==> #[trigger] has_equal(items, opts[j]) {
        assert forall|j: int| 0 <= j < o.len() implies #[trigger] has_equal(items, ValueModel::Int(o[j])) by {
            assert(has_equal(items, opts[j]));
        }
    }
}

proof fn lemma_uint_options<T: FieldElem>(items: Seq<T>, o: Seq<u64>)
    ensures
        ({
            let opts = uint_options(o);
            &&& (exists|j: int| 0 <= j < o.len() && #[trigger] has_equal(items, ValueModel::Uint(o[j])))
                == some_option_present(items, opts)
            &&& (forall|j: int| 0 <= j < o.len() ==> #[trigger] has_equal(items, ValueModel::Uint(o[j])))
                == every_option_present(items, opts)
        }),
{
    let opts = uint_options(o);
    if exists|j: int| 0 <= j < o.len() && #[trigger] has_equal(items, ValueModel::Uint(o[j])) {
        let j = choose|j: int| 0 <= j < o.len() && #[trigger] has_equal(items, ValueModel::Uint(o[j]));
        assert(has_equal(items, opts[j]));
    }
    if exists|j: int| 0 <= j < opts.len() && #[trigger] has_equal(items, opts[j]) {
        let j = choose|j: int| 0 <= j < opts.len() && #[trigger] has_equal(items, opts[j]);
        assert(has_equal(items, ValueModel::Uint(o[j])));
    }
    if forall|j: int| 0 <= j < o.len() ==> #[trigger] has_equal(items, ValueModel::Uint(o[j])) {
        assert forall|j: int| 0 <= j < opts.len() implies #[trigger] has_equal(items, opts[j]) by {
            assert(has_equal(items, ValueModel::Uint(o[j])));
        }
    }
    if forall|j: int| 0 <= j < opts.len() ==> #[trigger] has_equal(items, opts[j]) {
        assert forall|j: int| 0 <= j < o.len() implies #[trigger] has_equal(items, ValueModel::Uint(o[j])) by {
            assert(has_equal(items, opts[j]));
        }
    }
}

proof fn lemma_bool_options<T: FieldElem>(items: Seq<T>, o: Seq<bool>)
    ensures
        ({
            let opts = bool_options(o);
            &&& (exists|j: int| 0 <= j < o.len() && #[trigger] has_equal(items, ValueModel::Bool(o[j])))
                == some_option_present(items, opts)
            &&& (forall|j: int| 0 <= j < o.len() ==> #[trigger] has_equal(items, ValueModel::Bool(o[j])))
                == every_option_present(items, opts)
        }),
{
    let opts = bool_options(o);
    if exists|j: int| 0 <= j < o.len() && #[trigger] has_equal(items, ValueModel::Bool(o[j])) {
        let j = choose|j: int| 0 <= j < o.len() && #[trigger] has_equal(items, ValueModel::Bool(o[j]));
        assert(has_equal(items, opts[j]));
    }
    if exists|j: int| 0 <= j < opts.len() && #[trigger] has_equal(items, opts[j]) {
        let j = choose|j: int| 0 <= j < opts.len() && #[trigger] has_equal(items, opts[j]);
        assert(has_equal(items, ValueModel::Bool(o[j])));
    }
    if forall|j: int| 0 <= j < o.len() ==> #[trigger] has_equal(items, ValueModel::Bool(o[j])) {
        assert forall|j: int| 0 <= j < opts.len() implies #[trigger] has_equal(items, opts[j]) by {
            assert(has_equal(items, ValueModel::Bool(o[j])));
        }
    }
    if forall|j: int| 0 <= j < opts.len() ==> #[trigger] has_equal(items, opts[j]) {
        assert forall|j: int| 0 <= j < o.len() implies #[trigger] has_equal(items, ValueModel::Bool(o[j])) by {
            assert(has_equal(items, opts[j]));
        }
    }
}

impl BaseOperator {
    /// Whether two base operators are the same.
    pub fn same(&self, other: &BaseOperator) -> (r: bool)
        ensures
            r == (self@ == other@),
    {
        match (self, other) {
            (BaseOperator::Eq, BaseOperator::Eq) => true,
            (BaseOperator::Comparison(a), BaseOperator::Comparison(b)) => *a == *b,
            (BaseOperator::Contains, BaseOperator::Contains) => true,
            (BaseOperator::StartsWith, BaseOperator::StartsWith) => true,
            (BaseOperator::EndsWith, BaseOperator::EndsWith) => true,
            (BaseOperator::AllOf, BaseOperator::AllOf) => true,
            (BaseOperator::AnyOf, BaseOperator::AnyOf) => true,
            (BaseOperator::Between, BaseOperator::Between) => true,
            (BaseOperator::Custom(a), BaseOperator::Custom(b)) => crate::text::str_equal(
                a.as_str(),
                b.as_str(),
            ),
            _ => false,
        }
    }
}

impl Op {
    /// Whether two operators are the same.
    pub fn same(&self, other: &Op) -> (r: bool)
        ensures
            r == (self@ == other@),
    {
        self.base.same(&other.base) && self.inverse == other.inverse
    }
}

} // verus!
