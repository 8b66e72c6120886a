//! Properties of the library that relate several of its operations.
use vstd::prelude::*;

use crate::builder::nonempty_conjunctions;
use crate::custom::CustomOp;
use crate::operator::{any_holds, bool_holds, int_holds, str_holds, BaseModel, OpModel};
use crate::query::{
    all_registered, at, cond_holds, conj_holds, custom_name_of, earlier, field_error,
    first_field_error, first_unregistered, query_holds, unregistered, validation_result, CondModel,
    DnfEvaluable,
};
use crate::error::ErrorModel;
use crate::compare::{list_order, value_order, values_equal, Ranked};
use crate::convert::{dedup, lemma_dedup};
use crate::numeric::{all_digits, decimal_value, digit_value, parse_signed, parse_unsigned};
use crate::text::{dec_int, dec_nat, digit_char, lex_order, Order};
use crate::token::{
    lex_from, scan_prepend, scan_string, spec_tokenize, unescape, ScanEnd, TokenModel,
};
use crate::value::{escape_char, escape_seq, quoted};
use crate::grammar::{
    and_rest, condition_at, conjunction_at, field_named, or_rest, parse_tokens, ParseCtx,
};
use crate::operator::{
    bool_options, every_option_present, int_options, some_option_present, str_options,
    uint_options,
};
use crate::parser::parse_query_text;
use crate::schema::FieldInfo;
use crate::value::FieldElem;
use crate::value::ValueModel;

verus! {

/// A query with no conjunctions matches no target.
pub proof fn lemma_empty_query_never_holds<T: DnfEvaluable, O: CustomOp>(
    ops: Option<Map<Seq<char>, O>>,
    target: T,
)
    ensures
        !query_holds(ops, target, Seq::<Seq<CondModel>>::empty()),
{
}

/// A query with an empty conjunction matches every target.
pub proof fn lemma_empty_conjunction_always_holds<T: DnfEvaluable, O: CustomOp>(
    ops: Option<Map<Seq<char>, O>>,
    target: T,
    q: Seq<Seq<CondModel>>,
    i: int,
)
    requires
        0 <= i < q.len(),
        q[i].len() == 0,
    ensures
        query_holds(ops, target, q),
{
    assert(conj_holds(ops, target, q[i]));
}

/// The conjunctions of two queries together hold exactly when those of one
/// of them do: putting queries side by side is their OR.
pub proof fn lemma_concat_is_or<T: DnfEvaluable, O: CustomOp>(
    ops: Option<Map<Seq<char>, O>>,
    target: T,
    a: Seq<Seq<CondModel>>,
    b: Seq<Seq<CondModel>>,
)
    ensures
        query_holds(ops, target, a + b) == (query_holds(ops, target, a) || query_holds(
            ops,
            target,
            b,
        )),
{
    let ab = a + b;
    if query_holds(ops, target, ab) {
        let i = choose|i: int| 0 <= i < ab.len() && #[trigger] conj_holds(ops, target, ab[i]);
        if i < a.len() {
            assert(ab[i] == a[i]);
        } else {
            assert(ab[i] == b[i - a.len()]);
        }
    }
    if query_holds(ops, target, a) {
        let i = choose|i: int| 0 <= i < a.len() && #[trigger] conj_holds(ops, target, a[i]);
        assert(ab[i] == a[i]);
    }
    if query_holds(ops, target, b) {
        let i = choose|i: int| 0 <= i < b.len() && #[trigger] conj_holds(ops, target, b[i]);
        assert(ab[a.len() + i] == b[i]);
    }
}

/// No condition of the query uses a custom operator.
pub open spec fn no_custom_ops(q: Seq<Seq<CondModel>>) -> bool {
    forall|i: int, j: int|
        0 <= i < q.len() && 0 <= j < q[i].len() ==> !((#[trigger] q[i][j]).op.base is Custom)
}

/// A query without custom operators evaluates the same whatever custom
/// operators it carries.
pub proof fn lemma_custom_free_ignores_registry<T: DnfEvaluable, O: CustomOp>(
    ops1: Option<Map<Seq<char>, O>>,
    ops2: Option<Map<Seq<char>, O>>,
    target: T,
    q: Seq<Seq<CondModel>>,
)
    requires
        no_custom_ops(q),
    ensures
        query_holds(ops1, target, q) == query_holds(ops2, target, q),
{
    assert forall|i: int| 0 <= i < q.len() implies conj_holds(ops1, target, q[i]) == conj_holds(
        ops2,
        target,
        q[i],
    ) by {
        assert forall|j: int| 0 <= j < q[i].len() implies cond_holds(ops1, target, q[i][j])
            == cond_holds(ops2, target, q[i][j]) by {
            assert(!(q[i][j].op.base is Custom));
        }
        if conj_holds(ops1, target, q[i]) {
            assert forall|j: int| 0 <= j < q[i].len() implies #[trigger] cond_holds(
                ops2,
                target,
                q[i][j],
            ) by {
                assert(cond_holds(ops1, target, q[i][j]));
            }
        }
        if conj_holds(ops2, target, q[i]) {
            assert forall|j: int| 0 <= j < q[i].len() implies #[trigger] cond_holds(
                ops1,
                target,
                q[i][j],
            ) by {
                assert(cond_holds(ops2, target, q[i][j]));
            }
        }
    }
    if query_holds(ops1, target, q) {
        let i = choose|i: int| 0 <= i < q.len() && #[trigger] conj_holds(ops1, target, q[i]);
        assert(conj_holds(ops2, target, q[i]));
    }
    if query_holds(ops2, target, q) {
        let i = choose|i: int| 0 <= i < q.len() && #[trigger] conj_holds(ops2, target, q[i]);
        assert(conj_holds(ops1, target, q[i]));
    }
}

/// Merging two queries without custom operators gives their OR, whatever
/// registries the three queries carry.
pub proof fn lemma_merge_is_or<T: DnfEvaluable, O: CustomOp>(
    ops_a: Option<Map<Seq<char>, O>>,
    ops_b: Option<Map<Seq<char>, O>>,
    ops_merged: Option<Map<Seq<char>, O>>,
    target: T,
    a: Seq<Seq<CondModel>>,
    b: Seq<Seq<CondModel>>,
)
    requires
        no_custom_ops(a),
        no_custom_ops(b),
    ensures
        query_holds(ops_merged, target, a + b) == (query_holds(ops_a, target, a) || query_holds(
            ops_b,
            target,
            b,
        )),
{
    lemma_concat_is_or(ops_merged, target, a, b);
    lemma_custom_free_ignores_registry(ops_merged, ops_a, target, a);
    lemma_custom_free_ignores_registry(ops_merged, ops_b, target, b);
}

/// The negated form of a registered custom operator holds exactly when the
/// plain form does not (with or without a field value); an unregistered
/// custom operator holds in neither form.
pub proof fn lemma_not_custom_negates<T: DnfEvaluable, O: CustomOp>(
    ops: Option<Map<Seq<char>, O>>,
    target: T,
    field: Seq<char>,
    name: Seq<char>,
    value: ValueModel,
)
    requires
        ops matches Some(m) && m.contains_key(name),
    ensures
        cond_holds(
            ops,
            target,
            CondModel {
                field,
                op: OpModel { base: BaseModel::Custom(name), inverse: true },
                value,
            },
        ) == !cond_holds(
            ops,
            target,
            CondModel {
                field,
                op: OpModel { base: BaseModel::Custom(name), inverse: false },
                value,
            },
        ),
{
}

/// A custom operator that is not registered (no registry, or a name it
/// lacks) holds in neither its plain nor its negated form.
pub proof fn lemma_unregistered_custom_never_holds<T: DnfEvaluable, O: CustomOp>(
    ops: Option<Map<Seq<char>, O>>,
    target: T,
    field: Seq<char>,
    name: Seq<char>,
    inverse: bool,
    value: ValueModel,
)
    requires
        !(ops matches Some(m) && m.contains_key(name)),
    ensures
        !cond_holds(
            ops,
            target,
            CondModel { field, op: OpModel { base: BaseModel::Custom(name), inverse }, value },
        ),
{
}

/// For built-in operators, the negated form (`!=`, `<=`, `>=`, `NOT ...`)
/// holds on a text, integer or boolean field exactly when the plain form
/// (`==`, `>`, `<`, ...) does not.
pub proof fn lemma_inverse_negates_scalars(
    base: BaseModel,
    s: Seq<char>,
    i: i64,
    u: u64,
    b: bool,
    v: ValueModel,
)
    requires
        !(base is Custom),
    ensures
        str_holds(OpModel { base, inverse: true }, s, v) == !str_holds(
            OpModel { base, inverse: false },
            s,
            v,
        ),
        int_holds(OpModel { base, inverse: true }, i, v) == !int_holds(
            OpModel { base, inverse: false },
            i,
            v,
        ),
        crate::operator::uint_holds(OpModel { base, inverse: true }, u, v)
            == !crate::operator::uint_holds(OpModel { base, inverse: false }, u, v),
        bool_holds(OpModel { base, inverse: true }, b, v) == !bool_holds(
            OpModel { base, inverse: false },
            b,
            v,
        ),
{
}

/// For built-in operators, the negated form holds on a collection field
/// exactly when the plain form does not.
pub proof fn lemma_inverse_negates_collections<T: FieldElem>(
    base: BaseModel,
    items: Seq<T>,
    v: ValueModel,
)
    requires
        !(base is Custom),
    ensures
        any_holds(OpModel { base, inverse: true }, items, v) == !any_holds(
            OpModel { base, inverse: false },
            items,
            v,
        ),
{
}

/// A built query has no empty conjunction, so it is never "always true".
pub proof fn lemma_built_has_no_empty_conjunction(q: Seq<Seq<CondModel>>)
    ensures
        forall|i: int|
            0 <= i < nonempty_conjunctions(q).len() ==> #[trigger] nonempty_conjunctions(q)[i].len()
                > 0,
    decreases q.len(),
{
    if q.len() > 0 {
        lemma_built_has_no_empty_conjunction(q.drop_last());
        let rest = nonempty_conjunctions(q.drop_last());
        if q.last().len() > 0 {
            assert forall|i: int| 0 <= i < rest.push(q.last()).len() implies #[trigger] rest.push(
                q.last(),
            )[i].len() > 0 by {
                if i < rest.len() {
                    assert(rest.push(q.last())[i] == rest[i]);
                }
            }
        }
    }
}

/// Building keeps every non-empty conjunction: a target matches the built
/// query exactly when it matches a non-empty conjunction of the builder.
pub proof fn lemma_build_keeps_nonempty<T: DnfEvaluable, O: CustomOp>(
    ops: Option<Map<Seq<char>, O>>,
    target: T,
    q: Seq<Seq<CondModel>>,
)
    ensures
        query_holds(ops, target, nonempty_conjunctions(q)) == (exists|i: int|
            0 <= i < q.len() && q[i].len() > 0 && #[trigger] conj_holds(ops, target, q[i])),
    decreases q.len(),
{
    if q.len() > 0 {
        let init = q.drop_last();
        lemma_build_keeps_nonempty(ops, target, init);
        let rest = nonempty_conjunctions(init);
        if q.last().len() > 0 {
            lemma_concat_is_or(ops, target, rest, seq![q.last()]);
            assert(rest.push(q.last()) =~= rest + seq![q.last()]);
            if query_holds(ops, target, seq![q.last()]) {
                assert(seq![q.last()][0] == q.last());
                assert(conj_holds(ops, target, q[q.len() - 1]));
            }
        }
        if exists|i: int| 0 <= i < q.len() && q[i].len() > 0 && #[trigger] conj_holds(ops, target, q[i]) {
            let i = choose|i: int| 0 <= i < q.len() && q[i].len() > 0 && #[trigger] conj_holds(ops, target, q[i]);
            if i < q.len() - 1 {
                assert(init[i] == q[i]);
            } else {
                assert(seq![q.last()][0] == q.last());
            }
        }
        if exists|i: int| 0 <= i < init.len() && init[i].len() > 0 && #[trigger] conj_holds(ops, target, init[i]) {
            let i = choose|i: int| 0 <= i < init.len() && init[i].len() > 0 && #[trigger] conj_holds(ops, target, init[i]);
            assert(q[i] == init[i]);
        }
    }
}

/// A registered operator is found under its name; other names keep theirs.
pub proof fn lemma_register_then_lookup<O>(
    ops: Map<Seq<char>, O>,
    name: Seq<char>,
    op: O,
    other: Seq<char>,
)
    requires
        other != name,
    ensures
        ops.insert(name, op).contains_key(name),
        ops.insert(name, op)[name] == op,
        ops.insert(name, op).contains_key(other) == ops.contains_key(other),
        ops.contains_key(other) ==> ops.insert(name, op)[other] == ops[other],
{
}

/// In merged registries, a name registered in the second one has its
/// operator, and any other name keeps that of the first.
pub proof fn lemma_merge_prefers_other<O>(a: Map<Seq<char>, O>, b: Map<Seq<char>, O>, name: Seq<char>)
    ensures
        b.contains_key(name) ==> a.union_prefer_right(b)[name] == b[name],
        !b.contains_key(name) && a.contains_key(name) ==> a.union_prefer_right(b)[name] == a[name],
        a.union_prefer_right(b).contains_key(name) == (a.contains_key(name) || b.contains_key(name)),
{
}

/// Two option lists with the same members decide `IN` and `ALL OF` alike.
proof fn lemma_same_members_decide_alike<T: FieldElem>(
    items: Seq<T>,
    a: Seq<ValueModel>,
    b: Seq<ValueModel>,
)
    requires
        forall|x: ValueModel| a.contains(x) <==> b.contains(x),
    ensures
        some_option_present(items, a) == some_option_present(items, b),
        every_option_present(items, a) == every_option_present(items, b),
{
    assert forall|x: ValueModel| #[trigger] a.contains(x) implies b.contains(x) by {}
    assert forall|x: ValueModel| #[trigger] b.contains(x) implies a.contains(x) by {}
    if some_option_present(items, a) {
        let j = choose|j: int| 0 <= j < a.len() && #[trigger] crate::operator::has_equal(items, a[j]);
        assert(a.contains(a[j]));
        let k = choose|k: int| 0 <= k < b.len() && b[k] == a[j];
        assert(crate::operator::has_equal(items, b[k]));
    }
    if some_option_present(items, b) {
        let j = choose|j: int| 0 <= j < b.len() && #[trigger] crate::operator::has_equal(items, b[j]);
        assert(b.contains(b[j]));
        let k = choose|k: int| 0 <= k < a.len() && a[k] == b[j];
        assert(crate::operator::has_equal(items, a[k]));
    }
    if every_option_present(items, a) {
        assert forall|k: int| 0 <= k < b.len() implies #[trigger] crate::operator::has_equal(items, b[k]) by {
            assert(b.contains(b[k]));
            let j = choose|j: int| 0 <= j < a.len() && a[j] == b[k];
            assert(crate::operator::has_equal(items, a[j]));
        }
    }
    if every_option_present(items, b) {
        assert forall|k: int| 0 <= k < a.len() implies #[trigger] crate::operator::has_equal(items, a[k]) by {
            assert(a.contains(a[k]));
            let j = choose|j: int| 0 <= j < b.len() && b[j] == a[k];
            assert(crate::operator::has_equal(items, b[j]));
        }
    }
}

/// Mapping a list and its deduplicated form gives lists with the same
/// members.
proof fn lemma_dedup_mapped_members<A>(xs: Seq<A>, f: spec_fn(A) -> ValueModel)
    ensures
        forall|x: ValueModel|
            dedup(xs).map_values(f).contains(x) <==> xs.map_values(f).contains(x),
{
    lemma_dedup(xs);
    let d = dedup(xs);
    assert forall|x: ValueModel| #[trigger] d.map_values(f).contains(x) implies xs.map_values(
        f,
    ).contains(x) by {
        let j = choose|j: int| 0 <= j < d.map_values(f).len() && d.map_values(f)[j] == x;
        assert(d.contains(d[j]));
        assert(d.to_set().contains(d[j]));
        assert(xs.to_set().contains(d[j]));
        let k = choose|k: int| 0 <= k < xs.len() && xs[k] == d[j];
        assert(xs.map_values(f)[k] == x);
    }
    assert forall|x: ValueModel| #[trigger] xs.map_values(f).contains(x) implies d.map_values(
        f,
    ).contains(x) by {
        let j = choose|j: int| 0 <= j < xs.map_values(f).len() && xs.map_values(f)[j] == x;
        assert(xs.contains(xs[j]));
        assert(xs.to_set().contains(xs[j]));
        assert(d.to_set().contains(xs[j]));
        let k = choose|k: int| 0 <= k < d.len() && d[k] == xs[j];
        assert(d.map_values(f)[k] == x);
    }
}

/// `IN` and `ALL OF` on a collection field depend only on which options the
/// value lists: a list, the same list without repetitions, and the set built
/// from it give the same outcome.
pub proof fn lemma_options_decide_by_membership<T: FieldElem>(
    op: OpModel,
    items: Seq<T>,
    xs: Seq<i64>,
    us: Seq<u64>,
    bs: Seq<bool>,
    ss: Seq<Seq<char>>,
)
    requires
        op.base is AllOf || op.base is AnyOf,
    ensures
        any_holds(op, items, ValueModel::IntArray(xs)) == any_holds(
            op,
            items,
            ValueModel::IntArray(dedup(xs)),
        ),
        any_holds(op, items, ValueModel::IntArray(xs)) == any_holds(
            op,
            items,
            ValueModel::IntSet(dedup(xs)),
        ),
        any_holds(op, items, ValueModel::UintArray(us)) == any_holds(
            op,
            items,
            ValueModel::UintSet(dedup(us)),
        ),
        any_holds(op, items, ValueModel::BoolArray(bs)) == any_holds(
            op,
            items,
            ValueModel::BoolSet(dedup(bs)),
        ),
        any_holds(op, items, ValueModel::StringArray(ss)) == any_holds(
            op,
            items,
            ValueModel::StringSet(dedup(ss)),
        ),
{
    let fi = |n: i64| ValueModel::Int(n);
    let fu = |n: u64| ValueModel::Uint(n);
    let fb = |b: bool| ValueModel::Bool(b);
    let fs = |s: Seq<char>| ValueModel::Str(s);
    lemma_dedup_mapped_members(xs, fi);
    lemma_dedup_mapped_members(us, fu);
    lemma_dedup_mapped_members(bs, fb);
    lemma_dedup_mapped_members(ss, fs);
    assert(int_options(xs) =~= xs.map_values(fi));
    assert(int_options(dedup(xs)) =~= dedup(xs).map_values(fi));
    assert(uint_options(us) =~= us.map_values(fu));
    assert(uint_options(dedup(us)) =~= dedup(us).map_values(fu));
    assert(bool_options(bs) =~= bs.map_values(fb));
    assert(bool_options(dedup(bs)) =~= dedup(bs).map_values(fb));
    assert(str_options(ss) =~= ss.map_values(fs));
    assert(str_options(dedup(ss)) =~= dedup(ss).map_values(fs));
    lemma_same_members_decide_alike(items, int_options(xs), int_options(dedup(xs)));
    lemma_same_members_decide_alike(items, uint_options(us), uint_options(dedup(us)));
    lemma_same_members_decide_alike(items, bool_options(bs), bool_options(dedup(bs)));
    lemma_same_members_decide_alike(items, str_options(ss), str_options(dedup(ss)));
}

/// Every condition of a conjunction names a field of the context.
pub open spec fn conds_known(c: ParseCtx, conds: Seq<CondModel>) -> bool {
    forall|j: int| 0 <= j < conds.len() ==> field_named(c.fs, #[trigger] conds[j].field) is Some
}

/// Every condition of a query names a field of the context.
pub open spec fn conjs_known(c: ParseCtx, q: Seq<Seq<CondModel>>) -> bool {
    forall|i: int| 0 <= i < q.len() ==> conds_known(c, #[trigger] q[i])
}

proof fn lemma_and_rest_known(c: ParseCtx, p: int, acc: Seq<CondModel>)
    requires
        conds_known(c, acc),
    ensures
        and_rest(c, p, acc) matches Ok((conds, _)) ==> conds_known(c, conds),
    decreases c.t.len() - p,
{
    if 0 <= p < c.t.len() && c.t[p] is And {
        if let Ok((cond, p1)) = condition_at(c, p + 1) {
            assert(conds_known(c, acc.push(cond))) by {
                assert forall|j: int| 0 <= j < acc.push(cond).len() implies field_named(
                    c.fs,
                    #[trigger] acc.push(cond)[j].field,
                ) is Some by {
                    if j < acc.len() {
                        assert(acc.push(cond)[j] == acc[j]);
                    }
                }
            }
            if p < p1 <= c.t.len() {
                lemma_and_rest_known(c, p1, acc.push(cond));
            }
        }
    }
}

proof fn lemma_conjunction_known(c: ParseCtx, p: int)
    ensures
        conjunction_at(c, p) matches Ok((conds, _)) ==> conds_known(c, conds),
{
    let p0 = if 0 <= p < c.t.len() && c.t[p] is LeftParen {
        p + 1
    } else {
        p
    };
    if let Ok((first, p1)) = condition_at(c, p0) {
        assert(conds_known(c, seq![first]));
        lemma_and_rest_known(c, p1, seq![first]);
    }
}

proof fn lemma_or_rest_known(c: ParseCtx, p: int, acc: Seq<Seq<CondModel>>)
    requires
        conjs_known(c, acc),
    ensures
        or_rest(c, p, acc) matches Ok((q, _)) ==> conjs_known(c, q),
    decreases c.t.len() - p,
{
    if 0 <= p < c.t.len() && c.t[p] is Or {
        lemma_conjunction_known(c, p + 1);
        if let Ok((conj, p1)) = conjunction_at(c, p + 1) {
            assert(conjs_known(c, acc.push(conj))) by {
                assert forall|i: int| 0 <= i < acc.push(conj).len() implies conds_known(
                    c,
                    #[trigger] acc.push(conj)[i],
                ) by {
                    if i < acc.len() {
                        assert(acc.push(conj)[i] == acc[i]);
                    }
                }
            }
            if p < p1 <= c.t.len() {
                lemma_or_rest_known(c, p1, acc.push(conj));
            }
        }
    }
}

/// Every condition of a successful parse of tokens names a field of the
/// context.
proof fn lemma_parsed_tokens_known(c: ParseCtx)
    ensures
        parse_tokens(c) matches Ok(q) ==> conjs_known(c, q),
{
    lemma_conjunction_known(c, 0);
    if let Ok((first, p1)) = conjunction_at(c, 0) {
        assert(conjs_known(c, seq![first]));
        lemma_or_rest_known(c, p1, seq![first]);
    }
}

/// A query parsed from text names only fields the parser was given: every
/// condition of a successful parse is about one of them.
pub proof fn lemma_parsed_fields_known(
    query: Seq<char>,
    fields: Seq<FieldInfo>,
    custom: Option<Set<Seq<char>>>,
    novalue: Set<Seq<char>>,
)
    ensures
        parse_query_text(query, fields, custom, novalue) matches Ok(q) ==> forall|i: int, j: int|
            0 <= i < q.len() && 0 <= j < q[i].len() ==> field_named(fields, #[trigger] q[i][j].field)
                is Some,
{
    if let Ok(ts) = crate::token::spec_tokenize(query, custom) {
        let c = ParseCtx {
            t: ts,
            fs: fields,
            inp: query,
            nv: novalue,
            offs: crate::token::lex_offsets(query, 0),
        };
        lemma_parsed_tokens_known(c);
        if let Ok(q) = parse_tokens(c) {
            assert forall|i: int, j: int| 0 <= i < q.len() && 0 <= j < q[i].len() implies field_named(
                fields,
                #[trigger] q[i][j].field,
            ) is Some by {
                assert(conds_known(c, q[i]));
            }
        }
    }
}

/// Two texts are ordered `Equal` exactly when they are the same.
proof fn lemma_lex_equal(a: Seq<char>, b: Seq<char>)
    ensures
        (lex_order(a, b) == Order::Equal) == (a == b),
    decreases a.len(),
{
    if a.len() > 0 && b.len() > 0 {
        lemma_lex_equal(a.drop_first(), b.drop_first());
        if a == b {
            assert(a.drop_first() == b.drop_first());
        }
        if lex_order(a, b) == Order::Equal {
            assert((a[0] as int) == (b[0] as int));
            assert(a[0] == b[0]);
            assert(a.drop_first() == b.drop_first());
            assert forall|i: int| 0 <= i < a.len() implies a[i] == b[i] by {
                if i > 0 {
                    assert(a[i] == a.drop_first()[i - 1]);
                    assert(b[i] == b.drop_first()[i - 1]);
                }
            }
            assert(a =~= b);
        }
    } else if a.len() == 0 && b.len() == 0 {
        assert(a =~= b);
    }
}

/// Two lists are ordered `Equal` exactly when they are the same, for
/// elements that rank `Equal` exactly when they are the same.
proof fn lemma_list_equal<T: Ranked>(a: Seq<T>, b: Seq<T>)
    requires
        forall|x: T, y: T| (#[trigger] T::rank(x, y) == Order::Equal) == (x == y),
    ensures
        (list_order(a, b) == Order::Equal) == (a == b),
    decreases a.len(),
{
    if a.len() > 0 && b.len() > 0 {
        lemma_list_equal(a.drop_first(), b.drop_first());
        if a == b {
            assert(a.drop_first() == b.drop_first());
            assert(T::rank(a[0], b[0]) == Order::Equal);
        }
        if list_order(a, b) == Order::Equal {
            assert(T::rank(a[0], b[0]) == Order::Equal);
            assert(a[0] == b[0]);
            assert(a.drop_first() == b.drop_first());
            assert forall|i: int| 0 <= i < a.len() implies a[i] == b[i] by {
                if i > 0 {
                    assert(a[i] == a.drop_first()[i - 1]);
                    assert(b[i] == b.drop_first()[i - 1]);
                }
            }
            assert(a =~= b);
        }
    } else if a.len() == 0 && b.len() == 0 {
        assert(a =~= b);
    }
}

proof fn lemma_rank_laws()
    ensures
        forall|x: Seq<char>, y: Seq<char>|
            (#[trigger] <Seq<char> as Ranked>::rank(x, y) == Order::Equal) == (x == y),
        forall|x: i64, y: i64| (#[trigger] <i64 as Ranked>::rank(x, y) == Order::Equal) == (x == y),
        forall|x: u64, y: u64| (#[trigger] <u64 as Ranked>::rank(x, y) == Order::Equal) == (x == y),
        forall|x: bool, y: bool|
            (#[trigger] <bool as Ranked>::rank(x, y) == Order::Equal) == (x == y),
{
    assert forall|x: Seq<char>, y: Seq<char>|
        (#[trigger] <Seq<char> as Ranked>::rank(x, y) == Order::Equal) == (x == y) by {
        lemma_lex_equal(x, y);
    }
}

/// Two values are equal (`==`) exactly when they are ordered `Equal`
/// (`partial_cmp`): equality and ordering agree.
pub proof fn lemma_equal_iff_ordered_equal(a: ValueModel, b: ValueModel)
    ensures
        values_equal(a, b) == (value_order(a, b) == Some(Order::Equal)),
    decreases a,
{
    lemma_rank_laws();
    match (a, b) {
        (ValueModel::Str(x), ValueModel::Str(y)) => lemma_lex_equal(x, y),
        (ValueModel::StringArray(x), ValueModel::StringArray(y)) => lemma_list_equal(x, y),
        (ValueModel::IntArray(x), ValueModel::IntArray(y)) => lemma_list_equal(x, y),
        (ValueModel::UintArray(x), ValueModel::UintArray(y)) => lemma_list_equal(x, y),
        (ValueModel::BoolArray(x), ValueModel::BoolArray(y)) => lemma_list_equal(x, y),
        (ValueModel::AtKey(k1, v1), ValueModel::AtKey(k2, v2)) => {
            lemma_lex_equal(k1, k2);
            lemma_equal_iff_ordered_equal(*v1, *v2);
        },
        (ValueModel::Keys(v1), ValueModel::Keys(v2)) => lemma_equal_iff_ordered_equal(*v1, *v2),
        (ValueModel::Values(v1), ValueModel::Values(v2)) => lemma_equal_iff_ordered_equal(*v1, *v2),
        (ValueModel::Int(_), ValueModel::Uint(_)) => {},
        (ValueModel::Uint(_), ValueModel::Int(_)) => {},
        (ValueModel::Str(x), other) => lemma_lex_equal(x, other.repr()),
        (other, ValueModel::Str(y)) => lemma_lex_equal(other.repr(), y),
        _ => {},
    }
}

/// Equality of values is reflexive and symmetric.
pub proof fn lemma_equality_reflexive_symmetric(a: ValueModel, b: ValueModel)
    ensures
        values_equal(a, a),
        values_equal(a, b) == values_equal(b, a),
    decreases a,
{
    match (a, b) {
        (ValueModel::AtKey(k1, v1), ValueModel::AtKey(k2, v2)) => {
            lemma_equality_reflexive_symmetric(*v1, *v2);
        },
        (ValueModel::Keys(v1), ValueModel::Keys(v2)) => {
            lemma_equality_reflexive_symmetric(*v1, *v2);
        },
        (ValueModel::Values(v1), ValueModel::Values(v2)) => {
            lemma_equality_reflexive_symmetric(*v1, *v2);
        },
        _ => {
            match a {
                ValueModel::AtKey(_, v1) => lemma_equality_reflexive_symmetric(*v1, *v1),
                ValueModel::Keys(v1) => lemma_equality_reflexive_symmetric(*v1, *v1),
                ValueModel::Values(v1) => lemma_equality_reflexive_symmetric(*v1, *v1),
                _ => {},
            }
        },
    }
}

/// The reverse of an ordering outcome.
pub open spec fn flipped(o: Option<Order>) -> Option<Order> {
    match o {
        Some(Order::Less) => Some(Order::Greater),
        Some(Order::Greater) => Some(Order::Less),
        other => other,
    }
}

proof fn lemma_lex_flip(a: Seq<char>, b: Seq<char>)
    ensures
        Some(lex_order(b, a)) == flipped(Some(lex_order(a, b))),
    decreases a.len(),
{
    if a.len() > 0 && b.len() > 0 {
        lemma_lex_flip(a.drop_first(), b.drop_first());
    }
}

proof fn lemma_list_flip<T: Ranked>(a: Seq<T>, b: Seq<T>)
    requires
        forall|x: T, y: T| Some(#[trigger] T::rank(y, x)) == flipped(Some(T::rank(x, y))),
    ensures
        Some(list_order(b, a)) == flipped(Some(list_order(a, b))),
    decreases a.len(),
{
    if a.len() > 0 && b.len() > 0 {
        assert(Some(T::rank(b[0], a[0])) == flipped(Some(T::rank(a[0], b[0]))));
        lemma_list_flip(a.drop_first(), b.drop_first());
    }
}

proof fn lemma_rank_flips()
    ensures
        forall|x: Seq<char>, y: Seq<char>|
            Some(#[trigger] <Seq<char> as Ranked>::rank(y, x)) == flipped(
                Some(<Seq<char> as Ranked>::rank(x, y)),
            ),
        forall|x: i64, y: i64|
            Some(#[trigger] <i64 as Ranked>::rank(y, x)) == flipped(Some(<i64 as Ranked>::rank(x, y))),
        forall|x: u64, y: u64|
            Some(#[trigger] <u64 as Ranked>::rank(y, x)) == flipped(Some(<u64 as Ranked>::rank(x, y))),
        forall|x: bool, y: bool|
            Some(#[trigger] <bool as Ranked>::rank(y, x)) == flipped(
                Some(<bool as Ranked>::rank(x, y)),
            ),
{
    assert forall|x: Seq<char>, y: Seq<char>|
        Some(#[trigger] <Seq<char> as Ranked>::rank(y, x)) == flipped(
            Some(<Seq<char> as Ranked>::rank(x, y)),
        ) by {
        lemma_lex_flip(x, y);
    }
}

/// Comparing the other way round reverses the outcome: `a < b` exactly
/// when `b > a`, and two values are incomparable in both orders or neither.
#[verifier::rlimit(60)]
pub proof fn lemma_order_reverses(a: ValueModel, b: ValueModel)
    ensures
        value_order(b, a) == flipped(value_order(a, b)),
    decreases a,
{
    match (a, b) {
        (ValueModel::Str(x), ValueModel::Str(y)) => lemma_lex_flip(x, y),
        (ValueModel::StringArray(x), ValueModel::StringArray(y)) => {
            lemma_rank_flips();
            lemma_list_flip(x, y);
        },
        (ValueModel::IntArray(x), ValueModel::IntArray(y)) => {
            lemma_rank_flips();
            lemma_list_flip(x, y);
        },
        (ValueModel::UintArray(x), ValueModel::UintArray(y)) => {
            lemma_rank_flips();
            lemma_list_flip(x, y);
        },
        (ValueModel::BoolArray(x), ValueModel::BoolArray(y)) => {
            lemma_rank_flips();
            lemma_list_flip(x, y);
        },
        (ValueModel::AtKey(k1, v1), ValueModel::AtKey(k2, v2)) => {
            lemma_lex_flip(k1, k2);
            lemma_order_reverses(*v1, *v2);
        },
        (ValueModel::Keys(v1), ValueModel::Keys(v2)) => lemma_order_reverses(*v1, *v2),
        (ValueModel::Values(v1), ValueModel::Values(v2)) => lemma_order_reverses(*v1, *v2),
        (ValueModel::Str(x), other) => lemma_lex_flip(x, other.repr()),
        (other, ValueModel::Str(y)) => lemma_lex_flip(other.repr(), y),
        _ => {},
    }
}

/// Escaping a text character by character from the front.
proof fn lemma_escape_front(c: char, t: Seq<char>)
    ensures
        escape_seq(seq![c] + t) == escape_char(c) + escape_seq(t),
    decreases t.len(),
{
    let u = seq![c] + t;
    if t.len() == 0 {
        assert(u.drop_last() =~= Seq::<char>::empty());
        assert(escape_char(c) + escape_seq(t) =~= escape_char(c));
        assert(escape_seq(u) =~= escape_seq(u.drop_last()) + escape_char(u.last()));
    } else {
        assert(u.drop_last() =~= seq![c] + t.drop_last());
        assert(u.last() == t.last());
        lemma_escape_front(c, t.drop_last());
        assert(escape_seq(u) =~= escape_char(c) + escape_seq(t.drop_last()) + escape_char(t.last()));
    }
}

/// Reading an escaped text back: scanning a string literal whose body is
/// the escaping of `s`, closed by a double quote, gives `s` and resumes
/// after the quote.
pub proof fn lemma_scan_escaped(cs: Seq<char>, j: int, s: Seq<char>)
    requires
        0 <= j,
        j + escape_seq(s).len() < cs.len(),
        cs.subrange(j, j + escape_seq(s).len()) == escape_seq(s),
        cs[j + escape_seq(s).len()] == '"',
    ensures
        scan_string(cs, j, '"') == ScanEnd::Closed(s, j + escape_seq(s).len() + 1),
    decreases s.len(),
{
    if s.len() == 0 {
        assert(escape_seq(s).len() == 0);
        assert(s =~= Seq::<char>::empty());
    } else {
        let c = s[0];
        let t = s.drop_first();
        assert(s =~= seq![c] + t);
        lemma_escape_front(c, t);
        let e = escape_char(c);
        let n: int = escape_seq(s).len() as int;
        assert(escape_seq(s) == e + escape_seq(t));
        assert(cs.subrange(j, j + n)[0] == cs[j]);
        assert(cs.subrange(j + e.len(), j + n) =~= cs.subrange(j, j + n).subrange(e.len() as int, n as int));
        assert(cs.subrange(j + e.len(), j + e.len() + escape_seq(t).len()) == escape_seq(t)) by {
            assert((e + escape_seq(t)).subrange(e.len() as int, n as int) =~= escape_seq(t));
        }
        lemma_scan_escaped(cs, j + e.len(), t);
        let rest = scan_string(cs, j + e.len(), '"');
        assert(rest == ScanEnd::Closed(t, j + n + 1));
        if e.len() == 2 {
            assert(cs[j] == e[0]);
            assert(cs.subrange(j, j + n)[1] == cs[j + 1]);
            assert(cs[j + 1] == e[1]);
            assert(e[0] == '\\');
            assert(unescape(e[1]) == Some(c));
            assert(scan_string(cs, j, '"') == scan_prepend(c, rest));
        } else {
            assert(e =~= seq![c]);
            assert(cs[j] == c);
            assert(c != '\\' && c != '"');
            assert(scan_string(cs, j, '"') == scan_prepend(c, rest));
        }
        assert(seq![c] + t =~= s);
    }
}

/// A text written as a quoted, escaped literal is read back as one string
/// token holding exactly that text.
pub proof fn lemma_quoted_text_tokenizes_back(s: Seq<char>, custom: Option<Set<Seq<char>>>)
    ensures
        spec_tokenize(quoted(s), custom) == Ok::<Seq<TokenModel>, crate::error::ErrorModel>(
            seq![TokenModel::Str(s)],
        ),
{
    let cs = quoted(s);
    let n: int = escape_seq(s).len() as int;
    assert(cs.len() == n + 2);
    assert(cs[0] == '"');
    assert(cs.subrange(1, 1 + n) =~= escape_seq(s));
    assert(cs[1 + n] == '"');
    lemma_scan_escaped(cs, 1, s);
    assert(lex_from(cs, cs.len() as int, custom) == Ok::<Seq<TokenModel>, crate::error::ErrorModel>(
        Seq::empty(),
    ));
    assert(seq![TokenModel::Str(s)] + Seq::<TokenModel>::empty() =~= seq![TokenModel::Str(s)]);
}

/// The digits of a rendered natural number are digits worth that number.
pub proof fn lemma_dec_nat_value(n: nat)
    ensures
        dec_nat(n).len() > 0,
        all_digits(dec_nat(n)),
        decimal_value(dec_nat(n)) == n,
    decreases n,
{
    let d = n % 10;
    assert(digit_value(digit_char(d)) == d && crate::token::is_digit_char(digit_char(d))) by {
        assert(d < 10);
    }
    if n >= 10 {
        lemma_dec_nat_value(n / 10);
        let s = dec_nat(n);
        assert(s == dec_nat(n / 10).push(digit_char(d)));
        assert(s.drop_last() =~= dec_nat(n / 10));
        assert(n == (n / 10) * 10 + d);
        assert(s.last() == digit_char(d));
        assert(decimal_value(s) == decimal_value(s.drop_last()) * 10 + digit_value(s.last()));
        assert(decimal_value(s) == (n / 10) * 10 + d);
        assert forall|i: int| 0 <= i < s.len() implies crate::token::is_digit_char(#[trigger] s[i]) by {
            if i < s.len() - 1 {
                assert(s[i] == dec_nat(n / 10)[i]);
            }
        }
    } else {
        assert(d == n);
        assert(dec_nat(n) == seq![digit_char(n)]);
        assert(dec_nat(n).drop_last() =~= Seq::<char>::empty());
        assert(dec_nat(n).last() == digit_char(n));
        assert(decimal_value(dec_nat(n)) == decimal_value(dec_nat(n).drop_last()) * 10 + digit_value(
            dec_nat(n).last(),
        ));
    }
}

/// A rendered integer reads back as itself: the decimal text written for
/// an unsigned or signed 64-bit integer parses to the same number.
pub proof fn lemma_rendered_integers_parse_back(u: u64, i: i64)
    ensures
        parse_unsigned(dec_nat(u as nat)) == Some(u),
        parse_signed(dec_int(i as int)) == Some(i),
{
    lemma_dec_nat_value(u as nat);
    assert(dec_nat(u as nat)[0] != '+') by {
        assert(crate::token::is_digit_char(dec_nat(u as nat)[0]));
    }
    if i < 0 {
        let m: nat = (0 - i) as nat;
        lemma_dec_nat_value(m);
        let t = dec_int(i as int);
        assert(t == seq!['-'] + dec_nat(m));
        assert(t.drop_first() =~= dec_nat(m));
        assert(m <= 0x8000_0000_0000_0000nat);
    } else {
        lemma_dec_nat_value(i as nat);
        assert(crate::token::is_digit_char(dec_nat(i as nat)[0]));
    }
}

// ---------------------------------------------------------------------
// Validating a builder and the query it builds
// ---------------------------------------------------------------------
/// No condition of `q` is bad.
spec fn no_bad(q: Seq<Seq<CondModel>>, bad: spec_fn(CondModel) -> bool) -> bool {
    forall|i: int, j: int| at(q, i, j) ==> !bad(#[trigger] q[i][j])
}

/// Condition `(i, j)` is the first bad one of `q`.
spec fn first_bad(
    q: Seq<Seq<CondModel>>,
    bad: spec_fn(CondModel) -> bool,
    i: int,
    j: int,
) -> bool {
    &&& at(q, i, j)
    &&& bad(q[i][j])
    &&& forall|i2: int, j2: int| at(q, i2, j2) && earlier(i2, j2, i, j) ==> !bad(#[trigger] q[i2][j2])
}

/// There is only one first bad condition.
proof fn lemma_first_bad_unique(
    q: Seq<Seq<CondModel>>,
    bad: spec_fn(CondModel) -> bool,
    i: int,
    j: int,
    i2: int,
    j2: int,
)
    requires
        first_bad(q, bad, i, j),
        first_bad(q, bad, i2, j2),
    ensures
        i == i2 && j == j2,
{
    if earlier(i2, j2, i, j) {
        assert(!bad(q[i2][j2]));
    } else if earlier(i, j, i2, j2) {
        assert(!bad(q[i][j]));
    }
}

/// Leaving out the empty conjunctions keeps the conditions and their
/// order: whether some condition is bad, and which is the first bad one.
proof fn lemma_nonempty_keeps_bad(q: Seq<Seq<CondModel>>, bad: spec_fn(CondModel) -> bool)
    ensures
        no_bad(q, bad) == no_bad(nonempty_conjunctions(q), bad),
        forall|i: int, j: int|
            first_bad(q, bad, i, j) ==> exists|i2: int|
                #[trigger] first_bad(nonempty_conjunctions(q), bad, i2, j)
                    && nonempty_conjunctions(q)[i2][j] == q[i][j],
        forall|i2: int, j: int|
            first_bad(nonempty_conjunctions(q), bad, i2, j) ==> exists|i: int|
                #[trigger] first_bad(q, bad, i, j) && nonempty_conjunctions(q)[i2][j] == q[i][j],
    decreases q.len(),
{
    let nq = nonempty_conjunctions(q);
    if q.len() == 0 {
        assert(nq == q);
    } else {
        let init = q.drop_last();
        let l = q.last();
        let n = q.len() - 1;
        let ni = nonempty_conjunctions(init);
        lemma_nonempty_keeps_bad(init, bad);
        assert(forall|i: int| 0 <= i < n ==> q[i] == #[trigger] init[i]);
        assert(l == q[n]);
        // Every position of `nq` is one of `ni` or, where `l` is kept, of `l`.
        assert(l.len() > 0 ==> nq == ni.push(l));
        assert(l.len() == 0 ==> nq == ni);
        assert(forall|i: int| 0 <= i < ni.len() ==> nq[i] == #[trigger] ni[i]);
        // no_bad
        assert(no_bad(q, bad) == (no_bad(init, bad) && forall|j: int| 0 <= j < l.len() ==> !bad(
            #[trigger] l[j],
        ))) by {
            if no_bad(q, bad) {
                assert forall|i: int, j: int| at(init, i, j) implies !bad(#[trigger] init[i][j]) by {
                    assert(at(q, i, j));
                }
                assert forall|j: int| 0 <= j < l.len() implies !bad(#[trigger] l[j]) by {
                    assert(at(q, n, j));
                }
            }
            if no_bad(init, bad) && forall|j: int| 0 <= j < l.len() ==> !bad(#[trigger] l[j]) {
                assert forall|i: int, j: int| at(q, i, j) implies !bad(#[trigger] q[i][j]) by {
                    if i < n {
                        assert(at(init, i, j));
                    }
                }
            }
        }
        assert(no_bad(nq, bad) == (no_bad(ni, bad) && forall|j: int| 0 <= j < l.len() ==> !bad(
            #[trigger] l[j],
        ))) by {
            if no_bad(nq, bad) {
                assert forall|i: int, j: int| at(ni, i, j) implies !bad(#[trigger] ni[i][j]) by {
                    assert(at(nq, i, j));
                }
                assert forall|j: int| 0 <= j < l.len() implies !bad(#[trigger] l[j]) by {
                    assert(at(nq, ni.len() as int, j));
                }
            }
            if no_bad(ni, bad) && forall|j: int| 0 <= j < l.len() ==> !bad(#[trigger] l[j]) {
                assert forall|i: int, j: int| at(nq, i, j) implies !bad(#[trigger] nq[i][j]) by {
                    if i < ni.len() {
                        assert(at(ni, i, j));
                    } else {
                        assert(nq[i] == l);
                    }
                }
            }
        }
        // from q to nq
        assert forall|i: int, j: int| first_bad(q, bad, i, j) implies exists|i2: int|
            #[trigger] first_bad(nq, bad, i2, j) && nq[i2][j] == q[i][j] by {
            if i < n {
                assert(first_bad(init, bad, i, j)) by {
                    assert forall|i3: int, j3: int|
                        at(init, i3, j3) && earlier(i3, j3, i, j) implies !bad(
                        #[trigger] init[i3][j3],
                    ) by {
                        assert(at(q, i3, j3));
                    }
                }
                let i2 = choose|i2: int| #[trigger]
                    first_bad(ni, bad, i2, j) && ni[i2][j] == init[i][j];
                assert(first_bad(nq, bad, i2, j)) by {
                    assert forall|i3: int, j3: int|
                        at(nq, i3, j3) && earlier(i3, j3, i2, j) implies !bad(
                        #[trigger] nq[i3][j3],
                    ) by {
                        assert(at(ni, i3, j3));
                    }
                }
            } else {
                assert(no_bad(init, bad)) by {
                    assert forall|i3: int, j3: int| at(init, i3, j3) implies !bad(
                        #[trigger] init[i3][j3],
                    ) by {
                        assert(at(q, i3, j3) && earlier(i3, j3, i, j));
                    }
                }
                let i2 = ni.len() as int;
                assert(nq[i2] == l);
                assert(first_bad(nq, bad, i2, j)) by {
                    assert forall|i3: int, j3: int|
                        at(nq, i3, j3) && earlier(i3, j3, i2, j) implies !bad(
                        #[trigger] nq[i3][j3],
                    ) by {
                        if i3 < i2 {
                            assert(at(ni, i3, j3));
                        } else {
                            assert(at(q, n, j3) && earlier(n, j3, i, j));
                        }
                    }
                }
            }
        }
        // from nq to q
        assert forall|i2: int, j: int| first_bad(nq, bad, i2, j) implies exists|i: int|
            #[trigger] first_bad(q, bad, i, j) && nq[i2][j] == q[i][j] by {
            if i2 < ni.len() {
                assert(first_bad(ni, bad, i2, j)) by {
                    assert forall|i3: int, j3: int|
                        at(ni, i3, j3) && earlier(i3, j3, i2, j) implies !bad(
                        #[trigger] ni[i3][j3],
                    ) by {
                        assert(at(nq, i3, j3));
                    }
                }
                let i = choose|i: int| #[trigger] first_bad(init, bad, i, j) && ni[i2][j] == init[i][j];
                assert(first_bad(q, bad, i, j)) by {
                    assert forall|i3: int, j3: int|
                        at(q, i3, j3) && earlier(i3, j3, i, j) implies !bad(#[trigger] q[i3][j3]) by {
                        assert(at(init, i3, j3));
                    }
                }
            } else {
                assert(nq[i2] == l);
                assert(no_bad(ni, bad)) by {
                    assert forall|i3: int, j3: int| at(ni, i3, j3) implies !bad(
                        #[trigger] ni[i3][j3],
                    ) by {
                        assert(at(nq, i3, j3) && earlier(i3, j3, i2, j));
                    }
                }
                assert(first_bad(q, bad, n, j)) by {
                    assert forall|i3: int, j3: int|
                        at(q, i3, j3) && earlier(i3, j3, n, j) implies !bad(#[trigger] q[i3][j3]) by {
                        if i3 < n {
                            assert(at(init, i3, j3));
                        } else {
                            assert(at(nq, i2, j3) && earlier(i2, j3, i2, j));
                        }
                    }
                }
            }
        }
    }
}

/// Validating a builder and validating the query it builds agree.
///
/// `QueryBuilder::validate` states its result as `validation_result` over
/// the builder's conjunctions, and `DnfQuery::validate` over the query's;
/// `QueryBuilder::build` keeps the registry and leaves out only the empty
/// conjunctions. Whatever the two results are, they are the same success or
/// the same error.
pub proof fn lemma_build_then_validate_agrees<T: DnfEvaluable, O: CustomOp>(
    ops: Option<Map<Seq<char>, O>>,
    q: Seq<Seq<CondModel>>,
    r1: Result<(), ErrorModel>,
    r2: Result<(), ErrorModel>,
)
    requires
        validation_result::<T, O>(ops, q, r1),
        validation_result::<T, O>(ops, nonempty_conjunctions(q), r2),
    ensures
        r1 == r2,
{
    let nq = nonempty_conjunctions(q);
    let bu = |c: CondModel| unregistered(ops, c);
    let bf = |c: CondModel| field_error::<T>(c) is Some;
    lemma_nonempty_keeps_bad(q, bu);
    lemma_nonempty_keeps_bad(q, bf);
    assert(all_registered(ops, q) == no_bad(q, bu));
    assert(all_registered(ops, nq) == no_bad(nq, bu));
    assert((forall|i: int, j: int| at(q, i, j) ==> field_error::<T>(#[trigger] q[i][j]) is None)
        == no_bad(q, bf));
    assert((forall|i: int, j: int| at(nq, i, j) ==> field_error::<T>(#[trigger] nq[i][j]) is None)
        == no_bad(nq, bf));
    assert(forall|i: int, j: int| first_unregistered(ops, q, i, j) == #[trigger] first_bad(q, bu, i, j));
    assert(forall|i: int, j: int| first_unregistered(ops, nq, i, j) == #[trigger] first_bad(nq, bu, i, j));
    assert(forall|i: int, j: int| first_field_error::<T>(q, i, j) == #[trigger] first_bad(q, bf, i, j));
    assert(forall|i: int, j: int| first_field_error::<T>(nq, i, j) == #[trigger] first_bad(nq, bf, i, j));
    match r1 {
        Ok(u1) => {
            match r2 {
                Ok(u2) => {
                    assert(u1 == u2);
                },
                Err(e2) => {
                    if exists|i: int, j: int| first_unregistered(ops, nq, i, j) {
                        let (i, j) = choose|i: int, j: int| first_unregistered(ops, nq, i, j);
                        assert(bu(nq[i][j]));
                    } else {
                        let (i, j) = choose|i: int, j: int| first_field_error::<T>(nq, i, j);
                        assert(bf(nq[i][j]));
                    }
                    assert(false);
                },
            }
        },
        Err(e1) => {
            if exists|i: int, j: int| first_unregistered(ops, q, i, j) {
                let (i, j) = choose|i: int, j: int| first_unregistered(ops, q, i, j);
                assert(first_bad(q, bu, i, j));
                let i2 = choose|i2: int| #[trigger] first_bad(nq, bu, i2, j) && nq[i2][j] == q[i][j];
                assert(first_unregistered(ops, nq, i2, j));
                assert(e1 == ErrorModel::UnregisteredCustomOp { operator_name: custom_name_of(q[i][j]) }) by {
                    if !(exists|a: int, b: int|
                        first_unregistered(ops, q, a, b) && e1 == (ErrorModel::UnregisteredCustomOp {
                            operator_name: custom_name_of(#[trigger] q[a][b]),
                        })) {
                        assert(!bu(q[i][j]));
                    } else {
                        let (a, b) = choose|a: int, b: int|
                            first_unregistered(ops, q, a, b) && e1 == (ErrorModel::UnregisteredCustomOp {
                                operator_name: custom_name_of(#[trigger] q[a][b]),
                            });
                        lemma_first_bad_unique(q, bu, i, j, a, b);
                    }
                }
                match r2 {
                    Ok(_) => {
                        assert(!bu(nq[i2][j]));
                    },
                    Err(e2) => {
                        if exists|a: int, b: int|
                            first_unregistered(ops, nq, a, b) && e2 == (ErrorModel::UnregisteredCustomOp {
                                operator_name: custom_name_of(#[trigger] nq[a][b]),
                            }) {
                            let (a, b) = choose|a: int, b: int|
                                first_unregistered(ops, nq, a, b) && e2 == (ErrorModel::UnregisteredCustomOp {
                                    operator_name: custom_name_of(#[trigger] nq[a][b]),
                                });
                            lemma_first_bad_unique(nq, bu, i2, j, a, b);
                        } else {
                            assert(!bu(nq[i2][j]));
                        }
                    },
                }
            } else {
                assert(all_registered(ops, q));
                let (i, j) = choose|i: int, j: int|
                    first_field_error::<T>(q, i, j) && field_error::<T>(#[trigger] q[i][j]) == Some(e1);
                assert(first_bad(q, bf, i, j));
                let i2 = choose|i2: int| #[trigger] first_bad(nq, bf, i2, j) && nq[i2][j] == q[i][j];
                assert(no_bad(nq, bu));
                match r2 {
                    Ok(_) => {
                        assert(!bf(nq[i2][j]));
                    },
                    Err(e2) => {
                        if exists|a: int, b: int| first_unregistered(ops, nq, a, b) {
                            let (a, b) = choose|a: int, b: int| first_unregistered(ops, nq, a, b);
                            assert(bu(nq[a][b]));
                        } else {
                            let (a, b) = choose|a: int, b: int|
                                first_field_error::<T>(nq, a, b) && field_error::<T>(
                                    #[trigger] nq[a][b],
                                ) == Some(e2);
                            lemma_first_bad_unique(nq, bf, i2, j, a, b);
                        }
                    },
                }
            }
        },
    }
}


// ---------------------------------------------------------------------
// Text order
// ---------------------------------------------------------------------
/// Texts are ordered by their first difference: where `a` and `b` agree
/// before index `i` and differ at `i` (an index both have), the text with
/// the smaller character there comes first, whatever the lengths.
pub proof fn lemma_lex_order_first_difference(a: Seq<char>, b: Seq<char>, i: int)
    requires
        0 <= i,
        i < a.len(),
        i < b.len(),
        a.take(i) == b.take(i),
        a[i] != b[i],
    ensures
        lex_order(a, b) == (if (a[i] as int) < (b[i] as int) {
            Order::Less
        } else {
            Order::Greater
        }),
    decreases i,
{
    if i > 0 {
        assert(a[0] == a.take(i)[0]);
        assert(b[0] == b.take(i)[0]);
        assert(a.drop_first().take(i - 1) =~= a.take(i).drop_first());
        assert(b.drop_first().take(i - 1) =~= b.take(i).drop_first());
        lemma_lex_order_first_difference(a.drop_first(), b.drop_first(), i - 1);
    }
}

/// A proper prefix comes before the longer text, and the longer text
/// after it.
pub proof fn lemma_lex_order_prefix_first(a: Seq<char>, b: Seq<char>)
    requires
        a.len() < b.len(),
        b.take(a.len() as int) == a,
    ensures
        lex_order(a, b) == Order::Less,
        lex_order(b, a) == Order::Greater,
    decreases a.len(),
{
    if a.len() > 0 {
        assert(b[0] == b.take(a.len() as int)[0]);
        assert(b.drop_first().take(a.len() - 1) =~= b.take(a.len() as int).drop_first());
        lemma_lex_order_prefix_first(a.drop_first(), b.drop_first());
    }
}

/// A text compares equal to itself (and, with
/// [`lemma_equal_iff_ordered_equal`], only to itself).
pub proof fn lemma_lex_order_self_equal(a: Seq<char>)
    ensures
        lex_order(a, a) == Order::Equal,
    decreases a.len(),
{
    if a.len() > 0 {
        lemma_lex_order_self_equal(a.drop_first());
    }
}

// ---------------------------------------------------------------------
// String literals with either quote
// ---------------------------------------------------------------------
/// Scanning a literal body that holds neither its quote nor a backslash
/// gives the body itself and resumes after the closing quote.
proof fn lemma_scan_plain(cs: Seq<char>, j: int, s: Seq<char>, q: char)
    requires
        q != '\\',
        0 <= j,
        j + s.len() < cs.len(),
        cs.subrange(j, j + s.len()) == s,
        cs[j + s.len()] == q,
        forall|k: int| 0 <= k < s.len() ==> #[trigger] s[k] != q && s[k] != '\\',
    ensures
        scan_string(cs, j, q) == ScanEnd::Closed(s, j + s.len() + 1),
    decreases s.len(),
{
    if s.len() == 0 {
        assert(s =~= Seq::<char>::empty());
        assert(cs[j] == q);
    } else {
        let t = s.drop_first();
        assert(cs[j] == cs.subrange(j, j + s.len())[0]);
        assert(cs[j] == s[0]);
        assert(s[0] != q && s[0] != '\\');
        assert(cs.subrange(j + 1, j + 1 + t.len()) =~= cs.subrange(j, j + s.len()).drop_first());
        assert forall|k: int| 0 <= k < t.len() implies #[trigger] t[k] != q && t[k] != '\\' by {
            assert(t[k] == s[k + 1]);
        }
        lemma_scan_plain(cs, j + 1, t, q);
        assert(scan_string(cs, j, q) == scan_prepend(s[0], scan_string(cs, j + 1, q)));
        assert(seq![s[0]] + t =~= s);
    }
}

/// A literal opened by a single or a double quote runs to the next
/// occurrence of that same quote: a text holding neither that quote nor a
/// backslash, between two such quotes, is read as one string token holding
/// exactly that text (the other quote character included).
pub proof fn lemma_quoted_plain_text_tokenizes(
    q: char,
    s: Seq<char>,
    custom: Option<Set<Seq<char>>>,
)
    requires
        q == '"' || q == '\'',
        forall|k: int| 0 <= k < s.len() ==> #[trigger] s[k] != q && s[k] != '\\',
    ensures
        spec_tokenize(seq![q] + s + seq![q], custom) == Ok::<
            Seq<TokenModel>,
            crate::error::ErrorModel,
        >(seq![TokenModel::Str(s)]),
{
    let cs = seq![q] + s + seq![q];
    let n: int = s.len() as int;
    assert(cs.len() == n + 2);
    assert(cs[0] == q);
    assert(cs.subrange(1, 1 + n) =~= s);
    assert(cs[1 + n] == q);
    lemma_scan_plain(cs, 1, s, q);
    assert(lex_from(cs, cs.len() as int, custom) == Ok::<Seq<TokenModel>, crate::error::ErrorModel>(
        Seq::empty(),
    ));
    assert(seq![TokenModel::Str(s)] + Seq::<TokenModel>::empty() =~= seq![TokenModel::Str(s)]);
}

// ---------------------------------------------------------------------
// Operators on collections, by position
// ---------------------------------------------------------------------
/// `STARTS WITH` on a collection decides by its first element and `ENDS
/// WITH` by its last: adding an element in front (behind) makes the
/// outcome that of the added element, and an empty collection neither
/// starts nor ends with anything.
pub proof fn lemma_ends_decide_by_end_elements<T: FieldElem>(
    op: OpModel,
    x: T,
    items: Seq<T>,
    v: ValueModel,
)
    ensures
        op.base == BaseModel::StartsWith ==> any_holds(op, seq![x] + items, v) == (x.spec_equals(
            v,
        ) != op.inverse),
        op.base == BaseModel::EndsWith ==> any_holds(op, items.push(x), v) == (x.spec_equals(v)
            != op.inverse),
        (op.base == BaseModel::StartsWith || op.base == BaseModel::EndsWith) ==> any_holds(
            op,
            Seq::<T>::empty(),
            v,
        ) == op.inverse,
{
    assert((seq![x] + items)[0] == x);
    assert(items.push(x).last() == x);
}

/// `>` and `<` on a collection compare its first element, and hold for no
/// empty collection; `==` holds only for a single element equal to the value.
pub proof fn lemma_collection_compare_first<T: FieldElem>(
    op: OpModel,
    x: T,
    y: T,
    items: Seq<T>,
    v: ValueModel,
)
    ensures
        op.base == BaseModel::Comparison(crate::operator::ComparisonOrdering::Greater) ==> any_holds(
            op,
            seq![x] + items,
            v,
        ) == ((x.spec_order(v) == Some(Order::Greater)) != op.inverse),
        op.base == BaseModel::Comparison(crate::operator::ComparisonOrdering::Less) ==> any_holds(
            op,
            seq![x] + items,
            v,
        ) == ((x.spec_order(v) == Some(Order::Less)) != op.inverse),
        op.base is Comparison ==> any_holds(op, Seq::<T>::empty(), v) == op.inverse,
        op.base == BaseModel::Eq ==> any_holds(op, seq![x], v) == (x.spec_equals(v) != op.inverse),
        op.base == BaseModel::Eq ==> any_holds(op, seq![x, y] + items, v) == op.inverse,
{
    assert((seq![x] + items)[0] == x);
    assert((seq![x, y] + items).len() >= 2);
}

/// `CONTAINS` on a collection holds when some element equals the value:
/// adding an element makes it hold exactly when it held before or the
/// added element equals the value; an empty collection contains nothing.
pub proof fn lemma_contains_grows<T: FieldElem>(op: OpModel, x: T, items: Seq<T>, v: ValueModel)
    requires
        op.base == BaseModel::Contains,
        !op.inverse,
    ensures
        any_holds(op, items.push(x), v) == (any_holds(op, items, v) || x.spec_equals(v)),
        !any_holds(op, Seq::<T>::empty(), v),
{
    let p = items.push(x);
    if any_holds(op, items, v) {
        let k = choose|k: int| 0 <= k < items.len() && #[trigger] items[k].spec_equals(v);
        assert(p[k] == items[k]);
    }
    if x.spec_equals(v) {
        assert(p[items.len() as int] == x);
    }
    if any_holds(op, p, v) {
        let k = choose|k: int| 0 <= k < p.len() && #[trigger] p[k].spec_equals(v);
        if k < items.len() {
            assert(p[k] == items[k]);
        }
    }
}

// ---------------------------------------------------------------------
// Operators on text fields
// ---------------------------------------------------------------------
/// On a text field, `>` and `<` against a text decide by the first
/// character where the two differ (at an index both have): `<` holds
/// exactly when the field's character there is the smaller one, `>` when it
/// is the larger, whatever the lengths.
pub proof fn lemma_text_comparison_by_first_difference(
    op: OpModel,
    f: Seq<char>,
    w: Seq<char>,
    i: int,
)
    requires
        0 <= i,
        i < f.len(),
        i < w.len(),
        f.take(i) == w.take(i),
        f[i] != w[i],
    ensures
        op.base == BaseModel::Comparison(crate::operator::ComparisonOrdering::Less) ==> str_holds(
            op,
            f,
            ValueModel::Str(w),
        ) == (((f[i] as int) < (w[i] as int)) != op.inverse),
        op.base == BaseModel::Comparison(crate::operator::ComparisonOrdering::Greater) ==> str_holds(
            op,
            f,
            ValueModel::Str(w),
        ) == (((f[i] as int) > (w[i] as int)) != op.inverse),
{
    lemma_lex_order_first_difference(f, w, i);
}

/// On a text field, a text is less than any longer text it begins, and
/// not less than itself.
pub proof fn lemma_text_comparison_prefix(op: OpModel, f: Seq<char>, w: Seq<char>)
    requires
        op.base == BaseModel::Comparison(crate::operator::ComparisonOrdering::Less),
        !op.inverse,
    ensures
        f.len() < w.len() && w.take(f.len() as int) == f ==> str_holds(op, f, ValueModel::Str(w)),
        !str_holds(op, f, ValueModel::Str(f)),
{
    if f.len() < w.len() && w.take(f.len() as int) == f {
        lemma_lex_order_prefix_first(f, w);
    }
    lemma_lex_order_self_equal(f);
}

/// On a text field, `STARTS WITH`, `ENDS WITH` and `CONTAINS` hold for a
/// text at the front, at the back and anywhere in the field.
pub proof fn lemma_text_affixes_hold(a: Seq<char>, p: Seq<char>, b: Seq<char>)
    ensures
        str_holds(OpModel { base: BaseModel::StartsWith, inverse: false }, p + b, ValueModel::Str(p)),
        str_holds(OpModel { base: BaseModel::EndsWith, inverse: false }, a + p, ValueModel::Str(p)),
        str_holds(OpModel { base: BaseModel::Contains, inverse: false }, a + p + b, ValueModel::Str(p)),
{
    assert((p + b).take(p.len() as int) =~= p);
    assert((a + p).skip((a + p).len() - p.len()) =~= p);
    assert((a + p + b).subrange(a.len() as int, (a.len() + p.len()) as int) =~= p);
    assert(crate::text::occurs_at(a + p + b, p, a.len() as int));
}

/// On a text field, `STARTS WITH` and `ENDS WITH` fail for a text longer
/// than the field.
pub proof fn lemma_text_affix_longer_fails(f: Seq<char>, w: Seq<char>)
    requires
        f.len() < w.len(),
    ensures
        !str_holds(OpModel { base: BaseModel::StartsWith, inverse: false }, f, ValueModel::Str(w)),
        !str_holds(OpModel { base: BaseModel::EndsWith, inverse: false }, f, ValueModel::Str(w)),
        !str_holds(OpModel { base: BaseModel::Contains, inverse: false }, f, ValueModel::Str(w)),
{
}

// ---------------------------------------------------------------------
// Operators on integer and boolean fields
// ---------------------------------------------------------------------
/// On an integer field, `==`, `>` and `<` against an integer compare the
/// mathematical values, whichever of the two is signed.
pub proof fn lemma_integer_comparisons_by_value(i: i64, u: u64, v: ValueModel)
    requires
        v is Int || v is Uint,
    ensures
        ({
            let m: int = match v {
                ValueModel::Int(x) => x as int,
                ValueModel::Uint(x) => x as int,
                _ => 0,
            };
            &&& int_holds(OpModel { base: BaseModel::Eq, inverse: false }, i, v) == (i as int == m)
            &&& int_holds(
                OpModel {
                    base: BaseModel::Comparison(crate::operator::ComparisonOrdering::Less),
                    inverse: false,
                },
                i,
                v,
            ) == ((i as int) < m)
            &&& int_holds(
                OpModel {
                    base: BaseModel::Comparison(crate::operator::ComparisonOrdering::Greater),
                    inverse: false,
                },
                i,
                v,
            ) == ((i as int) > m)
            &&& crate::operator::uint_holds(OpModel { base: BaseModel::Eq, inverse: false }, u, v)
                == (u as int == m)
            &&& crate::operator::uint_holds(
                OpModel {
                    base: BaseModel::Comparison(crate::operator::ComparisonOrdering::Less),
                    inverse: false,
                },
                u,
                v,
            ) == ((u as int) < m)
            &&& crate::operator::uint_holds(
                OpModel {
                    base: BaseModel::Comparison(crate::operator::ComparisonOrdering::Greater),
                    inverse: false,
                },
                u,
                v,
            ) == ((u as int) > m)
        }),
{
}

/// On a boolean field, `==` against a boolean is equality, and `false` is
/// less than `true`.
pub proof fn lemma_boolean_comparisons(b: bool, c: bool)
    ensures
        bool_holds(OpModel { base: BaseModel::Eq, inverse: false }, b, ValueModel::Bool(c)) == (b
            == c),
        bool_holds(
            OpModel {
                base: BaseModel::Comparison(crate::operator::ComparisonOrdering::Less),
                inverse: false,
            },
            b,
            ValueModel::Bool(c),
        ) == (!b && c),
        bool_holds(
            OpModel {
                base: BaseModel::Comparison(crate::operator::ComparisonOrdering::Greater),
                inverse: false,
            },
            b,
            ValueModel::Bool(c),
        ) == (b && !c),
{
}

} // verus!
