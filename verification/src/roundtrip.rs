//! Writing a query as text and reading it back.
use vstd::prelude::*;

use crate::error::ErrorModel;
use crate::grammar::{
    as_signed, as_unsigned, range_at, range_number, range_rest, and_rest, condition_at,
    conjunction_at, field_named, flexible_value_at, is_signed_name, is_unsigned_name, looks_float,
    or_rest, parse_tokens, starts_minus, typed_number, typed_value_at, ParseCtx,
};
use crate::laws::lemma_rendered_integers_parse_back;
use crate::parser::parse_query_text;
use crate::schema::FieldInfo;
use crate::types::{base_type, is_bool_type_name, is_float_name, is_string_type_name, option_inner};
use crate::laws::{lemma_dec_nat_value, lemma_scan_escaped};
use crate::numeric::{parse_signed, parse_unsigned, unsigned_digits};
use crate::operator::{op_text, BaseModel, OpModel};
use crate::query::{
    cond_equal, cond_text, conj_equal, conj_text, join_with, query_equal, query_text, CondModel,
};
use crate::text::{dec_int, dec_nat, occurs_at, starts_with_seq};
use crate::token::{bool_text, is_blank, is_digit_char, number_end};
use crate::value::{bracketed, escape_seq, join_items, quoted, ValueModel};
use crate::text::{byte_pos, is_ascii_alphanumeric, spec_is_whitespace};
use crate::token::{
    ident_end, is_ident_start, is_word_char, lex_from, lex_step, space_end, spec_tokenize, word_end,
    word_step, TokenModel,
};

verus! {

/// `ts` put in front of the tokens of a successful lex.
pub open spec fn prepend_all(
    ts: Seq<TokenModel>,
    r: Result<Seq<TokenModel>, ErrorModel>,
) -> Result<Seq<TokenModel>, ErrorModel> {
    match r {
        Ok(x) => Ok(ts + x),
        Err(e) => Err(e),
    }
}

/// Putting two runs of tokens in front, one after the other.
pub proof fn lemma_prepend_twice(
    a: Seq<TokenModel>,
    b: Seq<TokenModel>,
    r: Result<Seq<TokenModel>, ErrorModel>,
)
    ensures
        prepend_all(a, prepend_all(b, r)) == prepend_all(a + b, r),
{
    if let Ok(x) = r {
        assert(a + (b + x) =~= (a + b) + x);
    }
}

/// The tokens of an optional token.
pub open spec fn opt_seq(t: Option<TokenModel>) -> Seq<TokenModel> {
    match t {
        Some(t) => seq![t],
        None => Seq::empty(),
    }
}

/// One lexer step, then the rest of the input.
pub proof fn lemma_lex_step_then(
    cs: Seq<char>,
    i: int,
    custom: Option<Set<Seq<char>>>,
    t: Option<TokenModel>,
    k: int,
)
    requires
        0 <= i < k <= cs.len(),
        lex_step(cs, i, custom) == Ok::<(Option<TokenModel>, int), ErrorModel>((t, k)),
    ensures
        lex_from(cs, i, custom) == prepend_all(opt_seq(t), lex_from(cs, k, custom)),
{
    match lex_from(cs, k, custom) {
        Ok(rest) => {
            match t {
                Some(tok) => {},
                None => assert(Seq::<TokenModel>::empty() + rest =~= rest),
            }
        },
        Err(e) => {},
    }
}

/// A word of ASCII letters, digits and underscores.
pub open spec fn ascii_word(w: Seq<char>) -> bool {
    forall|j: int| 0 <= j < w.len() ==> is_ascii_alphanumeric(#[trigger] w[j]) || w[j] == '_'
}

/// Ends a word: not a word character, and not a dot.
pub open spec fn word_stop(c: char) -> bool {
    !is_word_char(c) && c != '.'
}

/// `w` stands in `cs` at `i`, and is followed by the end of the input or by
/// a character that ends a word.
pub open spec fn word_at(cs: Seq<char>, i: int, w: Seq<char>) -> bool {
    &&& 0 <= i
    &&& i + w.len() <= cs.len()
    &&& cs.subrange(i, i + w.len()) == w
    &&& (i + w.len() == cs.len() || word_stop(cs[i + w.len()]))
}

proof fn lemma_ascii_word_char(c: char)
    requires
        is_ascii_alphanumeric(c) || c == '_',
    ensures
        is_word_char(c),
{
}

/// Identifiers and words end where an ASCII word does.
pub proof fn lemma_word_ends(cs: Seq<char>, i: int, w: Seq<char>, j: int)
    requires
        word_at(cs, i, w),
        ascii_word(w),
        i <= j <= i + w.len(),
    ensures
        ident_end(cs, j) == i + w.len(),
        word_end(cs, j) == i + w.len(),
    decreases i + w.len() - j,
{
    if j < i + w.len() {
        assert(cs[j] == cs.subrange(i, i + w.len())[j - i]);
        lemma_ascii_word_char(w[j - i]);
        assert(cs[j] != '.') by {
            assert(is_ascii_alphanumeric(w[j - i]) || w[j - i] == '_');
        }
        lemma_word_ends(cs, i, w, j + 1);
    } else if j < cs.len() {
        assert(word_stop(cs[j]));
    }
}

/// A word that starts like an identifier is read by `word_step`.
pub proof fn lemma_word_lexes(cs: Seq<char>, i: int, w: Seq<char>, custom: Option<Set<Seq<char>>>)
    requires
        word_at(cs, i, w),
        ascii_word(w),
        w.len() > 0,
        is_ident_start(w[0]),
    ensures
        lex_step(cs, i, custom) == word_step(cs, i + w.len(), w, byte_pos(cs, i), custom),
{
    assert(cs[i] == cs.subrange(i, i + w.len())[0]);
    lemma_word_ends(cs, i, w, i + 1);
}

/// A space then an ASCII word: the space is skipped and the word read.
pub proof fn lemma_space_then_word(cs: Seq<char>, e: int, w: Seq<char>)
    requires
        0 <= e < cs.len(),
        cs[e] == ' ',
        word_at(cs, e + 1, w),
        ascii_word(w),
        w.len() > 0,
    ensures
        space_end(cs, e) == e + 1,
        word_end(cs, e + 1) == e + 1 + w.len(),
        cs.subrange(e + 1, e + 1 + w.len()) == w,
{
    assert(cs[e + 1] == cs.subrange(e + 1, e + 1 + w.len())[0]);
    assert(is_ascii_alphanumeric(w[0]) || w[0] == '_');
    assert(!spec_is_whitespace(cs[e + 1]));
    assert(spec_is_whitespace(cs[e]));
    assert(space_end(cs, e + 1) == e + 1);
    lemma_word_ends(cs, e + 1, w, e + 1);
}

/// The operators after which the parser infers a value's kind from its
/// literal: equality, the text operators and `IN` / `ALL OF`, plain or
/// negated.
pub open spec fn infers_value_kind(op: OpModel) -> bool {
    match op.base {
        BaseModel::Eq | BaseModel::Contains | BaseModel::StartsWith | BaseModel::EndsWith
        | BaseModel::AnyOf | BaseModel::AllOf => true,
        _ => false,
    }
}

/// The operators the parser reads back from their tokens: equality, the
/// comparisons, the text operators, `IN`, `ALL OF` and `BETWEEN`, plain or
/// negated, and custom operators that are not negated.
pub open spec fn is_readable_op(op: OpModel) -> bool {
    ||| infers_value_kind(op)
    ||| op.base is Comparison
    ||| op.base is Between
    ||| op.base is Custom && !op.inverse
}

/// A custom operator's name that the lexer reads back as that operator: an
/// ASCII word that starts with a letter or `_`, is no keyword, and is one
/// of the custom operator names.
pub open spec fn is_custom_op_word(w: Seq<char>, custom: Option<Set<Seq<char>>>) -> bool {
    &&& w.len() > 0
    &&& ascii_word(w)
    &&& is_ident_start(w[0])
    &&& !is_keyword(w)
    &&& (custom matches Some(names) && names.contains(w))
}

/// The operators whose written form reads back: those the parser reads
/// back, a custom one under a name the lexer reads as it.
pub open spec fn is_writable_op(op: OpModel, custom: Option<Set<Seq<char>>>) -> bool {
    &&& is_readable_op(op)
    &&& (op.base matches BaseModel::Custom(name) ==> is_custom_op_word(name, custom))
}

/// The token an operator is read as.
pub open spec fn op_token(op: OpModel) -> TokenModel {
    match op.base {
        BaseModel::Eq => if op.inverse {
            TokenModel::Ne
        } else {
            TokenModel::Eq
        },
        BaseModel::Contains => if op.inverse {
            TokenModel::NotContains
        } else {
            TokenModel::Contains
        },
        BaseModel::StartsWith => if op.inverse {
            TokenModel::NotStartsWith
        } else {
            TokenModel::StartsWith
        },
        BaseModel::EndsWith => if op.inverse {
            TokenModel::NotEndsWith
        } else {
            TokenModel::EndsWith
        },
        BaseModel::AnyOf => if op.inverse {
            TokenModel::NotAnyOf
        } else {
            TokenModel::AnyOf
        },
        BaseModel::AllOf => if op.inverse {
            TokenModel::NotAllOf
        } else {
            TokenModel::AllOf
        },
        BaseModel::Comparison(crate::operator::ComparisonOrdering::Greater) => if op.inverse {
            TokenModel::Lte
        } else {
            TokenModel::Gt
        },
        BaseModel::Comparison(crate::operator::ComparisonOrdering::Less) => if op.inverse {
            TokenModel::Gte
        } else {
            TokenModel::Lt
        },
        BaseModel::Between => if op.inverse {
            TokenModel::NotBetween
        } else {
            TokenModel::Between
        },
        BaseModel::Custom(name) => if op.inverse {
            TokenModel::Consumed
        } else {
            TokenModel::CustomOp(name)
        },
        _ => TokenModel::Consumed,
    }
}

/// The two parts of a text that stands in `cs` at `i`.
pub proof fn lemma_split_at(cs: Seq<char>, i: int, a: Seq<char>, b: Seq<char>)
    requires
        0 <= i,
        i + a.len() + b.len() <= cs.len(),
        cs.subrange(i, i + a.len() + b.len()) == a + b,
    ensures
        cs.subrange(i, i + a.len()) == a,
        cs.subrange(i + a.len(), i + a.len() + b.len()) == b,
{
    assert(cs.subrange(i, i + a.len()) =~= (a + b).subrange(0, a.len() as int));
    assert(cs.subrange(i + a.len(), i + a.len() + b.len()) =~= (a + b).subrange(
        a.len() as int,
        (a.len() + b.len()) as int,
    ));
}

/// An ASCII word standing at `i` and followed by a space.
proof fn lemma_word_before_space(cs: Seq<char>, i: int, w: Seq<char>)
    requires
        0 <= i,
        i + w.len() < cs.len(),
        cs.subrange(i, i + w.len()) == w,
        cs[i + w.len()] == ' ',
    ensures
        word_at(cs, i, w),
{
    assert(word_stop(' '));
}

/// A two-word keyword `a b` followed by a space: the second word is read
/// after the first.
proof fn lemma_two_words(cs: Seq<char>, i: int, a: Seq<char>, b: Seq<char>)
    requires
        0 <= i,
        i + a.len() + 1 + b.len() < cs.len(),
        cs.subrange(i, i + a.len() + 1 + b.len()) == a + " "@ + b,
        cs[i + a.len() + 1 + b.len()] == ' ',
        ascii_word(a),
        ascii_word(b),
        b.len() > 0,
    ensures
        word_at(cs, i, a),
        space_end(cs, i + a.len()) == i + a.len() + 1,
        word_end(cs, i + a.len() + 1) == i + a.len() + 1 + b.len(),
        cs.subrange(i + a.len() + 1, i + a.len() + 1 + b.len()) == b,
{
    reveal_strlit(" ");
    lemma_split_at(cs, i, a + " "@, b);
    lemma_split_at(cs, i, a, " "@);
    assert(cs[i + a.len()] == cs.subrange(i + a.len(), i + a.len() + 1)[0]);
    lemma_word_before_space(cs, i, a);
    lemma_word_before_space(cs, i + a.len() + 1, b);
    lemma_space_then_word(cs, i + a.len(), b);
}

/// An operator written in `cs` at `i` and followed by a space is read as
/// its token, and reading resumes after it.
#[verifier::spinoff_prover]
#[verifier::rlimit(60)]
pub proof fn lemma_op_lexes(cs: Seq<char>, i: int, op: OpModel, custom: Option<Set<Seq<char>>>)
    requires
        is_writable_op(op, custom),
        0 <= i,
        i + op_text(op).len() < cs.len(),
        cs.subrange(i, i + op_text(op).len()) == op_text(op),
        cs[i + op_text(op).len()] == ' ',
    ensures
        lex_step(cs, i, custom) == Ok::<(Option<TokenModel>, int), ErrorModel>(
            (Some(op_token(op)), i + op_text(op).len()),
        ),
{
    reveal_strlit("NOT ");
    reveal_strlit("NOT");
    reveal_strlit("==");
    reveal_strlit("!=");
    reveal_strlit("<=");
    reveal_strlit(">=");
    reveal_strlit("<");
    reveal_strlit(">");
    reveal_strlit("CONTAINS");
    reveal_strlit("STARTS WITH");
    reveal_strlit("ENDS WITH");
    reveal_strlit("STARTS");
    reveal_strlit("ENDS");
    reveal_strlit("WITH");
    reveal_strlit("AND");
    reveal_strlit("OR");
    reveal_strlit("true");
    reveal_strlit("false");
    reveal_strlit("null");
    reveal_strlit("IN");
    reveal_strlit("BETWEEN");
    reveal_strlit("ALL");
    reveal_strlit("OF");
    reveal_strlit("ALL OF");
    reveal_strlit(" ");
    let t = op_text(op);
    let n = t.len();
    assert(cs[i] == cs.subrange(i, i + n)[0]);
    if n >= 2 {
        assert(cs[i + 1] == cs.subrange(i, i + n)[1]);
    }
    match op.base {
        BaseModel::Eq => {},
        BaseModel::Comparison(_) => {},
        BaseModel::Contains => {
            if op.inverse {
                assert(t =~= "NOT"@ + " "@ + "CONTAINS"@);
                lemma_two_words(cs, i, "NOT"@, "CONTAINS"@);
                lemma_word_lexes(cs, i, "NOT"@, custom);
            } else {
                lemma_word_before_space(cs, i, "CONTAINS"@);
                lemma_word_lexes(cs, i, "CONTAINS"@, custom);
            }
        },
        BaseModel::StartsWith => {
            if op.inverse {
                assert(t =~= "NOT"@ + " "@ + "STARTS"@ + " "@ + "WITH"@);
                assert(t =~= ("NOT"@ + " "@ + "STARTS"@) + (" "@ + "WITH"@));
                lemma_split_at(cs, i, "NOT"@ + " "@ + "STARTS"@, " "@ + "WITH"@);
                assert(t =~= ("NOT"@ + " "@) + ("STARTS"@ + " "@ + "WITH"@));
                lemma_split_at(cs, i, "NOT"@ + " "@, "STARTS"@ + " "@ + "WITH"@);
                let m = ("NOT"@ + " "@ + "STARTS"@).len() as int;
                assert(cs[i + m] == cs.subrange(i + m, i + n)[0]);
                lemma_two_words(cs, i, "NOT"@, "STARTS"@);
                lemma_two_words(cs, i + 4, "STARTS"@, "WITH"@);
                lemma_word_lexes(cs, i, "NOT"@, custom);
            } else {
                assert(t =~= "STARTS"@ + " "@ + "WITH"@);
                lemma_two_words(cs, i, "STARTS"@, "WITH"@);
                lemma_word_lexes(cs, i, "STARTS"@, custom);
            }
        },
        BaseModel::EndsWith => {
            if op.inverse {
                assert(t =~= "NOT"@ + " "@ + "ENDS"@ + " "@ + "WITH"@);
                assert(t =~= ("NOT"@ + " "@ + "ENDS"@) + (" "@ + "WITH"@));
                lemma_split_at(cs, i, "NOT"@ + " "@ + "ENDS"@, " "@ + "WITH"@);
                assert(t =~= ("NOT"@ + " "@) + ("ENDS"@ + " "@ + "WITH"@));
                lemma_split_at(cs, i, "NOT"@ + " "@, "ENDS"@ + " "@ + "WITH"@);
                let m = ("NOT"@ + " "@ + "ENDS"@).len() as int;
                assert(cs[i + m] == cs.subrange(i + m, i + n)[0]);
                lemma_two_words(cs, i, "NOT"@, "ENDS"@);
                lemma_two_words(cs, i + 4, "ENDS"@, "WITH"@);
                lemma_word_lexes(cs, i, "NOT"@, custom);
            } else {
                assert(t =~= "ENDS"@ + " "@ + "WITH"@);
                lemma_two_words(cs, i, "ENDS"@, "WITH"@);
                lemma_word_lexes(cs, i, "ENDS"@, custom);
            }
        },
        BaseModel::AnyOf => {
            if op.inverse {
                assert(t =~= "NOT"@ + " "@ + "IN"@);
                lemma_two_words(cs, i, "NOT"@, "IN"@);
                lemma_word_lexes(cs, i, "NOT"@, custom);
            } else {
                lemma_word_before_space(cs, i, "IN"@);
                lemma_word_lexes(cs, i, "IN"@, custom);
            }
        },
        BaseModel::Custom(name) => {
            assert(t == name);
            lemma_word_before_space(cs, i, name);
            lemma_word_lexes(cs, i, name, custom);
        },
        BaseModel::Between => {
            if op.inverse {
                assert(t =~= "NOT"@ + " "@ + "BETWEEN"@);
                lemma_two_words(cs, i, "NOT"@, "BETWEEN"@);
                lemma_word_lexes(cs, i, "NOT"@, custom);
            } else {
                lemma_word_before_space(cs, i, "BETWEEN"@);
                lemma_word_lexes(cs, i, "BETWEEN"@, custom);
            }
        },
        BaseModel::AllOf => {
            if op.inverse {
                assert(t =~= "NOT"@ + " "@ + "ALL"@ + " "@ + "OF"@);
                assert(t =~= ("NOT"@ + " "@ + "ALL"@) + (" "@ + "OF"@));
                lemma_split_at(cs, i, "NOT"@ + " "@ + "ALL"@, " "@ + "OF"@);
                assert(t =~= ("NOT"@ + " "@) + ("ALL"@ + " "@ + "OF"@));
                lemma_split_at(cs, i, "NOT"@ + " "@, "ALL"@ + " "@ + "OF"@);
                let m = ("NOT"@ + " "@ + "ALL"@).len() as int;
                assert(cs[i + m] == cs.subrange(i + m, i + n)[0]);
                lemma_two_words(cs, i, "NOT"@, "ALL"@);
                lemma_two_words(cs, i + 4, "ALL"@, "OF"@);
                lemma_word_lexes(cs, i, "NOT"@, custom);
            } else {
                assert(t =~= "ALL"@ + " "@ + "OF"@);
                lemma_two_words(cs, i, "ALL"@, "OF"@);
                lemma_word_lexes(cs, i, "ALL"@, custom);
            }
        },
        _ => {},
    }
}

/// The values whose written form reads back as themselves where the
/// parser infers the kind of a value from its literal: texts, booleans,
/// `null`, unsigned integers and negative signed integers.
pub open spec fn is_inferable_scalar(v: ValueModel) -> bool {
    match v {
        ValueModel::Str(_) | ValueModel::Bool(_) | ValueModel::Null | ValueModel::Uint(_) => true,
        ValueModel::Int(n) => n < 0,
        _ => false,
    }
}

/// The values the lexer reads back as one token: texts, booleans, `null`
/// and integers.
pub open spec fn is_scalar_value(v: ValueModel) -> bool {
    match v {
        ValueModel::Str(_) | ValueModel::Bool(_) | ValueModel::Null | ValueModel::Uint(_)
        | ValueModel::Int(_) => true,
        _ => false,
    }
}

/// The token a written value is read as.
pub open spec fn value_token(v: ValueModel) -> TokenModel {
    match v {
        ValueModel::Str(s) => TokenModel::Str(s),
        ValueModel::Bool(b) => TokenModel::Boolean(b),
        ValueModel::Null => TokenModel::Null,
        ValueModel::Uint(u) => TokenModel::Number(dec_nat(u as nat)),
        ValueModel::Int(n) => TokenModel::Number(dec_int(n as int)),
        _ => TokenModel::Consumed,
    }
}

/// A run of digits standing at `j` and followed by a character that is
/// neither a digit nor a dot ends where the digits do.
proof fn lemma_number_ends(cs: Seq<char>, j: int, e: int)
    requires
        0 <= j <= e < cs.len(),
        forall|k: int| j <= k < e ==> is_digit_char(#[trigger] cs[k]),
        !is_digit_char(cs[e]) && cs[e] != '.',
    ensures
        number_end(cs, j) == e,
    decreases e - j,
{
    if j < e {
        lemma_number_ends(cs, j + 1, e);
    }
}

/// Ends a written value: a space, `)`, `,` or `]`.
pub open spec fn value_stop(c: char) -> bool {
    c == ' ' || c == ')' || c == ',' || c == ']'
}

/// A single-token value written in `cs` at `i` and followed by a space,
/// `)`, `,` or `]` is read as its token, and reading resumes after it.
pub proof fn lemma_scalar_lexes(
    cs: Seq<char>,
    i: int,
    v: ValueModel,
    custom: Option<Set<Seq<char>>>,
)
    requires
        is_scalar_value(v),
        0 <= i,
        i + v.display().len() < cs.len(),
        cs.subrange(i, i + v.display().len()) == v.display(),
        value_stop(cs[i + v.display().len()]),
    ensures
        lex_step(cs, i, custom) == Ok::<(Option<TokenModel>, int), ErrorModel>(
            (Some(value_token(v)), i + v.display().len()),
        ),
{
    reveal_strlit("true");
    reveal_strlit("false");
    reveal_strlit("null");
    reveal_strlit("AND");
    reveal_strlit("OR");
    reveal_strlit("CONTAINS");
    reveal_strlit("IN");
    reveal_strlit("BETWEEN");
    reveal_strlit("NOT");
    reveal_strlit("STARTS");
    reveal_strlit("ENDS");
    reveal_strlit("ALL");
    let t = v.display();
    let n = t.len();
    let after = cs[i + n];
    assert(word_stop(after));
    assert(cs[i] == cs.subrange(i, i + n)[0]);
    match v {
        ValueModel::Str(s) => {
            let e = escape_seq(s).len() as int;
            assert(t == quoted(s));
            assert(n == e + 2);
            assert(cs[i] == '"');
            assert(cs.subrange(i + 1, i + 1 + e) =~= cs.subrange(i, i + n).subrange(1, 1 + e));
            assert(cs.subrange(i, i + n).subrange(1, 1 + e) =~= escape_seq(s));
            assert(cs[i + 1 + e] == cs.subrange(i, i + n)[1 + e]);
            lemma_scan_escaped(cs, i + 1, s);
        },
        ValueModel::Bool(b) => {
            assert(t == bool_text(b));
            lemma_word_lexes(cs, i, t, custom);
        },
        ValueModel::Null => {
            lemma_word_lexes(cs, i, t, custom);
        },
        ValueModel::Uint(u) => {
            lemma_dec_nat_value(u as nat);
            assert forall|k: int| i + 1 <= k < i + n implies is_digit_char(#[trigger] cs[k]) by {
                assert(cs[k] == cs.subrange(i, i + n)[k - i]);
            }
            assert(is_digit_char(cs[i]));
            lemma_number_ends(cs, i + 1, i + n);
            assert(cs.subrange(i, i + n) == t);
        },
        ValueModel::Int(m) => {
            if m < 0 {
                let a: nat = (0 - m) as nat;
                lemma_dec_nat_value(a);
                assert(t == seq!['-'] + dec_nat(a));
                assert forall|k: int| i + 1 <= k < i + n implies is_digit_char(#[trigger] cs[k]) by {
                    assert(cs[k] == cs.subrange(i, i + n)[k - i]);
                    assert(t[k - i] == dec_nat(a)[k - i - 1]);
                }
                assert(cs[i] == '-');
                assert(cs[i + 1] == cs.subrange(i, i + n)[1]);
                assert(is_digit_char(cs[i + 1]));
                lemma_number_ends(cs, i + 1, i + n);
            } else {
                lemma_dec_nat_value(m as nat);
                assert(t == dec_nat(m as nat));
                assert forall|k: int| i + 1 <= k < i + n implies is_digit_char(#[trigger] cs[k]) by {
                    assert(cs[k] == cs.subrange(i, i + n)[k - i]);
                }
                assert(is_digit_char(cs[i]));
                lemma_number_ends(cs, i + 1, i + n);
            }
        },
        _ => {},
    }
}

/// The elements of an array value, each as a single value.
pub open spec fn array_elems(v: ValueModel) -> Seq<ValueModel> {
    match v {
        ValueModel::StringArray(a) => a.map_values(|s: Seq<char>| ValueModel::Str(s)),
        ValueModel::IntArray(a) => a.map_values(|n: i64| ValueModel::Int(n)),
        ValueModel::UintArray(a) => a.map_values(|n: u64| ValueModel::Uint(n)),
        ValueModel::BoolArray(a) => a.map_values(|b: bool| ValueModel::Bool(b)),
        _ => Seq::empty(),
    }
}

/// An array of texts, integers or booleans.
pub open spec fn is_array_value(v: ValueModel) -> bool {
    v is StringArray || v is IntArray || v is UintArray || v is BoolArray
}

/// The values the lexer reads back: single-token values and arrays of
/// them.
pub open spec fn is_lexable_value(v: ValueModel) -> bool {
    is_scalar_value(v) || is_array_value(v)
}

/// The written forms of values.
pub open spec fn displays(es: Seq<ValueModel>) -> Seq<Seq<char>> {
    es.map_values(|e: ValueModel| e.display())
}

/// The tokens of array elements joined by commas.
pub open spec fn elems_tokens(es: Seq<ValueModel>) -> Seq<TokenModel>
    decreases es.len(),
{
    if es.len() == 0 {
        Seq::empty()
    } else if es.len() == 1 {
        seq![value_token(es[0])]
    } else {
        elems_tokens(es.drop_last()) + seq![TokenModel::Comma] + seq![value_token(es.last())]
    }
}

/// The tokens a written value is read as.
pub open spec fn value_tokens(v: ValueModel) -> Seq<TokenModel> {
    if is_array_value(v) {
        seq![TokenModel::LeftBracket] + elems_tokens(array_elems(v)) + seq![
            TokenModel::RightBracket,
        ]
    } else {
        seq![value_token(v)]
    }
}

/// An array is written as its elements' written forms in brackets.
pub proof fn lemma_array_display(v: ValueModel)
    requires
        is_array_value(v),
    ensures
        v.display() == bracketed(displays(array_elems(v))),
        forall|k: int| 0 <= k < array_elems(v).len() ==> is_scalar_value(#[trigger] array_elems(v)[k]),
{
    match v {
        ValueModel::StringArray(a) => {
            assert(crate::value::quoted_items(a) =~= displays(array_elems(v)));
        },
        ValueModel::IntArray(a) => {
            assert(crate::value::int_items(a) =~= displays(array_elems(v)));
        },
        ValueModel::UintArray(a) => {
            assert(crate::value::uint_items(a) =~= displays(array_elems(v)));
        },
        ValueModel::BoolArray(a) => {
            assert(crate::value::bool_items(a) =~= displays(array_elems(v)));
        },
        _ => {},
    }
}

/// Array elements joined by `, ` and followed by `]` are read as their
/// tokens joined by commas.
pub proof fn lemma_elements_lex(
    cs: Seq<char>,
    i: int,
    es: Seq<ValueModel>,
    custom: Option<Set<Seq<char>>>,
)
    requires
        es.len() > 0,
        forall|k: int| 0 <= k < es.len() ==> is_scalar_value(#[trigger] es[k]),
        0 <= i,
        i + join_items(displays(es)).len() < cs.len(),
        cs.subrange(i, i + join_items(displays(es)).len()) == join_items(displays(es)),
        cs[i + join_items(displays(es)).len()] == ']' || cs[i + join_items(displays(es)).len()]
            == ',',
    ensures
        lex_from(cs, i, custom) == prepend_all(
            elems_tokens(es),
            lex_from(cs, i + join_items(displays(es)).len(), custom),
        ),
    decreases es.len(),
{
    let ds = displays(es);
    let whole = join_items(ds);
    if es.len() == 1 {
        assert(whole == ds[0]);
        assert(ds[0] == es[0].display());
        lemma_scalar_lexes(cs, i, es[0], custom);
        lemma_lex_step_then(cs, i, custom, Some(value_token(es[0])), i + ds[0].len());
    } else {
        let init = es.drop_last();
        let last = es.last();
        assert(displays(init) =~= ds.drop_last());
        assert(ds.last() == last.display());
        let left = join_items(displays(init));
        assert(whole == left + seq![',', ' '] + last.display());
        let a = left.len() as int;
        let m = last.display().len() as int;
        lemma_split_at(cs, i, left + seq![',', ' '], last.display());
        lemma_split_at(cs, i, left, seq![',', ' ']);
        assert(cs[i + a] == cs.subrange(i + a, i + a + 2)[0]);
        assert(cs[i + a + 1] == cs.subrange(i + a, i + a + 2)[1]);
        assert forall|k: int| 0 <= k < init.len() implies is_scalar_value(#[trigger] init[k]) by {
            assert(init[k] == es[k]);
        }
        lemma_elements_lex(cs, i, init, custom);
        lemma_lex_step_then(cs, i + a, custom, Some(TokenModel::Comma), i + a + 1);
        lemma_space_lexes(cs, i + a + 1, custom);
        lemma_lex_step_then(cs, i + a + 1, custom, None, i + a + 2);
        lemma_scalar_lexes(cs, i + a + 2, last, custom);
        lemma_lex_step_then(cs, i + a + 2, custom, Some(value_token(last)), i + a + 2 + m);
        let r = lex_from(cs, i + a + 2 + m, custom);
        assert(opt_seq(None) =~= Seq::<TokenModel>::empty());
        lemma_prepend_twice(Seq::empty(), seq![value_token(last)], r);
        assert(Seq::<TokenModel>::empty() + seq![value_token(last)] =~= seq![value_token(last)]);
        lemma_prepend_twice(seq![TokenModel::Comma], seq![value_token(last)], r);
        lemma_prepend_twice(
            elems_tokens(init),
            seq![TokenModel::Comma] + seq![value_token(last)],
            r,
        );
        assert(elems_tokens(init) + (seq![TokenModel::Comma] + seq![value_token(last)])
            =~= elems_tokens(es));
    }
}

/// A written value followed by a space, `)`, `,` or `]` is read as its
/// tokens.
pub proof fn lemma_value_lex_from(
    cs: Seq<char>,
    i: int,
    v: ValueModel,
    custom: Option<Set<Seq<char>>>,
)
    requires
        is_lexable_value(v),
        0 <= i,
        i + v.display().len() < cs.len(),
        cs.subrange(i, i + v.display().len()) == v.display(),
        value_stop(cs[i + v.display().len()]),
    ensures
        lex_from(cs, i, custom) == prepend_all(
            value_tokens(v),
            lex_from(cs, i + v.display().len(), custom),
        ),
{
    let n = v.display().len() as int;
    if is_array_value(v) {
        lemma_array_display(v);
        let es = array_elems(v);
        let inner = join_items(displays(es));
        assert(v.display() == seq!['['] + inner + seq![']']);
        let m = inner.len() as int;
        lemma_split_at(cs, i, seq!['['] + inner, seq![']']);
        lemma_split_at(cs, i, seq!['['], inner);
        assert(cs[i] == cs.subrange(i, i + 1)[0]);
        assert(cs[i + 1 + m] == cs.subrange(i + 1 + m, i + 2 + m)[0]);
        lemma_lex_step_then(cs, i + 1 + m, custom, Some(TokenModel::RightBracket), i + 2 + m);
        let r = lex_from(cs, i + 2 + m, custom);
        if es.len() == 0 {
            assert(m == 0);
            assert(elems_tokens(es) =~= Seq::<TokenModel>::empty());
        } else {
            lemma_elements_lex(cs, i + 1, es, custom);
        }
        lemma_lex_step_then(cs, i, custom, Some(TokenModel::LeftBracket), i + 1);
        lemma_prepend_twice(elems_tokens(es), seq![TokenModel::RightBracket], r);
        lemma_prepend_twice(
            seq![TokenModel::LeftBracket],
            elems_tokens(es) + seq![TokenModel::RightBracket],
            r,
        );
        assert(seq![TokenModel::LeftBracket] + (elems_tokens(es) + seq![TokenModel::RightBracket])
            =~= value_tokens(v));
        if es.len() == 0 {
            assert(elems_tokens(es) + seq![TokenModel::RightBracket] =~= seq![
                TokenModel::RightBracket,
            ]);
        }
    } else {
        lemma_scalar_lexes(cs, i, v, custom);
        lemma_lex_step_then(cs, i, custom, Some(value_token(v)), i + n);
    }
}

/// The words the lexer reads as keywords rather than identifiers.
pub open spec fn is_keyword(w: Seq<char>) -> bool {
    ||| w == "AND"@
    ||| w == "OR"@
    ||| w == "true"@
    ||| w == "false"@
    ||| w == "null"@
    ||| w == "CONTAINS"@
    ||| w == "IN"@
    ||| w == "BETWEEN"@
    ||| w == "NOT"@
    ||| w == "STARTS"@
    ||| w == "ENDS"@
    ||| w == "ALL"@
}

/// A dotted path of ASCII words: ASCII letters, digits, underscores and
/// dots.
pub open spec fn ascii_path(w: Seq<char>) -> bool {
    forall|j: int|
        0 <= j < w.len() ==> is_ascii_alphanumeric(#[trigger] w[j]) || w[j] == '_' || w[j] == '.'
}

/// A field name read back as an identifier: a dotted path of ASCII words
/// (such as `user.name`) that starts with a letter or `_`, is no keyword and
/// names no custom operator.
pub open spec fn is_plain_identifier(w: Seq<char>, custom: Option<Set<Seq<char>>>) -> bool {
    &&& w.len() > 0
    &&& ascii_path(w)
    &&& is_ident_start(w[0])
    &&& !is_keyword(w)
    &&& (custom matches Some(names) ==> !names.contains(w))
}

/// A condition whose written form the lexer reads back token by token: a
/// plain field name; equality, a comparison, a text operator, `IN`,
/// `ALL OF`, `BETWEEN` or a custom operator named by a custom operator word
/// (see [`is_writable_op`]); and a text, boolean, `null` or integer value,
/// or an array of texts, integers or booleans.
pub open spec fn is_writable_condition(c: CondModel, custom: Option<Set<Seq<char>>>) -> bool {
    &&& is_plain_identifier(c.field, custom)
    &&& is_writable_op(c.op, custom)
    &&& is_lexable_value(c.value)
}

/// A `BETWEEN` range that reads back as itself on a field of base type
/// `base`: a non-empty array of signed integers on a field of neither
/// unsigned integer nor float type, or a non-empty array of unsigned
/// integers on one of unsigned integer type.
pub open spec fn range_reads_back(v: ValueModel, base: Seq<char>) -> bool {
    &&& !is_float_name(base)
    &&& match v {
        ValueModel::IntArray(a) => a.len() > 0 && !is_unsigned_name(base),
        ValueModel::UintArray(a) => a.len() > 0 && is_unsigned_name(base),
        _ => false,
    }
}

/// What a written scalar value is read back as after a comparison, on a
/// field of type `field_type`, where the field's type decides the kind of
/// the value: texts on text fields, booleans on `bool` fields, `null` on
/// `Option` fields; a number on an unsigned integer field as an unsigned
/// integer (if it is not negative), on any other field but a float one as
/// a signed integer, or, past `i64::MAX` and on a field of neither integer
/// type, as an unsigned one. `None` where the parser refuses it.
pub open spec fn typed_reading(v: ValueModel, field_type: Seq<char>) -> Option<ValueModel> {
    let base = base_type(field_type);
    match v {
        ValueModel::Str(_) => if is_string_type_name(field_type) {
            Some(v)
        } else {
            None
        },
        ValueModel::Bool(_) => if is_bool_type_name(field_type) {
            Some(v)
        } else {
            None
        },
        ValueModel::Null => if option_inner(field_type) is Some {
            Some(v)
        } else {
            None
        },
        ValueModel::Int(n) => if is_float_name(base) {
            None
        } else if is_unsigned_name(base) {
            if n >= 0 {
                Some(ValueModel::Uint(n as u64))
            } else {
                None
            }
        } else {
            Some(v)
        },
        ValueModel::Uint(u) => if is_float_name(base) {
            None
        } else if is_unsigned_name(base) {
            Some(v)
        } else if u <= i64::MAX {
            Some(ValueModel::Int(u as i64))
        } else if is_signed_name(base) {
            None
        } else {
            Some(v)
        },
        _ => None,
    }
}

/// The operators after which the field's type decides the kind of the
/// value: the comparisons, and the custom operators, not negated, that take
/// a value (those not in `nv`).
pub open spec fn reads_typed(op: OpModel, nv: Set<Seq<char>>) -> bool {
    match op.base {
        BaseModel::Comparison(_) => true,
        BaseModel::Custom(name) => !op.inverse && !nv.contains(name),
        _ => false,
    }
}

/// The parser reads a condition's value back as it was, for a field `fi`:
/// after equality, a text operator, `IN` or `ALL OF` the value's kind is
/// inferred from its literal; after a comparison the field's type decides
/// (see [`typed_reading`]), as it does after a custom operator that takes a
/// value (one not in `nv`); after `BETWEEN` the range must suit the field
/// (see [`range_reads_back`]).
pub open spec fn reads_back(c: CondModel, fi: FieldInfo, nv: Set<Seq<char>>) -> bool {
    if infers_value_kind(c.op) {
        is_inferable_value(c.value)
    } else if c.op.base is Between {
        range_reads_back(c.value, base_type(fi.field_type@))
    } else {
        &&& reads_typed(c.op, nv)
        &&& typed_reading(c.value, fi.field_type@) == Some(c.value)
    }
}

/// The condition names one of `fs` and its value reads back for it (`nv`
/// names the custom operators that take no value).
pub open spec fn reads_back_in(c: CondModel, fs: Seq<FieldInfo>, nv: Set<Seq<char>>) -> bool {
    match field_named(fs, c.field) {
        Some(fi) => reads_back(c, fi, nv),
        None => false,
    }
}

/// The tokens a written condition is read as.
pub open spec fn cond_tokens(c: CondModel) -> Seq<TokenModel> {
    seq![TokenModel::Identifier(c.field), op_token(c.op)] + value_tokens(c.value)
}

/// A plain identifier followed by a space is read as an identifier.
proof fn lemma_identifier_lexes(cs: Seq<char>, i: int, w: Seq<char>, custom: Option<Set<Seq<char>>>)
    requires
        is_plain_identifier(w, custom),
        0 <= i,
        i + w.len() < cs.len(),
        cs.subrange(i, i + w.len()) == w,
        cs[i + w.len()] == ' ',
    ensures
        lex_step(cs, i, custom) == Ok::<(Option<TokenModel>, int), ErrorModel>(
            (Some(TokenModel::Identifier(w)), i + w.len()),
        ),
{
    assert(cs[i] == cs.subrange(i, i + w.len())[0]);
    lemma_path_ends(cs, i, w, i + 1);
}

/// An identifier that is a dotted path of ASCII words, followed by a
/// space, ends where the path does.
proof fn lemma_path_ends(cs: Seq<char>, i: int, w: Seq<char>, j: int)
    requires
        ascii_path(w),
        0 <= i,
        i + w.len() < cs.len(),
        cs.subrange(i, i + w.len()) == w,
        cs[i + w.len()] == ' ',
        i <= j <= i + w.len(),
    ensures
        ident_end(cs, j) == i + w.len(),
    decreases i + w.len() - j,
{
    if j < i + w.len() {
        assert(cs[j] == cs.subrange(i, i + w.len())[j - i]);
        if cs[j] == '.' {
            if j + 1 < i + w.len() {
                assert(cs[j + 1] == cs.subrange(i, i + w.len())[j + 1 - i]);
                assert(cs[j + 1] != '@');
            }
        } else {
            lemma_ascii_word_char(w[j - i]);
        }
        lemma_path_ends(cs, i, w, j + 1);
    } else {
        assert(!is_word_char(' ')) by {
            assert(crate::text::spec_is_alphanumeric(' ') == is_ascii_alphanumeric(' '));
        }
    }
}

/// A space is skipped.
proof fn lemma_space_lexes(cs: Seq<char>, i: int, custom: Option<Set<Seq<char>>>)
    requires
        0 <= i < cs.len(),
        cs[i] == ' ',
    ensures
        lex_step(cs, i, custom) == Ok::<(Option<TokenModel>, int), ErrorModel>((None, i + 1)),
{
    assert(is_blank(cs[i]));
}

/// A written condition followed by a space or `)` is read as its three
/// tokens.
pub proof fn lemma_condition_lexes(
    cs: Seq<char>,
    i: int,
    c: CondModel,
    custom: Option<Set<Seq<char>>>,
)
    requires
        is_writable_condition(c, custom),
        0 <= i,
        i + cond_text(c).len() < cs.len(),
        cs.subrange(i, i + cond_text(c).len()) == cond_text(c),
        cs[i + cond_text(c).len()] == ' ' || cs[i + cond_text(c).len()] == ')',
    ensures
        lex_from(cs, i, custom) == prepend_all(
            cond_tokens(c),
            lex_from(cs, i + cond_text(c).len(), custom),
        ),
{
    reveal_strlit(" ");
    let f = c.field;
    let o = op_text(c.op);
    let d = c.value.display();
    let n = cond_text(c).len() as int;
    assert(cond_text(c) == f + " "@ + o + " "@ + d);
    let p1 = i + f.len();
    let p2 = p1 + 1;
    let p3 = p2 + o.len();
    let p4 = p3 + 1;
    let p5 = p4 + d.len();
    assert(p5 == i + n);
    lemma_split_at(cs, i, f + " "@ + o + " "@, d);
    lemma_split_at(cs, i, f + " "@ + o, " "@);
    lemma_split_at(cs, i, f + " "@, o);
    lemma_split_at(cs, i, f, " "@);
    assert(cs[p1] == cs.subrange(p1, p2)[0]);
    assert(cs[p3] == cs.subrange(p3, p4)[0]);
    assert(word_stop(' '));
    lemma_identifier_lexes(cs, i, f, custom);
    lemma_space_lexes(cs, p1, custom);
    lemma_op_lexes(cs, p2, c.op, custom);
    lemma_space_lexes(cs, p3, custom);
    lemma_value_lex_from(cs, p4, c.value, custom);
    lemma_lex_step_then(cs, p3, custom, None, p4);
    lemma_lex_step_then(cs, p2, custom, Some(op_token(c.op)), p3);
    lemma_lex_step_then(cs, p1, custom, None, p2);
    lemma_lex_step_then(cs, i, custom, Some(TokenModel::Identifier(f)), p1);
    let r = lex_from(cs, p5, custom);
    let tv = value_tokens(c.value);
    let to = seq![op_token(c.op)];
    let ti = seq![TokenModel::Identifier(f)];
    assert(opt_seq(None) =~= Seq::<TokenModel>::empty());
    lemma_prepend_twice(Seq::empty(), tv, r);
    assert(Seq::<TokenModel>::empty() + tv =~= tv);
    lemma_prepend_twice(to, tv, r);
    lemma_prepend_twice(Seq::empty(), to + tv, r);
    assert(Seq::<TokenModel>::empty() + (to + tv) =~= to + tv);
    lemma_prepend_twice(ti, to + tv, r);
    assert(ti + (to + tv) =~= cond_tokens(c));
    assert(ti + to + tv =~= cond_tokens(c));
}

/// The written conditions of a conjunction.
pub open spec fn cond_texts(conds: Seq<CondModel>) -> Seq<Seq<char>> {
    conds.map_values(|c: CondModel| cond_text(c))
}

/// The tokens of conditions joined by `AND`.
pub open spec fn conds_tokens(conds: Seq<CondModel>) -> Seq<TokenModel>
    decreases conds.len(),
{
    if conds.len() == 0 {
        Seq::empty()
    } else if conds.len() == 1 {
        cond_tokens(conds[0])
    } else {
        conds_tokens(conds.drop_last()) + seq![TokenModel::And] + cond_tokens(conds.last())
    }
}

/// A keyword followed by a space is read as its token.
proof fn lemma_keyword_lexes(
    cs: Seq<char>,
    i: int,
    w: Seq<char>,
    tok: TokenModel,
    custom: Option<Set<Seq<char>>>,
)
    requires
        w == "AND"@ && tok == TokenModel::And || w == "OR"@ && tok == TokenModel::Or,
        word_at(cs, i, w),
    ensures
        lex_step(cs, i, custom) == Ok::<(Option<TokenModel>, int), ErrorModel>(
            (Some(tok), i + w.len()),
        ),
{
    reveal_strlit("AND");
    reveal_strlit("OR");
    lemma_word_lexes(cs, i, w, custom);
}

/// ` AND ` or ` OR ` in `cs` at `i` is read as its keyword token.
proof fn lemma_separator_lexes(
    cs: Seq<char>,
    i: int,
    w: Seq<char>,
    tok: TokenModel,
    custom: Option<Set<Seq<char>>>,
)
    requires
        w == "AND"@ && tok == TokenModel::And || w == "OR"@ && tok == TokenModel::Or,
        0 <= i,
        i + w.len() + 2 <= cs.len(),
        cs.subrange(i, i + w.len() + 2) == " "@ + w + " "@,
    ensures
        lex_from(cs, i, custom) == prepend_all(seq![tok], lex_from(cs, i + w.len() + 2, custom)),
{
    reveal_strlit(" ");
    reveal_strlit("AND");
    reveal_strlit("OR");
    let n = w.len() as int;
    lemma_split_at(cs, i, " "@ + w, " "@);
    lemma_split_at(cs, i, " "@, w);
    assert(cs[i] == cs.subrange(i, i + 1)[0]);
    assert(cs[i + 1 + n] == cs.subrange(i + 1 + n, i + 2 + n)[0]);
    assert(word_stop(' '));
    lemma_space_lexes(cs, i, custom);
    lemma_keyword_lexes(cs, i + 1, w, tok, custom);
    lemma_space_lexes(cs, i + 1 + n, custom);
    lemma_lex_step_then(cs, i + 1 + n, custom, None, i + 2 + n);
    lemma_lex_step_then(cs, i + 1, custom, Some(tok), i + 1 + n);
    lemma_lex_step_then(cs, i, custom, None, i + 1);
    let r = lex_from(cs, i + 2 + n, custom);
    assert(opt_seq(None) =~= Seq::<TokenModel>::empty());
    lemma_prepend_twice(seq![tok], Seq::empty(), r);
    assert(seq![tok] + Seq::<TokenModel>::empty() =~= seq![tok]);
    lemma_prepend_twice(Seq::empty(), seq![tok], r);
    assert(Seq::<TokenModel>::empty() + seq![tok] =~= seq![tok]);
}

/// Written conditions joined by ` AND ` and followed by a space or `)` are
/// read as their tokens joined by `AND`.
pub proof fn lemma_conditions_lex(
    cs: Seq<char>,
    i: int,
    conds: Seq<CondModel>,
    custom: Option<Set<Seq<char>>>,
)
    requires
        conds.len() > 0,
        forall|k: int| 0 <= k < conds.len() ==> is_writable_condition(#[trigger] conds[k], custom),
        0 <= i,
        i + join_with(cond_texts(conds), " AND "@).len() < cs.len(),
        cs.subrange(i, i + join_with(cond_texts(conds), " AND "@).len()) == join_with(
            cond_texts(conds),
            " AND "@,
        ),
        cs[i + join_with(cond_texts(conds), " AND "@).len()] == ' ' || cs[i + join_with(
            cond_texts(conds),
            " AND "@,
        ).len()] == ')',
    ensures
        lex_from(cs, i, custom) == prepend_all(
            conds_tokens(conds),
            lex_from(cs, i + join_with(cond_texts(conds), " AND "@).len(), custom),
        ),
    decreases conds.len(),
{
    reveal_strlit(" AND ");
    reveal_strlit(" ");
    reveal_strlit("AND");
    let texts = cond_texts(conds);
    let whole = join_with(texts, " AND "@);
    if conds.len() == 1 {
        assert(whole == texts[0]);
        assert(texts[0] == cond_text(conds[0]));
        lemma_condition_lexes(cs, i, conds[0], custom);
    } else {
        let init = conds.drop_last();
        let last = conds.last();
        assert(cond_texts(init) =~= texts.drop_last());
        assert(texts.last() == cond_text(last));
        let left = join_with(cond_texts(init), " AND "@);
        assert(whole == left + " AND "@ + cond_text(last));
        assert(" AND "@ =~= " "@ + "AND"@ + " "@);
        let a = left.len() as int;
        let m = cond_text(last).len() as int;
        lemma_split_at(cs, i, left + " AND "@, cond_text(last));
        lemma_split_at(cs, i, left, " AND "@);
        assert(cs[i + a] == cs.subrange(i + a, i + a + 5)[0]);
        assert forall|k: int| 0 <= k < init.len() implies is_writable_condition(
            #[trigger] init[k],
            custom,
        ) by {
            assert(init[k] == conds[k]);
        }
        lemma_conditions_lex(cs, i, init, custom);
        lemma_separator_lexes(cs, i + a, "AND"@, TokenModel::And, custom);
        lemma_condition_lexes(cs, i + a + 5, last, custom);
        let r = lex_from(cs, i + a + 5 + m, custom);
        lemma_prepend_twice(seq![TokenModel::And], cond_tokens(last), r);
        lemma_prepend_twice(conds_tokens(init), seq![TokenModel::And] + cond_tokens(last), r);
        assert(conds_tokens(init) + (seq![TokenModel::And] + cond_tokens(last)) =~= conds_tokens(
            conds,
        ));
    }
}

/// The tokens of a written conjunction.
pub open spec fn conj_tokens(conds: Seq<CondModel>) -> Seq<TokenModel> {
    seq![TokenModel::LeftParen] + conds_tokens(conds) + seq![TokenModel::RightParen]
}

/// The written conjunctions of a query.
pub open spec fn conj_texts(q: Seq<Seq<CondModel>>) -> Seq<Seq<char>> {
    q.map_values(|cs: Seq<CondModel>| conj_text(cs))
}

/// The tokens of conjunctions joined by `OR`.
pub open spec fn query_tokens(q: Seq<Seq<CondModel>>) -> Seq<TokenModel>
    decreases q.len(),
{
    if q.len() == 0 {
        Seq::empty()
    } else if q.len() == 1 {
        conj_tokens(q[0])
    } else {
        query_tokens(q.drop_last()) + seq![TokenModel::Or] + conj_tokens(q.last())
    }
}

/// A query whose written form reads back as itself: at least one
/// conjunction, none empty, and every condition writable.
pub open spec fn is_writable_query(q: Seq<Seq<CondModel>>, custom: Option<Set<Seq<char>>>) -> bool {
    &&& q.len() > 0
    &&& forall|i: int| 0 <= i < q.len() ==> (#[trigger] q[i]).len() > 0
    &&& forall|i: int, j: int|
        0 <= i < q.len() && 0 <= j < q[i].len() ==> is_writable_condition(#[trigger] q[i][j], custom)
}

/// A written conjunction is read as its tokens in parentheses.
pub proof fn lemma_conjunction_lexes(
    cs: Seq<char>,
    i: int,
    conds: Seq<CondModel>,
    custom: Option<Set<Seq<char>>>,
)
    requires
        conds.len() > 0,
        forall|k: int| 0 <= k < conds.len() ==> is_writable_condition(#[trigger] conds[k], custom),
        0 <= i,
        i + conj_text(conds).len() <= cs.len(),
        cs.subrange(i, i + conj_text(conds).len()) == conj_text(conds),
    ensures
        lex_from(cs, i, custom) == prepend_all(
            conj_tokens(conds),
            lex_from(cs, i + conj_text(conds).len(), custom),
        ),
{
    reveal_strlit("(");
    reveal_strlit(")");
    let inner = join_with(cond_texts(conds), " AND "@);
    assert(cond_texts(conds) =~= conds.map_values(|c: CondModel| cond_text(c)));
    assert(conj_text(conds) == "("@ + inner + ")"@);
    let n = inner.len() as int;
    lemma_split_at(cs, i, "("@ + inner, ")"@);
    lemma_split_at(cs, i, "("@, inner);
    assert(cs[i] == cs.subrange(i, i + 1)[0]);
    assert(cs[i + 1 + n] == cs.subrange(i + 1 + n, i + 2 + n)[0]);
    lemma_conditions_lex(cs, i + 1, conds, custom);
    lemma_lex_step_then(cs, i + 1 + n, custom, Some(TokenModel::RightParen), i + 2 + n);
    lemma_lex_step_then(cs, i, custom, Some(TokenModel::LeftParen), i + 1);
    let r = lex_from(cs, i + 2 + n, custom);
    lemma_prepend_twice(conds_tokens(conds), seq![TokenModel::RightParen], r);
    lemma_prepend_twice(
        seq![TokenModel::LeftParen],
        conds_tokens(conds) + seq![TokenModel::RightParen],
        r,
    );
    assert(seq![TokenModel::LeftParen] + (conds_tokens(conds) + seq![TokenModel::RightParen])
        =~= conj_tokens(conds));
}

/// Written conjunctions joined by ` OR ` are read as their tokens joined by
/// `OR`.
pub proof fn lemma_conjunctions_lex(
    cs: Seq<char>,
    i: int,
    q: Seq<Seq<CondModel>>,
    custom: Option<Set<Seq<char>>>,
)
    requires
        is_writable_query(q, custom),
        0 <= i,
        i + join_with(conj_texts(q), " OR "@).len() <= cs.len(),
        cs.subrange(i, i + join_with(conj_texts(q), " OR "@).len()) == join_with(
            conj_texts(q),
            " OR "@,
        ),
    ensures
        lex_from(cs, i, custom) == prepend_all(
            query_tokens(q),
            lex_from(cs, i + join_with(conj_texts(q), " OR "@).len(), custom),
        ),
    decreases q.len(),
{
    reveal_strlit(" OR ");
    reveal_strlit(" ");
    reveal_strlit("OR");
    let texts = conj_texts(q);
    let whole = join_with(texts, " OR "@);
    assert(forall|k: int| 0 <= k < q[0].len() ==> is_writable_condition(#[trigger] q[0][k], custom));
    if q.len() == 1 {
        assert(whole == texts[0]);
        lemma_conjunction_lexes(cs, i, q[0], custom);
    } else {
        let init = q.drop_last();
        let last = q.last();
        assert(conj_texts(init) =~= texts.drop_last());
        assert(texts.last() == conj_text(last));
        let left = join_with(conj_texts(init), " OR "@);
        assert(whole == left + " OR "@ + conj_text(last));
        assert(" OR "@ =~= " "@ + "OR"@ + " "@);
        let a = left.len() as int;
        let m = conj_text(last).len() as int;
        lemma_split_at(cs, i, left + " OR "@, conj_text(last));
        lemma_split_at(cs, i, left, " OR "@);
        assert(is_writable_query(init, custom)) by {
            assert forall|x: int| 0 <= x < init.len() implies (#[trigger] init[x]).len() > 0 by {
                assert(init[x] == q[x]);
            }
            assert forall|x: int, y: int|
                0 <= x < init.len() && 0 <= y < init[x].len() implies is_writable_condition(
                #[trigger] init[x][y],
                custom,
            ) by {
                assert(init[x] == q[x]);
            }
        }
        assert(last == q[q.len() - 1]);
        assert(forall|k: int| 0 <= k < last.len() ==> is_writable_condition(#[trigger] last[k], custom));
        lemma_conjunctions_lex(cs, i, init, custom);
        lemma_separator_lexes(cs, i + a, "OR"@, TokenModel::Or, custom);
        lemma_conjunction_lexes(cs, i + a + 4, last, custom);
        let r = lex_from(cs, i + a + 4 + m, custom);
        lemma_prepend_twice(seq![TokenModel::Or], conj_tokens(last), r);
        lemma_prepend_twice(query_tokens(init), seq![TokenModel::Or] + conj_tokens(last), r);
        assert(query_tokens(init) + (seq![TokenModel::Or] + conj_tokens(last)) =~= query_tokens(q));
    }
}

/// A written query is read as its tokens.
pub proof fn lemma_query_text_lexes(q: Seq<Seq<CondModel>>, custom: Option<Set<Seq<char>>>)
    requires
        is_writable_query(q, custom),
    ensures
        spec_tokenize(query_text(q), custom) == Ok::<Seq<TokenModel>, ErrorModel>(
            query_tokens(q),
        ),
{
    let cs = query_text(q);
    assert(conj_texts(q) =~= q.map_values(|c: Seq<CondModel>| conj_text(c)));
    assert(cs == join_with(conj_texts(q), " OR "@));
    assert(cs.subrange(0, cs.len() as int) =~= cs);
    lemma_conjunctions_lex(cs, 0, q, custom);
    assert(lex_from(cs, cs.len() as int, custom) == Ok::<Seq<TokenModel>, ErrorModel>(
        Seq::empty(),
    ));
    assert(query_tokens(q) + Seq::<TokenModel>::empty() =~= query_tokens(q));
}

/// A literal of digits, possibly after a minus sign, has no `.`, `e` or
/// `E`: it does not look like a float.
proof fn lemma_not_float(num: Seq<char>, from: int)
    requires
        0 <= from <= 1,
        forall|k: int| from <= k < num.len() ==> is_digit_char(#[trigger] num[k]),
        from == 1 ==> num.len() > 0 && num[0] == '-',
    ensures
        !looks_float(num),
{
    reveal_strlit(".");
    reveal_strlit("e");
    reveal_strlit("E");
    assert forall|i: int| !occurs_at(num, "."@, i) && !occurs_at(num, "e"@, i) && !occurs_at(
        num,
        "E"@,
        i,
    ) by {
        if 0 <= i < num.len() {
            if i >= from {
                assert(is_digit_char(num[i]));
            }
            assert(num.subrange(i, i + 1)[0] == num[i]);
        }
    }
}

/// Arrays the parser reads back where it infers the kind of a value: texts
/// (possibly none), and non-empty arrays of unsigned integers, of negative
/// signed integers or of booleans.
pub open spec fn is_inferable_array(v: ValueModel) -> bool {
    match v {
        ValueModel::StringArray(_) => true,
        ValueModel::UintArray(a) => a.len() > 0,
        ValueModel::IntArray(a) => a.len() > 0 && forall|k: int| 0 <= k < a.len() ==> a[k] < 0,
        ValueModel::BoolArray(a) => a.len() > 0,
        _ => false,
    }
}

/// Values the parser reads back where it infers the kind of a value.
pub open spec fn is_inferable_value(v: ValueModel) -> bool {
    is_inferable_scalar(v) || is_inferable_array(v)
}

/// An unsigned integer's literal reads back as it.
proof fn lemma_uint_literal(u: u64)
    ensures
        !looks_float(dec_nat(u as nat)),
        !starts_minus(dec_nat(u as nat)),
        parse_unsigned(dec_nat(u as nat)) == Some(u),
{
    reveal_strlit("-");
    lemma_dec_nat_value(u as nat);
    lemma_rendered_integers_parse_back(u, 0);
    let num = dec_nat(u as nat);
    lemma_not_float(num, 0);
    assert(is_digit_char(num[0]));
    assert(!starts_minus(num)) by {
        if starts_with_seq(num, "-"@) {
            assert(num.take(1)[0] == num[0]);
        }
    }
}

/// A negative integer's literal reads back as it.
proof fn lemma_negative_literal(n: i64)
    requires
        n < 0,
    ensures
        !looks_float(dec_int(n as int)),
        starts_minus(dec_int(n as int)),
        parse_signed(dec_int(n as int)) == Some(n),
{
    reveal_strlit("-");
    let a: nat = (0 - n) as nat;
    lemma_dec_nat_value(a);
    lemma_rendered_integers_parse_back(0, n);
    let num = dec_int(n as int);
    assert(num == seq!['-'] + dec_nat(a));
    assert forall|k: int| 1 <= k < num.len() implies is_digit_char(#[trigger] num[k]) by {
        assert(num[k] == dec_nat(a)[k - 1]);
    }
    lemma_not_float(num, 1);
    assert(num.take(1) =~= "-"@);
}

/// An element the parser reads back inside an array: a text, a boolean,
/// an unsigned integer or a negative signed integer.
pub open spec fn is_array_element(e: ValueModel) -> bool {
    match e {
        ValueModel::Str(_) | ValueModel::Bool(_) | ValueModel::Uint(_) => true,
        ValueModel::Int(n) => n < 0,
        _ => false,
    }
}

/// An element's token is read back as the element.
proof fn lemma_element_reads(c: ParseCtx, p: int, e: ValueModel)
    requires
        is_array_element(e),
        0 <= p < c.t.len(),
        c.t[p] == value_token(e),
    ensures
        crate::grammar::element_at(c, p) == Ok::<(ValueModel, int), ErrorModel>((e, p + 1)),
{
    match e {
        ValueModel::Uint(u) => lemma_uint_literal(u),
        ValueModel::Int(n) => lemma_negative_literal(n),
        _ => {},
    }
}

/// Where each element and each comma stand among the tokens of elements
/// joined by commas.
proof fn lemma_elems_tokens_layout(es: Seq<ValueModel>)
    requires
        es.len() > 0,
    ensures
        elems_tokens(es).len() == 2 * es.len() - 1,
        forall|k: int| 0 <= k < es.len() ==> #[trigger] elems_tokens(es)[2 * k] == value_token(es[k]),
        forall|k: int| 0 <= k < es.len() - 1 ==> #[trigger] elems_tokens(es)[2 * k + 1] == TokenModel::Comma,
    decreases es.len(),
{
    if es.len() > 1 {
        let init = es.drop_last();
        lemma_elems_tokens_layout(init);
        let t = elems_tokens(es);
        let ti = elems_tokens(init);
        assert(t == ti + seq![TokenModel::Comma] + seq![value_token(es.last())]);
        assert forall|k: int| 0 <= k < es.len() implies #[trigger] t[2 * k] == value_token(es[k]) by {
            if k < es.len() - 1 {
                assert(es[k] == init[k]);
                assert(t[2 * k] == ti[2 * k]);
            }
        }
        assert forall|k: int| 0 <= k < es.len() - 1 implies #[trigger] t[2 * k + 1]
            == TokenModel::Comma by {
            if k < es.len() - 2 {
                assert(t[2 * k + 1] == ti[2 * k + 1]);
            }
        }
    }
}

/// The elements from the `k`-th on are read by `elements_from`.
proof fn lemma_elements_from_reads(c: ParseCtx, p0: int, es: Seq<ValueModel>, k: int)
    requires
        1 <= k <= es.len(),
        0 <= p0,
        p0 + 2 * es.len() <= c.t.len(),
        c.t[p0 + 2 * es.len() - 1] == TokenModel::RightBracket,
        forall|idx: int| 0 <= idx < 2 * es.len() - 1 ==> c.t[p0 + idx] == #[trigger] elems_tokens(es)[idx],
        forall|x: int| 0 <= x < es.len() ==> is_array_element(#[trigger] es[x]) && crate::grammar::same_kind(es[x], es[0]),
    ensures
        crate::grammar::elements_from(c, p0 + 2 * k - 1, es[0], es.take(k)) == Ok::<
            (Seq<ValueModel>, int),
            ErrorModel,
        >((es, p0 + 2 * es.len() - 1)),
    decreases es.len() - k,
{
    lemma_elems_tokens_layout(es);
    let p = p0 + 2 * k - 1;
    if k == es.len() {
        assert(es.take(k) =~= es);
    } else {
        assert(elems_tokens(es)[2 * (k - 1) + 1] == TokenModel::Comma);
        assert(c.t[p] == TokenModel::Comma);
        assert(c.t[p + 1] == elems_tokens(es)[2 * k]);
        lemma_element_reads(c, p + 1, es[k]);
        assert(es.take(k).push(es[k]) =~= es.take(k + 1));
        lemma_elements_from_reads(c, p0, es, k + 1);
    }
}

/// The array a list of parsed elements makes is the array they came from.
proof fn lemma_array_of_elems(v: ValueModel)
    requires
        is_inferable_array(v),
        array_elems(v).len() > 0,
    ensures
        crate::grammar::array_of(array_elems(v)[0], array_elems(v)) == v,
        !crate::grammar::unpromotable(array_elems(v)[0], array_elems(v)),
{
    let es = array_elems(v);
    match v {
        ValueModel::StringArray(a) => {
            assert(crate::grammar::str_items(es) =~= a);
        },
        ValueModel::IntArray(a) => {
            assert(es[0] is Int);
            assert(crate::grammar::has_signed(es));
            assert(crate::grammar::fits_signed(es));
            assert(crate::grammar::signed_items(es) =~= a);
        },
        ValueModel::UintArray(a) => {
            assert(!crate::grammar::has_signed(es)) by {
                assert forall|k: int| 0 <= k < es.len() implies !(es[k] is Int) by {}
            }
            assert(crate::grammar::uint_items(es) =~= a);
        },
        ValueModel::BoolArray(a) => {
            assert(crate::grammar::bool_items(array_elems(v)) =~= a);
        },
        _ => {},
    }
}

/// A value's tokens are read back as the value where the parser infers
/// its kind.
#[verifier::spinoff_prover]
#[verifier::rlimit(60)]
proof fn lemma_value_infers(c: ParseCtx, p: int, v: ValueModel)
    requires
        is_inferable_value(v),
        0 <= p,
        p + value_tokens(v).len() <= c.t.len(),
        forall|idx: int| 0 <= idx < value_tokens(v).len() ==> c.t[p + idx] == #[trigger] value_tokens(v)[idx],
    ensures
        flexible_value_at(c, p) == Ok::<(ValueModel, int), ErrorModel>(
            (v, p + value_tokens(v).len()),
        ),
{
    if is_inferable_array(v) {
        let es = array_elems(v);
        let n = es.len() as int;
        let vt = value_tokens(v);
        assert(c.t[p] == vt[0]);
        if n == 0 {
            assert(vt =~= seq![TokenModel::LeftBracket, TokenModel::RightBracket]);
            assert(c.t[p + 1] == vt[1]);
            assert(v == ValueModel::StringArray(Seq::empty())) by {
                match v {
                    ValueModel::StringArray(a) => assert(a =~= Seq::<Seq<char>>::empty()),
                    _ => {},
                }
            }
        } else {
            lemma_elems_tokens_layout(es);
            assert(vt.len() == 2 * n + 1);
            assert(c.t[p + 2 * n] == vt[2 * n]);
            assert forall|idx: int| 0 <= idx < 2 * n - 1 implies c.t[(p + 1) + idx]
                == #[trigger] elems_tokens(es)[idx] by {
                assert(c.t[p + (idx + 1)] == vt[idx + 1]);
            }
            assert forall|x: int| 0 <= x < n implies is_array_element(#[trigger] es[x])
                && crate::grammar::same_kind(es[x], es[0]) by {}
            assert(c.t[p + 1] == elems_tokens(es)[2 * 0int]);
            lemma_element_reads(c, p + 1, es[0]);
            assert(es.take(1) =~= seq![es[0]]);
            lemma_elements_from_reads(c, p + 1, es, 1);
            assert(p + 1 + 2 * n - 1 + 1 == p + vt.len());
            lemma_array_of_elems(v);
        }
    } else {
        assert(c.t[p] == value_tokens(v)[0]);
        match v {
            ValueModel::Uint(u) => lemma_uint_literal(u),
            ValueModel::Int(n) => lemma_negative_literal(n),
            _ => {},
        }
    }
}

/// The operator token is read back as the operator.
proof fn lemma_operator_reads(c: ParseCtx, p: int, op: OpModel)
    requires
        is_readable_op(op),
        0 <= p < c.t.len(),
        c.t[p] == op_token(op),
    ensures
        crate::grammar::operator_at(c, p) == Ok::<(OpModel, int), ErrorModel>((op, p + 1)),
{
}

/// A written scalar is read back after a comparison as the field's type
/// reads it.
proof fn lemma_value_typed(c: ParseCtx, p: int, v: ValueModel, name: Seq<char>, field_type: Seq<char>)
    requires
        0 <= p < c.t.len(),
        c.t[p] == value_token(v),
        typed_reading(v, field_type) is Some,
    ensures
        typed_value_at(c, p, name, field_type) == Ok::<(ValueModel, int), ErrorModel>(
            (typed_reading(v, field_type)->0, p + 1),
        ),
{
    let base = base_type(field_type);
    match v {
        ValueModel::Int(n) => {
            lemma_rendered_integers_parse_back(0, n);
            let num = dec_int(n as int);
            if n < 0 {
                lemma_negative_literal(n);
            } else {
                lemma_uint_literal(n as u64);
                lemma_rendered_integers_parse_back(n as u64, 0);
            }
            assert(typed_number(c, num, field_type, p) == Ok::<ValueModel, ErrorModel>(
                typed_reading(v, field_type)->0,
            ));
        },
        ValueModel::Uint(u) => {
            lemma_uint_literal(u);
            let num = dec_nat(u as nat);
            if u <= i64::MAX {
                lemma_rendered_integers_parse_back(u, u as i64);
                assert(dec_int(u as i64 as int) == num);
            } else {
                lemma_dec_nat_value(u as nat);
                assert(num[0] != '-' && num[0] != '+') by {
                    assert(is_digit_char(num[0]));
                }
                assert(unsigned_digits(num) == num);
                assert(parse_signed(num) is None);
            }
            assert(typed_number(c, num, field_type, p) == Ok::<ValueModel, ErrorModel>(
                typed_reading(v, field_type)->0,
            ));
        },
        _ => {},
    }
}

/// What a bound of a written range is read as on a field of base type
/// `base`: a non-negative signed integer on a field of no signed type as
/// the unsigned integer of the same value, any other bound as itself.
pub open spec fn range_read(e: ValueModel, base: Seq<char>) -> ValueModel {
    match e {
        ValueModel::Int(n) => if is_signed_name(base) || n < 0 {
            e
        } else {
            ValueModel::Uint(n as u64)
        },
        _ => e,
    }
}

/// The bounds of a written range as they are read.
pub open spec fn range_reads(es: Seq<ValueModel>, base: Seq<char>) -> Seq<ValueModel> {
    es.map_values(|e: ValueModel| range_read(e, base))
}

/// A bound suited to a field of base type `base`: a signed integer on a
/// field of no unsigned type, an unsigned one on a field of unsigned type.
pub open spec fn suits_range(e: ValueModel, base: Seq<char>) -> bool {
    e is Int && !is_unsigned_name(base) || e is Uint && is_unsigned_name(base)
}

/// A bound's token is read as the bound.
proof fn lemma_range_number_reads(c: ParseCtx, q: int, e: ValueModel, base: Seq<char>)
    requires
        0 <= q < c.t.len(),
        c.t[q] == value_token(e),
        !is_float_name(base),
        suits_range(e, base),
    ensures
        range_number(c, c.t[q], base, q) == Ok::<ValueModel, ErrorModel>(range_read(e, base)),
{
    reveal_strlit("i8");
    reveal_strlit("i16");
    reveal_strlit("i32");
    reveal_strlit("i64");
    reveal_strlit("isize");
    reveal_strlit("u8");
    reveal_strlit("u16");
    reveal_strlit("u32");
    reveal_strlit("u64");
    reveal_strlit("usize");
    match e {
        ValueModel::Int(n) => {
            if n < 0 {
                lemma_negative_literal(n);
            } else {
                lemma_uint_literal(n as u64);
                lemma_rendered_integers_parse_back(n as u64, n);
                assert(dec_int(n as int) == dec_nat((n as u64) as nat));
            }
        },
        ValueModel::Uint(u) => {
            lemma_uint_literal(u);
            assert(base[0] == 'u');
        },
        _ => {},
    }
}

/// The bounds from the `k`-th on are read by `range_rest`, given those
/// before it.
proof fn lemma_range_rest_reads(c: ParseCtx, p0: int, es: Seq<ValueModel>, base: Seq<char>, k: int)
    requires
        1 <= k <= es.len(),
        0 <= p0,
        p0 + 2 * es.len() <= c.t.len(),
        c.t[p0 + 2 * es.len() - 1] == TokenModel::RightBracket,
        forall|idx: int| 0 <= idx < 2 * es.len() - 1 ==> c.t[p0 + idx] == #[trigger] elems_tokens(es)[idx],
        !is_float_name(base),
        forall|x: int| 0 <= x < es.len() ==> suits_range(#[trigger] es[x], base),
    ensures
        range_rest(c, p0 + 2 * k - 1, base, range_reads(es.take(k), base)) == Ok::<
            (Seq<ValueModel>, int),
            ErrorModel,
        >((range_reads(es, base), p0 + 2 * es.len() - 1)),
    decreases es.len() - k,
{
    lemma_elems_tokens_layout(es);
    let p = p0 + 2 * k - 1;
    if k == es.len() {
        assert(es.take(k) =~= es);
    } else {
        assert(elems_tokens(es)[2 * (k - 1) + 1] == TokenModel::Comma);
        assert(c.t[p] == TokenModel::Comma);
        assert(c.t[p + 1] == elems_tokens(es)[2 * k]);
        lemma_range_number_reads(c, p + 1, es[k], base);
        assert(range_reads(es.take(k), base).push(range_read(es[k], base)) =~= range_reads(
            es.take(k + 1),
            base,
        ));
        lemma_range_rest_reads(c, p0, es, base, k + 1);
    }
}

/// Signed bounds read as `range_read` are taken back as signed integers.
proof fn lemma_as_signed_reads(base: Seq<char>, a: Seq<i64>, pos: int)
    ensures
        as_signed(base, range_reads(array_elems(ValueModel::IntArray(a)), base), pos) == Ok::<
            Seq<i64>,
            ErrorModel,
        >(a),
    decreases a.len(),
{
    let vals = range_reads(array_elems(ValueModel::IntArray(a)), base);
    if a.len() > 0 {
        let init = a.drop_last();
        lemma_as_signed_reads(base, init, pos);
        assert(vals.drop_last() =~= range_reads(array_elems(ValueModel::IntArray(init)), base));
        let n = a.last();
        assert(vals.last() == range_read(ValueModel::Int(n), base));
        if !(is_signed_name(base) || n < 0) {
            assert(vals.last() == ValueModel::Uint(n as u64));
            assert((n as u64) <= i64::MAX as u64);
            assert(((n as u64) as i64) == n);
        }
        assert(init.push(a.last()) =~= a);
    } else {
        assert(a =~= Seq::empty());
    }
}

/// Unsigned bounds are taken back as unsigned integers.
proof fn lemma_as_unsigned_reads(base: Seq<char>, a: Seq<u64>, pos: int)
    ensures
        as_unsigned(base, range_reads(array_elems(ValueModel::UintArray(a)), base), pos) == Ok::<
            Seq<u64>,
            ErrorModel,
        >(a),
    decreases a.len(),
{
    let vals = range_reads(array_elems(ValueModel::UintArray(a)), base);
    if a.len() > 0 {
        let init = a.drop_last();
        lemma_as_unsigned_reads(base, init, pos);
        assert(vals.drop_last() =~= range_reads(array_elems(ValueModel::UintArray(init)), base));
        assert(vals.last() == range_read(ValueModel::Uint(a.last()), base));
        assert(init.push(a.last()) =~= a);
    } else {
        assert(a =~= Seq::empty());
    }
}

/// A written range is read back as itself where it suits the field.
#[verifier::spinoff_prover]
#[verifier::rlimit(60)]
proof fn lemma_range_reads(c: ParseCtx, p: int, v: ValueModel, field_type: Seq<char>)
    requires
        range_reads_back(v, base_type(field_type)),
        0 <= p,
        p + value_tokens(v).len() <= c.t.len(),
        forall|idx: int| 0 <= idx < value_tokens(v).len() ==> c.t[p + idx] == #[trigger] value_tokens(v)[idx],
    ensures
        range_at(c, p, field_type) == Ok::<(ValueModel, int), ErrorModel>(
            (v, p + value_tokens(v).len()),
        ),
{
    let base = base_type(field_type);
    let es = array_elems(v);
    let n = es.len() as int;
    let vt = value_tokens(v);
    assert(n > 0);
    lemma_elems_tokens_layout(es);
    assert(vt.len() == 2 * n + 1);
    assert(c.t[p] == vt[0]);
    assert(c.t[p + 2 * n] == vt[2 * n]);
    assert forall|idx: int| 0 <= idx < 2 * n - 1 implies c.t[(p + 1) + idx]
        == #[trigger] elems_tokens(es)[idx] by {
        assert(c.t[p + (idx + 1)] == vt[idx + 1]);
    }
    assert forall|x: int| 0 <= x < n implies suits_range(#[trigger] es[x], base) by {}
    assert(c.t[p + 1] == elems_tokens(es)[2 * 0int]);
    lemma_range_number_reads(c, p + 1, es[0], base);
    assert(range_reads(es.take(1), base) =~= seq![range_read(es[0], base)]);
    lemma_range_rest_reads(c, p + 1, es, base, 1);
    match v {
        ValueModel::IntArray(a) => lemma_as_signed_reads(
            base,
            a,
            crate::grammar::at_byte(c, p + 2 * n + 1) as int,
        ),
        ValueModel::UintArray(a) => lemma_as_unsigned_reads(
            base,
            a,
            crate::grammar::at_byte(c, p + 2 * n + 1) as int,
        ),
        _ => {},
    }
}

/// A condition's tokens are read back as the condition, when it names one
/// of the context's fields and its value reads back for it.
#[verifier::spinoff_prover]
#[verifier::rlimit(40)]
pub proof fn lemma_condition_reads(c: ParseCtx, p: int, cond: CondModel)
    requires
        reads_back_in(cond, c.fs, c.nv),
        0 <= p,
        p + cond_tokens(cond).len() <= c.t.len(),
        forall|idx: int|
            0 <= idx < cond_tokens(cond).len() ==> c.t[p + idx] == #[trigger] cond_tokens(cond)[idx],
    ensures
        condition_at(c, p) == Ok::<(CondModel, int), ErrorModel>(
            (cond, p + cond_tokens(cond).len()),
        ),
{
    let fi = field_named(c.fs, cond.field).unwrap();
    let ct = cond_tokens(cond);
    let vt = value_tokens(cond.value);
    assert(ct == seq![TokenModel::Identifier(cond.field), op_token(cond.op)] + vt);
    assert(c.t[p] == ct[0]);
    assert(c.t[p + 1] == ct[1]);
    lemma_operator_reads(c, p + 1, cond.op);
    assert forall|idx: int| 0 <= idx < vt.len() implies c.t[(p + 2) + idx] == #[trigger] vt[idx] by {
        assert(c.t[p + (idx + 2)] == ct[idx + 2]);
    }
    if infers_value_kind(cond.op) {
        lemma_value_infers(c, p + 2, cond.value);
    } else if cond.op.base is Between {
        lemma_range_reads(c, p + 2, cond.value, fi.field_type@);
    } else {
        assert(!is_array_value(cond.value));
        assert(c.t[p + 2] == vt[0]);
        lemma_value_typed(c, p + 2, cond.value, cond.field, fi.field_type@);
    }
}

/// The tokens of the first `k` conditions begin the tokens of the first
/// `m`, for `1 <= k <= m`.
proof fn lemma_conds_tokens_prefix(conds: Seq<CondModel>, k: int, m: int)
    requires
        1 <= k <= m <= conds.len(),
    ensures
        conds_tokens(conds.take(k)).len() <= conds_tokens(conds.take(m)).len(),
        forall|idx: int|
            0 <= idx < conds_tokens(conds.take(k)).len() ==> #[trigger] conds_tokens(conds.take(m))[idx]
                == conds_tokens(conds.take(k))[idx],
    decreases m - k,
{
    if k < m {
        lemma_conds_tokens_prefix(conds, k, m - 1);
        assert(conds.take(m).drop_last() =~= conds.take(m - 1));
        assert(conds.take(m).last() == conds[m - 1]);
        let a = conds_tokens(conds.take(m - 1));
        assert(conds_tokens(conds.take(m)) == a + seq![TokenModel::And] + cond_tokens(conds[m - 1]));
        assert forall|idx: int| 0 <= idx < conds_tokens(conds.take(k)).len() implies #[trigger] conds_tokens(
            conds.take(m),
        )[idx] == conds_tokens(conds.take(k))[idx] by {
            assert(conds_tokens(conds.take(m))[idx] == a[idx]);
        }
    }
}

/// The conditions from the `k`-th on are read by `and_rest`, given those
/// before it, when a token other than `AND` follows them.
#[verifier::spinoff_prover]
#[verifier::rlimit(40)]
proof fn lemma_and_rest_reads(c: ParseCtx, p0: int, conds: Seq<CondModel>, k: int)
    requires
        1 <= k <= conds.len(),
        0 <= p0,
        p0 + conds_tokens(conds).len() < c.t.len(),
        c.t[p0 + conds_tokens(conds).len()] == TokenModel::RightParen,
        forall|idx: int|
            0 <= idx < conds_tokens(conds).len() ==> c.t[p0 + idx] == #[trigger] conds_tokens(conds)[idx],
        forall|x: int| 0 <= x < conds.len() ==> reads_back_in(#[trigger] conds[x], c.fs, c.nv),
    ensures
        and_rest(c, p0 + conds_tokens(conds.take(k)).len(), conds.take(k)) == Ok::<
            (Seq<CondModel>, int),
            ErrorModel,
        >((conds, p0 + conds_tokens(conds).len())),
    decreases conds.len() - k,
{
    let p = p0 + conds_tokens(conds.take(k)).len();
    if k == conds.len() {
        assert(conds.take(k) =~= conds);
    } else {
        lemma_conds_tokens_prefix(conds, k + 1, conds.len() as int);
        assert(conds.take(conds.len() as int) =~= conds);
        assert(conds.take(k + 1).drop_last() =~= conds.take(k));
        assert(conds.take(k + 1).last() == conds[k]);
        let a = conds_tokens(conds.take(k));
        let ct = cond_tokens(conds[k]);
        let b = conds_tokens(conds.take(k + 1));
        assert(b == a + seq![TokenModel::And] + ct);
        assert(c.t[p] == conds_tokens(conds)[a.len() as int]);
        assert(c.t[p] == b[a.len() as int]);
        assert forall|idx: int| 0 <= idx < ct.len() implies c.t[(p + 1) + idx] == #[trigger] ct[idx] by {
            assert(c.t[p0 + (a.len() + 1 + idx)] == conds_tokens(conds)[a.len() + 1 + idx]);
            assert(b[a.len() + 1 + idx] == ct[idx]);
        }
        lemma_condition_reads(c, p + 1, conds[k]);
        assert(conds.take(k).push(conds[k]) =~= conds.take(k + 1));
        lemma_and_rest_reads(c, p0, conds, k + 1);
    }
}

/// A conjunction's tokens in parentheses are read back as the conjunction.
#[verifier::spinoff_prover]
#[verifier::rlimit(40)]
pub proof fn lemma_conjunction_reads(c: ParseCtx, p: int, conds: Seq<CondModel>)
    requires
        conds.len() > 0,
        0 <= p,
        p + conj_tokens(conds).len() <= c.t.len(),
        forall|idx: int|
            0 <= idx < conj_tokens(conds).len() ==> c.t[p + idx] == #[trigger] conj_tokens(conds)[idx],
        forall|x: int| 0 <= x < conds.len() ==> reads_back_in(#[trigger] conds[x], c.fs, c.nv),
    ensures
        conjunction_at(c, p) == Ok::<(Seq<CondModel>, int), ErrorModel>(
            (conds, p + conj_tokens(conds).len()),
        ),
{
    let cts = conds_tokens(conds);
    let ct = conj_tokens(conds);
    let n = cts.len() as int;
    assert(ct == seq![TokenModel::LeftParen] + cts + seq![TokenModel::RightParen]);
    assert(c.t[p] == ct[0]);
    assert(c.t[p + (n + 1)] == ct[n + 1]);
    let p0 = p + 1;
    assert forall|idx: int| 0 <= idx < n implies c.t[p0 + idx] == #[trigger] cts[idx] by {
        assert(c.t[p + (idx + 1)] == ct[idx + 1]);
    }
    let first = conds[0];
    assert(conds.take(1) =~= seq![first]);
    assert(conds_tokens(conds.take(1)) == cond_tokens(first));
    lemma_conds_tokens_prefix(conds, 1, conds.len() as int);
    assert(conds.take(conds.len() as int) =~= conds);
    let ft = cond_tokens(first);
    assert forall|idx: int| 0 <= idx < ft.len() implies c.t[p0 + idx] == #[trigger] ft[idx] by {
        assert(cts[idx] == conds_tokens(conds.take(1))[idx]);
    }
    lemma_condition_reads(c, p0, first);
    lemma_and_rest_reads(c, p0, conds, 1);
}

/// The tokens of the first `k` conjunctions begin the tokens of the first
/// `m`, for `1 <= k <= m`.
proof fn lemma_query_tokens_prefix(q: Seq<Seq<CondModel>>, k: int, m: int)
    requires
        1 <= k <= m <= q.len(),
    ensures
        query_tokens(q.take(k)).len() <= query_tokens(q.take(m)).len(),
        forall|idx: int|
            0 <= idx < query_tokens(q.take(k)).len() ==> #[trigger] query_tokens(q.take(m))[idx]
                == query_tokens(q.take(k))[idx],
    decreases m - k,
{
    if k < m {
        lemma_query_tokens_prefix(q, k, m - 1);
        assert(q.take(m).drop_last() =~= q.take(m - 1));
        assert(q.take(m).last() == q[m - 1]);
        let a = query_tokens(q.take(m - 1));
        assert(query_tokens(q.take(m)) == a + seq![TokenModel::Or] + conj_tokens(q[m - 1]));
        assert forall|idx: int| 0 <= idx < query_tokens(q.take(k)).len() implies #[trigger] query_tokens(
            q.take(m),
        )[idx] == query_tokens(q.take(k))[idx] by {
            assert(query_tokens(q.take(m))[idx] == a[idx]);
        }
    }
}

/// The conjunctions from the `k`-th on are read by `or_rest`, given those
/// before it.
proof fn lemma_or_rest_reads(c: ParseCtx, q: Seq<Seq<CondModel>>, k: int)
    requires
        1 <= k <= q.len(),
        c.t == query_tokens(q),
        forall|i: int| 0 <= i < q.len() ==> (#[trigger] q[i]).len() > 0,
        forall|i: int, j: int|
            0 <= i < q.len() && 0 <= j < q[i].len() ==> reads_back_in(#[trigger] q[i][j], c.fs, c.nv),
    ensures
        or_rest(c, query_tokens(q.take(k)).len() as int, q.take(k)) == Ok::<
            (Seq<Seq<CondModel>>, int),
            ErrorModel,
        >((q, c.t.len() as int)),
    decreases q.len() - k,
{
    let p = query_tokens(q.take(k)).len() as int;
    if k == q.len() {
        assert(q.take(k) =~= q);
    } else {
        lemma_query_tokens_prefix(q, k + 1, q.len() as int);
        assert(q.take(q.len() as int) =~= q);
        assert(q.take(k + 1).drop_last() =~= q.take(k));
        assert(q.take(k + 1).last() == q[k]);
        let a = query_tokens(q.take(k));
        let ct = conj_tokens(q[k]);
        let b = query_tokens(q.take(k + 1));
        assert(b == a + seq![TokenModel::Or] + ct);
        assert(c.t[p] == b[p]);
        assert forall|idx: int| 0 <= idx < ct.len() implies c.t[(p + 1) + idx] == #[trigger] ct[idx] by {
            assert(c.t[p + 1 + idx] == b[p + 1 + idx]);
        }
        assert forall|x: int| 0 <= x < q[k].len() implies reads_back_in(#[trigger] q[k][x], c.fs, c.nv) by {}
        lemma_conjunction_reads(c, p + 1, q[k]);
        assert(q.take(k).push(q[k]) =~= q.take(k + 1));
        lemma_or_rest_reads(c, q, k + 1);
    }
}

/// The tokens of a writable query are read back as the query.
pub proof fn lemma_query_tokens_read(c: ParseCtx, q: Seq<Seq<CondModel>>)
    requires
        q.len() > 0,
        c.t == query_tokens(q),
        forall|i: int| 0 <= i < q.len() ==> (#[trigger] q[i]).len() > 0,
        forall|i: int, j: int|
            0 <= i < q.len() && 0 <= j < q[i].len() ==> reads_back_in(#[trigger] q[i][j], c.fs, c.nv),
    ensures
        parse_tokens(c) == Ok::<Seq<Seq<CondModel>>, ErrorModel>(q),
{
    lemma_query_tokens_prefix(q, 1, q.len() as int);
    assert(q.take(q.len() as int) =~= q);
    assert(q.take(1) =~= seq![q[0]]);
    assert(query_tokens(q.take(1)) == conj_tokens(q[0]));
    assert(c.t.len() > 0);
    let ct = conj_tokens(q[0]);
    assert forall|idx: int| 0 <= idx < ct.len() implies c.t[0 + idx] == #[trigger] ct[idx] by {
        assert(c.t[idx] == query_tokens(q.take(1))[idx]);
    }
    assert forall|x: int| 0 <= x < q[0].len() implies reads_back_in(#[trigger] q[0][x], c.fs, c.nv) by {}
    lemma_conjunction_reads(c, 0, q[0]);
    lemma_or_rest_reads(c, q, 1);
}

/// Writing a query as text and parsing the text back gives the query.
///
/// This holds for every query of at least one conjunction, none of them
/// empty, whose conditions name fields of `fields` by plain identifiers
/// (dotted paths of ASCII words, such as `user.name`, that are not keywords
/// or custom operator names), whose
/// custom operators are not negated, are named by words of `custom` that
/// are no keywords and take a value (are not in `novalue`), and whose
/// values read back for their fields:
/// - after `==`, `!=`, a text operator (`CONTAINS`, `STARTS WITH`,
///   `ENDS WITH`) or `IN` / `ALL OF`, plain or negated: a text, a boolean,
///   `null`, an unsigned integer, a negative signed integer, or an array of
///   texts (possibly empty), of booleans, of unsigned integers or of
///   negative signed integers (these three not empty);
/// - after a comparison (`>`, `<`, `>=`, `<=`) or a custom operator: a
///   value that the field's type reads back as itself (see
///   [`typed_reading`]), that is a text on a text field, a boolean on a
///   `bool` field, `null` on an `Option` field, an unsigned integer on a
///   field of unsigned integer type, or a signed integer on a field of
///   neither unsigned integer nor float type;
/// - after `BETWEEN`, plain or negated: a non-empty array of signed integers
///   on a field of neither unsigned integer nor float type, or a non-empty
///   array of unsigned integers on a field of unsigned integer type.
pub proof fn lemma_written_query_parses_back(
    q: Seq<Seq<CondModel>>,
    fields: Seq<FieldInfo>,
    custom: Option<Set<Seq<char>>>,
    novalue: Set<Seq<char>>,
)
    requires
        is_writable_query(q, custom),
        forall|i: int, j: int|
            0 <= i < q.len() && 0 <= j < q[i].len() ==> reads_back_in(#[trigger] q[i][j], fields, novalue),
    ensures
        parse_query_text(query_text(q), fields, custom, novalue) == Ok::<
            Seq<Seq<CondModel>>,
            ErrorModel,
        >(q),
{
    lemma_query_text_lexes(q, custom);
    let c = ParseCtx {
        t: query_tokens(q),
        fs: fields,
        inp: query_text(q),
        nv: novalue,
        offs: crate::token::lex_offsets(query_text(q), 0),
    };
    lemma_query_tokens_read(c, q);
}

/// The value a written value is read back as where the parser infers its
/// kind from the literal: a non-negative signed integer is read as the
/// unsigned integer of the same value, any other value as itself.
pub open spec fn as_inferred(v: ValueModel) -> ValueModel {
    match v {
        ValueModel::Int(n) => if n >= 0 {
            ValueModel::Uint(n as u64)
        } else {
            v
        },
        _ => v,
    }
}

/// A written condition as it is read back for the field `fi`: after an
/// operator that infers the kind of its value, with the value as
/// inferred; after a comparison, with the value as the field's type reads
/// it.
pub open spec fn cond_read_for(c: CondModel, fi: FieldInfo) -> CondModel {
    if infers_value_kind(c.op) {
        CondModel { field: c.field, op: c.op, value: as_inferred(c.value) }
    } else {
        match typed_reading(c.value, fi.field_type@) {
            Some(w) => CondModel { field: c.field, op: c.op, value: w },
            None => c,
        }
    }
}

/// A written condition as it is read back for the field of `fs` it names.
pub open spec fn cond_as_read(c: CondModel, fs: Seq<FieldInfo>) -> CondModel {
    match field_named(fs, c.field) {
        Some(fi) => cond_read_for(c, fi),
        None => c,
    }
}

/// A written query as it is read back, condition by condition.
pub open spec fn query_as_read(q: Seq<Seq<CondModel>>, fs: Seq<FieldInfo>) -> Seq<Seq<CondModel>> {
    q.map_values(|cs: Seq<CondModel>| cs.map_values(|c: CondModel| cond_as_read(c, fs)))
}

/// The condition names one of `fs` and its value is read back as a value
/// equal to it: after an operator that infers the kind of the value, one
/// whose inferred form reads back (see [`reads_back`]); after a
/// comparison or a custom operator that takes a value, one that the
/// field's type reads (see [`typed_reading`]);
/// after `BETWEEN`, a range that suits the field (see
/// [`range_reads_back`]).
pub open spec fn reads_back_equal_in(c: CondModel, fs: Seq<FieldInfo>, nv: Set<Seq<char>>) -> bool {
    match field_named(fs, c.field) {
        Some(fi) => if infers_value_kind(c.op) {
            is_inferable_value(as_inferred(c.value))
        } else if c.op.base is Between {
            range_reads_back(c.value, base_type(fi.field_type@))
        } else {
            &&& reads_typed(c.op, nv)
            &&& typed_reading(c.value, fi.field_type@) is Some
        },
        None => false,
    }
}

/// A condition read back up to value equality is written as it was, reads
/// back exactly as read, and equals the condition.
proof fn lemma_cond_as_read(
    c: CondModel,
    fs: Seq<FieldInfo>,
    custom: Option<Set<Seq<char>>>,
    nv: Set<Seq<char>>,
)
    requires
        is_writable_condition(c, custom),
        reads_back_equal_in(c, fs, nv),
    ensures
        is_writable_condition(cond_as_read(c, fs), custom),
        reads_back_in(cond_as_read(c, fs), fs, nv),
        cond_text(cond_as_read(c, fs)) == cond_text(c),
        cond_equal(cond_as_read(c, fs), c),
{
    crate::laws::lemma_equality_reflexive_symmetric(c.value, c.value);
    let fi = field_named(fs, c.field)->0;
    let r = cond_as_read(c, fs);
    assert(r.field == c.field && r.op == c.op);
    if reads_typed(c.op, nv) {
        let w = typed_reading(c.value, fi.field_type@)->0;
        assert(r.value == w);
        assert(typed_reading(w, fi.field_type@) == Some(w));
        assert(w.display() == c.value.display());
        assert(crate::compare::values_equal(w, c.value));
    }
}

/// A conjunction read back is written as it was.
proof fn lemma_conj_text_as_read(
    cs: Seq<CondModel>,
    custom: Option<Set<Seq<char>>>,
    fs: Seq<FieldInfo>,
    nv: Set<Seq<char>>,
)
    requires
        forall|j: int| 0 <= j < cs.len() ==> is_writable_condition(#[trigger] cs[j], custom),
        forall|j: int| 0 <= j < cs.len() ==> reads_back_equal_in(#[trigger] cs[j], fs, nv),
    ensures
        conj_text(cs.map_values(|c: CondModel| cond_as_read(c, fs))) == conj_text(cs),
{
    let read = cs.map_values(|c: CondModel| cond_as_read(c, fs));
    assert forall|j: int| 0 <= j < cs.len() implies cond_text(#[trigger] read[j]) == cond_text(
        cs[j],
    ) by {
        lemma_cond_as_read(cs[j], fs, custom, nv);
    }
    assert(read.map_values(|c: CondModel| cond_text(c)) =~= cs.map_values(
        |c: CondModel| cond_text(c),
    ));
}

/// Writing a query as text and parsing the text back gives a query equal
/// to it: conjunction by conjunction and condition by condition, with the
/// same fields and operators and equal values.
///
/// Beyond the queries that read back exactly (see
/// [`lemma_written_query_parses_back`]), this admits non-negative signed
/// integers after `==`, `!=`, a text operator or `IN` / `ALL OF`, and after
/// a comparison or a custom operator every scalar that the field's type
/// reads, such as a non-negative signed integer on a field of unsigned type
/// or an unsigned integer on one of signed type: integers are read back as
/// integers of the other kind and the same value, which equal them.
pub proof fn lemma_written_query_parses_back_equal(
    q: Seq<Seq<CondModel>>,
    fields: Seq<FieldInfo>,
    custom: Option<Set<Seq<char>>>,
    novalue: Set<Seq<char>>,
)
    requires
        is_writable_query(q, custom),
        forall|i: int, j: int|
            0 <= i < q.len() && 0 <= j < q[i].len() ==> reads_back_equal_in(#[trigger] q[i][j], fields, novalue),
    ensures
        parse_query_text(query_text(q), fields, custom, novalue) == Ok::<
            Seq<Seq<CondModel>>,
            ErrorModel,
        >(query_as_read(q, fields)),
        query_equal(query_as_read(q, fields), q),
{
    let r = query_as_read(q, fields);
    assert forall|i: int| 0 <= i < q.len() implies #[trigger] conj_text(r[i]) == conj_text(q[i]) && conj_equal(r[i], q[i]) by {
        assert forall|j: int| 0 <= j < q[i].len() implies is_writable_condition(#[trigger] q[i][j], custom) by {}
        assert forall|j: int| 0 <= j < q[i].len() implies reads_back_equal_in(#[trigger] q[i][j], fields, novalue) by {}
        lemma_conj_text_as_read(q[i], custom, fields, novalue);
        assert forall|j: int| 0 <= j < q[i].len() implies cond_equal(#[trigger] r[i][j], q[i][j]) by {
            lemma_cond_as_read(q[i][j], fields, custom, novalue);
        }
    }
    assert(r.map_values(|cs: Seq<CondModel>| conj_text(cs)) =~= q.map_values(
        |cs: Seq<CondModel>| conj_text(cs),
    ));
    assert(query_text(r) == query_text(q));
    assert(is_writable_query(r, custom)) by {
        assert forall|i: int| 0 <= i < r.len() implies (#[trigger] r[i]).len() > 0 by {}
        assert forall|i: int, j: int|
            0 <= i < r.len() && 0 <= j < r[i].len() implies is_writable_condition(
            #[trigger] r[i][j],
            custom,
        ) by {
            lemma_cond_as_read(q[i][j], fields, custom, novalue);
        }
    }
    assert forall|i: int, j: int|
        0 <= i < r.len() && 0 <= j < r[i].len() implies reads_back_in(#[trigger] r[i][j], fields, novalue) by {
        lemma_cond_as_read(q[i][j], fields, custom, novalue);
    }
    lemma_written_query_parses_back(r, fields, custom, novalue);
}

} // verus!
