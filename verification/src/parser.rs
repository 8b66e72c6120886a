//! Recursive-descent parser from tokens to a [`DnfQuery`], proved to follow
//! the grammar of [`crate::grammar`].
use vstd::prelude::*;

use crate::custom::CustomOp;
use crate::error::DnfError;
use crate::grammar::{
    and_rest, array_at, bracket_key_at, condition_at, condition_rest_at, conjunction_at, element_at,
    at_byte, elements_from, eof_error, field_named, float_error, flexible_value_at, inferred_number, two_dots,
    invalid_number, is_flexible_op, is_signed_name, is_unsigned_name, lemma_condition_advances,
    lemma_conjunction_advances, looks_float, map_target_at, operator_at, array_of, as_signed,
    as_unsigned, kind_text, or_expr_at, or_rest, parse_from, parse_tokens, same_kind, range_at,
    range_number, range_rest, starts_minus, takes_no_value, targeted, typed_number, typed_value_at,
    unexpected_at, unexpected_token, MapTarget, ParseCtx, Parsed,
};
use crate::numeric::{parse_i64_chars, parse_u64_chars};
use crate::operator::{BaseOperator, Op};
use crate::query::{cond_views, conj_views, CondModel, Condition, Conjunction, DnfQuery};
use crate::schema::{FieldInfo, FieldKind};
use crate::text::{
    byte_len, chars_of, contains_chars, lemma_byte_len_concat, push_str, string_of, utf8_width,
};
use crate::token::{lex_offsets, offsets_view, token_offsets, token_tag, Token, TokenModel};
use crate::types::{
    base_type_chars, float_name, is_bool_type, is_str, is_string_type, starts_with_str,
    unwrap_option,
};
use crate::value::{string_views, Value, ValueModel};

verus! {

/// The models of a list of tokens.
pub open spec fn token_views(t: Seq<Token>) -> Seq<TokenModel> {
    t.map_values(|x: Token| x@)
}

/// The last field named `name`.
fn field_named_exec(fields: &[FieldInfo], name: &str) -> (r: Option<FieldInfo>)
    ensures
        r == field_named(fields@, name@),
{
    let mut k: usize = fields.len();
    assert(fields@.take(k as int) =~= fields@);
    while k > 0
        invariant
            k <= fields@.len(),
            field_named(fields@, name@) == field_named(fields@.take(k as int), name@),
        decreases k,
    {
        assert(fields@.take(k as int).last() == fields@[k - 1]);
        if crate::text::str_equal(fields[k - 1].name, name) {
            return Some(fields[k - 1]);
        }
        assert(fields@.take(k as int).drop_last() =~= fields@.take(k - 1));
        k = k - 1;
    }
    None
}

/// Whether a number literal has a fraction or an exponent.
fn looks_float_exec(num: &[char]) -> (r: bool)
    ensures
        r == looks_float(num@),
{
    let dot = chars_of(".");
    let e1 = chars_of("e");
    let e2 = chars_of("E");
    contains_chars(num, dot.as_slice()) || contains_chars(num, e1.as_slice()) || contains_chars(
        num,
        e2.as_slice(),
    )
}

/// Whether a number literal has a leading minus sign.
fn starts_minus_exec(num: &[char]) -> (r: bool)
    ensures
        r == starts_minus(num@),
{
    starts_with_str(num, "-")
}

/// Whether `t` names a signed integer type.
fn signed_name(t: &[char]) -> (r: bool)
    ensures
        r == is_signed_name(t@),
{
    is_str(t, "i8") || is_str(t, "i16") || is_str(t, "i32") || is_str(t, "i64") || is_str(
        t,
        "isize",
    )
}

/// Whether `t` names an unsigned integer type.
fn unsigned_name(t: &[char]) -> (r: bool)
    ensures
        r == is_unsigned_name(t@),
{
    is_str(t, "u8") || is_str(t, "u16") || is_str(t, "u32") || is_str(t, "u64") || is_str(
        t,
        "usize",
    )
}

/// Whether a literal has more than one decimal point.
fn two_dots_exec(num: &[char]) -> (r: bool)
    ensures
        r == two_dots(num@),
{
    let mut seen: Option<usize> = None;
    let mut i: usize = 0;
    while i < num.len()
        invariant
            i <= num@.len(),
            match seen {
                Some(k) => k < i && num@[k as int] == '.',
                None => forall|k: int| 0 <= k < i ==> num@[k] != '.',
            },
            forall|a: int, b: int| 0 <= a < b < i ==> !(num@[a] == '.' && num@[b] == '.'),
        decreases num.len() - i,
    {
        if num[i] == '.' {
            match seen {
                Some(k) => {
                    assert(0 <= k < i < num@.len() && num@[k as int] == '.' && num@[i as int] == '.');
                    return true;
                },
                None => {
                    seen = Some(i);
                },
            }
        }
        i = i + 1;
    }
    false
}

/// The error for a number literal with a fraction or an exponent.
fn float_error_exec(input: &String, num: &[char], p: usize) -> (e: DnfError)
    ensures
        e@ == float_error(input@, num@, p as int),
{
    if two_dots_exec(num) {
        DnfError::InvalidNumber {
            value: crate::text::string_from_chars(num),
            position: p,
            input: input.clone(),
        }
    } else {
        DnfError::TypeMismatch {
            field: string_of("number"),
            expected: string_of("integer"),
            actual: crate::text::string_from_chars(num),
            position: Some(p),
        }
    }
}

/// The error for an integer literal that does not parse where the type
/// is inferred.
fn invalid_integer_exec(num: &[char], p: usize) -> (e: DnfError)
    ensures
        e@ == (crate::error::ErrorModel::TypeMismatch {
            field: "number"@,
            expected: "valid integer"@,
            actual: num@,
            position: Some(p),
        }),
{
    DnfError::TypeMismatch {
        field: string_of("number"),
        expected: string_of("valid integer"),
        actual: crate::text::string_from_chars(num),
        position: Some(p),
    }
}

/// The value model of a flexible-number outcome.
fn inferred_number_exec(input: &String, num: &[char], p: usize) -> (r: Result<Value, DnfError>)
    ensures
        match inferred_number(input@, num@, p as int) {
            Ok(v) => r matches Ok(x) && x@ == v,
            Err(e) => r matches Err(x) && x@ == e,
        },
{
    if looks_float_exec(num) {
        Err(float_error_exec(input, num, p))
    } else if starts_minus_exec(num) {
        match parse_i64_chars(num) {
            Some(i) => Ok(Value::Int(i)),
            None => Err(invalid_integer_exec(num, p)),
        }
    } else {
        match parse_u64_chars(num) {
            Some(u) => Ok(Value::Uint(u)),
            None => Err(invalid_integer_exec(num, p)),
        }
    }
}

/// Recursive-descent parser over a token list.
pub struct Parser {
    tokens: Vec<Token>,
    current: usize,
    fields: Vec<FieldInfo>,
    input: String,
    novalue_ops: Vec<String>,
    eof_position: usize,
    offsets: Vec<usize>,
}

impl Parser {
    /// The position never passes the end, and the end-of-input position is
    /// the byte length of the query.
    #[verifier::type_invariant]
    spec fn wf(self) -> bool {
        &&& self.current <= self.tokens@.len()
        &&& self.eof_position == byte_len(self.input@)
    }

    /// What the parser reads.
    pub closed spec fn ctx(self) -> ParseCtx {
        ParseCtx {
            t: token_views(self.tokens@),
            fs: self.fields@,
            inp: self.input@,
            nv: string_views(self.novalue_ops@).to_set(),
            offs: offsets_view(self.offsets@),
        }
    }

    /// The position of the next token.
    pub closed spec fn pos(self) -> int {
        self.current as int
    }

    /// The position of the next token is never negative.
    pub proof fn lemma_pos_nonneg(self)
        ensures
            self.pos() >= 0,
    {
    }

    /// A parser at the first of `tokens`, for a target with the given
    /// fields; `novalue_ops` are the custom operators that take no value.
    /// Error positions are the byte offsets in `input` where the tokens of
    /// `input` start.
    pub fn new(
        tokens: Vec<Token>,
        fields: &[FieldInfo],
        input: String,
        novalue_ops: Option<&[String]>,
    ) -> (r: Parser)
        ensures
            r.ctx() == (ParseCtx {
                t: token_views(tokens@),
                fs: fields@,
                inp: input@,
                nv: match novalue_ops {
                    Some(ops) => string_views(ops@).to_set(),
                    None => Set::empty(),
                },
                offs: lex_offsets(input@, 0),
            }),
            r.pos() == 0,
    {
        let mut field_list: Vec<FieldInfo> = Vec::new();
        let mut i: usize = 0;
        while i < fields.len()
            invariant
                i <= fields@.len(),
                field_list@ == fields@.take(i as int),
            decreases fields.len() - i,
        {
            field_list.push(fields[i]);
            assert(fields@.take(i + 1) =~= fields@.take(i as int).push(fields@[i as int]));
            i = i + 1;
        }
        assert(fields@.take(fields@.len() as int) =~= fields@);
        let mut names: Vec<String> = Vec::new();
        match novalue_ops {
            Some(ops) => {
                let mut k: usize = 0;
                while k < ops.len()
                    invariant
                        k <= ops@.len(),
                        names@.len() == k,
                        forall|j: int| 0 <= j < k ==> names@[j]@ == ops@[j]@,
                    decreases ops.len() - k,
                {
                    names.push(ops[k].clone());
                    k = k + 1;
                }
                assert(string_views(names@) =~= string_views(ops@));
            },
            None => {
                assert(string_views(names@) =~= Seq::<Seq<char>>::empty());
                assert(string_views(names@).to_set() =~= Set::<Seq<char>>::empty());
            },
        }
        let eof_position = crate::text::text_byte_len(input.as_str());
        let offsets = token_offsets(input.as_str());
        Parser {
            tokens,
            current: 0,
            fields: field_list,
            input,
            novalue_ops: names,
            eof_position,
            offsets,
        }
    }

    // -----------------------------------------------------------------
    // Token access
    // -----------------------------------------------------------------
    /// The next token, if any.
    pub fn peek(&self) -> (r: Option<&Token>)
        ensures
            match r {
                Some(t) => self.pos() < self.ctx().t.len() && t@ == self.ctx().t[self.pos()],
                None => self.pos() >= self.ctx().t.len(),
            },
    {
        if self.current < self.tokens.len() {
            Some(&self.tokens[self.current])
        } else {
            None
        }
    }

    /// Whether every token has been read.
    pub fn is_at_end(&self) -> (r: bool)
        ensures
            r == (self.pos() >= self.ctx().t.len()),
    {
        self.current >= self.tokens.len()
    }

    /// Reads the next token.
    pub fn advance(&mut self) -> (r: Option<Token>)
        ensures
            final(self).ctx() == old(self).ctx(),
            match r {
                Some(t) => old(self).pos() < old(self).ctx().t.len() && t@ == old(self).ctx().t[old(
                    self,
                ).pos()] && final(self).pos() == old(self).pos() + 1,
                None => old(self).pos() >= old(self).ctx().t.len() && final(self).pos() == old(
                    self,
                ).pos(),
            },
    {
        proof {
            use_type_invariant(&*self);
        }
        if self.current < self.tokens.len() {
            let t = self.tokens[self.current].duplicate();
            self.current = self.current + 1;
            Some(t)
        } else {
            None
        }
    }

    /// Reads the next token when it is of the same variant as `expected`.
    pub fn match_token(&mut self, expected: &Token) -> (r: bool)
        ensures
            final(self).ctx() == old(self).ctx(),
            r == (old(self).pos() < old(self).ctx().t.len() && token_tag(
                old(self).ctx().t[old(self).pos()],
            ) == token_tag(expected@)),
            final(self).pos() == if r {
                old(self).pos() + 1
            } else {
                old(self).pos()
            },
    {
        proof {
            use_type_invariant(&*self);
        }
        if self.current < self.tokens.len() && self.tokens[self.current].tag() == expected.tag() {
            self.current = self.current + 1;
            true
        } else {
            false
        }
    }

    // -----------------------------------------------------------------
    // Errors
    // -----------------------------------------------------------------
    /// The tokens ended where more were needed.
    fn eof(&self) -> (e: DnfError)
        ensures
            e@ == eof_error(self.ctx()),
    {
        proof {
            use_type_invariant(self);
        }
        DnfError::UnexpectedEof { position: self.eof_position, input: self.input.clone() }
    }

    /// The byte offset of the token at `p` (see [`at_byte`]).
    fn byte_at(&self, p: usize) -> (r: usize)
        ensures
            r == at_byte(self.ctx(), p as int),
    {
        proof {
            use_type_invariant(self);
        }
        if p < self.offsets.len() {
            self.offsets[p]
        } else {
            self.eof_position
        }
    }

    /// `expected` was expected at the token at `p` (reported at its byte offset).
    fn unexpected_at_exec(&self, expected: &str, p: usize) -> (e: DnfError)
        ensures
            e@ == unexpected_at(self.ctx(), expected@, p as int),
    {
        let found = if p < self.tokens.len() {
            self.tokens[p].to_string()
        } else {
            string_of("EOF")
        };
        DnfError::UnexpectedToken {
            expected: string_of(expected),
            found,
            position: self.byte_at(p),
            input: self.input.clone(),
        }
    }

    /// The token `tok`, at position `p`, is not what was expected.
    fn unexpected_token_exec(&self, expected: &str, tok: &Token, p: usize) -> (e: DnfError)
        ensures
            e@ == unexpected_token(self.ctx(), expected@, tok@, p as int),
    {
        DnfError::UnexpectedToken {
            expected: string_of(expected),
            found: tok.to_string(),
            position: self.byte_at(p),
            input: self.input.clone(),
        }
    }

    /// A number literal that does not parse.
    fn invalid_number_exec(&self, num: &[char], p: usize) -> (e: DnfError)
        ensures
            e@ == invalid_number(self.ctx(), num@, p as int),
    {
        DnfError::InvalidNumber {
            value: crate::text::string_from_chars(num),
            position: self.byte_at(p),
            input: self.input.clone(),
        }
    }

    /// A type mismatch at the current position.
    pub fn type_mismatch_error(&self, field: &str, expected: String, actual: String) -> (e:
        DnfError)
        ensures
            e@ == (crate::error::ErrorModel::TypeMismatch {
                field: field@,
                expected: expected@,
                actual: actual@,
                position: Some(at_byte(self.ctx(), self.pos()) as usize),
            }),
    {
        DnfError::TypeMismatch {
            field: string_of(field),
            expected,
            actual,
            position: Some(self.byte_at(self.current)),
        }
    }
}

/// How a field kind is shown in an error.
fn kind_name_exec(k: FieldKind) -> (r: String)
    ensures
        r@ == crate::grammar::kind_name(k),
{
    match k {
        FieldKind::Scalar => string_of("Scalar"),
        FieldKind::Iter => string_of("Iter"),
        FieldKind::Mapping => string_of("Map"),
    }
}

impl Parser {
    /// `r` and the position after it are what `s` says is parsed (or `r` is
    /// its error), and nothing but the position changed.
    pub open spec fn steps<X: View>(self, after: Parser, r: Result<X, DnfError>, s: Parsed<X::V>) -> bool {
        &&& after.ctx() == self.ctx()
        &&& match s {
            Ok((x, p)) => r matches Ok(v) && v@ == x && after.pos() == p,
            Err(e) => r matches Err(err) && err@ == e,
        }
    }

    /// As [`steps`](Self::steps), and on an error the parser stands at
    /// `err_pos`.
    pub open spec fn steps_or_stops<X: View>(
        self,
        after: Parser,
        r: Result<X, DnfError>,
        s: Parsed<X::V>,
        err_pos: int,
    ) -> bool {
        &&& self.steps(after, r, s)
        &&& (s is Err ==> after.pos() == err_pos)
    }

    /// Past the next token, if there is one (where reading one token leaves
    /// the parser, whether or not the token was the one wanted).
    pub open spec fn past_next(self) -> int {
        if self.pos() < self.ctx().t.len() {
            self.pos() + 1
        } else {
            self.pos()
        }
    }

    /// The token at position `p`, as a model.
    proof fn lemma_token_at(self, p: int)
        requires
            0 <= p < self.tokens@.len(),
        ensures
            self.ctx().t[p] == self.tokens@[p]@,
            self.ctx().t.len() == self.tokens@.len(),
    {
    }

    /// Reads an operator.
    pub fn parse_operator(&mut self) -> (r: Result<Op, DnfError>)
        ensures
            old(self).steps_or_stops(
                *final(self),
                r,
                operator_at(old(self).ctx(), old(self).pos()),
                old(self).past_next(),
            ),
    {
        proof {
            use_type_invariant(&*self);
        }
        let p = self.current;
        if p >= self.tokens.len() {
            return Err(self.eof());
        }
        proof {
            self.lemma_token_at(p as int);
        }
        self.current = p + 1;
        let op = match &self.tokens[p] {
            Token::Eq => Op::EQ(),
            Token::Ne => Op::NE(),
            Token::Gt => Op::GT(),
            Token::Lt => Op::LT(),
            Token::Gte => Op::GTE(),
            Token::Lte => Op::LTE(),
            Token::Contains => Op::CONTAINS(),
            Token::NotContains => Op::NOT_CONTAINS(),
            Token::StartsWith => Op::STARTS_WITH(),
            Token::EndsWith => Op::ENDS_WITH(),
            Token::NotStartsWith => Op::NOT_STARTS_WITH(),
            Token::NotEndsWith => Op::NOT_ENDS_WITH(),
            Token::AllOf => Op::ALL_OF(),
            Token::AnyOf => Op::ANY_OF(),
            Token::NotAllOf => Op::NOT_ALL_OF(),
            Token::NotAnyOf => Op::NOT_ANY_OF(),
            Token::Between => Op::BETWEEN(),
            Token::NotBetween => Op::NOT_BETWEEN(),
            Token::CustomOp(name) => Op::custom(name.as_str()),
            tok => {
                return Err(self.unexpected_token_exec("operator", tok, p));
            },
        };
        Ok(op)
    }

    /// Reads a map target (`.@keys`, `.@values` or `[`), allowed on map
    /// fields only.
    pub fn parse_map_target(&mut self, field_kind: FieldKind) -> (r: Result<Option<MapTarget>, DnfError>)
        ensures
            old(self).steps_or_stops(
                *final(self),
                r,
                map_target_at(old(self).ctx(), old(self).pos(), field_kind),
                old(self).pos(),
            ),
    {
        proof {
            use_type_invariant(&*self);
        }
        let p = self.current;
        if p >= self.tokens.len() {
            return Ok(None);
        }
        proof {
            self.lemma_token_at(p as int);
        }
        let (target, what) = match &self.tokens[p] {
            Token::MapKeys => (MapTarget::Keys, "map field for .@keys"),
            Token::MapValues => (MapTarget::Values, "map field for .@values"),
            Token::LeftBracket => (MapTarget::AtKey, "map field for bracket access"),
            _ => {
                return Ok(None);
            },
        };
        if field_kind != FieldKind::Mapping {
            let mut found = kind_name_exec(field_kind);
            push_str(&mut found, " field");
            return Err(
                DnfError::UnexpectedToken {
                    expected: string_of(what),
                    found,
                    position: self.byte_at(p),
                    input: self.input.clone(),
                },
            );
        }
        self.current = p + 1;
        Ok(Some(target))
    }

    /// Reads the key of a bracket access: a string, then `]`.
    pub fn parse_bracket_key(&mut self) -> (r: Result<String, DnfError>)
        ensures
            old(self).steps(*final(self), r, bracket_key_at(old(self).ctx(), old(self).pos())),
    {
        proof {
            use_type_invariant(&*self);
        }
        let p = self.current;
        if p >= self.tokens.len() {
            return Err(self.eof());
        }
        proof {
            self.lemma_token_at(p as int);
        }
        let key = match &self.tokens[p] {
            Token::String(s) => s.clone(),
            tok => {
                return Err(self.unexpected_token_exec("string key", tok, p));
            },
        };
        if p + 1 < self.tokens.len() {
            proof {
                self.lemma_token_at(p + 1);
            }
            match &self.tokens[p + 1] {
                Token::RightBracket => {
                    self.current = p + 2;
                    return Ok(key);
                },
                _ => {},
            }
        }
        Err(self.unexpected_at_exec("]", p + 1))
    }

    /// A number literal for a field of the given type, read at position `p`.
    fn parse_number(&self, num: &[char], field_type: &str, p: usize) -> (r: Result<Value, DnfError>)
        ensures
            match typed_number(self.ctx(), num@, field_type@, p as int) {
                Ok(v) => r matches Ok(x) && x@ == v,
                Err(e) => r matches Err(x) && x@ == e,
            },
    {
        let base = base_type_chars(field_type);
        let b = base.as_slice();
        if float_name(b) || looks_float_exec(num) {
            Err(float_error_exec(&self.input, num, self.byte_at(p)))
        } else if unsigned_name(b) {
            match parse_u64_chars(num) {
                Some(u) => Ok(Value::Uint(u)),
                None => Err(self.invalid_number_exec(num, p)),
            }
        } else if signed_name(b) || starts_minus_exec(num) {
            match parse_i64_chars(num) {
                Some(i) => Ok(Value::Int(i)),
                None => Err(self.invalid_number_exec(num, p)),
            }
        } else {
            match parse_i64_chars(num) {
                Some(i) => Ok(Value::Int(i)),
                None => match parse_u64_chars(num) {
                    Some(u) => Ok(Value::Uint(u)),
                    None => Err(float_error_exec(&self.input, num, self.byte_at(p))),
                },
            }
        }
    }

    /// Reads a value for a field of the given type.
    pub fn parse_value(&mut self, field_name: &str, field_type: &str) -> (r: Result<Value, DnfError>)
        ensures
            old(self).steps_or_stops(
                *final(self),
                r,
                typed_value_at(old(self).ctx(), old(self).pos(), field_name@, field_type@),
                old(self).past_next(),
            ),
    {
        proof {
            use_type_invariant(&*self);
        }
        let p = self.current;
        if p >= self.tokens.len() {
            return Err(self.eof());
        }
        proof {
            self.lemma_token_at(p as int);
        }
        self.current = p + 1;
        let v = match &self.tokens[p] {
            Token::String(s) => {
                if is_string_type(field_type) {
                    Value::String(s.clone())
                } else {
                    return Err(
                        DnfError::TypeMismatch {
                            field: string_of(field_name),
                            expected: string_of(field_type),
                            actual: string_of("String"),
                            position: Some(self.byte_at(p)),
                        },
                    );
                }
            },
            Token::Number(num) => {
                let cs = chars_of(num.as_str());
                match self.parse_number(cs.as_slice(), field_type, p) {
                    Ok(v) => v,
                    Err(e) => {
                        return Err(e);
                    },
                }
            },
            Token::Boolean(b) => {
                if is_bool_type(field_type) {
                    Value::Bool(*b)
                } else {
                    return Err(
                        DnfError::TypeMismatch {
                            field: string_of(field_name),
                            expected: string_of(field_type),
                            actual: string_of("Boolean"),
                            position: Some(self.byte_at(p)),
                        },
                    );
                }
            },
            Token::Null => {
                if unwrap_option(field_type).is_some() {
                    Value::Null
                } else {
                    return Err(
                        DnfError::TypeMismatch {
                            field: string_of(field_name),
                            expected: string_of(field_type),
                            actual: string_of("null"),
                            position: Some(self.byte_at(p)),
                        },
                    );
                }
            },
            tok => {
                return Err(self.unexpected_token_exec("value", tok, p));
            },
        };
        Ok(v)
    }

    /// Reads an array element: a string, an integer or a boolean.
    pub fn parse_array_element(&mut self) -> (r: Result<Value, DnfError>)
        ensures
            old(self).steps(*final(self), r, element_at(old(self).ctx(), old(self).pos())),
    {
        proof {
            use_type_invariant(&*self);
        }
        let p = self.current;
        if p >= self.tokens.len() {
            return Err(self.eof());
        }
        proof {
            self.lemma_token_at(p as int);
        }
        let v = match &self.tokens[p] {
            Token::String(s) => Value::String(s.clone()),
            Token::Number(num) => {
                let cs = chars_of(num.as_str());
                let n = cs.as_slice();
                if looks_float_exec(n) {
                    return Err(float_error_exec(&self.input, n, self.byte_at(p)));
                } else if starts_minus_exec(n) {
                    match parse_i64_chars(n) {
                        Some(i) => Value::Int(i),
                        None => {
                            return Err(self.invalid_number_exec(n, p));
                        },
                    }
                } else {
                    match parse_u64_chars(n) {
                        Some(u) => Value::Uint(u),
                        None => {
                            return Err(self.invalid_number_exec(n, p));
                        },
                    }
                }
            },
            Token::Boolean(b) => Value::Bool(*b),
            tok => {
                return Err(
                    self.unexpected_token_exec("array element (string, number, or boolean)", tok, p),
                );
            },
        };
        self.current = p + 1;
        Ok(v)
    }
}

/// The models of a list of values.
pub open spec fn value_views(v: Seq<Value>) -> Seq<ValueModel> {
    v.map_values(|x: Value| x@)
}

/// Whether two array elements are of the same kind.
fn same_kind_exec(a: &Value, b: &Value) -> (r: bool)
    ensures
        r == same_kind(a@, b@),
{
    match (a, b) {
        (Value::String(_), Value::String(_)) => true,
        (Value::Int(_), Value::Int(_)) => true,
        (Value::Int(_), Value::Uint(_)) => true,
        (Value::Uint(_), Value::Int(_)) => true,
        (Value::Uint(_), Value::Uint(_)) => true,
        (Value::Bool(_), Value::Bool(_)) => true,
        _ => false,
    }
}

/// How the kind of an array element is shown in a type mismatch.
fn kind_text_exec(v: &Value) -> (r: String)
    ensures
        r@ == kind_text(v@),
{
    match v {
        Value::String(_) => string_of("Discriminant(0)"),
        Value::Int(_) => string_of("Discriminant(1)"),
        Value::Uint(_) => string_of("Discriminant(2)"),
        _ => string_of("Discriminant(4)"),
    }
}

/// Whether some element is negative, and whether every unsigned one fits
/// in `i64`.
fn promotion_exec(els: &Vec<Value>) -> (r: (bool, bool))
    ensures
        r.0 == crate::grammar::has_signed(value_views(els@)),
        r.1 == crate::grammar::fits_signed(value_views(els@)),
{
    let ghost vs = value_views(els@);
    let mut signed = false;
    let mut fits = true;
    let mut i: usize = 0;
    while i < els.len()
        invariant
            i <= els@.len(),
            vs == value_views(els@),
            signed == exists|k: int| 0 <= k < i && vs[k] is Int,
            fits == forall|k: int| 0 <= k < i ==> (#[trigger] vs[k] matches ValueModel::Uint(u) ==> u <= i64::MAX),
        decreases els.len() - i,
    {
        assert(vs[i as int] == els@[i as int]@);
        match &els[i] {
            Value::Int(_) => {
                signed = true;
            },
            Value::Uint(u) => {
                if *u > 0x7fff_ffff_ffff_ffffu64 {
                    fits = false;
                }
            },
            _ => {},
        }
        i = i + 1;
    }
    (signed, fits)
}

/// The array of the parsed elements, of the first element's kind.
fn array_of_exec(first: &Value, els: &Vec<Value>) -> (r: Value)
    ensures
        r@ == array_of(first@, value_views(els@)),
{
    let ghost vs = value_views(els@);
    match first {
        Value::String(_) => {
            let mut out: Vec<String> = Vec::new();
            let mut i: usize = 0;
            while i < els.len()
                invariant
                    i <= els@.len(),
                    vs == value_views(els@),
                    out@.len() == i,
                    forall|k: int| 0 <= k < i ==> out@[k]@ == crate::grammar::str_items(vs)[k],
                decreases els.len() - i,
            {
                let s = match &els[i] {
                    Value::String(s) => s.clone(),
                    _ => String::new(),
                };
                out.push(s);
                i = i + 1;
            }
            assert(string_views(out@) =~= crate::grammar::str_items(vs));
            Value::StringArray(out)
        },
        Value::Int(_) | Value::Uint(_) => {
            let (signed, _) = promotion_exec(els);
            if signed {
                let mut out: Vec<i64> = Vec::new();
                let mut i: usize = 0;
                while i < els.len()
                    invariant
                        i <= els@.len(),
                        vs == value_views(els@),
                        out@.len() == i,
                        forall|k: int| 0 <= k < i ==> out@[k] == crate::grammar::signed_items(vs)[k],
                    decreases els.len() - i,
                {
                    let n = match &els[i] {
                        Value::Int(n) => *n,
                        Value::Uint(u) => *u as i64,
                        _ => 0i64,
                    };
                    out.push(n);
                    i = i + 1;
                }
                assert(out@ =~= crate::grammar::signed_items(vs));
                Value::IntArray(out)
            } else {
                let mut out: Vec<u64> = Vec::new();
                let mut i: usize = 0;
                while i < els.len()
                    invariant
                        i <= els@.len(),
                        vs == value_views(els@),
                        out@.len() == i,
                        forall|k: int| 0 <= k < i ==> out@[k] == crate::grammar::uint_items(vs)[k],
                    decreases els.len() - i,
                {
                    let n = match &els[i] {
                        Value::Uint(n) => *n,
                        _ => 0u64,
                    };
                    out.push(n);
                    i = i + 1;
                }
                assert(out@ =~= crate::grammar::uint_items(vs));
                Value::UintArray(out)
            }
        },
        _ => {
            let mut out: Vec<bool> = Vec::new();
            let mut i: usize = 0;
            while i < els.len()
                invariant
                    i <= els@.len(),
                    vs == value_views(els@),
                    out@.len() == i,
                    forall|k: int| 0 <= k < i ==> out@[k] == crate::grammar::bool_items(vs)[k],
                decreases els.len() - i,
            {
                let b = match &els[i] {
                    Value::Bool(b) => *b,
                    _ => false,
                };
                out.push(b);
                i = i + 1;
            }
            assert(out@ =~= crate::grammar::bool_items(vs));
            Value::BoolArray(out)
        },
    }
}

/// The numbers of a range as signed integers (see [`as_signed`]).
fn as_signed_exec(base: &[char], vals: &Vec<Value>, pos: usize) -> (r: Result<Vec<i64>, DnfError>)
    ensures
        match as_signed(base@, value_views(vals@), pos as int) {
            Ok(v) => r matches Ok(x) && x@ == v,
            Err(e) => r matches Err(x) && x@ == e,
        },
{
    let ghost vs = value_views(vals@);
    let mut out: Vec<i64> = Vec::new();
    let mut i: usize = 0;
    assert(vs.take(0) =~= Seq::<ValueModel>::empty());
    while i < vals.len()
        invariant
            i <= vals@.len(),
            vs == value_views(vals@),
            as_signed(base@, vs.take(i as int), pos as int) == Ok::<Seq<i64>, crate::error::ErrorModel>(out@),
        decreases vals.len() - i,
    {
        assert(vs.take(i + 1).drop_last() =~= vs.take(i as int));
        assert(vs.take(i + 1).last() == vals@[i as int]@);
        match &vals[i] {
            Value::Int(n) => out.push(*n),
            Value::Uint(u) => {
                if *u <= i64::MAX as u64 {
                    out.push(*u as i64);
                } else {
                    proof {
                        crate::grammar::lemma_as_signed_prefix(base@, vs, i + 1, pos as int);
                    }
                    let mut actual = string_of("unsigned integer ");
                    let d = crate::text::u64_chars(*u);
                    crate::text::push_chars(&mut actual, d.as_slice());
                    return Err(
                        DnfError::TypeMismatch {
                            field: crate::text::string_from_chars(base),
                            expected: string_of("signed integer (max 9223372036854775807)"),
                            actual,
                            position: Some(pos),
                        },
                    );
                }
            },
            _ => out.push(0i64),
        }
        i = i + 1;
    }
    assert(vs.take(vals@.len() as int) =~= vs);
    Ok(out)
}

/// The numbers of a range as unsigned integers (see [`as_unsigned`]).
fn as_unsigned_exec(base: &[char], vals: &Vec<Value>, pos: usize) -> (r: Result<Vec<u64>, DnfError>)
    ensures
        match as_unsigned(base@, value_views(vals@), pos as int) {
            Ok(v) => r matches Ok(x) && x@ == v,
            Err(e) => r matches Err(x) && x@ == e,
        },
{
    let ghost vs = value_views(vals@);
    let mut out: Vec<u64> = Vec::new();
    let mut i: usize = 0;
    assert(vs.take(0) =~= Seq::<ValueModel>::empty());
    while i < vals.len()
        invariant
            i <= vals@.len(),
            vs == value_views(vals@),
            as_unsigned(base@, vs.take(i as int), pos as int) == Ok::<Seq<u64>, crate::error::ErrorModel>(out@),
        decreases vals.len() - i,
    {
        assert(vs.take(i + 1).drop_last() =~= vs.take(i as int));
        assert(vs.take(i + 1).last() == vals@[i as int]@);
        match &vals[i] {
            Value::Uint(u) => out.push(*u),
            Value::Int(n) => {
                if *n >= 0 {
                    out.push(*n as u64);
                } else {
                    proof {
                        crate::grammar::lemma_as_unsigned_prefix(base@, vs, i + 1, pos as int);
                    }
                    let mut actual = string_of("negative integer ");
                    let d = crate::text::i64_chars(*n);
                    crate::text::push_chars(&mut actual, d.as_slice());
                    return Err(
                        DnfError::TypeMismatch {
                            field: crate::text::string_from_chars(base),
                            expected: string_of("unsigned integer"),
                            actual,
                            position: Some(pos),
                        },
                    );
                }
            },
            _ => out.push(0u64),
        }
        i = i + 1;
    }
    assert(vs.take(vals@.len() as int) =~= vs);
    Ok(out)
}

impl Parser {
    /// Whether the token at `p` is `expected` (a token that carries no data).
    fn token_is(&self, p: usize, expected: &Token) -> (r: bool)
        requires
            expected@ is And || expected@ is Or || expected@ is LeftParen || expected@ is RightParen
                || expected@ is LeftBracket || expected@ is RightBracket || expected@ is Comma,
        ensures
            r == (p < self.ctx().t.len() && self.ctx().t[p as int] == expected@),
            self.ctx().t.len() == self.tokens@.len(),
    {
        if p < self.tokens.len() {
            proof {
                self.lemma_token_at(p as int);
                crate::token::lemma_tag_eq(self.ctx().t[p as int], expected@);
            }
            self.tokens[p].tag() == expected.tag()
        } else {
            false
        }
    }

    /// Reads an array literal, its element type inferred.
    pub fn parse_array(&mut self) -> (r: Result<Value, DnfError>)
        ensures
            old(self).steps(*final(self), r, array_at(old(self).ctx(), old(self).pos())),
    {
        proof {
            use_type_invariant(&*self);
        }
        let ghost c = self.ctx();
        let n = self.tokens.len();
        let p = self.current;
        if !self.token_is(p, &Token::LeftBracket) {
            return Err(self.unexpected_at_exec("[", p));
        }
        if self.token_is(p + 1, &Token::RightBracket) {
            self.current = p + 2;
            let empty: Vec<String> = Vec::new();
            assert(string_views(empty@) =~= Seq::<Seq<char>>::empty());
            return Ok(Value::StringArray(empty));
        }
        self.current = p + 1;
        let first = match self.parse_array_element() {
            Ok(v) => v,
            Err(e) => {
                return Err(e);
            },
        };
        let ghost fm = first@;
        let ghost p1 = self.pos();
        let mut elements: Vec<Value> = Vec::new();
        elements.push(first.duplicate());
        assert(value_views(elements@) =~= seq![fm]);
        loop
            invariant
                self.ctx() == c,
                c.t.len() == self.tokens@.len(),
                n == self.tokens@.len(),
                0 <= self.pos() <= c.t.len(),
                first@ == fm,
                old(self).ctx() == c,
                old(self).pos() == p,
                p < c.t.len() && c.t[p as int] is LeftBracket,
                !(p + 1 < c.t.len() && c.t[p + 1] is RightBracket),
                element_at(c, p + 1) == Ok::<(ValueModel, int), crate::error::ErrorModel>((fm, p1)),
                elements_from(c, p1, fm, seq![fm]) == elements_from(
                    c,
                    self.pos(),
                    fm,
                    value_views(elements@),
                ),
            ensures
                !(self.pos() < c.t.len() && c.t[self.pos()] is Comma),
            decreases c.t.len() - self.pos(),
        {
            proof {
                use_type_invariant(&*self);
            }
            let at = self.current;
            if !self.token_is(at, &Token::Comma) {
                break;
            }
            self.current = at + 1;
            let el = match self.parse_array_element() {
                Ok(v) => v,
                Err(e) => {
                    return Err(e);
                },
            };
            if !same_kind_exec(&el, &first) {
                return Err(
                    DnfError::TypeMismatch {
                        field: string_of("array"),
                        expected: kind_text_exec(&first),
                        actual: kind_text_exec(&el),
                        position: Some(self.byte_at(self.current - 1)),
                    },
                );
            }
            let ghost before = elements@;
            elements.push(el);
            assert(value_views(elements@) =~= value_views(before).push(elements@.last()@));
        }
        proof {
            use_type_invariant(&*self);
        }
        let q = self.current;
        if !self.token_is(q, &Token::RightBracket) {
            return Err(self.unexpected_at_exec("] or ,", q));
        }
        let (signed, fits) = promotion_exec(&elements);
        if match first {
            Value::Int(_) | Value::Uint(_) => true,
            _ => false,
        } && signed && !fits {
            return Err(
                DnfError::TypeMismatch {
                    field: string_of("array"),
                    expected: string_of("signed integer (max 9223372036854775807)"),
                    actual: string_of("unsigned integer"),
                    position: Some(self.byte_at(q)),
                },
            );
        }
        self.current = q + 1;
        Ok(array_of_exec(&first, &elements))
    }

    /// Reads a value whose type is inferred from the literal (or an array).
    pub fn parse_value_flexible(&mut self) -> (r: Result<Value, DnfError>)
        ensures
            old(self).steps(*final(self), r, flexible_value_at(old(self).ctx(), old(self).pos())),
    {
        proof {
            use_type_invariant(&*self);
        }
        let p = self.current;
        if self.token_is(p, &Token::LeftBracket) {
            return self.parse_array();
        }
        if p >= self.tokens.len() {
            return Err(self.eof());
        }
        proof {
            self.lemma_token_at(p as int);
        }
        let v = match &self.tokens[p] {
            Token::String(s) => Value::String(s.clone()),
            Token::Number(num) => {
                let cs = chars_of(num.as_str());
                match inferred_number_exec(&self.input, cs.as_slice(), self.byte_at(p)) {
                    Ok(v) => v,
                    Err(e) => {
                        return Err(e);
                    },
                }
            },
            Token::Boolean(b) => Value::Bool(*b),
            Token::Null => Value::Null,
            tok => {
                return Err(self.unexpected_token_exec("value or array", tok, p));
            },
        };
        self.current = p + 1;
        Ok(v)
    }

    /// A range bound for a field of base type `base`, from `tok` at `pos`.
    fn parse_number_token(&self, tok: &Token, base: &[char], pos: usize) -> (r: Result<Value, DnfError>)
        ensures
            match range_number(self.ctx(), tok@, base@, pos as int) {
                Ok(v) => r matches Ok(x) && x@ == v,
                Err(e) => r matches Err(x) && x@ == e,
            },
    {
        match tok {
            Token::Number(num) => {
                let cs = chars_of(num.as_str());
                let n = cs.as_slice();
                if float_name(base) || looks_float_exec(n) {
                    Err(float_error_exec(&self.input, n, self.byte_at(pos)))
                } else if signed_name(base) || starts_minus_exec(n) {
                    match parse_i64_chars(n) {
                        Some(i) => Ok(Value::Int(i)),
                        None => Err(self.invalid_number_exec(n, pos)),
                    }
                } else {
                    match parse_u64_chars(n) {
                        Some(u) => Ok(Value::Uint(u)),
                        None => Err(self.invalid_number_exec(n, pos)),
                    }
                }
            },
            _ => Err(self.unexpected_token_exec("number", tok, pos)),
        }
    }

    /// Reads a `BETWEEN` range, its numbers typed by the field's type.
    pub fn parse_value_array(&mut self, field_type: &str) -> (r: Result<Value, DnfError>)
        ensures
            old(self).steps(*final(self), r, range_at(old(self).ctx(), old(self).pos(), field_type@)),
    {
        proof {
            use_type_invariant(&*self);
        }
        let ghost c = self.ctx();
        let base = base_type_chars(field_type);
        let b = base.as_slice();
        let n = self.tokens.len();
        let p = self.current;
        if !self.token_is(p, &Token::LeftBracket) {
            return Err(self.unexpected_at_exec("[", p));
        }
        if p + 1 >= self.tokens.len() {
            return Err(self.eof());
        }
        proof {
            self.lemma_token_at(p + 1);
        }
        let v0 = match self.parse_number_token(&self.tokens[p + 1], b, p + 1) {
            Ok(v) => v,
            Err(e) => {
                return Err(e);
            },
        };
        self.current = p + 2;
        let mut vals: Vec<Value> = Vec::new();
        let ghost m0 = v0@;
        vals.push(v0);
        assert(value_views(vals@) =~= seq![m0]);
        loop
            invariant
                self.ctx() == c,
                c.t.len() == self.tokens@.len(),
                n == self.tokens@.len(),
                0 <= self.pos() <= c.t.len(),
                b@ == crate::types::base_type(field_type@),
                old(self).ctx() == c,
                old(self).pos() == p,
                p + 1 < c.t.len(),
                c.t[p as int] is LeftBracket,
                range_number(c, c.t[p + 1], b@, p + 1) == Ok::<ValueModel, crate::error::ErrorModel>(m0),
                range_rest(c, p + 2, b@, seq![m0]) == range_rest(c, self.pos(), b@, value_views(vals@)),
            ensures
                !(self.pos() < c.t.len() && c.t[self.pos()] is Comma),
            decreases c.t.len() - self.pos(),
        {
            proof {
                use_type_invariant(&*self);
            }
            let at = self.current;
            if !self.token_is(at, &Token::Comma) {
                break;
            }
            if at + 1 >= self.tokens.len() {
                return Err(self.eof());
            }
            proof {
                self.lemma_token_at(at + 1);
            }
            let v = match self.parse_number_token(&self.tokens[at + 1], b, at + 1) {
                Ok(v) => v,
                Err(e) => {
                    return Err(e);
                },
            };
            let ghost before = vals@;
            vals.push(v);
            assert(value_views(vals@) =~= value_views(before).push(vals@.last()@));
            self.current = at + 2;
        }
        proof {
            use_type_invariant(&*self);
        }
        let q = self.current;
        if !self.token_is(q, &Token::RightBracket) {
            return Err(self.unexpected_at_exec("]", q));
        }
        self.current = q + 1;
        if unsigned_name(b) {
            match as_unsigned_exec(b, &vals, self.byte_at(q + 1)) {
                Ok(us) => Ok(Value::UintArray(us)),
                Err(e) => Err(e),
            }
        } else {
            match as_signed_exec(b, &vals, self.byte_at(q + 1)) {
                Ok(is) => Ok(Value::IntArray(is)),
                Err(e) => Err(e),
            }
        }
    }
}

/// Whether the operator's value is inferred from the literal.
fn is_flexible_exec(op: &Op) -> (r: bool)
    ensures
        r == is_flexible_op(op@),
{
    match &op.base {
        BaseOperator::Contains | BaseOperator::StartsWith | BaseOperator::EndsWith
        | BaseOperator::Eq | BaseOperator::AnyOf | BaseOperator::AllOf => true,
        _ => false,
    }
}

impl Parser {
    /// Whether the operator is a custom operator that takes no value.
    fn takes_no_value_exec(&self, op: &Op) -> (r: bool)
        ensures
            r == takes_no_value(self.ctx(), op@),
    {
        match op.custom_name() {
            Some(name) => {
                let ghost nv = string_views(self.novalue_ops@);
                let mut i: usize = 0;
                while i < self.novalue_ops.len()
                    invariant
                        i <= self.novalue_ops@.len(),
                        nv == string_views(self.novalue_ops@),
                        nv.to_set() == self.ctx().nv,
                        op@.base == crate::operator::BaseModel::Custom(name@),
                        forall|k: int| 0 <= k < i ==> self.novalue_ops@[k]@ != name@,
                    decreases self.novalue_ops.len() - i,
                {
                    if crate::text::str_equal(self.novalue_ops[i].as_str(), name) {
                        assert(nv[i as int] == name@);
                        assert(nv.contains(name@));
                        return true;
                    }
                    i = i + 1;
                }
                assert forall|k: int| 0 <= k < nv.len() implies nv[k] != name@ by {
                    assert(nv[k] == self.novalue_ops@[k]@);
                }
                false
            },
            None => false,
        }
    }

    /// Reads a condition: a known field, an optional map target, an
    /// operator and (unless the operator takes none) a value.
    pub fn parse_condition(&mut self) -> (r: Result<Condition, DnfError>)
        ensures
            old(self).steps(*final(self), r, condition_at(old(self).ctx(), old(self).pos())),
    {
        proof {
            use_type_invariant(&*self);
        }
        let ghost c = self.ctx();
        let p = self.current;
        if p >= self.tokens.len() {
            return Err(self.eof());
        }
        proof {
            self.lemma_token_at(p as int);
        }
        let name: String = match &self.tokens[p] {
            Token::Identifier(n) => n.clone(),
            tok => {
                return Err(self.unexpected_token_exec("field identifier", tok, p));
            },
        };
        let fi = match field_named_exec(self.fields.as_slice(), name.as_str()) {
            Some(fi) => fi,
            None => {
                return Err(DnfError::UnknownField { field_name: name, position: Some(self.byte_at(p)) });
            },
        };
        self.current = p + 1;
        let target = match self.parse_map_target(fi.kind) {
            Ok(t) => t,
            Err(e) => {
                return Err(e);
            },
        };
        let is_at_key = match target {
            Some(MapTarget::AtKey) => true,
            _ => false,
        };
        let key: String = if is_at_key {
            match self.parse_bracket_key() {
                Ok(k) => k,
                Err(e) => {
                    return Err(e);
                },
            }
        } else {
            String::new()
        };
        let op = match self.parse_operator() {
            Ok(op) => op,
            Err(e) => {
                return Err(e);
            },
        };
        let raw = if self.takes_no_value_exec(&op) {
            Value::Null
        } else if target.is_some() || is_flexible_exec(&op) {
            match self.parse_value_flexible() {
                Ok(v) => v,
                Err(e) => {
                    return Err(e);
                },
            }
        } else if match &op.base {
            BaseOperator::Between => true,
            _ => false,
        } {
            match self.parse_value_array(fi.field_type) {
                Ok(v) => v,
                Err(e) => {
                    return Err(e);
                },
            }
        } else {
            match self.parse_value(name.as_str(), fi.field_type) {
                Ok(v) => v,
                Err(e) => {
                    return Err(e);
                },
            }
        };
        let ghost rm = raw@;
        let value = match target {
            Some(MapTarget::AtKey) => Value::AtKey(key, Box::new(raw)),
            Some(MapTarget::Keys) => Value::Keys(Box::new(raw)),
            Some(MapTarget::Values) => Value::Values(Box::new(raw)),
            None => raw,
        };
        assert(value@ == targeted(target, key@, rm));
        assert(condition_at(c, p as int) == condition_rest_at(c, p + 1, name@, fi));
        Ok(Condition::new(name.as_str(), op, value))
    }

    /// Reads a conjunction, optionally in parentheses.
    pub fn parse_conjunction(&mut self) -> (r: Result<Conjunction, DnfError>)
        ensures
            old(self).steps(*final(self), r, conjunction_at(old(self).ctx(), old(self).pos())),
    {
        proof {
            use_type_invariant(&*self);
        }
        let ghost c = self.ctx();
        let n = self.tokens.len();
        let p = self.current;
        let parens = self.token_is(p, &Token::LeftParen);
        if parens {
            self.current = p + 1;
        }
        let ghost p0 = self.pos();
        let first = match self.parse_condition() {
            Ok(cond) => cond,
            Err(e) => {
                return Err(e);
            },
        };
        let ghost fm = first@;
        let ghost p1 = self.pos();
        let mut conds: Vec<Condition> = Vec::new();
        conds.push(first);
        assert(cond_views(conds@) =~= seq![fm]);
        loop
            invariant
                self.ctx() == c,
                c.t.len() == self.tokens@.len(),
                n == self.tokens@.len(),
                0 <= self.pos() <= c.t.len(),
                old(self).ctx() == c,
                old(self).pos() == p,
                parens == (p < c.t.len() && c.t[p as int] is LeftParen),
                p0 == if parens {
                    p + 1
                } else {
                    p as int
                },
                condition_at(c, p0) == Ok::<(CondModel, int), crate::error::ErrorModel>((fm, p1)),
                and_rest(c, p1, seq![fm]) == and_rest(c, self.pos(), cond_views(conds@)),
            ensures
                !(self.pos() < c.t.len() && c.t[self.pos()] is And),
            decreases c.t.len() - self.pos(),
        {
            proof {
                use_type_invariant(&*self);
            }
            let at = self.current;
            if !self.token_is(at, &Token::And) {
                break;
            }
            self.current = at + 1;
            proof {
                lemma_condition_advances(c, at + 1);
            }
            let cond = match self.parse_condition() {
                Ok(cond) => cond,
                Err(e) => {
                    return Err(e);
                },
            };
            let ghost before = conds@;
            conds.push(cond);
            assert(cond_views(conds@) =~= cond_views(before).push(conds@.last()@));
        }
        proof {
            use_type_invariant(&*self);
        }
        let q = self.current;
        if parens {
            if self.token_is(q, &Token::RightParen) {
                self.current = q + 1;
            } else {
                return Err(self.unexpected_at_exec(")", q));
            }
        }
        Ok(Conjunction::from_conditions(conds))
    }

    /// Reads conjunctions joined by `OR`.
    #[verifier::rlimit(50)]
    pub fn parse_or_expr(&mut self) -> (r: Result<Vec<Conjunction>, DnfError>)
        ensures
            final(self).ctx() == old(self).ctx(),
            match or_expr_at(old(self).ctx(), old(self).pos()) {
                Ok((cs, p)) => r matches Ok(v) && conj_views(v@) == cs && final(self).pos() == p,
                Err(e) => r matches Err(x) && x@ == e,
            },
    {
        proof {
            use_type_invariant(&*self);
        }
        let ghost c = self.ctx();
        let n = self.tokens.len();
        let p = self.current;
        let first = match self.parse_conjunction() {
            Ok(cj) => cj,
            Err(e) => {
                return Err(e);
            },
        };
        let ghost fm = first@;
        let ghost p1 = self.pos();
        proof {
            use_type_invariant(&*self);
        }
        let mut conjs: Vec<Conjunction> = Vec::new();
        conjs.push(first);
        assert(conj_views(conjs@) =~= seq![fm]);
        loop
            invariant
                self.ctx() == c,
                c.t.len() == self.tokens@.len(),
                n == self.tokens@.len(),
                0 <= self.pos() <= c.t.len(),
                old(self).ctx() == c,
                old(self).pos() == p,
                conjunction_at(c, p as int) == Ok::<(Seq<CondModel>, int), crate::error::ErrorModel>(
                    (fm, p1),
                ),
                or_rest(c, p1, seq![fm]) == or_rest(c, self.pos(), conj_views(conjs@)),
            ensures
                !(self.pos() < c.t.len() && c.t[self.pos()] is Or),
            decreases c.t.len() - self.pos(),
        {
            proof {
                use_type_invariant(&*self);
            }
            let at = self.current;
            if !self.token_is(at, &Token::Or) {
                break;
            }
            self.current = at + 1;
            proof {
                lemma_conjunction_advances(c, at + 1);
            }
            let cj = match self.parse_conjunction() {
                Ok(cj) => cj,
                Err(e) => {
                    return Err(e);
                },
            };
            let ghost before = conjs@;
            conjs.push(cj);
            assert(conj_views(conjs@) =~= conj_views(before).push(conjs@.last()@));
        }
        Ok(conjs)
    }

    /// Parses the tokens (from the current position) into a query: an
    /// empty token list is an empty query, and every token must be read.
    pub fn parse<O: CustomOp>(self) -> (r: Result<DnfQuery<O>, DnfError>)
        ensures
            match parse_from(self.ctx(), self.pos()) {
                Ok(q) => r matches Ok(d) && d@ == q && d.spec_registry() is None,
                Err(e) => r matches Err(x) && x@ == e,
            },
    {
        if self.tokens.len() == 0 {
            return Err(DnfError::EmptyQuery);
        }
        let mut me = self;
        let conjs = match me.parse_or_expr() {
            Ok(cs) => cs,
            Err(e) => {
                return Err(e);
            },
        };
        if !me.is_at_end() {
            let q = me.current;
            return Err(me.unexpected_at_exec("end of input", q));
        }
        Ok(DnfQuery::from_conjunctions(conjs))
    }
}

/// What parsing a query text gives: its tokens (with the given custom
/// operator names), parsed against the fields, with the given operators
/// taking no value.
pub open spec fn parse_query_text(
    query: Seq<char>,
    fields: Seq<FieldInfo>,
    custom: Option<Set<Seq<char>>>,
    novalue: Set<Seq<char>>,
) -> Result<Seq<Seq<CondModel>>, crate::error::ErrorModel> {
    match crate::token::spec_tokenize(query, custom) {
        Ok(ts) => parse_tokens(
            ParseCtx { t: ts, fs: fields, inp: query, nv: novalue, offs: lex_offsets(query, 0) },
        ),
        Err(e) => Err(e),
    }
}

/// The names of a list as a set.
pub open spec fn name_set(names: Option<&[String]>) -> Set<Seq<char>> {
    match names {
        Some(ns) => string_views(ns@).to_set(),
        None => Set::empty(),
    }
}

/// Parses a query text against the given fields; `custom_op_names` are the
/// custom operators the tokenizer recognizes and `novalue_ops` those that
/// take no value.
pub fn parse_with_fields<O: CustomOp>(
    query: &str,
    fields: &[FieldInfo],
    custom_op_names: Option<&[String]>,
    novalue_ops: Option<&[String]>,
) -> (r: Result<DnfQuery<O>, DnfError>)
    ensures
        match parse_query_text(
            query@,
            fields@,
            crate::token::custom_names(custom_op_names),
            name_set(novalue_ops),
        ) {
            Ok(q) => r matches Ok(d) && d@ == q && d.spec_registry() is None,
            Err(e) => r matches Err(x) && x@ == e,
        },
{
    let tokens = match crate::token::tokenize(query, custom_op_names) {
        Ok(ts) => ts,
        Err(e) => {
            return Err(e);
        },
    };
    let parser = Parser::new(tokens, fields, string_of(query), novalue_ops);
    parser.parse()
}

} // verus!
