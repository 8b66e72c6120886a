//! The query grammar, as functions from a token sequence and a position to
//! what is parsed there and the position after it (or the error).
//!
//! ```text
//! query       := conjunction (OR conjunction)*
//! conjunction := '(' condition (AND condition)* ')' | condition (AND condition)*
//! condition   := IDENT [map-target] operator [value]
//! ```
//!
//! Values are typed by the field's declared type, except under string,
//! equality and collection operators and map targets, where they are
//! inferred from the literal. Numbers are integers: a literal with a
//! fraction or an exponent is refused.
use vstd::prelude::*;

use crate::error::ErrorModel;
use crate::numeric::{parse_signed, parse_unsigned};
use crate::operator::{BaseModel, ComparisonOrdering, OpModel};
use crate::query::CondModel;
use crate::schema::{FieldInfo, FieldKind};
use crate::text::{byte_len, contains_seq, dec_int, dec_nat, starts_with_seq};
use crate::token::{token_text, TokenModel};
use crate::types::{base_type, is_bool_type_name, is_float_name, is_string_type_name, option_inner};
use crate::value::ValueModel;

verus! {

/// What the parser reads: the tokens, the target's fields, the query text
/// (for error messages) and the custom operators that take no value.
pub struct ParseCtx {
    pub t: Seq<TokenModel>,
    pub fs: Seq<FieldInfo>,
    pub inp: Seq<char>,
    pub nv: Set<Seq<char>>,
    /// The byte offset in the query text where each token starts.
    pub offs: Seq<nat>,
}

/// The byte offset in the query text of the token at `p`, or the end of the
/// text past the last token.
pub open spec fn at_byte(c: ParseCtx, p: int) -> nat {
    if 0 <= p < c.offs.len() {
        c.offs[p]
    } else {
        byte_len(c.inp)
    }
}

/// A map-field target of a condition.
#[derive(Debug, Clone, Copy, PartialEq, Eq, Structural)]
pub enum MapTarget {
    /// `field["key"]`
    AtKey,
    /// `field.@keys`
    Keys,
    /// `field.@values`
    Values,
}

impl View for MapTarget {
    type V = MapTarget;

    open spec fn view(&self) -> MapTarget {
        *self
    }
}

/// What is parsed at a position, with the position after it.
pub type Parsed<A> = Result<(A, int), ErrorModel>;

// ---------------------------------------------------------------------
// Errors
// ---------------------------------------------------------------------
/// How the token at `p` is shown in an error, or `EOF` past the end.
pub open spec fn found_at(c: ParseCtx, p: int) -> Seq<char> {
    if 0 <= p < c.t.len() {
        token_text(c.t[p])
    } else {
        "EOF"@
    }
}

/// `expected` was expected at the token at `p` (reported at its byte offset).
pub open spec fn unexpected_at(c: ParseCtx, expected: Seq<char>, p: int) -> ErrorModel {
    ErrorModel::UnexpectedToken {
        expected,
        found: found_at(c, p),
        position: at_byte(c, p) as usize,
        input: c.inp,
    }
}

/// The token `tok`, at position `p`, is not what was expected.
pub open spec fn unexpected_token(c: ParseCtx, expected: Seq<char>, tok: TokenModel, p: int) -> ErrorModel {
    ErrorModel::UnexpectedToken {
        expected,
        found: token_text(tok),
        position: at_byte(c, p) as usize,
        input: c.inp,
    }
}

/// The tokens ended where more were needed.
pub open spec fn eof_error(c: ParseCtx) -> ErrorModel {
    ErrorModel::UnexpectedEof { position: byte_len(c.inp) as usize, input: c.inp }
}

/// A number literal with a fraction or an exponent, which this parser
/// refuses: one with more than one decimal point is no number at all
/// (an invalid number); any other is a float (a type mismatch).
pub open spec fn float_error(inp: Seq<char>, num: Seq<char>, p: int) -> ErrorModel {
    if two_dots(num) {
        ErrorModel::InvalidNumber { value: num, position: p as usize, input: inp }
    } else {
        ErrorModel::TypeMismatch {
            field: "number"@,
            expected: "integer"@,
            actual: num,
            position: Some(p as usize),
        }
    }
}

/// A literal with more than one decimal point, which is no number at all.
pub open spec fn two_dots(num: Seq<char>) -> bool {
    exists|i: int, j: int| 0 <= i < j < num.len() && num[i] == '.' && num[j] == '.'
}

/// A number literal that does not parse.
pub open spec fn invalid_number(c: ParseCtx, num: Seq<char>, p: int) -> ErrorModel {
    ErrorModel::InvalidNumber { value: num, position: at_byte(c, p) as usize, input: c.inp }
}

/// How a field kind is shown in an error.
pub open spec fn kind_name(k: FieldKind) -> Seq<char> {
    match k {
        FieldKind::Scalar => "Scalar"@,
        FieldKind::Iter => "Iter"@,
        FieldKind::Mapping => "Map"@,
    }
}

// ---------------------------------------------------------------------
// Literals
// ---------------------------------------------------------------------
/// A number literal with a fraction or an exponent.
pub open spec fn looks_float(num: Seq<char>) -> bool {
    contains_seq(num, "."@) || contains_seq(num, "e"@) || contains_seq(num, "E"@)
}

/// A number literal with a leading minus sign.
pub open spec fn starts_minus(num: Seq<char>) -> bool {
    starts_with_seq(num, "-"@)
}

/// The signed integer type names.
pub open spec fn is_signed_name(t: Seq<char>) -> bool {
    t == "i8"@ || t == "i16"@ || t == "i32"@ || t == "i64"@ || t == "isize"@
}

/// The unsigned integer type names.
pub open spec fn is_unsigned_name(t: Seq<char>) -> bool {
    t == "u8"@ || t == "u16"@ || t == "u32"@ || t == "u64"@ || t == "usize"@
}

/// The field (with its type and kind) named `name`: the last one of that
/// name.
pub open spec fn field_named(fs: Seq<FieldInfo>, name: Seq<char>) -> Option<FieldInfo>
    decreases fs.len(),
{
    if fs.len() == 0 {
        None
    } else if fs.last().name@ == name {
        Some(fs.last())
    } else {
        field_named(fs.drop_last(), name)
    }
}

// ---------------------------------------------------------------------
// Operators and map targets
// ---------------------------------------------------------------------
/// An operator without negation.
pub open spec fn plain(base: BaseModel) -> OpModel {
    OpModel { base, inverse: false }
}

/// The negated operator.
pub open spec fn negated(base: BaseModel) -> OpModel {
    OpModel { base, inverse: true }
}

/// The operator at `p`.
pub open spec fn operator_at(c: ParseCtx, p: int) -> Parsed<OpModel> {
    if !(0 <= p < c.t.len()) {
        Err(eof_error(c))
    } else {
        match c.t[p] {
            TokenModel::Eq => Ok((plain(BaseModel::Eq), p + 1)),
            TokenModel::Ne => Ok((negated(BaseModel::Eq), p + 1)),
            TokenModel::Gt => Ok((plain(BaseModel::Comparison(ComparisonOrdering::Greater)), p + 1)),
            TokenModel::Lt => Ok((plain(BaseModel::Comparison(ComparisonOrdering::Less)), p + 1)),
            TokenModel::Gte => Ok((negated(BaseModel::Comparison(ComparisonOrdering::Less)), p + 1)),
            TokenModel::Lte => Ok(
                (negated(BaseModel::Comparison(ComparisonOrdering::Greater)), p + 1),
            ),
            TokenModel::Contains => Ok((plain(BaseModel::Contains), p + 1)),
            TokenModel::NotContains => Ok((negated(BaseModel::Contains), p + 1)),
            TokenModel::StartsWith => Ok((plain(BaseModel::StartsWith), p + 1)),
            TokenModel::EndsWith => Ok((plain(BaseModel::EndsWith), p + 1)),
            TokenModel::NotStartsWith => Ok((negated(BaseModel::StartsWith), p + 1)),
            TokenModel::NotEndsWith => Ok((negated(BaseModel::EndsWith), p + 1)),
            TokenModel::AllOf => Ok((plain(BaseModel::AllOf), p + 1)),
            TokenModel::AnyOf => Ok((plain(BaseModel::AnyOf), p + 1)),
            TokenModel::NotAllOf => Ok((negated(BaseModel::AllOf), p + 1)),
            TokenModel::NotAnyOf => Ok((negated(BaseModel::AnyOf), p + 1)),
            TokenModel::Between => Ok((plain(BaseModel::Between), p + 1)),
            TokenModel::NotBetween => Ok((negated(BaseModel::Between), p + 1)),
            TokenModel::CustomOp(name) => Ok((plain(BaseModel::Custom(name)), p + 1)),
            tok => Err(unexpected_token(c, "operator"@, tok, p)),
        }
    }
}

/// A map target at `p`: `.@keys`, `.@values` or `[` (only on map fields).
pub open spec fn map_target_at(c: ParseCtx, p: int, kind: FieldKind) -> Parsed<Option<MapTarget>> {
    if 0 <= p < c.t.len() {
        match c.t[p] {
            TokenModel::MapKeys => if kind != FieldKind::Mapping {
                Err(
                    ErrorModel::UnexpectedToken {
                        expected: "map field for .@keys"@,
                        found: kind_name(kind) + " field"@,
                        position: at_byte(c, p) as usize,
                        input: c.inp,
                    },
                )
            } else {
                Ok((Some(MapTarget::Keys), p + 1))
            },
            TokenModel::MapValues => if kind != FieldKind::Mapping {
                Err(
                    ErrorModel::UnexpectedToken {
                        expected: "map field for .@values"@,
                        found: kind_name(kind) + " field"@,
                        position: at_byte(c, p) as usize,
                        input: c.inp,
                    },
                )
            } else {
                Ok((Some(MapTarget::Values), p + 1))
            },
            TokenModel::LeftBracket => if kind != FieldKind::Mapping {
                Err(
                    ErrorModel::UnexpectedToken {
                        expected: "map field for bracket access"@,
                        found: kind_name(kind) + " field"@,
                        position: at_byte(c, p) as usize,
                        input: c.inp,
                    },
                )
            } else {
                Ok((Some(MapTarget::AtKey), p + 1))
            },
            _ => Ok((None, p)),
        }
    } else {
        Ok((None, p))
    }
}

/// The key of a bracket access: a string, then `]`.
pub open spec fn bracket_key_at(c: ParseCtx, p: int) -> Parsed<Seq<char>> {
    if !(0 <= p < c.t.len()) {
        Err(eof_error(c))
    } else {
        match c.t[p] {
            TokenModel::Str(s) => if p + 1 < c.t.len() && c.t[p + 1] is RightBracket {
                Ok((s, p + 2))
            } else {
                Err(unexpected_at(c, "]"@, p + 1))
            },
            tok => Err(unexpected_token(c, "string key"@, tok, p)),
        }
    }
}

// ---------------------------------------------------------------------
// Values
// ---------------------------------------------------------------------
/// A number literal for a field of the given type, read at position `p`.
pub open spec fn typed_number(c: ParseCtx, num: Seq<char>, field_type: Seq<char>, p: int) -> Result<
    ValueModel,
    ErrorModel,
> {
    let base = base_type(field_type);
    if is_float_name(base) || looks_float(num) {
        Err(float_error(c.inp, num, at_byte(c, p) as int))
    } else if is_unsigned_name(base) {
        match parse_unsigned(num) {
            Some(u) => Ok(ValueModel::Uint(u)),
            None => Err(invalid_number(c, num, p)),
        }
    } else if is_signed_name(base) || starts_minus(num) {
        match parse_signed(num) {
            Some(i) => Ok(ValueModel::Int(i)),
            None => Err(invalid_number(c, num, p)),
        }
    } else {
        match parse_signed(num) {
            Some(i) => Ok(ValueModel::Int(i)),
            None => match parse_unsigned(num) {
                Some(u) => Ok(ValueModel::Uint(u)),
                None => Err(float_error(c.inp, num, at_byte(c, p) as int)),
            },
        }
    }
}

/// A value for the field `name` of the given type; a mismatch names the
/// field and expects its type.
pub open spec fn typed_value_at(c: ParseCtx, p: int, name: Seq<char>, field_type: Seq<char>) -> Parsed<
    ValueModel,
> {
    if !(0 <= p < c.t.len()) {
        Err(eof_error(c))
    } else {
        match c.t[p] {
            TokenModel::Str(s) => if is_string_type_name(field_type) {
                Ok((ValueModel::Str(s), p + 1))
            } else {
                Err(
                    ErrorModel::TypeMismatch {
                        field: name,
                        expected: field_type,
                        actual: "String"@,
                        position: Some(at_byte(c, p) as usize),
                    },
                )
            },
            TokenModel::Number(num) => match typed_number(c, num, field_type, p) {
                Ok(v) => Ok((v, p + 1)),
                Err(e) => Err(e),
            },
            TokenModel::Boolean(b) => if is_bool_type_name(field_type) {
                Ok((ValueModel::Bool(b), p + 1))
            } else {
                Err(
                    ErrorModel::TypeMismatch {
                        field: name,
                        expected: field_type,
                        actual: "Boolean"@,
                        position: Some(at_byte(c, p) as usize),
                    },
                )
            },
            TokenModel::Null => if option_inner(field_type) is Some {
                Ok((ValueModel::Null, p + 1))
            } else {
                Err(
                    ErrorModel::TypeMismatch {
                        field: name,
                        expected: field_type,
                        actual: "null"@,
                        position: Some(at_byte(c, p) as usize),
                    },
                )
            },
            tok => Err(unexpected_token(c, "value"@, tok, p)),
        }
    }
}

/// An integer literal whose type is inferred from its sign.
pub open spec fn inferred_number(inp: Seq<char>, num: Seq<char>, p: int) -> Result<
    ValueModel,
    ErrorModel,
> {
    if looks_float(num) {
        Err(float_error(inp, num, p))
    } else if starts_minus(num) {
        match parse_signed(num) {
            Some(i) => Ok(ValueModel::Int(i)),
            None => Err(
                ErrorModel::TypeMismatch {
                    field: "number"@,
                    expected: "valid integer"@,
                    actual: num,
                    position: Some(p as usize),
                },
            ),
        }
    } else {
        match parse_unsigned(num) {
            Some(u) => Ok(ValueModel::Uint(u)),
            None => Err(
                ErrorModel::TypeMismatch {
                    field: "number"@,
                    expected: "valid integer"@,
                    actual: num,
                    position: Some(p as usize),
                },
            ),
        }
    }
}

/// An array element: a string, an integer or a boolean.
pub open spec fn element_at(c: ParseCtx, p: int) -> Parsed<ValueModel> {
    if !(0 <= p < c.t.len()) {
        Err(eof_error(c))
    } else {
        match c.t[p] {
            TokenModel::Str(s) => Ok((ValueModel::Str(s), p + 1)),
            TokenModel::Number(num) => if looks_float(num) {
                Err(float_error(c.inp, num, at_byte(c, p) as int))
            } else if starts_minus(num) {
                match parse_signed(num) {
                    Some(i) => Ok((ValueModel::Int(i), p + 1)),
                    None => Err(invalid_number(c, num, p)),
                }
            } else {
                match parse_unsigned(num) {
                    Some(u) => Ok((ValueModel::Uint(u), p + 1)),
                    None => Err(invalid_number(c, num, p)),
                }
            },
            TokenModel::Boolean(b) => Ok((ValueModel::Bool(b), p + 1)),
            tok => Err(unexpected_token(c, "array element (string, number, or boolean)"@, tok, p)),
        }
    }
}

/// Two array elements are of the same kind.
pub open spec fn same_kind(a: ValueModel, b: ValueModel) -> bool {
    (a is Str && b is Str) || ((a is Int || a is Uint) && (b is Int || b is Uint)) || (a is Bool
        && b is Bool)
}

/// How the kind of an array element is shown in a type mismatch.
pub open spec fn kind_text(v: ValueModel) -> Seq<char> {
    match v {
        ValueModel::Str(_) => "Discriminant(0)"@,
        ValueModel::Int(_) => "Discriminant(1)"@,
        ValueModel::Uint(_) => "Discriminant(2)"@,
        _ => "Discriminant(4)"@,
    }
}

/// The elements after the first: `, element` while there is a comma, each
/// of the first element's kind (signed and unsigned integers are both
/// numbers).
pub open spec fn elements_from(c: ParseCtx, p: int, first: ValueModel, acc: Seq<ValueModel>) -> Parsed<
    Seq<ValueModel>,
>
    decreases c.t.len() - p,
{
    if 0 <= p < c.t.len() && c.t[p] is Comma {
        match element_at(c, p + 1) {
            Ok((el, p1)) => if !same_kind(el, first) {
                Err(
                    ErrorModel::TypeMismatch {
                        field: "array"@,
                        expected: kind_text(first),
                        actual: kind_text(el),
                        position: Some(at_byte(c, p1 - 1) as usize),
                    },
                )
            } else {
                elements_from(c, p + 2, first, acc.push(el))
            },
            Err(e) => Err(e),
        }
    } else {
        Ok((acc, p))
    }
}

/// The strings of a list of string elements.
pub open spec fn str_items(v: Seq<ValueModel>) -> Seq<Seq<char>> {
    v.map_values(|x: ValueModel| match x {
        ValueModel::Str(s) => s,
        _ => Seq::empty(),
    })
}

/// The signed integers of a list of signed elements.
pub open spec fn int_items(v: Seq<ValueModel>) -> Seq<i64> {
    v.map_values(|x: ValueModel| match x {
        ValueModel::Int(n) => n,
        _ => 0i64,
    })
}

/// The unsigned integers of a list of unsigned elements.
pub open spec fn uint_items(v: Seq<ValueModel>) -> Seq<u64> {
    v.map_values(|x: ValueModel| match x {
        ValueModel::Uint(n) => n,
        _ => 0u64,
    })
}

/// The booleans of a list of boolean elements.
pub open spec fn bool_items(v: Seq<ValueModel>) -> Seq<bool> {
    v.map_values(|x: ValueModel| match x {
        ValueModel::Bool(b) => b,
        _ => false,
    })
}

/// Some element is a signed (negative) integer.
pub open spec fn has_signed(v: Seq<ValueModel>) -> bool {
    exists|k: int| 0 <= k < v.len() && v[k] is Int
}

/// Every unsigned element fits in `i64`.
pub open spec fn fits_signed(v: Seq<ValueModel>) -> bool {
    forall|k: int| 0 <= k < v.len() ==> (#[trigger] v[k] matches ValueModel::Uint(u) ==> u <= i64::MAX)
}

/// The integers of a list of integer elements, as signed integers.
pub open spec fn signed_items(v: Seq<ValueModel>) -> Seq<i64> {
    v.map_values(|x: ValueModel| match x {
        ValueModel::Int(n) => n,
        ValueModel::Uint(u) => u as i64,
        _ => 0i64,
    })
}

/// The array of the parsed elements, of the first element's kind; numbers
/// make an unsigned array when none is negative, and are promoted to a
/// signed array otherwise.
pub open spec fn array_of(first: ValueModel, els: Seq<ValueModel>) -> ValueModel {
    match first {
        ValueModel::Str(_) => ValueModel::StringArray(str_items(els)),
        ValueModel::Int(_) | ValueModel::Uint(_) => if has_signed(els) {
            ValueModel::IntArray(signed_items(els))
        } else {
            ValueModel::UintArray(uint_items(els))
        },
        _ => ValueModel::BoolArray(bool_items(els)),
    }
}

/// The numbers of an array cannot be promoted to signed integers: some is
/// negative and some other is above `i64::MAX`.
pub open spec fn unpromotable(first: ValueModel, els: Seq<ValueModel>) -> bool {
    (first is Int || first is Uint) && has_signed(els) && !fits_signed(els)
}

/// The error for an array whose numbers cannot be promoted, at `p`.
pub open spec fn promotion_error(p: int) -> ErrorModel {
    ErrorModel::TypeMismatch {
        field: "array"@,
        expected: "signed integer (max 9223372036854775807)"@,
        actual: "unsigned integer"@,
        position: Some(p as usize),
    }
}

/// An array literal with its element type inferred: `[]` is an empty
/// string array.
pub open spec fn array_at(c: ParseCtx, p: int) -> Parsed<ValueModel> {
    if !(0 <= p < c.t.len() && c.t[p] is LeftBracket) {
        Err(unexpected_at(c, "["@, p))
    } else if p + 1 < c.t.len() && c.t[p + 1] is RightBracket {
        Ok((ValueModel::StringArray(Seq::empty()), p + 2))
    } else {
        match element_at(c, p + 1) {
            Ok((first, p1)) => match elements_from(c, p1, first, seq![first]) {
                Ok((els, p2)) => if 0 <= p2 < c.t.len() && c.t[p2] is RightBracket {
                    if unpromotable(first, els) {
                        Err(promotion_error(at_byte(c, p2) as int))
                    } else {
                        Ok((array_of(first, els), p2 + 1))
                    }
                } else {
                    Err(unexpected_at(c, "] or ,"@, p2))
                },
                Err(e) => Err(e),
            },
            Err(e) => Err(e),
        }
    }
}

/// A value whose type is inferred from the literal (or an array).
pub open spec fn flexible_value_at(c: ParseCtx, p: int) -> Parsed<ValueModel> {
    if 0 <= p < c.t.len() && c.t[p] is LeftBracket {
        array_at(c, p)
    } else if !(0 <= p < c.t.len()) {
        Err(eof_error(c))
    } else {
        match c.t[p] {
            TokenModel::Str(s) => Ok((ValueModel::Str(s), p + 1)),
            TokenModel::Number(num) => match inferred_number(c.inp, num, at_byte(c, p) as int) {
                Ok(v) => Ok((v, p + 1)),
                Err(e) => Err(e),
            },
            TokenModel::Boolean(b) => Ok((ValueModel::Bool(b), p + 1)),
            TokenModel::Null => Ok((ValueModel::Null, p + 1)),
            tok => Err(unexpected_token(c, "value or array"@, tok, p)),
        }
    }
}

/// A range bound for a field of base type `base`, from token `tok` at
/// position `pos`.
pub open spec fn range_number(c: ParseCtx, tok: TokenModel, base: Seq<char>, pos: int) -> Result<
    ValueModel,
    ErrorModel,
> {
    match tok {
        TokenModel::Number(num) => if is_float_name(base) || looks_float(num) {
            Err(float_error(c.inp, num, at_byte(c, pos) as int))
        } else if is_signed_name(base) || starts_minus(num) {
            match parse_signed(num) {
                Some(i) => Ok(ValueModel::Int(i)),
                None => Err(invalid_number(c, num, pos)),
            }
        } else {
            match parse_unsigned(num) {
                Some(u) => Ok(ValueModel::Uint(u)),
                None => Err(invalid_number(c, num, pos)),
            }
        },
        tok => Err(unexpected_token(c, "number"@, tok, pos)),
    }
}

/// The numbers after the first of a range: `, number` while there is a
/// comma.
pub open spec fn range_rest(c: ParseCtx, p: int, base: Seq<char>, acc: Seq<ValueModel>) -> Parsed<
    Seq<ValueModel>,
>
    decreases c.t.len() - p,
{
    if 0 <= p < c.t.len() && c.t[p] is Comma {
        if !(p + 1 < c.t.len()) {
            Err(eof_error(c))
        } else {
            match range_number(c, c.t[p + 1], base, p + 1) {
                Ok(v) => range_rest(c, p + 2, base, acc.push(v)),
                Err(e) => Err(e),
            }
        }
    } else {
        Ok((acc, p))
    }
}

/// The numbers of a range as signed integers: an unsigned one above
/// `i64::MAX` is refused (the first one, in order).
pub open spec fn as_signed(base: Seq<char>, vals: Seq<ValueModel>, pos: int) -> Result<
    Seq<i64>,
    ErrorModel,
>
    decreases vals.len(),
{
    if vals.len() == 0 {
        Ok(Seq::empty())
    } else {
        match as_signed(base, vals.drop_last(), pos) {
            Ok(prefix) => match vals.last() {
                ValueModel::Int(i) => Ok(prefix.push(i)),
                ValueModel::Uint(u) => if u <= i64::MAX as u64 {
                    Ok(prefix.push(u as i64))
                } else {
                    Err(
                        ErrorModel::TypeMismatch {
                            field: base,
                            expected: "signed integer (max 9223372036854775807)"@,
                            actual: "unsigned integer "@ + dec_nat(u as nat),
                            position: Some(pos as usize),
                        },
                    )
                },
                _ => Ok(prefix.push(0i64)),
            },
            Err(e) => Err(e),
        }
    }
}

/// The numbers of a range as unsigned integers: a negative one is refused
/// (the first one, in order).
pub open spec fn as_unsigned(base: Seq<char>, vals: Seq<ValueModel>, pos: int) -> Result<
    Seq<u64>,
    ErrorModel,
>
    decreases vals.len(),
{
    if vals.len() == 0 {
        Ok(Seq::empty())
    } else {
        match as_unsigned(base, vals.drop_last(), pos) {
            Ok(prefix) => match vals.last() {
                ValueModel::Uint(u) => Ok(prefix.push(u)),
                ValueModel::Int(i) => if i >= 0 {
                    Ok(prefix.push(i as u64))
                } else {
                    Err(
                        ErrorModel::TypeMismatch {
                            field: base,
                            expected: "unsigned integer"@,
                            actual: "negative integer "@ + dec_int(i as int),
                            position: Some(pos as usize),
                        },
                    )
                },
                _ => Ok(prefix.push(0u64)),
            },
            Err(e) => Err(e),
        }
    }
}

/// A `BETWEEN` range `[n, ...]`, its numbers typed by the field's type:
/// unsigned for unsigned fields, signed otherwise.
pub open spec fn range_at(c: ParseCtx, p: int, field_type: Seq<char>) -> Parsed<ValueModel> {
    let base = base_type(field_type);
    if !(0 <= p < c.t.len() && c.t[p] is LeftBracket) {
        Err(unexpected_at(c, "["@, p))
    } else if !(p + 1 < c.t.len()) {
        Err(eof_error(c))
    } else {
        match range_number(c, c.t[p + 1], base, p + 1) {
            Ok(v0) => match range_rest(c, p + 2, base, seq![v0]) {
                Ok((vals, q)) => if 0 <= q < c.t.len() && c.t[q] is RightBracket {
                    if is_unsigned_name(base) {
                        match as_unsigned(base, vals, at_byte(c, q + 1) as int) {
                            Ok(us) => Ok((ValueModel::UintArray(us), q + 1)),
                            Err(e) => Err(e),
                        }
                    } else {
                        match as_signed(base, vals, at_byte(c, q + 1) as int) {
                            Ok(is) => Ok((ValueModel::IntArray(is), q + 1)),
                            Err(e) => Err(e),
                        }
                    }
                } else {
                    Err(unexpected_at(c, "]"@, q))
                },
                Err(e) => Err(e),
            },
            Err(e) => Err(e),
        }
    }
}

// ---------------------------------------------------------------------
// Conditions, conjunctions, queries
// ---------------------------------------------------------------------
/// A custom operator registered as taking no value.
pub open spec fn takes_no_value(c: ParseCtx, op: OpModel) -> bool {
    match op.base {
        BaseModel::Custom(name) => c.nv.contains(name),
        _ => false,
    }
}

/// An operator whose value is inferred from the literal.
pub open spec fn is_flexible_op(op: OpModel) -> bool {
    match op.base {
        BaseModel::Contains | BaseModel::StartsWith | BaseModel::EndsWith | BaseModel::Eq
        | BaseModel::AnyOf | BaseModel::AllOf => true,
        _ => false,
    }
}

/// The value of a condition after its operator.
pub open spec fn condition_value_at(
    c: ParseCtx,
    p: int,
    op: OpModel,
    target: Option<MapTarget>,
    name: Seq<char>,
    field_type: Seq<char>,
) -> Parsed<ValueModel> {
    if takes_no_value(c, op) {
        Ok((ValueModel::Null, p))
    } else if target is Some || is_flexible_op(op) {
        flexible_value_at(c, p)
    } else if op.base is Between {
        range_at(c, p, field_type)
    } else {
        typed_value_at(c, p, name, field_type)
    }
}

/// The value wrapped in its map target.
pub open spec fn targeted(target: Option<MapTarget>, key: Seq<char>, v: ValueModel) -> ValueModel {
    match target {
        Some(MapTarget::AtKey) => ValueModel::AtKey(key, Box::new(v)),
        Some(MapTarget::Keys) => ValueModel::Keys(Box::new(v)),
        Some(MapTarget::Values) => ValueModel::Values(Box::new(v)),
        None => v,
    }
}

/// What follows the field name of a condition (the field is `fi`).
pub open spec fn condition_rest_at(c: ParseCtx, p: int, name: Seq<char>, fi: FieldInfo) -> Parsed<
    CondModel,
> {
    match map_target_at(c, p, fi.kind) {
        Ok((target, p1)) => {
            let key: Parsed<Seq<char>> = if target == Some(MapTarget::AtKey) {
                bracket_key_at(c, p1)
            } else {
                Ok((Seq::empty(), p1))
            };
            match key {
                Ok((k, p2)) => match operator_at(c, p2) {
                    Ok((op, p3)) => match condition_value_at(c, p3, op, target, name, fi.field_type@) {
                        Ok((v, p4)) => Ok(
                            (CondModel { field: name, op, value: targeted(target, k, v) }, p4),
                        ),
                        Err(e) => Err(e),
                    },
                    Err(e) => Err(e),
                },
                Err(e) => Err(e),
            }
        },
        Err(e) => Err(e),
    }
}

/// A condition: a known field name, an optional map target, an operator
/// and (unless the operator takes none) a value.
pub open spec fn condition_at(c: ParseCtx, p: int) -> Parsed<CondModel> {
    if !(0 <= p < c.t.len()) {
        Err(eof_error(c))
    } else {
        match c.t[p] {
            TokenModel::Identifier(name) => match field_named(c.fs, name) {
                Some(fi) => condition_rest_at(c, p + 1, name, fi),
                None => Err(ErrorModel::UnknownField { field_name: name, position: Some(at_byte(c, p) as usize) }),
            },
            tok => Err(unexpected_token(c, "field identifier"@, tok, p)),
        }
    }
}

/// The conditions after the first of a conjunction: `AND condition` while
/// there is an `AND`.
pub open spec fn and_rest(c: ParseCtx, p: int, acc: Seq<CondModel>) -> Parsed<Seq<CondModel>>
    decreases c.t.len() - p,
{
    if 0 <= p < c.t.len() && c.t[p] is And {
        match condition_at(c, p + 1) {
            Ok((cond, p1)) => if p < p1 <= c.t.len() {
                and_rest(c, p1, acc.push(cond))
            } else {
                Ok((acc.push(cond), p1))
            },
            Err(e) => Err(e),
        }
    } else {
        Ok((acc, p))
    }
}

/// A conjunction, optionally in parentheses.
pub open spec fn conjunction_at(c: ParseCtx, p: int) -> Parsed<Seq<CondModel>> {
    let parens = 0 <= p < c.t.len() && c.t[p] is LeftParen;
    let p0 = if parens {
        p + 1
    } else {
        p
    };
    match condition_at(c, p0) {
        Ok((first, p1)) => match and_rest(c, p1, seq![first]) {
            Ok((conds, p2)) => if parens {
                if 0 <= p2 < c.t.len() && c.t[p2] is RightParen {
                    Ok((conds, p2 + 1))
                } else {
                    Err(unexpected_at(c, ")"@, p2))
                }
            } else {
                Ok((conds, p2))
            },
            Err(e) => Err(e),
        },
        Err(e) => Err(e),
    }
}

/// The conjunctions after the first: `OR conjunction` while there is an
/// `OR`.
pub open spec fn or_rest(c: ParseCtx, p: int, acc: Seq<Seq<CondModel>>) -> Parsed<
    Seq<Seq<CondModel>>,
>
    decreases c.t.len() - p,
{
    if 0 <= p < c.t.len() && c.t[p] is Or {
        match conjunction_at(c, p + 1) {
            Ok((conj, p1)) => if p < p1 <= c.t.len() {
                or_rest(c, p1, acc.push(conj))
            } else {
                Ok((acc.push(conj), p1))
            },
            Err(e) => Err(e),
        }
    } else {
        Ok((acc, p))
    }
}

/// Conjunctions joined by `OR`.
pub open spec fn or_expr_at(c: ParseCtx, p: int) -> Parsed<Seq<Seq<CondModel>>> {
    match conjunction_at(c, p) {
        Ok((first, p1)) => or_rest(c, p1, seq![first]),
        Err(e) => Err(e),
    }
}

/// The rest of a query from position `p`: conjunctions joined by `OR`, and
/// nothing after them (no tokens at all is an empty query).
pub open spec fn parse_from(c: ParseCtx, p: int) -> Result<Seq<Seq<CondModel>>, ErrorModel> {
    if c.t.len() == 0 {
        Err(ErrorModel::EmptyQuery)
    } else {
        match or_expr_at(c, p) {
            Ok((conjs, q)) => if q < c.t.len() {
                Err(unexpected_at(c, "end of input"@, q))
            } else {
                Ok(conjs)
            },
            Err(e) => Err(e),
        }
    }
}

/// A whole query: conjunctions joined by `OR`, and nothing after them.
pub open spec fn parse_tokens(c: ParseCtx) -> Result<Seq<Seq<CondModel>>, ErrorModel> {
    parse_from(c, 0)
}

// ---------------------------------------------------------------------
// Every step moves forward
// ---------------------------------------------------------------------
/// A parse from `p` that succeeds ends at a position in `[p, len]` (at
/// least `p + min`).
pub open spec fn advances<A>(r: Parsed<A>, p: int, len: int, min: int) -> bool {
    r matches Ok((_, q)) ==> p + min <= q <= len
}

pub proof fn lemma_elements_advance(c: ParseCtx, p: int, first: ValueModel, acc: Seq<ValueModel>)
    requires
        0 <= p <= c.t.len(),
    ensures
        advances(elements_from(c, p, first, acc), p, c.t.len() as int, 0),
    decreases c.t.len() - p,
{
    if 0 <= p < c.t.len() && c.t[p] is Comma {
        if let Ok((el, p1)) = element_at(c, p + 1) {
            if same_kind(el, first) {
                lemma_elements_advance(c, p + 2, first, acc.push(el));
            }
        }
    }
}

pub proof fn lemma_range_rest_advances(c: ParseCtx, p: int, base: Seq<char>, acc: Seq<ValueModel>)
    requires
        0 <= p <= c.t.len(),
    ensures
        advances(range_rest(c, p, base, acc), p, c.t.len() as int, 0),
    decreases c.t.len() - p,
{
    if 0 <= p < c.t.len() && c.t[p] is Comma && p + 1 < c.t.len() {
        if let Ok(v) = range_number(c, c.t[p + 1], base, p + 1) {
            lemma_range_rest_advances(c, p + 2, base, acc.push(v));
        }
    }
}

pub proof fn lemma_condition_advances(c: ParseCtx, p: int)
    requires
        0 <= p <= c.t.len(),
    ensures
        advances(condition_at(c, p), p, c.t.len() as int, 1),
{
    if 0 <= p < c.t.len() {
        if let TokenModel::Identifier(name) = c.t[p] {
            if let Some(fi) = field_named(c.fs, name) {
                let q = p + 1;
                if let Ok((target, p1)) = map_target_at(c, q, fi.kind) {
                    let key: Parsed<Seq<char>> = if target == Some(MapTarget::AtKey) {
                        bracket_key_at(c, p1)
                    } else {
                        Ok((Seq::empty(), p1))
                    };
                    if let Ok((k, p2)) = key {
                        if let Ok((op, p3)) = operator_at(c, p2) {
                            if !takes_no_value(c, op) {
                                if target is Some || is_flexible_op(op) {
                                    if 0 <= p3 < c.t.len() && c.t[p3] is LeftBracket {
                                        if !(p3 + 1 < c.t.len() && c.t[p3 + 1] is RightBracket) {
                                            if let Ok((first, p4)) = element_at(c, p3 + 1) {
                                                lemma_elements_advance(c, p4, first, seq![first]);
                                            }
                                        }
                                    }
                                } else if op.base is Between {
                                    if 0 <= p3 < c.t.len() && c.t[p3] is LeftBracket && p3 + 1
                                        < c.t.len() {
                                        let base = base_type(fi.field_type@);
                                        if let Ok(v0) = range_number(c, c.t[p3 + 1], base, p3 + 1) {
                                            lemma_range_rest_advances(c, p3 + 2, base, seq![v0]);
                                        }
                                    }
                                }
                            }
                        }
                    }
                }
            }
        }
    }
}

pub proof fn lemma_and_rest_advances(c: ParseCtx, p: int, acc: Seq<CondModel>)
    requires
        0 <= p <= c.t.len(),
    ensures
        advances(and_rest(c, p, acc), p, c.t.len() as int, 0),
    decreases c.t.len() - p,
{
    if 0 <= p < c.t.len() && c.t[p] is And {
        lemma_condition_advances(c, p + 1);
        if let Ok((cond, p1)) = condition_at(c, p + 1) {
            lemma_and_rest_advances(c, p1, acc.push(cond));
        }
    }
}

pub proof fn lemma_conjunction_advances(c: ParseCtx, p: int)
    requires
        0 <= p <= c.t.len(),
    ensures
        advances(conjunction_at(c, p), p, c.t.len() as int, 1),
{
    let parens = 0 <= p < c.t.len() && c.t[p] is LeftParen;
    let p0 = if parens {
        p + 1
    } else {
        p
    };
    lemma_condition_advances(c, p0);
    if let Ok((first, p1)) = condition_at(c, p0) {
        lemma_and_rest_advances(c, p1, seq![first]);
    }
}

pub proof fn lemma_or_rest_advances(c: ParseCtx, p: int, acc: Seq<Seq<CondModel>>)
    requires
        0 <= p <= c.t.len(),
    ensures
        advances(or_rest(c, p, acc), p, c.t.len() as int, 0),
    decreases c.t.len() - p,
{
    if 0 <= p < c.t.len() && c.t[p] is Or {
        lemma_conjunction_advances(c, p + 1);
        if let Ok((conj, p1)) = conjunction_at(c, p + 1) {
            lemma_or_rest_advances(c, p1, acc.push(conj));
        }
    }
}

/// An error on a prefix of a range is the error on the whole range.
pub proof fn lemma_as_signed_prefix(base: Seq<char>, vals: Seq<ValueModel>, k: int, pos: int)
    requires
        0 <= k <= vals.len(),
        as_signed(base, vals.take(k), pos) is Err,
    ensures
        as_signed(base, vals, pos) == as_signed(base, vals.take(k), pos),
    decreases vals.len() - k,
{
    if k < vals.len() {
        assert(vals.take(k + 1).drop_last() =~= vals.take(k));
        lemma_as_signed_prefix(base, vals, k + 1, pos);
    } else {
        assert(vals.take(k) =~= vals);
    }
}

/// An error on a prefix of a range is the error on the whole range.
pub proof fn lemma_as_unsigned_prefix(base: Seq<char>, vals: Seq<ValueModel>, k: int, pos: int)
    requires
        0 <= k <= vals.len(),
        as_unsigned(base, vals.take(k), pos) is Err,
    ensures
        as_unsigned(base, vals, pos) == as_unsigned(base, vals.take(k), pos),
    decreases vals.len() - k,
{
    if k < vals.len() {
        assert(vals.take(k + 1).drop_last() =~= vals.take(k));
        lemma_as_unsigned_prefix(base, vals, k + 1, pos);
    } else {
        assert(vals.take(k) =~= vals);
    }
}

} // verus!
