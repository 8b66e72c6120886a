//! The error type of every fallible operation, and the rendering of its
//! human-readable message.
use vstd::prelude::*;

use crate::schema::FieldKind;
use crate::text::{dec_nat, push_char, push_chars, push_str, u64_chars};

verus! {

/// The error type returned by all fallible DNF operations.
#[derive(Debug, Clone)]
pub enum DnfError {
    /// A value's type does not match what the field or operator expected.
    TypeMismatch { field: String, expected: String, actual: String, position: Option<usize> },
    /// The operator is not valid for the field's type.
    InvalidOp { field: String, operator: String },
    /// A query references a field name that does not exist on the target type.
    UnknownField { field_name: String, position: Option<usize> },
    /// A map-targeted value was applied to a non-map field.
    InvalidMapTarget { field_name: String, field_kind: FieldKind },
    /// A query uses a custom operator that has not been registered.
    UnregisteredCustomOp { operator_name: String },
    /// The parser encountered a token that did not match the grammar.
    UnexpectedToken { expected: String, found: String, position: usize, input: String },
    /// A numeric literal could not be parsed.
    InvalidNumber { value: String, position: usize, input: String },
    /// A string literal was not closed.
    UnterminatedString { position: usize, input: String },
    /// The query string was empty or whitespace only.
    EmptyQuery,
    /// The parser ran out of input while expecting more tokens.
    UnexpectedEof { position: usize, input: String },
    /// An unsupported escape sequence appeared inside a string literal.
    InvalidEscape { escape: String, position: usize, input: String },
}

/// The mathematical content of a [`DnfError`]: the same variants, with
/// every text as a sequence of characters.
pub enum ErrorModel {
    TypeMismatch { field: Seq<char>, expected: Seq<char>, actual: Seq<char>, position: Option<usize> },
    InvalidOp { field: Seq<char>, operator: Seq<char> },
    UnknownField { field_name: Seq<char>, position: Option<usize> },
    InvalidMapTarget { field_name: Seq<char>, field_kind: FieldKind },
    UnregisteredCustomOp { operator_name: Seq<char> },
    UnexpectedToken { expected: Seq<char>, found: Seq<char>, position: usize, input: Seq<char> },
    InvalidNumber { value: Seq<char>, position: usize, input: Seq<char> },
    UnterminatedString { position: usize, input: Seq<char> },
    EmptyQuery,
    UnexpectedEof { position: usize, input: Seq<char> },
    InvalidEscape { escape: Seq<char>, position: usize, input: Seq<char> },
}

impl View for DnfError {
    type V = ErrorModel;

    open spec fn view(&self) -> ErrorModel {
        match self {
            DnfError::TypeMismatch { field, expected, actual, position } => ErrorModel::TypeMismatch {
                field: field@,
                expected: expected@,
                actual: actual@,
                position: *position,
            },
            DnfError::InvalidOp { field, operator } => ErrorModel::InvalidOp {
                field: field@,
                operator: operator@,
            },
            DnfError::UnknownField { field_name, position } => ErrorModel::UnknownField {
                field_name: field_name@,
                position: *position,
            },
            DnfError::InvalidMapTarget { field_name, field_kind } => ErrorModel::InvalidMapTarget {
                field_name: field_name@,
                field_kind: *field_kind,
            },
            DnfError::UnregisteredCustomOp { operator_name } => ErrorModel::UnregisteredCustomOp {
                operator_name: operator_name@,
            },
            DnfError::UnexpectedToken { expected, found, position, input } =>
                ErrorModel::UnexpectedToken {
                expected: expected@,
                found: found@,
                position: *position,
                input: input@,
            },
            DnfError::InvalidNumber { value, position, input } => ErrorModel::InvalidNumber {
                value: value@,
                position: *position,
                input: input@,
            },
            DnfError::UnterminatedString { position, input } => ErrorModel::UnterminatedString {
                position: *position,
                input: input@,
            },
            DnfError::EmptyQuery => ErrorModel::EmptyQuery,
            DnfError::UnexpectedEof { position, input } => ErrorModel::UnexpectedEof {
                position: *position,
                input: input@,
            },
            DnfError::InvalidEscape { escape, position, input } => ErrorModel::InvalidEscape {
                escape: escape@,
                position: *position,
                input: input@,
            },
        }
    }
}

/// ` at position N`, or nothing when there is no position.
pub open spec fn spec_position_suffix(position: Option<usize>) -> Seq<char> {
    match position {
        Some(p) => " at position "@ + dec_nat(p as nat),
        None => Seq::empty(),
    }
}

/// Where the snippet is centred in an input of `len` characters: at
/// `position`, or at the end of the input for a position past it (such as a
/// byte offset into text of wider characters).
pub open spec fn context_centre(position: nat, len: nat) -> nat {
    if position <= len {
        position
    } else {
        len
    }
}

/// First index of the snippet: 20 characters before its centre.
pub open spec fn context_start(position: nat, len: nat) -> nat {
    let c = context_centre(position, len);
    if c >= 20 {
        (c - 20) as nat
    } else {
        0
    }
}

/// One past the last index of the snippet: 20 characters past its centre,
/// or the end of the input.
pub open spec fn context_end(position: nat, len: nat) -> nat {
    let c = context_centre(position, len);
    if c + 20 <= len {
        c + 20
    } else {
        len
    }
}

/// The snippet of at most 20 characters on each side of `position`, with
/// `...` where the input was cut.
pub open spec fn spec_context(input: Seq<char>, position: nat) -> Seq<char> {
    let start = context_start(position, input.len());
    let end = context_end(position, input.len());
    (if start > 0 {
        "..."@
    } else {
        Seq::empty()
    }) + input.subrange(start as int, end as int) + (if end < input.len() {
        "..."@
    } else {
        Seq::empty()
    })
}

/// ` at position N near `snippet``.
pub open spec fn spec_location(position: nat, input: Seq<char>) -> Seq<char> {
    " at position "@ + dec_nat(position) + " near `"@ + spec_context(input, position) + "`"@
}

/// Renders an optional position as ` at position N`, or empty when `None`.
pub fn position_suffix(position: Option<usize>) -> (r: String)
    ensures
        r@ == spec_position_suffix(position),
{
    let mut s = String::new();
    match position {
        Some(p) => {
            push_str(&mut s, " at position ");
            let digits = u64_chars(p as u64);
            push_chars(&mut s, digits.as_slice());
        },
        None => {},
    }
    s
}

/// Extracts the snippet of at most 20 characters on each side of
/// `position` (or of the end of the input, for a position past it), with
/// ellipses where the input is truncated.
pub fn get_context(input: &str, position: usize) -> (r: String)
    ensures
        r@ == spec_context(input@, position as nat),
{
    let chars = crate::text::chars_of(input);
    let len = chars.len();
    let centre = if position <= len {
        position
    } else {
        len
    };
    let end = if len - centre >= 20 {
        centre + 20
    } else {
        len
    };
    let start = if centre >= 20 {
        centre - 20
    } else {
        0
    };
    let mut snippet = String::new();
    if start > 0 {
        push_str(&mut snippet, "...");
    }
    let ghost before = snippet@;
    let mut i = start;
    while i < end
        invariant
            start <= i <= end,
            end <= len,
            len == chars@.len(),
            snippet@ == before + chars@.subrange(start as int, i as int),
        decreases end - i,
    {
        push_char(&mut snippet, chars[i]);
        i = i + 1;
        assert(chars@.subrange(start as int, i as int) =~= chars@.subrange(
            start as int,
            (i - 1) as int,
        ).push(chars@[i - 1]));
    }
    if end < len {
        push_str(&mut snippet, "...");
    }
    snippet
}

/// Renders ` at position N near `snippet`` for parser-error messages.
pub fn format_location(position: usize, input: &str) -> (r: String)
    ensures
        r@ == spec_location(position as nat, input@),
{
    let mut s = String::new();
    push_str(&mut s, " at position ");
    let digits = u64_chars(position as u64);
    push_chars(&mut s, digits.as_slice());
    push_str(&mut s, " near `");
    let ctx = get_context(input, position);
    push_str(&mut s, ctx.as_str());
    push_str(&mut s, "`");
    s
}

impl DnfError {
    /// The human-readable message of the error.
    pub open spec fn spec_message(self) -> Seq<char> {
        match self {
            DnfError::TypeMismatch { field, expected, actual, position } => "Type mismatch for field '"@
                + field@ + "'"@ + spec_position_suffix(position) + ": expected "@ + expected@
                + ", got "@ + actual@,
            DnfError::InvalidOp { field, operator } => "Invalid operator '"@ + operator@
                + "' for field '"@ + field@ + "'"@,
            DnfError::UnknownField { field_name, position } => "Unknown field '"@ + field_name@
                + "'"@ + spec_position_suffix(position),
            DnfError::InvalidMapTarget { field_name, field_kind } =>
                "Map target (AtKey/Keys/Values) used with non-map field '"@ + field_name@
                + "' (kind: "@ + field_kind.spec_tag() + ")"@,
            DnfError::UnregisteredCustomOp { operator_name } => "Custom operator '"@
                + operator_name@ + "' is not registered in the operator registry"@,
            DnfError::UnexpectedToken { expected, found, position, input } => "Expected "@
                + expected@ + ", found "@ + found@ + spec_location(position as nat, input@),
            DnfError::InvalidNumber { value, position, input } => "Invalid number '"@ + value@
                + "'"@ + spec_location(position as nat, input@),
            DnfError::UnterminatedString { position, input } => "Unterminated string"@
                + spec_location(position as nat, input@),
            DnfError::EmptyQuery => "Query string is empty"@,
            DnfError::UnexpectedEof { position, input } => "Unexpected end of input"@
                + spec_location(position as nat, input@),
            DnfError::InvalidEscape { escape, position, input } => "Invalid escape sequence '"@
                + escape@ + "'"@ + spec_location(position as nat, input@),
        }
    }

    /// Renders the human-readable message of the error.
    pub fn to_string(&self) -> (r: String)
        ensures
            r@ == self.spec_message(),
    {
        let mut s = String::new();
        match self {
            DnfError::TypeMismatch { field, expected, actual, position } => {
                push_str(&mut s, "Type mismatch for field '");
                push_str(&mut s, field.as_str());
                push_str(&mut s, "'");
                let suffix = position_suffix(*position);
                push_str(&mut s, suffix.as_str());
                push_str(&mut s, ": expected ");
                push_str(&mut s, expected.as_str());
                push_str(&mut s, ", got ");
                push_str(&mut s, actual.as_str());
            },
            DnfError::InvalidOp { field, operator } => {
                push_str(&mut s, "Invalid operator '");
                push_str(&mut s, operator.as_str());
                push_str(&mut s, "' for field '");
                push_str(&mut s, field.as_str());
                push_str(&mut s, "'");
            },
            DnfError::UnknownField { field_name, position } => {
                push_str(&mut s, "Unknown field '");
                push_str(&mut s, field_name.as_str());
                push_str(&mut s, "'");
                let suffix = position_suffix(*position);
                push_str(&mut s, suffix.as_str());
            },
            DnfError::InvalidMapTarget { field_name, field_kind } => {
                push_str(&mut s, "Map target (AtKey/Keys/Values) used with non-map field '");
                push_str(&mut s, field_name.as_str());
                push_str(&mut s, "' (kind: ");
                let tag = field_kind.to_string();
                push_str(&mut s, tag.as_str());
                push_str(&mut s, ")");
            },
            DnfError::UnregisteredCustomOp { operator_name } => {
                push_str(&mut s, "Custom operator '");
                push_str(&mut s, operator_name.as_str());
                push_str(&mut s, "' is not registered in the operator registry");
            },
            DnfError::UnexpectedToken { expected, found, position, input } => {
                push_str(&mut s, "Expected ");
                push_str(&mut s, expected.as_str());
                push_str(&mut s, ", found ");
                push_str(&mut s, found.as_str());
                let loc = format_location(*position, input.as_str());
                push_str(&mut s, loc.as_str());
            },
            DnfError::InvalidNumber { value, position, input } => {
                push_str(&mut s, "Invalid number '");
                push_str(&mut s, value.as_str());
                push_str(&mut s, "'");
                let loc = format_location(*position, input.as_str());
                push_str(&mut s, loc.as_str());
            },
            DnfError::UnterminatedString { position, input } => {
                push_str(&mut s, "Unterminated string");
                let loc = format_location(*position, input.as_str());
                push_str(&mut s, loc.as_str());
            },
            DnfError::EmptyQuery => {
                push_str(&mut s, "Query string is empty");
            },
            DnfError::UnexpectedEof { position, input } => {
                push_str(&mut s, "Unexpected end of input");
                let loc = format_location(*position, input.as_str());
                push_str(&mut s, loc.as_str());
            },
            DnfError::InvalidEscape { escape, position, input } => {
                push_str(&mut s, "Invalid escape sequence '");
                push_str(&mut s, escape.as_str());
                push_str(&mut s, "'");
                let loc = format_location(*position, input.as_str());
                push_str(&mut s, loc.as_str());
            },
        }
        assert(s@ =~= self.spec_message());
        s
    }
}

} // verus!
