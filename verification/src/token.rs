//! Tokens of the query language and the tokenizer that produces them.
//!
//! The lexer is specified by [`lex_from`]: a function from the characters of
//! the query (and the names of the registered custom operators) to either the
//! token sequence or the first lexical error. [`tokenize`] is proved to
//! compute exactly that function.
use vstd::prelude::*;

use crate::error::{DnfError, ErrorModel};
use crate::text::{
    byte_len, byte_pos, chars_equal, chars_of, is_alphanumeric, is_whitespace, lemma_byte_pos_step,
    spec_is_alphanumeric, spec_is_whitespace, string_from_chars, string_of, utf8_width,
};

verus! {

/// Tokens for the query language.
#[derive(Debug, Clone, PartialEq)]
pub enum Token {
    Identifier(String),
    And,
    Or,
    Eq,
    Ne,
    Gt,
    Lt,
    Gte,
    Lte,
    Contains,
    NotContains,
    StartsWith,
    EndsWith,
    NotStartsWith,
    NotEndsWith,
    AllOf,
    AnyOf,
    NotAllOf,
    NotAnyOf,
    Between,
    NotBetween,
    CustomOp(String),
    String(String),
    Number(String),
    Boolean(bool),
    Null,
    LeftParen,
    RightParen,
    LeftBracket,
    RightBracket,
    Comma,
    MapKeys,
    MapValues,
    Consumed,
}

/// The mathematical content of a [`Token`].
pub enum TokenModel {
    Identifier(Seq<char>),
    And,
    Or,
    Eq,
    Ne,
    Gt,
    Lt,
    Gte,
    Lte,
    Contains,
    NotContains,
    StartsWith,
    EndsWith,
    NotStartsWith,
    NotEndsWith,
    AllOf,
    AnyOf,
    NotAllOf,
    NotAnyOf,
    Between,
    NotBetween,
    CustomOp(Seq<char>),
    Str(Seq<char>),
    Number(Seq<char>),
    Boolean(bool),
    Null,
    LeftParen,
    RightParen,
    LeftBracket,
    RightBracket,
    Comma,
    MapKeys,
    MapValues,
    Consumed,
}

impl View for Token {
    type V = TokenModel;

    open spec fn view(&self) -> TokenModel {
        match self {
            Token::Identifier(s) => TokenModel::Identifier(s@),
            Token::And => TokenModel::And,
            Token::Or => TokenModel::Or,
            Token::Eq => TokenModel::Eq,
            Token::Ne => TokenModel::Ne,
            Token::Gt => TokenModel::Gt,
            Token::Lt => TokenModel::Lt,
            Token::Gte => TokenModel::Gte,
            Token::Lte => TokenModel::Lte,
            Token::Contains => TokenModel::Contains,
            Token::NotContains => TokenModel::NotContains,
            Token::StartsWith => TokenModel::StartsWith,
            Token::EndsWith => TokenModel::EndsWith,
            Token::NotStartsWith => TokenModel::NotStartsWith,
            Token::NotEndsWith => TokenModel::NotEndsWith,
            Token::AllOf => TokenModel::AllOf,
            Token::AnyOf => TokenModel::AnyOf,
            Token::NotAllOf => TokenModel::NotAllOf,
            Token::NotAnyOf => TokenModel::NotAnyOf,
            Token::Between => TokenModel::Between,
            Token::NotBetween => TokenModel::NotBetween,
            Token::CustomOp(s) => TokenModel::CustomOp(s@),
            Token::String(s) => TokenModel::Str(s@),
            Token::Number(s) => TokenModel::Number(s@),
            Token::Boolean(b) => TokenModel::Boolean(*b),
            Token::Null => TokenModel::Null,
            Token::LeftParen => TokenModel::LeftParen,
            Token::RightParen => TokenModel::RightParen,
            Token::LeftBracket => TokenModel::LeftBracket,
            Token::RightBracket => TokenModel::RightBracket,
            Token::Comma => TokenModel::Comma,
            Token::MapKeys => TokenModel::MapKeys,
            Token::MapValues => TokenModel::MapValues,
            Token::Consumed => TokenModel::Consumed,
        }
    }
}

// ---------------------------------------------------------------------
// Character classes
// ---------------------------------------------------------------------
/// A character that may continue a word: alphanumeric or `_`.
pub open spec fn is_word_char(c: char) -> bool {
    spec_is_alphanumeric(c) || c == '_'
}

/// `0`..=`9`.
pub open spec fn is_digit_char(c: char) -> bool {
    ('0' as int) <= (c as int) <= ('9' as int)
}

/// A character that starts an identifier or keyword: ASCII letter or `_`.
pub open spec fn is_ident_start(c: char) -> bool {
    ||| ('a' as int) <= (c as int) <= ('z' as int)
    ||| ('A' as int) <= (c as int) <= ('Z' as int)
    ||| c == '_'
}

/// Whitespace skipped between tokens.
pub open spec fn is_blank(c: char) -> bool {
    c == ' ' || c == '\t' || c == '\n' || c == '\r'
}

// ---------------------------------------------------------------------
// Scanning helpers
// ---------------------------------------------------------------------
/// End of the run of word characters starting at `j`.
pub open spec fn word_end(cs: Seq<char>, j: int) -> int
    decreases cs.len() - j,
{
    if j < 0 || j >= cs.len() {
        j
    } else if is_word_char(cs[j]) {
        word_end(cs, j + 1)
    } else {
        j
    }
}

/// End of the run of (Unicode) whitespace starting at `j`.
pub open spec fn space_end(cs: Seq<char>, j: int) -> int
    decreases cs.len() - j,
{
    if j < 0 || j >= cs.len() {
        j
    } else if spec_is_whitespace(cs[j]) {
        space_end(cs, j + 1)
    } else {
        j
    }
}

/// End of the run of digits and `.` starting at `j`.
pub open spec fn number_end(cs: Seq<char>, j: int) -> int
    decreases cs.len() - j,
{
    if j < 0 || j >= cs.len() {
        j
    } else if is_digit_char(cs[j]) || cs[j] == '.' {
        number_end(cs, j + 1)
    } else {
        j
    }
}

/// End of an identifier continued at `j`: word characters and dots, except a
/// dot that introduces `@` (a map target), which ends the identifier.
pub open spec fn ident_end(cs: Seq<char>, j: int) -> int
    decreases cs.len() - j,
{
    if j < 0 || j >= cs.len() {
        j
    } else if cs[j] == '.' {
        if j + 1 < cs.len() && cs[j + 1] == '@' {
            j
        } else {
            ident_end(cs, j + 1)
        }
    } else if is_word_char(cs[j]) {
        ident_end(cs, j + 1)
    } else {
        j
    }
}

/// The character an escape sequence `\c` stands for.
pub open spec fn unescape(c: char) -> Option<char> {
    if c == 'n' {
        Some('\n')
    } else if c == 't' {
        Some('\t')
    } else if c == 'r' {
        Some('\r')
    } else if c == '\\' || c == '"' || c == '\'' || c == '/' {
        Some(c)
    } else {
        None
    }
}

/// How the body of a string literal ends.
pub enum ScanEnd {
    /// Closed by the quote: the unescaped content and the index after the quote.
    Closed(Seq<char>, int),
    /// The input ended first.
    Unterminated,
    /// An unknown escape: the index of the character after the backslash.
    BadEscape(int),
}

/// `c` prepended to the content of a closed literal.
pub open spec fn scan_prepend(c: char, r: ScanEnd) -> ScanEnd {
    match r {
        ScanEnd::Closed(s, k) => ScanEnd::Closed(seq![c] + s, k),
        other => other,
    }
}

/// Scans the body of a string literal from `j` up to its closing `quote`.
pub open spec fn scan_string(cs: Seq<char>, j: int, quote: char) -> ScanEnd
    decreases cs.len() - j,
{
    if j < 0 || j >= cs.len() {
        ScanEnd::Unterminated
    } else if cs[j] == '\\' {
        if j + 1 >= cs.len() {
            ScanEnd::Unterminated
        } else {
            match unescape(cs[j + 1]) {
                Some(u) => scan_prepend(u, scan_string(cs, j + 2, quote)),
                None => ScanEnd::BadEscape(j + 1),
            }
        }
    } else if cs[j] == quote {
        ScanEnd::Closed(Seq::empty(), j + 1)
    } else {
        scan_prepend(cs[j], scan_string(cs, j + 1, quote))
    }
}

// ---------------------------------------------------------------------
// The lexer
// ---------------------------------------------------------------------
/// Outcome of one lexer step: an optional token and where lexing resumes.
pub type StepOutcome = Result<(Option<TokenModel>, int), ErrorModel>;

/// An unexpected-token error at byte position `pos`.
pub open spec fn unexpected(expected: Seq<char>, found: Seq<char>, pos: nat, cs: Seq<char>) -> ErrorModel {
    ErrorModel::UnexpectedToken { expected, found, position: pos as usize, input: cs }
}

/// Byte position of the next word at `s`, or `fallback` at the end of input.
pub open spec fn word_position(cs: Seq<char>, s: int, fallback: nat) -> nat {
    if s < cs.len() {
        byte_pos(cs, s)
    } else {
        fallback
    }
}

/// A keyword that must follow another one (`WITH` after `STARTS`, ...): the
/// word after `e` must be `kw`; an absent word is reported as `end of
/// expression`.
pub open spec fn follow_step(
    cs: Seq<char>,
    e: int,
    pos: nat,
    kw: Seq<char>,
    tok: TokenModel,
    msg: Seq<char>,
) -> StepOutcome {
    let s = space_end(cs, e);
    let we = word_end(cs, s);
    let word = cs.subrange(s, we);
    let wpos = word_position(cs, s, pos);
    if word.len() == 0 {
        Err(unexpected(msg, "end of expression"@, wpos, cs))
    } else if word == kw {
        Ok((Some(tok), we))
    } else {
        Err(unexpected(msg, word, wpos, cs))
    }
}

/// The second keyword after `NOT STARTS`, `NOT ENDS` or `NOT ALL`.
pub open spec fn not_follow_step(
    cs: Seq<char>,
    e: int,
    pos: nat,
    kw: Seq<char>,
    tok: TokenModel,
    msg: Seq<char>,
) -> StepOutcome {
    let s = space_end(cs, e);
    let we = word_end(cs, s);
    let word = cs.subrange(s, we);
    let wpos = word_position(cs, s, pos);
    if word == kw {
        Ok((Some(tok), we))
    } else {
        Err(unexpected(msg, word, wpos, cs))
    }
}

/// The operator introduced by `NOT`.
pub open spec fn not_step(cs: Seq<char>, e: int, pos: nat) -> StepOutcome {
    let s = space_end(cs, e);
    let we = word_end(cs, s);
    let word = cs.subrange(s, we);
    let wpos = word_position(cs, s, pos);
    if word.len() == 0 {
        Err(
            unexpected(
                "CONTAINS, IN, BETWEEN, STARTS, ENDS, ALL, or ANY (after NOT)"@,
                "end of expression"@,
                wpos,
                cs,
            ),
        )
    } else if word == "CONTAINS"@ {
        Ok((Some(TokenModel::NotContains), we))
    } else if word == "IN"@ {
        Ok((Some(TokenModel::NotAnyOf), we))
    } else if word == "BETWEEN"@ {
        Ok((Some(TokenModel::NotBetween), we))
    } else if word == "STARTS"@ {
        not_follow_step(cs, we, pos, "WITH"@, TokenModel::NotStartsWith, "WITH (after NOT STARTS)"@)
    } else if word == "ENDS"@ {
        not_follow_step(cs, we, pos, "WITH"@, TokenModel::NotEndsWith, "WITH (after NOT ENDS)"@)
    } else if word == "ALL"@ {
        not_follow_step(cs, we, pos, "OF"@, TokenModel::NotAllOf, "OF (after NOT ALL)"@)
    } else {
        Err(
            unexpected(
                "CONTAINS, IN, BETWEEN, STARTS, ENDS, or ALL (after NOT)"@,
                word,
                wpos,
                cs,
            ),
        )
    }
}

/// The token for a word `w` read from `i` to `e`: keyword, custom operator
/// or identifier.
pub open spec fn word_step(
    cs: Seq<char>,
    e: int,
    w: Seq<char>,
    pos: nat,
    custom: Option<Set<Seq<char>>>,
) -> StepOutcome {
    if w == "AND"@ {
        Ok((Some(TokenModel::And), e))
    } else if w == "OR"@ {
        Ok((Some(TokenModel::Or), e))
    } else if w == "true"@ {
        Ok((Some(TokenModel::Boolean(true)), e))
    } else if w == "false"@ {
        Ok((Some(TokenModel::Boolean(false)), e))
    } else if w == "null"@ {
        Ok((Some(TokenModel::Null), e))
    } else if w == "CONTAINS"@ {
        Ok((Some(TokenModel::Contains), e))
    } else if w == "IN"@ {
        Ok((Some(TokenModel::AnyOf), e))
    } else if w == "BETWEEN"@ {
        Ok((Some(TokenModel::Between), e))
    } else if w == "NOT"@ {
        not_step(cs, e, pos)
    } else if w == "STARTS"@ {
        follow_step(cs, e, pos, "WITH"@, TokenModel::StartsWith, "WITH (after STARTS)"@)
    } else if w == "ENDS"@ {
        follow_step(cs, e, pos, "WITH"@, TokenModel::EndsWith, "WITH (after ENDS)"@)
    } else if w == "ALL"@ {
        follow_step(cs, e, pos, "OF"@, TokenModel::AllOf, "OF (after ALL)"@)
    } else {
        match custom {
            Some(names) => if names.contains(w) {
                Ok((Some(TokenModel::CustomOp(w)), e))
            } else {
                Ok((Some(TokenModel::Identifier(w)), e))
            },
            None => Ok((Some(TokenModel::Identifier(w)), e)),
        }
    }
}

/// One lexer step at character index `i` (which is within the input).
pub open spec fn lex_step(cs: Seq<char>, i: int, custom: Option<Set<Seq<char>>>) -> StepOutcome {
    let c = cs[i];
    let pos = byte_pos(cs, i);
    let next_is = |d: char| i + 1 < cs.len() && cs[i + 1] == d;
    if is_blank(c) {
        Ok((None, i + 1))
    } else if c == '(' {
        Ok((Some(TokenModel::LeftParen), i + 1))
    } else if c == ')' {
        Ok((Some(TokenModel::RightParen), i + 1))
    } else if c == '[' {
        Ok((Some(TokenModel::LeftBracket), i + 1))
    } else if c == ']' {
        Ok((Some(TokenModel::RightBracket), i + 1))
    } else if c == ',' {
        Ok((Some(TokenModel::Comma), i + 1))
    } else if c == '=' {
        if next_is('=') {
            Ok((Some(TokenModel::Eq), i + 2))
        } else {
            Ok((Some(TokenModel::Eq), i + 1))
        }
    } else if c == '!' {
        if next_is('=') {
            Ok((Some(TokenModel::Ne), i + 2))
        } else {
            Err(unexpected("!="@, "!"@, pos, cs))
        }
    } else if c == '>' {
        if next_is('=') {
            Ok((Some(TokenModel::Gte), i + 2))
        } else {
            Ok((Some(TokenModel::Gt), i + 1))
        }
    } else if c == '<' {
        if next_is('=') {
            Ok((Some(TokenModel::Lte), i + 2))
        } else {
            Ok((Some(TokenModel::Lt), i + 1))
        }
    } else if c == '.' {
        if next_is('@') {
            let te = word_end(cs, i + 2);
            let target = cs.subrange(i + 2, te);
            if target == "keys"@ {
                Ok((Some(TokenModel::MapKeys), te))
            } else if target == "values"@ {
                Ok((Some(TokenModel::MapValues), te))
            } else {
                Err(unexpected("@keys or @values"@, seq!['@'] + target, pos, cs))
            }
        } else {
            Err(unexpected("identifier or @"@, "."@, pos, cs))
        }
    } else if c == '"' || c == '\'' {
        match scan_string(cs, i + 1, c) {
            ScanEnd::Closed(s, k) => Ok((Some(TokenModel::Str(s)), k)),
            ScanEnd::Unterminated => Err(
                ErrorModel::UnterminatedString { position: pos as usize, input: cs },
            ),
            ScanEnd::BadEscape(k) => Err(
                ErrorModel::InvalidEscape {
                    escape: seq!['\\', cs[k]],
                    position: byte_pos(cs, k) as usize,
                    input: cs,
                },
            ),
        }
    } else if is_digit_char(c) || c == '+' || c == '-' {
        if (c == '+' || c == '-') && !(i + 1 < cs.len() && is_digit_char(cs[i + 1])) {
            Err(ErrorModel::InvalidNumber { value: seq![c], position: pos as usize, input: cs })
        } else {
            let e = number_end(cs, i + 1);
            Ok((Some(TokenModel::Number(cs.subrange(i, e))), e))
        }
    } else if is_ident_start(c) {
        let e = ident_end(cs, i + 1);
        word_step(cs, e, cs.subrange(i, e), pos, custom)
    } else {
        Err(unexpected("valid token"@, seq![c], pos, cs))
    }
}

/// The tokens of `cs` from index `i` on, or the first lexical error.
pub open spec fn lex_from(cs: Seq<char>, i: int, custom: Option<Set<Seq<char>>>) -> Result<
    Seq<TokenModel>,
    ErrorModel,
>
    decreases cs.len() - i,
{
    if i < 0 || i >= cs.len() {
        Ok(Seq::empty())
    } else {
        match lex_step(cs, i, custom) {
            Err(e) => Err(e),
            Ok((t, k)) => if k <= i || k > cs.len() {
                Ok(Seq::empty())
            } else {
                match lex_from(cs, k, custom) {
                    Err(e) => Err(e),
                    Ok(rest) => Ok(
                        match t {
                            Some(t) => seq![t] + rest,
                            None => rest,
                        },
                    ),
                }
            },
        }
    }
}

/// The names of the custom operators, as character sequences.
pub open spec fn custom_names(custom_op_names: Option<&[String]>) -> Option<Set<Seq<char>>> {
    match custom_op_names {
        Some(names) => Some(names@.map_values(|s: String| s@).to_set()),
        None => None,
    }
}

/// The token sequence of a query string, or its first lexical error.
pub open spec fn spec_tokenize(input: Seq<char>, custom: Option<Set<Seq<char>>>) -> Result<
    Seq<TokenModel>,
    ErrorModel,
> {
    lex_from(input, 0, custom)
}


// ---------------------------------------------------------------------
// Executable lexer
// ---------------------------------------------------------------------
/// The model of an optional token.
pub open spec fn opt_token_view(t: Option<Token>) -> Option<TokenModel> {
    match t {
        Some(t) => Some(t@),
        None => None,
    }
}

/// Relates an executable step result to its specification.
pub open spec fn step_matches(r: Result<(Option<Token>, usize), DnfError>, spec: StepOutcome) -> bool {
    match r {
        Ok((t, k)) => spec == Ok::<(Option<TokenModel>, int), ErrorModel>(
            (opt_token_view(t), k as int),
        ),
        Err(e) => spec == Err::<(Option<TokenModel>, int), ErrorModel>(e@),
    }
}

/// Byte position of index `j`, walking forward from index `i`.
fn advance_pos(cs: &[char], i: usize, pos: usize, j: usize) -> (r: usize)
    requires
        i <= j <= cs@.len(),
        pos == byte_pos(cs@, i as int),
        byte_len(cs@) <= usize::MAX,
    ensures
        r == byte_pos(cs@, j as int),
{
    let mut k = i;
    let mut p = pos;
    while k < j
        invariant
            i <= k <= j <= cs@.len(),
            p == byte_pos(cs@, k as int),
            byte_len(cs@) <= usize::MAX,
        decreases j - k,
    {
        proof {
            lemma_byte_pos_step(cs@, k as int);
        }
        p = p + utf8_width(cs[k]);
        k = k + 1;
    }
    p
}

fn word_end_exec(cs: &[char], j: usize) -> (r: usize)
    requires
        j <= cs@.len(),
    ensures
        r as int == word_end(cs@, j as int),
        j <= r <= cs@.len(),
{
    let mut k = j;
    while k < cs.len()
        invariant
            j <= k <= cs@.len(),
            word_end(cs@, j as int) == word_end(cs@, k as int),
        decreases cs.len() - k,
    {
        let c = cs[k];
        if !(is_alphanumeric(c) || c == '_') {
            return k;
        }
        k = k + 1;
    }
    k
}

fn space_end_exec(cs: &[char], j: usize) -> (r: usize)
    requires
        j <= cs@.len(),
    ensures
        r as int == space_end(cs@, j as int),
        j <= r <= cs@.len(),
{
    let mut k = j;
    while k < cs.len()
        invariant
            j <= k <= cs@.len(),
            space_end(cs@, j as int) == space_end(cs@, k as int),
        decreases cs.len() - k,
    {
        if !is_whitespace(cs[k]) {
            return k;
        }
        k = k + 1;
    }
    k
}

fn number_end_exec(cs: &[char], j: usize) -> (r: usize)
    requires
        j <= cs@.len(),
    ensures
        r as int == number_end(cs@, j as int),
        j <= r <= cs@.len(),
{
    let mut k = j;
    while k < cs.len()
        invariant
            j <= k <= cs@.len(),
            number_end(cs@, j as int) == number_end(cs@, k as int),
        decreases cs.len() - k,
    {
        let c = cs[k];
        if !(('0' <= c && c <= '9') || c == '.') {
            return k;
        }
        k = k + 1;
    }
    k
}

fn ident_end_exec(cs: &[char], j: usize) -> (r: usize)
    requires
        j <= cs@.len(),
    ensures
        r as int == ident_end(cs@, j as int),
        j <= r <= cs@.len(),
{
    let mut k = j;
    while k < cs.len()
        invariant
            j <= k <= cs@.len(),
            ident_end(cs@, j as int) == ident_end(cs@, k as int),
        decreases cs.len() - k,
    {
        let c = cs[k];
        if c == '.' {
            if k + 1 < cs.len() && cs[k + 1] == '@' {
                return k;
            }
        } else if !(is_alphanumeric(c) || c == '_') {
            return k;
        }
        k = k + 1;
    }
    k
}

/// The characters of `cs` from `a` to `b`.
pub fn slice_chars(cs: &[char], a: usize, b: usize) -> (r: Vec<char>)
    requires
        a <= b <= cs@.len(),
    ensures
        r@ == cs@.subrange(a as int, b as int),
{
    let mut v: Vec<char> = Vec::new();
    let mut k = a;
    while k < b
        invariant
            a <= k <= b <= cs@.len(),
            v@ == cs@.subrange(a as int, k as int),
        decreases b - k,
    {
        v.push(cs[k]);
        k = k + 1;
        assert(cs@.subrange(a as int, k as int) =~= cs@.subrange(a as int, (k - 1) as int).push(
            cs@[k - 1],
        ));
    }
    v
}

/// Tests whether the characters `w` spell the keyword `kw`.
pub fn is_word(w: &[char], kw: &str) -> (r: bool)
    ensures
        r == (w@ == kw@),
{
    let k = chars_of(kw);
    chars_equal(w, k.as_slice())
}

/// Executable form of [`ScanEnd`].
enum Scanned {
    Closed(Vec<char>, usize),
    Unterminated,
    BadEscape(usize),
}

spec fn scanned_view(r: Scanned) -> ScanEnd {
    match r {
        Scanned::Closed(v, k) => ScanEnd::Closed(v@, k as int),
        Scanned::Unterminated => ScanEnd::Unterminated,
        Scanned::BadEscape(k) => ScanEnd::BadEscape(k as int),
    }
}

spec fn scan_with_prefix(pre: Seq<char>, r: ScanEnd) -> ScanEnd {
    match r {
        ScanEnd::Closed(s, k) => ScanEnd::Closed(pre + s, k),
        other => other,
    }
}

fn unescape_exec(c: char) -> (r: Option<char>)
    ensures
        r == unescape(c),
{
    if c == 'n' {
        Some('\n')
    } else if c == 't' {
        Some('\t')
    } else if c == 'r' {
        Some('\r')
    } else if c == '\\' || c == '"' || c == '\'' || c == '/' {
        Some(c)
    } else {
        None
    }
}

fn scan_string_exec(cs: &[char], j: usize, quote: char) -> (r: Scanned)
    requires
        j <= cs@.len(),
    ensures
        scanned_view(r) == scan_string(cs@, j as int, quote),
        r matches Scanned::Closed(_, k) ==> j < k <= cs@.len(),
        r matches Scanned::BadEscape(k) ==> j < k < cs@.len(),
{
    let mut content: Vec<char> = Vec::new();
    let mut k = j;
    assert(scan_string(cs@, j as int, quote) == scan_with_prefix(content@, scan_string(cs@, k as int, quote))) by {
        assert(Seq::<char>::empty() + Seq::<char>::empty() =~= Seq::<char>::empty());
        match scan_string(cs@, j as int, quote) {
            ScanEnd::Closed(s, kk) => {
                assert(Seq::<char>::empty() + s =~= s);
            },
            _ => {},
        }
    }
    while k < cs.len()
        invariant
            j <= k <= cs@.len(),
            scan_string(cs@, j as int, quote) == scan_with_prefix(
                content@,
                scan_string(cs@, k as int, quote),
            ),
        decreases cs.len() - k,
    {
        let c = cs[k];
        if c == '\\' {
            if k + 1 >= cs.len() {
                return Scanned::Unterminated;
            }
            match unescape_exec(cs[k + 1]) {
                Some(u) => {
                    let ghost old_content = content@;
                    content.push(u);
                    proof {
                        match scan_string(cs@, k + 2, quote) {
                            ScanEnd::Closed(s, kk) => {
                                assert(old_content + (seq![u] + s) =~= content@ + s);
                            },
                            _ => {},
                        }
                    }
                    k = k + 2;
                },
                None => {
                    return Scanned::BadEscape(k + 1);
                },
            }
        } else if c == quote {
            assert(content@ + Seq::<char>::empty() =~= content@);
            return Scanned::Closed(content, k + 1);
        } else {
            let ghost old_content = content@;
            content.push(c);
            proof {
                match scan_string(cs@, k + 1, quote) {
                    ScanEnd::Closed(s, kk) => {
                        assert(old_content + (seq![c] + s) =~= content@ + s);
                    },
                    _ => {},
                }
            }
            k = k + 1;
        }
    }
    Scanned::Unterminated
}

fn unexpected_exec(expected: &str, found: String, pos: usize, input: &String) -> (r: DnfError)
    ensures
        r@ == unexpected(expected@, found@, pos as nat, input@),
{
    DnfError::UnexpectedToken {
        expected: string_of(expected),
        found,
        position: pos,
        input: input.clone(),
    }
}

fn follow_step_exec(
    cs: &[char],
    e: usize,
    pos: usize,
    ppos: usize,
    kw: &str,
    tok: Token,
    msg: &str,
    input: &String,
) -> (r: Result<(Option<Token>, usize), DnfError>)
    requires
        e <= cs@.len(),
        input@ == cs@,
        pos == byte_pos(cs@, e as int),
        byte_len(cs@) <= usize::MAX,
    ensures
        step_matches(r, follow_step(cs@, e as int, ppos as nat, kw@, tok@, msg@)),
        r matches Ok((_, k)) ==> e < k <= cs@.len(),
{
    let s = space_end_exec(cs, e);
    let we = word_end_exec(cs, s);
    let word = slice_chars(cs, s, we);
    let wpos = if s < cs.len() {
        advance_pos(cs, e, pos, s)
    } else {
        ppos
    };
    if word.len() == 0 {
        Err(unexpected_exec(msg, string_of("end of expression"), wpos, input))
    } else if is_word(word.as_slice(), kw) {
        Ok((Some(tok), we))
    } else {
        Err(unexpected_exec(msg, string_from_chars(word.as_slice()), wpos, input))
    }
}

fn not_follow_step_exec(
    cs: &[char],
    e: usize,
    pos: usize,
    ppos: usize,
    kw: &str,
    tok: Token,
    msg: &str,
    input: &String,
) -> (r: Result<(Option<Token>, usize), DnfError>)
    requires
        e <= cs@.len(),
        input@ == cs@,
        pos == byte_pos(cs@, e as int),
        byte_len(cs@) <= usize::MAX,
        kw@.len() > 0,
    ensures
        step_matches(r, not_follow_step(cs@, e as int, ppos as nat, kw@, tok@, msg@)),
        r matches Ok((_, k)) ==> e < k <= cs@.len(),
{
    let s = space_end_exec(cs, e);
    let we = word_end_exec(cs, s);
    let word = slice_chars(cs, s, we);
    let wpos = if s < cs.len() {
        advance_pos(cs, e, pos, s)
    } else {
        ppos
    };
    if is_word(word.as_slice(), kw) {
        Ok((Some(tok), we))
    } else {
        Err(unexpected_exec(msg, string_from_chars(word.as_slice()), wpos, input))
    }
}


fn not_step_exec(cs: &[char], e: usize, pos: usize, ppos: usize, input: &String) -> (r: Result<
    (Option<Token>, usize),
    DnfError,
>)
    requires
        e <= cs@.len(),
        input@ == cs@,
        pos == byte_pos(cs@, e as int),
        byte_len(cs@) <= usize::MAX,
    ensures
        step_matches(r, not_step(cs@, e as int, ppos as nat)),
        r matches Ok((_, k)) ==> e < k <= cs@.len(),
{
    let s = space_end_exec(cs, e);
    let we = word_end_exec(cs, s);
    let word = slice_chars(cs, s, we);
    let wpos = if s < cs.len() {
        advance_pos(cs, e, pos, s)
    } else {
        ppos
    };
    let w = word.as_slice();
    if word.len() == 0 {
        Err(
            unexpected_exec(
                "CONTAINS, IN, BETWEEN, STARTS, ENDS, ALL, or ANY (after NOT)",
                string_of("end of expression"),
                wpos,
                input,
            ),
        )
    } else if is_word(w, "CONTAINS") {
        Ok((Some(Token::NotContains), we))
    } else if is_word(w, "IN") {
        Ok((Some(Token::NotAnyOf), we))
    } else if is_word(w, "BETWEEN") {
        Ok((Some(Token::NotBetween), we))
    } else {
        let wepos = advance_pos(cs, e, pos, we);
        if is_word(w, "STARTS") {
            proof {
                reveal_strlit("WITH");
            }
            not_follow_step_exec(
                cs,
                we,
                wepos,
                ppos,
                "WITH",
                Token::NotStartsWith,
                "WITH (after NOT STARTS)",
                input,
            )
        } else if is_word(w, "ENDS") {
            proof {
                reveal_strlit("WITH");
            }
            not_follow_step_exec(
                cs,
                we,
                wepos,
                ppos,
                "WITH",
                Token::NotEndsWith,
                "WITH (after NOT ENDS)",
                input,
            )
        } else if is_word(w, "ALL") {
            proof {
                reveal_strlit("OF");
            }
            not_follow_step_exec(cs, we, wepos, ppos, "OF", Token::NotAllOf, "OF (after NOT ALL)", input)
        } else {
            Err(
                unexpected_exec(
                    "CONTAINS, IN, BETWEEN, STARTS, ENDS, or ALL (after NOT)",
                    string_from_chars(w),
                    wpos,
                    input,
                ),
            )
        }
    }
}

/// Tests whether `w` is one of `names`.
fn names_contain(names: &[String], w: &[char]) -> (r: bool)
    ensures
        r == names@.map_values(|s: String| s@).contains(w@),
        r == names@.map_values(|s: String| s@).to_set().contains(w@),
{
    let ghost views = names@.map_values(|s: String| s@);
    let mut i: usize = 0;
    while i < names.len()
        invariant
            i <= names@.len(),
            views == names@.map_values(|s: String| s@),
            forall|k: int| 0 <= k < i ==> views[k] != w@,
        decreases names.len() - i,
    {
        let n = chars_of(names[i].as_str());
        if chars_equal(n.as_slice(), w) {
            assert(views[i as int] == w@);
            return true;
        }
        i = i + 1;
    }
    assert forall|k: int| 0 <= k < views.len() implies views[k] != w@ by {}
    false
}

fn word_step_exec(
    cs: &[char],
    e: usize,
    w: &[char],
    pos: usize,
    ppos: usize,
    custom_op_names: Option<&[String]>,
    input: &String,
) -> (r: Result<(Option<Token>, usize), DnfError>)
    requires
        e <= cs@.len(),
        input@ == cs@,
        pos == byte_pos(cs@, e as int),
        byte_len(cs@) <= usize::MAX,
    ensures
        step_matches(r, word_step(cs@, e as int, w@, ppos as nat, custom_names(custom_op_names))),
        r matches Ok((_, k)) ==> e <= k <= cs@.len(),
{
    if is_word(w, "AND") {
        Ok((Some(Token::And), e))
    } else if is_word(w, "OR") {
        Ok((Some(Token::Or), e))
    } else if is_word(w, "true") {
        Ok((Some(Token::Boolean(true)), e))
    } else if is_word(w, "false") {
        Ok((Some(Token::Boolean(false)), e))
    } else if is_word(w, "null") {
        Ok((Some(Token::Null), e))
    } else if is_word(w, "CONTAINS") {
        Ok((Some(Token::Contains), e))
    } else if is_word(w, "IN") {
        Ok((Some(Token::AnyOf), e))
    } else if is_word(w, "BETWEEN") {
        Ok((Some(Token::Between), e))
    } else if is_word(w, "NOT") {
        not_step_exec(cs, e, pos, ppos, input)
    } else if is_word(w, "STARTS") {
        follow_step_exec(cs, e, pos, ppos, "WITH", Token::StartsWith, "WITH (after STARTS)", input)
    } else if is_word(w, "ENDS") {
        follow_step_exec(cs, e, pos, ppos, "WITH", Token::EndsWith, "WITH (after ENDS)", input)
    } else if is_word(w, "ALL") {
        follow_step_exec(cs, e, pos, ppos, "OF", Token::AllOf, "OF (after ALL)", input)
    } else {
        match custom_op_names {
            Some(names) => {
                if names_contain(names, w) {
                    Ok((Some(Token::CustomOp(string_from_chars(w))), e))
                } else {
                    Ok((Some(Token::Identifier(string_from_chars(w))), e))
                }
            },
            None => Ok((Some(Token::Identifier(string_from_chars(w))), e)),
        }
    }
}


fn one_char_string(c: char) -> (r: String)
    ensures
        r@ == seq![c],
{
    let mut s = String::new();
    crate::text::push_char(&mut s, c);
    assert(s@ =~= seq![c]);
    s
}

fn lex_step_exec(
    cs: &[char],
    i: usize,
    pos: usize,
    custom_op_names: Option<&[String]>,
    input: &String,
) -> (r: Result<(Option<Token>, usize), DnfError>)
    requires
        i < cs@.len(),
        input@ == cs@,
        pos == byte_pos(cs@, i as int),
        byte_len(cs@) <= usize::MAX,
    ensures
        step_matches(r, lex_step(cs@, i as int, custom_names(custom_op_names))),
        r matches Ok((_, k)) ==> i < k <= cs@.len(),
{
    let c = cs[i];
    let has_next = i + 1 < cs.len();
    if c == ' ' || c == '\t' || c == '\n' || c == '\r' {
        Ok((None, i + 1))
    } else if c == '(' {
        Ok((Some(Token::LeftParen), i + 1))
    } else if c == ')' {
        Ok((Some(Token::RightParen), i + 1))
    } else if c == '[' {
        Ok((Some(Token::LeftBracket), i + 1))
    } else if c == ']' {
        Ok((Some(Token::RightBracket), i + 1))
    } else if c == ',' {
        Ok((Some(Token::Comma), i + 1))
    } else if c == '=' {
        if has_next && cs[i + 1] == '=' {
            Ok((Some(Token::Eq), i + 2))
        } else {
            Ok((Some(Token::Eq), i + 1))
        }
    } else if c == '!' {
        if has_next && cs[i + 1] == '=' {
            Ok((Some(Token::Ne), i + 2))
        } else {
            Err(unexpected_exec("!=", string_of("!"), pos, input))
        }
    } else if c == '>' {
        if has_next && cs[i + 1] == '=' {
            Ok((Some(Token::Gte), i + 2))
        } else {
            Ok((Some(Token::Gt), i + 1))
        }
    } else if c == '<' {
        if has_next && cs[i + 1] == '=' {
            Ok((Some(Token::Lte), i + 2))
        } else {
            Ok((Some(Token::Lt), i + 1))
        }
    } else if c == '.' {
        if has_next && cs[i + 1] == '@' {
            let te = word_end_exec(cs, i + 2);
            let target = slice_chars(cs, i + 2, te);
            if is_word(target.as_slice(), "keys") {
                proof {
                    reveal_strlit("keys");
                }
                Ok((Some(Token::MapKeys), te))
            } else if is_word(target.as_slice(), "values") {
                proof {
                    reveal_strlit("values");
                }
                Ok((Some(Token::MapValues), te))
            } else {
                let mut found = one_char_string('@');
                crate::text::push_chars(&mut found, target.as_slice());
                Err(unexpected_exec("@keys or @values", found, pos, input))
            }
        } else {
            Err(unexpected_exec("identifier or @", string_of("."), pos, input))
        }
    } else if c == '"' || c == '\'' {
        match scan_string_exec(cs, i + 1, c) {
            Scanned::Closed(content, k) => Ok(
                (Some(Token::String(string_from_chars(content.as_slice()))), k),
            ),
            Scanned::Unterminated => Err(
                DnfError::UnterminatedString { position: pos, input: input.clone() },
            ),
            Scanned::BadEscape(k) => {
                let mut esc = one_char_string('\\');
                crate::text::push_char(&mut esc, cs[k]);
                assert(esc@ =~= seq!['\\', cs@[k as int]]);
                let kpos = advance_pos(cs, i, pos, k);
                Err(DnfError::InvalidEscape { escape: esc, position: kpos, input: input.clone() })
            },
        }
    } else if ('0' <= c && c <= '9') || c == '+' || c == '-' {
        if (c == '+' || c == '-') && !(has_next && '0' <= cs[i + 1] && cs[i + 1] <= '9') {
            Err(
                DnfError::InvalidNumber {
                    value: one_char_string(c),
                    position: pos,
                    input: input.clone(),
                },
            )
        } else {
            let e = number_end_exec(cs, i + 1);
            let text = slice_chars(cs, i, e);
            Ok((Some(Token::Number(string_from_chars(text.as_slice()))), e))
        }
    } else if ('a' <= c && c <= 'z') || ('A' <= c && c <= 'Z') || c == '_' {
        let e = ident_end_exec(cs, i + 1);
        let w = slice_chars(cs, i, e);
        let epos = advance_pos(cs, i, pos, e);
        word_step_exec(cs, e, w.as_slice(), epos, pos, custom_op_names, input)
    } else {
        Err(unexpected_exec("valid token", one_char_string(c), pos, input))
    }
}

/// Tokenizes a query string.
///
/// `custom_op_names` lists the custom operators the tokenizer recognizes (by
/// exact, case-sensitive name). Positions in errors are byte offsets into
/// `input`.
pub fn tokenize(input: &str, custom_op_names: Option<&[String]>) -> (r: Result<
    Vec<Token>,
    DnfError,
>)
    ensures
        match r {
            Ok(tokens) => spec_tokenize(input@, custom_names(custom_op_names)) == Ok::<
                Seq<TokenModel>,
                ErrorModel,
            >(tokens@.map_values(|t: Token| t@)),
            Err(e) => spec_tokenize(input@, custom_names(custom_op_names)) == Err::<
                Seq<TokenModel>,
                ErrorModel,
            >(e@),
        },
{
    let _total = crate::text::text_byte_len(input);
    let input_string = string_of(input);
    let chars = chars_of(input);
    let cs = chars.as_slice();
    let ghost custom = custom_names(custom_op_names);
    let mut tokens: Vec<Token> = Vec::new();
    let mut i: usize = 0;
    let mut pos: usize = 0;
    assert(cs@.take(0) =~= Seq::<char>::empty());
    while i < cs.len()
        invariant
            i <= cs@.len(),
            cs@ == input@,
            input_string@ == input@,
            pos == byte_pos(cs@, i as int),
            byte_len(cs@) <= usize::MAX,
            custom == custom_names(custom_op_names),
            lex_from(cs@, 0, custom) == match lex_from(cs@, i as int, custom) {
                Ok(rest) => Ok(tokens@.map_values(|t: Token| t@) + rest),
                Err(e) => Err::<Seq<TokenModel>, ErrorModel>(e),
            },
        decreases cs.len() - i,
    {
        let step = lex_step_exec(cs, i, pos, custom_op_names, &input_string);
        match step {
            Err(e) => {
                return Err(e);
            },
            Ok((t, k)) => {
                let ghost old_tokens = tokens@.map_values(|t: Token| t@);
                let ghost tv = opt_token_view(t);
                match t {
                    Some(tok) => {
                        tokens.push(tok);
                    },
                    None => {},
                }
                proof {
                    let now = tokens@.map_values(|t: Token| t@);
                    match tv {
                        Some(tm) => {
                            assert(now =~= old_tokens.push(tm));
                            match lex_from(cs@, k as int, custom) {
                                Ok(rest) => {
                                    assert(old_tokens + (seq![tm] + rest) =~= now + rest);
                                },
                                Err(e) => {},
                            }
                        },
                        None => {
                            assert(now =~= old_tokens);
                        },
                    }
                }
                pos = advance_pos(cs, i, pos, k);
                i = k;
            },
        }
    }
    assert(tokens@.map_values(|t: Token| t@) + Seq::<TokenModel>::empty() =~= tokens@.map_values(
        |t: Token| t@,
    ));
    Ok(tokens)
}


/// The byte offsets where the tokens of `cs` read from index `i` on start,
/// up to the first lexical error. Where tokens start does not depend on
/// which words are custom operators.
pub open spec fn lex_offsets(cs: Seq<char>, i: int) -> Seq<nat>
    decreases cs.len() - i,
{
    if i < 0 || i >= cs.len() {
        Seq::empty()
    } else {
        match lex_step(cs, i, None) {
            Err(_) => Seq::empty(),
            Ok((t, k)) => if k <= i || k > cs.len() {
                Seq::empty()
            } else {
                match t {
                    Some(_) => seq![byte_pos(cs, i)] + lex_offsets(cs, k),
                    None => lex_offsets(cs, k),
                }
            },
        }
    }
}

/// The offsets as natural numbers.
pub open spec fn offsets_view(v: Seq<usize>) -> Seq<nat> {
    v.map_values(|o: usize| o as nat)
}

/// The byte offsets where the tokens of `input` start, up to the first
/// lexical error (see [`lex_offsets`]).
pub fn token_offsets(input: &str) -> (r: Vec<usize>)
    ensures
        offsets_view(r@) == lex_offsets(input@, 0),
{
    let _total = crate::text::text_byte_len(input);
    let input_string = string_of(input);
    let chars = chars_of(input);
    let cs = chars.as_slice();
    let mut offs: Vec<usize> = Vec::new();
    let mut i: usize = 0;
    let mut pos: usize = 0;
    while i < cs.len()
        invariant
            i <= cs@.len(),
            cs@ == input@,
            input_string@ == input@,
            pos == byte_pos(cs@, i as int),
            byte_len(cs@) <= usize::MAX,
            lex_offsets(cs@, 0) == offsets_view(offs@) + lex_offsets(cs@, i as int),
        decreases cs.len() - i,
    {
        let step = lex_step_exec(cs, i, pos, None, &input_string);
        assert(custom_names(None) == None::<Set<Seq<char>>>);
        match step {
            Err(_) => {
                assert(lex_offsets(cs@, i as int) == Seq::<nat>::empty());
                assert(offsets_view(offs@) + Seq::<nat>::empty() =~= offsets_view(offs@));
                return offs;
            },
            Ok((t, k)) => {
                let ghost before = offsets_view(offs@);
                match t {
                    Some(_) => {
                        offs.push(pos);
                        assert(offsets_view(offs@) =~= before.push(pos as nat));
                        assert(before + (seq![pos as nat] + lex_offsets(cs@, k as int))
                            =~= offsets_view(offs@) + lex_offsets(cs@, k as int));
                    },
                    None => {},
                }
                pos = advance_pos(cs, i, pos, k);
                i = k;
            },
        }
    }
    assert(offsets_view(offs@) + Seq::<nat>::empty() =~= offsets_view(offs@));
    offs
}

// ---------------------------------------------------------------------
// Rendering
// ---------------------------------------------------------------------
/// The text `true` or `false`.
pub open spec fn bool_text(b: bool) -> Seq<char> {
    if b {
        "true"@
    } else {
        "false"@
    }
}

/// How a token is shown in error messages.
pub open spec fn token_text(t: TokenModel) -> Seq<char> {
    match t {
        TokenModel::Identifier(s) => "identifier '"@ + s + "'"@,
        TokenModel::And => "AND"@,
        TokenModel::Or => "OR"@,
        TokenModel::Eq => "=="@,
        TokenModel::Ne => "!="@,
        TokenModel::Gt => ">"@,
        TokenModel::Lt => "<"@,
        TokenModel::Gte => ">="@,
        TokenModel::Lte => "<="@,
        TokenModel::Contains => "CONTAINS"@,
        TokenModel::NotContains => "NOT CONTAINS"@,
        TokenModel::StartsWith => "STARTS WITH"@,
        TokenModel::EndsWith => "ENDS WITH"@,
        TokenModel::NotStartsWith => "NOT STARTS WITH"@,
        TokenModel::NotEndsWith => "NOT ENDS WITH"@,
        TokenModel::AllOf => "ALL OF"@,
        TokenModel::AnyOf => "IN"@,
        TokenModel::NotAllOf => "NOT ALL OF"@,
        TokenModel::NotAnyOf => "NOT IN"@,
        TokenModel::Between => "BETWEEN"@,
        TokenModel::NotBetween => "NOT BETWEEN"@,
        TokenModel::CustomOp(name) => name,
        TokenModel::Str(s) => "string '"@ + s + "'"@,
        TokenModel::Number(n) => "number '"@ + n + "'"@,
        TokenModel::Boolean(b) => "boolean "@ + bool_text(b),
        TokenModel::Null => "null"@,
        TokenModel::LeftParen => "("@,
        TokenModel::RightParen => ")"@,
        TokenModel::LeftBracket => "["@,
        TokenModel::RightBracket => "]"@,
        TokenModel::Comma => ","@,
        TokenModel::MapKeys => ".@keys"@,
        TokenModel::MapValues => ".@values"@,
        TokenModel::Consumed => "<consumed>"@,
    }
}

/// Appends `true` or `false`.
pub fn push_bool(s: &mut String, b: bool)
    ensures
        final(s)@ == old(s)@ + bool_text(b),
{
    if b {
        crate::text::push_str(s, "true");
    } else {
        crate::text::push_str(s, "false");
    }
}

impl Token {
    /// Renders the token as it is shown in error messages.
    pub fn to_string(&self) -> (r: String)
        ensures
            r@ == token_text(self@),
    {
        let mut s = String::new();
        match self {
            Token::Identifier(name) => {
                crate::text::push_str(&mut s, "identifier '");
                crate::text::push_str(&mut s, name.as_str());
                crate::text::push_str(&mut s, "'");
            },
            Token::And => crate::text::push_str(&mut s, "AND"),
            Token::Or => crate::text::push_str(&mut s, "OR"),
            Token::Eq => crate::text::push_str(&mut s, "=="),
            Token::Ne => crate::text::push_str(&mut s, "!="),
            Token::Gt => crate::text::push_str(&mut s, ">"),
            Token::Lt => crate::text::push_str(&mut s, "<"),
            Token::Gte => crate::text::push_str(&mut s, ">="),
            Token::Lte => crate::text::push_str(&mut s, "<="),
            Token::Contains => crate::text::push_str(&mut s, "CONTAINS"),
            Token::NotContains => crate::text::push_str(&mut s, "NOT CONTAINS"),
            Token::StartsWith => crate::text::push_str(&mut s, "STARTS WITH"),
            Token::EndsWith => crate::text::push_str(&mut s, "ENDS WITH"),
            Token::NotStartsWith => crate::text::push_str(&mut s, "NOT STARTS WITH"),
            Token::NotEndsWith => crate::text::push_str(&mut s, "NOT ENDS WITH"),
            Token::AllOf => crate::text::push_str(&mut s, "ALL OF"),
            Token::AnyOf => crate::text::push_str(&mut s, "IN"),
            Token::NotAllOf => crate::text::push_str(&mut s, "NOT ALL OF"),
            Token::NotAnyOf => crate::text::push_str(&mut s, "NOT IN"),
            Token::Between => crate::text::push_str(&mut s, "BETWEEN"),
            Token::NotBetween => crate::text::push_str(&mut s, "NOT BETWEEN"),
            Token::CustomOp(name) => crate::text::push_str(&mut s, name.as_str()),
            Token::String(v) => {
                crate::text::push_str(&mut s, "string '");
                crate::text::push_str(&mut s, v.as_str());
                crate::text::push_str(&mut s, "'");
            },
            Token::Number(n) => {
                crate::text::push_str(&mut s, "number '");
                crate::text::push_str(&mut s, n.as_str());
                crate::text::push_str(&mut s, "'");
            },
            Token::Boolean(b) => {
                crate::text::push_str(&mut s, "boolean ");
                push_bool(&mut s, *b);
            },
            Token::Null => crate::text::push_str(&mut s, "null"),
            Token::LeftParen => crate::text::push_str(&mut s, "("),
            Token::RightParen => crate::text::push_str(&mut s, ")"),
            Token::LeftBracket => crate::text::push_str(&mut s, "["),
            Token::RightBracket => crate::text::push_str(&mut s, "]"),
            Token::Comma => crate::text::push_str(&mut s, ","),
            Token::MapKeys => crate::text::push_str(&mut s, ".@keys"),
            Token::MapValues => crate::text::push_str(&mut s, ".@values"),
            Token::Consumed => crate::text::push_str(&mut s, "<consumed>"),
        }
        assert(s@ =~= token_text(self@));
        s
    }
}

/// The position of a token's variant in the list of variants (two tokens
/// have the same variant exactly when these agree).
pub open spec fn token_tag(t: TokenModel) -> nat {
    match t {
        TokenModel::Identifier(_) => 0,
        TokenModel::And => 1,
        TokenModel::Or => 2,
        TokenModel::Eq => 3,
        TokenModel::Ne => 4,
        TokenModel::Gt => 5,
        TokenModel::Lt => 6,
        TokenModel::Gte => 7,
        TokenModel::Lte => 8,
        TokenModel::Contains => 9,
        TokenModel::NotContains => 10,
        TokenModel::StartsWith => 11,
        TokenModel::EndsWith => 12,
        TokenModel::NotStartsWith => 13,
        TokenModel::NotEndsWith => 14,
        TokenModel::AllOf => 15,
        TokenModel::AnyOf => 16,
        TokenModel::NotAllOf => 17,
        TokenModel::NotAnyOf => 18,
        TokenModel::Between => 19,
        TokenModel::NotBetween => 20,
        TokenModel::CustomOp(_) => 21,
        TokenModel::Str(_) => 22,
        TokenModel::Number(_) => 23,
        TokenModel::Boolean(_) => 24,
        TokenModel::Null => 25,
        TokenModel::LeftParen => 26,
        TokenModel::RightParen => 27,
        TokenModel::LeftBracket => 28,
        TokenModel::RightBracket => 29,
        TokenModel::Comma => 30,
        TokenModel::MapKeys => 31,
        TokenModel::MapValues => 32,
        TokenModel::Consumed => 33,
    }
}

impl Token {
    /// The position of the token's variant (see [`token_tag`]).
    pub fn tag(&self) -> (r: u8)
        ensures
            r as nat == token_tag(self@),
    {
        match self {
            Token::Identifier(_) => 0,
            Token::And => 1,
            Token::Or => 2,
            Token::Eq => 3,
            Token::Ne => 4,
            Token::Gt => 5,
            Token::Lt => 6,
            Token::Gte => 7,
            Token::Lte => 8,
            Token::Contains => 9,
            Token::NotContains => 10,
            Token::StartsWith => 11,
            Token::EndsWith => 12,
            Token::NotStartsWith => 13,
            Token::NotEndsWith => 14,
            Token::AllOf => 15,
            Token::AnyOf => 16,
            Token::NotAllOf => 17,
            Token::NotAnyOf => 18,
            Token::Between => 19,
            Token::NotBetween => 20,
            Token::CustomOp(_) => 21,
            Token::String(_) => 22,
            Token::Number(_) => 23,
            Token::Boolean(_) => 24,
            Token::Null => 25,
            Token::LeftParen => 26,
            Token::RightParen => 27,
            Token::LeftBracket => 28,
            Token::RightBracket => 29,
            Token::Comma => 30,
            Token::MapKeys => 31,
            Token::MapValues => 32,
            Token::Consumed => 33,
        }
    }

    /// A copy of the token.
    pub fn duplicate(&self) -> (r: Token)
        ensures
            r@ == self@,
    {
        match self {
            Token::Identifier(x) => Token::Identifier(x.clone()),
            Token::And => Token::And,
            Token::Or => Token::Or,
            Token::Eq => Token::Eq,
            Token::Ne => Token::Ne,
            Token::Gt => Token::Gt,
            Token::Lt => Token::Lt,
            Token::Gte => Token::Gte,
            Token::Lte => Token::Lte,
            Token::Contains => Token::Contains,
            Token::NotContains => Token::NotContains,
            Token::StartsWith => Token::StartsWith,
            Token::EndsWith => Token::EndsWith,
            Token::NotStartsWith => Token::NotStartsWith,
            Token::NotEndsWith => Token::NotEndsWith,
            Token::AllOf => Token::AllOf,
            Token::AnyOf => Token::AnyOf,
            Token::NotAllOf => Token::NotAllOf,
            Token::NotAnyOf => Token::NotAnyOf,
            Token::Between => Token::Between,
            Token::NotBetween => Token::NotBetween,
            Token::CustomOp(x) => Token::CustomOp(x.clone()),
            Token::String(x) => Token::String(x.clone()),
            Token::Number(x) => Token::Number(x.clone()),
            Token::Boolean(b) => Token::Boolean(*b),
            Token::Null => Token::Null,
            Token::LeftParen => Token::LeftParen,
            Token::RightParen => Token::RightParen,
            Token::LeftBracket => Token::LeftBracket,
            Token::RightBracket => Token::RightBracket,
            Token::Comma => Token::Comma,
            Token::MapKeys => Token::MapKeys,
            Token::MapValues => Token::MapValues,
            Token::Consumed => Token::Consumed,
        }
    }
}

/// Two tokens of which the second carries no data have the same variant
/// exactly when they are equal.
pub proof fn lemma_tag_eq(a: TokenModel, b: TokenModel)
    requires
        b is And || b is Or || b is LeftParen || b is RightParen || b is LeftBracket
            || b is RightBracket || b is Comma,
    ensures
        (token_tag(a) == token_tag(b)) == (a == b),
{
}

} // verus!
