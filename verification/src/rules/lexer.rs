//! Splits rule text into tokens.
//!
//! Operates on bytes, never on `char`s: a quoted string may carry `\xHH`
//! escapes for bytes that are not UTF-8, and the lexer must not care.

use vstd::prelude::*;
use crate::model::error::{perr, ParseError, ParseErrorKind};
use crate::text::{ascii_ws, hex_digit, hex_digit_value, is_ascii_ws, is_hex_digit, push_bytes};

verus! {

/// Deepest nesting of parentheses accepted inside a condition parameter.
/// `allowed-matches(…)` contains a query, which may itself contain conditions;
/// the bound is checked while scanning, before any recursion happens.
pub const MAX_PAREN_DEPTH: usize = 8;

/// One lexical unit.
#[derive(Debug, Clone, PartialEq, Eq)]
pub enum TokenKind {
    /// A bare word: keyword, `vendor:product`, `cc:ss:pp`, …
    Word(Vec<u8>),
    /// A quoted string, already unescaped.
    Str(Vec<u8>),
    /// `{`
    LBrace,
    /// `}`
    RBrace,
    /// `!`
    Bang,
    /// The raw text between a `(` and its matching `)`.
    Param(Vec<u8>),
    /// Everything after `#`, to the end of the input.
    Comment(Vec<u8>),
}

/// The mathematical value of a [`TokenKind`].
pub enum SpecTokenKind {
    /// A bare word.
    Word(Seq<u8>),
    /// A quoted string, unescaped.
    Str(Seq<u8>),
    /// `{`
    LBrace,
    /// `}`
    RBrace,
    /// `!`
    Bang,
    /// The text between parentheses.
    Param(Seq<u8>),
    /// The text after `#`.
    Comment(Seq<u8>),
}

impl View for TokenKind {
    type V = SpecTokenKind;

    open spec fn view(&self) -> SpecTokenKind {
        match self {
            TokenKind::Word(w) => SpecTokenKind::Word(w@),
            TokenKind::Str(s) => SpecTokenKind::Str(s@),
            TokenKind::LBrace => SpecTokenKind::LBrace,
            TokenKind::RBrace => SpecTokenKind::RBrace,
            TokenKind::Bang => SpecTokenKind::Bang,
            TokenKind::Param(p) => SpecTokenKind::Param(p@),
            TokenKind::Comment(c) => SpecTokenKind::Comment(c@),
        }
    }
}

/// A token and the byte offset where it starts.
#[derive(Debug, Clone, PartialEq, Eq)]
pub struct Token {
    /// What it is.
    pub kind: TokenKind,
    /// Where it starts.
    pub offset: usize,
}

/// The mathematical value of a [`Token`].
pub struct SpecToken {
    /// What it is.
    pub kind: SpecTokenKind,
    /// Where it starts.
    pub offset: int,
}

impl View for Token {
    type V = SpecToken;

    open spec fn view(&self) -> SpecToken {
        SpecToken { kind: self.kind@, offset: self.offset as int }
    }
}

/// The views of a sequence of tokens.
pub open spec fn tokens_view(v: Seq<Token>) -> Seq<SpecToken> {
    v.map_values(|t: Token| t@)
}

/// Bytes that end a bare word: ASCII whitespace and `{ } ( ) ! " #`.
pub open spec fn is_delimiter(b: u8) -> bool {
    is_ascii_ws(b) || b == 123 || b == 125 || b == 40 || b == 41 || b == 33 || b == 34 || b == 35
}

fn delimiter(b: u8) -> (r: bool)
    ensures
        r == is_delimiter(b),
{
    ascii_ws(b) || b == 123 || b == 125 || b == 40 || b == 41 || b == 33 || b == 34 || b == 35
}

/// The end of the bare word starting at `pos`: the first delimiter at or
/// after `pos`, or the end of the input.
pub open spec fn word_end(input: Seq<u8>, pos: int) -> int
    decreases input.len() - pos,
{
    if pos < 0 || pos >= input.len() {
        input.len() as int
    } else if is_delimiter(input[pos]) {
        pos
    } else {
        word_end(input, pos + 1)
    }
}

/// The byte a one-letter escape stands for: `\" \\ \' \? \a \b \f \n \r \t \v`.
pub open spec fn escape_byte(e: u8) -> Option<u8> {
    if e == 34 || e == 92 || e == 39 || e == 63 {
        Some(e)
    } else if e == 97 {
        Some(7u8)
    } else if e == 98 {
        Some(8u8)
    } else if e == 102 {
        Some(12u8)
    } else if e == 110 {
        Some(10u8)
    } else if e == 114 {
        Some(13u8)
    } else if e == 116 {
        Some(9u8)
    } else if e == 118 {
        Some(11u8)
    } else {
        None
    }
}

fn escape_byte_exec(e: u8) -> (r: Option<u8>)
    ensures
        r == escape_byte(e),
{
    if e == 34 || e == 92 || e == 39 || e == 63 {
        Some(e)
    } else if e == 97 {
        Some(7)
    } else if e == 98 {
        Some(8)
    } else if e == 102 {
        Some(12)
    } else if e == 110 {
        Some(10)
    } else if e == 114 {
        Some(13)
    } else if e == 116 {
        Some(9)
    } else if e == 118 {
        Some(11)
    } else {
        None
    }
}

/// Prepends a byte to a lexed string.
pub open spec fn str_cons(b: u8, r: Result<(Seq<u8>, int), ParseError>) -> Result<(Seq<u8>, int), ParseError> {
    match r {
        Ok((s, end)) => Ok((seq![b] + s, end)),
        Err(e) => Err(e),
    }
}

/// The content of the string opened at `start`, from `pos` on, unescaped,
/// and the offset just past the closing quote.
pub open spec fn lex_str_from(input: Seq<u8>, start: int, pos: int) -> Result<(Seq<u8>, int), ParseError>
    decreases input.len() - pos,
{
    if pos < 0 || pos >= input.len() {
        Err(perr(ParseErrorKind::UnterminatedString, start))
    } else if input[pos] == 34 {
        Ok((Seq::empty(), pos + 1))
    } else if input[pos] == 92 {
        if pos + 1 >= input.len() {
            Err(perr(ParseErrorKind::UnterminatedString, start))
        } else {
            let e = input[pos + 1];
            match escape_byte(e) {
                Some(b) => str_cons(b, lex_str_from(input, start, pos + 2)),
                None => if e == 120 && pos + 4 <= input.len() && is_hex_digit(input[pos + 2])
                    && is_hex_digit(input[pos + 3]) {
                    str_cons(
                        (hex_digit_value(input[pos + 2]) * 16 + hex_digit_value(input[pos + 3])) as u8,
                        lex_str_from(input, start, pos + 4),
                    )
                } else {
                    Err(perr(ParseErrorKind::InvalidEscape, pos))
                },
            }
        }
    } else {
        str_cons(input[pos], lex_str_from(input, start, pos + 1))
    }
}

/// The quoted string starting at `start` (which holds `"`): its unescaped
/// bytes and the offset just past the closing quote.
pub open spec fn lex_string(input: Seq<u8>, start: int) -> Result<(Seq<u8>, int), ParseError> {
    lex_str_from(input, start, start + 1)
}

/// A lexed string ends after where it started.
pub proof fn lemma_lex_str_end(input: Seq<u8>, start: int, pos: int)
    ensures
        lex_str_from(input, start, pos) matches Ok((s, end)) ==> pos < end <= input.len(),
    decreases input.len() - pos,
{
    if 0 <= pos < input.len() && input[pos] != 34 {
        if input[pos] == 92 {
            if pos + 1 < input.len() {
                lemma_lex_str_end(input, start, pos + 2);
                if pos + 4 <= input.len() {
                    lemma_lex_str_end(input, start, pos + 4);
                }
            }
        } else {
            lemma_lex_str_end(input, start, pos + 1);
        }
    }
}

/// A bare word ends at or after where it starts, inside the input.
pub proof fn lemma_word_end(input: Seq<u8>, pos: int)
    requires
        0 <= pos <= input.len(),
    ensures
        pos <= word_end(input, pos) <= input.len(),
        pos < input.len() && !is_delimiter(input[pos]) ==> pos < word_end(input, pos),
    decreases input.len() - pos,
{
    if pos < input.len() && !is_delimiter(input[pos]) {
        lemma_word_end(input, pos + 1);
    }
}

/// Scans for the `)` closing the `(` at `open`, from `pos` with `depth`
/// parentheses open, skipping quoted strings.
pub open spec fn closing_from(input: Seq<u8>, open: int, pos: int, depth: int) -> Result<int, ParseError>
    decreases input.len() - pos,
{
    if pos < 0 || pos >= input.len() {
        Err(perr(ParseErrorKind::UnterminatedParameter, open))
    } else if input[pos] == 40 {
        if depth + 1 > MAX_PAREN_DEPTH {
            Err(perr(ParseErrorKind::TooDeep, pos))
        } else {
            closing_from(input, open, pos + 1, depth + 1)
        }
    } else if input[pos] == 41 {
        if depth - 1 == 0 {
            Ok(pos)
        } else {
            closing_from(input, open, pos + 1, depth - 1)
        }
    } else if input[pos] == 34 {
        match lex_string(input, pos) {
            Err(e) => Err(e),
            Ok((_, end)) => {
                proof {
                    lemma_lex_str_end(input, pos, pos + 1);
                }
                closing_from(input, open, end, depth)
            },
        }
    } else {
        closing_from(input, open, pos + 1, depth)
    }
}

/// The `)` matching the `(` at `open`.
pub open spec fn closing_paren(input: Seq<u8>, open: int) -> Result<int, ParseError> {
    closing_from(input, open, open, 0)
}

/// The closing parenthesis lies after the scan position, inside the input.
pub proof fn lemma_closing_bounds(input: Seq<u8>, open: int, pos: int, depth: int)
    ensures
        closing_from(input, open, pos, depth) matches Ok(end) ==> pos <= end < input.len()
            && input[end] == 41,
    decreases input.len() - pos,
{
    if 0 <= pos < input.len() {
        if input[pos] == 40 {
            lemma_closing_bounds(input, open, pos + 1, depth + 1);
        } else if input[pos] == 41 {
            lemma_closing_bounds(input, open, pos + 1, depth - 1);
        } else if input[pos] == 34 {
            lemma_lex_str_end(input, pos, pos + 1);
            if let Ok((_, end)) = lex_string(input, pos) {
                lemma_closing_bounds(input, open, end, depth);
            }
        } else {
            lemma_closing_bounds(input, open, pos + 1, depth);
        }
    }
}

/// Prepends a token to a lexing result.
pub open spec fn tok_cons(t: SpecToken, r: Result<Seq<SpecToken>, ParseError>) -> Result<Seq<SpecToken>, ParseError> {
    match r {
        Ok(ts) => Ok(seq![t] + ts),
        Err(e) => Err(e),
    }
}

/// The token at `pos`.
pub open spec fn tok(kind: SpecTokenKind, pos: int) -> SpecToken {
    SpecToken { kind, offset: pos }
}

/// The tokens of `input` from `pos` on.
pub open spec fn lex_from(input: Seq<u8>, pos: int) -> Result<Seq<SpecToken>, ParseError>
    decreases input.len() - pos,
{
    if pos < 0 || pos >= input.len() {
        Ok(Seq::empty())
    } else {
        let b = input[pos];
        if is_ascii_ws(b) {
            lex_from(input, pos + 1)
        } else if b == 123 {
            tok_cons(tok(SpecTokenKind::LBrace, pos), lex_from(input, pos + 1))
        } else if b == 125 {
            tok_cons(tok(SpecTokenKind::RBrace, pos), lex_from(input, pos + 1))
        } else if b == 33 {
            tok_cons(tok(SpecTokenKind::Bang, pos), lex_from(input, pos + 1))
        } else if b == 35 {
            Ok(seq![tok(SpecTokenKind::Comment(input.subrange(pos + 1, input.len() as int)), pos)])
        } else if b == 34 {
            match lex_string(input, pos) {
                Err(e) => Err(e),
                Ok((s, end)) => {
                    proof {
                        lemma_lex_str_end(input, pos, pos + 1);
                    }
                    tok_cons(tok(SpecTokenKind::Str(s), pos), lex_from(input, end))
                },
            }
        } else if b == 40 {
            match closing_paren(input, pos) {
                Err(e) => Err(e),
                Ok(end) => {
                    proof {
                        lemma_closing_bounds(input, pos, pos, 0);
                    }
                    tok_cons(
                        tok(SpecTokenKind::Param(input.subrange(pos + 1, end)), pos),
                        lex_from(input, end + 1),
                    )
                },
            }
        } else if b == 41 {
            Err(perr(ParseErrorKind::UnexpectedToken, pos))
        } else {
            let end = word_end(input, pos);
            proof {
                lemma_word_end(input, pos);
            }
            tok_cons(tok(SpecTokenKind::Word(input.subrange(pos, end)), pos), lex_from(input, end))
        }
    }
}

/// The tokens of the whole input.
pub open spec fn lex(input: Seq<u8>) -> Result<Seq<SpecToken>, ParseError> {
    lex_from(input, 0)
}

/// A parameter token fits, with its parentheses, in `len` bytes.
pub open spec fn param_fits(k: SpecTokenKind, len: int) -> bool {
    match k {
        SpecTokenKind::Param(p) => p.len() + 2 <= len,
        _ => true,
    }
}

/// Tokens whose parameters lie strictly inside an input of `len` bytes.
pub open spec fn params_within(ts: Seq<SpecToken>, len: int) -> bool {
    forall|i: int| 0 <= i < ts.len() ==> param_fits((#[trigger] ts[i]).kind, len)
}

proof fn lemma_params_cons(t: SpecToken, r: Result<Seq<SpecToken>, ParseError>, len: int)
    requires
        param_fits(t.kind, len),
        r matches Ok(ts) ==> params_within(ts, len),
    ensures
        tok_cons(t, r) matches Ok(ts) ==> params_within(ts, len),
{
    if let Ok(ts) = r {
        let all = seq![t] + ts;
        assert forall|i: int| 0 <= i < all.len() implies param_fits((#[trigger] all[i]).kind, len) by {
            if i > 0 {
                assert(all[i] == ts[i - 1]);
            }
        }
    }
}

/// Parameters lie strictly inside the input: the parentheses around them are
/// part of it.
pub proof fn lemma_lex_params_within(input: Seq<u8>, pos: int)
    ensures
        lex_from(input, pos) matches Ok(ts) ==> params_within(ts, input.len() as int),
    decreases input.len() - pos,
{
    let len = input.len() as int;
    if 0 <= pos < input.len() {
        let b = input[pos];
        if is_ascii_ws(b) {
            lemma_lex_params_within(input, pos + 1);
        } else if b == 123 || b == 125 || b == 33 {
            lemma_lex_params_within(input, pos + 1);
            let k = if b == 123 {
                SpecTokenKind::LBrace
            } else if b == 125 {
                SpecTokenKind::RBrace
            } else {
                SpecTokenKind::Bang
            };
            lemma_params_cons(tok(k, pos), lex_from(input, pos + 1), len);
        } else if b == 35 {
            let ts = seq![tok(SpecTokenKind::Comment(input.subrange(pos + 1, len)), pos)];
            assert(params_within(ts, len));
        } else if b == 34 {
            lemma_lex_str_end(input, pos, pos + 1);
            if let Ok((s, end)) = lex_string(input, pos) {
                lemma_lex_params_within(input, end);
                lemma_params_cons(tok(SpecTokenKind::Str(s), pos), lex_from(input, end), len);
            }
        } else if b == 40 {
            lemma_closing_bounds(input, pos, pos, 0);
            if let Ok(end) = closing_paren(input, pos) {
                lemma_lex_params_within(input, end + 1);
                lemma_params_cons(
                    tok(SpecTokenKind::Param(input.subrange(pos + 1, end)), pos),
                    lex_from(input, end + 1),
                    len,
                );
            }
        } else if b != 41 {
            let end = word_end(input, pos);
            lemma_word_end(input, pos);
            lemma_lex_params_within(input, end);
            lemma_params_cons(tok(SpecTokenKind::Word(input.subrange(pos, end)), pos), lex_from(input, end), len);
        }
    }
}

fn copy_range(input: &[u8], start: usize, end: usize) -> (r: Vec<u8>)
    requires
        start <= end <= input@.len(),
    ensures
        r@ == input@.subrange(start as int, end as int),
{
    let mut v: Vec<u8> = Vec::new();
    push_bytes(&mut v, &input[start..end]);
    assert(v@ =~= input@.subrange(start as int, end as int));
    v
}

/// Tokenizes the whole input.
pub fn tokenize(input: &[u8]) -> (r: Result<Vec<Token>, ParseError>)
    ensures
        r matches Ok(ts) ==> lex(input@) == Ok::<Seq<SpecToken>, ParseError>(tokens_view(ts@)),
        r matches Err(e) ==> lex(input@) == Err::<Seq<SpecToken>, ParseError>(e),
{
    let mut tokens: Vec<Token> = Vec::new();
    let mut pos: usize = 0;
    while pos < input.len()
        invariant
            pos <= input@.len(),
            lex(input@) == tok_prefix(tokens_view(tokens@), lex_from(input@, pos as int)),
        decreases input@.len() - pos,
    {
        let start = pos;
        let b = input[pos];
        let ghost before = tokens_view(tokens@);
        if ascii_ws(b) {
            pos = pos + 1;
            continue;
        }
        let kind = if b == 123 {
            pos = pos + 1;
            TokenKind::LBrace
        } else if b == 125 {
            pos = pos + 1;
            TokenKind::RBrace
        } else if b == 33 {
            pos = pos + 1;
            TokenKind::Bang
        } else if b == 35 {
            pos = input.len();
            TokenKind::Comment(copy_range(input, start + 1, input.len()))
        } else if b == 34 {
            match lex_string_exec(input, start) {
                Ok((value, end)) => {
                    proof {
                        lemma_lex_str_end(input@, start as int, start + 1);
                    }
                    pos = end;
                    TokenKind::Str(value)
                },
                Err(e) => {
                    proof {
                        lemma_tok_prefix_err(before, e);
                    }
                    return Err(e);
                },
            }
        } else if b == 40 {
            match find_closing_paren(input, start) {
                Ok(end) => {
                    proof {
                        lemma_closing_bounds(input@, start as int, start as int, 0);
                    }
                    pos = end + 1;
                    TokenKind::Param(copy_range(input, start + 1, end))
                },
                Err(e) => {
                    proof {
                        lemma_tok_prefix_err(before, e);
                    }
                    return Err(e);
                },
            }
        } else if b == 41 {
            let e = ParseError::new(ParseErrorKind::UnexpectedToken, start);
            proof {
                lemma_tok_prefix_err(before, e);
            }
            return Err(e);
        } else {
            pos = pos + 1;
            while pos < input.len() && !delimiter(input[pos])
                invariant
                    start < pos <= input@.len(),
                    !is_delimiter(input@[start as int]),
                    word_end(input@, start as int) == word_end(input@, pos as int),
                decreases input@.len() - pos,
            {
                pos = pos + 1;
            }
            TokenKind::Word(copy_range(input, start, pos))
        };
        let t = Token { kind, offset: start };
        tokens.push(t);
        proof {
            assert(tokens_view(tokens@) =~= before + seq![t@]);
            lemma_tok_prefix_step(before, t@, lex_from(input@, pos as int));
        }
    }
    proof {
        assert(tokens_view(tokens@) + Seq::<SpecToken>::empty() =~= tokens_view(tokens@));
    }
    Ok(tokens)
}

/// A lexing result with `prefix` in front.
pub open spec fn tok_prefix(prefix: Seq<SpecToken>, r: Result<Seq<SpecToken>, ParseError>) -> Result<Seq<SpecToken>, ParseError> {
    match r {
        Ok(ts) => Ok(prefix + ts),
        Err(e) => Err(e),
    }
}

proof fn lemma_tok_prefix_step(prefix: Seq<SpecToken>, t: SpecToken, r: Result<Seq<SpecToken>, ParseError>)
    ensures
        tok_prefix(prefix, tok_cons(t, r)) == tok_prefix(prefix + seq![t], r),
{
    if let Ok(ts) = r {
        assert(prefix + (seq![t] + ts) =~= prefix + seq![t] + ts);
    }
}

proof fn lemma_tok_prefix_err(prefix: Seq<SpecToken>, e: ParseError)
    ensures
        tok_prefix(prefix, Err(e)) == Err::<Seq<SpecToken>, ParseError>(e),
{
}

/// A string result with `prefix` in front.
pub open spec fn str_prefix(prefix: Seq<u8>, r: Result<(Seq<u8>, int), ParseError>) -> Result<(Seq<u8>, int), ParseError> {
    match r {
        Ok((s, end)) => Ok((prefix + s, end)),
        Err(e) => Err(e),
    }
}

proof fn lemma_str_prefix_step(prefix: Seq<u8>, b: u8, r: Result<(Seq<u8>, int), ParseError>)
    ensures
        str_prefix(prefix, str_cons(b, r)) == str_prefix(prefix.push(b), r),
{
    if let Ok((s, end)) = r {
        assert(prefix + (seq![b] + s) =~= prefix.push(b) + s);
    }
}

/// Lexes a quoted string starting at `start` (which holds `"`). Returns the
/// unescaped bytes and the offset just past the closing quote.
pub fn lex_string_exec(input: &[u8], start: usize) -> (r: Result<(Vec<u8>, usize), ParseError>)
    requires
        start < input@.len(),
    ensures
        r matches Ok((v, end)) ==> lex_string(input@, start as int) == Ok::<(Seq<u8>, int), ParseError>((v@, end as int)),
        r matches Err(e) ==> lex_string(input@, start as int) == Err::<(Seq<u8>, int), ParseError>(e),
{
    let n = input.len();
    let mut out: Vec<u8> = Vec::new();
    let mut pos: usize = start + 1;
    loop
        invariant
            n == input@.len(),
            start < pos <= input@.len() + 1,
            pos <= input@.len() || pos == start + 1,
            lex_string(input@, start as int) == str_prefix(out@, lex_str_from(input@, start as int, pos as int)),
        decreases input@.len() + 1 - pos,
    {
        if pos >= input.len() {
            return Err(ParseError::new(ParseErrorKind::UnterminatedString, start));
        }
        let b = input[pos];
        if b == 34 {
            assert(out@ + Seq::<u8>::empty() =~= out@);
            return Ok((out, pos + 1));
        } else if b == 92 {
            let escape_at = pos;
            if pos + 1 >= input.len() {
                return Err(ParseError::new(ParseErrorKind::UnterminatedString, start));
            }
            let e = input[pos + 1];
            let ghost old_out = out@;
            match escape_byte_exec(e) {
                Some(x) => {
                    out.push(x);
                    pos = pos + 2;
                    proof {
                        lemma_str_prefix_step(old_out, x, lex_str_from(input@, start as int, pos as int));
                    }
                },
                None => {
                    if e == 120 && n - pos >= 4 {
                        match (hex_digit(input[pos + 2]), hex_digit(input[pos + 3])) {
                            (Some(hi), Some(lo)) => {
                                let x: u8 = hi * 16 + lo;
                                out.push(x);
                                pos = pos + 4;
                                proof {
                                    lemma_str_prefix_step(old_out, x, lex_str_from(input@, start as int, pos as int));
                                }
                            },
                            _ => {
                                return Err(ParseError::new(ParseErrorKind::InvalidEscape, escape_at));
                            },
                        }
                    } else {
                        return Err(ParseError::new(ParseErrorKind::InvalidEscape, escape_at));
                    }
                },
            }
        } else {
            let ghost old_out = out@;
            out.push(b);
            pos = pos + 1;
            proof {
                lemma_str_prefix_step(old_out, b, lex_str_from(input@, start as int, pos as int));
            }
        }
    }
}

/// Finds the `)` matching the `(` at `open`, skipping quoted strings and
/// counting nesting. Fails beyond [`MAX_PAREN_DEPTH`].
pub fn find_closing_paren(input: &[u8], open: usize) -> (r: Result<usize, ParseError>)
    requires
        open < input@.len(),
        input@[open as int] == 40,
    ensures
        r matches Ok(end) ==> closing_paren(input@, open as int) == Ok::<int, ParseError>(end as int),
        r matches Err(e) ==> closing_paren(input@, open as int) == Err::<int, ParseError>(e),
{
    let mut depth: usize = 0;
    let mut pos: usize = open;
    while pos < input.len()
        invariant
            open < input@.len(),
            input@[open as int] == 40,
            open <= pos <= input@.len(),
            depth <= MAX_PAREN_DEPTH,
            (pos == open && depth == 0) || depth >= 1,
            pos == open ==> depth == 0,
            closing_paren(input@, open as int) == closing_from(input@, open as int, pos as int, depth as int),
        decreases input@.len() - pos,
    {
        let b = input[pos];
        if b == 40 {
            depth = depth + 1;
            if depth > MAX_PAREN_DEPTH {
                return Err(ParseError::new(ParseErrorKind::TooDeep, pos));
            }
        } else if b == 41 {
            depth = depth - 1;
            if depth == 0 {
                return Ok(pos);
            }
        } else if b == 34 {
            match lex_string_exec(input, pos) {
                Ok((_, end)) => {
                    proof {
                        lemma_lex_str_end(input@, pos as int, pos + 1);
                    }
                    pos = end;
                    continue;
                },
                Err(e) => return Err(e),
            }
        }
        pos = pos + 1;
    }
    Err(ParseError::new(ParseErrorKind::UnterminatedParameter, open))
}

} // verus!
