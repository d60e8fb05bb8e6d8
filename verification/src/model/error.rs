//! The error taxonomy.
//!
//! One error type, [`AppError`], crosses layers, and it distinguishes what the
//! user can act on. [`ParseError`] is the rule-language error, carrying a byte
//! offset so the interface can put a caret under the offending token.

use vstd::prelude::*;
use crate::model::access::AccessState;
use crate::text::{decimal_chars, decimal_string};

verus! {

/// Why rule text could not be parsed.
#[derive(Debug, Clone, Copy, PartialEq, Eq, Structural, Hash)]
pub enum ParseErrorKind {
    /// The input is longer than the parser accepts.
    TooLong,
    /// Parentheses are nested deeper than the parser accepts.
    TooDeep,
    /// The input is empty, or has no content before a comment.
    Empty,
    /// A `"` string was not closed.
    UnterminatedString,
    /// A `\` escape inside a string is not one the rule language knows.
    InvalidEscape,
    /// A `(` was not closed.
    UnterminatedParameter,
    /// The input ended where more was required.
    UnexpectedEnd,
    /// A token appeared where it is not allowed.
    UnexpectedToken,
    /// The first word is not a valid target for this entry point.
    InvalidTarget,
    /// The word is not one of the nine attribute names.
    UnknownAttribute,
    /// The same attribute appears twice.
    DuplicateAttribute,
    /// A value has the wrong shape for its attribute.
    InvalidValue,
    /// The word is not a known condition.
    UnknownCondition,
    /// A condition's parameter is missing, unexpected, or malformed.
    InvalidConditionParameter,
    /// A `{ … }` set holds more values than the parser accepts.
    TooManyValues,
}

impl ParseErrorKind {
    /// A short English description.
    pub fn describe(self) -> (r: &'static str)
        ensures
            r@ == self.description(),
    {
        match self {
            ParseErrorKind::TooLong => "the rule is too long",
            ParseErrorKind::TooDeep => "parentheses are nested too deeply",
            ParseErrorKind::Empty => "the rule is empty",
            ParseErrorKind::UnterminatedString => "a quoted string is not closed",
            ParseErrorKind::InvalidEscape => "invalid escape sequence in a quoted string",
            ParseErrorKind::UnterminatedParameter => "a parenthesis is not closed",
            ParseErrorKind::UnexpectedEnd => "the rule ends too early",
            ParseErrorKind::UnexpectedToken => "unexpected text",
            ParseErrorKind::InvalidTarget => "expected allow, block, or reject",
            ParseErrorKind::UnknownAttribute => "unknown attribute",
            ParseErrorKind::DuplicateAttribute => "the same attribute appears twice",
            ParseErrorKind::InvalidValue => "invalid value for this attribute",
            ParseErrorKind::UnknownCondition => "unknown condition",
            ParseErrorKind::InvalidConditionParameter => "invalid condition parameter",
            ParseErrorKind::TooManyValues => "too many values in one set",
        }
    }

    /// The description of each kind.
    pub open spec fn description(self) -> Seq<char> {
        match self {
            ParseErrorKind::TooLong => "the rule is too long"@,
            ParseErrorKind::TooDeep => "parentheses are nested too deeply"@,
            ParseErrorKind::Empty => "the rule is empty"@,
            ParseErrorKind::UnterminatedString => "a quoted string is not closed"@,
            ParseErrorKind::InvalidEscape => "invalid escape sequence in a quoted string"@,
            ParseErrorKind::UnterminatedParameter => "a parenthesis is not closed"@,
            ParseErrorKind::UnexpectedEnd => "the rule ends too early"@,
            ParseErrorKind::UnexpectedToken => "unexpected text"@,
            ParseErrorKind::InvalidTarget => "expected allow, block, or reject"@,
            ParseErrorKind::UnknownAttribute => "unknown attribute"@,
            ParseErrorKind::DuplicateAttribute => "the same attribute appears twice"@,
            ParseErrorKind::InvalidValue => "invalid value for this attribute"@,
            ParseErrorKind::UnknownCondition => "unknown condition"@,
            ParseErrorKind::InvalidConditionParameter => "invalid condition parameter"@,
            ParseErrorKind::TooManyValues => "too many values in one set"@,
        }
    }
}

/// A rule-language error with its position.
#[derive(Debug, Clone, Copy, PartialEq, Eq, Structural, Hash)]
pub struct ParseError {
    /// What went wrong.
    pub kind: ParseErrorKind,
    /// Byte offset into the input, for caret placement.
    pub offset: usize,
}

/// The error of the given kind at the given offset.
pub open spec fn perr(kind: ParseErrorKind, offset: int) -> ParseError {
    ParseError { kind, offset: offset as usize }
}

impl ParseError {
    /// Builds an error.
    pub fn new(kind: ParseErrorKind, offset: usize) -> (r: Self)
        ensures
            r.kind == kind,
            r.offset == offset,
    {
        ParseError { kind, offset }
    }

    /// The error as `Display` shows it: the description, then the offset.
    pub open spec fn spec_text(self) -> Seq<char> {
        self.kind.description() + " at byte "@ + decimal_chars(self.offset as nat)
    }

    /// The error as `Display` shows it.
    pub fn to_string(&self) -> (r: String)
        ensures
            r@ == self.spec_text(),
    {
        let mut s = String::from_str(self.kind.describe());
        s.append(" at byte ");
        let n = decimal_string(self.offset as u128);
        s.append(n.as_str());
        s
    }
}

/// The one error type that crosses layers.
#[derive(Debug, Clone, PartialEq, Eq)]
pub enum AppError {
    /// One of the three checkpoints refused. Reopens the diagnostic panel.
    Denied(AccessState),
    /// The bus or the bridge cannot be reached.
    Unreachable(String),
    /// The daemon understood the request and refused it.
    Rejected(String),
    /// Local validation failed before anything was sent.
    Parse(ParseError),
    /// The user cancelled the operation. The daemon may still have acted.
    Cancelled,
    /// The ruleset changed underneath the operation: re-read, don't retry.
    Stale,
}

impl AppError {
    /// The error as `Display` shows it.
    pub open spec fn spec_text(&self) -> Seq<char> {
        match self {
            AppError::Denied(state) => "access denied: "@ + state.spec_text(),
            AppError::Unreachable(s) => "the daemon is unreachable: "@ + s@,
            AppError::Rejected(s) => "the daemon rejected the request: "@ + s@,
            AppError::Parse(e) => "could not parse the rule language: "@ + e.spec_text(),
            AppError::Cancelled => "the operation was cancelled"@,
            AppError::Stale => "the ruleset changed underneath this operation"@,
        }
    }

    /// The error as `Display` shows it.
    pub fn to_string(&self) -> (r: String)
        ensures
            r@ == self.spec_text(),
    {
        match self {
            AppError::Denied(state) => {
                let mut s = String::from_str("access denied: ");
                let t = state.to_string();
                s.append(t.as_str());
                s
            },
            AppError::Unreachable(d) => {
                let mut s = String::from_str("the daemon is unreachable: ");
                s.append(d.as_str());
                s
            },
            AppError::Rejected(d) => {
                let mut s = String::from_str("the daemon rejected the request: ");
                s.append(d.as_str());
                s
            },
            AppError::Parse(e) => {
                let mut s = String::from_str("could not parse the rule language: ");
                let t = e.to_string();
                s.append(t.as_str());
                s
            },
            AppError::Cancelled => String::from_str("the operation was cancelled"),
            AppError::Stale => String::from_str("the ruleset changed underneath this operation"),
        }
    }

    /// A copy of the error.
    pub fn duplicate(&self) -> (r: Self)
        ensures
            r == *self,
    {
        match self {
            AppError::Denied(state) => AppError::Denied(state.duplicate()),
            AppError::Unreachable(d) => AppError::Unreachable(d.clone()),
            AppError::Rejected(d) => AppError::Rejected(d.clone()),
            AppError::Parse(e) => AppError::Parse(*e),
            AppError::Cancelled => AppError::Cancelled,
            AppError::Stale => AppError::Stale,
        }
    }
}

} // verus!
