//! The window's messages before translation, and filling the placeholders
//! of translated messages.
//!
//! Each message is chosen here by its untranslated text, which is the key a
//! catalogue translates. Translations keep the `{name}` placeholders of a
//! message, so a language can move them wherever its grammar needs them.

use vstd::prelude::*;
use vstd::string::StrSliceExecFns;
use crate::model::access::AccessState;
use crate::model::error::{AppError, ParseErrorKind};
use crate::model::rule::AttributeName;
use crate::rules::builder::FieldErrorKind;
use crate::text::{chars_of, matches_at};

verus! {

/// Every non-overlapping occurrence of `p` in `t`, from left to right,
/// replaced by `r`, as `str::replace` does for a pattern that is not empty.
pub open spec fn replace_all(t: Seq<char>, p: Seq<char>, r: Seq<char>) -> Seq<char>
    decreases t.len(),
{
    if p.len() == 0 || t.len() < p.len() {
        t
    } else if t.subrange(0, p.len() as int) == p {
        r + replace_all(t.subrange(p.len() as int, t.len() as int), p, r)
    } else {
        seq![t[0]] + replace_all(t.drop_first(), p, r)
    }
}

/// `str::replace` for a pattern that is not empty.
fn replace(text: &str, pattern: &str, with: &str) -> (r: String)
    requires
        pattern@.len() > 0,
    ensures
        r@ == replace_all(text@, pattern@, with@),
{
    let t = chars_of(text);
    let p = chars_of(pattern);
    let n = t.len();
    let plen = p.len();
    let mut out = String::new();
    let mut run: usize = 0;
    let mut i: usize = 0;
    assert(t@.subrange(0, n as int) =~= t@);
    assert(out@ + t@.subrange(0, 0) + replace_all(t@, p@, with@) =~= replace_all(t@, p@, with@));
    while plen <= n - i
        invariant
            n == t@.len(),
            t@ == text@,
            plen == p@.len(),
            p@ == pattern@,
            plen > 0,
            run <= i <= n,
            out@ + t@.subrange(run as int, i as int) + replace_all(t@.subrange(i as int, n as int), p@, with@)
                == replace_all(t@, p@, with@),
        decreases n - i,
    {
        let ghost rest = t@.subrange(i as int, n as int);
        if matches_at(&t, i, &p) {
            proof {
                assert(rest.subrange(0, plen as int) =~= t@.subrange(i as int, i + plen));
                assert(rest.subrange(plen as int, rest.len() as int) =~= t@.subrange(i + plen, n as int));
            }
            let piece = text.substring_char(run, i);
            out.append(piece);
            out.append(with);
            i = i + plen;
            run = i;
            proof {
                assert(t@.subrange(run as int, i as int) =~= Seq::<char>::empty());
            }
        } else {
            proof {
                assert(rest.subrange(0, plen as int) =~= t@.subrange(i as int, i + plen));
                assert(rest.drop_first() =~= t@.subrange(i + 1, n as int));
                assert(t@.subrange(run as int, i as int) + seq![rest[0]] =~= t@.subrange(run as int, i + 1));
            }
            i = i + 1;
        }
    }
    proof {
        assert(t@.subrange(run as int, i as int) + t@.subrange(i as int, n as int) =~= t@.subrange(run as int, n as int));
    }
    let tail = text.substring_char(run, n);
    out.append(tail);
    out
}

/// The placeholder for a key: the key in braces.
pub open spec fn placeholder(key: Seq<char>) -> Seq<char> {
    "{"@ + key + "}"@
}

/// A template with each placeholder replaced, in the order the values are
/// given.
pub open spec fn filled(template: Seq<char>, values: Seq<(Seq<char>, Seq<char>)>) -> Seq<char>
    decreases values.len(),
{
    if values.len() == 0 {
        template
    } else {
        replace_all(filled(template, values.drop_last()), placeholder(values.last().0), values.last().1)
    }
}

/// Replaces `{name}` placeholders. Translations keep the placeholders, so a
/// language can move them wherever its grammar needs them.
pub fn fill(template: &str, values: &[(&str, &str)]) -> (r: String)
    ensures
        r@ == filled(template@, values@.map_values(|kv: (&str, &str)| (kv.0@, kv.1@))),
{
    let ghost vs = values@.map_values(|kv: (&str, &str)| (kv.0@, kv.1@));
    let mut text = String::from_str(template);
    let mut i: usize = 0;
    assert(vs.subrange(0, 0) =~= Seq::<(Seq<char>, Seq<char>)>::empty());
    while i < values.len()
        invariant
            i <= values@.len(),
            vs == values@.map_values(|kv: (&str, &str)| (kv.0@, kv.1@)),
            text@ == filled(template@, vs.subrange(0, i as int)),
        decreases values@.len() - i,
    {
        let (key, value) = values[i];
        let mut pattern = String::from_str("{");
        pattern.append(key);
        pattern.append("}");
        proof {
            reveal_strlit("{");
        }
        let next = replace(text.as_str(), pattern.as_str(), value);
        proof {
            let sub = vs.subrange(0, i + 1);
            assert(sub.drop_last() =~= vs.subrange(0, i as int));
            assert(sub.last() == vs[i as int]);
        }
        text = next;
        i = i + 1;
    }
    assert(vs.subrange(0, values@.len() as int) =~= vs);
    text
}

/// One line describing an access state, for the header, the banner and the
/// diagnostics.
pub open spec fn spec_access_summary(state: AccessState) -> Seq<char> {
    match state {
        AccessState::Connected { .. } => "Connected"@,
        AccessState::BusUnavailable => "No system D-Bus in this session"@,
        AccessState::BridgeNotInstalled => "The USBGuard D-Bus bridge is not installed"@,
        AccessState::BridgeNotRunning { .. } => "The USBGuard D-Bus bridge is not running"@,
        AccessState::DeniedByBusPolicy => "Refused by the D-Bus bus policy"@,
        AccessState::DeniedByPolkit { .. } => "Refused by Polkit"@,
        AccessState::DeniedByIpcAcl => "Refused by USBGuard’s access control"@,
        AccessState::NoPolkitAgent => "No Polkit authentication agent is running"@,
        AccessState::DeniedUnattributed { .. } => "Access denied"@,
    }
}

/// One line describing an access state, before translation.
pub fn access_summary(state: &AccessState) -> (r: &'static str)
    ensures
        r@ == spec_access_summary(*state),
{
    match state {
        AccessState::Connected { .. } => "Connected",
        AccessState::BusUnavailable => "No system D-Bus in this session",
        AccessState::BridgeNotInstalled => "The USBGuard D-Bus bridge is not installed",
        AccessState::BridgeNotRunning { .. } => "The USBGuard D-Bus bridge is not running",
        AccessState::DeniedByBusPolicy => "Refused by the D-Bus bus policy",
        AccessState::DeniedByPolkit { .. } => "Refused by Polkit",
        AccessState::DeniedByIpcAcl => "Refused by USBGuard’s access control",
        AccessState::NoPolkitAgent => "No Polkit authentication agent is running",
        AccessState::DeniedUnattributed { .. } => "Access denied",
    }
}

/// What is wrong with rule text, for the new-rule dialog.
pub open spec fn spec_parse_error_message(kind: ParseErrorKind) -> Seq<char> {
    match kind {
        ParseErrorKind::TooLong => "The rule is too long"@,
        ParseErrorKind::TooDeep => "Parentheses are nested too deeply"@,
        ParseErrorKind::Empty => "The rule is empty"@,
        ParseErrorKind::UnterminatedString => "A quoted text is not closed"@,
        ParseErrorKind::InvalidEscape => "Invalid escape sequence in a quoted text"@,
        ParseErrorKind::UnterminatedParameter => "A parenthesis is not closed"@,
        ParseErrorKind::UnexpectedEnd => "The rule ends too early"@,
        ParseErrorKind::UnexpectedToken => "Unexpected text"@,
        ParseErrorKind::InvalidTarget => "Expected allow, block, or reject"@,
        ParseErrorKind::UnknownAttribute => "Unknown attribute"@,
        ParseErrorKind::DuplicateAttribute => "The same attribute appears twice"@,
        ParseErrorKind::InvalidValue => "Invalid value for this attribute"@,
        ParseErrorKind::UnknownCondition => "Unknown condition"@,
        ParseErrorKind::InvalidConditionParameter => "Invalid condition parameter"@,
        ParseErrorKind::TooManyValues => "Too many values in one set"@,
    }
}

/// What is wrong with rule text, before translation.
pub fn parse_error_message(kind: ParseErrorKind) -> (r: &'static str)
    ensures
        r@ == spec_parse_error_message(kind),
{
    match kind {
        ParseErrorKind::TooLong => "The rule is too long",
        ParseErrorKind::TooDeep => "Parentheses are nested too deeply",
        ParseErrorKind::Empty => "The rule is empty",
        ParseErrorKind::UnterminatedString => "A quoted text is not closed",
        ParseErrorKind::InvalidEscape => "Invalid escape sequence in a quoted text",
        ParseErrorKind::UnterminatedParameter => "A parenthesis is not closed",
        ParseErrorKind::UnexpectedEnd => "The rule ends too early",
        ParseErrorKind::UnexpectedToken => "Unexpected text",
        ParseErrorKind::InvalidTarget => "Expected allow, block, or reject",
        ParseErrorKind::UnknownAttribute => "Unknown attribute",
        ParseErrorKind::DuplicateAttribute => "The same attribute appears twice",
        ParseErrorKind::InvalidValue => "Invalid value for this attribute",
        ParseErrorKind::UnknownCondition => "Unknown condition",
        ParseErrorKind::InvalidConditionParameter => "Invalid condition parameter",
        ParseErrorKind::TooManyValues => "Too many values in one set",
    }
}

/// The expected shape of a value, for placeholders and error messages.
pub open spec fn spec_value_hint(name: AttributeName) -> Seq<char> {
    match name {
        AttributeName::Id => "vendor:product, e.g. 1234:5678 or 1234:*"@,
        AttributeName::WithInterface => "class:subclass:protocol, e.g. 08:06:50 or 03:*:*"@,
        AttributeName::ViaPort => "port, e.g. 1-2 or 1-2.3"@,
        AttributeName::Hash | AttributeName::ParentHash => "hash as shown by usbguard"@,
        _ => "text"@,
    }
}

/// The expected shape of a value, before translation.
pub fn value_hint(name: AttributeName) -> (r: &'static str)
    ensures
        r@ == spec_value_hint(name),
{
    match name {
        AttributeName::Id => "vendor:product, e.g. 1234:5678 or 1234:*",
        AttributeName::WithInterface => "class:subclass:protocol, e.g. 08:06:50 or 03:*:*",
        AttributeName::ViaPort => "port, e.g. 1-2 or 1-2.3",
        AttributeName::Hash | AttributeName::ParentHash => "hash as shown by usbguard",
        _ => "text",
    }
}

/// The message for an operation error, before translation. Its
/// placeholders are `{reason}` (the access summary of a denial) and
/// `{detail}`; a parse error is worded as for the new-rule dialog.
pub open spec fn spec_app_error_template(err: AppError) -> Seq<char> {
    match err {
        AppError::Denied(_) => "Not permitted: {reason}"@,
        AppError::Unreachable(_) => "USBGuard cannot be reached: {detail}"@,
        AppError::Rejected(_) => "USBGuard refused the request: {detail}"@,
        AppError::Parse(e) => spec_parse_error_message(e.kind),
        AppError::Cancelled => "The operation was cancelled"@,
        AppError::Stale => "The ruleset changed in the meantime"@,
    }
}

/// The message for an operation error, before translation.
pub fn app_error_template(err: &AppError) -> (r: &'static str)
    ensures
        r@ == spec_app_error_template(*err),
{
    match err {
        AppError::Denied(_) => "Not permitted: {reason}",
        AppError::Unreachable(_) => "USBGuard cannot be reached: {detail}",
        AppError::Rejected(_) => "USBGuard refused the request: {detail}",
        AppError::Parse(e) => parse_error_message(e.kind),
        AppError::Cancelled => "The operation was cancelled",
        AppError::Stale => "The ruleset changed in the meantime",
    }
}

/// The message for an invalid row of the guided form, before translation.
/// Its placeholders are `{attribute}`, `{value}` and `{shape}`.
pub open spec fn spec_field_error_template(kind: FieldErrorKind) -> Seq<char> {
    match kind {
        FieldErrorKind::Duplicate(_) => "“{attribute}” is already used above"@,
        FieldErrorKind::InvalidValue { .. } => "“{value}” is not valid here: expected {shape}"@,
        FieldErrorKind::Empty => "Enter at least one value"@,
        FieldErrorKind::SetOfText => "A set of text values needs the text mode, where each value is quoted separately"@,
    }
}

/// The message for an invalid row of the guided form, before translation.
pub fn field_error_template(kind: &FieldErrorKind) -> (r: &'static str)
    ensures
        r@ == spec_field_error_template(*kind),
{
    match kind {
        FieldErrorKind::Duplicate(_) => "“{attribute}” is already used above",
        FieldErrorKind::InvalidValue { .. } => "“{value}” is not valid here: expected {shape}",
        FieldErrorKind::Empty => "Enter at least one value",
        FieldErrorKind::SetOfText => "A set of text values needs the text mode, where each value is quoted separately",
    }
}

} // verus!
