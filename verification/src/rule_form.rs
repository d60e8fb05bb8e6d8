//! The new-rule dialog's decisions, apart from its widgets: the rule that
//! the guided form or the typed text makes, the canonical text it would be
//! sent as, and where in the ruleset it goes.
//!
//! An invalid rule never reaches the daemon: it is refused here, before any
//! request and so before any Polkit prompt.

use vstd::prelude::*;
use vstd::string::StrSliceExecFns;
use vstd::utf8::*;
use crate::model::error::{perr, ParseError, ParseErrorKind};
use crate::model::rule::{AttributeName, Rule, RuleHandle, RuleTarget, SetOperator, SpecRule};
use crate::presentation::{caret_message, caret_text};
use crate::rules::builder::{build_rule, built, FieldError, FieldInput};
use crate::rules::grammar::{parse_spec, Mode};
use crate::rules::render::render;
use crate::rules::{parse_rule, render_checked};
use crate::text::{decimal_chars, decimal_string, str_bytes};

verus! {

/// The target chosen in the form's drop-down: allow, block or reject, and
/// block when nothing valid is selected.
pub open spec fn spec_target_at(index: u32) -> RuleTarget {
    if index == 0 {
        RuleTarget::Allow
    } else if index == 2 {
        RuleTarget::Reject
    } else {
        RuleTarget::Block
    }
}

/// The target chosen in the form's drop-down.
pub fn target_at(index: u32) -> (r: RuleTarget)
    ensures
        r == spec_target_at(index),
{
    if index == 0 {
        RuleTarget::Allow
    } else if index == 2 {
        RuleTarget::Reject
    } else {
        RuleTarget::Block
    }
}

/// The attributes a row's drop-down offers, in order.
pub open spec fn attribute_choices() -> Seq<AttributeName> {
    seq![
        AttributeName::Id,
        AttributeName::Serial,
        AttributeName::Name,
        AttributeName::Hash,
        AttributeName::ParentHash,
        AttributeName::ViaPort,
        AttributeName::WithInterface,
        AttributeName::WithConnectType,
        AttributeName::Label,
    ]
}

/// The set operators a row's drop-down offers after "single value", in
/// order.
pub open spec fn operator_choices() -> Seq<SetOperator> {
    seq![
        SetOperator::AllOf,
        SetOperator::OneOf,
        SetOperator::NoneOf,
        SetOperator::Equals,
        SetOperator::EqualsOrdered,
        SetOperator::MatchAll,
    ]
}

/// The attribute chosen in a row's drop-down.
pub fn attribute_at(index: u32) -> (r: Option<AttributeName>)
    ensures
        (index as int) < attribute_choices().len() <==> r is Some,
        r matches Some(a) ==> a == attribute_choices()[index as int],
{
    let all = AttributeName::all();
    if (index as usize) < all.len() {
        Some(all[index as usize])
    } else {
        None
    }
}

/// The operator chosen in a row's drop-down: the first entry is "single
/// value".
pub fn operator_at(index: u32) -> (r: Option<SetOperator>)
    ensures
        index == 0 ==> r is None,
        index > 0 ==> (r is Some <==> (index as int) - 1 < operator_choices().len()),
        r matches Some(op) ==> op == operator_choices()[index - 1],
{
    if index == 0 {
        return None;
    }
    let all = SetOperator::all();
    if ((index - 1) as usize) < all.len() {
        Some(all[(index - 1) as usize])
    } else {
        None
    }
}

/// The rule the new one goes after: the position drop-down lists "at the
/// end" first, then the rules in evaluation order.
pub fn insert_after(rules: &[RuleHandle], position: u32) -> (r: Option<RuleHandle>)
    ensures
        position == 0 ==> r is None,
        position > 0 ==> (r is Some <==> (position as int) - 1 < rules@.len()),
        r matches Some(h) ==> h@ == rules@[position - 1]@,
{
    if position == 0 {
        return None;
    }
    let i = (position - 1) as usize;
    if i < rules.len() {
        Some(rules[i].duplicate())
    } else {
        None
    }
}

/// Why the dialog cannot add its rule.
#[derive(Debug)]
pub enum PreviewError {
    /// A row of the guided form is invalid.
    Field(FieldError),
    /// The typed text does not parse: the message, with a caret under the
    /// offending position.
    Text(String),
    /// The rule does not read back from its own text.
    Internal(ParseError),
}

/// How a rule's rendered text reads back: the rule itself, or why not.
pub open spec fn read_back(r: SpecRule) -> Result<(), ParseError> {
    match parse_spec(render(r), Mode::Query) {
        Ok(back) => if back == r {
            Ok(())
        } else {
            Err(perr(ParseErrorKind::InvalidValue, 0))
        },
        Err(e) => Err(e),
    }
}

/// The preview of rule `spec`: the rule and its canonical text when it reads
/// back from that text, else the error.
pub open spec fn previewed(r: Result<(Rule, String), PreviewError>, spec: SpecRule) -> bool {
    match read_back(spec) {
        Ok(()) => r matches Ok((rule, text)) && rule@ == spec && encode_utf8(text@) == render(spec),
        Err(e) => r matches Err(PreviewError::Internal(e2)) && e2 == e,
    }
}

fn checked(rule: Rule) -> (r: Result<(Rule, String), PreviewError>)
    ensures
        previewed(r, rule@),
{
    match render_checked(&rule) {
        Ok(text) => Ok((rule, text)),
        Err(e) => Err(PreviewError::Internal(e)),
    }
}

/// The rule the dialog would add, and the text it would be sent as: from
/// the guided form (`target` is the target drop-down's index) when `guided`,
/// else from the typed `text`.
pub fn preview(guided: bool, target: u32, fields: &[FieldInput], text: &str) -> (r: Result<
    (Rule, String),
    PreviewError,
>)
    ensures
        guided ==> match built(spec_target_at(target), fields@) {
            Err((row, kind)) => r matches Err(PreviewError::Field(e)) && e.row == row && e.kind@ == kind,
            Ok(spec) => previewed(r, spec),
        },
        !guided ==> match parse_spec(str_bytes(text), Mode::Rule) {
            Err(e) => r matches Err(PreviewError::Text(m)) && m@ == caret_text(text@, e),
            Ok(spec) => previewed(r, spec),
        },
{
    if guided {
        match build_rule(target_at(target), fields) {
            Ok(rule) => checked(rule),
            Err(e) => Err(PreviewError::Field(e)),
        }
    } else {
        match parse_rule(text) {
            Ok(rule) => checked(rule),
            Err(e) => Err(PreviewError::Text(caret_message(text, e))),
        }
    }
}

/// How many characters of a rule's text its position entry shows.
pub const SHOWN_CHARS: usize = 48;

/// A rule's text as its position entry shows it: cut after
/// [`SHOWN_CHARS`] characters, with an ellipsis when cut.
pub open spec fn shortened(t: Seq<char>) -> Seq<char> {
    if t.len() > SHOWN_CHARS {
        t.subrange(0, SHOWN_CHARS as int).push('…')
    } else {
        t
    }
}

/// The entry that places the new rule after rule `h`.
pub open spec fn position_label(h: (u32, Seq<char>, usize)) -> Seq<char> {
    "After "@ + decimal_chars(h.2 as nat + 1) + ". "@ + shortened(h.1)
}

/// The entries of the position drop-down: at the end, then after each rule,
/// in evaluation order.
pub fn position_labels(rules: &[RuleHandle]) -> (r: Vec<String>)
    ensures
        r@.len() == rules@.len() + 1,
        r@[0]@ == "At the end"@,
        forall|i: int| 0 <= i < rules@.len() ==> (#[trigger] r@[i + 1])@ == position_label(rules@[i]@),
{
    let mut out: Vec<String> = Vec::new();
    out.push(String::from_str("At the end"));
    let mut i: usize = 0;
    while i < rules.len()
        invariant
            i <= rules@.len(),
            out@.len() == i + 1,
            out@[0]@ == "At the end"@,
            forall|j: int| 0 <= j < i ==> (#[trigger] out@[j + 1])@ == position_label(rules@[j]@),
        decreases rules@.len() - i,
    {
        let r = &rules[i];
        let mut label = String::from_str("After ");
        let n = decimal_string(r.position as u128 + 1);
        label.append(n.as_str());
        label.append(". ");
        let text = r.text.as_str();
        if text.unicode_len() > SHOWN_CHARS {
            label.append(text.substring_char(0, SHOWN_CHARS));
            label.append("…");
            proof {
                reveal_strlit("…");
            }
        } else {
            label.append(text);
        }
        assert(label@ == position_label(r@));
        out.push(label);
        i = i + 1;
    }
    out
}

} // verus!
