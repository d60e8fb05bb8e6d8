//! The decisions of the typed client: turning `listRules` output into
//! handles, resolving a rule by its text, and what each operation sends.
//!
//! Rule ids are volatile, so a rule's text is its identity: an id is
//! re-resolved from the text immediately before every use. The calls
//! themselves are made by the program around this library.

use vstd::prelude::*;
use vstd::utf8::*;
use crate::model::error::{AppError, ParseError, ParseErrorKind};
use crate::model::ids::{RuleId, APPEND_LAST_RAW};
use crate::model::rule::{RemoveOutcome, Rule, RuleHandle, RuleTarget, SpecRule};
use crate::model::target::Persistence;
use crate::rules::grammar::{lemma_policy_reading, parse_spec, Mode};
use crate::rules::render::render;
use crate::rules::{parse_rule, render_checked};
use crate::text::str_eq;

verus! {

/// Query matching every device.
pub const QUERY_ALL_DEVICES: &'static str = "match";

/// Label filter matching every rule. `listRules` takes a *label*, and the
/// empty string disables the filter.
pub const LABEL_ALL_RULES: &'static str = "";

/// The handles `listRules` output becomes: each entry with its position.
pub open spec fn handles_of(raw: Seq<(u32, Seq<char>)>) -> Seq<(u32, Seq<char>, usize)> {
    Seq::new(raw.len(), |i: int| (raw[i].0, raw[i].1, i as usize))
}

/// The views of some handles.
pub open spec fn handle_views(hs: Seq<RuleHandle>) -> Seq<(u32, Seq<char>, usize)> {
    hs.map_values(|h: RuleHandle| h@)
}

/// Converts `listRules` output into handles, recording evaluation positions.
pub fn to_handles(raw: Vec<(u32, String)>) -> (r: Vec<RuleHandle>)
    ensures
        handle_views(r@) == handles_of(raw@.map_values(|e: (u32, String)| (e.0, e.1@))),
{
    let ghost want = handles_of(raw@.map_values(|e: (u32, String)| (e.0, e.1@)));
    let mut out: Vec<RuleHandle> = Vec::new();
    let mut i: usize = 0;
    while i < raw.len()
        invariant
            i <= raw@.len(),
            want == handles_of(raw@.map_values(|e: (u32, String)| (e.0, e.1@))),
            handle_views(out@) == want.subrange(0, i as int),
        decreases raw@.len() - i,
    {
        let h = RuleHandle { id: RuleId::new(raw[i].0), text: raw[i].1.clone(), position: i };
        assert(h@ == want[i as int]);
        let ghost prev = out@;
        out.push(h);
        assert(handle_views(out@) =~= handle_views(prev).push(want[i as int]));
        i = i + 1;
        assert(handle_views(out@) =~= want.subrange(0, i as int));
    }
    assert(want.subrange(0, raw@.len() as int) =~= want);
    out
}

/// The handles whose text is `t`, in order.
pub open spec fn with_text(hs: Seq<(u32, Seq<char>, usize)>, t: Seq<char>) -> Seq<(u32, Seq<char>, usize)>
    decreases hs.len(),
{
    if hs.len() == 0 {
        Seq::empty()
    } else {
        let before = with_text(hs.drop_last(), t);
        if hs.last().1 == t {
            before.push(hs.last())
        } else {
            before
        }
    }
}

/// What a rule text resolves to in the current ruleset.
#[derive(Debug, Clone, PartialEq, Eq)]
pub enum Resolution {
    /// No rule has this text any more.
    Gone,
    /// Exactly one rule has it.
    Unique(RuleId),
    /// Several rules have it; each with its current position.
    Ambiguous(Vec<RuleHandle>),
}

/// `r` is the resolution of a text whose matching handles are `m`.
pub open spec fn resolves_to(m: Seq<(u32, Seq<char>, usize)>, r: Resolution) -> bool {
    if m.len() == 0 {
        r is Gone
    } else if m.len() == 1 {
        r matches Resolution::Unique(id) && id@ == m[0].0
    } else {
        r matches Resolution::Ambiguous(c) && handle_views(c@) == m
    }
}

/// Resolves a rule text against the current ruleset.
pub fn resolve(current: &[RuleHandle], text: &str) -> (r: Resolution)
    ensures
        resolves_to(with_text(handle_views(current@), text@), r),
{
    let ghost hv = handle_views(current@);
    let mut matches: Vec<RuleHandle> = Vec::new();
    let mut i: usize = 0;
    while i < current.len()
        invariant
            i <= current@.len(),
            hv == handle_views(current@),
            handle_views(matches@) == with_text(hv.subrange(0, i as int), text@),
        decreases current@.len() - i,
    {
        proof {
            assert(hv.subrange(0, i + 1).drop_last() =~= hv.subrange(0, i as int));
            assert(hv.subrange(0, i + 1).last() == current@[i as int]@);
        }
        if str_eq(current[i].text.as_str(), text) {
            let h = current[i].duplicate();
            matches.push(h);
            assert(handle_views(matches@) =~= with_text(hv.subrange(0, i + 1), text@));
        }
        i = i + 1;
    }
    assert(hv.subrange(0, current@.len() as int) =~= hv);
    if matches.len() == 0 {
        Resolution::Gone
    } else if matches.len() == 1 {
        assert(handle_views(matches@)[0] == matches@[0]@);
        Resolution::Unique(matches[0].id)
    } else {
        Resolution::Ambiguous(matches)
    }
}

/// The first handle at `position`, if any.
pub open spec fn at_position(hs: Seq<(u32, Seq<char>, usize)>, position: usize) -> Option<(u32, Seq<char>, usize)>
    decreases hs.len(),
{
    if hs.len() == 0 {
        None
    } else if hs[0].2 == position {
        Some(hs[0])
    } else {
        at_position(hs.drop_first(), position)
    }
}

/// The parent id to append after, given the anchor rule's resolution: the
/// unique rule with its text, or among several the one still at its
/// position. `None` when the anchor is gone or cannot be told apart.
pub open spec fn anchor_id(m: Seq<(u32, Seq<char>, usize)>, position: usize) -> Option<u32> {
    if m.len() == 0 {
        None
    } else if m.len() == 1 {
        Some(m[0].0)
    } else {
        match at_position(m, position) {
            Some(h) => Some(h.0),
            None => None,
        }
    }
}

fn find_position(c: &Vec<RuleHandle>, position: usize) -> (r: Option<RuleId>)
    ensures
        r matches Some(id) ==> at_position(handle_views(c@), position) matches Some(h) && id@ == h.0,
        r is None ==> at_position(handle_views(c@), position) is None,
{
    let ghost hv = handle_views(c@);
    assert(hv.subrange(0, hv.len() as int) =~= hv);
    let mut i: usize = 0;
    while i < c.len()
        invariant
            i <= c@.len(),
            hv == handle_views(c@),
            at_position(hv, position) == at_position(hv.subrange(i as int, hv.len() as int), position),
        decreases c@.len() - i,
    {
        let ghost rest = hv.subrange(i as int, hv.len() as int);
        assert(rest[0] == c@[i as int]@);
        if c[i].position == position {
            return Some(c[i].id);
        }
        assert(rest.drop_first() =~= hv.subrange(i + 1, hv.len() as int));
        i = i + 1;
    }
    None
}

/// The id to pass as `parent` when appending after `after`, or at the end
/// when there is no anchor. The anchor is resolved against `current`, the
/// ruleset read immediately before the call, because its id may have changed
/// since it was read.
///
/// Fails with [`AppError::Stale`] if the anchor rule is gone or is no longer
/// uniquely identified by text and position.
pub fn anchor_parent(current: &[RuleHandle], after: Option<&RuleHandle>) -> (r: Result<RuleId, AppError>)
    ensures
        after is None ==> (r matches Ok(id) && id@ == APPEND_LAST_RAW),
        after matches Some(a) ==> match anchor_id(with_text(handle_views(current@), a.text@), a.position) {
            Some(id) => (r matches Ok(p) && p@ == id),
            None => (r matches Err(e) && e is Stale),
        },
{
    match after {
        None => Ok(RuleId::append_last()),
        Some(anchor) => {
            let res = resolve(current, anchor.text.as_str());
            match res {
                Resolution::Unique(id) => Ok(id),
                Resolution::Ambiguous(candidates) => match find_position(&candidates, anchor.position) {
                    Some(id) => Ok(id),
                    None => Err(AppError::Stale),
                },
                Resolution::Gone => Err(AppError::Stale),
            }
        },
    }
}

/// What a safe removal does, from the resolution of the rule's text: a
/// unique rule is removed by the id it has now; a gone rule was removed by
/// someone else; several candidates go back to the user.
pub enum RemovalPlan {
    /// Nothing to do: [`RemoveOutcome::AlreadyGone`].
    Done(RemoveOutcome),
    /// Remove the rule with this id, then report [`RemoveOutcome::Removed`].
    Remove(RuleId),
}

/// Plans the safe removal of a rule, from the ruleset read immediately
/// before: the rule's text is its identity.
pub fn plan_removal(current: &[RuleHandle], handle: &RuleHandle) -> (r: RemovalPlan)
    ensures
        ({
            let m = with_text(handle_views(current@), handle.text@);
            if m.len() == 0 {
                r matches RemovalPlan::Done(o) && o is AlreadyGone
            } else if m.len() == 1 {
                r matches RemovalPlan::Remove(id) && id@ == m[0].0
            } else {
                r matches RemovalPlan::Done(o) && o matches RemoveOutcome::Ambiguous { candidates } && handle_views(
                    candidates@,
                ) == m
            }
        }),
{
    match resolve(current, handle.text.as_str()) {
        Resolution::Gone => RemovalPlan::Done(RemoveOutcome::AlreadyGone),
        Resolution::Unique(id) => RemovalPlan::Remove(id),
        Resolution::Ambiguous(candidates) => RemovalPlan::Done(RemoveOutcome::Ambiguous { candidates }),
    }
}

/// The first handle equal to `h` in id, text and position.
pub open spec fn exact_match(hs: Seq<(u32, Seq<char>, usize)>, h: (u32, Seq<char>, usize)) -> bool {
    exists|i: int| 0 <= i < hs.len() && hs[i] == h
}

/// The id of one specific candidate chosen by the user, if the ruleset read
/// immediately before still holds it at the same position with the same text
/// and id. Fails with [`AppError::Stale`] otherwise: nothing is removed.
pub fn candidate_still_there(current: &[RuleHandle], candidate: &RuleHandle) -> (r: Result<RuleId, AppError>)
    ensures
        r matches Ok(id) ==> id == candidate.id && exact_match(handle_views(current@), candidate@),
        r matches Err(e) ==> e is Stale && !exact_match(handle_views(current@), candidate@),
{
    let ghost hv = handle_views(current@);
    let mut i: usize = 0;
    while i < current.len()
        invariant
            i <= current@.len(),
            hv == handle_views(current@),
            forall|j: int| 0 <= j < i ==> hv[j] != candidate@,
        decreases current@.len() - i,
    {
        let h = &current[i];
        assert(hv[i as int] == current@[i as int]@);
        if h.position == candidate.position && h.text == candidate.text && h.id.get() == candidate.id.get() {
            proof {
                crate::model::ids::RuleId::lemma_view_injective(h.id, candidate.id);
            }
            return Ok(h.id);
        }
        i = i + 1;
    }
    Err(AppError::Stale)
}

/// The id `applyDevicePolicy` returns names a rule only for a permanent
/// change.
pub fn policy_rule_id(persistence: Persistence, raw: u32) -> (r: Option<RuleId>)
    ensures
        persistence is Permanent ==> (r matches Some(id) && id@ == raw),
        persistence is RuntimeOnly ==> r is None,
{
    if persistence.as_permanent() {
        Some(RuleId::new(raw))
    } else {
        None
    }
}

/// Why a rule without a target is not appended: only a policy rule can be.
pub const NO_POLICY_TARGET: &'static str = "a rule needs a policy target: allow, block or reject";

/// The text `appendRule` sends for a rule: rendered and re-parsed locally
/// first, so a rule the parser rejects never reaches the daemon and never
/// raises a Polkit prompt. A policy rule needs `allow`, `block` or `reject`;
/// `match` and partial rules are query syntax only.
///
/// Fails with [`AppError::Parse`] if the rule does not survive its own round
/// trip, or if it is a `match` rule (an invalid target for a policy rule),
/// and with [`AppError::Rejected`] for a rule without a target.
pub fn append_text(rule: &Rule) -> (r: Result<String, AppError>)
    ensures
        parse_spec(render(rule@), Mode::Query) != Ok::<SpecRule, ParseError>(rule@) ==> (r matches Err(
            AppError::Parse(e),
        ) && match parse_spec(render(rule@), Mode::Query) {
            Ok(_) => e.kind == ParseErrorKind::InvalidValue && e.offset == 0,
            Err(e2) => e == e2,
        }),
        parse_spec(render(rule@), Mode::Query) == Ok::<SpecRule, ParseError>(rule@) ==> match rule@.target {
            None => r matches Err(AppError::Rejected(m)) && m@ == NO_POLICY_TARGET@,
            Some(RuleTarget::Match) => r matches Err(AppError::Parse(e)) && e.kind == ParseErrorKind::InvalidTarget,
            Some(_) => r matches Ok(text) && encode_utf8(text@) == render(rule@),
        },
{
    let text = match render_checked(rule) {
        Ok(t) => t,
        Err(e) => return Err(AppError::Parse(e)),
    };
    if rule.target.is_none() {
        return Err(AppError::Rejected(String::from_str(NO_POLICY_TARGET)));
    }
    proof {
        lemma_policy_reading(render(rule@), rule@);
    }
    match parse_rule(text.as_str()) {
        Ok(_) => Ok(text),
        Err(e) => Err(AppError::Parse(e)),
    }
}

} // verus!
