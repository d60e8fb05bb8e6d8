//! The USBGuard rule language: parser and renderer.
//!
//! Needed twice over: on read, because `listDevices` and `listRules` return
//! rule text and nothing more structured; on write, so an invalid rule is
//! rejected in the dialog, before any Polkit prompt.

pub mod builder;
pub mod grammar;
pub mod lexer;
pub mod params;
pub mod parser;
pub mod render;
pub mod roundtrip;
pub mod stability;

use vstd::prelude::*;
use vstd::utf8::*;
use crate::model::error::{perr, ParseError, ParseErrorKind};
use crate::model::device::{device_of, Device};
use crate::model::ids::DeviceId;
use crate::model::rule::{Rule, SpecRule};
use crate::rules::grammar::{parse_spec, Mode};
use crate::rules::render::render;
use crate::text::str_bytes;

verus! {

/// Parses policy text: the target must be `allow`, `block`, or `reject`.
///
/// On error, the [`ParseError`] carries the byte offset of the offending
/// token.
pub fn parse_rule(input: &str) -> (r: Result<Rule, ParseError>)
    ensures
        r matches Ok(rule) ==> parse_spec(str_bytes(input), Mode::Rule) == Ok::<SpecRule, ParseError>(rule@),
        r matches Err(e) ==> parse_spec(str_bytes(input), Mode::Rule) == Err::<SpecRule, ParseError>(e),
{
    parser::parse(input.as_bytes(), Mode::Rule)
}

/// Parses a partial rule — one with no target, as some `usbguard` CLI
/// subcommands produce.
pub fn parse_partial(input: &str) -> (r: Result<Rule, ParseError>)
    ensures
        r matches Ok(rule) ==> parse_spec(str_bytes(input), Mode::Partial) == Ok::<SpecRule, ParseError>(rule@),
        r matches Err(e) ==> parse_spec(str_bytes(input), Mode::Partial) == Err::<SpecRule, ParseError>(e),
{
    parser::parse(input.as_bytes(), Mode::Partial)
}

/// Parses query text, which additionally accepts `match` as a target.
pub fn parse_query(input: &str) -> (r: Result<Rule, ParseError>)
    ensures
        r matches Ok(rule) ==> parse_spec(str_bytes(input), Mode::Query) == Ok::<SpecRule, ParseError>(rule@),
        r matches Err(e) ==> parse_spec(str_bytes(input), Mode::Query) == Err::<SpecRule, ParseError>(e),
{
    parser::parse(input.as_bytes(), Mode::Query)
}

/// Renders a rule and verifies that the text parses back to the same rule:
/// a generator that produces text the parser rejects is a bug caught here
/// instead of by the daemon.
///
/// Returns the parse error if the rendered text does not parse, or
/// [`ParseErrorKind::InvalidValue`] at offset 0 if it parses to a different
/// rule.
pub fn render_checked(rule: &Rule) -> (r: Result<String, ParseError>)
    ensures
        r is Ok <==> parse_spec(render(rule@), Mode::Query) == Ok::<SpecRule, ParseError>(rule@),
        r matches Ok(text) ==> encode_utf8(text@) == render(rule@),
        r matches Err(e) ==> match parse_spec(render(rule@), Mode::Query) {
            Ok(_) => e == perr(ParseErrorKind::InvalidValue, 0),
            Err(e2) => e == e2,
        },
{
    let text = rule.to_string();
    let reparsed = match parser::parse(text.as_str().as_bytes(), Mode::Query) {
        Ok(r) => r,
        Err(e) => return Err(e),
    };
    if reparsed.same_as(rule) {
        Ok(text)
    } else {
        Err(ParseError::new(ParseErrorKind::InvalidValue, 0))
    }
}

/// Builds a [`Device`] from one `listDevices` entry. Never fails: rule text
/// the parser rejects still yields a row, with the raw text preserved.
pub fn parse_device(id: DeviceId, rule_text: String) -> (r: Device)
    ensures
        r@ == device_of(id@, rule_text@, parse_spec(encode_utf8(rule_text@), Mode::Rule)),
        r@.id == id@,
        r@.rule_text == rule_text@,
{
    let parsed = parse_rule(rule_text.as_str());
    match parsed {
        Ok(rule) => Device::from_parsed(id, rule_text, Ok(&rule)),
        Err(e) => Device::from_parsed(id, rule_text, Err(e)),
    }
}

} // verus!

