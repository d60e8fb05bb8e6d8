//! The policy page's decisions, apart from its widgets: which parameter
//! change a selection asks for, which entry shows a value, and the texts of
//! a rule's row.

use vstd::prelude::*;
use crate::model::parameter::Parameter;
use crate::model::rule::{AttributeName, RuleHandle};
use crate::rules::grammar::{parse_spec, Mode};
use crate::rules::parse_rule;
use vstd::utf8::*;
use crate::text::{decimal_chars, decimal_string, str_eq};
use crate::text::utf8_lossy;

verus! {

/// What a parameter means, shown under its name.
pub open spec fn spec_describe(parameter: Parameter) -> Seq<char> {
    match parameter {
        Parameter::ImplicitPolicyTarget => "What happens to a device that matches no rule"@,
        Parameter::InsertedDevicePolicy => "What happens to a device plugged in while USBGuard runs"@,
    }
}

/// What a parameter means, shown under its name.
pub fn describe(parameter: Parameter) -> (r: &'static str)
    ensures
        r@ == spec_describe(parameter),
{
    match parameter {
        Parameter::ImplicitPolicyTarget => "What happens to a device that matches no rule",
        Parameter::InsertedDevicePolicy => "What happens to a device plugged in while USBGuard runs",
    }
}

/// The first position of `value` among `values`, from `i` on.
pub open spec fn position_from(values: Seq<Seq<char>>, value: Seq<char>, i: int) -> Option<int>
    decreases values.len() - i,
{
    if i < 0 || i >= values.len() {
        None
    } else if values[i] == value {
        Some(i)
    } else {
        position_from(values, value, i + 1)
    }
}

/// The entry of a parameter's drop-down that shows `value`, if it is one
/// of the values the daemon accepts.
pub fn value_index(parameter: Parameter, value: &str) -> (r: Option<u32>)
    ensures
        r matches Some(k) ==> position_from(parameter.spec_allowed_values(), value@, 0) == Some(k as int),
        r is None ==> position_from(parameter.spec_allowed_values(), value@, 0) is None,
{
    let values = parameter.allowed_values();
    let ghost allowed = parameter.spec_allowed_values();
    let mut i: usize = 0;
    while i < values.len()
        invariant
            i <= values@.len(),
            allowed == parameter.spec_allowed_values(),
            values@.len() == allowed.len(),
            allowed.len() <= 3,
            forall|j: int| 0 <= j < values@.len() ==> (#[trigger] values@[j])@ == allowed[j],
            position_from(allowed, value@, 0) == position_from(allowed, value@, i as int),
        decreases values@.len() - i,
    {
        if str_eq(values[i], value) {
            assert(allowed[i as int] == value@);
            assert(position_from(allowed, value@, i as int) == Some(i as int));
            assert(i < 3);
            let k = i as u32;
            assert(k as int == i as int);
            return Some(k);
        }
        i = i + 1;
    }
    None
}

/// What choosing entry `selected` of a parameter's drop-down asks for: the
/// change from the last known value to the chosen one, when both are known
/// and they differ.
pub open spec fn spec_choice(parameter: Parameter, selected: u32, known: Option<Seq<char>>) -> Option<
    (Seq<char>, Seq<char>),
> {
    let values = parameter.spec_allowed_values();
    if (selected as int) < values.len() {
        match known {
            Some(old) => if values[selected as int] != old {
                Some((old, values[selected as int]))
            } else {
                None
            },
            None => None,
        }
    } else {
        None
    }
}

/// What choosing entry `selected` of a parameter's drop-down asks for: the
/// old and the new value of the change, if it asks for one.
pub fn choice(parameter: Parameter, selected: u32, known: Option<&str>) -> (r: Option<(String, String)>)
    ensures
        match spec_choice(
            parameter,
            selected,
            match known {
                Some(k) => Some(k@),
                None => None,
            },
        ) {
            Some((old, new)) => r matches Some((o, n)) && o@ == old && n@ == new,
            None => r is None,
        },
{
    let values = parameter.allowed_values();
    if (selected as usize) >= values.len() {
        return None;
    }
    let chosen = values[selected as usize];
    match known {
        Some(old) => {
            if str_eq(chosen, old) {
                None
            } else {
                Some((String::from_str(old), String::from_str(chosen)))
            }
        },
        None => None,
    }
}

/// The subtitle of a rule's row.
pub fn rule_label(rule: &RuleHandle) -> (r: Option<String>)
    ensures
        match parse_spec(encode_utf8(rule.text@), Mode::Rule) {
            Ok(spec) => match spec.string_value(AttributeName::Label) {
                Some(l) => r matches Some(s) && s@ == "label: "@ + utf8_lossy(l),
                None => r is None,
            },
            Err(_) => r is None,
        },
{
    match parse_rule(rule.text.as_str()) {
        Ok(parsed) => match parsed.string_value(AttributeName::Label) {
            Some(l) => {
                let mut s = String::from_str("label: ");
                let t = l.to_string_lossy();
                s.append(t.as_str());
                Some(s)
            },
            None => None,
        },
        Err(_) => None,
    }
}

/// The number in front of a rule's row: its position in evaluation order,
/// counted from one.
pub fn rule_number(rule: &RuleHandle) -> (r: String)
    ensures
        r@ == decimal_chars(rule.position as nat + 1) + "."@,
{
    let mut s = decimal_string(rule.position as u128 + 1);
    s.append(".");
    s
}

/// The tooltip of a rule's row.
pub fn rule_tooltip(rule: &RuleHandle) -> (r: String)
    ensures
        r@ == "Daemon rule id: "@ + decimal_chars(rule.id@ as nat),
{
    let mut s = String::from_str("Daemon rule id: ");
    let n = decimal_string(rule.id.get() as u128);
    s.append(n.as_str());
    s
}

} // verus!
