//! What the parser makes of a token sequence, stated as recursive
//! functions over the token views.
//!
//! Each function takes the tokens, the position of the next unread token and
//! the input length (which is also the offset of errors at the end of the
//! input), and returns the value read with the position after it. The parser
//! in [`crate::rules::parser`] is proved to compute exactly these.

use vstd::prelude::*;
use crate::model::error::{perr, ParseError, ParseErrorKind};
use crate::model::ids::{InterfaceType, UsbId};
use crate::model::rule::{
    attr_index_from, AttributeName, ConditionName, RuleTarget, SetOperator, SpecAttribute,
    SpecClause, SpecCondition, SpecRule, SpecValue, SpecValues,
};
use crate::rules::lexer::{lex, SpecToken, SpecTokenKind};
use crate::rules::params::{is_duration, is_probability, is_time_range, trim_ascii, trim_end, trim_start};
use crate::text::{all_digits, decimal, is_digit, lemma_decimal_digits};

verus! {

/// Longest input accepted, in bytes. Real device rules are a few hundred bytes;
/// the bound exists so that a hostile input costs bounded memory and time.
pub const MAX_INPUT_LEN: usize = 65536;

/// Most values accepted in one `{ … }` set.
pub const MAX_SET_VALUES: usize = 4096;

/// Which targets an entry point accepts.
#[derive(Debug, Clone, Copy, PartialEq, Eq, Structural)]
pub enum Mode {
    /// Policy text: `allow | block | reject`, required.
    Rule,
    /// No target at all.
    Partial,
    /// Query text: any target including `match`, or none.
    Query,
}

/// The bytes of the keyword `if`.
pub open spec fn if_keyword() -> Seq<u8> {
    seq![105u8, 102u8]
}

/// The kind of the token at `pos`, if there is one.
pub open spec fn peek_kind(ts: Seq<SpecToken>, pos: int) -> Option<SpecTokenKind> {
    if 0 <= pos < ts.len() {
        Some(ts[pos].kind)
    } else {
        None
    }
}

/// The offset of the token at `pos`, or `end` past the last token.
pub open spec fn offset_at(ts: Seq<SpecToken>, pos: int, end: int) -> int {
    if 0 <= pos < ts.len() {
        ts[pos].offset
    } else {
        end
    }
}

/// Whether an entry point accepts a target.
pub open spec fn target_allowed(mode: Mode, target: Option<RuleTarget>) -> bool {
    match mode {
        Mode::Rule => target matches Some(t) && !(t is Match),
        Mode::Partial => target is None,
        Mode::Query => true,
    }
}

/// The optional target at `pos`.
pub open spec fn spec_target(ts: Seq<SpecToken>, pos: int, mode: Mode, end: int) -> Result<
    (Option<RuleTarget>, int),
    ParseError,
> {
    let target = match peek_kind(ts, pos) {
        Some(SpecTokenKind::Word(w)) => RuleTarget::spec_from_keyword(w),
        _ => None,
    };
    if !target_allowed(mode, target) {
        let kind = if peek_kind(ts, pos) is None {
            ParseErrorKind::Empty
        } else {
            ParseErrorKind::InvalidTarget
        };
        Err(perr(kind, offset_at(ts, pos, end)))
    } else if target is Some {
        Ok((target, pos + 1))
    } else {
        Ok((target, pos))
    }
}

/// One value of attribute `name`, which takes the token at `pos`.
pub open spec fn spec_value(ts: Seq<SpecToken>, pos: int, name: AttributeName, end: int) -> Result<
    SpecValue,
    ParseError,
> {
    if !(0 <= pos < ts.len()) {
        Err(perr(ParseErrorKind::UnexpectedEnd, end))
    } else {
        let invalid = perr(ParseErrorKind::InvalidValue, ts[pos].offset);
        match ts[pos].kind {
            SpecTokenKind::Word(w) => if name is Id {
                match UsbId::spec_parse(w) {
                    Some(id) => Ok(SpecValue::UsbId(id)),
                    None => Err(invalid),
                }
            } else if name is WithInterface {
                match InterfaceType::spec_parse(w) {
                    Some(i) => Ok(SpecValue::Interface(i)),
                    None => Err(invalid),
                }
            } else {
                Err(invalid)
            },
            SpecTokenKind::Str(s) => if name.is_string_valued() {
                Ok(SpecValue::Str(s))
            } else {
                Err(invalid)
            },
            _ => Err(invalid),
        }
    }
}

/// The values of a set from `pos` up to its `}`, after the values `acc`
/// already read, and the position after the `}`.
pub open spec fn spec_set_values(
    ts: Seq<SpecToken>,
    pos: int,
    name: AttributeName,
    acc: Seq<SpecValue>,
    end: int,
) -> Result<(Seq<SpecValue>, int), ParseError>
    decreases ts.len() - pos,
{
    if peek_kind(ts, pos) == Some(SpecTokenKind::RBrace) {
        Ok((acc, pos + 1))
    } else if acc.len() >= MAX_SET_VALUES {
        Err(perr(ParseErrorKind::TooManyValues, offset_at(ts, pos, end)))
    } else {
        match spec_value(ts, pos, name, end) {
            Err(e) => Err(e),
            Ok(v) => spec_set_values(ts, pos + 1, name, acc.push(v), end),
        }
    }
}

/// A `{` at `pos`: the position after it.
pub open spec fn expect_lbrace(ts: Seq<SpecToken>, pos: int, end: int) -> Result<int, ParseError> {
    if !(0 <= pos < ts.len()) {
        Err(perr(ParseErrorKind::UnexpectedEnd, end))
    } else if ts[pos].kind == SpecTokenKind::LBrace {
        Ok(pos + 1)
    } else {
        Err(perr(ParseErrorKind::UnexpectedToken, ts[pos].offset))
    }
}

/// A `{ … }` set of values of `name` starting at `pos`.
pub open spec fn spec_set(
    ts: Seq<SpecToken>,
    pos: int,
    name: AttributeName,
    operator: Option<SetOperator>,
    end: int,
) -> Result<(SpecValues, int), ParseError> {
    match expect_lbrace(ts, pos, end) {
        Err(e) => Err(e),
        Ok(p) => match spec_set_values(ts, p, name, Seq::empty(), end) {
            Err(e) => Err(e),
            Ok((values, p2)) => Ok((SpecValues::SetOf { operator, values }, p2)),
        },
    }
}

/// The value or values of attribute `name`, starting at `pos`.
pub open spec fn spec_attribute_values(ts: Seq<SpecToken>, pos: int, name: AttributeName, end: int) -> Result<
    (SpecValues, int),
    ParseError,
> {
    let single = match spec_value(ts, pos, name, end) {
        Err(e) => Err(e),
        Ok(v) => Ok((SpecValues::Single(v), pos + 1)),
    };
    match peek_kind(ts, pos) {
        Some(SpecTokenKind::LBrace) => spec_set(ts, pos, name, None, end),
        Some(SpecTokenKind::Word(w)) => match SetOperator::spec_from_keyword(w) {
            Some(op) => spec_set(ts, pos + 1, name, Some(op), end),
            None => single,
        },
        _ => single,
    }
}

/// The syntax of one condition at `pos`: whether it is negated, its name,
/// its parameter with the parameter's offset, and the position after it.
/// Whether the parameter suits the name is [`spec_cond_valid`]'s business.
pub open spec fn cond_syntax(ts: Seq<SpecToken>, pos: int, end: int) -> Result<
    (bool, ConditionName, Option<(Seq<u8>, int)>, int),
    ParseError,
> {
    let negated = peek_kind(ts, pos) == Some(SpecTokenKind::Bang);
    let p1 = if negated {
        pos + 1
    } else {
        pos
    };
    if !(0 <= p1 < ts.len()) {
        Err(perr(ParseErrorKind::UnexpectedEnd, end))
    } else {
        match ts[p1].kind {
            SpecTokenKind::Word(w) => match ConditionName::spec_from_keyword(w) {
                None => Err(perr(ParseErrorKind::UnknownCondition, ts[p1].offset)),
                Some(name) => match peek_kind(ts, p1 + 1) {
                    Some(SpecTokenKind::Param(p)) => Ok((negated, name, Some((p, ts[p1 + 1].offset)), p1 + 2)),
                    _ => Ok((negated, name, None, p1 + 1)),
                },
            },
            _ => Err(perr(ParseErrorKind::UnexpectedToken, ts[p1].offset)),
        }
    }
}

/// The condition built from its parts.
pub open spec fn make_condition(negated: bool, name: ConditionName, param: Option<(Seq<u8>, int)>) -> SpecCondition {
    SpecCondition {
        negated,
        name,
        parameter: match param {
            Some((p, _)) => Some(p),
            None => None,
        },
    }
}

/// Whether a parameter, or its absence, suits a condition other than
/// `allowed-matches`.
pub open spec fn param_shape_ok(name: ConditionName, param: Option<Seq<u8>>) -> bool {
    match param {
        None => !(name is LocalTime || name is AllowedMatches),
        Some(p) => match name {
            ConditionName::LocalTime => is_time_range(p),
            ConditionName::RuleApplied => is_duration(p),
            ConditionName::RuleEvaluated => is_duration(p),
            ConditionName::Random => is_probability(p),
            _ => false,
        },
    }
}

/// Checks that a condition's parameter is present when required, absent when
/// forbidden, and well-formed. The parameter of `allowed-matches` is a query,
/// parsed in turn; its errors are reported at the parameter's offset.
///
/// `len` is the length of the input the parameter was read from. A parameter
/// always lies inside the parentheses around it, so it is at least two bytes
/// shorter; the bound is what makes the nested parse a smaller problem.
pub open spec fn spec_cond_valid(len: int, name: ConditionName, param: Option<(Seq<u8>, int)>) -> Result<
    (),
    ParseError,
>
    decreases len, 0int, 0int,
{
    match param {
        Some((p, o)) => if name is AllowedMatches {
            if p.len() + 2 <= len {
                match parse_spec(p, Mode::Query) {
                    Ok(_) => Ok(()),
                    Err(_) => Err(perr(ParseErrorKind::InvalidConditionParameter, o)),
                }
            } else {
                Err(perr(ParseErrorKind::InvalidConditionParameter, o))
            }
        } else if param_shape_ok(name, Some(p)) {
            Ok(())
        } else {
            Err(perr(ParseErrorKind::InvalidConditionParameter, o))
        },
        None => if param_shape_ok(name, None) {
            Ok(())
        } else {
            Err(perr(ParseErrorKind::InvalidConditionParameter, 0))
        },
    }
}

/// The conditions of a `{ … }` condition set from `pos` up to its `}`,
/// after the conditions `acc` already read, and the position after the `}`.
pub open spec fn spec_cond_loop(len: int, ts: Seq<SpecToken>, pos: int, acc: Seq<SpecCondition>) -> Result<
    (Seq<SpecCondition>, int),
    ParseError,
>
    decreases len, ts.len() - pos, 6int,
{
    if peek_kind(ts, pos) == Some(SpecTokenKind::RBrace) {
        Ok((acc, pos + 1))
    } else if acc.len() >= MAX_SET_VALUES {
        Err(perr(ParseErrorKind::TooManyValues, offset_at(ts, pos, len)))
    } else {
        match cond_syntax(ts, pos, len) {
            Err(e) => Err(e),
            Ok((negated, name, param, p2)) => match spec_cond_valid(len, name, param) {
                Err(e) => Err(e),
                Ok(_) => spec_cond_loop(len, ts, p2, acc.push(make_condition(negated, name, param))),
            },
        }
    }
}

/// The `if` clause starting at `pos` (just after `if`).
pub open spec fn spec_clause(len: int, ts: Seq<SpecToken>, pos: int) -> Result<(SpecClause, int), ParseError>
    decreases len, ts.len() - pos, 7int,
{
    let operator = match peek_kind(ts, pos) {
        Some(SpecTokenKind::Word(w)) => SetOperator::spec_from_keyword(w),
        _ => None,
    };
    let p1 = if operator is Some {
        pos + 1
    } else {
        pos
    };
    if peek_kind(ts, p1) == Some(SpecTokenKind::LBrace) {
        match spec_cond_loop(len, ts, p1 + 1, Seq::empty()) {
            Err(e) => Err(e),
            Ok((conditions, p2)) => Ok((SpecClause::SetOf { operator, conditions }, p2)),
        }
    } else {
        let braced_ok = if operator is Some {
            expect_lbrace(ts, p1, len)
        } else {
            Ok(p1)
        };
        match braced_ok {
            Err(e) => Err(e),
            Ok(_) => match cond_syntax(ts, p1, len) {
                Err(e) => Err(e),
                Ok((negated, name, param, p2)) => match spec_cond_valid(len, name, param) {
                    Err(e) => Err(e),
                    Ok(_) => Ok((SpecClause::Single(make_condition(negated, name, param)), p2)),
                },
            },
        }
    }
}

/// The attributes from `pos` on, after the attributes `acc` already read,
/// up to an `if` clause (read too), a comment, or the end; with the clause
/// and the position after what was read.
pub open spec fn spec_attributes(len: int, ts: Seq<SpecToken>, pos: int, acc: Seq<SpecAttribute>) -> Result<
    (Seq<SpecAttribute>, Option<SpecClause>, int),
    ParseError,
>
    decreases len, ts.len() - pos, 8int,
{
    if !(0 <= pos < ts.len()) {
        Ok((acc, None, pos))
    } else {
        let offset = ts[pos].offset;
        match ts[pos].kind {
            SpecTokenKind::Word(w) => if w == if_keyword() {
                match spec_clause(len, ts, pos + 1) {
                    Err(e) => Err(e),
                    Ok((c, p2)) => Ok((acc, Some(c), p2)),
                }
            } else {
                match AttributeName::spec_from_keyword(w) {
                    None => Err(perr(ParseErrorKind::UnknownAttribute, offset)),
                    Some(name) => if attr_index_from(acc, name, 0) is Some {
                        Err(perr(ParseErrorKind::DuplicateAttribute, offset))
                    } else {
                        match spec_attribute_values(ts, pos + 1, name, len) {
                            Err(e) => Err(e),
                            Ok((values, p2)) => {
                                proof {
                                    lemma_attribute_values_pos(ts, pos + 1, name, len);
                                }
                                spec_attributes(len, ts, p2, acc.push(SpecAttribute { name, values }))
                            },
                        }
                    },
                }
            },
            SpecTokenKind::Comment(_) => Ok((acc, None, pos)),
            _ => Err(perr(ParseErrorKind::UnexpectedToken, offset)),
        }
    }
}

/// The optional comment at `pos`, which must be the last token.
pub open spec fn spec_comment(ts: Seq<SpecToken>, pos: int) -> Result<Option<Seq<u8>>, ParseError> {
    if 0 <= pos < ts.len() {
        match ts[pos].kind {
            SpecTokenKind::Comment(c) => Ok(Some(c)),
            _ => Err(perr(ParseErrorKind::UnexpectedToken, ts[pos].offset)),
        }
    } else {
        Ok(None)
    }
}

/// The rule a whole token sequence makes under `mode`.
pub open spec fn spec_rule_from(len: int, ts: Seq<SpecToken>, mode: Mode) -> Result<SpecRule, ParseError>
    decreases len, ts.len() + 1, 0int,
{
    match spec_target(ts, 0, mode, len) {
        Err(e) => Err(e),
        Ok((target, p1)) => match spec_attributes(len, ts, p1, Seq::empty()) {
            Err(e) => Err(e),
            Ok((attributes, condition, p2)) => match spec_comment(ts, p2) {
                Err(e) => Err(e),
                Ok(comment) => if target is None && attributes.len() == 0 && condition is None {
                    Err(perr(ParseErrorKind::Empty, 0))
                } else {
                    Ok(SpecRule { target, attributes, condition, comment })
                },
            },
        },
    }
}

/// What the parser makes of `input` under `mode`.
pub open spec fn parse_spec(input: Seq<u8>, mode: Mode) -> Result<SpecRule, ParseError>
    decreases input.len() + 1, 0int, 0int,
{
    if input.len() > MAX_INPUT_LEN {
        Err(perr(ParseErrorKind::TooLong, MAX_INPUT_LEN as int))
    } else {
        match lex(input) {
            Err(e) => Err(e),
            Ok(ts) => spec_rule_from(input.len() as int, ts, mode),
        }
    }
}

/// Reading a set consumes at least its `}`, and stays within the tokens.
pub proof fn lemma_set_values_pos(
    ts: Seq<SpecToken>,
    pos: int,
    name: AttributeName,
    acc: Seq<SpecValue>,
    end: int,
)
    ensures
        spec_set_values(ts, pos, name, acc, end) matches Ok((_, p2)) ==> pos < p2 <= ts.len(),
    decreases ts.len() - pos,
{
    if peek_kind(ts, pos) != Some(SpecTokenKind::RBrace) && acc.len() < MAX_SET_VALUES {
        if let Ok(v) = spec_value(ts, pos, name, end) {
            lemma_set_values_pos(ts, pos + 1, name, acc.push(v), end);
        }
    }
}

/// Reading attribute values consumes at least one token, and stays within
/// the tokens.
pub proof fn lemma_attribute_values_pos(ts: Seq<SpecToken>, pos: int, name: AttributeName, end: int)
    ensures
        spec_attribute_values(ts, pos, name, end) matches Ok((_, p2)) ==> pos < p2 <= ts.len(),
{
    if 0 <= pos && pos + 1 <= ts.len() {
        lemma_set_values_pos(ts, pos + 1, name, Seq::empty(), end);
    }
    if 0 <= pos && pos + 2 <= ts.len() {
        lemma_set_values_pos(ts, pos + 2, name, Seq::empty(), end);
    }
}

/// The policy entry point reads what the query entry point reads, when the
/// target is one a policy rule may have; a `match` rule it refuses as an
/// invalid target.
pub proof fn lemma_policy_reading(input: Seq<u8>, r: SpecRule)
    requires
        parse_spec(input, Mode::Query) == Ok::<SpecRule, ParseError>(r),
    ensures
        target_allowed(Mode::Rule, r.target) ==> parse_spec(input, Mode::Rule) == Ok::<SpecRule, ParseError>(r),
        r.target == Some(RuleTarget::Match) ==> (parse_spec(input, Mode::Rule) matches Err(e) && e.kind
            == ParseErrorKind::InvalidTarget),
{
    let ts = lex(input)->Ok_0;
    let len = input.len() as int;
    let (t, p1) = spec_target(ts, 0, Mode::Query, len)->Ok_0;
    assert(t == r.target);
    if target_allowed(Mode::Rule, r.target) {
        assert(spec_target(ts, 0, Mode::Rule, len) == spec_target(ts, 0, Mode::Query, len));
    }
    if r.target == Some(RuleTarget::Match) {
        assert(peek_kind(ts, 0) is Some);
    }
}

/// A number of seconds of one to ten digits is a valid duration, with or
/// without leading zeros.
pub proof fn lemma_digits_are_durations(t: Seq<u8>)
    requires
        1 <= t.len() <= 10,
        all_digits(t),
    ensures
        is_duration(t),
{
    assert(is_digit(t[0]));
    assert(is_digit(t.last()));
    assert(trim_start(t) == t);
    assert(trim_end(t) == t);
    assert(trim_ascii(t) == t);
}

proof fn lemma_decimal_len(n: nat, k: nat, p: nat)
    requires
        1 <= k,
        n < p,
        p == pow10(k),
    ensures
        decimal(n).len() <= k,
    decreases k,
{
    if n >= 10 {
        assert(k > 1) by {
            if k == 1 {
                assert(pow10(1) == 10 * pow10(0));
            }
        }
        assert(p == 10 * pow10((k - 1) as nat));
        assert(n / 10 < pow10((k - 1) as nat));
        lemma_decimal_len(n / 10, (k - 1) as nat, pow10((k - 1) as nat));
    }
}

/// Ten to the power `k`.
pub open spec fn pow10(k: nat) -> nat
    decreases k,
{
    if k == 0 {
        1
    } else {
        10 * pow10((k - 1) as nat)
    }
}

/// Every number of seconds below ten billion, written in decimal, is a
/// duration that `rule-applied` and `rule-evaluated` accept: the condition's
/// check passes for it, whatever the length of the input it was read from.
pub proof fn lemma_seconds_are_accepted(n: nat, len: int, offset: int)
    requires
        n < 10_000_000_000,
    ensures
        is_duration(decimal(n)),
        spec_cond_valid(len, ConditionName::RuleApplied, Some((decimal(n), offset))) == Ok::<(), ParseError>(()),
        spec_cond_valid(len, ConditionName::RuleEvaluated, Some((decimal(n), offset))) == Ok::<(), ParseError>(()),
{
    lemma_decimal_digits(n);
    reveal_with_fuel(pow10, 11);
    assert(pow10(10) == 10_000_000_000);
    lemma_decimal_len(n, 10, pow10(10));
    lemma_digits_are_durations(decimal(n));
}

} // verus!
