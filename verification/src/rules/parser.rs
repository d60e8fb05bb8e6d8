//! Recursive-descent parser over the token stream.
//!
//! Every byte this module sees originates outside the program — from the
//! daemon, and ultimately from a USB descriptor an attacker may control. So:
//! an explicit input-length bound checked first, a nesting bound checked by
//! the lexer before any recursion, and a proof that the parser computes what
//! [`crate::rules::grammar`] states.

use vstd::prelude::*;
use crate::model::error::{ParseError, ParseErrorKind};
use crate::model::ids::{InterfaceType, UsbId};
use crate::model::rule::{
    attribute_position, attributes_view, conditions_view, values_view, Attribute, AttributeName,
    AttributeValue, AttributeValues, Condition, ConditionClause, ConditionName, Rule, RuleString,
    RuleTarget, SetOperator, SpecAttribute, SpecCondition, SpecValue,
};
use crate::rules::grammar::{
    cond_syntax, expect_lbrace, if_keyword, parse_spec, spec_attribute_values, spec_attributes,
    spec_clause, spec_comment, spec_cond_loop, spec_cond_valid, spec_rule_from, spec_set,
    spec_set_values, spec_target, spec_value, Mode, MAX_INPUT_LEN, MAX_SET_VALUES,
};
use crate::rules::lexer::{lemma_lex_params_within, params_within, param_fits, tokenize, tokens_view, SpecToken, Token, TokenKind};
use crate::rules::params::{duration, probability, time_range};
use crate::text::push_bytes;

verus! {

/// A copy of a byte slice.
pub fn bytes_vec(s: &[u8]) -> (r: Vec<u8>)
    ensures
        r@ == s@,
{
    let mut v: Vec<u8> = Vec::new();
    push_bytes(&mut v, s);
    assert(v@ =~= s@);
    v
}

/// The view of an optional parameter with its offset.
pub open spec fn param_view(p: Option<(&[u8], usize)>) -> Option<(Seq<u8>, int)> {
    match p {
        Some((b, o)) => Some((b@, o as int)),
        None => None,
    }
}

struct Parser {
    tokens: Vec<Token>,
    /// Offset reported for errors at end of input: the input's length.
    end: usize,
}

impl Parser {
    spec fn ts(&self) -> Seq<SpecToken> {
        tokens_view(self.tokens@)
    }

    spec fn wf(&self) -> bool {
        params_within(self.ts(), self.end as int)
    }

    fn is_kind_at(&self, pos: usize, k: &TokenKind) -> (r: bool)
        requires
            k is LBrace || k is RBrace || k is Bang,
        ensures
            r == (0 <= pos < self.ts().len() && self.ts()[pos as int].kind == k@),
    {
        if pos >= self.tokens.len() {
            return false;
        }
        let ghost t = self.ts()[pos as int];
        assert(t == self.tokens@[pos as int]@);
        match (&self.tokens[pos].kind, k) {
            (TokenKind::LBrace, TokenKind::LBrace) => true,
            (TokenKind::RBrace, TokenKind::RBrace) => true,
            (TokenKind::Bang, TokenKind::Bang) => true,
            _ => false,
        }
    }

    fn offset(&self, pos: usize) -> (r: usize)
        ensures
            r as int == crate::rules::grammar::offset_at(self.ts(), pos as int, self.end as int),
    {
        if pos < self.tokens.len() {
            assert(self.ts()[pos as int] == self.tokens@[pos as int]@);
            self.tokens[pos].offset
        } else {
            self.end
        }
    }

    fn target(&self, mode: Mode) -> (r: Result<(Option<RuleTarget>, usize), ParseError>)
        ensures
            r matches Ok((t, p)) ==> spec_target(self.ts(), 0, mode, self.end as int) == Ok::<
                (Option<RuleTarget>, int),
                ParseError,
            >((t, p as int)),
            r matches Err(e) ==> spec_target(self.ts(), 0, mode, self.end as int) == Err::<
                (Option<RuleTarget>, int),
                ParseError,
            >(e),
    {
        let present = self.tokens.len() > 0;
        let target = if present {
            assert(self.ts()[0] == self.tokens@[0]@);
            match &self.tokens[0].kind {
                TokenKind::Word(w) => RuleTarget::from_keyword(w.as_slice()),
                _ => None,
            }
        } else {
            None
        };
        let allowed = match mode {
            Mode::Rule => match target {
                Some(RuleTarget::Match) => false,
                Some(_) => true,
                None => false,
            },
            Mode::Partial => target.is_none(),
            Mode::Query => true,
        };
        if !allowed {
            let kind = if !present {
                ParseErrorKind::Empty
            } else {
                ParseErrorKind::InvalidTarget
            };
            return Err(ParseError::new(kind, self.offset(0)));
        }
        if target.is_some() {
            Ok((target, 1))
        } else {
            Ok((target, 0))
        }
    }

    fn value(&self, pos: usize, name: AttributeName) -> (r: Result<AttributeValue, ParseError>)
        ensures
            r matches Ok(v) ==> spec_value(self.ts(), pos as int, name, self.end as int) == Ok::<
                SpecValue,
                ParseError,
            >(v@),
            r matches Err(e) ==> spec_value(self.ts(), pos as int, name, self.end as int) == Err::<
                SpecValue,
                ParseError,
            >(e),
    {
        if pos >= self.tokens.len() {
            return Err(ParseError::new(ParseErrorKind::UnexpectedEnd, self.end));
        }
        let token = &self.tokens[pos];
        assert(self.ts()[pos as int] == token@);
        let invalid = ParseError::new(ParseErrorKind::InvalidValue, token.offset);
        match &token.kind {
            TokenKind::Word(w) => match name {
                AttributeName::Id => match UsbId::parse(w.as_slice()) {
                    Some(id) => Ok(AttributeValue::UsbId(id)),
                    None => Err(invalid),
                },
                AttributeName::WithInterface => match InterfaceType::parse(w.as_slice()) {
                    Some(i) => Ok(AttributeValue::Interface(i)),
                    None => Err(invalid),
                },
                _ => Err(invalid),
            },
            TokenKind::Str(s) => match name {
                AttributeName::Id => Err(invalid),
                AttributeName::WithInterface => Err(invalid),
                _ => Ok(AttributeValue::String(RuleString::from_bytes(bytes_vec(s.as_slice())))),
            },
            _ => Err(invalid),
        }
    }

    fn expect_lbrace(&self, pos: usize) -> (r: Result<usize, ParseError>)
        ensures
            r matches Ok(p) ==> expect_lbrace(self.ts(), pos as int, self.end as int) == Ok::<
                int,
                ParseError,
            >(p as int),
            r matches Err(e) ==> expect_lbrace(self.ts(), pos as int, self.end as int) == Err::<
                int,
                ParseError,
            >(e),
    {
        if pos >= self.tokens.len() {
            return Err(ParseError::new(ParseErrorKind::UnexpectedEnd, self.end));
        }
        let token = &self.tokens[pos];
        assert(self.ts()[pos as int] == token@);
        match &token.kind {
            TokenKind::LBrace => Ok(pos + 1),
            _ => Err(ParseError::new(ParseErrorKind::UnexpectedToken, token.offset)),
        }
    }

    fn set(&self, pos: usize, name: AttributeName, operator: Option<SetOperator>) -> (r: Result<
        (AttributeValues, usize),
        ParseError,
    >)
        ensures
            r matches Ok((v, p)) ==> spec_set(self.ts(), pos as int, name, operator, self.end as int)
                == Ok::<(crate::model::rule::SpecValues, int), ParseError>((v@, p as int)),
            r matches Err(e) ==> spec_set(self.ts(), pos as int, name, operator, self.end as int)
                == Err::<(crate::model::rule::SpecValues, int), ParseError>(e),
    {
        let start = match self.expect_lbrace(pos) {
            Ok(p) => p,
            Err(e) => return Err(e),
        };
        let ghost ts = self.ts();
        let ghost end = self.end as int;
        let n = self.tokens.len();
        let mut values: Vec<AttributeValue> = Vec::new();
        assert(values_view(values@) =~= Seq::<SpecValue>::empty());
        let mut p = start;
        loop
            invariant
                ts == self.ts(),
                end == self.end as int,
                n == ts.len(),
                start <= p <= ts.len(),
                expect_lbrace(ts, pos as int, end) == Ok::<int, ParseError>(start as int),
                spec_set_values(ts, start as int, name, Seq::empty(), end) == spec_set_values(
                    ts,
                    p as int,
                    name,
                    values_view(values@),
                    end,
                ),
            decreases ts.len() - p,
        {
            if self.is_kind_at(p, &TokenKind::RBrace) {
                return Ok((AttributeValues::SetOf { operator, values }, p + 1));
            }
            if values.len() >= MAX_SET_VALUES {
                return Err(ParseError::new(ParseErrorKind::TooManyValues, self.offset(p)));
            }
            let v = match self.value(p, name) {
                Ok(v) => v,
                Err(e) => return Err(e),
            };
            let ghost before = values_view(values@);
            values.push(v);
            assert(values_view(values@) =~= before.push(v@));
            p = p + 1;
        }
    }

    fn attribute_values(&self, pos: usize, name: AttributeName) -> (r: Result<(AttributeValues, usize), ParseError>)
        ensures
            r matches Ok((v, p)) ==> spec_attribute_values(self.ts(), pos as int, name, self.end as int)
                == Ok::<(crate::model::rule::SpecValues, int), ParseError>((v@, p as int)),
            r matches Err(e) ==> spec_attribute_values(self.ts(), pos as int, name, self.end as int)
                == Err::<(crate::model::rule::SpecValues, int), ParseError>(e),
    {
        if pos < self.tokens.len() {
            assert(self.ts()[pos as int] == self.tokens@[pos as int]@);
            match &self.tokens[pos].kind {
                TokenKind::LBrace => {
                    return self.set(pos, name, None);
                },
                TokenKind::Word(w) => {
                    if let Some(op) = SetOperator::from_keyword(w.as_slice()) {
                        return self.set(pos + 1, name, Some(op));
                    }
                },
                _ => {},
            }
        }
        match self.value(pos, name) {
            Ok(v) => Ok((AttributeValues::Single(v), pos + 1)),
            Err(e) => Err(e),
        }
    }

    fn cond_syntax(&self, pos: usize) -> (r: Result<(bool, ConditionName, Option<(&[u8], usize)>, usize), ParseError>)
        ensures
            r matches Ok((n, c, p, q)) ==> cond_syntax(self.ts(), pos as int, self.end as int) == Ok::<
                (bool, ConditionName, Option<(Seq<u8>, int)>, int),
                ParseError,
            >((n, c, param_view(p), q as int)),
            r matches Err(e) ==> cond_syntax(self.ts(), pos as int, self.end as int) == Err::<
                (bool, ConditionName, Option<(Seq<u8>, int)>, int),
                ParseError,
            >(e),
            r matches Ok((n, c, p, q)) ==> pos < q <= self.ts().len(),
            r matches Ok((n, c, Some((b, o)), q)) ==> 1 <= q <= self.ts().len() && self.ts()[q - 1].kind
                == crate::rules::lexer::SpecTokenKind::Param(b@),
    {
        let n = self.tokens.len();
        let negated = self.is_kind_at(pos, &TokenKind::Bang);
        let p1 = if negated {
            pos + 1
        } else {
            pos
        };
        if p1 >= self.tokens.len() {
            return Err(ParseError::new(ParseErrorKind::UnexpectedEnd, self.end));
        }
        let token = &self.tokens[p1];
        assert(self.ts()[p1 as int] == token@);
        let name = match &token.kind {
            TokenKind::Word(w) => match ConditionName::from_keyword(w.as_slice()) {
                Some(name) => name,
                None => return Err(ParseError::new(ParseErrorKind::UnknownCondition, token.offset)),
            },
            _ => return Err(ParseError::new(ParseErrorKind::UnexpectedToken, token.offset)),
        };
        let p2 = p1 + 1;
        if p2 < self.tokens.len() {
            let next = &self.tokens[p2];
            assert(self.ts()[p2 as int] == next@);
            if let TokenKind::Param(p) = &next.kind {
                return Ok((negated, name, Some((p.as_slice(), next.offset)), p2 + 1));
            }
        }
        Ok((negated, name, None, p2))
    }

    fn cond_loop(&self, pos: usize) -> (r: Result<(Vec<Condition>, usize), ParseError>)
        requires
            self.wf(),
            pos <= self.ts().len(),
        ensures
            r matches Ok((cs, p)) ==> spec_cond_loop(self.end as int, self.ts(), pos as int, Seq::empty())
                == Ok::<(Seq<SpecCondition>, int), ParseError>((conditions_view(cs@), p as int)),
            r matches Err(e) ==> spec_cond_loop(self.end as int, self.ts(), pos as int, Seq::empty())
                == Err::<(Seq<SpecCondition>, int), ParseError>(e),
        decreases self.end, self.tokens@.len() - pos, 6int,
    {
        let ghost ts = self.ts();
        let ghost len = self.end as int;
        let n = self.tokens.len();
        let mut conditions: Vec<Condition> = Vec::new();
        assert(conditions_view(conditions@) =~= Seq::<SpecCondition>::empty());
        let mut p = pos;
        loop
            invariant
                ts == self.ts(),
                len == self.end as int,
                self.wf(),
                pos <= p <= ts.len(),
                ts.len() == self.tokens@.len(),
                n == ts.len(),
                spec_cond_loop(len, ts, pos as int, Seq::empty()) == spec_cond_loop(
                    len,
                    ts,
                    p as int,
                    conditions_view(conditions@),
                ),
            decreases ts.len() - p,
        {
            if self.is_kind_at(p, &TokenKind::RBrace) {
                return Ok((conditions, p + 1));
            }
            if conditions.len() >= MAX_SET_VALUES {
                return Err(ParseError::new(ParseErrorKind::TooManyValues, self.offset(p)));
            }
            let (negated, name, param, p2) = match self.cond_syntax(p) {
                Ok(x) => x,
                Err(e) => return Err(e),
            };
            proof {
                self.lemma_param_bound(param, p2 as int);
            }
            match validate_condition(self.end, name, param) {
                Ok(_) => {},
                Err(e) => return Err(e),
            }
            let c = make_condition_exec(negated, name, param);
            let ghost before = conditions_view(conditions@);
            conditions.push(c);
            assert(conditions_view(conditions@) =~= before.push(c@));
            p = p2;
        }
    }

    proof fn lemma_param_bound(&self, param: Option<(&[u8], usize)>, q: int)
        requires
            self.wf(),
            param matches Some((b, o)) ==> 1 <= q <= self.ts().len() && self.ts()[q - 1].kind
                == crate::rules::lexer::SpecTokenKind::Param(b@),
        ensures
            param matches Some((b, o)) ==> b@.len() + 2 <= self.end,
    {
        if let Some((b, o)) = param {
            assert(param_fits(self.ts()[q - 1].kind, self.end as int));
        }
    }

    fn clause(&self, pos: usize) -> (r: Result<(ConditionClause, usize), ParseError>)
        requires
            self.wf(),
            pos <= self.ts().len(),
        ensures
            r matches Ok((c, p)) ==> spec_clause(self.end as int, self.ts(), pos as int) == Ok::<
                (crate::model::rule::SpecClause, int),
                ParseError,
            >((c@, p as int)),
            r matches Err(e) ==> spec_clause(self.end as int, self.ts(), pos as int) == Err::<
                (crate::model::rule::SpecClause, int),
                ParseError,
            >(e),
        decreases self.end, self.tokens@.len() - pos, 7int,
    {
        let operator = if pos < self.tokens.len() {
            assert(self.ts()[pos as int] == self.tokens@[pos as int]@);
            match &self.tokens[pos].kind {
                TokenKind::Word(w) => SetOperator::from_keyword(w.as_slice()),
                _ => None,
            }
        } else {
            None
        };
        let p1 = if operator.is_some() {
            pos + 1
        } else {
            pos
        };
        if self.is_kind_at(p1, &TokenKind::LBrace) {
            return match self.cond_loop(p1 + 1) {
                Ok((conditions, p2)) => Ok((ConditionClause::SetOf { operator, conditions }, p2)),
                Err(e) => Err(e),
            };
        }
        if operator.is_some() {
            if let Err(e) = self.expect_lbrace(p1) {
                return Err(e);
            }
        }
        let (negated, name, param, p2) = match self.cond_syntax(p1) {
            Ok(x) => x,
            Err(e) => return Err(e),
        };
        proof {
            self.lemma_param_bound(param, p2 as int);
        }
        match validate_condition(self.end, name, param) {
            Ok(_) => Ok((ConditionClause::Single(make_condition_exec(negated, name, param)), p2)),
            Err(e) => Err(e),
        }
    }

    fn attributes(&self, pos: usize) -> (r: Result<(Vec<Attribute>, Option<ConditionClause>, usize), ParseError>)
        requires
            self.wf(),
            pos <= self.ts().len(),
        ensures
            r matches Ok((a, c, p)) ==> spec_attributes(self.end as int, self.ts(), pos as int, Seq::empty())
                == Ok::<(Seq<SpecAttribute>, Option<crate::model::rule::SpecClause>, int), ParseError>(
                (attributes_view(a@), crate::model::rule::opt_clause_view(c), p as int),
            ),
            r matches Err(e) ==> spec_attributes(self.end as int, self.ts(), pos as int, Seq::empty())
                == Err::<(Seq<SpecAttribute>, Option<crate::model::rule::SpecClause>, int), ParseError>(e),
        decreases self.end, self.tokens@.len() - pos, 8int,
    {
        let ghost ts = self.ts();
        let ghost len = self.end as int;
        let mut attributes: Vec<Attribute> = Vec::new();
        assert(attributes_view(attributes@) =~= Seq::<SpecAttribute>::empty());
        let mut p = pos;
        loop
            invariant
                ts == self.ts(),
                len == self.end as int,
                self.wf(),
                pos <= p <= ts.len(),
                ts.len() == self.tokens@.len(),
                spec_attributes(len, ts, pos as int, Seq::empty()) == spec_attributes(
                    len,
                    ts,
                    p as int,
                    attributes_view(attributes@),
                ),
            decreases ts.len() - p,
        {
            if p >= self.tokens.len() {
                return Ok((attributes, None, p));
            }
            let token = &self.tokens[p];
            assert(ts[p as int] == token@);
            let offset = token.offset;
            match &token.kind {
                TokenKind::Word(w) => {
                    if w.len() == 2 && w[0] == 105 && w[1] == 102 {
                        assert(w@ =~= if_keyword());
                        return match self.clause(p + 1) {
                            Ok((c, p2)) => Ok((attributes, Some(c), p2)),
                            Err(e) => Err(e),
                        };
                    }
                    assert(w@ != if_keyword()) by {
                        if w@ == if_keyword() {
                            assert(w@.len() == 2 && w@[0] == 105 && w@[1] == 102);
                        }
                    }
                    let name = match AttributeName::from_keyword(w.as_slice()) {
                        Some(name) => name,
                        None => return Err(ParseError::new(ParseErrorKind::UnknownAttribute, offset)),
                    };
                    if attribute_position(attributes.as_slice(), name).is_some() {
                        return Err(ParseError::new(ParseErrorKind::DuplicateAttribute, offset));
                    }
                    let (values, p2) = match self.attribute_values(p + 1, name) {
                        Ok(x) => x,
                        Err(e) => return Err(e),
                    };
                    proof {
                        crate::rules::grammar::lemma_attribute_values_pos(ts, p + 1, name, len);
                    }
                    let a = Attribute { name, values };
                    let ghost before = attributes_view(attributes@);
                    attributes.push(a);
                    assert(attributes_view(attributes@) =~= before.push(a@));
                    p = p2;
                },
                TokenKind::Comment(_) => {
                    return Ok((attributes, None, p));
                },
                _ => {
                    return Err(ParseError::new(ParseErrorKind::UnexpectedToken, offset));
                },
            }
        }
    }

    fn rule_from(&self, mode: Mode) -> (r: Result<Rule, ParseError>)
        requires
            self.wf(),
        ensures
            r matches Ok(rule) ==> spec_rule_from(self.end as int, self.ts(), mode) == Ok::<
                crate::model::rule::SpecRule,
                ParseError,
            >(rule@),
            r matches Err(e) ==> spec_rule_from(self.end as int, self.ts(), mode) == Err::<
                crate::model::rule::SpecRule,
                ParseError,
            >(e),
        decreases self.end, self.tokens@.len() + 1, 0int,
    {
        let (target, p1) = match self.target(mode) {
            Ok(x) => x,
            Err(e) => return Err(e),
        };
        let (attributes, condition, p2) = match self.attributes(p1) {
            Ok(x) => x,
            Err(e) => return Err(e),
        };
        let comment = if p2 < self.tokens.len() {
            let token = &self.tokens[p2];
            assert(self.ts()[p2 as int] == token@);
            match &token.kind {
                TokenKind::Comment(text) => Some(bytes_vec(text.as_slice())),
                _ => return Err(ParseError::new(ParseErrorKind::UnexpectedToken, token.offset)),
            }
        } else {
            None
        };
        if target.is_none() && attributes.len() == 0 && condition.is_none() {
            return Err(ParseError::new(ParseErrorKind::Empty, 0));
        }
        let rule = Rule { target, attributes, condition, comment };
        assert(spec_comment(self.ts(), p2 as int) == Ok::<Option<Seq<u8>>, ParseError>(
            crate::model::rule::opt_bytes_view(rule.comment),
        ));
        Ok(rule)
    }
}

fn make_condition_exec(negated: bool, name: ConditionName, param: Option<(&[u8], usize)>) -> (r: Condition)
    ensures
        r@ == crate::rules::grammar::make_condition(negated, name, param_view(param)),
{
    let parameter = match param {
        Some((p, _)) => Some(bytes_vec(p)),
        None => None,
    };
    Condition { negated, name, parameter }
}

/// Checks that a condition's parameter is present when required, absent when
/// forbidden, and well-formed.
fn validate_condition(len: usize, name: ConditionName, param: Option<(&[u8], usize)>) -> (r: Result<(), ParseError>)
    requires
        param matches Some((p, o)) ==> p@.len() + 2 <= len,
    ensures
        r == spec_cond_valid(len as int, name, param_view(param)),
    decreases len, 0int, 0int,
{
    match param {
        Some((p, offset)) => {
            let valid = match name {
                ConditionName::AllowedMatches => {
                    // The parameter is a query. Its own errors are reported at the
                    // parameter's position: the nested offsets would be relative.
                    return match parse(p, Mode::Query) {
                        Ok(_) => Ok(()),
                        Err(_) => Err(ParseError::new(ParseErrorKind::InvalidConditionParameter, offset)),
                    };
                },
                ConditionName::LocalTime => time_range(p),
                ConditionName::RuleApplied => duration(p),
                ConditionName::RuleEvaluated => duration(p),
                ConditionName::Random => probability(p),
                _ => false,
            };
            if valid {
                Ok(())
            } else {
                Err(ParseError::new(ParseErrorKind::InvalidConditionParameter, offset))
            }
        },
        None => match name {
            ConditionName::LocalTime => Err(ParseError::new(ParseErrorKind::InvalidConditionParameter, 0)),
            ConditionName::AllowedMatches => Err(ParseError::new(ParseErrorKind::InvalidConditionParameter, 0)),
            _ => Ok(()),
        },
    }
}

/// Parses rule text under the given mode.
pub fn parse(input: &[u8], mode: Mode) -> (r: Result<Rule, ParseError>)
    ensures
        r matches Ok(rule) ==> parse_spec(input@, mode) == Ok::<crate::model::rule::SpecRule, ParseError>(rule@),
        r matches Err(e) ==> parse_spec(input@, mode) == Err::<crate::model::rule::SpecRule, ParseError>(e),
    decreases input@.len() + 1, 0int, 0int,
{
    if input.len() > MAX_INPUT_LEN {
        return Err(ParseError::new(ParseErrorKind::TooLong, MAX_INPUT_LEN));
    }
    let tokens = match tokenize(input) {
        Ok(t) => t,
        Err(e) => return Err(e),
    };
    proof {
        lemma_lex_params_within(input@, 0);
    }
    let parser = Parser { tokens, end: input.len() };
    parser.rule_from(mode)
}

} // verus!
