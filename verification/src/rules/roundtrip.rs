//! Rendered rules parse back to themselves.
//!
//! The proof follows the text: [`render`] writes pieces separated by single
//! spaces; the lexer reads each piece back as the tokens it was written
//! from; the parser reads those tokens back as the rule.

use vstd::prelude::*;
use vstd::utf8::*;
use crate::model::ids::{id_text_chars, is_id_char, lemma_id_text_ascii, lemma_interface_text_ascii};
use crate::model::rule::{
    AttributeName, ConditionName, RuleTarget, SetOperator, SpecAttribute, SpecClause, SpecCondition,
    SpecRule, SpecValue, SpecValues,
};
use crate::rules::grammar::{
    cond_syntax, expect_lbrace, if_keyword, make_condition, param_shape_ok, parse_spec, peek_kind,
    spec_attribute_values, spec_attributes, spec_clause, spec_comment, spec_cond_loop, spec_cond_valid,
    spec_rule_from, spec_set, spec_set_values, spec_target, spec_value, target_allowed, Mode, MAX_INPUT_LEN,
    MAX_SET_VALUES,
};
use crate::model::ids::{InterfaceType, UsbId};
use crate::model::rule::{attr_index_from, lemma_attr_index_from};
use crate::rules::lexer::{lemma_lex_params_within, param_fits, params_within};
use crate::rules::lexer::{
    closing_from, closing_paren, escape_byte, is_delimiter, lex_from, lex_str_from, lex_string,
    str_cons, str_prefix, tok, tok_cons, word_end, SpecToken, SpecTokenKind, MAX_PAREN_DEPTH,
};
use crate::rules::render::{
    attribute_text, clause_text, condition_text, conditions_text, escape, escape_scalar, hex_escape,
    hex_escape_all, is_control, join_spaced, lossy_bytes, operator_text, quoted, render, rule_parts,
    value_text, values_part, values_text,
};
use crate::text::{hex2, hex_char, hex_digit_value, is_ascii_ws, is_hex_digit};

verus! {

/// Lowercase letters and `-`: the bytes keywords are made of.
pub open spec fn keyword_bytes(w: Seq<u8>) -> bool {
    w.len() > 0 && forall|i: int| 0 <= i < w.len() ==> (97 <= #[trigger] w[i] <= 122 || w[i] == 45)
}

proof fn lemma_target_keywords(t: RuleTarget)
    ensures
        RuleTarget::spec_from_keyword(t.kw()) == Some(t),
        keyword_bytes(t.kw()),
{
    match t {
        RuleTarget::Allow => {},
        RuleTarget::Block => {},
        RuleTarget::Reject => {},
        RuleTarget::Match => {},
    }
}

proof fn lemma_attribute_keywords(n: AttributeName)
    ensures
        AttributeName::spec_from_keyword(n.kw()) == Some(n),
        keyword_bytes(n.kw()),
{
    match n {
        AttributeName::Id => {},
        AttributeName::Hash => {},
        AttributeName::ParentHash => {},
        AttributeName::Name => {},
        AttributeName::Serial => {},
        AttributeName::ViaPort => {},
        AttributeName::WithInterface => {},
        AttributeName::WithConnectType => {},
        AttributeName::Label => {},
    }
}

proof fn lemma_operator_keywords(o: SetOperator)
    ensures
        SetOperator::spec_from_keyword(o.kw()) == Some(o),
        keyword_bytes(o.kw()),
{
    let w = o.kw();
    assert(w.len() > 0);
    match o {
        SetOperator::AllOf => {
            assert(SetOperator::spec_from_keyword(w) == Some(SetOperator::AllOf));
        },
        SetOperator::OneOf => {
            assert(w != seq![97u8, 108u8, 108u8, 45u8, 111u8, 102u8]) by {
                assert(w[0] != 97u8);
            }
        },
        SetOperator::NoneOf => {},
        SetOperator::Equals => {
            assert(w != seq![97u8, 108u8, 108u8, 45u8, 111u8, 102u8]) by {
                assert(w[0] != 97u8);
            }
            assert(w != seq![111u8, 110u8, 101u8, 45u8, 111u8, 102u8]) by {
                assert(w[0] != 111u8);
            }
        },
        SetOperator::EqualsOrdered => {},
        SetOperator::MatchAll => {},
    }
}

proof fn lemma_condition_keywords(c: ConditionName)
    ensures
        ConditionName::spec_from_keyword(c.kw()) == Some(c),
        keyword_bytes(c.kw()),
{
    match c {
        ConditionName::LocalTime => {},
        ConditionName::AllowedMatches => {},
        ConditionName::RuleApplied => {},
        ConditionName::RuleEvaluated => {},
        ConditionName::Random => {},
        ConditionName::True => {},
        ConditionName::False => {},
    }
}

/// Every keyword reads back as itself, and is made of keyword bytes.
pub proof fn lemma_keyword_inverse()
    ensures
        forall|t: RuleTarget| RuleTarget::spec_from_keyword(#[trigger] t.kw()) == Some(t),
        forall|n: AttributeName| AttributeName::spec_from_keyword(#[trigger] n.kw()) == Some(n),
        forall|o: SetOperator| SetOperator::spec_from_keyword(#[trigger] o.kw()) == Some(o),
        forall|c: ConditionName| ConditionName::spec_from_keyword(#[trigger] c.kw()) == Some(c),
        forall|t: RuleTarget| keyword_bytes(#[trigger] t.kw()),
        forall|n: AttributeName| keyword_bytes(#[trigger] n.kw()),
        forall|o: SetOperator| keyword_bytes(#[trigger] o.kw()),
        forall|c: ConditionName| keyword_bytes(#[trigger] c.kw()),
        keyword_bytes(if_keyword()),
{
    assert forall|t: RuleTarget| RuleTarget::spec_from_keyword(#[trigger] t.kw()) == Some(t) && keyword_bytes(t.kw()) by {
        lemma_target_keywords(t);
    }
    assert forall|n: AttributeName| AttributeName::spec_from_keyword(#[trigger] n.kw()) == Some(n) && keyword_bytes(n.kw()) by {
        lemma_attribute_keywords(n);
    }
    assert forall|o: SetOperator| SetOperator::spec_from_keyword(#[trigger] o.kw()) == Some(o) && keyword_bytes(o.kw()) by {
        lemma_operator_keywords(o);
    }
    assert forall|c: ConditionName| ConditionName::spec_from_keyword(#[trigger] c.kw()) == Some(c) && keyword_bytes(c.kw()) by {
        lemma_condition_keywords(c);
    }
}

/// Words that begin a rule after its target never read as a target; words
/// that begin a condition never read as a set operator.
pub proof fn lemma_keywords_distinct()
    ensures
        forall|n: AttributeName| RuleTarget::spec_from_keyword(#[trigger] n.kw()) is None,
        forall|n: AttributeName| #[trigger] n.kw() != if_keyword(),
        RuleTarget::spec_from_keyword(if_keyword()) is None,
        forall|c: ConditionName| SetOperator::spec_from_keyword(#[trigger] c.kw()) is None,
{
    assert forall|n: AttributeName| RuleTarget::spec_from_keyword(#[trigger] n.kw()) is None && n.kw() != if_keyword() by {
        match n {
            AttributeName::Id => {},
            AttributeName::Hash => {},
            AttributeName::ParentHash => {},
            AttributeName::Name => {},
            AttributeName::Serial => {},
            AttributeName::ViaPort => {},
            AttributeName::WithInterface => {},
            AttributeName::WithConnectType => {},
            AttributeName::Label => {},
        }
    }
    assert forall|c: ConditionName| SetOperator::spec_from_keyword(#[trigger] c.kw()) is None by {
        match c {
            ConditionName::LocalTime => {},
            ConditionName::AllowedMatches => {},
            ConditionName::RuleApplied => {},
            ConditionName::RuleEvaluated => {},
            ConditionName::Random => {},
            ConditionName::True => {},
            ConditionName::False => {},
        }
    }
}

proof fn lemma_attribute_keyword_distinct(n: AttributeName)
    ensures
        RuleTarget::spec_from_keyword(n.kw()) is None,
        n.kw() != if_keyword(),
{
    lemma_keywords_distinct();
}

proof fn lemma_condition_keyword_distinct(c: ConditionName)
    ensures
        SetOperator::spec_from_keyword(c.kw()) is None,
{
    lemma_keywords_distinct();
}

proof fn lemma_if_keyword()
    ensures
        keyword_bytes(if_keyword()),
        RuleTarget::spec_from_keyword(if_keyword()) is None,
{
}

/// Text made of id bytes never reads as a set operator.
pub proof fn lemma_id_text_not_operator(w: Seq<u8>)
    requires
        id_text_chars(w),
    ensures
        SetOperator::spec_from_keyword(w) is None,
{
    if let Some(op) = SetOperator::spec_from_keyword(w) {
        assert(w == op.kw());
        match op {
            SetOperator::AllOf => assert(!is_id_char(w[1])),
            SetOperator::OneOf => assert(!is_id_char(w[0])),
            SetOperator::NoneOf => assert(!is_id_char(w[0])),
            SetOperator::Equals => assert(!is_id_char(w[1])),
            SetOperator::EqualsOrdered => assert(!is_id_char(w[1])),
            SetOperator::MatchAll => assert(!is_id_char(w[0])),
        }
    }
}

// ---------------------------------------------------------------------------
// Lexing rendered text.

/// The kinds of a token sequence.
pub open spec fn kinds(ts: Seq<SpecToken>) -> Seq<SpecTokenKind> {
    ts.map_values(|t: SpecToken| t.kind)
}

/// The input lexes, from `pos` on, to tokens of kinds `k`.
pub open spec fn lexes(input: Seq<u8>, pos: int, k: Seq<SpecTokenKind>) -> bool {
    match lex_from(input, pos) {
        Ok(ts) => kinds(ts) == k,
        Err(_) => false,
    }
}

/// `piece` stands in `input` at `pos`.
pub open spec fn at(input: Seq<u8>, pos: int, piece: Seq<u8>) -> bool {
    0 <= pos && pos + piece.len() <= input.len() && input.subrange(pos, pos + piece.len()) == piece
}

/// `pos` is the end of the input or holds a space.
pub open spec fn follows(input: Seq<u8>, pos: int) -> bool {
    pos == input.len() || (0 <= pos < input.len() && input[pos] == 32)
}

proof fn lemma_at_split(input: Seq<u8>, pos: int, a: Seq<u8>, b: Seq<u8>)
    requires
        at(input, pos, a + b),
    ensures
        at(input, pos, a),
        at(input, pos + a.len(), b),
{
    assert(input.subrange(pos, pos + a.len()) =~= (a + b).subrange(0, a.len() as int));
    assert(input.subrange(pos + a.len(), pos + a.len() + b.len()) =~= (a + b).subrange(
        a.len() as int,
        (a + b).len() as int,
    ));
    assert((a + b).subrange(0, a.len() as int) =~= a);
    assert((a + b).subrange(a.len() as int, (a + b).len() as int) =~= b);
}

proof fn lemma_at_byte(input: Seq<u8>, pos: int, piece: Seq<u8>, i: int)
    requires
        at(input, pos, piece),
        0 <= i < piece.len(),
    ensures
        input[pos + i] == piece[i],
{
    assert(input.subrange(pos, pos + piece.len())[i] == input[pos + i]);
}

proof fn lemma_kinds_cons(t: SpecToken, ts: Seq<SpecToken>)
    ensures
        kinds(seq![t] + ts) == seq![t.kind] + kinds(ts),
{
    assert(kinds(seq![t] + ts) =~= seq![t.kind] + kinds(ts));
}

proof fn lemma_lex_cons(input: Seq<u8>, pos: int, t: SpecToken, next: int, k: Seq<SpecTokenKind>)
    requires
        lex_from(input, pos) == tok_cons(t, lex_from(input, next)),
        lexes(input, next, k),
    ensures
        lexes(input, pos, seq![t.kind] + k),
{
    let ts = lex_from(input, next).unwrap();
    lemma_kinds_cons(t, ts);
}

proof fn lemma_lex_end(input: Seq<u8>)
    ensures
        lexes(input, input.len() as int, Seq::empty()),
{
    assert(kinds(Seq::<SpecToken>::empty()) =~= Seq::<SpecTokenKind>::empty());
}

proof fn lemma_lex_space(input: Seq<u8>, pos: int, k: Seq<SpecTokenKind>)
    requires
        0 <= pos < input.len(),
        input[pos] == 32,
        lexes(input, pos + 1, k),
    ensures
        lexes(input, pos, k),
{
}

/// The kind of a one-byte token: `{`, `}` or `!`.
pub open spec fn punct_kind(b: u8) -> SpecTokenKind {
    if b == 123 {
        SpecTokenKind::LBrace
    } else if b == 125 {
        SpecTokenKind::RBrace
    } else {
        SpecTokenKind::Bang
    }
}

proof fn lemma_lex_punct(input: Seq<u8>, pos: int, k: Seq<SpecTokenKind>)
    requires
        0 <= pos < input.len(),
        input[pos] == 123 || input[pos] == 125 || input[pos] == 33,
        lexes(input, pos + 1, k),
    ensures
        lexes(input, pos, seq![punct_kind(input[pos])] + k),
{
    lemma_lex_cons(input, pos, tok(punct_kind(input[pos]), pos), pos + 1, k);
}

/// No byte of `w` ends a bare word.
pub open spec fn no_delimiter(w: Seq<u8>) -> bool {
    forall|i: int| 0 <= i < w.len() ==> !is_delimiter(#[trigger] w[i])
}

proof fn lemma_keyword_no_delimiter(w: Seq<u8>)
    requires
        keyword_bytes(w),
    ensures
        no_delimiter(w),
{
    assert forall|i: int| 0 <= i < w.len() implies !is_delimiter(#[trigger] w[i]) by {
        assert(97 <= w[i] <= 122 || w[i] == 45);
    }
}

proof fn lemma_id_no_delimiter(w: Seq<u8>)
    requires
        id_text_chars(w),
    ensures
        no_delimiter(w),
{
    assert forall|i: int| 0 <= i < w.len() implies !is_delimiter(#[trigger] w[i]) by {
        assert(is_id_char(w[i]));
    }
}

proof fn lemma_word_end_at(input: Seq<u8>, pos: int, w: Seq<u8>, i: int)
    requires
        at(input, pos, w),
        no_delimiter(w),
        0 <= i <= w.len(),
        pos + w.len() == input.len() || is_delimiter(input[pos + w.len()]),
    ensures
        word_end(input, pos + i) == pos + w.len(),
    decreases w.len() - i,
{
    if i < w.len() {
        lemma_at_byte(input, pos, w, i);
        lemma_word_end_at(input, pos, w, i + 1);
    }
}

proof fn lemma_lex_word(input: Seq<u8>, pos: int, w: Seq<u8>, k: Seq<SpecTokenKind>)
    requires
        w.len() > 0,
        no_delimiter(w),
        at(input, pos, w),
        pos + w.len() == input.len() || is_delimiter(input[pos + w.len()]),
        lexes(input, pos + w.len(), k),
    ensures
        lexes(input, pos, seq![SpecTokenKind::Word(w)] + k),
{
    lemma_at_byte(input, pos, w, 0);
    assert(!is_delimiter(w[0]));
    lemma_word_end_at(input, pos, w, 0);
    lemma_lex_cons(input, pos, tok(SpecTokenKind::Word(w), pos), pos + w.len(), k);
}

proof fn lemma_lex_comment(input: Seq<u8>, pos: int, c: Seq<u8>)
    requires
        at(input, pos, seq![35u8] + c),
        pos + 1 + c.len() == input.len(),
    ensures
        lexes(input, pos, seq![SpecTokenKind::Comment(c)]),
{
    lemma_at_byte(input, pos, seq![35u8] + c, 0);
    lemma_at_split(input, pos, seq![35u8], c);
    let ts = seq![tok(SpecTokenKind::Comment(c), pos)];
    assert(kinds(ts) =~= seq![SpecTokenKind::Comment(c)]);
}

// ---------------------------------------------------------------------------
// Quoted strings read back as the bytes they were written from.

proof fn lemma_hex_char(d: nat)
    requires
        d < 16,
    ensures
        is_hex_digit(hex_char(d)),
        hex_digit_value(hex_char(d)) == d,
{
}

proof fn lemma_hex2_value(b: u8)
    ensures
        is_hex_digit(hex2(b)[0]),
        is_hex_digit(hex2(b)[1]),
        (hex_digit_value(hex2(b)[0]) * 16 + hex_digit_value(hex2(b)[1])) as u8 == b,
{
    lemma_hex_char((b / 16) as nat);
    lemma_hex_char((b % 16) as nat);
}

proof fn lemma_str_prefix_cons(b: u8, bytes: Seq<u8>, r: Result<(Seq<u8>, int), crate::model::error::ParseError>)
    ensures
        str_cons(b, str_prefix(bytes, r)) == str_prefix(seq![b] + bytes, r),
{
    if let Ok((v, e)) = r {
        assert(seq![b] + (bytes + v) =~= (seq![b] + bytes) + v);
    }
}

proof fn lemma_lex_hex(input: Seq<u8>, start: int, p: int, b: u8)
    requires
        at(input, p, hex_escape(b)),
    ensures
        lex_str_from(input, start, p) == str_cons(b, lex_str_from(input, start, p + 4)),
{
    let h = hex_escape(b);
    lemma_at_byte(input, p, h, 0);
    lemma_at_byte(input, p, h, 1);
    lemma_at_byte(input, p, h, 2);
    lemma_at_byte(input, p, h, 3);
    lemma_hex2_value(b);
    assert(escape_byte(120u8) is None);
}

proof fn lemma_lex_hex_all(input: Seq<u8>, start: int, p: int, bytes: Seq<u8>)
    requires
        at(input, p, hex_escape_all(bytes)),
    ensures
        lex_str_from(input, start, p) == str_prefix(bytes, lex_str_from(input, start, p + hex_escape_all(bytes).len())),
    decreases bytes.len(),
{
    if bytes.len() == 0 {
        let r = lex_str_from(input, start, p);
        if let Ok((v, e)) = r {
            assert(Seq::<u8>::empty() + v =~= v);
        }
    } else {
        let rest = bytes.drop_first();
        lemma_at_split(input, p, hex_escape(bytes[0]), hex_escape_all(rest));
        lemma_lex_hex(input, start, p, bytes[0]);
        lemma_lex_hex_all(input, start, p + 4, rest);
        lemma_str_prefix_cons(bytes[0], rest, lex_str_from(input, start, p + hex_escape_all(bytes).len()));
        assert(seq![bytes[0]] + rest =~= bytes);
    }
}

proof fn lemma_lex_raw(input: Seq<u8>, start: int, p: int, bytes: Seq<u8>)
    requires
        at(input, p, bytes),
        forall|i: int| 0 <= i < bytes.len() ==> #[trigger] bytes[i] != 34 && bytes[i] != 92,
    ensures
        lex_str_from(input, start, p) == str_prefix(bytes, lex_str_from(input, start, p + bytes.len())),
    decreases bytes.len(),
{
    if bytes.len() == 0 {
        let r = lex_str_from(input, start, p);
        if let Ok((v, e)) = r {
            assert(Seq::<u8>::empty() + v =~= v);
        }
    } else {
        let rest = bytes.drop_first();
        assert(seq![bytes[0]] + rest =~= bytes);
        lemma_at_split(input, p, seq![bytes[0]], rest);
        lemma_at_byte(input, p, bytes, 0);
        assert(bytes[0] != 34 && bytes[0] != 92);
        lemma_lex_raw(input, start, p + 1, rest);
        lemma_str_prefix_cons(bytes[0], rest, lex_str_from(input, start, p + bytes.len()));
        assert(seq![bytes[0]] + rest =~= bytes);
    }
}

/// What is known of the first scalar of a byte string.
proof fn lemma_first_scalar_facts(s: Seq<u8>)
    requires
        valid_first_scalar(s),
    ensures
        1 <= length_of_first_scalar(s) <= 4,
        length_of_first_scalar(s) <= s.len(),
        length_of_first_scalar(s) == 1 ==> s[0] <= 0x7f && decode_first_scalar(s) == s[0] as u32,
        length_of_first_scalar(s) > 1 ==> decode_first_scalar(s) >= 0x80 && forall|i: int|
            0 <= i < length_of_first_scalar(s) ==> #[trigger] s[i] >= 0x80,
{
    let b = s[0];
    if is_leading_byte_width_1(b) {
        assert((b & 0x7f) as u32 == b as u32) by (bit_vector)
            requires
                b <= 0x7f,
        ;
    }
}

proof fn lemma_lex_escape(input: Seq<u8>, start: int, p: int, s: Seq<u8>)
    requires
        at(input, p, escape(s) + seq![34u8]),
    ensures
        lex_str_from(input, start, p) == Ok::<(Seq<u8>, int), crate::model::error::ParseError>(
            (s, p + escape(s).len() + 1),
        ),
    decreases s.len(),
{
    if s.len() == 0 {
        assert(escape(s) + seq![34u8] =~= seq![34u8]);
        lemma_at_byte(input, p, escape(s) + seq![34u8], 0);
        assert(s =~= Seq::<u8>::empty());
    } else if valid_first_scalar(s) {
        lemma_first_scalar_facts(s);
        let k = length_of_first_scalar(s);
        let cp = decode_first_scalar(s);
        let head = s.subrange(0, k);
        let tail = s.subrange(k, s.len() as int);
        let eh = escape_scalar(head, cp);
        assert(escape(s) == eh + escape(tail));
        assert(eh + escape(tail) + seq![34u8] =~= eh + (escape(tail) + seq![34u8]));
        lemma_at_split(input, p, eh, escape(tail) + seq![34u8]);
        lemma_lex_escape(input, start, p + eh.len(), tail);
        let after = lex_str_from(input, start, p + eh.len());
        if cp == 0x22 || cp == 0x5c {
            assert(k == 1);
            lemma_at_byte(input, p, eh, 0);
            lemma_at_byte(input, p, eh, 1);
            assert(lex_str_from(input, start, p) == str_cons(s[0], after));
            assert(seq![s[0]] + tail =~= s);
            assert(lex_str_from(input, start, p) == Ok::<(Seq<u8>, int), crate::model::error::ParseError>(
                (s, p + escape(s).len() + 1)));
        } else if is_control(cp) {
            lemma_lex_hex_all(input, start, p, head);
            assert(lex_str_from(input, start, p) == str_prefix(head, after));
            assert(head + tail =~= s);
            assert(lex_str_from(input, start, p) == Ok::<(Seq<u8>, int), crate::model::error::ParseError>(
                (s, p + escape(s).len() + 1)));
        } else {
            assert forall|i: int| 0 <= i < head.len() implies #[trigger] head[i] != 34 && head[i] != 92 by {
                assert(head[i] == s[i]);
            }
            lemma_lex_raw(input, start, p, head);
            assert(head + tail =~= s);
            assert(lex_str_from(input, start, p) == Ok::<(Seq<u8>, int), crate::model::error::ParseError>(
                (s, p + escape(s).len() + 1)));
        }
    } else {
        let eh = hex_escape(s[0]);
        let tail = s.drop_first();
        assert(escape(s) == eh + escape(tail));
        assert(eh + escape(tail) + seq![34u8] =~= eh + (escape(tail) + seq![34u8]));
        lemma_at_split(input, p, eh, escape(tail) + seq![34u8]);
        lemma_lex_hex(input, start, p, s[0]);
        lemma_lex_escape(input, start, p + 4, tail);
        assert(seq![s[0]] + tail =~= s);
        assert(lex_str_from(input, start, p) == Ok::<(Seq<u8>, int), crate::model::error::ParseError>(
            (s, p + escape(s).len() + 1)));
    }
}

proof fn lemma_lex_str(input: Seq<u8>, pos: int, s: Seq<u8>, k: Seq<SpecTokenKind>)
    requires
        at(input, pos, quoted(s)),
        lexes(input, pos + quoted(s).len(), k),
    ensures
        lexes(input, pos, seq![SpecTokenKind::Str(s)] + k),
{
    lemma_at_byte(input, pos, quoted(s), 0);
    assert(quoted(s) =~= seq![34u8] + (escape(s) + seq![34u8]));
    lemma_at_split(input, pos, seq![34u8], escape(s) + seq![34u8]);
    lemma_lex_escape(input, pos, pos + 1, s);
    lemma_lex_cons(input, pos, tok(SpecTokenKind::Str(s), pos), pos + quoted(s).len(), k);
}

// ---------------------------------------------------------------------------
// Parameters read back as the text between their parentheses.

proof fn lemma_str_local(input: Seq<u8>, w: Seq<u8>, base: int, sw: int, si: int, j: int)
    requires
        at(input, base, w),
        0 <= j,
    ensures
        lex_str_from(w, sw, j) matches Ok((v, e)) ==> lex_str_from(input, si, base + j) == Ok::<
            (Seq<u8>, int),
            crate::model::error::ParseError,
        >((v, base + e)),
    decreases w.len() - j,
{
    if j < w.len() {
        lemma_at_byte(input, base, w, j);
        if w[j] == 92 {
            if j + 1 < w.len() {
                lemma_at_byte(input, base, w, j + 1);
                lemma_str_local(input, w, base, sw, si, j + 2);
                if j + 4 <= w.len() {
                    lemma_at_byte(input, base, w, j + 2);
                    lemma_at_byte(input, base, w, j + 3);
                    lemma_str_local(input, w, base, sw, si, j + 4);
                }
            }
        } else if w[j] != 34 {
            lemma_str_local(input, w, base, sw, si, j + 1);
        }
    }
}

proof fn lemma_closing_local(input: Seq<u8>, w: Seq<u8>, base: int, ow: int, oi: int, i: int, depth: int)
    requires
        at(input, base, w),
        0 <= i,
    ensures
        closing_from(w, ow, i, depth) matches Ok(e) ==> closing_from(input, oi, base + i, depth) == Ok::<
            int,
            crate::model::error::ParseError,
        >(base + e),
    decreases w.len() - i,
{
    if i < w.len() {
        lemma_at_byte(input, base, w, i);
        if w[i] == 40 {
            lemma_closing_local(input, w, base, ow, oi, i + 1, depth + 1);
        } else if w[i] == 41 {
            lemma_closing_local(input, w, base, ow, oi, i + 1, depth - 1);
        } else if w[i] == 34 {
            lemma_str_local(input, w, base, i, base + i, i + 1);
            crate::rules::lexer::lemma_lex_str_end(w, i, i + 1);
            if let Ok((_, end)) = lex_string(w, i) {
                lemma_closing_local(input, w, base, ow, oi, end, depth);
            }
        } else {
            lemma_closing_local(input, w, base, ow, oi, i + 1, depth);
        }
    }
}

/// A parameter in parentheses, as it stands on its own.
pub open spec fn parenthesized(p: Seq<u8>) -> Seq<u8> {
    seq![40u8] + p + seq![41u8]
}

/// The parentheses around `p` match each other: scanning from the `(`, the
/// closing `)` is the last byte.
pub open spec fn closes_at_end(p: Seq<u8>) -> bool {
    closing_paren(parenthesized(p), 0) == Ok::<int, crate::model::error::ParseError>(p.len() + 1int)
}

proof fn lemma_lex_param(input: Seq<u8>, pos: int, p: Seq<u8>, k: Seq<SpecTokenKind>)
    requires
        at(input, pos, parenthesized(p)),
        closes_at_end(p),
        lexes(input, pos + p.len() + 2, k),
    ensures
        lexes(input, pos, seq![SpecTokenKind::Param(p)] + k),
{
    let w = parenthesized(p);
    lemma_at_byte(input, pos, w, 0);
    lemma_closing_local(input, w, pos, 0, pos, 0, 0);
    lemma_at_split(input, pos, seq![40u8] + p, seq![41u8]);
    lemma_at_split(input, pos, seq![40u8], p);
    lemma_lex_cons(input, pos, tok(SpecTokenKind::Param(p), pos), pos + p.len() + 2, k);
}

// ---------------------------------------------------------------------------
// The tokens each piece of rendered text reads back as.

/// The token a value is read from.
pub open spec fn value_kind(v: SpecValue) -> SpecTokenKind {
    match v {
        SpecValue::UsbId(id) => SpecTokenKind::Word(id.text()),
        SpecValue::Interface(i) => SpecTokenKind::Word(i.text()),
        SpecValue::Str(s) => SpecTokenKind::Str(s),
    }
}

/// The tokens values are read from.
pub open spec fn values_kinds(vs: Seq<SpecValue>) -> Seq<SpecTokenKind> {
    vs.map_values(|v: SpecValue| value_kind(v))
}

/// The token of an optional set operator.
pub open spec fn operator_kinds(operator: Option<SetOperator>) -> Seq<SpecTokenKind> {
    match operator {
        Some(op) => seq![SpecTokenKind::Word(op.kw())],
        None => Seq::empty(),
    }
}

/// The tokens of an attribute's value or values.
pub open spec fn values_part_kinds(v: SpecValues) -> Seq<SpecTokenKind> {
    match v {
        SpecValues::Single(v) => seq![value_kind(v)],
        SpecValues::SetOf { operator, values } => operator_kinds(operator) + seq![SpecTokenKind::LBrace]
            + values_kinds(values) + seq![SpecTokenKind::RBrace],
    }
}

/// The tokens of an attribute.
pub open spec fn attribute_kinds(a: SpecAttribute) -> Seq<SpecTokenKind> {
    seq![SpecTokenKind::Word(a.name.kw())] + values_part_kinds(a.values)
}

/// The tokens of a condition.
pub open spec fn condition_kinds(c: SpecCondition) -> Seq<SpecTokenKind> {
    (if c.negated {
        seq![SpecTokenKind::Bang]
    } else {
        Seq::empty()
    }) + seq![SpecTokenKind::Word(c.name.kw())] + (match c.parameter {
        Some(p) => seq![SpecTokenKind::Param(p)],
        None => Seq::empty(),
    })
}

/// Token sequences one after the other.
pub open spec fn flat(ks: Seq<Seq<SpecTokenKind>>) -> Seq<SpecTokenKind>
    decreases ks.len(),
{
    if ks.len() == 0 {
        Seq::empty()
    } else {
        flat(ks.drop_last()) + ks.last()
    }
}

/// The tokens of a sequence of conditions.
pub open spec fn conditions_kinds(cs: Seq<SpecCondition>) -> Seq<SpecTokenKind> {
    flat(cs.map_values(|c: SpecCondition| condition_kinds(c)))
}

/// The tokens of an `if` clause, after the `if`.
pub open spec fn clause_kinds(c: SpecClause) -> Seq<SpecTokenKind> {
    match c {
        SpecClause::Single(c) => condition_kinds(c),
        SpecClause::SetOf { operator, conditions } => operator_kinds(operator) + seq![SpecTokenKind::LBrace]
            + conditions_kinds(conditions) + seq![SpecTokenKind::RBrace],
    }
}

/// The tokens of each piece of a rule's text.
#[verifier::opaque]
pub open spec fn rule_part_kinds(r: SpecRule) -> Seq<Seq<SpecTokenKind>> {
    let target = match r.target {
        Some(t) => seq![seq![SpecTokenKind::Word(t.kw())]],
        None => Seq::empty(),
    };
    let condition = match r.condition {
        Some(c) => seq![seq![SpecTokenKind::Word(if_keyword())] + clause_kinds(c)],
        None => Seq::empty(),
    };
    let comment = match r.comment {
        Some(c) => seq![seq![SpecTokenKind::Comment(c)]],
        None => Seq::empty(),
    };
    target + r.attributes.map_values(|a: SpecAttribute| attribute_kinds(a)) + condition + comment
}

proof fn lemma_lex_value(input: Seq<u8>, pos: int, v: SpecValue, k: Seq<SpecTokenKind>)
    requires
        at(input, pos, value_text(v)),
        follows(input, pos + value_text(v).len()),
        lexes(input, pos + value_text(v).len(), k),
    ensures
        lexes(input, pos, seq![value_kind(v)] + k),
{
    match v {
        SpecValue::UsbId(id) => {
            lemma_id_text_ascii(id);
            lemma_id_no_delimiter(id.text());
            lemma_lex_word(input, pos, id.text(), k);
        },
        SpecValue::Interface(i) => {
            lemma_interface_text_ascii(i);
            lemma_id_no_delimiter(i.text());
            lemma_lex_word(input, pos, i.text(), k);
        },
        SpecValue::Str(s) => {
            lemma_lex_str(input, pos, s, k);
        },
    }
}

proof fn lemma_lex_values(input: Seq<u8>, pos: int, vs: Seq<SpecValue>, k: Seq<SpecTokenKind>)
    requires
        at(input, pos, values_text(vs)),
        follows(input, pos + values_text(vs).len()),
        lexes(input, pos + values_text(vs).len(), k),
    ensures
        lexes(input, pos, values_kinds(vs) + k),
    decreases vs.len(),
{
    if vs.len() == 0 {
        assert(values_kinds(vs) + k =~= k);
    } else {
        let pre = vs.drop_last();
        let last = vs.last();
        let q = pos + values_text(pre).len();
        lemma_at_split(input, pos, values_text(pre) + seq![32u8], value_text(last));
        lemma_at_split(input, pos, values_text(pre), seq![32u8]);
        lemma_at_byte(input, q, seq![32u8], 0);
        lemma_lex_value(input, q + 1, last, k);
        lemma_lex_space(input, q, seq![value_kind(last)] + k);
        lemma_lex_values(input, pos, pre, seq![value_kind(last)] + k);
        assert(values_kinds(vs) =~= values_kinds(pre) + seq![value_kind(last)]);
        assert(values_kinds(pre) + (seq![value_kind(last)] + k) =~= values_kinds(vs) + k);
    }
}

proof fn lemma_lex_keyword(input: Seq<u8>, pos: int, w: Seq<u8>, k: Seq<SpecTokenKind>)
    requires
        keyword_bytes(w),
        at(input, pos, w),
        pos + w.len() == input.len() || is_delimiter(input[pos + w.len()]),
        lexes(input, pos + w.len(), k),
    ensures
        lexes(input, pos, seq![SpecTokenKind::Word(w)] + k),
{
    lemma_keyword_no_delimiter(w);
    lemma_lex_word(input, pos, w, k);
}

proof fn lemma_lex_values_part(input: Seq<u8>, pos: int, v: SpecValues, k: Seq<SpecTokenKind>)
    requires
        at(input, pos, values_part(v)),
        follows(input, pos + values_part(v).len()),
        lexes(input, pos + values_part(v).len(), k),
    ensures
        lexes(input, pos, values_part_kinds(v) + k),
{
    match v {
        SpecValues::Single(x) => {
            lemma_at_split(input, pos, seq![32u8], value_text(x));
            lemma_at_byte(input, pos, seq![32u8], 0);
            lemma_lex_value(input, pos + 1, x, k);
            lemma_lex_space(input, pos, seq![value_kind(x)] + k);
        },
        SpecValues::SetOf { operator, values } => {
            let o = operator_text(operator);
            let vt = values_text(values);
            let q = pos + o.len() + 2;
            let e = q + vt.len();
            lemma_at_split(input, pos, o + seq![32u8, 123u8] + vt, seq![32u8, 125u8]);
            lemma_at_split(input, pos, o + seq![32u8, 123u8], vt);
            lemma_at_split(input, pos, o, seq![32u8, 123u8]);
            lemma_at_byte(input, e, seq![32u8, 125u8], 0);
            lemma_at_byte(input, e, seq![32u8, 125u8], 1);
            lemma_at_byte(input, pos + o.len(), seq![32u8, 123u8], 0);
            lemma_at_byte(input, pos + o.len(), seq![32u8, 123u8], 1);
            lemma_lex_punct(input, e + 1, k);
            lemma_lex_space(input, e, seq![SpecTokenKind::RBrace] + k);
            lemma_lex_values(input, q, values, seq![SpecTokenKind::RBrace] + k);
            let k2 = values_kinds(values) + (seq![SpecTokenKind::RBrace] + k);
            lemma_lex_punct(input, q - 1, k2);
            lemma_lex_space(input, q - 2, seq![SpecTokenKind::LBrace] + k2);
            let k3 = seq![SpecTokenKind::LBrace] + k2;
            if let Some(op) = operator {
                lemma_operator_keywords(op);
                lemma_at_split(input, pos, seq![32u8], op.kw());
                lemma_at_byte(input, pos, seq![32u8], 0);
                lemma_lex_keyword(input, pos + 1, op.kw(), k3);
                lemma_lex_space(input, pos, seq![SpecTokenKind::Word(op.kw())] + k3);
                assert(operator_kinds(operator) + k3 =~= seq![SpecTokenKind::Word(op.kw())] + k3);
            } else {
                assert(operator_kinds(operator) + k3 =~= k3);
            }
            assert(values_part_kinds(v) + k =~= operator_kinds(operator) + k3);
        },
    }
}

proof fn lemma_lex_attribute(input: Seq<u8>, pos: int, a: SpecAttribute, k: Seq<SpecTokenKind>)
    requires
        at(input, pos, attribute_text(a)),
        follows(input, pos + attribute_text(a).len()),
        lexes(input, pos + attribute_text(a).len(), k),
    ensures
        lexes(input, pos, attribute_kinds(a) + k),
{
    lemma_attribute_keywords(a.name);
    let w = a.name.kw();
    lemma_at_split(input, pos, w, values_part(a.values));
    lemma_lex_values_part(input, pos + w.len(), a.values, k);
    let vp = values_part(a.values);
    assert(vp[0] == 32u8) by {
        match a.values {
            SpecValues::Single(x) => {},
            SpecValues::SetOf { operator, values } => {
                if let Some(op) = operator {
                    assert(vp == seq![32u8] + op.kw() + seq![32u8, 123u8] + values_text(values) + seq![32u8, 125u8]);
                } else {
                    assert(vp == seq![32u8, 123u8] + values_text(values) + seq![32u8, 125u8]);
                }
            },
        }
    }
    lemma_at_byte(input, pos + w.len(), vp, 0);
    lemma_lex_keyword(input, pos, w, values_part_kinds(a.values) + k);
    assert(attribute_kinds(a) + k =~= seq![SpecTokenKind::Word(w)] + (values_part_kinds(a.values) + k));
}

/// A condition whose text reads back: its parameter, if any, is valid
/// UTF-8 and closes exactly at its own closing parenthesis.
pub open spec fn condition_renders(c: SpecCondition) -> bool {
    match c.parameter {
        Some(p) => valid_utf8(p) && closes_at_end(p),
        None => true,
    }
}

proof fn lemma_lex_condition(input: Seq<u8>, pos: int, c: SpecCondition, k: Seq<SpecTokenKind>)
    requires
        condition_renders(c),
        at(input, pos, condition_text(c)),
        follows(input, pos + condition_text(c).len()),
        lexes(input, pos + condition_text(c).len(), k),
    ensures
        lexes(input, pos, condition_kinds(c) + k),
{
    lemma_condition_keywords(c.name);
    let neg = if c.negated {
        seq![33u8]
    } else {
        Seq::<u8>::empty()
    };
    let w = c.name.kw();
    let pp = match c.parameter {
        Some(p) => seq![40u8] + lossy_bytes(p) + seq![41u8],
        None => Seq::<u8>::empty(),
    };
    let pk = match c.parameter {
        Some(p) => seq![SpecTokenKind::Param(p)],
        None => Seq::<SpecTokenKind>::empty(),
    };
    assert(condition_text(c) == neg + w + pp);
    lemma_at_split(input, pos, neg + w, pp);
    lemma_at_split(input, pos, neg, w);
    let q = pos + neg.len() + w.len();
    if let Some(p) = c.parameter {
        assert(pp == parenthesized(p));
        lemma_lex_param(input, q, p, k);
        lemma_at_byte(input, q, pp, 0);
    } else {
        assert(pk + k =~= k);
    }
    lemma_lex_keyword(input, pos + neg.len(), w, pk + k);
    if c.negated {
        lemma_at_byte(input, pos, neg, 0);
        lemma_lex_punct(input, pos, seq![SpecTokenKind::Word(w)] + (pk + k));
        assert(condition_kinds(c) + k =~= seq![SpecTokenKind::Bang] + (seq![SpecTokenKind::Word(w)] + (pk + k)));
    } else {
        assert(condition_kinds(c) + k =~= seq![SpecTokenKind::Word(w)] + (pk + k));
    }
}

proof fn lemma_flat_push(ks: Seq<Seq<SpecTokenKind>>, x: Seq<SpecTokenKind>)
    ensures
        flat(ks.push(x)) == flat(ks) + x,
{
    assert(ks.push(x).drop_last() =~= ks);
}

proof fn lemma_lex_conditions(input: Seq<u8>, pos: int, cs: Seq<SpecCondition>, k: Seq<SpecTokenKind>)
    requires
        forall|i: int| 0 <= i < cs.len() ==> condition_renders(#[trigger] cs[i]),
        at(input, pos, conditions_text(cs)),
        follows(input, pos + conditions_text(cs).len()),
        lexes(input, pos + conditions_text(cs).len(), k),
    ensures
        lexes(input, pos, conditions_kinds(cs) + k),
    decreases cs.len(),
{
    if cs.len() == 0 {
        assert(cs.map_values(|c: SpecCondition| condition_kinds(c)) =~= Seq::<Seq<SpecTokenKind>>::empty());
        assert(conditions_kinds(cs) + k =~= k);
    } else {
        let pre = cs.drop_last();
        let last = cs.last();
        let q = pos + conditions_text(pre).len();
        lemma_at_split(input, pos, conditions_text(pre) + seq![32u8], condition_text(last));
        lemma_at_split(input, pos, conditions_text(pre), seq![32u8]);
        lemma_at_byte(input, q, seq![32u8], 0);
        lemma_lex_condition(input, q + 1, last, k);
        lemma_lex_space(input, q, condition_kinds(last) + k);
        lemma_lex_conditions(input, pos, pre, condition_kinds(last) + k);
        let m = cs.map_values(|c: SpecCondition| condition_kinds(c));
        assert(m =~= pre.map_values(|c: SpecCondition| condition_kinds(c)).push(condition_kinds(last)));
        lemma_flat_push(pre.map_values(|c: SpecCondition| condition_kinds(c)), condition_kinds(last));
        assert(conditions_kinds(pre) + (condition_kinds(last) + k) =~= conditions_kinds(cs) + k);
    }
}

/// A clause whose text reads back.
pub open spec fn clause_renders(c: SpecClause) -> bool {
    match c {
        SpecClause::Single(c) => condition_renders(c),
        SpecClause::SetOf { conditions, .. } => forall|i: int|
            0 <= i < conditions.len() ==> condition_renders(#[trigger] conditions[i]),
    }
}

proof fn lemma_lex_clause(input: Seq<u8>, pos: int, c: SpecClause, k: Seq<SpecTokenKind>)
    requires
        clause_renders(c),
        at(input, pos, clause_text(c)),
        follows(input, pos + clause_text(c).len()),
        lexes(input, pos + clause_text(c).len(), k),
    ensures
        lexes(input, pos, clause_kinds(c) + k),
{
    match c {
        SpecClause::Single(x) => {
            lemma_lex_condition(input, pos, x, k);
        },
        SpecClause::SetOf { operator, conditions } => {
            let o = match operator {
                Some(op) => op.kw() + seq![32u8],
                None => Seq::<u8>::empty(),
            };
            let ct = conditions_text(conditions);
            let q = pos + o.len() + 1;
            let e = q + ct.len();
            assert(clause_text(c) == o + seq![123u8] + ct + seq![32u8, 125u8]);
            lemma_at_split(input, pos, o + seq![123u8] + ct, seq![32u8, 125u8]);
            lemma_at_split(input, pos, o + seq![123u8], ct);
            lemma_at_split(input, pos, o, seq![123u8]);
            lemma_at_byte(input, e, seq![32u8, 125u8], 0);
            lemma_at_byte(input, e, seq![32u8, 125u8], 1);
            lemma_at_byte(input, pos + o.len(), seq![123u8], 0);
            lemma_lex_punct(input, e + 1, k);
            lemma_lex_space(input, e, seq![SpecTokenKind::RBrace] + k);
            lemma_lex_conditions(input, q, conditions, seq![SpecTokenKind::RBrace] + k);
            let k2 = conditions_kinds(conditions) + (seq![SpecTokenKind::RBrace] + k);
            lemma_lex_punct(input, q - 1, k2);
            let k3 = seq![SpecTokenKind::LBrace] + k2;
            if let Some(op) = operator {
                lemma_operator_keywords(op);
                lemma_at_split(input, pos, op.kw(), seq![32u8]);
                lemma_at_byte(input, pos + op.kw().len(), seq![32u8], 0);
                lemma_lex_space(input, pos + op.kw().len(), k3);
                lemma_lex_keyword(input, pos, op.kw(), k3);
                assert(operator_kinds(operator) + k3 =~= seq![SpecTokenKind::Word(op.kw())] + k3);
            } else {
                assert(operator_kinds(operator) + k3 =~= k3);
            }
            assert(clause_kinds(c) + k =~= operator_kinds(operator) + k3);
        },
    }
}

/// A rule whose text reads back: its clause renders, and its comment is
/// valid UTF-8.
pub open spec fn rule_renders(r: SpecRule) -> bool {
    &&& r.condition matches Some(c) ==> clause_renders(c)
    &&& r.comment matches Some(c) ==> valid_utf8(c)
}

proof fn lemma_lex_part(input: Seq<u8>, pos: int, r: SpecRule, i: int, k: Seq<SpecTokenKind>)
    requires
        rule_renders(r),
        0 <= i < rule_parts(r).len(),
        at(input, pos, rule_parts(r)[i]),
        follows(input, pos + rule_parts(r)[i].len()),
        lexes(input, pos + rule_parts(r)[i].len(), k),
        i == rule_parts(r).len() - 1 && r.comment is Some ==> pos + rule_parts(r)[i].len() == input.len(),
    ensures
        lexes(input, pos, rule_part_kinds(r)[i] + k),
{
    lemma_if_keyword();
    if let Some(t) = r.target {
        lemma_target_keywords(t);
    }
    reveal(rule_parts);
    reveal(rule_part_kinds);
    let parts = rule_parts(r);
    let kp = rule_part_kinds(r);
    let nt: int = if r.target is Some {
        1
    } else {
        0
    };
    let na = r.attributes.len() as int;
    let nc: int = if r.condition is Some {
        1
    } else {
        0
    };
    assert(parts.len() == kp.len());
    if i < nt {
        let t = r.target.unwrap();
        assert(parts[i] == t.kw());
        assert(kp[i] == seq![SpecTokenKind::Word(t.kw())]);
        lemma_lex_keyword(input, pos, t.kw(), k);
    } else if i < nt + na {
        let a = r.attributes[i - nt];
        assert(parts[i] == attribute_text(a));
        assert(kp[i] == attribute_kinds(a));
        lemma_lex_attribute(input, pos, a, k);
    } else if i < nt + na + nc {
        let c = r.condition.unwrap();
        let ct = clause_text(c);
        assert(parts[i] == seq![105u8, 102u8, 32u8] + ct);
        assert(kp[i] == seq![SpecTokenKind::Word(if_keyword())] + clause_kinds(c));
        assert(seq![105u8, 102u8, 32u8] + ct == if_keyword() + (seq![32u8] + ct));
        lemma_at_split(input, pos, if_keyword(), seq![32u8] + ct);
        lemma_at_split(input, pos + 2, seq![32u8], ct);
        lemma_at_byte(input, pos + 2, seq![32u8], 0);
        lemma_lex_clause(input, pos + 3, c, k);
        lemma_lex_space(input, pos + 2, clause_kinds(c) + k);
        lemma_lex_keyword(input, pos, if_keyword(), clause_kinds(c) + k);
        assert(kp[i] + k =~= seq![SpecTokenKind::Word(if_keyword())] + (clause_kinds(c) + k));
    } else {
        let c = r.comment.unwrap();
        assert(parts[i] == seq![35u8] + lossy_bytes(c));
        assert(lossy_bytes(c) == c);
        assert(kp[i] == seq![SpecTokenKind::Comment(c)]);
        lemma_lex_comment(input, pos, c);
        let ts = lex_from(input, input.len() as int).unwrap();
        assert(kinds(ts) =~= Seq::<SpecTokenKind>::empty());
        assert(kp[i] + k =~= kp[i]);
    }
}

proof fn lemma_parts_len(r: SpecRule)
    ensures
        rule_parts(r).len() == rule_part_kinds(r).len(),
{
    reveal(rule_parts);
    reveal(rule_part_kinds);
}

proof fn lemma_lex_join(input: Seq<u8>, r: SpecRule, n: int, k: Seq<SpecTokenKind>)
    requires
        rule_renders(r),
        0 <= n <= rule_parts(r).len(),
        at(input, 0, join_spaced(rule_parts(r).subrange(0, n))),
        follows(input, join_spaced(rule_parts(r).subrange(0, n)).len() as int),
        lexes(input, join_spaced(rule_parts(r).subrange(0, n)).len() as int, k),
        n == rule_parts(r).len() ==> join_spaced(rule_parts(r).subrange(0, n)).len() == input.len(),
    ensures
        lexes(input, 0, flat(rule_part_kinds(r).subrange(0, n)) + k),
    decreases n,
{
    lemma_parts_len(r);
    let parts = rule_parts(r);
    let kp = rule_part_kinds(r);
    assert(parts.len() == kp.len());
    if n == 0 {
        assert(flat(kp.subrange(0, 0)) + k =~= k);
    } else {
        let pre = parts.subrange(0, n - 1);
        let last = parts[n - 1];
        assert(parts.subrange(0, n).drop_last() =~= pre);
        assert(parts.subrange(0, n).last() == last);
        assert(kp.subrange(0, n).drop_last() =~= kp.subrange(0, n - 1));
        assert(flat(kp.subrange(0, n)) == flat(kp.subrange(0, n - 1)) + kp[n - 1]);
        let jn = join_spaced(parts.subrange(0, n));
        if n == 1 {
            assert(jn == last);
            lemma_lex_part(input, 0, r, 0, k);
            assert(flat(kp.subrange(0, 0)) =~= Seq::<SpecTokenKind>::empty());
            assert(flat(kp.subrange(0, n)) + k =~= kp[0] + k);
        } else {
            let jp = join_spaced(pre);
            assert(jn == jp + seq![32u8] + last);
            lemma_at_split(input, 0, jp + seq![32u8], last);
            lemma_at_split(input, 0, jp, seq![32u8]);
            lemma_at_byte(input, jp.len() as int, seq![32u8], 0);
            lemma_lex_part(input, jp.len() + 1int, r, n - 1, k);
            lemma_lex_space(input, jp.len() as int, kp[n - 1] + k);
            lemma_lex_join(input, r, n - 1, kp[n - 1] + k);
            assert(flat(kp.subrange(0, n - 1)) + (kp[n - 1] + k) =~= flat(kp.subrange(0, n)) + k);
        }
    }
}

/// The tokens of a rule's text, in order.
pub open spec fn rule_kinds(r: SpecRule) -> Seq<SpecTokenKind> {
    flat(rule_part_kinds(r))
}

/// Rendered text lexes back to the tokens it was written from.
pub proof fn lemma_lex_render(r: SpecRule)
    requires
        rule_renders(r),
    ensures
        lexes(render(r), 0, rule_kinds(r)),
{
    let input = render(r);
    let parts = rule_parts(r);
    let n = parts.len() as int;
    lemma_parts_len(r);
    assert(parts.subrange(0, n) =~= parts);
    assert(rule_part_kinds(r).subrange(0, n) =~= rule_part_kinds(r));
    assert(input.subrange(0, input.len() as int) =~= input);
    lemma_lex_end(input);
    lemma_lex_join(input, r, n, Seq::empty());
    assert(rule_kinds(r) + Seq::<SpecTokenKind>::empty() =~= rule_kinds(r));
}

// ---------------------------------------------------------------------------
// The tokens of a rule parse back to the rule.

/// The tokens from `pos` on begin with tokens of kinds `k`.
pub open spec fn kinds_at(ts: Seq<SpecToken>, pos: int, k: Seq<SpecTokenKind>) -> bool {
    &&& 0 <= pos
    &&& pos + k.len() <= ts.len()
    &&& forall|j: int| 0 <= j < k.len() ==> ts[pos + j].kind == #[trigger] k[j]
}

proof fn lemma_kinds_at_split(ts: Seq<SpecToken>, pos: int, a: Seq<SpecTokenKind>, b: Seq<SpecTokenKind>)
    requires
        kinds_at(ts, pos, a + b),
    ensures
        kinds_at(ts, pos, a),
        kinds_at(ts, pos + a.len(), b),
{
    assert forall|j: int| 0 <= j < a.len() implies ts[pos + j].kind == #[trigger] a[j] by {
        assert((a + b)[j] == a[j]);
    }
    assert forall|j: int| 0 <= j < b.len() implies ts[pos + a.len() + j].kind == #[trigger] b[j] by {
        assert((a + b)[a.len() + j] == b[j]);
    }
}

proof fn lemma_flat_concat(a: Seq<Seq<SpecTokenKind>>, b: Seq<Seq<SpecTokenKind>>)
    ensures
        flat(a + b) == flat(a) + flat(b),
    decreases b.len(),
{
    if b.len() == 0 {
        assert(a + b =~= a);
        assert(flat(a) + flat(b) =~= flat(a));
    } else {
        assert((a + b).drop_last() =~= a + b.drop_last());
        lemma_flat_concat(a, b.drop_last());
        assert(flat(a) + flat(b.drop_last()) + b.last() =~= flat(a) + (flat(b.drop_last()) + b.last()));
    }
}

proof fn lemma_flat_first(ks: Seq<Seq<SpecTokenKind>>)
    requires
        ks.len() > 0,
    ensures
        flat(ks) == ks[0] + flat(ks.drop_first()),
{
    assert(ks =~= seq![ks[0]] + ks.drop_first());
    lemma_flat_concat(seq![ks[0]], ks.drop_first());
    let one = seq![ks[0]];
    assert(one.drop_last() =~= Seq::<Seq<SpecTokenKind>>::empty());
    assert(flat(one) == flat(one.drop_last()) + one.last());
    assert(flat(one.drop_last()) =~= Seq::<SpecTokenKind>::empty());
    assert(flat(one) =~= ks[0]);
}

/// A value fits the attribute it belongs to, and is a valid value.
pub open spec fn value_fits(name: AttributeName, v: SpecValue) -> bool {
    match v {
        SpecValue::UsbId(id) => name is Id && id.valid(),
        SpecValue::Interface(i) => name is WithInterface && i.valid(),
        SpecValue::Str(_) => name.is_string_valued(),
    }
}

/// The values of an attribute fit it, and a set holds no more values than
/// the parser accepts.
pub open spec fn values_fit(name: AttributeName, v: SpecValues) -> bool {
    match v {
        SpecValues::Single(x) => value_fits(name, x),
        SpecValues::SetOf { values, .. } => values.len() <= MAX_SET_VALUES && forall|i: int|
            0 <= i < values.len() ==> value_fits(name, #[trigger] values[i]),
    }
}

proof fn lemma_parse_value(ts: Seq<SpecToken>, pos: int, name: AttributeName, v: SpecValue, end: int)
    requires
        kinds_at(ts, pos, seq![value_kind(v)]),
        value_fits(name, v),
    ensures
        spec_value(ts, pos, name, end) == Ok::<SpecValue, crate::model::error::ParseError>(v),
{
    assert(ts[pos + 0].kind == seq![value_kind(v)][0]);
    match v {
        SpecValue::UsbId(id) => id.lemma_parse_text(),
        SpecValue::Interface(i) => i.lemma_parse_text(),
        SpecValue::Str(_) => {},
    }
}

proof fn lemma_parse_set_values(
    ts: Seq<SpecToken>,
    pos: int,
    name: AttributeName,
    acc: Seq<SpecValue>,
    vs: Seq<SpecValue>,
    end: int,
)
    requires
        kinds_at(ts, pos, values_kinds(vs) + seq![SpecTokenKind::RBrace]),
        acc.len() + vs.len() <= MAX_SET_VALUES,
        forall|i: int| 0 <= i < vs.len() ==> value_fits(name, #[trigger] vs[i]),
    ensures
        spec_set_values(ts, pos, name, acc, end) == Ok::<(Seq<SpecValue>, int), crate::model::error::ParseError>(
            (acc + vs, pos + vs.len() + 1),
        ),
    decreases vs.len(),
{
    let k = values_kinds(vs) + seq![SpecTokenKind::RBrace];
    if vs.len() == 0 {
        assert(k[0] == SpecTokenKind::RBrace);
        assert(ts[pos + 0].kind == k[0]);
        assert(acc + vs =~= acc);
    } else {
        let v = vs[0];
        let rest = vs.drop_first();
        assert(k[0] == value_kind(v));
        assert(ts[pos + 0].kind == k[0]);
        assert(value_kind(v) != SpecTokenKind::RBrace);
        assert(k =~= seq![value_kind(v)] + (values_kinds(rest) + seq![SpecTokenKind::RBrace]));
        lemma_kinds_at_split(ts, pos, seq![value_kind(v)], values_kinds(rest) + seq![SpecTokenKind::RBrace]);
        lemma_parse_value(ts, pos, name, v, end);
        lemma_parse_set_values(ts, pos + 1, name, acc.push(v), rest, end);
        assert(acc.push(v) + rest =~= acc + vs);
    }
}

proof fn lemma_parse_attribute_values(ts: Seq<SpecToken>, pos: int, name: AttributeName, v: SpecValues, end: int)
    requires
        kinds_at(ts, pos, values_part_kinds(v)),
        values_fit(name, v),
    ensures
        spec_attribute_values(ts, pos, name, end) == Ok::<(SpecValues, int), crate::model::error::ParseError>(
            (v, pos + values_part_kinds(v).len()),
        ),
{
    let k = values_part_kinds(v);
    assert(ts[pos + 0].kind == k[0]);
    match v {
        SpecValues::Single(x) => {
            match x {
                SpecValue::UsbId(id) => {
                    lemma_id_text_ascii(id);
                    lemma_id_text_not_operator(id.text());
                },
                SpecValue::Interface(i) => {
                    lemma_interface_text_ascii(i);
                    lemma_id_text_not_operator(i.text());
                },
                SpecValue::Str(_) => {},
            }
            lemma_parse_value(ts, pos, name, x, end);
        },
        SpecValues::SetOf { operator, values } => {
            let tail = values_kinds(values) + seq![SpecTokenKind::RBrace];
            assert(k =~= operator_kinds(operator) + (seq![SpecTokenKind::LBrace] + tail));
            lemma_kinds_at_split(ts, pos, operator_kinds(operator), seq![SpecTokenKind::LBrace] + tail);
            let q = pos + operator_kinds(operator).len();
            lemma_kinds_at_split(ts, q, seq![SpecTokenKind::LBrace], tail);
            assert(ts[q + 0].kind == (seq![SpecTokenKind::LBrace] + tail)[0]);
            lemma_parse_set_values(ts, q + 1, name, Seq::empty(), values, end);
            assert(Seq::<SpecValue>::empty() + values =~= values);
            if let Some(op) = operator {
                lemma_operator_keywords(op);
                assert(spec_set(ts, pos + 1, name, operator, end) == Ok::<(SpecValues, int), crate::model::error::ParseError>(
                    (v, pos + values_part_kinds(v).len())));
            } else {
                assert(spec_set(ts, pos, name, operator, end) == Ok::<(SpecValues, int), crate::model::error::ParseError>(
                    (v, pos + values_part_kinds(v).len())));
            }
        },
    }
}

/// An attribute fits: its values fit its name.
pub open spec fn attribute_fits(a: SpecAttribute) -> bool {
    values_fit(a.name, a.values)
}

/// No two attributes share a name.
pub open spec fn distinct_names(attrs: Seq<SpecAttribute>) -> bool {
    forall|i: int, j: int| 0 <= i < j < attrs.len() ==> #[trigger] attrs[i].name != #[trigger] attrs[j].name
}

/// The tokens of a sequence of attributes.
pub open spec fn attributes_kinds(attrs: Seq<SpecAttribute>) -> Seq<SpecTokenKind> {
    flat(attrs.map_values(|a: SpecAttribute| attribute_kinds(a)))
}

/// The token at `pos` ends a run of attributes: the end, a comment, or `if`.
pub open spec fn ends_attributes(ts: Seq<SpecToken>, pos: int) -> bool {
    pos == ts.len() || (0 <= pos < ts.len() && (ts[pos].kind is Comment || ts[pos].kind == SpecTokenKind::Word(
        if_keyword(),
    )))
}

proof fn lemma_parse_attributes(
    len: int,
    ts: Seq<SpecToken>,
    pos: int,
    acc: Seq<SpecAttribute>,
    attrs: Seq<SpecAttribute>,
)
    requires
        kinds_at(ts, pos, attributes_kinds(attrs)),
        ends_attributes(ts, pos + attributes_kinds(attrs).len()),
        distinct_names(acc + attrs),
        forall|i: int| 0 <= i < attrs.len() ==> attribute_fits(#[trigger] attrs[i]),
    ensures
        spec_attributes(len, ts, pos, acc) == spec_attributes(
            len,
            ts,
            pos + attributes_kinds(attrs).len(),
            acc + attrs,
        ),
    decreases attrs.len(),
{
    if attrs.len() == 0 {
        assert(attrs.map_values(|a: SpecAttribute| attribute_kinds(a)) =~= Seq::<Seq<SpecTokenKind>>::empty());
        assert(acc + attrs =~= acc);
    } else {
        lemma_attribute_keywords(attrs[0].name);
        lemma_attribute_keyword_distinct(attrs[0].name);
        let a = attrs[0];
        let rest = attrs.drop_first();
        let m = attrs.map_values(|a: SpecAttribute| attribute_kinds(a));
        lemma_flat_first(m);
        assert(m.drop_first() =~= rest.map_values(|a: SpecAttribute| attribute_kinds(a)));
        lemma_kinds_at_split(ts, pos, attribute_kinds(a), attributes_kinds(rest));
        let ak = attribute_kinds(a);
        assert(ak =~= seq![SpecTokenKind::Word(a.name.kw())] + values_part_kinds(a.values));
        lemma_kinds_at_split(ts, pos, seq![SpecTokenKind::Word(a.name.kw())], values_part_kinds(a.values));
        assert(ts[pos + 0].kind == seq![SpecTokenKind::Word(a.name.kw())][0]);
        lemma_attr_index_from(acc, a.name, 0);
        assert(attr_index_from(acc, a.name, 0) is None) by {
            if let Some(i) = attr_index_from(acc, a.name, 0) {
                assert((acc + attrs)[i] == acc[i]);
                assert((acc + attrs)[acc.len() as int] == a);
            }
        }
        lemma_parse_attribute_values(ts, pos + 1, a.name, a.values, len);
        assert(acc.push(SpecAttribute { name: a.name, values: a.values }) + rest =~= acc + attrs);
        assert(distinct_names(acc.push(a) + rest)) by {
            assert(acc.push(a) + rest =~= acc + attrs);
        }
        lemma_parse_attributes(len, ts, pos + ak.len(), acc.push(a), rest);
        assert(SpecAttribute { name: a.name, values: a.values } == a);
    }
}

/// A condition fits: it renders, and its parameter, or its absence, is what
/// the condition takes; the parameter of `allowed-matches` is a query.
#[verifier::opaque]
pub open spec fn condition_fits(c: SpecCondition) -> bool {
    &&& condition_renders(c)
    &&& match c.parameter {
        None => param_shape_ok(c.name, None),
        Some(p) => if c.name is AllowedMatches {
            parse_spec(p, Mode::Query) is Ok
        } else {
            param_shape_ok(c.name, Some(p))
        },
    }
}

proof fn lemma_parse_cond_syntax(ts: Seq<SpecToken>, pos: int, c: SpecCondition, end: int)
    requires
        kinds_at(ts, pos, condition_kinds(c)),
        c.parameter is None ==> !(peek_kind(ts, pos + condition_kinds(c).len()) matches Some(
            SpecTokenKind::Param(_),
        )),
    ensures
        cond_syntax(ts, pos, end) matches Ok((n, name, param, p2)) && n == c.negated && name == c.name && p2
            == pos + condition_kinds(c).len() && make_condition(n, name, param) == c && (param matches Some(
            (p, o),
        ) ==> ts[p2 - 1].kind == SpecTokenKind::Param(p)),
{
    lemma_condition_keywords(c.name);
    let nb: int = if c.negated {
        1
    } else {
        0
    };
    let ck = condition_kinds(c);
    assert(ts[pos + nb].kind == ck[nb]);
    assert(ck[nb] == SpecTokenKind::Word(c.name.kw()));
    if c.negated {
        assert(ts[pos + 0].kind == ck[0]);
    } else {
        if pos < ts.len() {
            assert(ts[pos + 0].kind == ck[0]);
        }
    }
    if let Some(p) = c.parameter {
        assert(ts[pos + nb + 1].kind == ck[nb + 1]);
    }
}

proof fn lemma_cond_valid(len: int, c: SpecCondition, param: Option<(Seq<u8>, int)>)
    requires
        condition_fits(c),
        make_condition(c.negated, c.name, param) == c,
        param matches Some((p, o)) ==> p.len() + 2 <= len,
    ensures
        spec_cond_valid(len, c.name, param) == Ok::<(), crate::model::error::ParseError>(()),
{
    reveal(condition_fits);
}

proof fn lemma_param_fits(ts: Seq<SpecToken>, len: int, q: int, p: Seq<u8>)
    requires
        params_within(ts, len),
        0 <= q < ts.len(),
        ts[q].kind == SpecTokenKind::Param(p),
    ensures
        p.len() + 2 <= len,
{
    assert(param_fits(ts[q].kind, len));
}

proof fn lemma_cond_loop_step(
    len: int,
    ts: Seq<SpecToken>,
    pos: int,
    acc: Seq<SpecCondition>,
    n: bool,
    name: ConditionName,
    param: Option<(Seq<u8>, int)>,
    p2: int,
)
    requires
        peek_kind(ts, pos) != Some(SpecTokenKind::RBrace),
        acc.len() < MAX_SET_VALUES,
        cond_syntax(ts, pos, len) == Ok::<
            (bool, ConditionName, Option<(Seq<u8>, int)>, int),
            crate::model::error::ParseError,
        >((n, name, param, p2)),
        spec_cond_valid(len, name, param) == Ok::<(), crate::model::error::ParseError>(()),
    ensures
        spec_cond_loop(len, ts, pos, acc) == spec_cond_loop(len, ts, p2, acc.push(make_condition(n, name, param))),
{
}

proof fn lemma_conditions_head(cs: Seq<SpecCondition>)
    requires
        cs.len() > 0,
    ensures
        conditions_kinds(cs) == condition_kinds(cs[0]) + conditions_kinds(cs.drop_first()),
        condition_kinds(cs[0]).len() > 0,
        condition_kinds(cs[0])[0] is Bang || condition_kinds(cs[0])[0] is Word,
{
    let m = cs.map_values(|c: SpecCondition| condition_kinds(c));
    lemma_flat_first(m);
    assert(m.drop_first() =~= cs.drop_first().map_values(|c: SpecCondition| condition_kinds(c)));
}

proof fn lemma_cond_loop_end(len: int, ts: Seq<SpecToken>, pos: int, acc: Seq<SpecCondition>)
    requires
        peek_kind(ts, pos) == Some(SpecTokenKind::RBrace),
    ensures
        spec_cond_loop(len, ts, pos, acc) == Ok::<(Seq<SpecCondition>, int), crate::model::error::ParseError>(
            (acc, pos + 1),
        ),
{
}

proof fn lemma_parse_cond_loop(len: int, ts: Seq<SpecToken>, pos: int, acc: Seq<SpecCondition>, cs: Seq<SpecCondition>)
    requires
        kinds_at(ts, pos, conditions_kinds(cs) + seq![SpecTokenKind::RBrace]),
        acc.len() + cs.len() <= MAX_SET_VALUES,
        forall|i: int| 0 <= i < cs.len() ==> condition_fits(#[trigger] cs[i]),
        params_within(ts, len),
    ensures
        spec_cond_loop(len, ts, pos, acc) == Ok::<(Seq<SpecCondition>, int), crate::model::error::ParseError>(
            (acc + cs, pos + conditions_kinds(cs).len() + 1),
        ),
    decreases cs.len(),
{
    let k = conditions_kinds(cs) + seq![SpecTokenKind::RBrace];
    if cs.len() == 0 {
        assert(cs.map_values(|c: SpecCondition| condition_kinds(c)) =~= Seq::<Seq<SpecTokenKind>>::empty());
        assert(k[0] == SpecTokenKind::RBrace);
        assert(ts[pos + 0].kind == k[0]);
        lemma_cond_loop_end(len, ts, pos, acc);
        assert(acc + cs =~= acc);
    } else {
        let c = cs[0];
        let rest = cs.drop_first();
        lemma_conditions_head(cs);
        let ck = condition_kinds(c);
        let tail = conditions_kinds(rest) + seq![SpecTokenKind::RBrace];
        assert(k =~= ck + tail);
        lemma_kinds_at_split(ts, pos, ck, tail);
        assert(ts[pos + 0].kind == ck[0]);
        let next = ts[pos + ck.len() + 0].kind;
        assert(next == tail[0]);
        assert(!(next is Param)) by {
            if rest.len() > 0 {
                lemma_conditions_head(rest);
                assert(tail[0] == condition_kinds(rest[0])[0]);
            } else {
                assert(rest.map_values(|c: SpecCondition| condition_kinds(c)) =~= Seq::<Seq<SpecTokenKind>>::empty());
                assert(tail[0] == SpecTokenKind::RBrace);
            }
        }
        lemma_parse_cond_syntax(ts, pos, c, len);
        let (n, name, param, p2) = cond_syntax(ts, pos, len).unwrap();
        if let Some((p, o)) = param {
            lemma_param_fits(ts, len, p2 - 1, p);
        }
        lemma_cond_valid(len, c, param);
        lemma_cond_loop_step(len, ts, pos, acc, n, name, param, p2);
        lemma_parse_cond_loop(len, ts, pos + ck.len(), acc.push(c), rest);
        assert(acc.push(c) + rest =~= acc + cs);
    }
}

/// A clause fits: its conditions fit, and a set holds no more of them than
/// the parser accepts.
pub open spec fn clause_fits(c: SpecClause) -> bool {
    match c {
        SpecClause::Single(x) => condition_fits(x),
        SpecClause::SetOf { conditions, .. } => conditions.len() <= MAX_SET_VALUES && forall|i: int|
            0 <= i < conditions.len() ==> condition_fits(#[trigger] conditions[i]),
    }
}

proof fn lemma_parse_clause(len: int, ts: Seq<SpecToken>, pos: int, c: SpecClause)
    requires
        kinds_at(ts, pos, clause_kinds(c)),
        pos + clause_kinds(c).len() == ts.len() || ts[pos + clause_kinds(c).len()].kind is Comment,
        clause_fits(c),
        params_within(ts, len),
    ensures
        spec_clause(len, ts, pos) == Ok::<(SpecClause, int), crate::model::error::ParseError>(
            (c, pos + clause_kinds(c).len()),
        ),
{
    let k = clause_kinds(c);
    match c {
        SpecClause::Single(x) => {
            lemma_condition_keyword_distinct(x.name);
            assert(ts[pos + 0].kind == k[0]);
            assert(k[0] == SpecTokenKind::Bang || k[0] == SpecTokenKind::Word(x.name.kw()));
            lemma_parse_cond_syntax(ts, pos, x, len);
            let (n, name, param, p2) = cond_syntax(ts, pos, len).unwrap();
            if let Some((p, o)) = param {
                lemma_param_fits(ts, len, p2 - 1, p);
            }
            lemma_cond_valid(len, x, param);
        },
        SpecClause::SetOf { operator, conditions } => {
            let tail = conditions_kinds(conditions) + seq![SpecTokenKind::RBrace];
            assert(k =~= operator_kinds(operator) + (seq![SpecTokenKind::LBrace] + tail));
            lemma_kinds_at_split(ts, pos, operator_kinds(operator), seq![SpecTokenKind::LBrace] + tail);
            let q = pos + operator_kinds(operator).len();
            lemma_kinds_at_split(ts, q, seq![SpecTokenKind::LBrace], tail);
            assert(ts[q + 0].kind == (seq![SpecTokenKind::LBrace] + tail)[0]);
            assert(ts[pos + 0].kind == k[0]);
            if let Some(op) = operator {
                lemma_operator_keywords(op);
            }
            lemma_parse_cond_loop(len, ts, q + 1, Seq::empty(), conditions);
            assert(Seq::<SpecCondition>::empty() + conditions =~= conditions);
        },
    }
}

/// A rule that renders to text which parses back to it: it is not empty,
/// no two attributes share a name, every attribute, clause and condition
/// fits, and parameters and comment are valid UTF-8 (as they are in any
/// rule read from text).
pub open spec fn well_formed(r: SpecRule) -> bool {
    &&& !(r.target is None && r.attributes.len() == 0 && r.condition is None)
    &&& distinct_names(r.attributes)
    &&& forall|i: int| 0 <= i < r.attributes.len() ==> attribute_fits(#[trigger] r.attributes[i])
    &&& r.condition matches Some(c) ==> clause_fits(c)
    &&& r.comment matches Some(c) ==> valid_utf8(c)
}

proof fn lemma_fits_renders(r: SpecRule)
    requires
        well_formed(r),
    ensures
        rule_renders(r),
{
    reveal(condition_fits);
    if let Some(c) = r.condition {
        match c {
            SpecClause::Single(x) => {},
            SpecClause::SetOf { conditions, .. } => {
                assert forall|i: int| 0 <= i < conditions.len() implies condition_renders(#[trigger] conditions[i]) by {
                    assert(condition_fits(conditions[i]));
                }
            },
        }
    }
}

/// The token of a rule's target, if it has one.
pub open spec fn target_kinds(r: SpecRule) -> Seq<SpecTokenKind> {
    match r.target {
        Some(t) => seq![SpecTokenKind::Word(t.kw())],
        None => Seq::empty(),
    }
}

/// The tokens of a rule's `if` clause, `if` included, if it has one.
pub open spec fn condition_part_kinds(r: SpecRule) -> Seq<SpecTokenKind> {
    match r.condition {
        Some(c) => seq![SpecTokenKind::Word(if_keyword())] + clause_kinds(c),
        None => Seq::empty(),
    }
}

/// The token of a rule's comment, if it has one.
pub open spec fn comment_kinds(r: SpecRule) -> Seq<SpecTokenKind> {
    match r.comment {
        Some(c) => seq![SpecTokenKind::Comment(c)],
        None => Seq::empty(),
    }
}

proof fn lemma_flat_single(x: Seq<SpecTokenKind>)
    ensures
        flat(seq![x]) == x,
{
    let one = seq![x];
    assert(one.drop_last() =~= Seq::<Seq<SpecTokenKind>>::empty());
    assert(flat(one.drop_last()) =~= Seq::<SpecTokenKind>::empty());
    assert(flat(one) =~= x);
}

proof fn lemma_flat_empty()
    ensures
        flat(Seq::<Seq<SpecTokenKind>>::empty()) == Seq::<SpecTokenKind>::empty(),
{
}

proof fn lemma_rule_kinds_layout(r: SpecRule)
    ensures
        rule_kinds(r) == target_kinds(r) + attributes_kinds(r.attributes) + condition_part_kinds(r) + comment_kinds(r),
{
    let tk = match r.target {
        Some(t) => seq![seq![SpecTokenKind::Word(t.kw())]],
        None => Seq::<Seq<SpecTokenKind>>::empty(),
    };
    let am = r.attributes.map_values(|a: SpecAttribute| attribute_kinds(a));
    let ck = match r.condition {
        Some(c) => seq![seq![SpecTokenKind::Word(if_keyword())] + clause_kinds(c)],
        None => Seq::<Seq<SpecTokenKind>>::empty(),
    };
    let mk = match r.comment {
        Some(c) => seq![seq![SpecTokenKind::Comment(c)]],
        None => Seq::<Seq<SpecTokenKind>>::empty(),
    };
    assert(rule_part_kinds(r) == tk + am + ck + mk) by {
        reveal(rule_part_kinds);
    }
    lemma_flat_concat(tk + am + ck, mk);
    lemma_flat_concat(tk + am, ck);
    lemma_flat_concat(tk, am);
    lemma_flat_empty();
    if let Some(t) = r.target {
        lemma_flat_single(seq![SpecTokenKind::Word(t.kw())]);
    }
    if let Some(c) = r.condition {
        lemma_flat_single(seq![SpecTokenKind::Word(if_keyword())] + clause_kinds(c));
    }
    if let Some(c) = r.comment {
        lemma_flat_single(seq![SpecTokenKind::Comment(c)]);
    }
}

proof fn lemma_attributes_head(attrs: Seq<SpecAttribute>)
    requires
        attrs.len() > 0,
    ensures
        attributes_kinds(attrs).len() > 0,
        attributes_kinds(attrs)[0] == SpecTokenKind::Word(attrs[0].name.kw()),
{
    let m = attrs.map_values(|a: SpecAttribute| attribute_kinds(a));
    lemma_flat_first(m);
    assert(m[0] == attribute_kinds(attrs[0]));
}

proof fn lemma_attributes_empty(attrs: Seq<SpecAttribute>)
    requires
        attrs.len() == 0,
    ensures
        attributes_kinds(attrs) == Seq::<SpecTokenKind>::empty(),
{
    assert(attrs.map_values(|a: SpecAttribute| attribute_kinds(a)) =~= Seq::<Seq<SpecTokenKind>>::empty());
}

proof fn lemma_parse_target(len: int, ts: Seq<SpecToken>, r: SpecRule, rest: Seq<SpecTokenKind>, mode: Mode)
    requires
        target_allowed(mode, r.target),
        kinds_at(ts, 0, target_kinds(r) + rest),
        ts.len() == target_kinds(r).len() + rest.len(),
        r.target is None ==> (rest.len() == 0 || rest[0] is Comment || rest[0] == SpecTokenKind::Word(if_keyword())
            || exists|n: AttributeName| rest[0] == SpecTokenKind::Word(#[trigger] n.kw())),
    ensures
        spec_target(ts, 0, mode, len) == Ok::<(Option<RuleTarget>, int), crate::model::error::ParseError>(
            (r.target, target_kinds(r).len() as int),
        ),
{
    lemma_if_keyword();
    if let Some(t) = r.target {
        lemma_target_keywords(t);
    }
    if r.target is None && rest.len() > 0 && rest[0] is Word && rest[0] != SpecTokenKind::Word(if_keyword()) {
        let n = choose|n: AttributeName| rest[0] == SpecTokenKind::Word(#[trigger] n.kw());
        lemma_attribute_keyword_distinct(n);
    }
    let k = target_kinds(r) + rest;
    if ts.len() > 0 {
        assert(ts[0int + 0].kind == k[0]);
    }
    if r.target is None && rest.len() > 0 {
        assert(k[0] == rest[0]);
    }
}

proof fn lemma_parse_tail(len: int, ts: Seq<SpecToken>, r: SpecRule, p2: int)
    requires
        kinds_at(ts, p2, condition_part_kinds(r) + comment_kinds(r)),
        ts.len() == p2 + condition_part_kinds(r).len() + comment_kinds(r).len(),
        params_within(ts, len),
        r.condition matches Some(c) ==> clause_fits(c),
    ensures
        spec_attributes(len, ts, p2, r.attributes) == Ok::<
            (Seq<SpecAttribute>, Option<SpecClause>, int),
            crate::model::error::ParseError,
        >((r.attributes, r.condition, p2 + condition_part_kinds(r).len())),
        spec_comment(ts, p2 + condition_part_kinds(r).len()) == Ok::<Option<Seq<u8>>, crate::model::error::ParseError>(
            r.comment,
        ),
{
    let fc = condition_part_kinds(r);
    let fm = comment_kinds(r);
    lemma_kinds_at_split(ts, p2, fc, fm);
    let p3 = p2 + fc.len();
    if let Some(c) = r.comment {
        assert(ts[p3 + 0].kind == fm[0]);
    }
    if let Some(c) = r.condition {
        lemma_kinds_at_split(ts, p2, seq![SpecTokenKind::Word(if_keyword())], clause_kinds(c));
        assert(ts[p2 + 0].kind == fc[0]);
        lemma_parse_clause(len, ts, p2 + 1, c);
    } else {
        if r.comment is Some {
            assert(ts[p2 + 0].kind == fm[0]);
        }
    }
}

proof fn lemma_parse_rule_compose(
    len: int,
    ts: Seq<SpecToken>,
    r: SpecRule,
    mode: Mode,
    p1: int,
    p2: int,
    p3: int,
)
    requires
        spec_target(ts, 0, mode, len) == Ok::<(Option<RuleTarget>, int), crate::model::error::ParseError>(
            (r.target, p1),
        ),
        spec_attributes(len, ts, p1, Seq::empty()) == spec_attributes(len, ts, p2, r.attributes),
        spec_attributes(len, ts, p2, r.attributes) == Ok::<
            (Seq<SpecAttribute>, Option<SpecClause>, int),
            crate::model::error::ParseError,
        >((r.attributes, r.condition, p3)),
        spec_comment(ts, p3) == Ok::<Option<Seq<u8>>, crate::model::error::ParseError>(r.comment),
        !(r.target is None && r.attributes.len() == 0 && r.condition is None),
    ensures
        spec_rule_from(len, ts, mode) == Ok::<SpecRule, crate::model::error::ParseError>(r),
{
}

proof fn lemma_rule_tokens(ts: Seq<SpecToken>, r: SpecRule)
    requires
        kinds(ts) == rule_kinds(r),
    ensures
        kinds_at(ts, target_kinds(r).len() as int, attributes_kinds(r.attributes)),
        kinds_at(ts, 0, target_kinds(r) + (attributes_kinds(r.attributes) + condition_part_kinds(r) + comment_kinds(r))),
        kinds_at(
            ts,
            (target_kinds(r).len() + attributes_kinds(r.attributes).len()) as int,
            condition_part_kinds(r) + comment_kinds(r),
        ),
        ts.len() == target_kinds(r).len() + attributes_kinds(r.attributes).len() + condition_part_kinds(r).len()
            + comment_kinds(r).len(),
{
    lemma_rule_kinds_layout(r);
    let ft = target_kinds(r);
    let fa = attributes_kinds(r.attributes);
    let fc = condition_part_kinds(r);
    let fm = comment_kinds(r);
    let all = ft + fa + fc + fm;
    assert(kinds_at(ts, 0, all)) by {
        assert forall|j: int| 0 <= j < all.len() implies ts[0 + j].kind == #[trigger] all[j] by {
            assert(kinds(ts)[j] == ts[j].kind);
        }
    }
    assert(all =~= ft + (fa + fc + fm));
    assert(fa + fc + fm =~= fa + (fc + fm));
    lemma_kinds_at_split(ts, 0, ft, fa + fc + fm);
    lemma_kinds_at_split(ts, ft.len() as int, fa, fc + fm);
}

proof fn lemma_first_after_target(r: SpecRule)
    ensures
        ({
            let rest = attributes_kinds(r.attributes) + condition_part_kinds(r) + comment_kinds(r);
            r.target is None ==> (rest.len() == 0 || rest[0] is Comment || rest[0] == SpecTokenKind::Word(
                if_keyword(),
            ) || exists|n: AttributeName| rest[0] == SpecTokenKind::Word(#[trigger] n.kw()))
        }),
{
    let fa = attributes_kinds(r.attributes);
    let fc = condition_part_kinds(r);
    let fm = comment_kinds(r);
    if r.target is None {
        if r.attributes.len() > 0 {
            lemma_attributes_head(r.attributes);
            assert((fa + fc + fm)[0] == SpecTokenKind::Word(r.attributes[0].name.kw()));
        } else {
            lemma_attributes_empty(r.attributes);
            assert(fa + fc + fm =~= fc + fm);
            if r.condition is Some {
                assert((fc + fm)[0] == fc[0]);
            } else if r.comment is Some {
                assert(fc + fm =~= fm);
            }
        }
    }
}

proof fn lemma_ends_attributes(ts: Seq<SpecToken>, r: SpecRule, p2: int)
    requires
        kinds_at(ts, p2, condition_part_kinds(r) + comment_kinds(r)),
        ts.len() == p2 + condition_part_kinds(r).len() + comment_kinds(r).len(),
    ensures
        ends_attributes(ts, p2),
{
    let fc = condition_part_kinds(r);
    let fm = comment_kinds(r);
    lemma_kinds_at_split(ts, p2, fc, fm);
    if r.condition is Some {
        assert(ts[p2 + 0].kind == fc[0]);
    } else if r.comment is Some {
        assert(ts[p2 + 0].kind == fm[0]);
    }
}

proof fn lemma_parse_rule(len: int, ts: Seq<SpecToken>, r: SpecRule, mode: Mode)
    requires
        target_allowed(mode, r.target),
        kinds(ts) == rule_kinds(r),
        params_within(ts, len),
        well_formed(r),
    ensures
        spec_rule_from(len, ts, mode) == Ok::<SpecRule, crate::model::error::ParseError>(r),
{
    lemma_rule_tokens(ts, r);
    let p1 = target_kinds(r).len() as int;
    let p2 = p1 + attributes_kinds(r.attributes).len();
    lemma_first_after_target(r);
    lemma_parse_target(len, ts, r, attributes_kinds(r.attributes) + condition_part_kinds(r) + comment_kinds(r), mode);
    lemma_ends_attributes(ts, r, p2);
    assert(Seq::<SpecAttribute>::empty() + r.attributes =~= r.attributes);
    lemma_parse_attributes(len, ts, p1, Seq::empty(), r.attributes);
    lemma_parse_tail(len, ts, r, p2);
    lemma_parse_rule_compose(len, ts, r, mode, p1, p2, p2 + condition_part_kinds(r).len());
}

/// Rendering and parsing are inverse: a well-formed rule, whose text is
/// within the parser's length bound, is rendered to text that parses back to
/// the same rule, by every entry point that accepts its target.
pub proof fn lemma_round_trip(r: SpecRule, mode: Mode)
    requires
        well_formed(r),
        target_allowed(mode, r.target),
        render(r).len() <= MAX_INPUT_LEN,
    ensures
        parse_spec(render(r), mode) == Ok::<SpecRule, crate::model::error::ParseError>(r),
{
    let input = render(r);
    lemma_fits_renders(r);
    lemma_lex_render(r);
    lemma_lex_params_within(input, 0);
    let ts = lex_from(input, 0).unwrap();
    lemma_parse_rule(input.len() as int, ts, r, mode);
}

proof fn lemma_escape_len(s: Seq<u8>)
    ensures
        escape(s).len() <= 4 * s.len(),
    decreases s.len(),
{
    if s.len() > 0 {
        if valid_first_scalar(s) {
            lemma_first_scalar_facts(s);
            let k = length_of_first_scalar(s);
            let head = s.subrange(0, k);
            lemma_hex_escape_all_len(head);
            lemma_escape_len(s.subrange(k, s.len() as int));
        } else {
            lemma_escape_len(s.drop_first());
        }
    }
}

proof fn lemma_hex_escape_all_len(s: Seq<u8>)
    ensures
        hex_escape_all(s).len() == 4 * s.len(),
    decreases s.len(),
{
    if s.len() > 0 {
        lemma_hex_escape_all_len(s.drop_first());
    }
}

/// The rule `allow name "…"` holding the given bytes as the device name.
pub open spec fn named_rule(name: Seq<u8>) -> SpecRule {
    SpecRule {
        target: Some(RuleTarget::Allow),
        attributes: seq![SpecAttribute { name: AttributeName::Name, values: SpecValues::Single(SpecValue::Str(name)) }],
        condition: None,
        comment: None,
    }
}

/// A device name cannot become syntax: whatever its bytes (quotes,
/// backslashes, control characters, invalid UTF-8), `allow name "…"` renders
/// to text that parses back as exactly one `name` attribute holding exactly
/// those bytes, with no clause and no comment.
pub proof fn lemma_name_cannot_inject(name: Seq<u8>)
    requires
        name.len() <= 16000,
    ensures
        parse_spec(render(named_rule(name)), Mode::Rule) == Ok::<SpecRule, crate::model::error::ParseError>(
            named_rule(name),
        ),
{
    let r = named_rule(name);
    lemma_escape_len(name);
    lemma_attribute_keywords(AttributeName::Name);
    let a = r.attributes[0];
    reveal(rule_parts);
    let parts = rule_parts(r);
    assert(parts =~= seq![RuleTarget::Allow.kw(), attribute_text(a)]);
    assert(parts.drop_last() =~= seq![RuleTarget::Allow.kw()]);
    assert(join_spaced(parts.drop_last()) == RuleTarget::Allow.kw());
    assert(render(r) == RuleTarget::Allow.kw() + seq![32u8] + attribute_text(a));
    assert(attribute_text(a) == AttributeName::Name.kw() + (seq![32u8] + quoted(name)));
    assert(render(r).len() <= MAX_INPUT_LEN);
    assert(well_formed(r));
    lemma_round_trip(r, Mode::Rule);
}

} // verus!
