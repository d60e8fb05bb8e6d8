//! Reading is stable: a rule read from text renders to text that reads back
//! as the same rule.
//!
//! The proof shows that whatever the parser accepts is well formed in the
//! sense of [`well_formed`], and then applies the round trip of rendering.
//! Two facts come from the lexer rather than the grammar: a parameter is
//! the text between a `(` and its matching `)`, so it is valid UTF-8 and
//! closes at its own end; a comment is the text after a `#`, so it is
//! valid UTF-8 too.

use vstd::prelude::*;
use vstd::utf8::*;
use crate::model::rule::{
    attr_index_from, lemma_attr_index_from, AttributeName, SpecAttribute, SpecClause, SpecCondition,
    SpecRule, SpecValue, SpecValues,
};
use crate::model::ids::{InterfaceType, UsbId};
use crate::rules::grammar::{
    cond_syntax, if_keyword, make_condition, parse_spec, peek_kind, spec_attribute_values,
    spec_attributes, spec_clause, spec_comment, spec_cond_loop, spec_cond_valid, spec_rule_from,
    spec_set, spec_set_values, spec_target, spec_value, target_allowed, Mode, MAX_INPUT_LEN, MAX_SET_VALUES,
};
use crate::rules::lexer::{
    closing_from, closing_paren, lemma_closing_bounds, lemma_lex_str_end, lemma_word_end, lex,
    lex_from, lex_str_from, lex_string, tok, tok_cons, word_end, SpecToken, SpecTokenKind,
};
use crate::rules::render::render;
use crate::rules::roundtrip::{
    attribute_fits, clause_fits, closes_at_end, condition_fits, condition_renders, distinct_names,
    lemma_round_trip, parenthesized, value_fits, values_fit, well_formed,
};
use crate::text::is_ascii_ws;

verus! {

// ---------------------------------------------------------------------------
// What the lexer hands on.

/// A token as the lexer makes it from UTF-8 text: a parameter is valid
/// UTF-8 and closes at its own end; a comment is valid UTF-8.
pub open spec fn token_sound(k: SpecTokenKind) -> bool {
    match k {
        SpecTokenKind::Param(p) => valid_utf8(p) && closes_at_end(p),
        SpecTokenKind::Comment(c) => valid_utf8(c),
        _ => true,
    }
}

/// Every token is as the lexer makes it from UTF-8 text.
pub open spec fn tokens_sound(ts: Seq<SpecToken>) -> bool {
    forall|i: int| 0 <= i < ts.len() ==> token_sound((#[trigger] ts[i]).kind)
}

/// The bytes strictly between two ASCII bytes of UTF-8 text (or after an
/// ASCII byte, up to the end) are UTF-8 text.
proof fn lemma_utf8_between_ascii(s: Seq<u8>, i: int, j: int)
    requires
        valid_utf8(s),
        0 <= i < j <= s.len(),
        s[i] < 128,
        j == s.len() || s[j] < 128,
    ensures
        valid_utf8(s.subrange(i + 1, j)),
{
    is_char_boundary_iff_not_is_continuation_byte(s, i);
    valid_utf8_split(s, i);
    let t = s.subrange(i, s.len() as int);
    assert(t[0] == s[i]);
    assert(valid_first_scalar(t) && length_of_first_scalar(t) == 1);
    let u = pop_first_scalar(t);
    assert(u =~= s.subrange(i + 1, s.len() as int));
    let k = j - i - 1;
    if k < u.len() {
        assert(u[k] == s[j]);
        is_char_boundary_iff_not_is_continuation_byte(u, k);
    } else {
        is_char_boundary_start_end_of_seq(u);
    }
    valid_utf8_split(u, k);
    assert(u.subrange(0, k) =~= s.subrange(i + 1, j));
}

/// A string that the scan of `input` closes inside the window `w` (which
/// stands in `input` at `base`) is closed the same way by the scan of `w`.
proof fn lemma_str_window(input: Seq<u8>, w: Seq<u8>, base: int, sw: int, si: int, j: int)
    requires
        0 <= base,
        base + w.len() <= input.len(),
        w == input.subrange(base, base + w.len()),
        0 <= j,
    ensures
        lex_str_from(input, si, base + j) matches Ok((v, e)) ==> (e <= base + w.len() ==> lex_str_from(
            w,
            sw,
            j,
        ) == Ok::<(Seq<u8>, int), crate::model::error::ParseError>((v, e - base))),
    decreases w.len() - j,
{
    let p = base + j;
    if j < w.len() {
        assert(w[j] == input[p]);
        if w[j] == 92 {
            lemma_lex_str_end(input, si, p + 2);
            lemma_lex_str_end(input, si, p + 4);
            if j + 1 < w.len() {
                assert(w[j + 1] == input[p + 1]);
                lemma_str_window(input, w, base, sw, si, j + 2);
                if j + 4 <= w.len() {
                    assert(w[j + 2] == input[p + 2]);
                    assert(w[j + 3] == input[p + 3]);
                    lemma_str_window(input, w, base, sw, si, j + 4);
                }
            }
        } else if w[j] != 34 {
            lemma_str_window(input, w, base, sw, si, j + 1);
            lemma_lex_str_end(input, si, p + 1);
        }
    } else {
        lemma_lex_str_end(input, si, p);
    }
}

/// A parenthesis that the scan of `input` closes inside the window `w`
/// (which stands in `input` at `base`) is closed the same way by the scan
/// of `w`.
proof fn lemma_closing_window(input: Seq<u8>, w: Seq<u8>, base: int, ow: int, oi: int, i: int, depth: int)
    requires
        0 <= base,
        base + w.len() <= input.len(),
        w == input.subrange(base, base + w.len()),
        0 <= i,
    ensures
        closing_from(input, oi, base + i, depth) matches Ok(e) ==> (e < base + w.len() ==> closing_from(
            w,
            ow,
            i,
            depth,
        ) == Ok::<int, crate::model::error::ParseError>(e - base)),
    decreases w.len() - i,
{
    let p = base + i;
    lemma_closing_bounds(input, oi, p, depth);
    if i < w.len() {
        assert(w[i] == input[p]);
        if w[i] == 40 {
            lemma_closing_window(input, w, base, ow, oi, i + 1, depth + 1);
        } else if w[i] == 41 {
            lemma_closing_window(input, w, base, ow, oi, i + 1, depth - 1);
        } else if w[i] == 34 {
            lemma_lex_str_end(input, p, p + 1);
            lemma_lex_str_end(w, i, i + 1);
            lemma_str_window(input, w, base, i, p, i + 1);
            if let Ok((_, end)) = lex_string(input, p) {
                lemma_closing_bounds(input, oi, end, depth);
                if end <= base + w.len() {
                    lemma_closing_window(input, w, base, ow, oi, end - base, depth);
                }
            }
        } else {
            lemma_closing_window(input, w, base, ow, oi, i + 1, depth);
        }
    }
}

/// The parameter the lexer reads at `pos` closes at its own end.
proof fn lemma_param_closes(input: Seq<u8>, pos: int, end: int)
    requires
        0 <= pos < input.len(),
        input[pos] == 40,
        closing_paren(input, pos) == Ok::<int, crate::model::error::ParseError>(end),
    ensures
        closes_at_end(input.subrange(pos + 1, end)),
{
    lemma_closing_bounds(input, pos, pos, 0);
    let p = input.subrange(pos + 1, end);
    let w = input.subrange(pos, end + 1);
    assert(w =~= parenthesized(p));
    lemma_closing_window(input, w, pos, 0, pos, 0, 0);
}

proof fn lemma_sound_cons(t: SpecToken, r: Result<Seq<SpecToken>, crate::model::error::ParseError>)
    requires
        token_sound(t.kind),
        r matches Ok(ts) ==> tokens_sound(ts),
    ensures
        tok_cons(t, r) matches Ok(ts) ==> tokens_sound(ts),
{
    if let Ok(ts) = r {
        let all = seq![t] + ts;
        assert forall|i: int| 0 <= i < all.len() implies token_sound((#[trigger] all[i]).kind) by {
            if i > 0 {
                assert(all[i] == ts[i - 1]);
            }
        }
    }
}

/// The lexer, run on UTF-8 text, makes sound tokens.
pub proof fn lemma_lex_sound(input: Seq<u8>, pos: int)
    requires
        valid_utf8(input),
    ensures
        lex_from(input, pos) matches Ok(ts) ==> tokens_sound(ts),
    decreases input.len() - pos,
{
    let len = input.len() as int;
    if 0 <= pos < input.len() {
        let b = input[pos];
        if is_ascii_ws(b) {
            lemma_lex_sound(input, pos + 1);
        } else if b == 123 || b == 125 || b == 33 {
            lemma_lex_sound(input, pos + 1);
            let k = if b == 123 {
                SpecTokenKind::LBrace
            } else if b == 125 {
                SpecTokenKind::RBrace
            } else {
                SpecTokenKind::Bang
            };
            lemma_sound_cons(tok(k, pos), lex_from(input, pos + 1));
        } else if b == 35 {
            lemma_utf8_between_ascii(input, pos, len);
            let ts = seq![tok(SpecTokenKind::Comment(input.subrange(pos + 1, len)), pos)];
            assert(tokens_sound(ts));
        } else if b == 34 {
            lemma_lex_str_end(input, pos, pos + 1);
            if let Ok((s, end)) = lex_string(input, pos) {
                lemma_lex_sound(input, end);
                lemma_sound_cons(tok(SpecTokenKind::Str(s), pos), lex_from(input, end));
            }
        } else if b == 40 {
            lemma_closing_bounds(input, pos, pos, 0);
            if let Ok(end) = closing_paren(input, pos) {
                lemma_lex_sound(input, end + 1);
                lemma_utf8_between_ascii(input, pos, end);
                lemma_param_closes(input, pos, end);
                lemma_sound_cons(
                    tok(SpecTokenKind::Param(input.subrange(pos + 1, end)), pos),
                    lex_from(input, end + 1),
                );
            }
        } else if b != 41 {
            let end = word_end(input, pos);
            lemma_word_end(input, pos);
            lemma_lex_sound(input, end);
            lemma_sound_cons(tok(SpecTokenKind::Word(input.subrange(pos, end)), pos), lex_from(input, end));
        }
    }
}

// ---------------------------------------------------------------------------
// What the parser makes of sound tokens.

proof fn lemma_value_fits(ts: Seq<SpecToken>, pos: int, name: AttributeName, end: int)
    ensures
        spec_value(ts, pos, name, end) matches Ok(v) ==> value_fits(name, v),
{
    if 0 <= pos < ts.len() {
        if let SpecTokenKind::Word(w) = ts[pos].kind {
            if name is Id && UsbId::spec_parse(w) is Some {
                UsbId::lemma_text_of_parsed(w);
            }
            if name is WithInterface && InterfaceType::spec_parse(w) is Some {
                InterfaceType::lemma_text_of_parsed(w);
            }
        }
    }
}

proof fn lemma_set_values_fit(ts: Seq<SpecToken>, pos: int, name: AttributeName, acc: Seq<SpecValue>, end: int)
    requires
        acc.len() <= MAX_SET_VALUES,
        forall|i: int| 0 <= i < acc.len() ==> value_fits(name, #[trigger] acc[i]),
    ensures
        spec_set_values(ts, pos, name, acc, end) matches Ok((vs, _)) ==> vs.len() <= MAX_SET_VALUES && (forall|
            i: int,
        | 0 <= i < vs.len() ==> value_fits(name, #[trigger] vs[i])),
    decreases ts.len() - pos,
{
    if peek_kind(ts, pos) != Some(SpecTokenKind::RBrace) && acc.len() < MAX_SET_VALUES {
        lemma_value_fits(ts, pos, name, end);
        if let Ok(v) = spec_value(ts, pos, name, end) {
            let next = acc.push(v);
            assert forall|i: int| 0 <= i < next.len() implies value_fits(name, #[trigger] next[i]) by {
                if i < acc.len() {
                    assert(next[i] == acc[i]);
                }
            }
            lemma_set_values_fit(ts, pos + 1, name, next, end);
        }
    }
}

proof fn lemma_attribute_values_fit(ts: Seq<SpecToken>, pos: int, name: AttributeName, end: int)
    ensures
        spec_attribute_values(ts, pos, name, end) matches Ok((v, _)) ==> values_fit(name, v),
{
    lemma_value_fits(ts, pos, name, end);
    lemma_set_values_fit(ts, pos + 1, name, Seq::empty(), end);
    lemma_set_values_fit(ts, pos + 2, name, Seq::empty(), end);
}

proof fn lemma_cond_fits(len: int, ts: Seq<SpecToken>, pos: int)
    requires
        tokens_sound(ts),
    ensures
        cond_syntax(ts, pos, len) matches Ok((n, name, param, _)) ==> (spec_cond_valid(len, name, param) is Ok
            ==> condition_fits(make_condition(n, name, param))),
{
    reveal(condition_fits);
    if let Ok((n, name, param, p2)) = cond_syntax(ts, pos, len) {
        if let Some((p, o)) = param {
            assert(ts[p2 - 1].kind == SpecTokenKind::Param(p));
            assert(token_sound(ts[p2 - 1].kind));
        }
    }
}

proof fn lemma_cond_syntax_pos(len: int, ts: Seq<SpecToken>, pos: int)
    ensures
        cond_syntax(ts, pos, len) matches Ok((_, _, _, p2)) ==> 0 <= pos < p2 <= ts.len(),
{
}

proof fn lemma_cond_loop_fits(len: int, ts: Seq<SpecToken>, pos: int, acc: Seq<SpecCondition>)
    requires
        tokens_sound(ts),
        acc.len() <= MAX_SET_VALUES,
        forall|i: int| 0 <= i < acc.len() ==> condition_fits(#[trigger] acc[i]),
    ensures
        spec_cond_loop(len, ts, pos, acc) matches Ok((cs, _)) ==> cs.len() <= MAX_SET_VALUES && (forall|i: int|
            0 <= i < cs.len() ==> condition_fits(#[trigger] cs[i])),
    decreases ts.len() - pos,
{
    if peek_kind(ts, pos) != Some(SpecTokenKind::RBrace) && acc.len() < MAX_SET_VALUES {
        lemma_cond_fits(len, ts, pos);
        lemma_cond_syntax_pos(len, ts, pos);
        if let Ok((n, name, param, p2)) = cond_syntax(ts, pos, len) {
            if spec_cond_valid(len, name, param) is Ok {
                let next = acc.push(make_condition(n, name, param));
                assert forall|i: int| 0 <= i < next.len() implies condition_fits(#[trigger] next[i]) by {
                    if i < acc.len() {
                        assert(next[i] == acc[i]);
                    }
                }
                lemma_cond_loop_fits(len, ts, p2, next);
            }
        }
    }
}

proof fn lemma_clause_fits(len: int, ts: Seq<SpecToken>, pos: int)
    requires
        tokens_sound(ts),
    ensures
        spec_clause(len, ts, pos) matches Ok((c, _)) ==> clause_fits(c),
{
    lemma_cond_loop_fits(len, ts, pos + 1, Seq::empty());
    lemma_cond_loop_fits(len, ts, pos + 2, Seq::empty());
    lemma_cond_fits(len, ts, pos);
    lemma_cond_fits(len, ts, pos + 1);
}

proof fn lemma_attributes_fit(len: int, ts: Seq<SpecToken>, pos: int, acc: Seq<SpecAttribute>)
    requires
        tokens_sound(ts),
        distinct_names(acc),
        forall|i: int| 0 <= i < acc.len() ==> attribute_fits(#[trigger] acc[i]),
    ensures
        spec_attributes(len, ts, pos, acc) matches Ok((attrs, cond, _)) ==> distinct_names(attrs) && (forall|
            i: int,
        | 0 <= i < attrs.len() ==> attribute_fits(#[trigger] attrs[i])) && (cond matches Some(c) ==> clause_fits(
            c,
        )),
    decreases ts.len() - pos,
{
    if 0 <= pos < ts.len() {
        if let SpecTokenKind::Word(w) = ts[pos].kind {
            if w == if_keyword() {
                lemma_clause_fits(len, ts, pos + 1);
            } else if let Some(name) = AttributeName::spec_from_keyword(w) {
                if attr_index_from(acc, name, 0) is None {
                    lemma_attr_index_from(acc, name, 0);
                    lemma_attribute_values_fit(ts, pos + 1, name, len);
                    crate::rules::grammar::lemma_attribute_values_pos(ts, pos + 1, name, len);
                    if let Ok((values, p2)) = spec_attribute_values(ts, pos + 1, name, len) {
                        let a = SpecAttribute { name, values };
                        let next = acc.push(a);
                        assert forall|i: int| 0 <= i < next.len() implies attribute_fits(#[trigger] next[i]) by {
                            if i < acc.len() {
                                assert(next[i] == acc[i]);
                            }
                        }
                        assert forall|i: int, j: int| 0 <= i < j < next.len() implies #[trigger] next[i].name
                            != #[trigger] next[j].name by {
                            assert(next[i] == acc[i]);
                            if j < acc.len() {
                                assert(next[j] == acc[j]);
                            }
                        }
                        lemma_attributes_fit(len, ts, p2, next);
                    }
                }
            }
        }
    }
}

/// Whatever the grammar makes of sound tokens is a well-formed rule, with a
/// target that the entry point accepts.
proof fn lemma_rule_from_well_formed(len: int, ts: Seq<SpecToken>, mode: Mode)
    requires
        tokens_sound(ts),
    ensures
        spec_rule_from(len, ts, mode) matches Ok(r) ==> well_formed(r) && target_allowed(mode, r.target),
{
    if let Ok((target, p1)) = spec_target(ts, 0, mode, len) {
        lemma_attributes_fit(len, ts, p1, Seq::empty());
        if let Ok((attributes, condition, p2)) = spec_attributes(len, ts, p1, Seq::empty()) {
            if let Ok(Some(c)) = spec_comment(ts, p2) {
                assert(token_sound(ts[p2].kind));
            }
        }
    }
}

/// Whatever is read from UTF-8 text is a well-formed rule, with a target
/// that the entry point accepts.
pub proof fn lemma_parsed_well_formed(input: Seq<u8>, mode: Mode)
    requires
        valid_utf8(input),
    ensures
        parse_spec(input, mode) matches Ok(r) ==> well_formed(r) && target_allowed(mode, r.target),
{
    lemma_lex_sound(input, 0);
    if let Ok(ts) = lex(input) {
        lemma_rule_from_well_formed(input.len() as int, ts, mode);
    }
}

/// Reading is stable: a rule read from UTF-8 text renders to text that
/// reads back, by the same entry point, as the same rule, whenever that
/// text is within the parser's length bound.
pub proof fn lemma_parse_render_parse(input: Seq<u8>, mode: Mode, r: SpecRule)
    requires
        valid_utf8(input),
        parse_spec(input, mode) == Ok::<SpecRule, crate::model::error::ParseError>(r),
        render(r).len() <= MAX_INPUT_LEN,
    ensures
        parse_spec(render(r), mode) == Ok::<SpecRule, crate::model::error::ParseError>(r),
{
    lemma_parsed_well_formed(input, mode);
    lemma_round_trip(r, mode);
}

} // verus!
