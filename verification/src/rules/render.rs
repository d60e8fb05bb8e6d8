//! Renders rules back to text, with correct quoting and escaping.
//!
//! Escaping is a security property here, not cosmetics: an attacker-supplied
//! device name that could close a quote would become a rule fragment with its
//! own meaning.

use vstd::prelude::*;
use vstd::utf8::*;
use crate::model::error::{ParseError, ParseErrorKind};
use crate::model::ids::{lemma_id_text_ascii, lemma_interface_text_ascii, push_hex2};
use crate::model::rule::{
    Attribute, AttributeName, AttributeValue, AttributeValues, Condition, ConditionClause,
    ConditionName, Rule, RuleTarget, SetOperator, SpecAttribute, SpecClause, SpecCondition,
    SpecRule, SpecValue, SpecValues,
};
use crate::text::{
    ascii_bytes, hex2, lemma_ascii_valid_utf8, lemma_encoded_valid, lemma_valid_concat,
    lemma_valid_roundtrip, push_bytes, push_str, string_from_utf8, string_from_utf8_lossy,
    utf8_lossy,
};

verus! {

/// `\x` and two lowercase hex digits.
pub open spec fn hex_escape(b: u8) -> Seq<u8> {
    seq![92u8, 120u8] + hex2(b)
}

/// Each byte as `\xHH`.
pub open spec fn hex_escape_all(s: Seq<u8>) -> Seq<u8>
    decreases s.len(),
{
    if s.len() == 0 {
        Seq::empty()
    } else {
        hex_escape(s[0]) + hex_escape_all(s.drop_first())
    }
}

/// `char::is_control`: the C0 controls, DEL and the C1 controls.
pub open spec fn is_control(cp: u32) -> bool {
    cp < 0x20 || (0x7f <= cp <= 0x9f)
}

/// One scalar, given by its encoding and its value, inside a quoted string:
/// `"` and `\` are escaped with a backslash, control characters byte by
/// byte as `\xHH`, everything else is kept.
pub open spec fn escape_scalar(bytes: Seq<u8>, cp: u32) -> Seq<u8> {
    if cp == 0x22 {
        seq![92u8, 34u8]
    } else if cp == 0x5c {
        seq![92u8, 92u8]
    } else if is_control(cp) {
        hex_escape_all(bytes)
    } else {
        bytes
    }
}

/// The escaped content of a quoted string: scalars as [`escape_scalar`]
/// says, and every byte that does not start a valid UTF-8 scalar as `\xHH`.
pub open spec fn escape(s: Seq<u8>) -> Seq<u8>
    decreases s.len(),
{
    if s.len() == 0 {
        Seq::empty()
    } else if valid_first_scalar(s) {
        let k = length_of_first_scalar(s);
        escape_scalar(s.subrange(0, k), decode_first_scalar(s)) + escape(s.subrange(k, s.len() as int))
    } else {
        hex_escape(s[0]) + escape(s.drop_first())
    }
}

/// A quoted string.
pub open spec fn quoted(s: Seq<u8>) -> Seq<u8> {
    seq![34u8] + escape(s) + seq![34u8]
}

/// The bytes of `String::from_utf8_lossy`: valid UTF-8 is kept as it is.
pub open spec fn lossy_bytes(p: Seq<u8>) -> Seq<u8> {
    if valid_utf8(p) {
        p
    } else {
        encode_utf8(utf8_lossy(p))
    }
}

/// One value as written in rule text.
pub open spec fn value_text(v: SpecValue) -> Seq<u8> {
    match v {
        SpecValue::UsbId(id) => id.text(),
        SpecValue::Interface(i) => i.text(),
        SpecValue::Str(s) => quoted(s),
    }
}

/// Each value preceded by a space.
pub open spec fn values_text(vs: Seq<SpecValue>) -> Seq<u8>
    decreases vs.len(),
{
    if vs.len() == 0 {
        Seq::empty()
    } else {
        values_text(vs.drop_last()) + seq![32u8] + value_text(vs.last())
    }
}

/// An optional set operator, preceded by a space.
pub open spec fn operator_text(operator: Option<SetOperator>) -> Seq<u8> {
    match operator {
        Some(op) => seq![32u8] + op.kw(),
        None => Seq::empty(),
    }
}

/// The value or values of an attribute, preceded by a space.
pub open spec fn values_part(v: SpecValues) -> Seq<u8> {
    match v {
        SpecValues::Single(v) => seq![32u8] + value_text(v),
        SpecValues::SetOf { operator, values } => operator_text(operator) + seq![32u8, 123u8] + values_text(values)
            + seq![32u8, 125u8],
    }
}

/// An attribute as written in rule text.
pub open spec fn attribute_text(a: SpecAttribute) -> Seq<u8> {
    a.name.kw() + values_part(a.values)
}

/// A condition as written in rule text.
pub open spec fn condition_text(c: SpecCondition) -> Seq<u8> {
    (if c.negated {
        seq![33u8]
    } else {
        Seq::empty()
    }) + c.name.kw() + (match c.parameter {
        Some(p) => seq![40u8] + lossy_bytes(p) + seq![41u8],
        None => Seq::empty(),
    })
}

/// Each condition preceded by a space.
pub open spec fn conditions_text(cs: Seq<SpecCondition>) -> Seq<u8>
    decreases cs.len(),
{
    if cs.len() == 0 {
        Seq::empty()
    } else {
        conditions_text(cs.drop_last()) + seq![32u8] + condition_text(cs.last())
    }
}

/// An `if` clause, without the `if`, as written in rule text.
pub open spec fn clause_text(c: SpecClause) -> Seq<u8> {
    match c {
        SpecClause::Single(c) => condition_text(c),
        SpecClause::SetOf { operator, conditions } => (match operator {
            Some(op) => op.kw() + seq![32u8],
            None => Seq::empty(),
        }) + seq![123u8] + conditions_text(conditions) + seq![32u8, 125u8],
    }
}

/// The pieces of a rule's text, in order: target, attributes, `if`
/// clause, comment.
#[verifier::opaque]
pub open spec fn rule_parts(r: SpecRule) -> Seq<Seq<u8>> {
    let target = match r.target {
        Some(t) => seq![t.kw()],
        None => Seq::empty(),
    };
    let condition = match r.condition {
        Some(c) => seq![seq![105u8, 102u8, 32u8] + clause_text(c)],
        None => Seq::empty(),
    };
    let comment = match r.comment {
        Some(c) => seq![seq![35u8] + lossy_bytes(c)],
        None => Seq::empty(),
    };
    target + r.attributes.map_values(|a: SpecAttribute| attribute_text(a)) + condition + comment
}

/// Pieces joined by single spaces.
pub open spec fn join_spaced(parts: Seq<Seq<u8>>) -> Seq<u8>
    decreases parts.len(),
{
    if parts.len() == 0 {
        Seq::empty()
    } else if parts.len() == 1 {
        parts[0]
    } else {
        join_spaced(parts.drop_last()) + seq![32u8] + parts.last()
    }
}

/// A rule's text: its pieces joined by single spaces.
pub open spec fn render(r: SpecRule) -> Seq<u8> {
    join_spaced(rule_parts(r))
}

// ---------------------------------------------------------------------------
// The rendered text is valid UTF-8.

proof fn lemma_ascii_concat(a: Seq<u8>, b: Seq<u8>)
    requires
        ascii_bytes(a),
        ascii_bytes(b),
    ensures
        ascii_bytes(a + b),
{
    assert forall|i: int| 0 <= i < (a + b).len() implies #[trigger] (a + b)[i] < 128 by {
        if i >= a.len() {
            assert((a + b)[i] == b[i - a.len()]);
        }
    }
}

proof fn lemma_ascii_valid(a: Seq<u8>)
    requires
        ascii_bytes(a),
    ensures
        valid_utf8(a),
{
    lemma_ascii_valid_utf8(a);
}

proof fn lemma_hex_escape_ascii(b: u8)
    ensures
        ascii_bytes(hex_escape(b)),
{
    let d1 = (b / 16) as nat;
    let d2 = (b % 16) as nat;
    assert(d1 < 16 && d2 < 16);
    assert(ascii_bytes(hex_escape(b)));
}

proof fn lemma_hex_escape_all_ascii(s: Seq<u8>)
    ensures
        ascii_bytes(hex_escape_all(s)),
    decreases s.len(),
{
    if s.len() > 0 {
        lemma_hex_escape_ascii(s[0]);
        lemma_hex_escape_all_ascii(s.drop_first());
        lemma_ascii_concat(hex_escape(s[0]), hex_escape_all(s.drop_first()));
    }
}

/// The encoding of the first scalar alone is valid UTF-8.
proof fn lemma_first_scalar_valid(s: Seq<u8>)
    requires
        valid_first_scalar(s),
    ensures
        valid_utf8(s.subrange(0, length_of_first_scalar(s))),
{
    let k = length_of_first_scalar(s);
    assert(1 <= k <= 4 && k <= s.len());
    let t = s.subrange(0, k);
    assert(t.len() == k);
    assert(forall|i: int| 0 <= i < k ==> t[i] == s[i]);
    assert(valid_leading_and_continuation_bytes_first_codepoint(t));
    assert(decode_first_codepoint(t) == decode_first_codepoint(s));
    assert(valid_first_scalar(t));
    assert(length_of_first_scalar(t) == k);
    assert(pop_first_scalar(t) =~= Seq::<u8>::empty());
    assert(valid_utf8(Seq::<u8>::empty()));
}

proof fn lemma_escape_valid(s: Seq<u8>)
    ensures
        valid_utf8(escape(s)),
    decreases s.len(),
{
    if s.len() > 0 {
        if valid_first_scalar(s) {
            let k = length_of_first_scalar(s);
            let head = s.subrange(0, k);
            let cp = decode_first_scalar(s);
            if cp == 0x22 || cp == 0x5c {
                lemma_ascii_valid(escape_scalar(head, cp));
            } else if is_control(cp) {
                lemma_hex_escape_all_ascii(head);
                lemma_ascii_valid(escape_scalar(head, cp));
            } else {
                lemma_first_scalar_valid(s);
            }
            lemma_escape_valid(s.subrange(k, s.len() as int));
            lemma_valid_concat(escape_scalar(head, cp), escape(s.subrange(k, s.len() as int)));
        } else {
            lemma_hex_escape_ascii(s[0]);
            lemma_ascii_valid(hex_escape(s[0]));
            lemma_escape_valid(s.drop_first());
            lemma_valid_concat(hex_escape(s[0]), escape(s.drop_first()));
        }
    }
}

proof fn lemma_valid3(a: Seq<u8>, b: Seq<u8>, c: Seq<u8>)
    requires
        valid_utf8(a),
        valid_utf8(b),
        valid_utf8(c),
    ensures
        valid_utf8(a + b + c),
{
    lemma_valid_concat(a, b);
    lemma_valid_concat(a + b, c);
}

proof fn lemma_lossy_valid(p: Seq<u8>)
    ensures
        valid_utf8(lossy_bytes(p)),
{
    if !valid_utf8(p) {
        lemma_encoded_valid(utf8_lossy(p));
    }
}

/// Every keyword of the rule language is ASCII.
pub proof fn lemma_keywords_ascii()
    ensures
        forall|t: RuleTarget| #[trigger] ascii_bytes(t.kw()),
        forall|n: AttributeName| #[trigger] ascii_bytes(n.kw()),
        forall|o: SetOperator| #[trigger] ascii_bytes(o.kw()),
        forall|c: ConditionName| #[trigger] ascii_bytes(c.kw()),
{
    assert forall|t: RuleTarget| #[trigger] ascii_bytes(t.kw()) by {
        match t {
            _ => {},
        }
    }
    assert forall|n: AttributeName| #[trigger] ascii_bytes(n.kw()) by {
        match n {
            _ => {},
        }
    }
    assert forall|o: SetOperator| #[trigger] ascii_bytes(o.kw()) by {
        match o {
            _ => {},
        }
    }
    assert forall|c: ConditionName| #[trigger] ascii_bytes(c.kw()) by {
        match c {
            _ => {},
        }
    }
}

proof fn lemma_value_valid(v: SpecValue)
    ensures
        valid_utf8(value_text(v)),
{
    match v {
        SpecValue::UsbId(id) => {
            lemma_id_text_ascii(id);
            lemma_ascii_valid(id.text());
        },
        SpecValue::Interface(i) => {
            lemma_interface_text_ascii(i);
            lemma_ascii_valid(i.text());
        },
        SpecValue::Str(s) => {
            lemma_escape_valid(s);
            lemma_ascii_valid(seq![34u8]);
            lemma_valid3(seq![34u8], escape(s), seq![34u8]);
        },
    }
}

proof fn lemma_values_valid(vs: Seq<SpecValue>)
    ensures
        valid_utf8(values_text(vs)),
    decreases vs.len(),
{
    if vs.len() > 0 {
        lemma_values_valid(vs.drop_last());
        lemma_value_valid(vs.last());
        lemma_ascii_valid(seq![32u8]);
        lemma_valid3(values_text(vs.drop_last()), seq![32u8], value_text(vs.last()));
    }
}

proof fn lemma_attribute_valid(a: SpecAttribute)
    ensures
        valid_utf8(attribute_text(a)),
{
    lemma_keywords_ascii();
    lemma_ascii_valid(a.name.kw());
    lemma_ascii_valid(seq![32u8]);
    match a.values {
        SpecValues::Single(v) => {
            lemma_value_valid(v);
            lemma_valid_concat(seq![32u8], value_text(v));
        },
        SpecValues::SetOf { operator, values } => {
            let o = operator_text(operator);
            if let Some(op) = operator {
                lemma_ascii_concat(seq![32u8], op.kw());
            }
            lemma_ascii_valid(o);
            lemma_ascii_valid(seq![32u8, 123u8]);
            lemma_ascii_valid(seq![32u8, 125u8]);
            lemma_values_valid(values);
            lemma_valid3(o, seq![32u8, 123u8], values_text(values));
            lemma_valid_concat(o + seq![32u8, 123u8] + values_text(values), seq![32u8, 125u8]);
        },
    }
    lemma_valid_concat(a.name.kw(), values_part(a.values));
}

proof fn lemma_condition_valid(c: SpecCondition)
    ensures
        valid_utf8(condition_text(c)),
{
    lemma_keywords_ascii();
    let neg = if c.negated {
        seq![33u8]
    } else {
        Seq::empty()
    };
    let param = match c.parameter {
        Some(p) => seq![40u8] + lossy_bytes(p) + seq![41u8],
        None => Seq::empty(),
    };
    lemma_ascii_valid(neg);
    lemma_ascii_valid(c.name.kw());
    if let Some(p) = c.parameter {
        lemma_lossy_valid(p);
        lemma_ascii_valid(seq![40u8]);
        lemma_ascii_valid(seq![41u8]);
        lemma_valid3(seq![40u8], lossy_bytes(p), seq![41u8]);
    } else {
        lemma_ascii_valid(param);
    }
    lemma_valid3(neg, c.name.kw(), param);
}

proof fn lemma_conditions_valid(cs: Seq<SpecCondition>)
    ensures
        valid_utf8(conditions_text(cs)),
    decreases cs.len(),
{
    if cs.len() > 0 {
        lemma_conditions_valid(cs.drop_last());
        lemma_condition_valid(cs.last());
        lemma_ascii_valid(seq![32u8]);
        lemma_valid3(conditions_text(cs.drop_last()), seq![32u8], condition_text(cs.last()));
    }
}

proof fn lemma_clause_valid(c: SpecClause)
    ensures
        valid_utf8(clause_text(c)),
{
    lemma_keywords_ascii();
    match c {
        SpecClause::Single(c) => lemma_condition_valid(c),
        SpecClause::SetOf { operator, conditions } => {
            let o = match operator {
                Some(op) => op.kw() + seq![32u8],
                None => Seq::empty(),
            };
            if let Some(op) = operator {
                lemma_ascii_concat(op.kw(), seq![32u8]);
            }
            lemma_ascii_valid(o);
            lemma_ascii_valid(seq![123u8]);
            lemma_ascii_valid(seq![32u8, 125u8]);
            lemma_conditions_valid(conditions);
            lemma_valid3(o, seq![123u8], conditions_text(conditions));
            lemma_valid_concat(o + seq![123u8] + conditions_text(conditions), seq![32u8, 125u8]);
        },
    }
}

proof fn lemma_join_valid(parts: Seq<Seq<u8>>)
    requires
        forall|i: int| 0 <= i < parts.len() ==> valid_utf8(#[trigger] parts[i]),
    ensures
        valid_utf8(join_spaced(parts)),
    decreases parts.len(),
{
    if parts.len() == 0 {
        lemma_ascii_valid(Seq::<u8>::empty());
    } else if parts.len() > 1 {
        lemma_join_valid(parts.drop_last());
        lemma_ascii_valid(seq![32u8]);
        lemma_valid3(join_spaced(parts.drop_last()), seq![32u8], parts.last());
    }
}

/// Rendered text is valid UTF-8.
pub proof fn lemma_render_valid(r: SpecRule)
    ensures
        valid_utf8(render(r)),
{
    reveal(rule_parts);
    let parts = rule_parts(r);
    lemma_keywords_ascii();
    assert forall|i: int| 0 <= i < parts.len() implies valid_utf8(#[trigger] parts[i]) by {
        let nt: int = if r.target is Some {
            1
        } else {
            0
        };
        let na = r.attributes.len() as int;
        if i < nt {
            lemma_ascii_valid(r.target.unwrap().kw());
        } else if i < nt + na {
            lemma_attribute_valid(r.attributes[i - nt]);
        } else if i == nt + na && r.condition is Some {
            lemma_clause_valid(r.condition.unwrap());
            lemma_ascii_valid(seq![105u8, 102u8, 32u8]);
            lemma_valid_concat(seq![105u8, 102u8, 32u8], clause_text(r.condition.unwrap()));
        } else {
            let c = r.comment.unwrap();
            lemma_lossy_valid(c);
            lemma_ascii_valid(seq![35u8]);
            lemma_valid_concat(seq![35u8], lossy_bytes(c));
        }
    }
    lemma_join_valid(parts);
}

// ---------------------------------------------------------------------------
// Rendering.

/// The scalar that starts at `i`: its length and value, or `None` where the
/// bytes from `i` on do not start with a valid UTF-8 encoding.
fn scalar_at(s: &[u8], i: usize) -> (r: Option<(usize, u32)>)
    requires
        i < s@.len(),
    ensures
        ({
            let rest = s@.subrange(i as int, s@.len() as int);
            &&& r matches Some((k, cp)) ==> valid_first_scalar(rest) && k == length_of_first_scalar(rest)
                && cp == decode_first_scalar(rest)
            &&& r is None ==> !valid_first_scalar(rest)
        }),
{
    let n = s.len();
    let ghost rest = s@.subrange(i as int, n as int);
    let b0 = s[i];
    assert(rest[0] == b0);
    if b0 <= 0x7f {
        return Some((1, (b0 & 0x7f) as u32));
    }
    if 0xc0 <= b0 && b0 <= 0xdf {
        if n - i < 2 {
            return None;
        }
        let b1 = s[i + 1];
        assert(rest[1] == b1);
        if !(0x80 <= b1 && b1 <= 0xbf) {
            return None;
        }
        let cp: u32 = (((b0 & 0x1f) as u32) << 6) | ((b1 & 0x3f) as u32);
        if 0x80 <= cp && !(0xd800 <= cp && cp <= 0xdfff) {
            return Some((2, cp));
        }
        return None;
    }
    if 0xe0 <= b0 && b0 <= 0xef {
        if n - i < 3 {
            return None;
        }
        let b1 = s[i + 1];
        let b2 = s[i + 2];
        assert(rest[1] == b1 && rest[2] == b2);
        if !(0x80 <= b1 && b1 <= 0xbf && 0x80 <= b2 && b2 <= 0xbf) {
            return None;
        }
        let cp: u32 = ((((b0 & 0x0f) as u32) << 12) | (((b1 & 0x3f) as u32) << 6)) | ((b2 & 0x3f) as u32);
        if 0x800 <= cp && !(0xd800 <= cp && cp <= 0xdfff) {
            return Some((3, cp));
        }
        return None;
    }
    if 0xf0 <= b0 && b0 <= 0xf7 {
        if n - i < 4 {
            return None;
        }
        let b1 = s[i + 1];
        let b2 = s[i + 2];
        let b3 = s[i + 3];
        assert(rest[1] == b1 && rest[2] == b2 && rest[3] == b3);
        if !(0x80 <= b1 && b1 <= 0xbf && 0x80 <= b2 && b2 <= 0xbf && 0x80 <= b3 && b3 <= 0xbf) {
            return None;
        }
        let cp: u32 = (((((b0 & 0x07) as u32) << 18) | (((b1 & 0x3f) as u32) << 12)) | (((b2 & 0x3f) as u32)
            << 6)) | ((b3 & 0x3f) as u32);
        if 0x10000 <= cp && cp <= 0x10ffff && !(0xd800 <= cp && cp <= 0xdfff) {
            return Some((4, cp));
        }
        return None;
    }
    None
}

fn push_hex_escape(out: &mut Vec<u8>, b: u8)
    ensures
        final(out)@ == old(out)@ + hex_escape(b),
{
    out.push(92);
    out.push(120);
    push_hex2(out, b);
    assert(final(out)@ =~= old(out)@ + hex_escape(b));
}

fn push_hex_escape_all(out: &mut Vec<u8>, s: &[u8])
    ensures
        final(out)@ == old(out)@ + hex_escape_all(s@),
{
    let mut i: usize = 0;
    assert(s@.subrange(0, s@.len() as int) =~= s@);
    while i < s.len()
        invariant
            i <= s@.len(),
            old(out)@ + hex_escape_all(s@) == out@ + hex_escape_all(s@.subrange(i as int, s@.len() as int)),
        decreases s@.len() - i,
    {
        let ghost rest = s@.subrange(i as int, s@.len() as int);
        assert(rest.drop_first() =~= s@.subrange(i + 1, s@.len() as int));
        assert(rest[0] == s@[i as int]);
        let ghost before = out@;
        push_hex_escape(out, s[i]);
        assert(before + hex_escape_all(rest) =~= out@ + hex_escape_all(rest.drop_first()));
        i = i + 1;
    }
    assert(out@ + hex_escape_all(s@.subrange(i as int, s@.len() as int)) =~= out@);
}

/// Appends `s` as a quoted string. `"` and `\` are escaped; so is every
/// byte that is a control character or not part of valid UTF-8, as `\xHH`.
fn write_quoted(out: &mut Vec<u8>, s: &[u8])
    ensures
        final(out)@ == old(out)@ + quoted(s@),
{
    out.push(34);
    let n = s.len();
    let mut i: usize = 0;
    assert(s@.subrange(0, n as int) =~= s@);
    while i < n
        invariant
            n == s@.len(),
            i <= n,
            old(out)@ + seq![34u8] + escape(s@) == out@ + escape(s@.subrange(i as int, n as int)),
        decreases n - i,
    {
        let ghost rest = s@.subrange(i as int, n as int);
        let ghost before = out@;
        match scalar_at(s, i) {
            Some((k, cp)) => {
                assert(rest.subrange(0, k as int) =~= s@.subrange(i as int, i + k));
                assert(rest.subrange(k as int, rest.len() as int) =~= s@.subrange(i + k, n as int));
                if cp == 0x22 {
                    out.push(92);
                    out.push(34);
                } else if cp == 0x5c {
                    out.push(92);
                    out.push(92);
                } else if cp < 0x20 || (0x7f <= cp && cp <= 0x9f) {
                    push_hex_escape_all(out, &s[i..i + k]);
                } else {
                    push_bytes(out, &s[i..i + k]);
                }
                assert(out@ =~= before + escape_scalar(s@.subrange(i as int, i + k), cp));
                i = i + k;
            },
            None => {
                assert(rest.drop_first() =~= s@.subrange(i + 1, n as int));
                assert(rest[0] == s@[i as int]);
                push_hex_escape(out, s[i]);
                i = i + 1;
            },
        }
        assert(before + escape(rest) =~= out@ + escape(s@.subrange(i as int, n as int)));
    }
    out.push(34);
    assert(final(out)@ =~= old(out)@ + quoted(s@));
}

/// Appends the bytes of `String::from_utf8_lossy(p)`.
fn write_lossy(out: &mut Vec<u8>, p: &[u8])
    ensures
        final(out)@ == old(out)@ + lossy_bytes(p@),
{
    let text = string_from_utf8_lossy(p);
    proof {
        if valid_utf8(p@) {
            lemma_valid_roundtrip(p@);
        }
    }
    push_str(out, text.as_str());
}

fn write_value(out: &mut Vec<u8>, v: &AttributeValue)
    ensures
        final(out)@ == old(out)@ + value_text(v@),
{
    match v {
        AttributeValue::UsbId(id) => id.write_to(out),
        AttributeValue::Interface(i) => i.write_to(out),
        AttributeValue::String(s) => write_quoted(out, s.as_bytes()),
    }
}

fn write_values(out: &mut Vec<u8>, values: &Vec<AttributeValue>)
    ensures
        final(out)@ == old(out)@ + values_text(crate::model::rule::values_view(values@)),
{
    let ghost start = out@;
    let ghost vs = crate::model::rule::values_view(values@);
    let mut i: usize = 0;
    while i < values.len()
        invariant
            i <= values@.len(),
            vs == crate::model::rule::values_view(values@),
            out@ == start + values_text(vs.subrange(0, i as int)),
        decreases values@.len() - i,
    {
        out.push(32);
        write_value(out, &values[i]);
        assert(vs.subrange(0, i + 1).drop_last() =~= vs.subrange(0, i as int));
        assert(vs.subrange(0, i + 1).last() == values@[i as int]@);
        i = i + 1;
    }
    assert(vs.subrange(0, values@.len() as int) =~= vs);
}

fn write_values_part(out: &mut Vec<u8>, v: &AttributeValues)
    ensures
        final(out)@ == old(out)@ + values_part(v@),
{
    match v {
        AttributeValues::Single(v) => {
            out.push(32);
            write_value(out, v);
        },
        AttributeValues::SetOf { operator, values } => {
            if let Some(op) = operator {
                out.push(32);
                push_str(out, op.keyword());
            }
            assert(out@ =~= old(out)@ + operator_text(*operator));
            out.push(32);
            out.push(123);
            write_values(out, values);
            out.push(32);
            out.push(125);
        },
    }
    assert(final(out)@ =~= old(out)@ + values_part(v@));
}

fn write_attribute(out: &mut Vec<u8>, a: &Attribute)
    ensures
        final(out)@ == old(out)@ + attribute_text(a@),
{
    push_str(out, a.name.keyword());
    write_values_part(out, &a.values);
    assert(final(out)@ =~= old(out)@ + attribute_text(a@));
}

fn write_condition(out: &mut Vec<u8>, c: &Condition)
    ensures
        final(out)@ == old(out)@ + condition_text(c@),
{
    if c.negated {
        out.push(33);
    }
    push_str(out, c.name.keyword());
    if let Some(p) = &c.parameter {
        // Parameters are kept verbatim from parsed text; they were valid
        // there, so they are valid here.
        out.push(40);
        write_lossy(out, p.as_slice());
        out.push(41);
    }
    assert(final(out)@ =~= old(out)@ + condition_text(c@));
}

fn write_clause(out: &mut Vec<u8>, c: &ConditionClause)
    ensures
        final(out)@ == old(out)@ + clause_text(c@),
{
    match c {
        ConditionClause::Single(c) => write_condition(out, c),
        ConditionClause::SetOf { operator, conditions } => {
            if let Some(op) = operator {
                push_str(out, op.keyword());
                out.push(32);
            }
            out.push(123);
            let ghost start = out@;
            let ghost cs = crate::model::rule::conditions_view(conditions@);
            let mut i: usize = 0;
            while i < conditions.len()
                invariant
                    i <= conditions@.len(),
                    cs == crate::model::rule::conditions_view(conditions@),
                    out@ == start + conditions_text(cs.subrange(0, i as int)),
                decreases conditions@.len() - i,
            {
                out.push(32);
                write_condition(out, &conditions[i]);
                assert(cs.subrange(0, i + 1).drop_last() =~= cs.subrange(0, i as int));
                assert(cs.subrange(0, i + 1).last() == conditions@[i as int]@);
                i = i + 1;
            }
            assert(cs.subrange(0, conditions@.len() as int) =~= cs);
            out.push(32);
            out.push(125);
            assert(final(out)@ =~= old(out)@ + clause_text(c@));
        },
    }
}

proof fn lemma_join_push(parts: Seq<Seq<u8>>, p: Seq<u8>)
    ensures
        join_spaced(parts.push(p)) == if parts.len() == 0 {
            p
        } else {
            join_spaced(parts) + seq![32u8] + p
        },
{
    assert(parts.push(p).drop_last() =~= parts);
}

/// Appends a rule's text.
#[verifier::rlimit(50)]
pub fn write_rule(out: &mut Vec<u8>, rule: &Rule)
    ensures
        final(out)@ == old(out)@ + render(rule@),
{
    let ghost r = rule@;
    let ghost start = old(out)@;
    let ghost mut parts: Seq<Seq<u8>> = Seq::empty();
    let mut first = true;
    if let Some(t) = rule.target {
        push_str(out, t.keyword());
        first = false;
        proof {
            lemma_join_push(parts, t.kw());
            parts = parts.push(t.kw());
        }
    }
    let ghost target_parts = parts;
    let mut i: usize = 0;
    while i < rule.attributes.len()
        invariant
            r == rule@,
            i <= rule.attributes@.len(),
            first == (parts.len() == 0),
            parts == target_parts + r.attributes.subrange(0, i as int).map_values(|a: SpecAttribute| attribute_text(a)),
            target_parts == (match r.target {
                Some(t) => seq![t.kw()],
                None => Seq::<Seq<u8>>::empty(),
            }),
            out@ == start + join_spaced(parts),
        decreases rule.attributes@.len() - i,
    {
        if !first {
            out.push(32);
        }
        let ghost a = rule.attributes@[i as int]@;
        write_attribute(out, &rule.attributes[i]);
        first = false;
        proof {
            lemma_join_push(parts, attribute_text(a));
            assert(r.attributes[i as int] == a);
            assert(target_parts + r.attributes.subrange(0, i + 1).map_values(|a: SpecAttribute| attribute_text(a))
                =~= parts.push(attribute_text(a)));
            parts = parts.push(attribute_text(a));
        }
        i = i + 1;
    }
    assert(r.attributes.subrange(0, i as int) =~= r.attributes);
    if let Some(c) = &rule.condition {
        if !first {
            out.push(32);
        }
        out.push(105);
        out.push(102);
        out.push(32);
        write_clause(out, c);
        first = false;
        proof {
            let piece = seq![105u8, 102u8, 32u8] + clause_text(c@);
            lemma_join_push(parts, piece);
            parts = parts.push(piece);
        }
    }
    if let Some(comment) = &rule.comment {
        if !first {
            out.push(32);
        }
        out.push(35);
        write_lossy(out, comment.as_slice());
        proof {
            let piece = seq![35u8] + lossy_bytes(comment@);
            lemma_join_push(parts, piece);
            parts = parts.push(piece);
        }
    }
    assert(parts =~= rule_parts(r)) by {
        reveal(rule_parts);
    }
    assert(final(out)@ =~= start + render(r));
}

impl Rule {
    /// The rule as text, as the daemon and the `usbguard` tool write it.
    pub fn to_string(&self) -> (r: String)
        ensures
            encode_utf8(r@) == render(self@),
    {
        let mut out: Vec<u8> = Vec::new();
        write_rule(&mut out, self);
        proof {
            assert(out@ =~= render(self@));
            lemma_render_valid(self@);
            lemma_valid_roundtrip(render(self@));
        }
        string_from_utf8(out)
    }
}

} // verus!
