//! Building a rule from the guided form of the new-rule dialog: one target,
//! then attributes one at a time, each value validated for its own shape.
//!
//! The dialog shows the returned error next to the field it names.

use vstd::prelude::*;
use vstd::string::StrSliceExecFns;
use vstd::utf8::*;
use crate::model::ids::{InterfaceType, UsbId};
use crate::model::rule::{
    attribute_position, Attribute, AttributeName, AttributeValue, AttributeValues, Rule, RuleString,
    RuleTarget, SetOperator, SpecAttribute, SpecRule, SpecValue, SpecValues, attributes_view,
    values_view,
};
use crate::model::error::ParseError;
use crate::rules::grammar::{parse_spec, Mode, MAX_INPUT_LEN, MAX_SET_VALUES};
use crate::rules::render::render;
use crate::rules::roundtrip::{attribute_fits, distinct_names, lemma_round_trip, value_fits, well_formed};
use crate::text::{chars_of, next_word, words};

verus! {

/// One attribute row of the form, as typed.
#[derive(Debug, Clone, PartialEq, Eq)]
pub struct FieldInput {
    /// Which attribute.
    pub name: AttributeName,
    /// The set operator, if the user picked one.
    pub operator: Option<SetOperator>,
    /// The text in the value entry. For `id` and `with-interface`, several
    /// values separated by spaces; for every other attribute, one string,
    /// taken verbatim (the renderer quotes and escapes it).
    pub text: String,
}

/// Why a row is invalid. Structured rather than a sentence, so the
/// interface can word it in the user's language.
#[derive(Debug, Clone, PartialEq, Eq)]
pub enum FieldErrorKind {
    /// The attribute already appears in an earlier row.
    Duplicate(AttributeName),
    /// A word is not a valid value for the attribute.
    InvalidValue {
        /// Which attribute.
        name: AttributeName,
        /// The offending word, as typed.
        word: String,
    },
    /// A list attribute has no value at all.
    Empty,
    /// A set operator on a text attribute: needs the text mode.
    SetOfText,
}

/// An invalid row.
#[derive(Debug, Clone, PartialEq, Eq)]
pub struct FieldError {
    /// Index of the offending row.
    pub row: usize,
    /// What is wrong with it.
    pub kind: FieldErrorKind,
}

/// The mathematical value of a [`FieldErrorKind`].
pub enum SpecFieldErrorKind {
    /// The attribute already appears in an earlier row.
    Duplicate(AttributeName),
    /// A word is not a valid value for the attribute.
    InvalidValue { name: AttributeName, word: Seq<char> },
    /// A list attribute has no value at all.
    Empty,
    /// A set operator on a text attribute.
    SetOfText,
}

impl View for FieldErrorKind {
    type V = SpecFieldErrorKind;

    open spec fn view(&self) -> SpecFieldErrorKind {
        match self {
            FieldErrorKind::Duplicate(n) => SpecFieldErrorKind::Duplicate(*n),
            FieldErrorKind::InvalidValue { name, word } => SpecFieldErrorKind::InvalidValue {
                name: *name,
                word: word@,
            },
            FieldErrorKind::Empty => SpecFieldErrorKind::Empty,
            FieldErrorKind::SetOfText => SpecFieldErrorKind::SetOfText,
        }
    }
}

/// The value a word stands for in an `id` or `with-interface` row.
pub open spec fn structured_value(name: AttributeName, w: Seq<char>) -> Option<SpecValue> {
    match name {
        AttributeName::Id => match UsbId::spec_parse(encode_utf8(w)) {
            Some(id) => Some(SpecValue::UsbId(id)),
            None => None,
        },
        AttributeName::WithInterface => match InterfaceType::spec_parse(encode_utf8(w)) {
            Some(i) => Some(SpecValue::Interface(i)),
            None => None,
        },
        _ => None,
    }
}

/// The first word that is not a value of the attribute.
pub open spec fn first_bad(name: AttributeName, ws: Seq<Seq<char>>) -> Option<Seq<char>>
    decreases ws.len(),
{
    if ws.len() == 0 {
        None
    } else if structured_value(name, ws[0]) is None {
        Some(ws[0])
    } else {
        first_bad(name, ws.drop_first())
    }
}

/// The values of words that all are values of the attribute.
pub open spec fn word_values(name: AttributeName, ws: Seq<Seq<char>>) -> Seq<SpecValue> {
    ws.map_values(|w: Seq<char>| structured_value(name, w).unwrap())
}

/// The attribute one row makes, after the attributes `prior` of the rows
/// above it, or what is wrong with the row.
pub open spec fn row_attribute(
    prior: Seq<SpecAttribute>,
    name: AttributeName,
    operator: Option<SetOperator>,
    text: Seq<char>,
) -> Result<SpecAttribute, SpecFieldErrorKind> {
    if exists|i: int| 0 <= i < prior.len() && #[trigger] prior[i].name == name {
        Err(SpecFieldErrorKind::Duplicate(name))
    } else if name is Id || name is WithInterface {
        let ws = words(text);
        match first_bad(name, ws) {
            Some(w) => Err(SpecFieldErrorKind::InvalidValue { name, word: w }),
            None => if ws.len() == 0 {
                Err(SpecFieldErrorKind::Empty)
            } else if ws.len() == 1 && operator is None {
                Ok(SpecAttribute { name, values: SpecValues::Single(word_values(name, ws)[0]) })
            } else {
                Ok(SpecAttribute { name, values: SpecValues::SetOf { operator, values: word_values(name, ws) } })
            },
        }
    } else if operator is Some {
        Err(SpecFieldErrorKind::SetOfText)
    } else {
        Ok(SpecAttribute { name, values: SpecValues::Single(SpecValue::Str(encode_utf8(text))) })
    }
}

/// The rule the form builds, or the first invalid row and what is wrong
/// with it.
pub open spec fn built(target: RuleTarget, fields: Seq<FieldInput>) -> Result<SpecRule, (int, SpecFieldErrorKind)>
    decreases fields.len(),
{
    if fields.len() == 0 {
        Ok(SpecRule { target: Some(target), attributes: Seq::empty(), condition: None, comment: None })
    } else {
        match built(target, fields.drop_last()) {
            Err(e) => Err(e),
            Ok(r) => {
                let f = fields.last();
                match row_attribute(r.attributes, f.name, f.operator, f.text@) {
                    Ok(a) => Ok(SpecRule { attributes: r.attributes.push(a), ..r }),
                    Err(k) => Err((fields.len() - 1, k)),
                }
            },
        }
    }
}

proof fn lemma_first_bad_concat(name: AttributeName, a: Seq<Seq<char>>, b: Seq<Seq<char>>)
    requires
        first_bad(name, a) is None,
    ensures
        first_bad(name, a + b) == first_bad(name, b),
    decreases a.len(),
{
    if a.len() > 0 {
        assert((a + b).drop_first() =~= a.drop_first() + b);
        lemma_first_bad_concat(name, a.drop_first(), b);
    } else {
        assert(a + b =~= b);
    }
}

proof fn lemma_first_bad_push(name: AttributeName, a: Seq<Seq<char>>, w: Seq<char>)
    requires
        first_bad(name, a) is None,
        structured_value(name, w) is Some,
    ensures
        first_bad(name, a.push(w)) is None,
{
    lemma_first_bad_concat(name, a, seq![w]);
    assert(a + seq![w] =~= a.push(w));
    assert(seq![w].drop_first() =~= Seq::<Seq<char>>::empty());
    assert(first_bad(name, Seq::<Seq<char>>::empty()) is None);
    assert(first_bad(name, seq![w]) is None);
}

proof fn lemma_built_err_extends(target: RuleTarget, fields: Seq<FieldInput>, k: int)
    requires
        0 <= k <= fields.len(),
        built(target, fields.subrange(0, k)) is Err,
    ensures
        built(target, fields) == built(target, fields.subrange(0, k)),
    decreases fields.len() - k,
{
    if k < fields.len() {
        assert(fields.subrange(0, k + 1).drop_last() =~= fields.subrange(0, k));
        lemma_built_err_extends(target, fields, k + 1);
    } else {
        assert(fields.subrange(0, k) =~= fields);
    }
}

/// The value of one word of an `id` or `with-interface` row.
fn parse_structured(name: AttributeName, word: &str) -> (r: Option<AttributeValue>)
    ensures
        match r {
            Some(v) => structured_value(name, word@) == Some(v@),
            None => structured_value(name, word@) is None,
        },
{
    match name {
        AttributeName::Id => match UsbId::parse(word.as_bytes()) {
            Some(id) => Some(AttributeValue::UsbId(id)),
            None => None,
        },
        AttributeName::WithInterface => match InterfaceType::parse(word.as_bytes()) {
            Some(i) => Some(AttributeValue::Interface(i)),
            None => None,
        },
        _ => None,
    }
}

/// The values of the words of `text`, or the first word that is not one.
fn structured_values(name: AttributeName, text: &str) -> (r: Result<Vec<AttributeValue>, String>)
    ensures
        match r {
            Ok(vs) => first_bad(name, words(text@)) is None && values_view(vs@) == word_values(name, words(text@)),
            Err(w) => first_bad(name, words(text@)) == Some(w@),
        },
{
    let cs = chars_of(text);
    let n = cs.len();
    let ghost t = cs@;
    let mut out: Vec<AttributeValue> = Vec::new();
    let ghost mut done: Seq<Seq<char>> = Seq::empty();
    let mut i: usize = 0;
    assert(t.subrange(0, n as int) =~= t);
    assert(done + words(t) =~= words(t));
    while i < n
        invariant
            n == t.len(),
            t == text@,
            cs@ == t,
            i <= n,
            done + words(t.subrange(i as int, n as int)) == words(t),
            first_bad(name, done) is None,
            values_view(out@) == word_values(name, done),
        decreases n - i,
    {
        let ghost rest = t.subrange(i as int, n as int);
        let (a, b) = match next_word(&cs, i) {
            None => {
                proof {
                    assert(t.subrange(n as int, n as int) =~= Seq::<char>::empty());
                    assert(words(t.subrange(n as int, n as int)) =~= Seq::<Seq<char>>::empty());
                    assert(done + words(rest) =~= done + words(t.subrange(n as int, n as int)));
                }
                i = n;
                continue;
            },
            Some(bounds) => bounds,
        };
        let word = text.substring_char(a, b);
        match parse_structured(name, word) {
            Some(v) => {
                proof {
                    lemma_first_bad_push(name, done, word@);
                    assert(done.push(word@) + words(t.subrange(b as int, n as int)) =~= done + (seq![word@] + words(
                        t.subrange(b as int, n as int),
                    )));
                }
                let ghost prev = out@;
                out.push(v);
                proof {
                    let nd = done.push(word@);
                    assert(word_values(name, nd)[done.len() as int] == v@);
                    assert forall|k: int| 0 <= k < done.len() implies word_values(name, nd)[k] == word_values(name, done)[k] by {
                        assert(nd[k] == done[k]);
                    }
                    assert(values_view(out@) =~= values_view(prev).push(v@));
                    assert(values_view(out@) =~= word_values(name, nd));
                    done = nd;
                }
            },
            None => {
                proof {
                    lemma_first_bad_concat(name, done, words(rest));
                }
                return Err(word.to_owned());
            },
        }
        i = b;
    }
    proof {
        assert(t.subrange(n as int, n as int) =~= Seq::<char>::empty());
        assert(words(t.subrange(n as int, n as int)) =~= Seq::<Seq<char>>::empty());
        assert(done + Seq::<Seq<char>>::empty() =~= done);
    }
    Ok(out)
}

/// Builds a policy rule from the form.
///
/// Fails on the first invalid row: a duplicate attribute, a malformed value,
/// an empty list, or a set operator on a string attribute (sets of strings
/// need the text mode, where each value is quoted separately).
pub fn build_rule(target: RuleTarget, fields: &[FieldInput]) -> (r: Result<Rule, FieldError>)
    ensures
        match built(target, fields@) {
            Ok(spec) => r matches Ok(rule) && rule@ == spec,
            Err((row, kind)) => r matches Err(e) && e.row == row && e.kind@ == kind,
        },
{
    let mut rule = Rule { target: Some(target), attributes: Vec::new(), condition: None, comment: None };
    assert(attributes_view(rule.attributes@) =~= Seq::<SpecAttribute>::empty());
    let mut row: usize = 0;
    while row < fields.len()
        invariant
            row <= fields@.len(),
            built(target, fields@.subrange(0, row as int)) == Ok::<SpecRule, (int, SpecFieldErrorKind)>(rule@),
        decreases fields@.len() - row,
    {
        let field = &fields[row];
        proof {
            let sub = fields@.subrange(0, row + 1);
            assert(sub.drop_last() =~= fields@.subrange(0, row as int));
            assert(sub.last() == fields@[row as int]);
        }
        let prior = attribute_position(rule.attributes.as_slice(), field.name);
        proof {
            crate::model::rule::lemma_attr_index_from(attributes_view(rule.attributes@), field.name, 0);
        }
        if prior.is_some() {
            proof {
                let k = prior.unwrap() as int;
                assert(attributes_view(rule.attributes@)[k].name == field.name);
            }
            proof {
                lemma_built_err_extends(target, fields@, row + 1);
            }
            return Err(FieldError { row, kind: FieldErrorKind::Duplicate(field.name) });
        }
        proof {
            let attrs = attributes_view(rule.attributes@);
            assert(!(exists|i: int| 0 <= i < attrs.len() && #[trigger] attrs[i].name == field.name));
        }
        let values = match field.name {
            AttributeName::Id | AttributeName::WithInterface => {
                let parsed = match structured_values(field.name, field.text.as_str()) {
                    Ok(vs) => vs,
                    Err(word) => {
                        proof {
                            lemma_built_err_extends(target, fields@, row + 1);
                        }
                        return Err(
                            FieldError { row, kind: FieldErrorKind::InvalidValue { name: field.name, word } },
                        );
                    },
                };
                assert(values_view(parsed@).len() == parsed@.len());
                assert(word_values(field.name, words(field.text@)).len() == words(field.text@).len());
                if parsed.len() == 0 {
                    proof {
                        lemma_built_err_extends(target, fields@, row + 1);
                    }
                    return Err(FieldError { row, kind: FieldErrorKind::Empty });
                } else if parsed.len() == 1 && field.operator.is_none() {
                    let mut parsed = parsed;
                    let v = parsed.pop().unwrap();
                    assert(v@ == values_view(parsed@.push(v))[0]);
                    AttributeValues::Single(v)
                } else {
                    AttributeValues::SetOf { operator: field.operator, values: parsed }
                }
            },
            _ => {
                if field.operator.is_some() {
                    proof {
                        lemma_built_err_extends(target, fields@, row + 1);
                    }
                    return Err(FieldError { row, kind: FieldErrorKind::SetOfText });
                }
                AttributeValues::Single(AttributeValue::String(RuleString::from_text(field.text.as_str())))
            },
        };
        let ghost before = rule@;
        rule.attributes.push(Attribute { name: field.name, values });
        proof {
            assert(attributes_view(rule.attributes@) =~= before.attributes.push(rule.attributes@.last()@));
        }
        row = row + 1;
    }
    proof {
        assert(fields@.subrange(0, fields@.len() as int) =~= fields@);
    }
    Ok(rule)
}

/// No `id` or `with-interface` row holds more values than a set may.
pub open spec fn sets_within_limit(fields: Seq<FieldInput>) -> bool {
    forall|i: int|
        0 <= i < fields.len() ==> ((#[trigger] fields[i]).name is Id || fields[i].name is WithInterface)
            ==> words(fields[i].text@).len() <= MAX_SET_VALUES
}

proof fn lemma_no_bad_all_valued(name: AttributeName, ws: Seq<Seq<char>>)
    requires
        first_bad(name, ws) is None,
    ensures
        forall|i: int| 0 <= i < ws.len() ==> (#[trigger] structured_value(name, ws[i])) is Some,
    decreases ws.len(),
{
    if ws.len() > 0 {
        lemma_no_bad_all_valued(name, ws.drop_first());
        assert forall|i: int| 0 <= i < ws.len() implies (#[trigger] structured_value(name, ws[i])) is Some by {
            if i > 0 {
                assert(ws[i] == ws.drop_first()[i - 1]);
            }
        }
    }
}

proof fn lemma_structured_fits(name: AttributeName, w: Seq<char>)
    requires
        structured_value(name, w) is Some,
    ensures
        value_fits(name, structured_value(name, w).unwrap()),
{
    match name {
        AttributeName::Id => UsbId::lemma_text_of_parsed(encode_utf8(w)),
        AttributeName::WithInterface => InterfaceType::lemma_text_of_parsed(encode_utf8(w)),
        _ => {},
    }
}

/// A rule the form builds is well formed: its attributes have distinct
/// names and values of their own shape, as long as no set is over the limit.
pub proof fn lemma_built_well_formed(target: RuleTarget, fields: Seq<FieldInput>, r: SpecRule)
    requires
        built(target, fields) == Ok::<SpecRule, (int, SpecFieldErrorKind)>(r),
        sets_within_limit(fields),
    ensures
        well_formed(r),
        r.target == Some(target),
    decreases fields.len(),
{
    if fields.len() > 0 {
        let prefix = fields.drop_last();
        assert(sets_within_limit(prefix)) by {
            assert forall|i: int| 0 <= i < prefix.len() implies ((#[trigger] prefix[i]).name is Id
                || prefix[i].name is WithInterface) ==> words(prefix[i].text@).len() <= MAX_SET_VALUES by {
                assert(prefix[i] == fields[i]);
            }
        }
        let r0 = built(target, prefix)->Ok_0;
        lemma_built_well_formed(target, prefix, r0);
        let f = fields.last();
        assert(f == fields[fields.len() - 1]);
        let a = row_attribute(r0.attributes, f.name, f.operator, f.text@)->Ok_0;
        assert(r.attributes == r0.attributes.push(a));
        assert(forall|i: int| 0 <= i < r0.attributes.len() ==> #[trigger] r0.attributes[i].name != f.name);
        assert(distinct_names(r.attributes)) by {
            assert forall|i: int, j: int| 0 <= i < j < r.attributes.len() implies #[trigger] r.attributes[i].name
                != #[trigger] r.attributes[j].name by {
                if j == r0.attributes.len() {
                    assert(r.attributes[i] == r0.attributes[i]);
                } else {
                    assert(r.attributes[i] == r0.attributes[i]);
                    assert(r.attributes[j] == r0.attributes[j]);
                }
            }
        }
        assert(attribute_fits(a)) by {
            if f.name is Id || f.name is WithInterface {
                let ws = words(f.text@);
                lemma_no_bad_all_valued(f.name, ws);
                assert forall|i: int| 0 <= i < ws.len() implies value_fits(
                    f.name,
                    #[trigger] word_values(f.name, ws)[i],
                ) by {
                    lemma_structured_fits(f.name, ws[i]);
                }
            }
        }
        assert forall|i: int| 0 <= i < r.attributes.len() implies attribute_fits(#[trigger] r.attributes[i]) by {
            if i < r0.attributes.len() {
                assert(r.attributes[i] == r0.attributes[i]);
            }
        }
    }
}

/// The text a rule built by the form renders to parses back to that same
/// rule — so the dialog never offers a rule the daemon's parser would read
/// differently — whenever the text fits in the input limit and no set is
/// over the limit. With a policy target it is a valid policy rule too.
pub proof fn lemma_built_round_trips(target: RuleTarget, fields: Seq<FieldInput>, r: SpecRule)
    requires
        built(target, fields) == Ok::<SpecRule, (int, SpecFieldErrorKind)>(r),
        sets_within_limit(fields),
        render(r).len() <= MAX_INPUT_LEN,
    ensures
        parse_spec(render(r), Mode::Query) == Ok::<SpecRule, ParseError>(r),
        !(target is Match) ==> parse_spec(render(r), Mode::Rule) == Ok::<SpecRule, ParseError>(r),
{
    lemma_built_well_formed(target, fields, r);
    lemma_round_trip(r, Mode::Query);
    if !(target is Match) {
        lemma_round_trip(r, Mode::Rule);
    }
}

} // verus!
