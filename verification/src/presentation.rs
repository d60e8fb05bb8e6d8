//! Text the window shows for devices and rule errors, independent of the
//! toolkit that shows it.

use vstd::prelude::*;
use vstd::string::StrSliceExecFns;
use vstd::utf8::*;
use crate::cli::spaces;
use crate::model::device::{Device, SpecDevice};
use crate::model::error::ParseError;
use crate::text::{chars_of, decimal_chars, decimal_string, str_bytes, trim_str, trim_white_space};

verus! {

/// The character position of a byte offset into some text: the number of
/// characters before it when it falls on a character boundary (the end of
/// the text at most), else the offset itself.
pub open spec fn column_of(text: Seq<char>, offset: usize) -> int {
    let bytes = encode_utf8(text);
    let o = if offset < bytes.len() {
        offset as int
    } else {
        bytes.len() as int
    };
    if is_char_boundary(bytes, o) {
        decode_utf8(bytes.subrange(0, o)).len() as int
    } else {
        offset as int
    }
}

/// "error at character N" plus the input with a caret under the offending
/// position.
pub open spec fn caret_text(text: Seq<char>, err: ParseError) -> Seq<char> {
    let c = column_of(text, err.offset);
    err.kind.description() + " (character "@ + decimal_chars((c + 1) as nat) + "):\n"@ + text + "\n"@ + spaces(c)
        + "^"@
}

/// "error at character N" plus the input with a caret under the offending
/// position.
pub fn caret_message(text: &str, err: ParseError) -> (r: String)
    ensures
        r@ == caret_text(text@, err),
{
    let len = text.as_bytes().len();
    let o = if err.offset < len {
        err.offset
    } else {
        len
    };
    let column: usize = if text.is_char_boundary(o) {
        let (prefix, _) = text.split_at(o);
        proof {
            encode_utf8_decode_utf8(prefix@);
            assert(encode_utf8(prefix@) =~= encode_utf8(text@).subrange(0, o as int));
            crate::text::lemma_encode_len(prefix@);
            assert(decode_utf8(encode_utf8(text@).subrange(0, o as int)) == prefix@);
        }
        let c = prefix.unicode_len();
        assert(c as int == column_of(text@, err.offset));
        c
    } else {
        assert(err.offset as int == column_of(text@, err.offset));
        err.offset
    };
    assert(column as int == column_of(text@, err.offset));
    let mut s = String::from_str(err.kind.describe());
    s.append(" (character ");
    let n = decimal_string(column as u128 + 1);
    s.append(n.as_str());
    s.append("):\n");
    s.append(text);
    s.append("\n");
    let ghost head = s@;
    let mut i: usize = 0;
    assert(head + spaces(0) =~= head);
    while i < column
        invariant
            i <= column,
            s@ == head + spaces(i as int),
        decreases column - i,
    {
        s.append(" ");
        proof {
            reveal_strlit(" ");
        }
        assert(head + spaces(i as int) + " "@ =~= head + spaces(i + 1));
        i = i + 1;
    }
    s.append("^");
    s
}

/// The index of the first space, if any.
pub open spec fn first_space(t: Seq<char>) -> Option<int>
    decreases t.len(),
{
    if t.len() == 0 {
        None
    } else if t[0] == ' ' {
        Some(0)
    } else {
        match first_space(t.drop_first()) {
            Some(i) => Some(i + 1),
            None => None,
        }
    }
}

/// What identifies a device beyond its daemon id, which is recycled: its
/// descriptor hash, or failing that its rule text without the target.
pub open spec fn spec_identity(d: SpecDevice) -> Seq<char> {
    match d.attrs.hash {
        Some(h) => h,
        None => match first_space(d.rule_text) {
            Some(i) => d.rule_text.subrange(i + 1, d.rule_text.len() as int),
            None => Seq::empty(),
        },
    }
}

proof fn lemma_first_space(t: Seq<char>, i: int)
    requires
        0 <= i <= t.len(),
        forall|j: int| 0 <= j < i ==> t[j] != ' ',
    ensures
        i < t.len() && t[i] == ' ' ==> first_space(t) == Some(i),
        i == t.len() ==> first_space(t) is None,
    decreases i,
{
    if i > 0 && t.len() > 0 {
        lemma_first_space(t.drop_first(), i - 1);
    }
}

/// What identifies a device beyond its daemon id, which is recycled: its
/// descriptor hash, or failing that its rule text without the target.
pub fn identity(device: &Device) -> (r: String)
    ensures
        r@ == spec_identity(device@),
{
    match &device.attrs.hash {
        Some(h) => h.clone(),
        None => {
            let t = chars_of(device.rule_text.as_str());
            let mut i: usize = 0;
            while i < t.len() && t[i] != ' '
                invariant
                    i <= t@.len(),
                    t@ == device.rule_text@,
                    forall|j: int| 0 <= j < i ==> t@[j] != ' ',
                decreases t@.len() - i,
            {
                i = i + 1;
            }
            proof {
                lemma_first_space(t@, i as int);
            }
            if i < t.len() {
                let rest = device.rule_text.as_str().substring_char(i + 1, t.len());
                String::from_str(rest)
            } else {
                String::new()
            }
        },
    }
}

/// The name a notification gives a device: its trimmed name, or
/// "USB device N" when it has none.
pub open spec fn spec_display_name(d: SpecDevice) -> Seq<char> {
    match d.attrs.name {
        Some(n) => if trim_white_space(n).len() > 0 {
            trim_white_space(n)
        } else {
            "USB device "@ + decimal_chars(d.id as nat)
        },
        None => "USB device "@ + decimal_chars(d.id as nat),
    }
}

/// The name a notification gives a device.
pub fn display_name(device: &Device) -> (r: String)
    ensures
        r@ == spec_display_name(device@),
{
    let trimmed = match &device.attrs.name {
        Some(n) => trim_str(n.as_str()),
        None => "",
    };
    proof {
        reveal_strlit("");
    }
    if trimmed.is_empty() {
        let mut s = String::from_str("USB device ");
        let n = decimal_string(device.id.get() as u128);
        s.append(n.as_str());
        s
    } else {
        String::from_str(trimmed)
    }
}

} // verus!
