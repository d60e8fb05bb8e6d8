//! Strongly typed identifiers for USBGuard domain objects.
//!
//! [`DeviceId`] and [`RuleId`] wrap the same underlying integer (`u32`) but are
//! distinct types. [`UsbId`] and [`InterfaceType`] are the two structured
//! attribute values of the rule language: `vendor:product` and
//! `class:subclass:protocol`.

use vstd::prelude::*;
use vstd::utf8::*;
use crate::text::{
    all_hex, ascii_bytes, ascii_lower, hex2, hex4, hex_char, hex_char_exec, hex_digit, hex_digit_value,
    hex_value, is_hex_digit, lemma_ascii_valid_utf8, lemma_hex_value_bound, lemma_valid_roundtrip,
    lemma_ascii_chars_bytes, lemma_encode_ascii_back, lower_byte, lower_char, lowercase, string_from_utf8,
};

verus! {

/// Unique identifier assigned by the USBGuard daemon to a connected USB device.
///
/// Device IDs are volatile: they are assigned at insertion time and recycled
/// when the device is removed. A device ID has nothing to do with the device's
/// `id` *attribute*, which is the `vendor:product` pair ([`UsbId`]).
#[derive(Debug, Clone, Copy, PartialEq, Eq, Structural, Hash, PartialOrd, Ord)]
pub struct DeviceId(u32);

impl View for DeviceId {
    type V = u32;

    closed spec fn view(&self) -> u32 {
        self.0
    }
}

impl DeviceId {
    /// Creates a new `DeviceId` from the raw value returned by the daemon.
    pub fn new(raw: u32) -> (r: Self)
        ensures
            r@ == raw,
    {
        DeviceId(raw)
    }

    /// Returns the underlying `u32` value.
    pub fn get(self) -> (r: u32)
        ensures
            r == self@,
    {
        self.0
    }

    /// A device id is its raw value.
    pub proof fn lemma_view_injective(a: DeviceId, b: DeviceId)
        ensures
            a@ == b@ ==> a == b,
    {
    }

    /// The id with a given raw value.
    pub closed spec fn spec_new(raw: u32) -> DeviceId {
        DeviceId(raw)
    }

    /// [`DeviceId::spec_new`] has the given value.
    pub broadcast proof fn lemma_spec_new(raw: u32)
        ensures
            (#[trigger] DeviceId::spec_new(raw))@ == raw,
    {
    }
}

/// Positional identifier assigned by the USBGuard daemon to a policy rule.
///
/// Rule IDs are volatile: they shift whenever a rule is added or removed from
/// the policy. Code must never cache a `RuleId` across operations that modify
/// the ruleset.
#[derive(Debug, Clone, Copy, PartialEq, Eq, Structural, Hash, PartialOrd, Ord)]
pub struct RuleId(u32);

impl View for RuleId {
    type V = u32;

    closed spec fn view(&self) -> u32 {
        self.0
    }
}

/// The raw value of [`RuleId::append_last`]: `u32::MAX - 2`.
pub const APPEND_LAST_RAW: u32 = 4294967293;

impl RuleId {
    /// Conventional `parent_id` meaning "append at the end of the ruleset".
    pub fn append_last() -> (r: Self)
        ensures
            r@ == APPEND_LAST_RAW,
    {
        RuleId(APPEND_LAST_RAW)
    }

    /// Creates a new `RuleId` from the raw value returned by the daemon.
    pub fn new(raw: u32) -> (r: Self)
        ensures
            r@ == raw,
    {
        RuleId(raw)
    }

    /// Returns the underlying `u32` value.
    pub fn get(self) -> (r: u32)
        ensures
            r == self@,
    {
        self.0
    }

    /// A rule id is its raw value.
    pub proof fn lemma_view_injective(a: RuleId, b: RuleId)
        ensures
            a@ == b@ ==> a == b,
    {
    }
}

/// One half of a [`UsbId`]: a 16-bit number, or the `*` wildcard.
#[derive(Debug, Clone, Copy, PartialEq, Eq, Structural, Hash)]
pub enum IdPart {
    /// `*` — matches any value.
    Any,
    /// A concrete 16-bit value.
    Value(u16),
}

/// The text of one half of a [`UsbId`]: `*` or four lowercase hex digits.
pub open spec fn id_part_text(p: IdPart) -> Seq<u8> {
    match p {
        IdPart::Any => seq![42u8],
        IdPart::Value(v) => hex4(v),
    }
}

/// What [`UsbId::parse`] makes of one half.
pub open spec fn spec_parse_id_part(t: Seq<u8>) -> Option<IdPart> {
    if t == seq![42u8] {
        Some(IdPart::Any)
    } else if t.len() == 4 && all_hex(t) {
        Some(IdPart::Value(hex_value(t) as u16))
    } else {
        None
    }
}

/// The position of the first `sep` in `s` at or after `i`.
pub open spec fn first_index_from(s: Seq<u8>, sep: u8, i: int) -> Option<int>
    decreases s.len() - i,
{
    if i < 0 || i >= s.len() {
        None
    } else if s[i] == sep {
        Some(i)
    } else {
        first_index_from(s, sep, i + 1)
    }
}

/// The position of the first `sep` in `s`.
pub open spec fn first_index(s: Seq<u8>, sep: u8) -> Option<int> {
    first_index_from(s, sep, 0)
}

/// Characterizes [`first_index_from`].
pub proof fn lemma_first_index_from(s: Seq<u8>, sep: u8, i: int)
    requires
        0 <= i,
    ensures
        first_index_from(s, sep, i) matches Some(k) ==> i <= k < s.len() && s[k] == sep && (forall|j: int|
            i <= j < k ==> s[j] != sep),
        first_index_from(s, sep, i) is None ==> (forall|j: int| i <= j < s.len() ==> s[j] != sep),
    decreases s.len() - i,
{
    if i < s.len() && s[i] != sep {
        lemma_first_index_from(s, sep, i + 1);
    }
}

/// Characterizes [`first_index`] by the position found.
pub proof fn lemma_first_index(s: Seq<u8>, sep: u8, i: int)
    requires
        0 <= i <= s.len(),
        forall|j: int| 0 <= j < i ==> s[j] != sep,
        i < s.len() ==> s[i] == sep,
    ensures
        first_index(s, sep) == (if i < s.len() { Some(i) } else { None::<int> }),
{
    lemma_first_index_from(s, sep, 0);
    match first_index(s, sep) {
        Some(k) => {
            if k < i {
                assert(s[k] != sep);
            }
            if i < k {
                assert(s[i] != sep);
            }
        },
        None => {
            if i < s.len() {
                assert(s[i] != sep);
            }
        },
    }
}

/// The split of `text` around its first `sep`.
pub open spec fn spec_split_once(s: Seq<u8>, sep: u8) -> Option<(Seq<u8>, Seq<u8>)> {
    match first_index(s, sep) {
        Some(i) => Some((s.subrange(0, i), s.subrange(i + 1, s.len() as int))),
        None => None,
    }
}

pub(crate) fn split_once(text: &[u8], sep: u8) -> (r: Option<(&[u8], &[u8])>)
    ensures
        r matches Some((a, b)) ==> spec_split_once(text@, sep) == Some((a@, b@)),
        r is None ==> spec_split_once(text@, sep) is None,
{
    let mut i: usize = 0;
    while i < text.len()
        invariant
            i <= text@.len(),
            forall|j: int| 0 <= j < i ==> text@[j] != sep,
        decreases text@.len() - i,
    {
        if text[i] == sep {
            proof {
                lemma_first_index(text@, sep, i as int);
            }
            return Some((&text[0..i], &text[i + 1..text.len()]));
        }
        i = i + 1;
    }
    proof {
        lemma_first_index(text@, sep, i as int);
    }
    None
}

/// Parses up to eight hex digits.
fn parse_hex(text: &[u8]) -> (r: Option<u32>)
    ensures
        r is Some <==> (1 <= text@.len() <= 8 && all_hex(text@)),
        r matches Some(v) ==> v as nat == hex_value(text@),
{
    if text.len() == 0 || text.len() > 8 {
        return None;
    }
    let mut acc: u32 = 0;
    let mut i: usize = 0;
    while i < text.len()
        invariant
            1 <= text@.len() <= 8,
            i <= text@.len(),
            all_hex(text@.subrange(0, i as int)),
            acc as nat == hex_value(text@.subrange(0, i as int)),
        decreases text@.len() - i,
    {
        let b = text[i];
        let d = match hex_digit(b) {
            Some(d) => d,
            None => {
                assert(!all_hex(text@)) by {
                    assert(!is_hex_digit(text@[i as int]));
                }
                return None;
            },
        };
        let ghost pre = text@.subrange(0, i as int);
        let ghost next = text@.subrange(0, i + 1);
        proof {
            assert(next.drop_last() =~= pre);
            assert(next.last() == b);
            assert(all_hex(next)) by {
                assert forall|j: int| 0 <= j < next.len() implies #[trigger] is_hex_digit(next[j]) by {
                    if j < i {
                        assert(is_hex_digit(pre[j]));
                    }
                }
            }
            lemma_hex_value_bound(next);
            assert(hex_value(next) == hex_value(pre) * 16 + d);
        }
        acc = acc * 16 + d as u32;
        i = i + 1;
    }
    assert(text@.subrange(0, text@.len() as int) =~= text@);
    Some(acc)
}

fn parse_id_part(text: &[u8]) -> (r: Option<IdPart>)
    ensures
        r == spec_parse_id_part(text@),
{
    if text.len() == 1 && text[0] == 42 {
        assert(text@ =~= seq![42u8]);
        return Some(IdPart::Any);
    }
    assert(text@ != seq![42u8]);
    if text.len() != 4 {
        return None;
    }
    match parse_hex(text) {
        Some(v) => {
            proof {
                lemma_hex_value_bound(text@);
            }
            Some(IdPart::Value(v as u16))
        },
        None => None,
    }
}

/// The `id` attribute of a device: `vendor:product`.
///
/// Invariant: a wildcard vendor implies a wildcard product (`*:1234` is not
/// valid rule syntax). The constructor [`UsbId::new`] enforces it.
#[derive(Debug, Clone, Copy, PartialEq, Eq, Structural, Hash)]
pub struct UsbId {
    vendor: IdPart,
    product: IdPart,
}

impl UsbId {
    /// The vendor half.
    pub closed spec fn spec_vendor(self) -> IdPart {
        self.vendor
    }

    /// The product half.
    pub closed spec fn spec_product(self) -> IdPart {
        self.product
    }

    /// A wildcard vendor implies a wildcard product.
    pub open spec fn valid(self) -> bool {
        !(self.spec_vendor() is Any && self.spec_product() is Value)
    }

    #[verifier::type_invariant]
    closed spec fn inv(self) -> bool {
        !(self.vendor is Any && self.product is Value)
    }

    /// The `UsbId` with the given halves, when they respect the invariant.
    pub closed spec fn spec_new(vendor: IdPart, product: IdPart) -> Option<UsbId> {
        if vendor is Any && product is Value {
            None
        } else {
            Some(UsbId { vendor, product })
        }
    }

    /// Two ids with the same halves are the same id.
    pub proof fn lemma_ext(a: UsbId, b: UsbId)
        requires
            a.spec_vendor() == b.spec_vendor(),
            a.spec_product() == b.spec_product(),
        ensures
            a == b,
    {
    }

    /// What [`UsbId::spec_new`] builds.
    pub proof fn lemma_spec_new(vendor: IdPart, product: IdPart)
        ensures
            UsbId::spec_new(vendor, product) is Some <==> !(vendor is Any && product is Value),
            UsbId::spec_new(vendor, product) matches Some(id) ==> id.spec_vendor() == vendor
                && id.spec_product() == product,
    {
    }

    /// Builds a `UsbId`, or `None` if `vendor` is a wildcard and `product` is not.
    pub fn new(vendor: IdPart, product: IdPart) -> (r: Option<Self>)
        ensures
            r == UsbId::spec_new(vendor, product),
            r is Some <==> !(vendor is Any && product is Value),
            r matches Some(id) ==> id.spec_vendor() == vendor && id.spec_product() == product,
    {
        match (vendor, product) {
            (IdPart::Any, IdPart::Value(_)) => None,
            _ => Some(UsbId { vendor, product }),
        }
    }

    /// The vendor half.
    pub fn vendor(self) -> (r: IdPart)
        ensures
            r == self.spec_vendor(),
    {
        self.vendor
    }

    /// The product half.
    pub fn product(self) -> (r: IdPart)
        ensures
            r == self.spec_product(),
    {
        self.product
    }

    /// What [`UsbId::parse`] returns: `vvvv:pppp`, split at the first `:`,
    /// each half exactly four hex digits or `*`.
    pub open spec fn spec_parse(t: Seq<u8>) -> Option<UsbId> {
        match spec_split_once(t, 58u8) {
            Some((v, p)) => match (spec_parse_id_part(v), spec_parse_id_part(p)) {
                (Some(vendor), Some(product)) => UsbId::spec_new(vendor, product),
                _ => None,
            },
            None => None,
        }
    }

    /// Parses `vvvv:pppp`, where each half is exactly four hex digits or `*`.
    pub fn parse(text: &[u8]) -> (r: Option<Self>)
        ensures
            r == UsbId::spec_parse(text@),
    {
        let (vendor, product) = match split_once(text, 58) {
            Some(p) => p,
            None => return None,
        };
        let vendor = match parse_id_part(vendor) {
            Some(v) => v,
            None => return None,
        };
        let product = match parse_id_part(product) {
            Some(p) => p,
            None => return None,
        };
        Self::new(vendor, product)
    }

    /// The rendered text: `vvvv:pppp`, lowercase, or `*` for a wildcard half.
    pub open spec fn text(self) -> Seq<u8> {
        id_part_text(self.spec_vendor()) + seq![58u8] + id_part_text(self.spec_product())
    }

    /// Renders the id, as its `Display` implementation does.
    pub fn to_string(&self) -> (r: String)
        ensures
            r@ == decode_utf8(self.text()),
            encode_utf8(r@) == self.text(),
    {
        let mut out: Vec<u8> = Vec::new();
        self.write_to(&mut out);
        proof {
            lemma_id_text_ascii(*self);
            lemma_ascii_valid_utf8(self.text());
            lemma_valid_roundtrip(self.text());
        }
        string_from_utf8(out)
    }

    /// Appends the rendered text.
    pub fn write_to(&self, out: &mut Vec<u8>)
        ensures
            final(out)@ == old(out)@ + self.text(),
    {
        write_id_part(out, self.vendor);
        out.push(58);
        write_id_part(out, self.product);
        assert(final(out)@ =~= old(out)@ + self.text());
    }
}

fn write_id_part(out: &mut Vec<u8>, part: IdPart)
    ensures
        final(out)@ == old(out)@ + id_part_text(part),
{
    match part {
        IdPart::Any => {
            out.push(42);
            assert(final(out)@ =~= old(out)@ + id_part_text(part));
        },
        IdPart::Value(v) => {
            push_hex4(out, v);
        },
    }
}

/// Appends `{:04x}`.
pub fn push_hex4(out: &mut Vec<u8>, v: u16)
    ensures
        final(out)@ == old(out)@ + hex4(v),
{
    out.push(hex_char_exec((v / 4096) as u8));
    out.push(hex_char_exec(((v / 256) % 16) as u8));
    out.push(hex_char_exec(((v / 16) % 16) as u8));
    out.push(hex_char_exec((v % 16) as u8));
    assert(final(out)@ =~= old(out)@ + hex4(v));
}

/// Appends `{:02x}`.
pub fn push_hex2(out: &mut Vec<u8>, v: u8)
    ensures
        final(out)@ == old(out)@ + hex2(v),
{
    out.push(hex_char_exec(v / 16));
    out.push(hex_char_exec(v % 16));
    assert(final(out)@ =~= old(out)@ + hex2(v));
}

/// Rendered ids are ASCII.
pub proof fn lemma_id_text_ascii(id: UsbId)
    ensures
        ascii_bytes(id.text()),
        id_text_chars(id.text()),
        id.text().len() >= 3,
{
    let t = id.text();
    assert forall|i: int| 0 <= i < t.len() implies #[trigger] t[i] < 128 && is_id_char(t[i]) by {
        let a = id_part_text(id.spec_vendor());
        if i < a.len() {
        } else if i == a.len() {
        } else {
        }
    }
}

/// The bytes rendered ids and interface types are made of: hex digits,
/// `*` and `:`.
pub open spec fn is_id_char(b: u8) -> bool {
    is_hex_digit(b) || b == 42 || b == 58
}

/// Every byte is an [`is_id_char`].
pub open spec fn id_text_chars(s: Seq<u8>) -> bool {
    forall|i: int| 0 <= i < s.len() ==> #[trigger] is_id_char(s[i])
}

proof fn lemma_hex4_roundtrip(v: u16)
    ensures
        spec_parse_id_part(hex4(v)) == Some(IdPart::Value(v)),
{
    let t = hex4(v);
    let a = (v / 4096) as nat;
    let b = ((v / 256) % 16) as nat;
    let c = ((v / 16) % 16) as nat;
    let d = (v % 16) as nat;
    assert(all_hex(t));
    assert(t != seq![42u8]) by {
        if a < 10 {
            assert(t[0] != 42u8);
        }
    }
    assert(hex_digit_value(hex_char(a)) == a);
    assert(hex_digit_value(hex_char(b)) == b);
    assert(hex_digit_value(hex_char(c)) == c);
    assert(hex_digit_value(hex_char(d)) == d);
    reveal_with_fuel(hex_value, 5);
    assert(t.drop_last().drop_last().drop_last().drop_last() =~= Seq::<u8>::empty());
    assert(t.drop_last().drop_last().drop_last() =~= seq![t[0]]);
    assert(t.drop_last().drop_last() =~= seq![t[0], t[1]]);
    assert(t.drop_last() =~= seq![t[0], t[1], t[2]]);
    assert(hex_value(t) == ((a * 16 + b) * 16 + c) * 16 + d);
    let vn = v as nat;
    assert(((a * 16 + b) * 16 + c) * 16 + d == vn) by (nonlinear_arith)
        requires
            vn < 65536,
            a == vn / 4096,
            b == (vn / 256) % 16,
            c == (vn / 16) % 16,
            d == vn % 16,
    ;
}

proof fn lemma_hex4_lower(t: Seq<u8>)
    requires
        t.len() == 4,
        all_hex(t),
    ensures
        hex4(hex_value(t) as u16) == ascii_lower(t),
{
    let a = hex_digit_value(t[0]);
    let b = hex_digit_value(t[1]);
    let c = hex_digit_value(t[2]);
    let d = hex_digit_value(t[3]);
    assert(is_hex_digit(t[0]) && is_hex_digit(t[1]) && is_hex_digit(t[2]) && is_hex_digit(t[3]));
    reveal_with_fuel(hex_value, 5);
    assert(t.drop_last().drop_last().drop_last().drop_last() =~= Seq::<u8>::empty());
    assert(t.drop_last().drop_last().drop_last() =~= seq![t[0]]);
    assert(t.drop_last().drop_last() =~= seq![t[0], t[1]]);
    assert(t.drop_last() =~= seq![t[0], t[1], t[2]]);
    let v = hex_value(t);
    assert(v == ((a * 16 + b) * 16 + c) * 16 + d);
    assert(a < 16 && b < 16 && c < 16 && d < 16);
    assert(v < 65536 && v / 4096 == a && (v / 256) % 16 == b && (v / 16) % 16 == c && v % 16 == d)
        by (nonlinear_arith)
        requires
            v == ((a * 16 + b) * 16 + c) * 16 + d,
            a < 16,
            b < 16,
            c < 16,
            d < 16,
    ;
    let w = v as u16;
    assert(w as nat == v);
    assert(hex4(w) =~= ascii_lower(t));
}

proof fn lemma_hex2_roundtrip(v: u8)
    ensures
        spec_parse_byte(hex2(v)) == Some(v),
{
    let t = hex2(v);
    let a = (v / 16) as nat;
    let b = (v % 16) as nat;
    assert(all_hex(t));
    reveal_with_fuel(hex_value, 3);
    assert(t.drop_last().drop_last() =~= Seq::<u8>::empty());
    assert(t.drop_last() =~= seq![t[0]]);
    assert(hex_value(t) == a * 16 + b);
}

proof fn lemma_hex2_lower(t: Seq<u8>)
    requires
        t.len() == 2,
        all_hex(t),
    ensures
        hex2(hex_value(t) as u8) == ascii_lower(t),
{
    assert(is_hex_digit(t[0]) && is_hex_digit(t[1]));
    reveal_with_fuel(hex_value, 3);
    assert(t.drop_last().drop_last() =~= Seq::<u8>::empty());
    assert(t.drop_last() =~= seq![t[0]]);
    assert(hex2(hex_value(t) as u8) =~= ascii_lower(t));
}

proof fn lemma_split_at_sep(a: Seq<u8>, b: Seq<u8>)
    requires
        forall|i: int| 0 <= i < a.len() ==> a[i] != 58u8,
    ensures
        spec_split_once(a + seq![58u8] + b, 58u8) == Some((a, b)),
{
    let s = a + seq![58u8] + b;
    lemma_first_index(s, 58u8, a.len() as int);
    assert(s.subrange(0, a.len() as int) =~= a);
    assert(s.subrange(a.len() as int + 1, s.len() as int) =~= b);
}

impl UsbId {
    /// Rendering then parsing gives back the same id.
    pub proof fn lemma_parse_text(self)
        requires
            self.valid(),
        ensures
            UsbId::spec_parse(self.text()) == Some(self),
    {
        let a = id_part_text(self.spec_vendor());
        let b = id_part_text(self.spec_product());
        assert forall|i: int| 0 <= i < a.len() implies a[i] != 58u8 by {}
        lemma_split_at_sep(a, b);
        match self.spec_vendor() {
            IdPart::Any => {},
            IdPart::Value(v) => lemma_hex4_roundtrip(v),
        }
        match self.spec_product() {
            IdPart::Any => {},
            IdPart::Value(v) => lemma_hex4_roundtrip(v),
        }
        let r = UsbId::spec_new(self.spec_vendor(), self.spec_product()).unwrap();
        UsbId::lemma_ext(r, self);
    }

    /// Whatever parses is valid, and renders to its input in lowercase.
    pub proof fn lemma_text_of_parsed(t: Seq<u8>)
        requires
            UsbId::spec_parse(t) is Some,
        ensures
            UsbId::spec_parse(t).unwrap().valid(),
            UsbId::spec_parse(t).unwrap().text() == ascii_lower(t),
    {
        let (v, p) = spec_split_once(t, 58u8).unwrap();
        lemma_first_index_from(t, 58u8, 0);
        let i = first_index(t, 58u8).unwrap();
        assert(0 <= i < t.len() && t[i] == 58u8);
        assert(t =~= v + seq![58u8] + p);
        let id = UsbId::spec_parse(t).unwrap();
        if spec_parse_id_part(v).unwrap() is Value {
            lemma_hex4_lower(v);
        } else {
            assert(v =~= seq![42u8]);
            assert(ascii_lower(v) =~= v);
        }
        if spec_parse_id_part(p).unwrap() is Value {
            lemma_hex4_lower(p);
        } else {
            assert(p =~= seq![42u8]);
            assert(ascii_lower(p) =~= p);
        }
        assert(ascii_lower(t) =~= ascii_lower(v) + seq![58u8] + ascii_lower(p));
    }
}

/// What [`InterfaceType::parse`] makes of `cc`: exactly two hex digits.
pub open spec fn spec_parse_byte(t: Seq<u8>) -> Option<u8> {
    if t.len() == 2 && all_hex(t) {
        Some(hex_value(t) as u8)
    } else {
        None
    }
}

/// What [`InterfaceType::parse`] makes of `ss` or `pp`: two hex digits or `*`.
pub open spec fn spec_parse_wildcard_byte(t: Seq<u8>) -> Option<Option<u8>> {
    if t == seq![42u8] {
        Some(None)
    } else {
        match spec_parse_byte(t) {
            Some(v) => Some(Some(v)),
            None => None,
        }
    }
}

fn parse_byte(text: &[u8]) -> (r: Option<u8>)
    ensures
        r == spec_parse_byte(text@),
{
    if text.len() != 2 {
        return None;
    }
    match parse_hex(text) {
        Some(v) => {
            proof {
                lemma_hex_value_bound(text@);
            }
            Some(v as u8)
        },
        None => None,
    }
}

fn parse_wildcard_byte(text: &[u8]) -> (r: Option<Option<u8>>)
    ensures
        r == spec_parse_wildcard_byte(text@),
{
    if text.len() == 1 && text[0] == 42 {
        assert(text@ =~= seq![42u8]);
        Some(None)
    } else {
        assert(text@ != seq![42u8]);
        match parse_byte(text) {
            Some(v) => Some(Some(v)),
            None => None,
        }
    }
}

/// The `with-interface` attribute: `cc:ss:pp`, three 8-bit hex numbers.
///
/// `None` in `subclass` or `protocol` is the `*` wildcard. Invariant: a
/// wildcard subclass implies a wildcard protocol, enforced by [`InterfaceType::new`].
#[derive(Debug, Clone, Copy, PartialEq, Eq, Structural, Hash)]
pub struct InterfaceType {
    class: u8,
    subclass: Option<u8>,
    protocol: Option<u8>,
}

/// The text of `ss` or `pp`: two lowercase hex digits or `*`.
pub open spec fn wildcard_text(v: Option<u8>) -> Seq<u8> {
    match v {
        Some(b) => hex2(b),
        None => seq![42u8],
    }
}

impl InterfaceType {
    /// The interface class.
    pub closed spec fn spec_class(self) -> u8 {
        self.class
    }

    /// The interface subclass, `None` for `*`.
    pub closed spec fn spec_subclass(self) -> Option<u8> {
        self.subclass
    }

    /// The interface protocol, `None` for `*`.
    pub closed spec fn spec_protocol(self) -> Option<u8> {
        self.protocol
    }

    /// A wildcard subclass implies a wildcard protocol.
    pub open spec fn valid(self) -> bool {
        !(self.spec_subclass() is None && self.spec_protocol() is Some)
    }

    #[verifier::type_invariant]
    closed spec fn inv(self) -> bool {
        !(self.subclass is None && self.protocol is Some)
    }

    /// The `InterfaceType` with the given parts, when they respect the invariant.
    pub closed spec fn spec_new(class: u8, subclass: Option<u8>, protocol: Option<u8>) -> Option<InterfaceType> {
        if subclass is None && protocol is Some {
            None
        } else {
            Some(InterfaceType { class, subclass, protocol })
        }
    }

    /// Two interface types with the same parts are the same.
    pub proof fn lemma_ext(a: InterfaceType, b: InterfaceType)
        requires
            a.spec_class() == b.spec_class(),
            a.spec_subclass() == b.spec_subclass(),
            a.spec_protocol() == b.spec_protocol(),
        ensures
            a == b,
    {
    }

    /// Builds an `InterfaceType`, or `None` if `subclass` is a wildcard and
    /// `protocol` is not.
    pub fn new(class: u8, subclass: Option<u8>, protocol: Option<u8>) -> (r: Option<Self>)
        ensures
            r == InterfaceType::spec_new(class, subclass, protocol),
            r is Some <==> !(subclass is None && protocol is Some),
            r matches Some(i) ==> i.spec_class() == class && i.spec_subclass() == subclass
                && i.spec_protocol() == protocol,
    {
        match (subclass, protocol) {
            (None, Some(_)) => None,
            _ => Some(InterfaceType { class, subclass, protocol }),
        }
    }

    /// The interface class.
    pub fn class(self) -> (r: u8)
        ensures
            r == self.spec_class(),
    {
        self.class
    }

    /// The interface subclass, `None` for `*`.
    pub fn subclass(self) -> (r: Option<u8>)
        ensures
            r == self.spec_subclass(),
    {
        self.subclass
    }

    /// The interface protocol, `None` for `*`.
    pub fn protocol(self) -> (r: Option<u8>)
        ensures
            r == self.spec_protocol(),
    {
        self.protocol
    }

    /// What [`InterfaceType::parse`] returns: `cc:ss:pp` split at the first
    /// two `:`, `cc` two hex digits, `ss` and `pp` two hex digits or `*`.
    pub open spec fn spec_parse(t: Seq<u8>) -> Option<InterfaceType> {
        match spec_split_once(t, 58u8) {
            Some((c, rest)) => match spec_split_once(rest, 58u8) {
                Some((s, p)) => match (spec_parse_byte(c), spec_parse_wildcard_byte(s), spec_parse_wildcard_byte(p)) {
                    (Some(class), Some(subclass), Some(protocol)) => InterfaceType::spec_new(class, subclass, protocol),
                    _ => None,
                },
                None => None,
            },
            None => None,
        }
    }

    /// Parses `cc:ss:pp`, where each part is exactly two hex digits and the
    /// last two may be `*`.
    pub fn parse(text: &[u8]) -> (r: Option<Self>)
        ensures
            r == InterfaceType::spec_parse(text@),
    {
        let (class, rest) = match split_once(text, 58) {
            Some(p) => p,
            None => return None,
        };
        let (subclass, protocol) = match split_once(rest, 58) {
            Some(p) => p,
            None => return None,
        };
        let class = match parse_byte(class) {
            Some(c) => c,
            None => return None,
        };
        let subclass = match parse_wildcard_byte(subclass) {
            Some(s) => s,
            None => return None,
        };
        let protocol = match parse_wildcard_byte(protocol) {
            Some(p) => p,
            None => return None,
        };
        Self::new(class, subclass, protocol)
    }

    /// The rendered text: `cc:ss:pp`, lowercase, `*` for a wildcard.
    pub open spec fn text(self) -> Seq<u8> {
        hex2(self.spec_class()) + seq![58u8] + wildcard_text(self.spec_subclass()) + seq![58u8]
            + wildcard_text(self.spec_protocol())
    }

    /// Renders the interface type, as its `Display` implementation does.
    pub fn to_string(&self) -> (r: String)
        ensures
            r@ == decode_utf8(self.text()),
            encode_utf8(r@) == self.text(),
    {
        let mut out: Vec<u8> = Vec::new();
        self.write_to(&mut out);
        proof {
            lemma_interface_text_ascii(*self);
            lemma_ascii_valid_utf8(self.text());
            lemma_valid_roundtrip(self.text());
        }
        string_from_utf8(out)
    }

    /// Appends the rendered text.
    pub fn write_to(&self, out: &mut Vec<u8>)
        ensures
            final(out)@ == old(out)@ + self.text(),
    {
        push_hex2(out, self.class);
        out.push(58);
        write_wildcard(out, self.subclass);
        out.push(58);
        write_wildcard(out, self.protocol);
        assert(final(out)@ =~= old(out)@ + self.text());
    }

    /// Rendering then parsing gives back the same interface type.
    pub proof fn lemma_parse_text(self)
        requires
            self.valid(),
        ensures
            InterfaceType::spec_parse(self.text()) == Some(self),
    {
        let c = hex2(self.spec_class());
        let s = wildcard_text(self.spec_subclass());
        let p = wildcard_text(self.spec_protocol());
        assert(self.text() =~= c + seq![58u8] + (s + seq![58u8] + p));
        lemma_split_at_sep(c, s + seq![58u8] + p);
        lemma_split_at_sep(s, p);
        lemma_hex2_roundtrip(self.spec_class());
        match self.spec_subclass() {
            Some(v) => lemma_hex2_roundtrip(v),
            None => {},
        }
        match self.spec_protocol() {
            Some(v) => lemma_hex2_roundtrip(v),
            None => {},
        }
        assert(s != seq![42u8] ==> s.len() == 2);
        let r = InterfaceType::spec_new(self.spec_class(), self.spec_subclass(), self.spec_protocol()).unwrap();
        InterfaceType::lemma_ext(r, self);
    }

    /// Whatever parses is valid, and renders to its input in lowercase.
    pub proof fn lemma_text_of_parsed(t: Seq<u8>)
        requires
            InterfaceType::spec_parse(t) is Some,
        ensures
            InterfaceType::spec_parse(t).unwrap().valid(),
            InterfaceType::spec_parse(t).unwrap().text() == ascii_lower(t),
    {
        let (c, rest) = spec_split_once(t, 58u8).unwrap();
        lemma_first_index_from(t, 58u8, 0);
        let i = first_index(t, 58u8).unwrap();
        assert(t =~= c + seq![58u8] + rest);
        let (s, p) = spec_split_once(rest, 58u8).unwrap();
        lemma_first_index_from(rest, 58u8, 0);
        let j = first_index(rest, 58u8).unwrap();
        assert(rest =~= s + seq![58u8] + p);
        lemma_hex2_lower(c);
        if s == seq![42u8] {
            assert(ascii_lower(s) =~= s);
        } else {
            lemma_hex2_lower(s);
        }
        if p == seq![42u8] {
            assert(ascii_lower(p) =~= p);
        } else {
            lemma_hex2_lower(p);
        }
        assert(ascii_lower(t) =~= ascii_lower(c) + seq![58u8] + ascii_lower(s) + seq![58u8] + ascii_lower(p));
    }
}

fn write_wildcard(out: &mut Vec<u8>, v: Option<u8>)
    ensures
        final(out)@ == old(out)@ + wildcard_text(v),
{
    match v {
        Some(b) => push_hex2(out, b),
        None => {
            out.push(42);
            assert(final(out)@ =~= old(out)@ + wildcard_text(v));
        },
    }
}

/// Rendered interface types are ASCII.
pub proof fn lemma_interface_text_ascii(i: InterfaceType)
    ensures
        ascii_bytes(i.text()),
        id_text_chars(i.text()),
        i.text().len() >= 5,
{
    let t = i.text();
    assert forall|k: int| 0 <= k < t.len() implies #[trigger] t[k] < 128 && is_id_char(t[k]) by {}
}

/// Lowering the UTF-8 bytes of text whose bytes are all ASCII lowers its
/// characters: the text of the lowered bytes is the lowered text.
proof fn lemma_lower_text(text: Seq<char>)
    requires
        ascii_bytes(ascii_lower(encode_utf8(text))),
    ensures
        decode_utf8(ascii_lower(encode_utf8(text))) == lowercase(text),
{
    let b = encode_utf8(text);
    assert forall|i: int| 0 <= i < b.len() implies #[trigger] b[i] < 128 by {
        assert(ascii_lower(b)[i] == lower_byte(b[i]));
    }
    lemma_encode_ascii_back(text);
    lemma_ascii_chars_bytes(text);
    let low = lowercase(text);
    assert forall|i: int| 0 <= i < low.len() implies '\0' <= #[trigger] low[i] <= '\u{7f}' by {
        assert(text[i] <= '\u{7f}');
    }
    lemma_ascii_chars_bytes(low);
    assert(encode_utf8(low) =~= ascii_lower(b)) by {
        assert forall|i: int| 0 <= i < low.len() implies encode_utf8(low)[i] == ascii_lower(b)[i] by {
            let c = text[i];
            assert(b[i] == c as u8);
            assert(low[i] == lower_char(c));
        }
    }
    encode_utf8_decode_utf8(low);
}

impl UsbId {
    /// Whatever parses from text renders, as a string, to that text in ASCII
    /// lowercase.
    pub proof fn lemma_string_of_parsed(text: Seq<char>)
        requires
            UsbId::spec_parse(encode_utf8(text)) is Some,
        ensures
            decode_utf8(UsbId::spec_parse(encode_utf8(text)).unwrap().text()) == lowercase(text),
    {
        let id = UsbId::spec_parse(encode_utf8(text)).unwrap();
        UsbId::lemma_text_of_parsed(encode_utf8(text));
        lemma_id_text_ascii(id);
        lemma_lower_text(text);
    }
}

impl InterfaceType {
    /// Whatever parses from text renders, as a string, to that text in ASCII
    /// lowercase.
    pub proof fn lemma_string_of_parsed(text: Seq<char>)
        requires
            InterfaceType::spec_parse(encode_utf8(text)) is Some,
        ensures
            decode_utf8(InterfaceType::spec_parse(encode_utf8(text)).unwrap().text()) == lowercase(text),
    {
        let i = InterfaceType::spec_parse(encode_utf8(text)).unwrap();
        InterfaceType::lemma_text_of_parsed(encode_utf8(text));
        lemma_interface_text_ascii(i);
        lemma_lower_text(text);
    }
}

} // verus!
