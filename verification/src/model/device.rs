//! Devices as the interface knows them.

use vstd::prelude::*;
use vstd::utf8::*;
use crate::model::error::ParseError;
use crate::model::ids::{DeviceId, InterfaceType, UsbId};
use crate::model::rule::{
    AttributeName, AttributeValue, Rule, RuleTarget, SpecRule, SpecValue, values_view,
};
use crate::model::target::Target;
use crate::text::{
    ascii_bytes, ascii_lower, is_white_space, lemma_ascii_chars_bytes, lemma_encode_ascii_back,
    lemma_encode_concat, lower_byte, skip_white_space, str_eq, up_to_white_space, utf8_lossy, white_space,
};

verus! {

/// Every field optional: a missing attribute is normal, not an error.
///
/// Strings here are already converted for display (lossily, if the device
/// supplied bytes that are not UTF-8).
#[derive(Debug, Clone, PartialEq, Eq)]
pub struct DeviceAttributes {
    /// The product string.
    pub name: Option<String>,
    /// `vendor:product`.
    pub usb_id: Option<UsbId>,
    /// The serial number string.
    pub serial: Option<String>,
    /// The port, e.g. `3-2` or `usb1`.
    pub via_port: Option<String>,
    /// Hash of the device descriptor.
    pub hash: Option<String>,
    /// Hash of the parent device.
    pub parent_hash: Option<String>,
    /// Interface types, in the order reported.
    pub with_interface: Vec<InterfaceType>,
    /// Connection type, e.g. `hotplug`.
    pub with_connect_type: Option<String>,
}

/// The mathematical value of [`DeviceAttributes`].
pub struct SpecAttributes {
    /// The product string.
    pub name: Option<Seq<char>>,
    /// `vendor:product`.
    pub usb_id: Option<UsbId>,
    /// The serial number string.
    pub serial: Option<Seq<char>>,
    /// The port.
    pub via_port: Option<Seq<char>>,
    /// Hash of the device descriptor.
    pub hash: Option<Seq<char>>,
    /// Hash of the parent device.
    pub parent_hash: Option<Seq<char>>,
    /// Interface types, in order.
    pub with_interface: Seq<InterfaceType>,
    /// Connection type.
    pub with_connect_type: Option<Seq<char>>,
}

/// The characters of an optional string.
pub open spec fn opt_text(o: Option<String>) -> Option<Seq<char>> {
    match o {
        Some(s) => Some(s@),
        None => None,
    }
}

impl View for DeviceAttributes {
    type V = SpecAttributes;

    open spec fn view(&self) -> SpecAttributes {
        SpecAttributes {
            name: opt_text(self.name),
            usb_id: self.usb_id,
            serial: opt_text(self.serial),
            via_port: opt_text(self.via_port),
            hash: opt_text(self.hash),
            parent_hash: opt_text(self.parent_hash),
            with_interface: self.with_interface@,
            with_connect_type: opt_text(self.with_connect_type),
        }
    }
}

/// No attribute known.
pub open spec fn no_attributes() -> SpecAttributes {
    SpecAttributes {
        name: None,
        usb_id: None,
        serial: None,
        via_port: None,
        hash: None,
        parent_hash: None,
        with_interface: Seq::empty(),
        with_connect_type: None,
    }
}

/// The newer value when there is one.
pub open spec fn newer_wins<A>(old: Option<A>, newer: Option<A>) -> Option<A> {
    if newer is Some {
        newer
    } else {
        old
    }
}

/// `newer` overlaid on `old`: every field `newer` has wins; the interface
/// list wins when it is not empty.
pub open spec fn merged(old: SpecAttributes, newer: SpecAttributes) -> SpecAttributes {
    SpecAttributes {
        name: newer_wins(old.name, newer.name),
        usb_id: newer_wins(old.usb_id, newer.usb_id),
        serial: newer_wins(old.serial, newer.serial),
        via_port: newer_wins(old.via_port, newer.via_port),
        hash: newer_wins(old.hash, newer.hash),
        parent_hash: newer_wins(old.parent_hash, newer.parent_hash),
        with_interface: if newer.with_interface.len() > 0 {
            newer.with_interface
        } else {
            old.with_interface
        },
        with_connect_type: newer_wins(old.with_connect_type, newer.with_connect_type),
    }
}

/// The display text of an optional string value of a rule.
pub open spec fn lossy_text(o: Option<Seq<u8>>) -> Option<Seq<char>> {
    match o {
        Some(s) => Some(utf8_lossy(s)),
        None => None,
    }
}

/// The first `vendor:product` among some values.
pub open spec fn first_usb_id(vs: Seq<SpecValue>) -> Option<UsbId>
    decreases vs.len(),
{
    if vs.len() == 0 {
        None
    } else {
        match vs[0] {
            SpecValue::UsbId(id) => Some(id),
            _ => first_usb_id(vs.drop_first()),
        }
    }
}

/// The interface types among some values, in order.
pub open spec fn interfaces_in(vs: Seq<SpecValue>) -> Seq<InterfaceType>
    decreases vs.len(),
{
    if vs.len() == 0 {
        Seq::empty()
    } else {
        match vs.last() {
            SpecValue::Interface(i) => interfaces_in(vs.drop_last()).push(i),
            _ => interfaces_in(vs.drop_last()),
        }
    }
}

/// The attributes of a parsed device rule.
pub open spec fn attributes_of_rule(r: SpecRule) -> SpecAttributes {
    SpecAttributes {
        name: lossy_text(r.string_value(AttributeName::Name)),
        usb_id: match r.attribute(AttributeName::Id) {
            Some(a) => first_usb_id(a.values.all()),
            None => None,
        },
        serial: lossy_text(r.string_value(AttributeName::Serial)),
        via_port: lossy_text(r.string_value(AttributeName::ViaPort)),
        hash: lossy_text(r.string_value(AttributeName::Hash)),
        parent_hash: lossy_text(r.string_value(AttributeName::ParentHash)),
        with_interface: match r.attribute(AttributeName::WithInterface) {
            Some(a) => interfaces_in(a.values.all()),
            None => Seq::empty(),
        },
        with_connect_type: lossy_text(r.string_value(AttributeName::WithConnectType)),
    }
}

/// The value of the first entry with the given key.
pub open spec fn lookup(map: Seq<(Seq<char>, Seq<char>)>, key: Seq<char>) -> Option<Seq<char>>
    decreases map.len(),
{
    if map.len() == 0 {
        None
    } else if map[0].0 == key {
        Some(map[0].1)
    } else {
        lookup(map.drop_first(), key)
    }
}

/// The characters of each key and value.
pub open spec fn entries_view(map: Seq<(String, String)>) -> Seq<(Seq<char>, Seq<char>)> {
    map.map_values(|e: (String, String)| (e.0@, e.1@))
}

/// A separator in the signal form of `with-interface`: whitespace or a brace.
pub open spec fn is_list_separator(c: char) -> bool {
    is_white_space(c) || c == '{' || c == '}'
}

/// The pieces of `t` between separators, empty pieces included.
pub open spec fn list_pieces(t: Seq<char>) -> Seq<Seq<char>>
    decreases t.len(),
{
    if t.len() == 0 {
        seq![Seq::empty()]
    } else if is_list_separator(t.last()) {
        list_pieces(t.drop_last()).push(Seq::empty())
    } else {
        let p = list_pieces(t.drop_last());
        p.update(p.len() - 1, p.last().push(t.last()))
    }
}

/// The interface types among some pieces of text, in order; pieces that are
/// not interface types are skipped.
pub open spec fn parse_interfaces(pieces: Seq<Seq<char>>) -> Seq<InterfaceType>
    decreases pieces.len(),
{
    if pieces.len() == 0 {
        Seq::empty()
    } else {
        match InterfaceType::spec_parse(encode_utf8(pieces.last())) {
            Some(i) => parse_interfaces(pieces.drop_last()).push(i),
            None => parse_interfaces(pieces.drop_last()),
        }
    }
}

/// The signal form of `with-interface`: `cc:ss:pp` or a braced list.
pub open spec fn interface_list(t: Seq<char>) -> Seq<InterfaceType> {
    parse_interfaces(list_pieces(t))
}

/// The attributes carried by a device signal's dictionary.
pub open spec fn attributes_of_map(map: Seq<(Seq<char>, Seq<char>)>) -> SpecAttributes {
    SpecAttributes {
        name: lookup(map, "name"@),
        usb_id: match lookup(map, "id"@) {
            Some(v) => UsbId::spec_parse(encode_utf8(v)),
            None => None,
        },
        serial: lookup(map, "serial"@),
        via_port: lookup(map, "via-port"@),
        hash: lookup(map, "hash"@),
        parent_hash: lookup(map, "parent-hash"@),
        with_interface: match lookup(map, "with-interface"@) {
            Some(v) => interface_list(v),
            None => Seq::empty(),
        },
        with_connect_type: lookup(map, "with-connect-type"@),
    }
}

fn copy_text(o: &Option<String>) -> (r: Option<String>)
    ensures
        opt_text(r) == opt_text(*o),
{
    match o {
        Some(s) => Some(s.clone()),
        None => None,
    }
}

fn copy_interfaces(v: &Vec<InterfaceType>) -> (r: Vec<InterfaceType>)
    ensures
        r@ == v@,
{
    let mut out: Vec<InterfaceType> = Vec::new();
    let mut i: usize = 0;
    while i < v.len()
        invariant
            i <= v@.len(),
            out@ == v@.subrange(0, i as int),
        decreases v@.len() - i,
    {
        out.push(v[i]);
        i = i + 1;
        assert(out@ =~= v@.subrange(0, i as int));
    }
    assert(v@.subrange(0, v@.len() as int) =~= v@);
    out
}

fn lossy_value(o: Option<&crate::model::rule::RuleString>) -> (r: Option<String>)
    ensures
        opt_text(r) == lossy_text(
            match o {
                Some(s) => Some(s@),
                None => None,
            },
        ),
{
    match o {
        Some(s) => Some(s.to_string_lossy()),
        None => None,
    }
}

fn find_value(map: &[(String, String)], key: &str) -> (r: Option<String>)
    ensures
        opt_text(r) == lookup(entries_view(map@), key@),
{
    let ghost m = entries_view(map@);
    let mut i: usize = 0;
    assert(m.subrange(0, m.len() as int) =~= m);
    while i < map.len()
        invariant
            i <= map@.len(),
            m == entries_view(map@),
            lookup(m, key@) == lookup(m.subrange(i as int, m.len() as int), key@),
        decreases map@.len() - i,
    {
        let ghost rest = m.subrange(i as int, m.len() as int);
        assert(rest[0] == (map@[i as int].0@, map@[i as int].1@));
        if str_eq(map[i].0.as_str(), key) {
            return Some(map[i].1.clone());
        }
        assert(rest.drop_first() =~= m.subrange(i + 1, m.len() as int));
        i = i + 1;
    }
    None
}

/// Text whose bytes parse as an interface type is ASCII.
proof fn lemma_interface_text_ascii_only(w: Seq<char>)
    requires
        InterfaceType::spec_parse(encode_utf8(w)) is Some,
    ensures
        is_ascii_chars(w),
{
    let t = encode_utf8(w);
    InterfaceType::lemma_text_of_parsed(t);
    let i = InterfaceType::spec_parse(t).unwrap();
    crate::model::ids::lemma_interface_text_ascii(i);
    assert forall|k: int| 0 <= k < t.len() implies #[trigger] t[k] < 128 by {
        assert(ascii_lower(t)[k] == lower_byte(t[k]));
        assert(i.text()[k] < 128);
    }
    lemma_encode_ascii_back(w);
}

/// Parses the signal form of `with-interface`: either `cc:ss:pp` or a braced
/// list `{ cc:ss:pp cc:ss:pp }`. Invalid entries are skipped.
pub fn parse_interface_list(text: &str) -> (r: Vec<InterfaceType>)
    ensures
        r@ == interface_list(text@),
{
    let ghost all = text@;
    let mut out: Vec<InterfaceType> = Vec::new();
    let mut cur: Vec<u8> = Vec::new();
    let mut ascii = true;
    let ghost mut cur_chars: Seq<char> = Seq::empty();
    let ghost mut done: Seq<Seq<char>> = Seq::empty();
    assert(list_pieces(all.subrange(0, 0)) =~= seq![Seq::<char>::empty()]);
    for c in it: text.chars()
        invariant
            it.seq() == all,
            list_pieces(all.subrange(0, it.index() as int)) == done.push(cur_chars),
            out@ == parse_interfaces(done),
            ascii == is_ascii_chars(cur_chars),
            ascii ==> cur@ == cur_chars.map_values(|ch: char| ch as u8),
    {
        let ghost k = it.index() as int;
        proof {
            assert(all.subrange(0, k + 1).drop_last() =~= all.subrange(0, k));
            assert(all.subrange(0, k + 1).last() == c);
        }
        if white_space(c) || c == '{' || c == '}' {
            proof {
                if ascii {
                    lemma_ascii_chars_bytes(cur_chars);
                    assert(cur@ =~= encode_utf8(cur_chars));
                }
            }
            if ascii {
                if let Some(i) = InterfaceType::parse(cur.as_slice()) {
                    out.push(i);
                }
            } else {
                proof {
                    if InterfaceType::spec_parse(encode_utf8(cur_chars)) is Some {
                        lemma_interface_text_ascii_only(cur_chars);
                    }
                }
            }
            proof {
                assert(done.push(cur_chars).drop_last() =~= done);
                done = done.push(cur_chars);
                cur_chars = Seq::empty();
                assert(done.push(cur_chars) =~= list_pieces(all.subrange(0, k)).push(Seq::<char>::empty()));
            }
            cur = Vec::new();
            ascii = true;
            assert(cur@ =~= cur_chars.map_values(|ch: char| ch as u8));
        } else {
            proof {
                lemma_char_ascii(c);
            }
            if c <= '\u{7f}' {
                cur.push(c as u8);
            } else {
                ascii = false;
            }
            proof {
                let old_cur = cur_chars;
                cur_chars = cur_chars.push(c);
                let p = done.push(old_cur);
                assert(p.update(p.len() - 1, p.last().push(c)) =~= done.push(cur_chars));
                if ascii {
                    assert(cur@ =~= cur_chars.map_values(|ch: char| ch as u8));
                }
                if !(c <= '\u{7f}') {
                    assert(!is_ascii_chars(cur_chars)) by {
                        assert(cur_chars[cur_chars.len() - 1] == c);
                    }
                } else {
                    assert(is_ascii_chars(cur_chars) == is_ascii_chars(old_cur)) by {
                        assert forall|j: int| 0 <= j < old_cur.len() implies cur_chars[j] == old_cur[j] by {}
                    }
                }
            }
        }
    }
    proof {
        assert(all.subrange(0, all.len() as int) =~= all);
        if ascii {
            lemma_ascii_chars_bytes(cur_chars);
            assert(cur@ =~= encode_utf8(cur_chars));
        }
    }
    if ascii {
        if let Some(i) = InterfaceType::parse(cur.as_slice()) {
            out.push(i);
        }
    } else {
        proof {
            if InterfaceType::spec_parse(encode_utf8(cur_chars)) is Some {
                lemma_interface_text_ascii_only(cur_chars);
            }
        }
    }
    proof {
        assert(done.push(cur_chars).drop_last() =~= done);
    }
    out
}

proof fn lemma_char_ascii(c: char)
    ensures
        c <= '\u{7f}' ==> (c as u8) as int == c as int,
{
}

impl DeviceAttributes {
    /// No attribute known.
    pub fn empty() -> (r: Self)
        ensures
            r@ == no_attributes(),
    {
        DeviceAttributes {
            name: None,
            usb_id: None,
            serial: None,
            via_port: None,
            hash: None,
            parent_hash: None,
            with_interface: Vec::new(),
            with_connect_type: None,
        }
    }

    /// A copy with the same values.
    pub fn duplicate(&self) -> (r: Self)
        ensures
            r@ == self@,
    {
        DeviceAttributes {
            name: copy_text(&self.name),
            usb_id: self.usb_id,
            serial: copy_text(&self.serial),
            via_port: copy_text(&self.via_port),
            hash: copy_text(&self.hash),
            parent_hash: copy_text(&self.parent_hash),
            with_interface: copy_interfaces(&self.with_interface),
            with_connect_type: copy_text(&self.with_connect_type),
        }
    }

    /// Extracts the attributes of a parsed device rule.
    pub fn from_rule(rule: &Rule) -> (r: Self)
        ensures
            r@ == attributes_of_rule(rule@),
    {
        let usb_id = match rule.attribute(AttributeName::Id) {
            Some(a) => first_usb_id_exec(a.values.as_slice()),
            None => None,
        };
        let with_interface = match rule.attribute(AttributeName::WithInterface) {
            Some(a) => interfaces_exec(a.values.as_slice()),
            None => Vec::new(),
        };
        let r = DeviceAttributes {
            name: lossy_value(rule.string_value(AttributeName::Name)),
            usb_id,
            serial: lossy_value(rule.string_value(AttributeName::Serial)),
            via_port: lossy_value(rule.string_value(AttributeName::ViaPort)),
            hash: lossy_value(rule.string_value(AttributeName::Hash)),
            parent_hash: lossy_value(rule.string_value(AttributeName::ParentHash)),
            with_interface,
            with_connect_type: lossy_value(rule.string_value(AttributeName::WithConnectType)),
        };
        assert(r@.with_interface =~= attributes_of_rule(rule@).with_interface);
        r
    }

    /// Builds attributes from the `a{ss}` dictionary carried by the device
    /// signals, given as its entries. Unknown keys are ignored; malformed
    /// values are dropped, never fatal.
    pub fn from_signal_map(map: &[(String, String)]) -> (r: Self)
        ensures
            r@ == attributes_of_map(entries_view(map@)),
    {
        let usb_id = match find_value(map, "id") {
            Some(v) => UsbId::parse(v.as_str().as_bytes()),
            None => None,
        };
        let with_interface = match find_value(map, "with-interface") {
            Some(v) => parse_interface_list(v.as_str()),
            None => Vec::new(),
        };
        let r = DeviceAttributes {
            name: find_value(map, "name"),
            usb_id,
            serial: find_value(map, "serial"),
            via_port: find_value(map, "via-port"),
            hash: find_value(map, "hash"),
            parent_hash: find_value(map, "parent-hash"),
            with_interface,
            with_connect_type: find_value(map, "with-connect-type"),
        };
        assert(r@.with_interface =~= attributes_of_map(entries_view(map@)).with_interface);
        r
    }

    /// Overlays `newer` on `self`: every field `newer` has wins.
    pub fn merge_from(&mut self, newer: Self)
        ensures
            final(self)@ == merged(old(self)@, newer@),
    {
        if newer.name.is_some() {
            self.name = newer.name;
        }
        if newer.usb_id.is_some() {
            self.usb_id = newer.usb_id;
        }
        if newer.serial.is_some() {
            self.serial = newer.serial;
        }
        if newer.via_port.is_some() {
            self.via_port = newer.via_port;
        }
        if newer.hash.is_some() {
            self.hash = newer.hash;
        }
        if newer.parent_hash.is_some() {
            self.parent_hash = newer.parent_hash;
        }
        if newer.with_connect_type.is_some() {
            self.with_connect_type = newer.with_connect_type;
        }
        if newer.with_interface.len() > 0 {
            self.with_interface = newer.with_interface;
        }
    }
}

impl Default for DeviceAttributes {
    fn default() -> (r: Self)
        ensures
            r@ == no_attributes(),
    {
        DeviceAttributes::empty()
    }
}

fn first_usb_id_exec(vs: &[AttributeValue]) -> (r: Option<UsbId>)
    ensures
        r == first_usb_id(values_view(vs@)),
{
    let ghost all = values_view(vs@);
    let mut i: usize = 0;
    assert(all.subrange(0, all.len() as int) =~= all);
    while i < vs.len()
        invariant
            i <= vs@.len(),
            all == values_view(vs@),
            first_usb_id(all) == first_usb_id(all.subrange(i as int, all.len() as int)),
        decreases vs@.len() - i,
    {
        let ghost rest = all.subrange(i as int, all.len() as int);
        assert(rest[0] == vs@[i as int]@);
        assert(rest.drop_first() =~= all.subrange(i + 1, all.len() as int));
        if let AttributeValue::UsbId(id) = &vs[i] {
            return Some(*id);
        }
        i = i + 1;
    }
    None
}

fn interfaces_exec(vs: &[AttributeValue]) -> (r: Vec<InterfaceType>)
    ensures
        r@ == interfaces_in(values_view(vs@)),
{
    let ghost all = values_view(vs@);
    let mut out: Vec<InterfaceType> = Vec::new();
    let mut i: usize = 0;
    while i < vs.len()
        invariant
            i <= vs@.len(),
            all == values_view(vs@),
            out@ == interfaces_in(all.subrange(0, i as int)),
        decreases vs@.len() - i,
    {
        let ghost next = all.subrange(0, i + 1);
        assert(next.drop_last() =~= all.subrange(0, i as int));
        assert(next.last() == vs@[i as int]@);
        if let AttributeValue::Interface(x) = &vs[i] {
            out.push(*x);
        }
        i = i + 1;
    }
    assert(all.subrange(0, all.len() as int) =~= all);
    out
}

/// A mutating operation in flight on a device, and what the row should say
/// about it.
#[derive(Debug, Clone, Copy, PartialEq, Eq, Structural, Hash)]
pub enum PendingKind {
    /// Just started: spinner and a Cancel button.
    Started,
    /// Running for 20 s: "Waiting for authentication".
    WaitingForAuthentication,
    /// Running for 180 s: a warning that no Polkit agent may be running. The
    /// operation is **not** cancelled.
    PossiblyNoAgent,
}

/// One device as the interface knows it.
#[derive(Debug, Clone, PartialEq, Eq)]
pub struct Device {
    /// The daemon's table index. Not the `id` attribute.
    pub id: DeviceId,
    /// Authorization state.
    pub target: Target,
    /// Rule text as returned by `listDevices`, verbatim.
    pub rule_text: String,
    /// Parsed attributes; empty when the text could not be parsed.
    pub attrs: DeviceAttributes,
    /// Set when the rule text could not be parsed. The row is still shown,
    /// with the raw text: hiding a device is the worst possible failure.
    pub parse_error: Option<ParseError>,
    /// Set when a mutating operation on this device is in flight.
    pub pending: Option<PendingKind>,
}

/// The mathematical value of a [`Device`].
pub struct SpecDevice {
    /// The daemon's table index.
    pub id: u32,
    /// Authorization state.
    pub target: Target,
    /// Rule text.
    pub rule_text: Seq<char>,
    /// Parsed attributes.
    pub attrs: SpecAttributes,
    /// The parse error, if any.
    pub parse_error: Option<ParseError>,
    /// An operation in flight.
    pub pending: Option<PendingKind>,
}

impl View for Device {
    type V = SpecDevice;

    open spec fn view(&self) -> SpecDevice {
        SpecDevice {
            id: self.id@,
            target: self.target,
            rule_text: self.rule_text@,
            attrs: self.attrs@,
            parse_error: self.parse_error,
            pending: self.pending,
        }
    }
}

/// The device target a rule target stands for; `match` stands for none.
pub open spec fn target_of_rule_target(t: RuleTarget) -> Target {
    match t {
        RuleTarget::Allow => Target::Allow,
        RuleTarget::Block => Target::Block,
        RuleTarget::Reject => Target::Reject,
        RuleTarget::Match => Target::Other(0xffff_ffff),
    }
}

fn rule_target_to_target(t: RuleTarget) -> (r: Target)
    ensures
        r == target_of_rule_target(t),
{
    match t {
        RuleTarget::Allow => Target::Allow,
        RuleTarget::Block => Target::Block,
        RuleTarget::Reject => Target::Reject,
        RuleTarget::Match => Target::Other(0xffff_ffff),
    }
}

/// The first whitespace-separated word, if any.
pub open spec fn first_word(t: Seq<char>) -> Option<Seq<char>> {
    let s = skip_white_space(t);
    if s.len() == 0 {
        None
    } else {
        Some(up_to_white_space(s))
    }
}

/// Best-effort target from the first word, for text the parser rejected.
pub open spec fn leading_target_of(t: Seq<char>) -> Target {
    match first_word(t) {
        Some(w) => match RuleTarget::spec_from_keyword(encode_utf8(w)) {
            Some(rt) => target_of_rule_target(rt),
            None => Target::Other(0xffff_ffff),
        },
        None => Target::Other(0xffff_ffff),
    }
}

proof fn lemma_target_keywords_ascii(w: Seq<char>)
    requires
        RuleTarget::spec_from_keyword(encode_utf8(w)) is Some,
    ensures
        is_ascii_chars(w),
{
    let t = encode_utf8(w);
    let rt = RuleTarget::spec_from_keyword(t).unwrap();
    assert(t == rt.kw());
    assert(ascii_bytes(t)) by {
        match rt {
            RuleTarget::Allow => {},
            RuleTarget::Block => {},
            RuleTarget::Reject => {},
            RuleTarget::Match => {},
        }
    }
    lemma_encode_ascii_back(w);
}

/// Best-effort target from the first word, for text the parser rejected.
fn leading_target(text: &str) -> (r: Target)
    ensures
        r == leading_target_of(text@),
{
    let ghost all = text@;
    let mut word: Vec<u8> = Vec::new();
    let mut ascii = true;
    let mut started = false;
    let mut finished = false;
    let ghost mut w: Seq<char> = Seq::empty();
    assert(all.subrange(0, all.len() as int) =~= all);
    for c in it: text.chars()
        invariant
            it.seq() == all,
            finished ==> started,
            !started ==> skip_white_space(all) == skip_white_space(all.subrange(it.index() as int, all.len() as int))
                && w.len() == 0,
            started && !finished ==> skip_white_space(all) == w + all.subrange(it.index() as int, all.len() as int)
                && up_to_white_space(skip_white_space(all)) == w + up_to_white_space(
                all.subrange(it.index() as int, all.len() as int),
            ),
            started ==> w.len() > 0,
            finished ==> skip_white_space(all).len() > 0 && up_to_white_space(skip_white_space(all)) == w,
            ascii == is_ascii_chars(w),
            ascii ==> word@ == w.map_values(|ch: char| ch as u8),
    {
        let ghost k = it.index() as int;
        let ghost rest = all.subrange(k, all.len() as int);
        proof {
            assert(rest[0] == c);
            assert(rest.drop_first() =~= all.subrange(k + 1, all.len() as int));
        }
        if finished {
        } else if white_space(c) {
            if started {
                finished = true;
                proof {
                    assert(w + Seq::<char>::empty() =~= w);
                }
            }
        } else {
            proof {
                lemma_char_ascii(c);
                if started {
                    assert(w + rest =~= w.push(c) + rest.drop_first());
                    assert(w + (seq![c] + up_to_white_space(rest.drop_first())) =~= w.push(c) + up_to_white_space(
                        rest.drop_first(),
                    ));
                } else {
                    assert(Seq::<char>::empty().push(c) + rest.drop_first() =~= rest);
                    assert(seq![c] + up_to_white_space(rest.drop_first()) =~= Seq::<char>::empty().push(c)
                        + up_to_white_space(rest.drop_first()));
                }
            }
            started = true;
            if c <= '\u{7f}' {
                word.push(c as u8);
            } else {
                ascii = false;
            }
            proof {
                let old_w = w;
                w = w.push(c);
                if ascii {
                    assert(word@ =~= w.map_values(|ch: char| ch as u8));
                }
                if !(c <= '\u{7f}') {
                    assert(!is_ascii_chars(w)) by {
                        assert(w[w.len() - 1] == c);
                    }
                } else {
                    assert(is_ascii_chars(w) == is_ascii_chars(old_w)) by {
                        assert forall|j: int| 0 <= j < old_w.len() implies w[j] == old_w[j] by {}
                    }
                }
            }
        }
    }
    proof {
        assert(all.subrange(all.len() as int, all.len() as int) =~= Seq::<char>::empty());
        if started && !finished {
            assert(w + Seq::<char>::empty() =~= w);
        }
    }
    if !started {
        return Target::Other(0xffff_ffff);
    }
    proof {
        assert(first_word(all) == Some(w));
        if ascii {
            lemma_ascii_chars_bytes(w);
            assert(word@ =~= encode_utf8(w));
        }
    }
    if ascii {
        match RuleTarget::from_keyword(word.as_slice()) {
            Some(t) => rule_target_to_target(t),
            None => Target::Other(0xffff_ffff),
        }
    } else {
        proof {
            if RuleTarget::spec_from_keyword(encode_utf8(w)) is Some {
                lemma_target_keywords_ascii(w);
            }
        }
        Target::Other(0xffff_ffff)
    }
}

/// What a device row says for a `listDevices` entry and the outcome of
/// parsing its text.
pub open spec fn device_of(id: u32, text: Seq<char>, parsed: Result<SpecRule, ParseError>) -> SpecDevice {
    match parsed {
        Ok(r) => SpecDevice {
            id,
            target: match r.target {
                Some(t) => target_of_rule_target(t),
                None => Target::Other(0xffff_ffff),
            },
            rule_text: text,
            attrs: attributes_of_rule(r),
            parse_error: None,
            pending: None,
        },
        Err(e) => SpecDevice {
            id,
            target: leading_target_of(text),
            rule_text: text,
            attrs: no_attributes(),
            parse_error: Some(e),
            pending: None,
        },
    }
}

impl Device {
    /// Builds a device from a `listDevices` entry and the result of parsing
    /// its text. Never fails: an unparseable rule still produces a row.
    pub fn from_parsed(id: DeviceId, rule_text: String, parsed: Result<&Rule, ParseError>) -> (r: Self)
        ensures
            r@ == device_of(
                id@,
                rule_text@,
                match parsed {
                    Ok(rule) => Ok(rule@),
                    Err(e) => Err(e),
                },
            ),
    {
        let (target, attrs, parse_error) = match parsed {
            Ok(rule) => (
                match rule.target {
                    Some(t) => rule_target_to_target(t),
                    None => Target::Other(0xffff_ffff),
                },
                DeviceAttributes::from_rule(rule),
                None,
            ),
            Err(err) => (leading_target(rule_text.as_str()), DeviceAttributes::empty(), Some(err)),
        };
        Device { id, target, rule_text, attrs, parse_error, pending: None }
    }

    /// A copy with the same values.
    pub fn duplicate(&self) -> (r: Self)
        ensures
            r@ == self@,
    {
        Device {
            id: self.id,
            target: self.target,
            rule_text: self.rule_text.clone(),
            attrs: self.attrs.duplicate(),
            parse_error: self.parse_error,
            pending: self.pending,
        }
    }
}

/// The aggregate produced by one coalescing window for one device.
#[derive(Debug, Clone, PartialEq, Eq)]
pub struct DeviceDelta {
    /// Which device.
    pub id: DeviceId,
    /// The device left during the window: drop its row.
    pub removed: bool,
    /// The latest known target, if any event carried one.
    pub target: Option<Target>,
    /// The latest rule text, if any event carried one.
    pub rule_text: Option<String>,
    /// Accumulated attributes; later keys win.
    pub attrs: DeviceAttributes,
}

/// The mathematical value of a [`DeviceDelta`].
pub struct SpecDelta {
    /// Which device.
    pub id: u32,
    /// The device left during the window.
    pub removed: bool,
    /// The latest known target.
    pub target: Option<Target>,
    /// The latest rule text.
    pub rule_text: Option<Seq<char>>,
    /// Accumulated attributes.
    pub attrs: SpecAttributes,
}

impl View for DeviceDelta {
    type V = SpecDelta;

    open spec fn view(&self) -> SpecDelta {
        SpecDelta {
            id: self.id@,
            removed: self.removed,
            target: self.target,
            rule_text: opt_text(self.rule_text),
            attrs: self.attrs@,
        }
    }
}

/// `r` is what an overlay gives for one field: the newer value when there is
/// one, else the older.
pub open spec fn overlays<A>(old: Option<A>, newer: Option<A>, r: Option<A>) -> bool {
    &&& newer matches Some(v) ==> r == Some(v)
    &&& newer is None ==> r == old
}

/// Merging attributes is an overlay: every field the newer attributes carry
/// wins, every field they lack keeps its older value, and the interface
/// list is replaced exactly when the newer one is not empty.
pub proof fn lemma_newer_attributes_win(old: SpecAttributes, newer: SpecAttributes)
    ensures
        overlays(old.name, newer.name, merged(old, newer).name),
        overlays(old.usb_id, newer.usb_id, merged(old, newer).usb_id),
        overlays(old.serial, newer.serial, merged(old, newer).serial),
        overlays(old.via_port, newer.via_port, merged(old, newer).via_port),
        overlays(old.hash, newer.hash, merged(old, newer).hash),
        overlays(old.parent_hash, newer.parent_hash, merged(old, newer).parent_hash),
        overlays(old.with_connect_type, newer.with_connect_type, merged(old, newer).with_connect_type),
        newer.with_interface.len() > 0 ==> merged(old, newer).with_interface == newer.with_interface,
        newer.with_interface.len() == 0 ==> merged(old, newer).with_interface == old.with_interface,
{
}

} // verus!
