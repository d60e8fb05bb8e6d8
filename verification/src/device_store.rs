//! The interface's device table as pure data: applying snapshots and
//! coalesced batches, and the presentation order.
//!
//! The table is a list ordered by device id, one entry per id, as a map
//! keyed by id would hold it.

use vstd::prelude::*;
use vstd::utf8::*;
use crate::model::device::{
    device_of, merged, no_attributes, Device, DeviceAttributes, DeviceDelta, PendingKind, SpecDelta,
    SpecDevice,
};
use crate::model::ids::DeviceId;
use crate::model::target::Target;
use crate::rules::grammar::{parse_spec, Mode};
use crate::rules::parse_device;
use crate::text::{
    chars_of, contains_chars, has_substring, parse_u32, parse_u32_chars, to_lowercase, trim_str,
    trim_white_space, trimmed_chars, unicode_lowercase,
};

verus! {

/// The values of some device ids.
pub open spec fn id_views(v: Seq<DeviceId>) -> Seq<u32> {
    v.map_values(|i: DeviceId| i@)
}

/// The ids of some devices.
pub open spec fn entry_ids(s: Seq<SpecDevice>) -> Seq<u32> {
    s.map_values(|d: SpecDevice| d.id)
}

/// The views of some devices.
pub open spec fn device_views(v: Seq<Device>) -> Seq<SpecDevice> {
    v.map_values(|d: Device| d@)
}

/// The views of some deltas.
pub open spec fn delta_views(v: Seq<DeviceDelta>) -> Seq<SpecDelta> {
    v.map_values(|d: DeviceDelta| d@)
}

/// Entries strictly ordered by device id.
pub open spec fn ordered_by_id(s: Seq<SpecDevice>) -> bool {
    forall|i: int, j: int| 0 <= i < j < s.len() ==> s[i].id < s[j].id
}

/// The entry for `id`.
pub open spec fn find_device(s: Seq<SpecDevice>, id: u32) -> Option<SpecDevice>
    decreases s.len(),
{
    if s.len() == 0 {
        None
    } else if s[0].id == id {
        Some(s[0])
    } else {
        find_device(s.drop_first(), id)
    }
}

/// A list ordered by id with `d` in place of the entry for its id, or with
/// `d` inserted where its id belongs.
pub open spec fn put_device(s: Seq<SpecDevice>, d: SpecDevice) -> Seq<SpecDevice>
    decreases s.len(),
{
    if s.len() == 0 {
        seq![d]
    } else if s[0].id == d.id {
        seq![d] + s.drop_first()
    } else if s[0].id > d.id {
        seq![d] + s
    } else {
        seq![s[0]] + put_device(s.drop_first(), d)
    }
}

/// The list without the entry for `id`.
pub open spec fn remove_device(s: Seq<SpecDevice>, id: u32) -> Seq<SpecDevice>
    decreases s.len(),
{
    if s.len() == 0 {
        s
    } else if s[0].id == id {
        s.drop_first()
    } else {
        seq![s[0]] + remove_device(s.drop_first(), id)
    }
}

/// The pending mark of an entry, if there is one.
pub open spec fn pending_of(o: Option<SpecDevice>) -> Option<PendingKind> {
    match o {
        Some(d) => d.pending,
        None => None,
    }
}

/// A fresh `listDevices` result laid over the table `old`: the incoming
/// devices, a later one with the same id winning, each keeping the mark of
/// an operation in flight that `old` has for its id.
pub open spec fn replaced(old: Seq<SpecDevice>, incoming: Seq<SpecDevice>) -> Seq<SpecDevice>
    decreases incoming.len(),
{
    if incoming.len() == 0 {
        Seq::empty()
    } else {
        let d = incoming.last();
        put_device(
            replaced(old, incoming.drop_last()),
            SpecDevice { pending: pending_of(find_device(old, d.id)), ..d },
        )
    }
}

/// The row of a device first seen in a batch: nothing known yet.
pub open spec fn blank_device(id: u32) -> SpecDevice {
    SpecDevice {
        id,
        target: Target::Other(0xffff_ffff),
        rule_text: Seq::empty(),
        attrs: no_attributes(),
        parse_error: None,
        pending: None,
    }
}

/// A device after one delta that does not remove it. The rule text is the
/// fullest description: it is re-parsed first; then the signal's own fields
/// win.
#[verifier::opaque]
pub open spec fn updated(existing: Option<SpecDevice>, d: SpecDelta) -> SpecDevice {
    let base = match existing {
        Some(e) => e,
        None => blank_device(d.id),
    };
    let texted = match d.rule_text {
        Some(t) => if t.len() > 0 {
            let r = device_of(d.id, t, parse_spec(encode_utf8(t), Mode::Rule));
            SpecDevice {
                rule_text: r.rule_text,
                attrs: r.attrs,
                parse_error: r.parse_error,
                target: r.target,
                ..base
            }
        } else {
            base
        },
        None => base,
    };
    SpecDevice {
        attrs: merged(texted.attrs, d.attrs),
        target: match d.target {
            Some(t) => t,
            None => texted.target,
        },
        ..texted
    }
}

/// The table after one delta.
pub open spec fn apply_delta(s: Seq<SpecDevice>, d: SpecDelta) -> Seq<SpecDevice> {
    if d.removed {
        remove_device(s, d.id)
    } else {
        put_device(s, updated(find_device(s, d.id), d))
    }
}

/// The table after a batch of deltas, applied in order.
pub open spec fn applied(s: Seq<SpecDevice>, batch: Seq<SpecDelta>) -> Seq<SpecDevice>
    decreases batch.len(),
{
    if batch.len() == 0 {
        s
    } else {
        apply_delta(applied(s, batch.drop_last()), batch.last())
    }
}

/// Every device currently known, by daemon id.
#[derive(Debug)]
pub struct DeviceStore {
    devices: Vec<Device>,
}

impl DeviceStore {
    /// The devices, ordered by id, one per id.
    pub closed spec fn entries(&self) -> Seq<SpecDevice> {
        device_views(self.devices@)
    }

    #[verifier::type_invariant]
    spec fn inv(&self) -> bool {
        ordered_by_id(self.entries())
    }

    /// An empty store.
    pub fn new() -> (r: Self)
        ensures
            r.entries().len() == 0,
    {
        let devices: Vec<Device> = Vec::new();
        assert(device_views(devices@) =~= Seq::<SpecDevice>::empty());
        DeviceStore { devices }
    }

    fn into_devices(self) -> (r: Vec<Device>)
        ensures
            device_views(r@) == self.entries(),
            ordered_by_id(device_views(r@)),
    {
        proof {
            use_type_invariant(&self);
        }
        self.devices
    }

    fn take_all(&mut self) -> (r: Vec<Device>)
        ensures
            device_views(r@) == old(self).entries(),
            ordered_by_id(device_views(r@)),
            final(self).entries().len() == 0,
    {
        let mut whole = DeviceStore::new();
        std::mem::swap(self, &mut whole);
        whole.into_devices()
    }

    /// Replaces everything with a fresh `listDevices` result. An operation in
    /// flight on a device that is still present stays marked.
    pub fn replace(&mut self, devices: Vec<Device>)
        ensures
            final(self).entries() == replaced(old(self).entries(), device_views(devices@)),
    {
        let old_list = self.take_all();
        let ghost old_entries = device_views(old_list@);
        let ghost incoming = device_views(devices@);
        let mut rest = devices;
        let mut out: Vec<Device> = Vec::new();
        let ghost mut k: int = 0;
        assert(device_views(out@) =~= replaced(old_entries, incoming.subrange(0, 0)));
        assert(incoming.subrange(0, incoming.len() as int) =~= incoming);
        while rest.len() > 0
            invariant
                0 <= k <= incoming.len(),
                device_views(rest@) == incoming.subrange(k, incoming.len() as int),
                device_views(out@) == replaced(old_entries, incoming.subrange(0, k)),
                ordered_by_id(device_views(out@)),
                ordered_by_id(old_entries),
                old_entries == device_views(old_list@),
            decreases rest@.len(),
        {
            let ghost pre = rest@;
            assert(device_views(pre).len() == pre.len());
            let mut d = rest.remove(0);
            proof {
                assert(device_views(pre)[0] == pre[0]@);
                assert(incoming.subrange(k, incoming.len() as int)[0] == incoming[k]);
                assert(d@ == incoming[k]);
                assert forall|j: int| 0 <= j < rest@.len() implies device_views(rest@)[j] == incoming[k + 1 + j] by {
                    assert(rest@[j] == pre[j + 1]);
                    assert(device_views(pre)[j + 1] == pre[j + 1]@);
                    assert(incoming.subrange(k, incoming.len() as int)[j + 1] == incoming[k + 1 + j]);
                }
                assert(device_views(rest@) =~= incoming.subrange(k + 1, incoming.len() as int));
            }
            let (oi, ofound) = position(&old_list, d.id);
            proof {
                lemma_find_at(old_entries, d.id@, oi as int, ofound);
            }
            d.pending = if ofound {
                assert(old_entries[oi as int] == old_list@[oi as int]@);
                old_list[oi].pending
            } else {
                None
            };
            let ghost dv = d@;
            proof {
                let sub = incoming.subrange(0, k + 1);
                assert(sub.drop_last() =~= incoming.subrange(0, k));
                assert(sub.last() == incoming[k]);
            }
            put_into(&mut out, d);
            proof {
                k = k + 1;
            }
        }
        proof {
            assert(incoming.subrange(0, k) =~= incoming);
        }
        *self = DeviceStore { devices: out };
    }

    /// Marks or clears an operation in flight on a device. No-op if the device
    /// is gone.
    pub fn set_pending(&mut self, id: DeviceId, pending: Option<PendingKind>)
        ensures
            final(self).entries() == old(self).entries().map_values(
                |d: SpecDevice|
                    if d.id == id@ {
                        SpecDevice { pending, ..d }
                    } else {
                        d
                    },
            ),
    {
        let mut list = self.take_all();
        let ghost before = device_views(list@);
        let (i, found) = position(&list, id);
        if found {
            let mut placeholder = Device {
                id,
                target: Target::Other(0),
                rule_text: String::new(),
                attrs: DeviceAttributes::empty(),
                parse_error: None,
                pending: None,
            };
            vec_swap_at(&mut list, i, &mut placeholder);
            placeholder.pending = pending;
            vec_swap_at(&mut list, i, &mut placeholder);
            proof {
                assert(before[i as int] == old(self).entries()[i as int]);
                assert forall|j: int| 0 <= j < before.len() && j != i implies before[j].id != id@ by {
                    if j < i {
                        assert(before[j].id < before[i as int].id);
                    } else {
                        assert(before[i as int].id < before[j].id);
                    }
                }
            }
        } else {
            proof {
                lemma_find_at(before, id@, i as int, found);
                assert forall|j: int| 0 <= j < before.len() implies before[j].id != id@ by {
                    if j >= i {
                        if j > i {
                            assert(before[i as int].id < before[j].id);
                        }
                    }
                }
            }
        }
        let ghost after = device_views(list@);
        assert(after =~= before.map_values(
            |d: SpecDevice|
                if d.id == id@ {
                    SpecDevice { pending, ..d }
                } else {
                    d
                },
        ));
        assert(ordered_by_id(after));
        *self = DeviceStore { devices: list };
    }

    /// Drops everything: nothing observed before a disconnection is trusted
    /// after it.
    pub fn clear(&mut self)
        ensures
            final(self).entries().len() == 0,
    {
        *self = DeviceStore::new();
    }

    /// Applies one coalescing window's worth of changes, in order.
    #[verifier::rlimit(40)]
    pub fn apply(&mut self, batch: Vec<DeviceDelta>)
        ensures
            final(self).entries() == applied(old(self).entries(), delta_views(batch@)),
    {
        let mut list = self.take_all();
        let ghost start = device_views(list@);
        let ghost deltas = delta_views(batch@);
        let mut rest = batch;
        let ghost mut k: int = 0;
        assert(deltas.subrange(0, 0) =~= Seq::<SpecDelta>::empty());
        assert(deltas.subrange(0, deltas.len() as int) =~= deltas);
        while rest.len() > 0
            invariant
                0 <= k <= deltas.len(),
                delta_views(rest@) == deltas.subrange(k, deltas.len() as int),
                device_views(list@) == applied(start, deltas.subrange(0, k)),
                ordered_by_id(device_views(list@)),
            decreases rest@.len(),
        {
            let ghost pre = rest@;
            assert(delta_views(pre).len() == pre.len());
            let delta = rest.remove(0);
            proof {
                assert(delta_views(pre)[0] == pre[0]@);
                assert(deltas.subrange(k, deltas.len() as int)[0] == deltas[k]);
                assert(delta@ == deltas[k]);
                assert forall|j: int| 0 <= j < rest@.len() implies #[trigger] delta_views(rest@)[j] == deltas[k + 1 + j] by {
                    assert(rest@[j] == pre[j + 1]);
                    assert(delta_views(pre)[j + 1] == pre[j + 1]@);
                    assert(deltas.subrange(k, deltas.len() as int)[j + 1] == deltas[k + 1 + j]);
                }
                assert(delta_views(rest@) =~= deltas.subrange(k + 1, deltas.len() as int));
                let sub = deltas.subrange(0, k + 1);
                assert(sub.drop_last() =~= deltas.subrange(0, k));
                assert(sub.last() == deltas[k]);
            }
            apply_one(&mut list, delta);
            proof {
                k = k + 1;
            }
        }
        proof {
            assert(deltas.subrange(0, k) =~= deltas);
        }
        *self = DeviceStore { devices: list };
    }

    /// The device with id `id`, if there is one.
    pub fn get(&self, id: DeviceId) -> (r: Option<Device>)
        ensures
            match r {
                Some(d) => find_device(self.entries(), id@) == Some(d@),
                None => find_device(self.entries(), id@) is None,
            },
    {
        let mut i: usize = 0;
        while i < self.devices.len()
            invariant
                i <= self.devices@.len(),
                forall|j: int| 0 <= j < i ==> (#[trigger] self.entries()[j]).id != id@,
            decreases self.devices@.len() - i,
        {
            assert(self.entries()[i as int] == self.devices@[i as int]@);
            if self.devices[i].id.get() == id.get() {
                proof {
                    lemma_find_first(self.entries(), id@, i as int);
                }
                return Some(self.devices[i].duplicate());
            }
            i = i + 1;
        }
        proof {
            lemma_find_none(self.entries(), id@);
        }
        None
    }

    /// The ids of the devices, in id order.
    pub fn ids(&self) -> (r: Vec<DeviceId>)
        ensures
            id_views(r@) == entry_ids(self.entries()),
    {
        let mut out: Vec<DeviceId> = Vec::new();
        let mut i: usize = 0;
        while i < self.devices.len()
            invariant
                i <= self.devices@.len(),
                id_views(out@) == entry_ids(self.entries()).subrange(0, i as int),
            decreases self.devices@.len() - i,
        {
            let ghost before = out@;
            out.push(self.devices[i].id);
            proof {
                let want = entry_ids(self.entries());
                let got = id_views(out@);
                assert(id_views(before).len() == before.len());
                assert(before.len() == i);
                assert(self.entries()[i as int] == self.devices@[i as int]@);
                assert forall|j: int| 0 <= j <= i implies #[trigger] got[j] == want.subrange(0, i + 1)[j] by {
                    if j < i {
                        assert(out@[j] == before[j]);
                        assert(id_views(before)[j] == want.subrange(0, i as int)[j]);
                    }
                }
                assert(got =~= want.subrange(0, i + 1));
            }
            i = i + 1;
        }
        proof {
            assert(entry_ids(self.entries()).subrange(0, i as int) =~= entry_ids(self.entries()));
        }
        out
    }

    /// Devices in presentation order: by port, which groups them by physical
    /// topology and is stable, unlike `listDevices` order; then by id.
    pub fn sorted(&self) -> (r: Vec<Device>)
        ensures
            device_views(r@).len() == self.entries().len(),
            forall|d: SpecDevice| device_views(r@).contains(d) <==> self.entries().contains(d),
            in_shown_order(device_views(r@)),
    {
        proof {
            use_type_invariant(self);
        }
        let ghost es = self.entries();
        let mut out: Vec<Device> = Vec::new();
        let mut i: usize = 0;
        assert(device_views(out@) =~= Seq::<SpecDevice>::empty());
        while i < self.devices.len()
            invariant
                i <= es.len(),
                es == self.entries(),
                es.len() == self.devices@.len(),
                ordered_by_id(es),
                out@.len() == i,
                forall|d: SpecDevice| device_views(out@).contains(d) <==> es.subrange(0, i as int).contains(d),
                in_shown_order(device_views(out@)),
            decreases es.len() - i,
        {
            let x = self.devices[i].duplicate();
            assert(x@ == es[i as int]);
            let ghost ov = device_views(out@);
            proof {
                assert forall|q: int| 0 <= q < ov.len() implies #[trigger] ov[q].id < x@.id by {
                    assert(ov.contains(ov[q]));
                    let j = choose|j: int| 0 <= j < i && es.subrange(0, i as int)[j] == ov[q];
                    assert(es[j] == ov[q]);
                }
            }
            let mut p: usize = 0;
            while p < out.len() && is_shown_before(&out[p], &x)
                invariant
                    p <= out@.len(),
                    ov == device_views(out@),
                    forall|q: int| 0 <= q < p ==> shown_before(#[trigger] ov[q], x@),
                decreases out@.len() - p,
            {
                assert(ov[p as int] == out@[p as int]@);
                p = p + 1;
            }
            proof {
                if p < ov.len() {
                    assert(ov[p as int] == out@[p as int]@);
                    lemma_shown_before_order(ov[p as int], x@, x@);
                    assert(ov[p as int].id < x@.id);
                }
                lemma_insert_in_order(ov, p as int, x@);
            }
            out.insert(p, x);
            proof {
                assert(device_views(out@) =~= ov.insert(p as int, es[i as int]));
                let sub = es.subrange(0, i + 1);
                assert(sub =~= es.subrange(0, i as int).push(es[i as int]));
                assert forall|d: SpecDevice| device_views(out@).contains(d) <==> sub.contains(d) by {
                    lemma_insert_contains(ov, p as int, es[i as int], d);
                    lemma_push_contains(es.subrange(0, i as int), es[i as int], d);
                }
            }
            i = i + 1;
        }
        proof {
            assert(es.subrange(0, es.len() as int) =~= es);
        }
        out
    }

    /// Number of devices.
    pub fn len(&self) -> (r: usize)
        ensures
            r == self.entries().len(),
    {
        self.devices.len()
    }

    /// True when no device is known.
    pub fn is_empty(&self) -> (r: bool)
        ensures
            r == (self.entries().len() == 0),
    {
        self.devices.len() == 0
    }
}

impl Default for DeviceStore {
    fn default() -> (r: Self)
        ensures
            r.entries().len() == 0,
    {
        DeviceStore::new()
    }
}

/// A separator in a port path: `-` between bus and port, `.` between hub
/// ports.
pub open spec fn is_port_separator(c: char) -> bool {
    c == '-' || c == '.'
}

/// The pieces of `t` between separators, empty pieces included, as
/// `str::split` yields them.
pub open spec fn port_pieces(t: Seq<char>) -> Seq<Seq<char>>
    decreases t.len(),
{
    if t.len() == 0 {
        seq![Seq::empty()]
    } else if is_port_separator(t.last()) {
        port_pieces(t.drop_last()).push(Seq::empty())
    } else {
        let p = port_pieces(t.drop_last());
        p.update(p.len() - 1, p.last().push(t.last()))
    }
}

/// A piece of a port path as a number; anything that is not one sorts last.
pub open spec fn piece_value(p: Seq<char>) -> u32 {
    match parse_u32(p) {
        Some(v) => v,
        None => u32::MAX,
    }
}

/// The numbers of a port path.
pub open spec fn port_numbers(t: Seq<char>) -> Seq<u32> {
    port_pieces(t).map_values(|p: Seq<char>| piece_value(p))
}

/// The port names a root hub: `usbN`.
pub open spec fn is_root_hub(t: Seq<char>) -> bool {
    t.len() >= 3 && t[0] == 'u' && t[1] == 's' && t[2] == 'b'
}

/// Sort key for a port: `usbN` root hubs first, then `bus-port.port…`
/// numerically, unknown ports last.
pub open spec fn port_key_of(port: Option<Seq<char>>) -> (u8, Seq<u32>) {
    match port {
        None => (2, Seq::empty()),
        Some(p) => {
            let t = trim_white_space(p);
            if t.len() == 0 {
                (2, Seq::empty())
            } else if is_root_hub(t) {
                (0, port_numbers(t.subrange(3, t.len() as int)))
            } else {
                (1, port_numbers(t))
            }
        },
    }
}

proof fn lemma_port_pieces_nonempty(t: Seq<char>)
    ensures
        port_pieces(t).len() >= 1,
    decreases t.len(),
{
    if t.len() > 0 {
        lemma_port_pieces_nonempty(t.drop_last());
    }
}

/// The numbers of a port path.
fn port_numbers_of(t: &Vec<char>, start: usize) -> (r: Vec<u32>)
    requires
        start <= t@.len(),
    ensures
        r@ == port_numbers(t@.subrange(start as int, t@.len() as int)),
{
    let ghost all = t@.subrange(start as int, t@.len() as int);
    let mut out: Vec<u32> = Vec::new();
    let mut cur: Vec<char> = Vec::new();
    let ghost mut done: Seq<Seq<char>> = Seq::empty();
    let mut i: usize = start;
    assert(all.subrange(0, 0) =~= Seq::<char>::empty());
    while i < t.len()
        invariant
            start <= i <= t@.len(),
            all == t@.subrange(start as int, t@.len() as int),
            port_pieces(all.subrange(0, i - start)) == done.push(cur@),
            out@ == done.map_values(|p: Seq<char>| piece_value(p)),
        decreases t@.len() - i,
    {
        let c = t[i];
        let ghost k = i - start;
        proof {
            assert(all.subrange(0, k + 1).drop_last() =~= all.subrange(0, k));
            assert(all.subrange(0, k + 1).last() == c);
        }
        if c == '-' || c == '.' {
            let v = match parse_u32_chars(&cur) {
                Some(v) => v,
                None => u32::MAX,
            };
            out.push(v);
            proof {
                assert(out@ =~= done.push(cur@).map_values(|p: Seq<char>| piece_value(p)));
                done = done.push(cur@);
            }
            cur = Vec::new();
            proof {
                assert(done.push(cur@) =~= port_pieces(all.subrange(0, k)).push(Seq::<char>::empty()));
            }
        } else {
            let ghost old_cur = cur@;
            cur.push(c);
            proof {
                let p = done.push(old_cur);
                assert(p.update(p.len() - 1, p.last().push(c)) =~= done.push(cur@));
            }
        }
        i = i + 1;
    }
    proof {
        assert(all.subrange(0, all.len() as int) =~= all);
    }
    let v = match parse_u32_chars(&cur) {
        Some(v) => v,
        None => u32::MAX,
    };
    out.push(v);
    assert(out@ =~= done.push(cur@).map_values(|p: Seq<char>| piece_value(p)));
    out
}

/// Sort key for a port: `usbN` root hubs first, then `bus-port.port…`
/// numerically, unknown ports last.
pub fn port_key(port: Option<&str>) -> (r: (u8, Vec<u32>))
    ensures
        (r.0, r.1@) == port_key_of(
            match port {
                Some(p) => Some(p@),
                None => None,
            },
        ),
{
    match port {
        None => (2, Vec::new()),
        Some(p) => {
            let t = trimmed_chars(p);
            if t.len() == 0 {
                (2, Vec::new())
            } else if t.len() >= 3 && t[0] == 'u' && t[1] == 's' && t[2] == 'b' {
                (0, port_numbers_of(&t, 3))
            } else {
                let r = port_numbers_of(&t, 0);
                assert(t@.subrange(0, t@.len() as int) =~= t@);
                (1, r)
            }
        },
    }
}

/// Lexicographic order on number sequences, as `Vec<u32>` orders them: the
/// first difference decides, and a proper prefix comes first.
pub open spec fn numbers_lt(a: Seq<u32>, b: Seq<u32>) -> bool
    decreases a.len(),
{
    if a.len() == 0 {
        b.len() > 0
    } else if b.len() == 0 {
        false
    } else if a[0] != b[0] {
        a[0] < b[0]
    } else {
        numbers_lt(a.drop_first(), b.drop_first())
    }
}

/// The order of two port keys.
pub open spec fn key_lt(a: (u8, Seq<u32>), b: (u8, Seq<u32>)) -> bool {
    a.0 < b.0 || (a.0 == b.0 && numbers_lt(a.1, b.1))
}

/// The sort key of a device.
pub open spec fn device_key(d: SpecDevice) -> (u8, Seq<u32>) {
    port_key_of(d.attrs.via_port)
}

/// Presentation order: by port, which groups devices by physical topology
/// and is stable, unlike `listDevices` order; then by id.
pub open spec fn shown_before(a: SpecDevice, b: SpecDevice) -> bool {
    key_lt(device_key(a), device_key(b)) || (device_key(a) == device_key(b) && a.id < b.id)
}

proof fn lemma_numbers_lt_irreflexive(a: Seq<u32>)
    ensures
        !numbers_lt(a, a),
    decreases a.len(),
{
    if a.len() > 0 {
        lemma_numbers_lt_irreflexive(a.drop_first());
    }
}

proof fn lemma_numbers_lt_transitive(a: Seq<u32>, b: Seq<u32>, c: Seq<u32>)
    requires
        numbers_lt(a, b),
        numbers_lt(b, c),
    ensures
        numbers_lt(a, c),
    decreases a.len(),
{
    if a.len() > 0 && b.len() > 0 && c.len() > 0 && a[0] == b[0] && b[0] == c[0] {
        lemma_numbers_lt_transitive(a.drop_first(), b.drop_first(), c.drop_first());
    }
}

proof fn lemma_numbers_lt_total(a: Seq<u32>, b: Seq<u32>)
    ensures
        a == b || numbers_lt(a, b) || numbers_lt(b, a),
    decreases a.len(),
{
    if a.len() > 0 && b.len() > 0 && a[0] == b[0] {
        lemma_numbers_lt_total(a.drop_first(), b.drop_first());
        if a.drop_first() == b.drop_first() {
            assert(a =~= seq![a[0]] + a.drop_first());
            assert(b =~= seq![b[0]] + b.drop_first());
        }
    } else if a.len() == 0 && b.len() == 0 {
        assert(a =~= b);
    }
}

proof fn lemma_numbers_lt_asymmetric(a: Seq<u32>, b: Seq<u32>)
    requires
        numbers_lt(a, b),
    ensures
        !numbers_lt(b, a),
{
    if numbers_lt(b, a) {
        lemma_numbers_lt_transitive(a, b, a);
        lemma_numbers_lt_irreflexive(a);
    }
}

/// Presentation order is a strict total order on devices with distinct ids.
pub proof fn lemma_shown_before_order(a: SpecDevice, b: SpecDevice, c: SpecDevice)
    ensures
        !shown_before(a, a),
        shown_before(a, b) ==> !shown_before(b, a),
        shown_before(a, b) && shown_before(b, c) ==> shown_before(a, c),
        a.id != b.id ==> shown_before(a, b) || shown_before(b, a),
{
    lemma_numbers_lt_irreflexive(device_key(a).1);
    if shown_before(a, b) && key_lt(device_key(a), device_key(b)) && device_key(a).0 == device_key(b).0 {
        lemma_numbers_lt_asymmetric(device_key(a).1, device_key(b).1);
    }
    if shown_before(a, b) && shown_before(b, c) {
        if device_key(a).0 == device_key(b).0 && device_key(b).0 == device_key(c).0 && numbers_lt(
            device_key(a).1,
            device_key(b).1,
        ) && numbers_lt(device_key(b).1, device_key(c).1) {
            lemma_numbers_lt_transitive(device_key(a).1, device_key(b).1, device_key(c).1);
        }
    }
    lemma_numbers_lt_total(device_key(a).1, device_key(b).1);
}

/// Each device shown before the next.
pub open spec fn in_shown_order(s: Seq<SpecDevice>) -> bool {
    forall|i: int, j: int| 0 <= i < j < s.len() ==> shown_before(s[i], s[j])
}

proof fn lemma_insert_in_order(s: Seq<SpecDevice>, p: int, x: SpecDevice)
    requires
        in_shown_order(s),
        0 <= p <= s.len(),
        forall|q: int| 0 <= q < p ==> shown_before(#[trigger] s[q], x),
        p < s.len() ==> shown_before(x, s[p]),
    ensures
        in_shown_order(s.insert(p, x)),
{
    let after = s.insert(p, x);
    assert forall|a: int, b: int| 0 <= a < b < after.len() implies shown_before(after[a], after[b]) by {
        if b < p {
        } else if a < p && b == p {
        } else if a < p {
            assert(after[b] == s[b - 1]);
        } else if a == p {
            assert(after[b] == s[b - 1]);
            if b - 1 > p {
                lemma_shown_before_order(x, s[p], s[b - 1]);
            }
        } else {
            assert(after[a] == s[a - 1]);
            assert(after[b] == s[b - 1]);
        }
    }
}

proof fn lemma_insert_contains(s: Seq<SpecDevice>, p: int, x: SpecDevice, d: SpecDevice)
    requires
        0 <= p <= s.len(),
    ensures
        s.insert(p, x).contains(d) <==> s.contains(d) || d == x,
{
    let t = s.insert(p, x);
    if s.contains(d) {
        let j = choose|j: int| 0 <= j < s.len() && s[j] == d;
        if j < p {
            assert(t[j] == d);
        } else {
            assert(t[j + 1] == d);
        }
    }
    if d == x {
        assert(t[p] == d);
    }
    if t.contains(d) {
        let j = choose|j: int| 0 <= j < t.len() && t[j] == d;
        if j < p {
            assert(s[j] == d);
        } else if j > p {
            assert(s[j - 1] == d);
        }
    }
}

proof fn lemma_push_contains(s: Seq<SpecDevice>, x: SpecDevice, d: SpecDevice)
    ensures
        s.push(x).contains(d) <==> s.contains(d) || d == x,
{
    let t = s.push(x);
    if s.contains(d) {
        let j = choose|j: int| 0 <= j < s.len() && s[j] == d;
        assert(t[j] == d);
    }
    if d == x {
        assert(t[s.len() as int] == d);
    }
    if t.contains(d) {
        let j = choose|j: int| 0 <= j < t.len() && t[j] == d;
        if j < s.len() {
            assert(s[j] == d);
        }
    }
}

fn numbers_less(a: &Vec<u32>, b: &Vec<u32>) -> (r: bool)
    ensures
        r == numbers_lt(a@, b@),
{
    let mut i: usize = 0;
    assert(a@.subrange(0, a@.len() as int) =~= a@);
    assert(b@.subrange(0, b@.len() as int) =~= b@);
    while i < a.len() && i < b.len()
        invariant
            i <= a@.len(),
            i <= b@.len(),
            numbers_lt(a@, b@) == numbers_lt(
                a@.subrange(i as int, a@.len() as int),
                b@.subrange(i as int, b@.len() as int),
            ),
        decreases a@.len() - i,
    {
        if a[i] != b[i] {
            return a[i] < b[i];
        }
        proof {
            assert(a@.subrange(i as int, a@.len() as int).drop_first() =~= a@.subrange(i + 1, a@.len() as int));
            assert(b@.subrange(i as int, b@.len() as int).drop_first() =~= b@.subrange(i + 1, b@.len() as int));
        }
        i = i + 1;
    }
    i == a.len() && i < b.len()
}

fn via_port_str(d: &Device) -> (r: Option<&str>)
    ensures
        match r {
            Some(p) => d@.attrs.via_port == Some(p@),
            None => d@.attrs.via_port is None,
        },
{
    match &d.attrs.via_port {
        Some(p) => Some(p.as_str()),
        None => None,
    }
}

pub(crate) fn is_shown_before(a: &Device, b: &Device) -> (r: bool)
    ensures
        r == shown_before(a@, b@),
{
    let ka = port_key(via_port_str(a));
    let kb = port_key(via_port_str(b));
    if ka.0 != kb.0 {
        return ka.0 < kb.0;
    }
    if numbers_less(&ka.1, &kb.1) {
        return true;
    }
    if numbers_less(&kb.1, &ka.1) {
        proof {
            lemma_numbers_lt_asymmetric(kb.1@, ka.1@);
        }
        return false;
    }
    proof {
        lemma_numbers_lt_total(ka.1@, kb.1@);
    }
    a.id.get() < b.id.get()
}

/// The filter text `q`, already trimmed and in lower case, occurs in the
/// field in lower case.
pub open spec fn field_hit(field: Option<Seq<char>>, q: Seq<char>) -> bool {
    match field {
        Some(t) => has_substring(unicode_lowercase(t), q),
        None => false,
    }
}

/// The filter entry matches a device: case-insensitively, over the name,
/// `vendor:product` and the serial. An empty entry matches everything.
pub open spec fn spec_matches_filter(d: SpecDevice, query: Seq<char>) -> bool {
    let q = unicode_lowercase(trim_white_space(query));
    ||| q.len() == 0
    ||| field_hit(d.attrs.name, q)
    ||| field_hit(d.attrs.serial, q)
    ||| field_hit(
        match d.attrs.usb_id {
            Some(id) => Some(decode_utf8(id.text())),
            None => None,
        },
        q,
    )
}

fn hit(field: Option<&str>, q: &str) -> (r: bool)
    ensures
        r == field_hit(
            match field {
                Some(f) => Some(f@),
                None => None,
            },
            q@,
        ),
{
    match field {
        Some(f) => {
            let lower = to_lowercase(f);
            let chars = chars_of(lower.as_str());
            contains_chars(&chars, q)
        },
        None => false,
    }
}

/// Whether a device matches the filter entry: case-insensitive over name,
/// `vendor:product`, and serial.
pub fn matches_filter(device: &Device, query: &str) -> (r: bool)
    ensures
        r == spec_matches_filter(device@, query@),
{
    let lowered = to_lowercase(trim_str(query));
    let q = lowered.as_str();
    if q.is_empty() {
        return true;
    }
    let name = match &device.attrs.name {
        Some(n) => Some(n.as_str()),
        None => None,
    };
    let serial = match &device.attrs.serial {
        Some(n) => Some(n.as_str()),
        None => None,
    };
    let id_text = match &device.attrs.usb_id {
        Some(id) => Some(id.to_string()),
        None => None,
    };
    let id_str = match &id_text {
        Some(t) => Some(t.as_str()),
        None => None,
    };
    hit(name, q) || hit(serial, q) || hit(id_str, q)
}

/// Applies one delta to a list ordered by id.
fn apply_one(list: &mut Vec<Device>, delta: DeviceDelta)
    requires
        ordered_by_id(device_views(old(list)@)),
    ensures
        device_views(final(list)@) == apply_delta(device_views(old(list)@), delta@),
        ordered_by_id(device_views(final(list)@)),
{
    let ghost before = device_views(list@);
    let ghost dv = delta@;
    let (i, found) = position(list, delta.id);
    proof {
        lemma_find_at(before, delta.id@, i as int, found);
    }
    let DeviceDelta { id, removed, target, rule_text, attrs } = delta;
    if removed {
        if found {
            list.remove(i);
            proof {
                lemma_remove_at(before, i as int);
                assert(device_views(list@) =~= before.remove(i as int));
            }
        } else {
            proof {
                lemma_remove_absent(before, id@);
            }
        }
        return;
    }
    let mut device = if found {
        let mut placeholder = Device {
            id,
            target: Target::Other(0),
            rule_text: String::new(),
            attrs: DeviceAttributes::empty(),
            parse_error: None,
            pending: None,
        };
        vec_swap_at(list, i, &mut placeholder);
        assert(placeholder@ == before[i as int]);
        placeholder
    } else {
        Device {
            id,
            target: Target::Other(0xffff_ffff),
            rule_text: String::new(),
            attrs: DeviceAttributes::empty(),
            parse_error: None,
            pending: None,
        }
    };
    let ghost base = device@;
    assert(base == match find_device(before, id@) {
        Some(e) => e,
        None => blank_device(id@),
    });
    match rule_text {
        Some(text) => {
            if !text.as_str().is_empty() {
                let re = parse_device(id, text);
                device.rule_text = re.rule_text;
                device.attrs = re.attrs;
                device.parse_error = re.parse_error;
                device.target = re.target;
            }
        },
        None => {},
    }
    device.attrs.merge_from(attrs);
    match target {
        Some(t) => {
            device.target = t;
        },
        None => {},
    }
    let ghost nv = device@;
    assert(nv == updated(find_device(before, id@), dv)) by {
        reveal(updated);
    }
    if found {
        vec_swap_at(list, i, &mut device);
        proof {
            assert(device_views(list@) =~= before.update(i as int, nv));
            lemma_put_replace(before, i as int, nv);
            lemma_update_ordered(before, i as int, nv);
        }
    } else {
        list.insert(i, device);
        proof {
            assert(device_views(list@) =~= before.insert(i as int, nv));
            lemma_put_insert(before, i as int, nv);
            lemma_insert_ordered(before, i as int, nv);
        }
    }
}

/// Puts a device into a list ordered by id, replacing the entry with its id.
fn put_into(list: &mut Vec<Device>, d: Device)
    requires
        ordered_by_id(device_views(old(list)@)),
    ensures
        device_views(final(list)@) == put_device(device_views(old(list)@), d@),
        ordered_by_id(device_views(final(list)@)),
{
    let ghost before = device_views(list@);
    let ghost dv = d@;
    let (i, found) = position(list, d.id);
    let mut d = d;
    if found {
        vec_swap_at(list, i, &mut d);
        proof {
            assert(device_views(list@) =~= before.update(i as int, dv));
            lemma_put_replace(before, i as int, dv);
            lemma_update_ordered(before, i as int, dv);
        }
    } else {
        list.insert(i, d);
        proof {
            assert(device_views(list@) =~= before.insert(i as int, dv));
            lemma_put_insert(before, i as int, dv);
            lemma_insert_ordered(before, i as int, dv);
        }
    }
}

/// The position of the device with `id` in a list ordered by id, or where
/// it belongs.
fn position(list: &Vec<Device>, id: DeviceId) -> (r: (usize, bool))
    requires
        ordered_by_id(device_views(list@)),
    ensures
        r.0 <= list@.len(),
        forall|i: int| 0 <= i < r.0 ==> device_views(list@)[i].id < id@,
        r.1 ==> r.0 < list@.len() && device_views(list@)[r.0 as int].id == id@,
        !r.1 ==> (r.0 < list@.len() ==> device_views(list@)[r.0 as int].id > id@),
{
    let ghost e = device_views(list@);
    let mut i: usize = 0;
    while i < list.len()
        invariant
            i <= list@.len(),
            e == device_views(list@),
            forall|j: int| 0 <= j < i ==> e[j].id < id@,
        decreases list@.len() - i,
    {
        assert(e[i as int] == list@[i as int]@);
        let here = list[i].id.get();
        if here == id.get() {
            return (i, true);
        }
        if here > id.get() {
            return (i, false);
        }
        i = i + 1;
    }
    (i, false)
}

/// Exchanges the element at `i` with `x`.
fn vec_swap_at<T>(v: &mut Vec<T>, i: usize, x: &mut T)
    requires
        i < old(v)@.len(),
    ensures
        final(v)@ == old(v)@.update(i as int, *old(x)),
        *final(x) == old(v)@[i as int],
{
    let t = v.remove(i);
    let mut t = t;
    std::mem::swap(&mut t, x);
    v.insert(i, t);
    assert(final(v)@ =~= old(v)@.update(i as int, *old(x)));
}

proof fn lemma_ordered_tail(s: Seq<SpecDevice>)
    requires
        ordered_by_id(s),
        s.len() > 0,
    ensures
        ordered_by_id(s.drop_first()),
{
    let t = s.drop_first();
    assert forall|a: int, b: int| 0 <= a < b < t.len() implies t[a].id < t[b].id by {
        assert(s[a + 1].id < s[b + 1].id);
    }
}

proof fn lemma_find_at(s: Seq<SpecDevice>, id: u32, i: int, found: bool)
    requires
        ordered_by_id(s),
        0 <= i <= s.len(),
        forall|j: int| 0 <= j < i ==> s[j].id < id,
        found ==> i < s.len() && s[i].id == id,
        !found ==> (i < s.len() ==> s[i].id > id),
    ensures
        find_device(s, id) == if found {
            Some(s[i])
        } else {
            None::<SpecDevice>
        },
    decreases s.len(),
{
    if s.len() > 0 {
        if s[0].id == id {
            if !found && i > 0 {
                assert(s[0].id < id);
            }
            if found && i > 0 {
                assert(s[0].id < s[i].id);
            }
        } else {
            let t = s.drop_first();
            lemma_ordered_tail(s);
            if i == 0 {
                if !found {
                    assert forall|j: int| 0 <= j < t.len() implies t[j].id > id by {
                        assert(s[0].id < s[j + 1].id);
                    }
                    lemma_find_none(t, id);
                }
            } else {
                lemma_find_at(t, id, i - 1, found);
            }
        }
    }
}

proof fn lemma_find_first(s: Seq<SpecDevice>, id: u32, i: int)
    requires
        0 <= i < s.len(),
        s[i].id == id,
        forall|j: int| 0 <= j < i ==> (#[trigger] s[j]).id != id,
    ensures
        find_device(s, id) == Some(s[i]),
    decreases i,
{
    if i > 0 {
        let t = s.drop_first();
        assert(s[0].id != id);
        assert forall|j: int| 0 <= j < i - 1 implies (#[trigger] t[j]).id != id by {
            assert(t[j] == s[j + 1]);
        }
        lemma_find_first(t, id, i - 1);
    }
}

proof fn lemma_find_none(s: Seq<SpecDevice>, id: u32)
    requires
        forall|j: int| 0 <= j < s.len() ==> s[j].id != id,
    ensures
        find_device(s, id) is None,
    decreases s.len(),
{
    if s.len() > 0 {
        lemma_find_none(s.drop_first(), id);
    }
}

proof fn lemma_put_replace(s: Seq<SpecDevice>, i: int, e: SpecDevice)
    requires
        ordered_by_id(s),
        0 <= i < s.len(),
        s[i].id == e.id,
    ensures
        put_device(s, e) == s.update(i, e),
    decreases s.len(),
{
    if i == 0 {
        assert(seq![e] + s.drop_first() =~= s.update(0, e));
    } else {
        assert(s[0].id < s[i].id);
        let t = s.drop_first();
        lemma_ordered_tail(s);
        lemma_put_replace(t, i - 1, e);
        assert(seq![s[0]] + t.update(i - 1, e) =~= s.update(i, e));
    }
}

proof fn lemma_put_insert(s: Seq<SpecDevice>, i: int, e: SpecDevice)
    requires
        0 <= i <= s.len(),
        forall|j: int| 0 <= j < i ==> s[j].id < e.id,
        i < s.len() ==> s[i].id > e.id,
    ensures
        put_device(s, e) == s.insert(i, e),
    decreases s.len(),
{
    if s.len() == 0 {
        assert(seq![e] =~= s.insert(i, e));
    } else if i == 0 {
        assert(seq![e] + s =~= s.insert(0, e));
    } else {
        let t = s.drop_first();
        lemma_put_insert(t, i - 1, e);
        assert(seq![s[0]] + t.insert(i - 1, e) =~= s.insert(i, e));
    }
}

proof fn lemma_insert_ordered(s: Seq<SpecDevice>, i: int, e: SpecDevice)
    requires
        ordered_by_id(s),
        0 <= i <= s.len(),
        forall|j: int| 0 <= j < i ==> s[j].id < e.id,
        i < s.len() ==> s[i].id > e.id,
    ensures
        ordered_by_id(s.insert(i, e)),
{
    let after = s.insert(i, e);
    assert forall|a: int, b: int| 0 <= a < b < after.len() implies after[a].id < after[b].id by {
        if b < i {
        } else if a < i && b == i {
        } else if a < i {
            assert(after[b] == s[b - 1]);
        } else if a == i {
            assert(after[b] == s[b - 1]);
            if b - 1 > i {
                assert(s[i].id < s[b - 1].id);
            }
        } else {
            assert(after[a] == s[a - 1]);
            assert(after[b] == s[b - 1]);
        }
    }
}

proof fn lemma_update_ordered(s: Seq<SpecDevice>, i: int, e: SpecDevice)
    requires
        ordered_by_id(s),
        0 <= i < s.len(),
        s[i].id == e.id,
    ensures
        ordered_by_id(s.update(i, e)),
{
    let after = s.update(i, e);
    assert forall|a: int, b: int| 0 <= a < b < after.len() implies after[a].id < after[b].id by {
        assert(s[a].id < s[b].id);
    }
}

proof fn lemma_remove_at(s: Seq<SpecDevice>, i: int)
    requires
        ordered_by_id(s),
        0 <= i < s.len(),
    ensures
        remove_device(s, s[i].id) == s.remove(i),
        ordered_by_id(s.remove(i)),
    decreases s.len(),
{
    let after = s.remove(i);
    assert forall|a: int, b: int| 0 <= a < b < after.len() implies after[a].id < after[b].id by {
        if a < i {
            if b >= i {
                assert(after[b] == s[b + 1]);
            }
        } else {
            assert(after[a] == s[a + 1]);
            assert(after[b] == s[b + 1]);
        }
    }
    if i == 0 {
        assert(s.drop_first() =~= s.remove(0));
    } else {
        assert(s[0].id < s[i].id);
        let t = s.drop_first();
        lemma_ordered_tail(s);
        lemma_remove_at(t, i - 1);
        assert(t[i - 1] == s[i]);
        assert(seq![s[0]] + t.remove(i - 1) =~= s.remove(i));
    }
}

proof fn lemma_remove_absent(s: Seq<SpecDevice>, id: u32)
    requires
        find_device(s, id) is None,
    ensures
        remove_device(s, id) == s,
    decreases s.len(),
{
    if s.len() > 0 {
        lemma_remove_absent(s.drop_first(), id);
        assert(seq![s[0]] + s.drop_first() =~= s);
    }
}

/// Reading back what was put: the entry put for an id is found, and every
/// other id finds what it found before.
pub proof fn lemma_put_find(s: Seq<SpecDevice>, d: SpecDevice, id: u32)
    ensures
        find_device(put_device(s, d), id) == if id == d.id {
            Some(d)
        } else {
            find_device(s, id)
        },
    decreases s.len(),
{
    let t = put_device(s, d);
    if s.len() == 0 {
        assert(t == seq![d]);
        assert(t[0] == d);
        assert(t.drop_first() =~= Seq::<SpecDevice>::empty());
    } else if s[0].id == d.id {
        assert(t == seq![d] + s.drop_first());
        assert(t.drop_first() =~= s.drop_first());
        assert(t[0] == d);
    } else if s[0].id > d.id {
        assert(t == seq![d] + s);
        assert(t.drop_first() =~= s);
        assert(t[0] == d);
    } else {
        lemma_put_find(s.drop_first(), d, id);
        assert(t == seq![s[0]] + put_device(s.drop_first(), d));
        assert(t.drop_first() =~= put_device(s.drop_first(), d));
        assert(t[0] == s[0]);
    }
    assert(t.len() > 0);
    assert(find_device(t, id) == if t[0].id == id {
        Some(t[0])
    } else {
        find_device(t.drop_first(), id)
    });
}

/// A removed id is gone, and every other id finds what it found before.
pub proof fn lemma_remove_find(s: Seq<SpecDevice>, gone: u32, id: u32)
    requires
        ordered_by_id(s),
    ensures
        find_device(remove_device(s, gone), id) == if id == gone {
            None
        } else {
            find_device(s, id)
        },
    decreases s.len(),
{
    if s.len() > 0 {
        lemma_ordered_tail(s);
        if s[0].id == gone {
            if id == gone {
                assert forall|j: int| 0 <= j < s.drop_first().len() implies s.drop_first()[j].id != id by {
                    assert(s[0].id < s[j + 1].id);
                }
                lemma_find_none(s.drop_first(), id);
            }
        } else {
            lemma_remove_find(s.drop_first(), gone, id);
            assert((seq![s[0]] + remove_device(s.drop_first(), gone)).drop_first() =~= remove_device(
                s.drop_first(),
                gone,
            ));
            assert((seq![s[0]] + remove_device(s.drop_first(), gone))[0] == s[0]);
        }
    }
}

/// What one delta does to the table, read back by id: a removal makes the
/// device gone; anything else leaves it updated from what was there; no
/// other device changes.
pub proof fn lemma_apply_delta_find(s: Seq<SpecDevice>, d: SpecDelta, id: u32)
    requires
        ordered_by_id(s),
    ensures
        find_device(apply_delta(s, d), id) == if id != d.id {
            find_device(s, id)
        } else if d.removed {
            None
        } else {
            Some(updated(find_device(s, d.id), d))
        },
{
    if d.removed {
        lemma_remove_find(s, d.id, id);
    } else {
        lemma_find_has_id(s, d.id);
        lemma_delta_target_wins(find_device(s, d.id), d);
        lemma_put_find(s, updated(find_device(s, d.id), d), id);
    }
}

proof fn lemma_find_has_id(s: Seq<SpecDevice>, id: u32)
    ensures
        find_device(s, id) matches Some(x) ==> x.id == id,
    decreases s.len(),
{
    if s.len() > 0 && s[0].id != id {
        lemma_find_has_id(s.drop_first(), id);
    }
}

/// A target carried by the delta — the policy decision — wins over the one
/// the rule text gives; without one, a re-parsed rule text decides.
pub proof fn lemma_delta_target_wins(existing: Option<SpecDevice>, d: SpecDelta)
    ensures
        d.target matches Some(t) ==> updated(existing, d).target == t,
        updated(existing, d).id == (match existing {
            Some(e) => e.id,
            None => d.id,
        }),
        updated(existing, d).pending == pending_of(existing),
{
    reveal(updated);
}

/// Whether the device list shows a device: it matches the filter entry, and
/// it is not authorized when only those are shown.
pub fn shown_in_list(device: &Device, query: &str, blocked_only: bool) -> (r: bool)
    ensures
        r == ((!blocked_only || device@.target != Target::Allow) && spec_matches_filter(device@, query@)),
{
    (!blocked_only || device.target != Target::Allow) && matches_filter(device, query)
}

} // verus!
