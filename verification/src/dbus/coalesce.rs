//! Burst coalescing as pure logic.
//!
//! Correct coalescing **merges rather than delays**: events accumulate per
//! device id, a later state supersedes an earlier one, and one aggregated
//! batch is emitted per window. The worker owns the timing; this module owns
//! the merge rules. Times are readings of a monotonic clock, in nanoseconds.

use vstd::prelude::*;
use crate::model::device::{merged, no_attributes, DeviceAttributes, DeviceDelta, SpecAttributes, SpecDelta};
use crate::model::ids::DeviceId;
use crate::model::target::{DeviceEvent, Target};

verus! {

/// Emit once no event has arrived for this long (80 ms), in nanoseconds.
pub const QUIET_WINDOW: u64 = 80_000_000;

/// Emit regardless after this long (250 ms), even under a continuous burst,
/// in nanoseconds.
pub const MAX_LATENCY: u64 = 250_000_000;

/// Beyond this many pending devices, stop tracking deltas and resynchronize
/// with one `listDevices`: its cost is constant in the size of the burst.
pub const RESYNC_THRESHOLD: usize = 40;

/// A device signal, decoded from the wire but not yet merged.
#[derive(Debug, Clone, PartialEq, Eq)]
pub enum DeviceSignal {
    /// `DevicePresenceChanged`.
    Presence {
        /// Device id.
        id: DeviceId,
        /// What happened.
        event: DeviceEvent,
        /// Target at the time of the event — possibly not final.
        target: Target,
        /// Device rule text.
        rule: String,
        /// Attribute dictionary.
        attrs: DeviceAttributes,
    },
    /// `DevicePolicyChanged` or `DevicePolicyApplied`: the policy decision,
    /// which is the final word on the target.
    Policy {
        /// Device id.
        id: DeviceId,
        /// The decided target.
        target: Target,
        /// Device rule text.
        rule: String,
        /// Attribute dictionary.
        attrs: DeviceAttributes,
    },
}

/// The mathematical value of a [`DeviceSignal`].
pub enum SpecSignal {
    /// A presence change.
    Presence { id: u32, event: DeviceEvent, target: Target, rule: Seq<char>, attrs: SpecAttributes },
    /// A policy decision.
    Policy { id: u32, target: Target, rule: Seq<char>, attrs: SpecAttributes },
}

impl View for DeviceSignal {
    type V = SpecSignal;

    open spec fn view(&self) -> SpecSignal {
        match self {
            DeviceSignal::Presence { id, event, target, rule, attrs } => SpecSignal::Presence {
                id: id@,
                event: *event,
                target: *target,
                rule: rule@,
                attrs: attrs@,
            },
            DeviceSignal::Policy { id, target, rule, attrs } => SpecSignal::Policy {
                id: id@,
                target: *target,
                rule: rule@,
                attrs: attrs@,
            },
        }
    }
}

#[derive(Debug)]
struct Pending {
    delta: DeviceDelta,
    /// A policy event has set the target; presence events may no longer
    /// override it.
    policy_decided: bool,
}

/// The mathematical value of one device's pending changes.
pub struct SpecPending {
    /// The accumulated delta.
    pub delta: SpecDelta,
    /// A policy event has set the target.
    pub policy_decided: bool,
}

impl View for Pending {
    type V = SpecPending;

    closed spec fn view(&self) -> SpecPending {
        SpecPending { delta: self.delta@, policy_decided: self.policy_decided }
    }
}

/// Nothing pending for a device yet.
pub open spec fn fresh(id: u32) -> SpecPending {
    SpecPending {
        delta: SpecDelta { id, removed: false, target: None, rule_text: None, attrs: no_attributes() },
        policy_decided: false,
    }
}

/// The pending entry a live event for `id` builds on: the pending changes,
/// unless they are a removal — an id that reappears after a removal in the
/// same window is a new device, since ids are recycled.
pub open spec fn live(old: Option<SpecPending>, id: u32) -> SpecPending {
    match old {
        Some(p) => if p.delta.removed {
            fresh(id)
        } else {
            p
        },
        None => fresh(id),
    }
}

/// The signal's device.
pub open spec fn signal_id(s: SpecSignal) -> u32 {
    match s {
        SpecSignal::Presence { id, .. } => id,
        SpecSignal::Policy { id, .. } => id,
    }
}

/// A device's pending changes after one more signal:
///
/// 1. A removal supersedes any pending delta for that device.
/// 2. A policy target supersedes a presence target.
/// 3. Attribute maps accumulate, later keys winning.
pub open spec fn merge_signal(old: Option<SpecPending>, s: SpecSignal) -> SpecPending {
    match s {
        SpecSignal::Presence { id, event, target, rule, attrs } => if event is Remove {
            SpecPending { delta: SpecDelta { removed: true, ..fresh(id).delta }, policy_decided: false }
        } else {
            let base = live(old, id);
            SpecPending {
                delta: SpecDelta {
                    id,
                    removed: false,
                    target: if base.policy_decided {
                        base.delta.target
                    } else {
                        Some(target)
                    },
                    rule_text: Some(rule),
                    attrs: merged(base.delta.attrs, attrs),
                },
                policy_decided: base.policy_decided,
            }
        },
        SpecSignal::Policy { id, target, rule, attrs } => {
            let base = live(old, id);
            SpecPending {
                delta: SpecDelta {
                    id,
                    removed: false,
                    target: Some(target),
                    rule_text: Some(rule),
                    attrs: merged(base.delta.attrs, attrs),
                },
                policy_decided: true,
            }
        },
    }
}

/// The entry for `id` in a list ordered by id.
pub open spec fn find(s: Seq<SpecPending>, id: u32) -> Option<SpecPending>
    decreases s.len(),
{
    if s.len() == 0 {
        None
    } else if s[0].delta.id == id {
        Some(s[0])
    } else {
        find(s.drop_first(), id)
    }
}

/// A list ordered by id with `e` in place of the entry for its id, or with
/// `e` inserted where its id belongs.
pub open spec fn put(s: Seq<SpecPending>, e: SpecPending) -> Seq<SpecPending>
    decreases s.len(),
{
    if s.len() == 0 {
        seq![e]
    } else if s[0].delta.id == e.delta.id {
        seq![e] + s.drop_first()
    } else if s[0].delta.id > e.delta.id {
        seq![e] + s
    } else {
        seq![s[0]] + put(s.drop_first(), e)
    }
}

/// Entries strictly ordered by device id.
pub open spec fn ordered(s: Seq<SpecPending>) -> bool {
    forall|i: int, j: int| 0 <= i < j < s.len() ==> s[i].delta.id < s[j].delta.id
}

/// `a - b`, or zero.
pub open spec fn sat_sub(a: u64, b: u64) -> u64 {
    if a >= b {
        (a - b) as u64
    } else {
        0
    }
}

/// How long to wait for the next event before flushing a window opened at
/// `start`: the quiet window, but never past the latency ceiling.
pub open spec fn spec_budget(start: u64, now: u64) -> u64 {
    let left = sat_sub(MAX_LATENCY, sat_sub(now, start));
    if left < QUIET_WINDOW {
        left
    } else {
        QUIET_WINDOW
    }
}

/// Accumulates device signals over one window.
#[derive(Debug)]
pub struct Coalescer {
    pending: Vec<Pending>,
    window_start: Option<u64>,
}

impl Coalescer {
    /// The pending changes, one entry per device, ordered by device id.
    pub closed spec fn entries(&self) -> Seq<SpecPending> {
        views(self.pending@)
    }

    /// When the window opened, if it has.
    pub closed spec fn start(&self) -> Option<u64> {
        self.window_start
    }

    #[verifier::type_invariant]
    spec fn inv(&self) -> bool {
        ordered(self.entries())
    }

    /// An empty coalescer.
    pub fn new() -> (r: Self)
        ensures
            r.entries().len() == 0,
            r.start() is None,
    {
        let pending: Vec<Pending> = Vec::new();
        assert(views(pending@) =~= Seq::<SpecPending>::empty());
        Coalescer { pending, window_start: None }
    }

    /// Number of devices with pending changes.
    pub fn len(&self) -> (r: usize)
        ensures
            r == self.entries().len(),
    {
        self.pending.len()
    }

    /// True when nothing is pending.
    pub fn is_empty(&self) -> (r: bool)
        ensures
            r == (self.entries().len() == 0),
    {
        self.pending.len() == 0
    }

    /// True once the burst is large enough that a full resynchronization is
    /// cheaper than the deltas.
    pub fn needs_resync(&self) -> (r: bool)
        ensures
            r == (self.entries().len() >= RESYNC_THRESHOLD),
    {
        self.pending.len() >= RESYNC_THRESHOLD
    }

    /// How long to wait for the next event before flushing, or `None` when
    /// nothing is pending (wait indefinitely): the quiet window, but never
    /// past the latency ceiling counted from the window's first event.
    pub fn budget(&self, now: u64) -> (r: Option<u64>)
        ensures
            r == match self.start() {
                None => None,
                Some(start) => Some(spec_budget(start, now)),
            },
    {
        match self.window_start {
            None => None,
            Some(start) => {
                let elapsed = if now >= start {
                    now - start
                } else {
                    0
                };
                let left = if MAX_LATENCY >= elapsed {
                    MAX_LATENCY - elapsed
                } else {
                    0
                };
                Some(if left < QUIET_WINDOW { left } else { QUIET_WINDOW })
            },
        }
    }

    /// Merges one signal, with the precedence rules of [`merge_signal`]: a
    /// removal supersedes any pending delta for that device; a policy target
    /// supersedes a presence target; attribute maps accumulate, later keys
    /// winning.
    pub fn push(&mut self, signal: DeviceSignal, now: u64)
        ensures
            final(self).entries() == put(
                old(self).entries(),
                merge_signal(find(old(self).entries(), signal_id(signal@)), signal@),
            ),
            final(self).start() == Some(
                match old(self).start() {
                    Some(s) => s,
                    None => now,
                },
            ),
    {
        let mut whole = Coalescer::new();
        std::mem::swap(self, &mut whole);
        proof {
            use_type_invariant(&whole);
        }
        let Coalescer { mut pending, window_start } = whole;
        let start = match window_start {
            Some(s) => s,
            None => now,
        };
        let ghost before = views(pending@);
        let ghost sig = signal@;
        let id = match &signal {
            DeviceSignal::Presence { id, .. } => *id,
            DeviceSignal::Policy { id, .. } => *id,
        };
        let (i, found) = position(&pending, id);
        proof {
            lemma_find_at(before, id@, i as int, found);
        }
        let old_entry: Option<Pending> = if found {
            let mut placeholder = Pending { delta: fresh_delta(id), policy_decided: false };
            vec_swap_at(&mut pending, i, &mut placeholder);
            Some(placeholder)
        } else {
            None
        };
        let ghost old_view: Option<SpecPending> = opt_view(old_entry);
        assert(old_view == find(before, id@));
        let entry = merge_exec(old_entry, signal);
        let ghost ev = entry@;
        if found {
            let mut e = entry;
            vec_swap_at(&mut pending, i, &mut e);
            proof {
                assert(views(pending@) =~= before.update(i as int, ev));
                lemma_put_replace(before, i as int, ev);
            }
        } else {
            vec_insert_at(&mut pending, i, entry);
            proof {
                assert(views(pending@) =~= before.insert(i as int, ev));
                lemma_put_insert(before, i as int, ev);
                lemma_insert_ordered(before, i as int, ev);
            }
        }
        proof {
            if found {
                assert(ordered(before.update(i as int, ev)));
            }
        }
        *self = Coalescer { pending, window_start: Some(start) };
    }

    /// Ends the window: returns the batch, ordered by device id, and resets.
    pub fn take(&mut self) -> (r: Vec<DeviceDelta>)
        ensures
            r@.map_values(|d: DeviceDelta| d@) == old(self).entries().map_values(|p: SpecPending| p.delta),
            forall|i: int, j: int| 0 <= i < j < r@.len() ==> r@[i]@.id < r@[j]@.id,
            final(self).entries().len() == 0,
            final(self).start() is None,
    {
        let mut whole = Coalescer::new();
        std::mem::swap(self, &mut whole);
        proof {
            use_type_invariant(&whole);
        }
        let ghost before = whole.entries();
        let Coalescer { pending: drained, .. } = whole;
        let mut batch: Vec<DeviceDelta> = Vec::new();
        let mut rest = drained;
        let ghost all = rest@;
        let mut out_rev: Vec<DeviceDelta> = Vec::new();
        while rest.len() > 0
            invariant
                all.len() == before.len(),
                forall|k: int| 0 <= k < all.len() ==> all[k]@ == before[k],
                rest@ == all.subrange(0, rest@.len() as int),
                out_rev@.len() == all.len() - rest@.len(),
                forall|k: int|
                    0 <= k < out_rev@.len() ==> (#[trigger] out_rev@[k])@ == before[all.len() - 1 - k].delta,
            decreases rest@.len(),
        {
            let p = rest.pop().unwrap();
            let ghost k = out_rev@.len();
            assert(p@ == before[all.len() - 1 - k]);
            out_rev.push(p.delta);
        }
        while out_rev.len() > 0
            invariant
                forall|k: int|
                    0 <= k < out_rev@.len() ==> (#[trigger] out_rev@[k])@ == before[before.len() - 1 - k].delta,
                batch@.len() + out_rev@.len() == before.len(),
                forall|k: int| 0 <= k < batch@.len() ==> (#[trigger] batch@[k])@ == before[k].delta,
            decreases out_rev@.len(),
        {
            let d = out_rev.pop().unwrap();
            let ghost k = batch@.len();
            assert(d@ == before[before.len() - 1 - out_rev@.len()].delta);
            batch.push(d);
        }
        assert(batch@.map_values(|d: DeviceDelta| d@) =~= before.map_values(|p: SpecPending| p.delta));
        batch
    }

    /// Drops everything pending — used when a full snapshot replaces it.
    pub fn clear(&mut self)
        ensures
            final(self).entries().len() == 0,
            final(self).start() is None,
    {
        *self = Coalescer::new();
    }
}

impl Default for Coalescer {
    fn default() -> (r: Self)
        ensures
            r.entries().len() == 0,
            r.start() is None,
    {
        Coalescer::new()
    }
}

spec fn views(v: Seq<Pending>) -> Seq<SpecPending> {
    v.map_values(|p: Pending| p@)
}

/// The position of the entry for `id` in a list ordered by id, or where it
/// belongs.
fn position(pending: &Vec<Pending>, id: DeviceId) -> (r: (usize, bool))
    requires
        ordered(views(pending@)),
    ensures
        r.0 <= pending@.len(),
        forall|i: int| 0 <= i < r.0 ==> views(pending@)[i].delta.id < id@,
        r.1 ==> r.0 < pending@.len() && views(pending@)[r.0 as int].delta.id == id@,
        !r.1 ==> (r.0 < pending@.len() ==> views(pending@)[r.0 as int].delta.id > id@),
{
    let ghost e = views(pending@);
    let mut i: usize = 0;
    while i < pending.len()
        invariant
            i <= pending@.len(),
            e == views(pending@),
            forall|j: int| 0 <= j < i ==> e[j].delta.id < id@,
        decreases pending@.len() - i,
    {
        assert(e[i as int] == pending@[i as int]@);
        let here = pending[i].delta.id.get();
        if here == id.get() {
            return (i, true);
        }
        if here > id.get() {
            return (i, false);
        }
        i = i + 1;
    }
    (i, false)
}

spec fn opt_view(o: Option<Pending>) -> Option<SpecPending> {
    match o {
        Some(p) => Some(p@),
        None => None,
    }
}

fn fresh_delta(id: DeviceId) -> (r: DeviceDelta)
    ensures
        r@ == fresh(id@).delta,
{
    DeviceDelta { id, removed: false, target: None, rule_text: None, attrs: DeviceAttributes::empty() }
}

fn merge_exec(old: Option<Pending>, signal: DeviceSignal) -> (r: Pending)
    requires
        old matches Some(p) ==> p@.delta.id == signal_id(signal@),
    ensures
        r@ == merge_signal(
            opt_view(old),
            signal@,
        ),
{
    match signal {
        DeviceSignal::Presence { id, event: DeviceEvent::Remove, .. } => {
            let mut delta = fresh_delta(id);
            delta.removed = true;
            Pending { delta, policy_decided: false }
        },
        DeviceSignal::Presence { id, target, rule, attrs, .. } => {
            let mut entry = live_exec(old, id);
            if !entry.policy_decided {
                entry.delta.target = Some(target);
            }
            entry.delta.rule_text = Some(rule);
            entry.delta.attrs.merge_from(attrs);
            entry
        },
        DeviceSignal::Policy { id, target, rule, attrs } => {
            let mut entry = live_exec(old, id);
            entry.delta.target = Some(target);
            entry.policy_decided = true;
            entry.delta.rule_text = Some(rule);
            entry.delta.attrs.merge_from(attrs);
            entry
        },
    }
}

fn live_exec(old: Option<Pending>, id: DeviceId) -> (r: Pending)
    requires
        old matches Some(p) ==> p@.delta.id == id@,
    ensures
        r@ == live(
            opt_view(old),
            id@,
        ),
        !r@.delta.removed,
{
    match old {
        Some(p) => if p.delta.removed {
            Pending { delta: fresh_delta(id), policy_decided: false }
        } else {
            p
        },
        None => Pending { delta: fresh_delta(id), policy_decided: false },
    }
}

/// Exchanges the element at `i` with `x`.
fn vec_swap_at<T>(v: &mut Vec<T>, i: usize, x: &mut T)
    requires
        i < old(v)@.len(),
    ensures
        final(v)@ == old(v)@.update(i as int, *old(x)),
        *final(x) == old(v)@[i as int],
{
    let t = v.remove(i);
    let mut t = t;
    std::mem::swap(&mut t, x);
    v.insert(i, t);
    assert(final(v)@ =~= old(v)@.update(i as int, *old(x)));
}

fn vec_insert_at<T>(v: &mut Vec<T>, i: usize, x: T)
    requires
        i <= old(v)@.len(),
    ensures
        final(v)@ == old(v)@.insert(i as int, x),
{
    v.insert(i, x);
}

proof fn lemma_find_at(s: Seq<SpecPending>, id: u32, i: int, found: bool)
    requires
        ordered(s),
        0 <= i <= s.len(),
        forall|j: int| 0 <= j < i ==> s[j].delta.id < id,
        found ==> i < s.len() && s[i].delta.id == id,
        !found ==> (i < s.len() ==> s[i].delta.id > id),
    ensures
        find(s, id) == if found {
            Some(s[i])
        } else {
            None::<SpecPending>
        },
    decreases s.len(),
{
    if s.len() > 0 {
        if s[0].delta.id == id {
            if !found && i > 0 {
                assert(s[0].delta.id < id);
            }
            if found && i > 0 {
                assert(s[0].delta.id < s[i].delta.id);
            }
        } else {
            let t = s.drop_first();
            assert(ordered(t)) by {
                assert forall|a: int, b: int| 0 <= a < b < t.len() implies t[a].delta.id < t[b].delta.id by {
                    assert(s[a + 1].delta.id < s[b + 1].delta.id);
                }
            }
            if i == 0 {
                if !found {
                    assert forall|j: int| 0 <= j < t.len() implies t[j].delta.id > id by {
                        assert(s[0].delta.id < s[j + 1].delta.id);
                    }
                    lemma_find_none(t, id);
                }
            } else {
                lemma_find_at(t, id, i - 1, found);
            }
        }
    }
}

proof fn lemma_insert_ordered(s: Seq<SpecPending>, i: int, e: SpecPending)
    requires
        ordered(s),
        0 <= i <= s.len(),
        forall|j: int| 0 <= j < i ==> s[j].delta.id < e.delta.id,
        i < s.len() ==> s[i].delta.id > e.delta.id,
    ensures
        ordered(s.insert(i, e)),
{
    let after = s.insert(i, e);
    assert forall|a: int, b: int| 0 <= a < b < after.len() implies after[a].delta.id < after[b].delta.id by {
        if b < i {
        } else if a < i && b == i {
        } else if a < i {
            assert(after[b] == s[b - 1]);
        } else if a == i {
            assert(after[b] == s[b - 1]);
            if b - 1 > i {
                assert(s[i].delta.id < s[b - 1].delta.id);
            }
        } else {
            assert(after[a] == s[a - 1]);
            assert(after[b] == s[b - 1]);
        }
    }
}

proof fn lemma_find_none(s: Seq<SpecPending>, id: u32)
    requires
        forall|j: int| 0 <= j < s.len() ==> s[j].delta.id != id,
    ensures
        find(s, id) is None,
    decreases s.len(),
{
    if s.len() > 0 {
        lemma_find_none(s.drop_first(), id);
    }
}

proof fn lemma_put_replace(s: Seq<SpecPending>, i: int, e: SpecPending)
    requires
        ordered(s),
        0 <= i < s.len(),
        s[i].delta.id == e.delta.id,
    ensures
        put(s, e) == s.update(i, e),
    decreases s.len(),
{
    if i == 0 {
        assert(seq![e] + s.drop_first() =~= s.update(0, e));
    } else {
        assert(s[0].delta.id < s[i].delta.id);
        let t = s.drop_first();
        assert(ordered(t)) by {
            assert forall|a: int, b: int| 0 <= a < b < t.len() implies t[a].delta.id < t[b].delta.id by {
                assert(s[a + 1].delta.id < s[b + 1].delta.id);
            }
        }
        lemma_put_replace(t, i - 1, e);
        assert(seq![s[0]] + t.update(i - 1, e) =~= s.update(i, e));
    }
}

proof fn lemma_put_insert(s: Seq<SpecPending>, i: int, e: SpecPending)
    requires
        0 <= i <= s.len(),
        forall|j: int| 0 <= j < i ==> s[j].delta.id < e.delta.id,
        i < s.len() ==> s[i].delta.id > e.delta.id,
    ensures
        put(s, e) == s.insert(i, e),
    decreases s.len(),
{
    if s.len() == 0 {
        assert(seq![e] =~= s.insert(i, e));
    } else if i == 0 {
        assert(seq![e] + s =~= s.insert(0, e));
    } else {
        let t = s.drop_first();
        lemma_put_insert(t, i - 1, e);
        assert(seq![s[0]] + t.insert(i - 1, e) =~= s.insert(i, e));
    }
}

/// A removal supersedes any pending delta for that device: whatever was
/// pending, the device leaves the window as a bare removal.
pub proof fn lemma_removal_supersedes(old: Option<SpecPending>, s: SpecSignal)
    requires
        s matches SpecSignal::Presence { event, .. } && event is Remove,
    ensures
        merge_signal(old, s).delta.removed,
        merge_signal(old, s).delta.target is None,
        merge_signal(old, s).delta.rule_text is None,
        merge_signal(old, s).delta.attrs == no_attributes(),
        !merge_signal(old, s).policy_decided,
{
}

/// A policy target supersedes a presence target: once a policy decision is
/// pending, later presence signals keep its target.
pub proof fn lemma_policy_target_sticks(p: SpecPending, s: SpecSignal)
    requires
        p.policy_decided,
        !p.delta.removed,
        s matches SpecSignal::Presence { event, .. } && !(event is Remove),
    ensures
        merge_signal(Some(p), s).delta.target == p.delta.target,
        merge_signal(Some(p), s).policy_decided,
{
}

/// An id that reappears after a removal in the same window is a new device:
/// nothing of the removed one carries over.
pub proof fn lemma_reappearance_is_new(p: SpecPending, s: SpecSignal)
    requires
        p.delta.removed,
    ensures
        merge_signal(Some(p), s) == merge_signal(None, s),
{
}

/// Attribute maps accumulate, later keys winning.
pub proof fn lemma_attributes_accumulate(p: SpecPending, s: SpecSignal)
    requires
        !p.delta.removed,
    ensures
        s matches SpecSignal::Presence { event, attrs, .. } ==> (event is Remove || merge_signal(
            Some(p),
            s,
        ).delta.attrs == merged(p.delta.attrs, attrs)),
        s matches SpecSignal::Policy { attrs, .. } ==> merge_signal(Some(p), s).delta.attrs == merged(
            p.delta.attrs,
            attrs,
        ),
{
}

/// Reading back a push: the entry for the signal's device is what the merge
/// gives, and every other device's entry is unchanged.
pub proof fn lemma_put_find(s: Seq<SpecPending>, e: SpecPending, id: u32)
    ensures
        find(put(s, e), id) == if id == e.delta.id {
            Some(e)
        } else {
            find(s, id)
        },
    decreases s.len(),
{
    let t = put(s, e);
    if s.len() == 0 {
        assert(t == seq![e]);
        assert(t[0] == e);
        assert(t.drop_first() =~= Seq::<SpecPending>::empty());
    } else if s[0].delta.id == e.delta.id {
        assert(t == seq![e] + s.drop_first());
        assert(t.drop_first() =~= s.drop_first());
        assert(t[0] == e);
    } else if s[0].delta.id > e.delta.id {
        assert(t == seq![e] + s);
        assert(t.drop_first() =~= s);
        assert(t[0] == e);
    } else {
        lemma_put_find(s.drop_first(), e, id);
        assert(t == seq![s[0]] + put(s.drop_first(), e));
        assert(t.drop_first() =~= put(s.drop_first(), e));
        assert(t[0] == s[0]);
    }
    assert(t.len() > 0);
    assert(find(t, id) == if t[0].delta.id == id {
        Some(t[0])
    } else {
        find(t.drop_first(), id)
    });
}

/// The flush deadline: never more than the quiet window, and never past the
/// latency ceiling counted from the window's first event.
pub proof fn lemma_budget_within_ceiling(start: u64, now: u64)
    ensures
        spec_budget(start, now) <= QUIET_WINDOW,
        now >= start && now - start <= MAX_LATENCY ==> (now - start) + spec_budget(start, now) <= MAX_LATENCY,
        now >= start && now - start >= MAX_LATENCY ==> spec_budget(start, now) == 0,
{
}

} // verus!
