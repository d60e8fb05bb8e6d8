//! Announcing newly inserted devices that are not authorized: which devices
//! are new, what the message or the desktop notification says, and which
//! device a notification may still authorize when its button is pressed.

use vstd::prelude::*;
use crate::device_store::{device_views, find_device, id_views, DeviceStore};
use crate::model::device::{Device, SpecDevice};
use crate::model::ids::DeviceId;
use crate::model::target::Target;
use crate::presentation::{display_name, identity, spec_display_name, spec_identity};
use crate::text::{decimal_chars, decimal_string, str_eq, trim_str, trim_white_space};

verus! {

/// The devices of `shown` whose ids are not among `before` and that are not
/// authorized, in the order shown.
pub open spec fn new_unauthorized(before: Seq<u32>, shown: Seq<SpecDevice>) -> Seq<SpecDevice>
    decreases shown.len(),
{
    if shown.len() == 0 {
        Seq::empty()
    } else {
        let rest = new_unauthorized(before, shown.drop_last());
        let d = shown.last();
        if !before.contains(d.id) && d.target != Target::Allow {
            rest.push(d)
        } else {
            rest
        }
    }
}

fn contains_id(ids: &[DeviceId], id: DeviceId) -> (r: bool)
    ensures
        r == id_views(ids@).contains(id@),
{
    let mut i: usize = 0;
    while i < ids.len()
        invariant
            i <= ids@.len(),
            forall|j: int| 0 <= j < i ==> (#[trigger] ids@[j])@ != id@,
        decreases ids@.len() - i,
    {
        if ids[i].get() == id.get() {
            assert(id_views(ids@)[i as int] == id@);
            return true;
        }
        i = i + 1;
    }
    proof {
        if id_views(ids@).contains(id@) {
            let j = choose|j: int| 0 <= j < id_views(ids@).len() && id_views(ids@)[j] == id@;
            assert(ids@[j]@ == id@);
        }
    }
    false
}

/// The devices that appeared since `before` (the ids known then) and are not
/// authorized, in the order `shown` gives them.
pub fn newly_unauthorized(before: &[DeviceId], shown: &[Device]) -> (r: Vec<Device>)
    ensures
        device_views(r@) == new_unauthorized(id_views(before@), device_views(shown@)),
{
    let ghost all = device_views(shown@);
    let ghost ids = id_views(before@);
    let mut out: Vec<Device> = Vec::new();
    let mut i: usize = 0;
    assert(all.subrange(0, 0) =~= Seq::<SpecDevice>::empty());
    assert(device_views(out@) =~= Seq::<SpecDevice>::empty());
    while i < shown.len()
        invariant
            i <= shown@.len(),
            all == device_views(shown@),
            ids == id_views(before@),
            device_views(out@) == new_unauthorized(ids, all.subrange(0, i as int)),
        decreases shown@.len() - i,
    {
        let d = &shown[i];
        proof {
            let sub = all.subrange(0, i + 1);
            assert(sub.drop_last() =~= all.subrange(0, i as int));
            assert(sub.last() == d@);
        }
        if !contains_id(before, d.id) && d.target != Target::Allow {
            let ghost pre = out@;
            out.push(d.duplicate());
            assert(device_views(out@) =~= device_views(pre).push(d@));
        }
        i = i + 1;
    }
    assert(all.subrange(0, i as int) =~= all);
    out
}

/// What a message says of newly inserted devices.
#[derive(Debug)]
pub enum Inserted {
    /// One device, with this name.
    Named(String),
    /// One device, without a name.
    Unnamed,
    /// This many devices (at most `u32::MAX`, which the message's plural
    /// forms count with).
    Many(u32),
}

/// What a message says, as a value.
pub enum SpecInserted {
    /// One device, with this name.
    Named(Seq<char>),
    /// One device, without a name.
    Unnamed,
    /// This many devices.
    Many(nat),
}

impl View for Inserted {
    type V = SpecInserted;

    open spec fn view(&self) -> SpecInserted {
        match self {
            Inserted::Named(n) => SpecInserted::Named(n@),
            Inserted::Unnamed => SpecInserted::Unnamed,
            Inserted::Many(k) => SpecInserted::Many(*k as nat),
        }
    }
}

/// How newly inserted devices are announced.
#[derive(Debug)]
pub enum Announcement {
    /// Not at all.
    Nothing,
    /// With a message in the window, which is in front.
    Message(Inserted),
    /// With a desktop notification.
    Notify,
}

/// How newly inserted devices are announced, as a value.
pub enum SpecAnnouncement {
    /// Not at all.
    Nothing,
    /// With a message.
    Message(SpecInserted),
    /// With a desktop notification.
    Notify,
}

impl View for Announcement {
    type V = SpecAnnouncement;

    open spec fn view(&self) -> SpecAnnouncement {
        match self {
            Announcement::Nothing => SpecAnnouncement::Nothing,
            Announcement::Message(i) => SpecAnnouncement::Message(i@),
            Announcement::Notify => SpecAnnouncement::Notify,
        }
    }
}

/// What the message says of `new`: the one device's trimmed name when it has
/// a name that is not blank, else that there is one device, or how many.
pub open spec fn inserted(new: Seq<SpecDevice>) -> SpecInserted {
    if new.len() == 1 {
        match new[0].attrs.name {
            Some(n) => if trim_white_space(n).len() > 0 {
                SpecInserted::Named(trim_white_space(n))
            } else {
                SpecInserted::Unnamed
            },
            None => SpecInserted::Unnamed,
        }
    } else if new.len() <= u32::MAX {
        SpecInserted::Many(new.len())
    } else {
        SpecInserted::Many(u32::MAX as nat)
    }
}

/// How `new` is announced: not at all when the setting is off or nothing is
/// new; with a message when the window is in front; else with a
/// notification.
pub open spec fn announcement(new: Seq<SpecDevice>, notify_inserted: bool, in_front: bool) -> SpecAnnouncement {
    if !notify_inserted || new.len() == 0 {
        SpecAnnouncement::Nothing
    } else if in_front {
        SpecAnnouncement::Message(inserted(new))
    } else {
        SpecAnnouncement::Notify
    }
}

/// How the devices `new` are announced. `notify_inserted` is the setting;
/// `in_front` is whether the window is visible and active.
pub fn announce(new: &[Device], notify_inserted: bool, in_front: bool) -> (r: Announcement)
    ensures
        r@ == announcement(device_views(new@), notify_inserted, in_front),
{
    if !notify_inserted || new.len() == 0 {
        return Announcement::Nothing;
    }
    if !in_front {
        return Announcement::Notify;
    }
    if new.len() == 1 {
        assert(device_views(new@)[0] == new@[0]@);
        let named = match &new[0].attrs.name {
            Some(n) => {
                let t = trim_str(n.as_str());
                if t.is_empty() {
                    Inserted::Unnamed
                } else {
                    Inserted::Named(String::from_str(t))
                }
            },
            None => Inserted::Unnamed,
        };
        Announcement::Message(named)
    } else {
        let count: u32 = if new.len() <= u32::MAX as usize {
            new.len() as u32
        } else {
            u32::MAX
        };
        Announcement::Message(Inserted::Many(count))
    }
}

/// The names a notification lists, joined by ", ".
pub open spec fn joined(names: Seq<Seq<char>>) -> Seq<char>
    decreases names.len(),
{
    if names.len() == 0 {
        Seq::empty()
    } else if names.len() == 1 {
        names[0]
    } else {
        joined(names.drop_last()) + ", "@ + names.last()
    }
}

/// A desktop notification.
#[derive(Debug)]
pub struct Notification {
    /// Its title.
    pub title: String,
    /// Its text.
    pub body: String,
    /// The device its "Allow for this session" button authorizes, if it has
    /// one.
    pub allow: Option<DeviceId>,
}

/// How many names a notification lists at most.
pub const LISTED_NAMES: usize = 4;

/// The title of the notification for `devices`.
pub open spec fn notification_title(devices: Seq<SpecDevice>) -> Seq<char> {
    if devices.len() == 1 {
        "USB device blocked"@
    } else {
        decimal_chars(devices.len()) + " USB devices blocked"@
    }
}

/// The text of the notification for `devices`: the one device's name, or
/// the first names and how many more.
pub open spec fn notification_body(devices: Seq<SpecDevice>) -> Seq<char> {
    if devices.len() == 1 {
        "“"@ + spec_display_name(devices[0]) + "” was plugged in and is not authorized."@
    } else {
        let listed = if devices.len() < LISTED_NAMES {
            devices.len() as int
        } else {
            LISTED_NAMES as int
        };
        let names = joined(devices.subrange(0, listed).map_values(|d: SpecDevice| spec_display_name(d)));
        let more = devices.len() - listed;
        if more > 0 {
            names + " and "@ + decimal_chars(more as nat) + " more"@
        } else {
            names
        }
    }
}

/// The notification for newly inserted, unauthorized `devices`, none when
/// there are none. The button is offered for a single device, unless the
/// notification server is known not to show buttons (`actions` is what it
/// said, if it was asked).
pub fn notification(devices: &[Device], actions: Option<bool>) -> (r: Option<Notification>)
    ensures
        devices@.len() == 0 <==> r is None,
        r matches Some(n) ==> {
            &&& n.title@ == notification_title(device_views(devices@))
            &&& n.body@ == notification_body(device_views(devices@))
            &&& n.allow == if devices@.len() == 1 && actions != Some(false) {
                Some(devices@[0].id)
            } else {
                None
            }
        },
{
    if devices.len() == 0 {
        return None;
    }
    let ghost ds = device_views(devices@);
    if devices.len() == 1 {
        assert(ds[0] == devices@[0]@);
        let mut body = String::from_str("“");
        let name = display_name(&devices[0]);
        body.append(name.as_str());
        body.append("” was plugged in and is not authorized.");
        let allow = match actions {
            Some(false) => None,
            _ => Some(devices[0].id),
        };
        return Some(Notification { title: String::from_str("USB device blocked"), body, allow });
    }
    let mut title = decimal_string(devices.len() as u128);
    title.append(" USB devices blocked");
    let listed: usize = if devices.len() < LISTED_NAMES {
        devices.len()
    } else {
        LISTED_NAMES
    };
    let ghost names = ds.subrange(0, listed as int).map_values(|d: SpecDevice| spec_display_name(d));
    let mut body = String::new();
    let mut i: usize = 0;
    while i < listed
        invariant
            listed <= devices@.len(),
            i <= listed,
            ds == device_views(devices@),
            names == ds.subrange(0, listed as int).map_values(|d: SpecDevice| spec_display_name(d)),
            body@ == joined(names.subrange(0, i as int)),
        decreases listed - i,
    {
        if i > 0 {
            body.append(", ");
        }
        let name = display_name(&devices[i]);
        body.append(name.as_str());
        proof {
            assert(ds[i as int] == devices@[i as int]@);
            let sub = names.subrange(0, i + 1);
            assert(sub.drop_last() =~= names.subrange(0, i as int));
            assert(sub.last() == spec_display_name(ds[i as int]));
            if i == 0 {
                assert(names.subrange(0, 0) =~= Seq::<Seq<char>>::empty());
            }
        }
        i = i + 1;
    }
    assert(names.subrange(0, listed as int) =~= names);
    let more = devices.len() - listed;
    if more > 0 {
        body.append(" and ");
        let m = decimal_string(more as u128);
        body.append(m.as_str());
        body.append(" more");
    }
    Some(Notification { title, body, allow: None })
}

/// The device a notification offered to authorize, and what identified it
/// then: device ids are recycled, so a late click must not authorize
/// whatever device now holds the id.
pub struct Offers {
    offered: Option<(DeviceId, String)>,
}

impl View for Offers {
    type V = Option<(u32, Seq<char>)>;

    closed spec fn view(&self) -> Option<(u32, Seq<char>)> {
        match self.offered {
            Some((id, t)) => Some((id@, t@)),
            None => None,
        }
    }
}

impl Offers {
    /// Nothing offered.
    pub fn new() -> (r: Self)
        ensures
            r@ is None,
    {
        Offers { offered: None }
    }

    /// A notification for `devices` was sent: it offers the device when
    /// there is only one, and nothing otherwise.
    pub fn announced(&mut self, devices: &[Device])
        ensures
            final(self)@ == if devices@.len() == 1 {
                Some((devices@[0].id@, spec_identity(devices@[0]@)))
            } else {
                None::<(u32, Seq<char>)>
            },
    {
        if devices.len() == 1 {
            self.offered = Some((devices[0].id, identity(&devices[0])));
        } else {
            self.offered = None;
        }
    }

    /// The notification was withdrawn: nothing is offered any more.
    pub fn withdraw(&mut self)
        ensures
            final(self)@ is None,
    {
        self.offered = None;
    }

    /// Whether `device` is still the device the notification offered.
    pub fn still_offered(&self, device: &Device) -> (r: bool)
        ensures
            r == (self@ == Some((device.id@, spec_identity(device@)))),
    {
        match &self.offered {
            Some((id, t)) => {
                let now = identity(device);
                id.get() == device.id.get() && t.eq(&now)
            },
            None => false,
        }
    }
}

impl Offers {
    /// Whether the "Allow for this session" button of a notification may
    /// act on device `id`: the device is still connected, and is still the
    /// device the notification described.
    pub fn may_allow(&self, devices: &DeviceStore, id: DeviceId) -> (r: bool)
        ensures
            r == (find_device(devices.entries(), id@) matches Some(d) && self@ == Some((d.id, spec_identity(d)))),
    {
        match devices.get(id) {
            Some(d) => self.still_offered(&d),
            None => false,
        }
    }
}

/// How many devices there are, and how many are not authorized: the status
/// icon's counts.
pub open spec fn unauthorized_count(devices: Seq<SpecDevice>) -> nat
    decreases devices.len(),
{
    if devices.len() == 0 {
        0
    } else {
        unauthorized_count(devices.drop_last()) + if devices.last().target != Target::Allow {
            1nat
        } else {
            0nat
        }
    }
}

/// The status icon's counts: all devices, and those not authorized.
pub fn tray_counts(devices: &[Device]) -> (r: (usize, usize))
    ensures
        r.0 == devices@.len(),
        r.1 == unauthorized_count(device_views(devices@)),
{
    let ghost ds = device_views(devices@);
    let mut blocked: usize = 0;
    let mut i: usize = 0;
    assert(ds.subrange(0, 0) =~= Seq::<SpecDevice>::empty());
    while i < devices.len()
        invariant
            i <= devices@.len(),
            ds == device_views(devices@),
            blocked == unauthorized_count(ds.subrange(0, i as int)),
            blocked <= i,
        decreases devices@.len() - i,
    {
        proof {
            let sub = ds.subrange(0, i + 1);
            assert(sub.drop_last() =~= ds.subrange(0, i as int));
            assert(sub.last() == devices@[i as int]@);
        }
        if devices[i].target != Target::Allow {
            blocked = blocked + 1;
        }
        i = i + 1;
    }
    assert(ds.subrange(0, i as int) =~= ds);
    (devices.len(), blocked)
}

/// Whether a notification server's capabilities, as `GetCapabilities`
/// lists them, include buttons (`actions`).
pub fn supports_actions(caps: &[String]) -> (r: bool)
    ensures
        r == exists|i: int| 0 <= i < caps@.len() && (#[trigger] caps@[i])@ == "actions"@,
{
    let mut i: usize = 0;
    while i < caps.len()
        invariant
            i <= caps@.len(),
            forall|j: int| 0 <= j < i ==> (#[trigger] caps@[j])@ != "actions"@,
        decreases caps@.len() - i,
    {
        if str_eq(caps[i].as_str(), "actions") {
            return true;
        }
        i = i + 1;
    }
    false
}

} // verus!
