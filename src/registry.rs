//! The device registry: every device that ever authenticated, whether it is
//! online, and when it was last heard from.
use vstd::prelude::*;

verus! {

/// A known device. Times are milliseconds since the Unix epoch.
#[derive(Clone, Debug, PartialEq, Eq)]
pub struct Device {
    pub id: String,
    pub name: String,
    pub model: String,
    pub android_version: String,
    pub api_level: i32,
    pub architecture: String,
    /// JSON text of the capabilities the device reported.
    pub device_info: String,
    /// JSON text of operator-supplied metadata.
    pub user_data: String,
    pub last_seen: i64,
    pub created_at: i64,
}

pub struct DeviceModel {
    pub id: Seq<char>,
    pub name: Seq<char>,
    pub model: Seq<char>,
    pub android_version: Seq<char>,
    pub api_level: i32,
    pub architecture: Seq<char>,
    pub device_info: Seq<char>,
    pub user_data: Seq<char>,
    pub last_seen: i64,
    pub created_at: i64,
}

impl View for Device {
    type V = DeviceModel;

    open spec fn view(&self) -> DeviceModel {
        DeviceModel {
            id: self.id@,
            name: self.name@,
            model: self.model@,
            android_version: self.android_version@,
            api_level: self.api_level,
            architecture: self.architecture@,
            device_info: self.device_info@,
            user_data: self.user_data@,
            last_seen: self.last_seen,
            created_at: self.created_at,
        }
    }
}

impl Device {
    /// A device known only by its identifier, first seen at `now`.
    pub fn unnamed(id: String, now: i64) -> (r: Device)
        ensures
            r@ == (DeviceModel {
                id: id@,
                name: id@,
                model: Seq::empty(),
                android_version: Seq::empty(),
                api_level: 0,
                architecture: Seq::empty(),
                device_info: "{}"@,
                user_data: "{}"@,
                last_seen: now,
                created_at: now,
            }),
    {
        Device {
            name: id.clone(),
            id,
            model: String::new(),
            android_version: String::new(),
            api_level: 0,
            architecture: String::new(),
            device_info: "{}".to_owned(),
            user_data: "{}".to_owned(),
            last_seen: now,
            created_at: now,
        }
    }

    /// A copy of this device.
    pub fn duplicate(&self) -> (r: Device)
        ensures
            r@ == self@,
    {
        Device {
            id: self.id.clone(),
            name: self.name.clone(),
            model: self.model.clone(),
            android_version: self.android_version.clone(),
            api_level: self.api_level,
            architecture: self.architecture.clone(),
            device_info: self.device_info.clone(),
            user_data: self.user_data.clone(),
            last_seen: self.last_seen,
            created_at: self.created_at,
        }
    }
}

pub struct Entry {
    pub device: Device,
    pub online: bool,
}

pub struct EntryModel {
    pub device: DeviceModel,
    pub online: bool,
}

impl View for Entry {
    type V = EntryModel;

    open spec fn view(&self) -> EntryModel {
        EntryModel { device: self.device@, online: self.online }
    }
}

pub open spec fn max_i64(a: i64, b: i64) -> i64 {
    if a < b {
        b
    } else {
        a
    }
}

pub open spec fn index_of_device(es: Seq<EntryModel>, id: Seq<char>, i: int) -> bool {
    0 <= i < es.len() && es[i].device.id == id
}

pub open spec fn knows(es: Seq<EntryModel>, id: Seq<char>) -> bool {
    exists|i: int| #[trigger] index_of_device(es, id, i)
}

pub open spec fn online_in(es: Seq<EntryModel>, id: Seq<char>) -> bool {
    exists|i: int| #[trigger] index_of_device(es, id, i) && es[i].online
}

/// The online devices, in registration order.
pub open spec fn online_devices(es: Seq<EntryModel>) -> Seq<DeviceModel>
    decreases es.len(),
{
    if es.len() == 0 {
        Seq::empty()
    } else {
        let rest = online_devices(es.drop_last());
        if es.last().online {
            rest.push(es.last().device)
        } else {
            rest
        }
    }
}

/// The record kept for `d` when it replaces `prev` at `now`: everything from
/// `d`, but the creation time of `prev` and a last-seen time that never goes back.
pub open spec fn replaced(prev: DeviceModel, d: DeviceModel, now: i64) -> DeviceModel {
    DeviceModel {
        created_at: prev.created_at,
        last_seen: max_i64(prev.last_seen, now),
        ..d
    }
}

pub open spec fn ids_unique(es: Seq<EntryModel>) -> bool {
    forall|i: int, j: int|
        0 <= i < j < es.len() ==> #[trigger] es[i].device.id != #[trigger] es[j].device.id
}

/// The position of the device named `id`, where it is known.
pub open spec fn pos(es: Seq<EntryModel>, id: Seq<char>) -> int {
    choose|i: int| #[trigger] index_of_device(es, id, i)
}

pub proof fn lemma_pos(es: Seq<EntryModel>, id: Seq<char>, i: int)
    requires
        ids_unique(es),
        index_of_device(es, id, i),
    ensures
        pos(es, id) == i,
{
    let j = pos(es, id);
    assert(index_of_device(es, id, j));
    if j < i {
        assert(es[j].device.id != es[i].device.id);
    } else if i < j {
        assert(es[i].device.id != es[j].device.id);
    }
}

/// Marking one device offline leaves every other device's status alone.
pub proof fn lemma_offlined_keeps(es: Seq<EntryModel>, d: Seq<char>, other: Seq<char>)
    requires
        ids_unique(es),
        !online_in(es, d),
    ensures
        !online_in(offlined(es, other), d),
{
    let f = offlined(es, other);
    if knows(es, other) {
        let i = pos(es, other);
        assert(index_of_device(es, other, i));
        assert forall|j: int| #[trigger] index_of_device(f, d, j) implies !f[j].online by {
            if j != i {
                assert(index_of_device(es, d, j));
            }
        }
    }
}

/// Some online entry of `es` holds `d`.
pub open spec fn has_online_entry(es: Seq<EntryModel>, d: DeviceModel) -> bool {
    exists|k: int| 0 <= k < es.len() && es[k].online && #[trigger] es[k].device == d
}

/// The online list holds exactly the devices of online entries.
pub proof fn lemma_online_devices_members(es: Seq<EntryModel>)
    ensures
        forall|i: int|
            0 <= i < online_devices(es).len() ==> has_online_entry(es, #[trigger] online_devices(es)[i]),
        forall|k: int| 0 <= k < es.len() && es[k].online ==> online_devices(es).contains(#[trigger] es[k].device),
    decreases es.len(),
{
    if es.len() > 0 {
        let p = es.drop_last();
        lemma_online_devices_members(p);
        let od = online_devices(es);
        let op = online_devices(p);
        assert forall|i: int| 0 <= i < od.len() implies has_online_entry(es, #[trigger] od[i]) by {
            if i < op.len() {
                assert(od[i] == op[i]);
                assert(has_online_entry(p, op[i]));
                let k = choose|k: int| 0 <= k < p.len() && p[k].online && #[trigger] p[k].device == op[i];
                assert(es[k] == p[k]);
                assert(0 <= k < es.len() && es[k].online && es[k].device == od[i]);
            } else {
                let k = es.len() - 1;
                assert(es.last().online);
                assert(es[k].device == od[i]);
                assert(0 <= k < es.len() && es[k].online && es[k].device == od[i]);
            }
        }
        assert forall|k: int| 0 <= k < es.len() && es[k].online implies od.contains(#[trigger] es[k].device) by {
            if k < p.len() {
                assert(p[k] == es[k]);
                assert(op.contains(p[k].device));
                let j = choose|j: int| 0 <= j < op.len() && op[j] == p[k].device;
                assert(od[j] == op[j]);
            } else {
                assert(od[od.len() - 1] == es[k].device);
            }
        }
    }
}

/// Marking `dev` offline clears the online flag of its entry and of no other.
pub proof fn lemma_offlined_at(es: Seq<EntryModel>, dev: Seq<char>)
    requires
        ids_unique(es),
    ensures
        offlined(es, dev) == Seq::new(
            es.len(),
            |k: int|
                if es[k].device.id == dev {
                    EntryModel { online: false, ..es[k] }
                } else {
                    es[k]
                },
        ),
{
    let f = Seq::new(
        es.len(),
        |k: int|
            if es[k].device.id == dev {
                EntryModel { online: false, ..es[k] }
            } else {
                es[k]
            },
    );
    if knows(es, dev) {
        let i = pos(es, dev);
        assert(index_of_device(es, dev, i));
        assert forall|k: int| 0 <= k < es.len() implies offlined(es, dev)[k] == f[k] by {
            if k != i && es[k].device.id == dev {
                if k < i {
                    assert(es[k].device.id != es[i].device.id);
                } else {
                    assert(es[i].device.id != es[k].device.id);
                }
            }
        }
    } else {
        assert forall|k: int| 0 <= k < es.len() implies offlined(es, dev)[k] == f[k] by {
            assert(!index_of_device(es, dev, k));
        }
    }
    assert(offlined(es, dev) =~= f);
}

/// A device marked offline is offline.
pub proof fn lemma_offlined_offline(es: Seq<EntryModel>, dev: Seq<char>)
    requires
        ids_unique(es),
    ensures
        !online_in(offlined(es, dev), dev),
{
    let f = offlined(es, dev);
    if knows(es, dev) {
        let i = pos(es, dev);
        assert(index_of_device(es, dev, i));
        assert forall|j: int| #[trigger] index_of_device(f, dev, j) implies !f[j].online by {
            if j != i {
                assert(index_of_device(es, dev, j));
                if j < i {
                    assert(es[j].device.id != es[i].device.id);
                } else {
                    assert(es[i].device.id != es[j].device.id);
                }
            }
        }
    } else {
        assert forall|j: int| #[trigger] index_of_device(f, dev, j) implies !f[j].online by {
            assert(index_of_device(es, dev, j));
        }
    }
}

/// The registry after `d` is recorded as online at `now` (see `upsert`).
pub open spec fn upserted(es: Seq<EntryModel>, d: DeviceModel, now: i64) -> Seq<EntryModel> {
    if knows(es, d.id) {
        let i = pos(es, d.id);
        es.update(i, EntryModel { device: replaced(es[i].device, d, now), online: true })
    } else {
        es.push(EntryModel { device: DeviceModel { last_seen: now, created_at: now, ..d }, online: true })
    }
}

/// The registry after a sign of life from `id` at `now` (see `touch`).
pub open spec fn touched(es: Seq<EntryModel>, id: Seq<char>, now: i64) -> Seq<EntryModel> {
    if knows(es, id) {
        let i = pos(es, id);
        es.update(
            i,
            EntryModel {
                device: DeviceModel { last_seen: max_i64(es[i].device.last_seen, now), ..es[i].device },
                online: true,
            },
        )
    } else {
        es
    }
}

/// The registry after `id` is marked offline.
pub open spec fn offlined(es: Seq<EntryModel>, id: Seq<char>) -> Seq<EntryModel> {
    if knows(es, id) {
        let i = pos(es, id);
        es.update(i, EntryModel { online: false, ..es[i] })
    } else {
        es
    }
}

/// Every device that has authenticated, in the order they first did.
pub struct DeviceRegistry {
    entries: Vec<Entry>,
}

impl View for DeviceRegistry {
    type V = Seq<EntryModel>;

    closed spec fn view(&self) -> Seq<EntryModel> {
        self.entries@.map_values(|e: Entry| e@)
    }
}

impl DeviceRegistry {
    /// Identifiers are unique.
    pub open spec fn wf(&self) -> bool {
        ids_unique(self@)
    }

    pub fn new() -> (r: DeviceRegistry)
        ensures
            r@ == Seq::<EntryModel>::empty(),
            r.wf(),
    {
        let r = DeviceRegistry { entries: Vec::new() };
        assert(r@ =~= Seq::<EntryModel>::empty());
        r
    }

    pub fn len(&self) -> (r: usize)
        ensures
            r == self@.len(),
    {
        self.entries.len()
    }

    /// The device at position `i` and whether it is online.
    pub fn entry_at(&self, i: usize) -> (r: (&Device, bool))
        requires
            i < self@.len(),
        ensures
            r.0@ == self@[i as int].device,
            r.1 == self@[i as int].online,
    {
        assert(self@[i as int] == self.entries[i as int]@);
        (&self.entries[i].device, self.entries[i].online)
    }

    /// The position of the device named `id`.
    pub fn find(&self, id: &str) -> (r: Option<usize>)
        ensures
            match r {
                Some(i) => index_of_device(self@, id@, i as int),
                None => !knows(self@, id@),
            },
    {
        let ghost es = self@;
        let mut i: usize = 0;
        while i < self.entries.len()
            invariant
                i <= self.entries.len(),
                es == self@,
                es.len() == self.entries.len(),
                forall|j: int| 0 <= j < i ==> !#[trigger] index_of_device(es, id@, j),
            decreases self.entries.len() - i,
        {
            assert(es[i as int] == self.entries[i as int]@);
            let t = id.to_owned();
            if self.entries[i].device.id == t {
                return Some(i);
            }
            i = i + 1;
        }
        None
    }

    /// The device named `id`.
    pub fn get(&self, id: &str) -> (r: Option<&Device>)
        ensures
            match r {
                Some(d) => exists|i: int|
                    #[trigger] index_of_device(self@, id@, i) && self@[i].device == d@,
                None => !knows(self@, id@),
            },
    {
        match self.find(id) {
            Some(i) => {
                assert(self@[i as int] == self.entries[i as int]@);
                Some(&self.entries[i].device)
            },
            None => None,
        }
    }

    /// Whether the device named `id` is online.
    pub fn is_online(&self, id: &str) -> (r: bool)
        requires
            self.wf(),
        ensures
            r == online_in(self@, id@),
    {
        match self.find(id) {
            Some(i) => {
                assert(self@[i as int] == self.entries[i as int]@);
                self.entries[i].online
            },
            None => false,
        }
    }

    /// Records `device` as online at `now`: a new device is added as given; a
    /// known one is replaced by it, keeping its creation time, and its last-seen
    /// time moves to `now` unless it was later already.
    pub fn upsert(&mut self, device: Device, now: i64)
        requires
            old(self).wf(),
        ensures
            final(self).wf(),
            final(self)@ == upserted(old(self)@, device@, now),
    {
        let ghost es = self@;
        let ghost d0 = device@;
        let mut device = device;
        match self.find(device.id.as_str()) {
            Some(i) => {
                proof {
                    lemma_pos(es, d0.id, i as int);
                }
                assert(es[i as int] == self.entries[i as int]@);
                let prev_seen = self.entries[i].device.last_seen;
                device.created_at = self.entries[i].device.created_at;
                device.last_seen = if prev_seen < now {
                    now
                } else {
                    prev_seen
                };
                self.entries.set(i, Entry { device, online: true });
                assert(self@ =~= es.update(
                    i as int,
                    EntryModel { device: device@, online: true },
                ));
            },
            None => {
                device.last_seen = now;
                device.created_at = now;
                self.entries.push(Entry { device, online: true });
                assert(self@ =~= es.push(EntryModel { device: device@, online: true }));
                assert forall|j: int| 0 <= j < es.len() implies es[j].device.id != device@.id by {
                    assert(!index_of_device(es, device@.id, j));
                }
            },
        }
    }

    /// Records a sign of life from the device named `id` at `now`: it is online
    /// and its last-seen time moves to `now` unless it was later already.
    /// Returns whether the device is known; an unknown one changes nothing.
    pub fn touch(&mut self, id: &str, now: i64) -> (r: bool)
        requires
            old(self).wf(),
        ensures
            final(self).wf(),
            r == knows(old(self)@, id@),
            !r ==> final(self)@ == old(self)@,
            final(self)@ == touched(old(self)@, id@, now),
    {
        let ghost es = self@;
        match self.find(id) {
            Some(i) => {
                proof {
                    lemma_pos(es, id@, i as int);
                }
                assert(es[i as int] == self.entries[i as int]@);
                let mut d = self.entries[i].device.duplicate();
                if d.last_seen < now {
                    d.last_seen = now;
                }
                self.entries.set(i, Entry { device: d, online: true });
                assert(self@ =~= es.update(i as int, EntryModel { device: d@, online: true }));
                true
            },
            None => false,
        }
    }

    /// Marks the device named `id` offline. Returns whether it is known; an
    /// unknown one changes nothing.
    pub fn mark_offline(&mut self, id: &str) -> (r: bool)
        requires
            old(self).wf(),
        ensures
            final(self).wf(),
            r == knows(old(self)@, id@),
            !r ==> final(self)@ == old(self)@,
            final(self)@ == offlined(old(self)@, id@),
            !online_in(final(self)@, id@),
    {
        let ghost es = self@;
        match self.find(id) {
            Some(i) => {
                proof {
                    lemma_pos(es, id@, i as int);
                }
                assert(es[i as int] == self.entries[i as int]@);
                let d = self.entries[i].device.duplicate();
                self.entries.set(i, Entry { device: d, online: false });
                assert(self@ =~= es.update(i as int, EntryModel { online: false, ..es[i as int] }));
                assert forall|j: int| #[trigger] index_of_device(self@, id@, j) implies !self@[j].online by {
                    if j != i {
                        assert(es[j].device.id != es[i as int].device.id);
                    }
                }
                true
            },
            None => false,
        }
    }

    /// The online devices, in registration order.
    pub fn list_online(&self) -> (r: Vec<Device>)
        ensures
            r@.map_values(|d: Device| d@) == online_devices(self@),
    {
        let ghost es = self@;
        let mut r: Vec<Device> = Vec::new();
        let mut i: usize = 0;
        while i < self.entries.len()
            invariant
                i <= self.entries.len(),
                es == self@,
                es.len() == self.entries.len(),
                r@.map_values(|d: Device| d@) == online_devices(es.subrange(0, i as int)),
            decreases self.entries.len() - i,
        {
            assert(es.subrange(0, i + 1).drop_last() =~= es.subrange(0, i as int));
            assert(es[i as int] == self.entries[i as int]@);
            if self.entries[i].online {
                let ghost before = r@;
                r.push(self.entries[i].device.duplicate());
                assert(r@.map_values(|d: Device| d@) =~= before.map_values(|d: Device| d@).push(
                    es[i as int].device,
                ));
            }
            i = i + 1;
        }
        assert(es.subrange(0, es.len() as int) =~= es);
        r
    }
}

} // verus!
