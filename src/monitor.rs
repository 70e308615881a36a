//! The monitor: the latest telemetry sample of each watched device, replaced
//! (never appended) on each refresh, and read as one snapshot.
use vstd::prelude::*;

use crate::sys::subsec_nanos;

verus! {

/// One telemetry sample. Utilisations and battery are whole percentages;
/// `last_update` is in milliseconds since the Unix epoch.
#[derive(Clone, Debug, PartialEq, Eq)]
pub struct DeviceStats {
    pub device_id: String,
    pub cpu_usage: u8,
    pub memory_usage: u8,
    pub storage_usage: u8,
    pub battery_level: u8,
    pub last_update: i64,
}

pub struct StatsModel {
    pub device_id: Seq<char>,
    pub cpu_usage: u8,
    pub memory_usage: u8,
    pub storage_usage: u8,
    pub battery_level: u8,
    pub last_update: i64,
}

impl View for DeviceStats {
    type V = StatsModel;

    open spec fn view(&self) -> StatsModel {
        StatsModel {
            device_id: self.device_id@,
            cpu_usage: self.cpu_usage,
            memory_usage: self.memory_usage,
            storage_usage: self.storage_usage,
            battery_level: self.battery_level,
            last_update: self.last_update,
        }
    }
}

impl StatsModel {
    /// Every percentage lies in 0..=100.
    pub open spec fn in_range(self) -> bool {
        self.cpu_usage <= 100 && self.memory_usage <= 100 && self.storage_usage <= 100
            && self.battery_level <= 100
    }
}

impl DeviceStats {
    /// A copy of this sample.
    pub fn duplicate(&self) -> (r: DeviceStats)
        ensures
            r@ == self@,
    {
        DeviceStats {
            device_id: self.device_id.clone(),
            cpu_usage: self.cpu_usage,
            memory_usage: self.memory_usage,
            storage_usage: self.storage_usage,
            battery_level: self.battery_level,
            last_update: self.last_update,
        }
    }
}

/// The percentage that `nanos` nanoseconds make of a second, leap nanoseconds
/// wrapped into the second.
pub open spec fn percent_of_nanos(nanos: u32) -> int {
    (nanos % 1_000_000_000) as int / 10_000_000
}

/// The whole percentage that a sub-second clock reading makes of a second.
pub fn percent_from_nanos(nanos: u32) -> (r: u8)
    ensures
        r == percent_of_nanos(nanos),
        r < 100,
{
    ((nanos % 1_000_000_000) / 10_000_000) as u8
}

/// A rough pseudo-random percentage in 0..100, read off the clock.
pub fn random() -> (r: u8)
    ensures
        r < 100,
{
    percent_from_nanos(subsec_nanos())
}

/// A stand-in sample for a device whose own telemetry is not available.
pub fn fetch_device_info(device_id: String, now: i64) -> (r: DeviceStats)
    ensures
        r@.device_id == device_id@,
        r@.last_update == now,
        r@.in_range(),
        r@.cpu_usage < 100 && r@.memory_usage < 100 && r@.storage_usage < 100 && r@.battery_level < 100,
{
    DeviceStats {
        device_id,
        cpu_usage: random(),
        memory_usage: random(),
        storage_usage: random(),
        battery_level: random(),
        last_update: now,
    }
}

pub open spec fn stats_at(ss: Seq<StatsModel>, id: Seq<char>, i: int) -> bool {
    0 <= i < ss.len() && ss[i].device_id == id
}

pub open spec fn has_stats(ss: Seq<StatsModel>, id: Seq<char>) -> bool {
    exists|i: int| #[trigger] stats_at(ss, id, i)
}

pub open spec fn stats_pos(ss: Seq<StatsModel>, id: Seq<char>) -> int {
    choose|i: int| #[trigger] stats_at(ss, id, i)
}

pub open spec fn stats_unique(ss: Seq<StatsModel>) -> bool {
    forall|i: int, j: int|
        0 <= i < j < ss.len() ==> #[trigger] ss[i].device_id != #[trigger] ss[j].device_id
}

/// The entry of `id` in the table, if any.
pub open spec fn entry_of(ss: Seq<StatsModel>, id: Seq<char>) -> Option<StatsModel> {
    if has_stats(ss, id) {
        Some(ss[stats_pos(ss, id)])
    } else {
        None
    }
}

/// The table after `s` arrives: it replaces the entry of its device unless
/// that entry is newer, and is added when the device has none.
pub open spec fn recorded(ss: Seq<StatsModel>, s: StatsModel) -> Seq<StatsModel> {
    if has_stats(ss, s.device_id) {
        let i = stats_pos(ss, s.device_id);
        if ss[i].last_update <= s.last_update {
            ss.update(i, s)
        } else {
            ss
        }
    } else {
        ss.push(s)
    }
}

pub proof fn lemma_stats_pos(ss: Seq<StatsModel>, id: Seq<char>, i: int)
    requires
        stats_unique(ss),
        stats_at(ss, id, i),
    ensures
        stats_pos(ss, id) == i,
{
    let j = stats_pos(ss, id);
    assert(stats_at(ss, id, j));
    if j < i {
        assert(ss[j].device_id != ss[i].device_id);
    } else if i < j {
        assert(ss[i].device_id != ss[j].device_id);
    }
}

/// Recording keeps one entry per device.
pub proof fn lemma_recorded_unique(ss: Seq<StatsModel>, s: StatsModel)
    requires
        stats_unique(ss),
    ensures
        stats_unique(recorded(ss, s)),
        has_stats(recorded(ss, s), s.device_id),
{
    if has_stats(ss, s.device_id) {
        let i = stats_pos(ss, s.device_id);
        assert(stats_at(ss, s.device_id, i));
        assert(stats_at(recorded(ss, s), s.device_id, i));
    } else {
        let r = ss.push(s);
        assert forall|j: int| 0 <= j < ss.len() implies r[j].device_id != s.device_id by {
            assert(!stats_at(ss, s.device_id, j));
        }
        assert(stats_at(r, s.device_id, ss.len() as int));
    }
}

/// Of two samples of one device, the later one is what the table shows
/// afterwards, whole and in whichever order they arrive; no field of the
/// earlier one survives.
pub proof fn lemma_later_sample_wins(ss: Seq<StatsModel>, early: StatsModel, late: StatsModel)
    requires
        stats_unique(ss),
        early.device_id == late.device_id,
        early.last_update < late.last_update,
        match entry_of(ss, late.device_id) {
            Some(e) => e.last_update <= late.last_update,
            None => true,
        },
    ensures
        entry_of(recorded(recorded(ss, early), late), late.device_id) == Some(late),
        entry_of(recorded(recorded(ss, late), early), late.device_id) == Some(late),
{
    let id = late.device_id;
    lemma_recorded_unique(ss, early);
    lemma_recorded_unique(ss, late);
    let a = recorded(ss, early);
    let b = recorded(ss, late);
    lemma_recorded_unique(a, late);
    lemma_recorded_unique(b, early);
    let k: int = if has_stats(ss, id) {
        stats_pos(ss, id)
    } else {
        ss.len() as int
    };
    if has_stats(ss, id) {
        assert(stats_at(ss, id, k));
        lemma_stats_pos(ss, id, k);
    } else {
        assert(stats_at(a, id, k));
        assert(stats_at(b, id, k));
    }
    lemma_stats_pos(a, id, k);
    lemma_stats_pos(b, id, k);
    assert(a[k].last_update <= late.last_update);
    assert(b[k] == late);
    let aa = recorded(a, late);
    let bb = recorded(b, early);
    assert(stats_at(aa, id, k));
    assert(stats_at(bb, id, k));
    lemma_stats_pos(aa, id, k);
    lemma_stats_pos(bb, id, k);
}

/// `ids` without any occurrence of `id`, in order.
pub open spec fn without(ids: Seq<Seq<char>>, id: Seq<char>) -> Seq<Seq<char>>
    decreases ids.len(),
{
    if ids.len() == 0 {
        ids
    } else if ids.last() == id {
        without(ids.drop_last(), id)
    } else {
        without(ids.drop_last(), id).push(ids.last())
    }
}

/// Per-device polling state and the shared table of latest samples.
pub struct DeviceMonitor {
    running: bool,
    watched: Vec<String>,
    stats: Vec<DeviceStats>,
}

impl DeviceMonitor {
    pub closed spec fn is_running(&self) -> bool {
        self.running
    }

    /// The devices whose samples are taken.
    pub closed spec fn tracked_ids(&self) -> Seq<Seq<char>> {
        self.watched@.map_values(|s: String| s@)
    }

    /// The table of latest samples.
    pub closed spec fn table(&self) -> Seq<StatsModel> {
        self.stats@.map_values(|s: DeviceStats| s@)
    }

    /// One entry per device, every percentage in range.
    pub open spec fn wf(&self) -> bool {
        &&& stats_unique(self.table())
        &&& forall|i: int| 0 <= i < self.table().len() ==> (#[trigger] self.table()[i]).in_range()
    }

    pub open spec fn tracks(&self, id: Seq<char>) -> bool {
        self.is_running() && self.tracked_ids().contains(id)
    }

    /// A stopped monitor with an empty table.
    pub fn new() -> (r: DeviceMonitor)
        ensures
            r.wf(),
            !r.is_running(),
            r.tracked_ids() == Seq::<Seq<char>>::empty(),
            r.table() == Seq::<StatsModel>::empty(),
    {
        let r = DeviceMonitor { running: false, watched: Vec::new(), stats: Vec::new() };
        assert(r.tracked_ids() =~= Seq::<Seq<char>>::empty());
        assert(r.table() =~= Seq::<StatsModel>::empty());
        r
    }

    /// Starts polling `devices`. A running monitor is left as it is; returns
    /// whether this call started it.
    pub fn start(&mut self, devices: Vec<String>) -> (r: bool)
        requires
            old(self).wf(),
        ensures
            final(self).wf(),
            r == !old(self).is_running(),
            final(self).is_running(),
            final(self).table() == old(self).table(),
            r ==> final(self).tracked_ids() == devices@.map_values(|s: String| s@),
            !r ==> final(self).tracked_ids() == old(self).tracked_ids(),
    {
        if self.running {
            return false;
        }
        self.running = true;
        self.watched = devices;
        true
    }

    /// Stops all polling; the table stays readable.
    pub fn stop(&mut self)
        requires
            old(self).wf(),
        ensures
            final(self).wf(),
            !final(self).is_running(),
            final(self).tracked_ids() == Seq::<Seq<char>>::empty(),
            final(self).table() == old(self).table(),
    {
        self.running = false;
        self.watched = Vec::new();
        assert(self.tracked_ids() =~= Seq::<Seq<char>>::empty());
    }

    /// Whether the monitor is polling `id`.
    pub fn is_tracking(&self, id: &String) -> (r: bool)
        ensures
            r == self.tracks(id@),
    {
        if !self.running {
            return false;
        }
        let mut i: usize = 0;
        while i < self.watched.len()
            invariant
                self.running,
                i <= self.watched.len(),
                forall|j: int| 0 <= j < i ==> #[trigger] self.tracked_ids()[j] != id@,
            decreases self.watched.len() - i,
        {
            if self.watched[i] == *id {
                assert(self.tracked_ids()[i as int] == id@);
                return true;
            }
            i = i + 1;
        }
        false
    }

    /// Starts polling the newly registered device `id`, unless the monitor is
    /// stopped or polls it already. Returns whether polling started.
    pub fn watch(&mut self, id: String) -> (r: bool)
        requires
            old(self).wf(),
        ensures
            final(self).wf(),
            r == (old(self).is_running() && !old(self).tracks(id@)),
            final(self).is_running() == old(self).is_running(),
            final(self).table() == old(self).table(),
            r ==> final(self).tracked_ids() == old(self).tracked_ids().push(id@),
            !r ==> final(self).tracked_ids() == old(self).tracked_ids(),
            final(self).is_running() ==> final(self).tracks(id@),
    {
        if !self.running || self.is_tracking(&id) {
            return false;
        }
        let ghost before = self.tracked_ids();
        self.watched.push(id);
        assert(self.tracked_ids() =~= before.push(id@));
        assert(self.tracked_ids()[before.len() as int] == id@);
        true
    }

    /// Stops polling `id`, as when its device goes offline.
    pub fn untrack(&mut self, id: &String)
        requires
            old(self).wf(),
        ensures
            final(self).wf(),
            final(self).is_running() == old(self).is_running(),
            final(self).table() == old(self).table(),
            final(self).tracked_ids() == without(old(self).tracked_ids(), id@),
    {
        let ghost old_ids = self.tracked_ids();
        let mut kept: Vec<String> = Vec::new();
        let mut i: usize = 0;
        while i < self.watched.len()
            invariant
                i <= self.watched.len(),
                old_ids == self.tracked_ids(),
                kept@.map_values(|s: String| s@) == without(old_ids.subrange(0, i as int), id@),
            decreases self.watched.len() - i,
        {
            let ghost before = kept@.map_values(|s: String| s@);
            proof {
                assert(old_ids.subrange(0, i + 1) =~= old_ids.subrange(0, i as int).push(
                    old_ids[i as int],
                ));
                assert(old_ids.subrange(0, i + 1).drop_last() =~= old_ids.subrange(0, i as int));
            }
            assert(old_ids[i as int] == self.watched[i as int]@);
            if self.watched[i] != *id {
                kept.push(self.watched[i].clone());
                assert(kept@.map_values(|s: String| s@) =~= before.push(old_ids[i as int]));
            }
            i = i + 1;
        }
        assert(old_ids.subrange(0, old_ids.len() as int) =~= old_ids);
        self.watched = kept;
    }

    /// Writes `sample` into the table, replacing its device's entry unless that
    /// entry is newer.
    pub fn record(&mut self, sample: DeviceStats)
        requires
            old(self).wf(),
            sample@.in_range(),
        ensures
            final(self).wf(),
            final(self).is_running() == old(self).is_running(),
            final(self).tracked_ids() == old(self).tracked_ids(),
            final(self).table() == recorded(old(self).table(), sample@),
    {
        let ghost ss = self.table();
        proof {
            lemma_recorded_unique(ss, sample@);
        }
        match self.find_stats(&sample.device_id) {
            Some(i) => {
                proof {
                    lemma_stats_pos(ss, sample@.device_id, i as int);
                }
                assert(ss[i as int] == self.stats[i as int]@);
                if self.stats[i].last_update <= sample.last_update {
                    self.stats.set(i, sample);
                    assert(self.table() =~= ss.update(i as int, sample@));
                }
            },
            None => {
                self.stats.push(sample);
                assert(self.table() =~= ss.push(sample@));
            },
        }
    }

    /// The position of the entry of `id`.
    fn find_stats(&self, id: &String) -> (r: Option<usize>)
        ensures
            match r {
                Some(i) => stats_at(self.table(), id@, i as int),
                None => !has_stats(self.table(), id@),
            },
    {
        let mut i: usize = 0;
        while i < self.stats.len()
            invariant
                i <= self.stats.len(),
                forall|j: int| 0 <= j < i ==> !#[trigger] stats_at(self.table(), id@, j),
            decreases self.stats.len() - i,
        {
            assert(self.table()[i as int] == self.stats[i as int]@);
            if self.stats[i].device_id == *id {
                return Some(i);
            }
            i = i + 1;
        }
        None
    }

    /// One polling tick for `sample`'s device: recorded only while the monitor
    /// polls that device. Returns whether it was recorded.
    pub fn tick(&mut self, sample: DeviceStats) -> (r: bool)
        requires
            old(self).wf(),
            sample@.in_range(),
        ensures
            final(self).wf(),
            r == old(self).tracks(sample@.device_id),
            final(self).is_running() == old(self).is_running(),
            final(self).tracked_ids() == old(self).tracked_ids(),
            final(self).table() == if r {
                recorded(old(self).table(), sample@)
            } else {
                old(self).table()
            },
    {
        if self.is_tracking(&sample.device_id) {
            self.record(sample);
            true
        } else {
            false
        }
    }

    /// A copy of the whole table, as of now.
    pub fn get_stats(&self) -> (r: Vec<DeviceStats>)
        requires
            self.wf(),
        ensures
            r@.map_values(|s: DeviceStats| s@) == self.table(),
            stats_unique(r@.map_values(|s: DeviceStats| s@)),
            forall|i: int| 0 <= i < r@.len() ==> (#[trigger] r@[i])@.in_range(),
    {
        let mut r: Vec<DeviceStats> = Vec::new();
        let mut i: usize = 0;
        while i < self.stats.len()
            invariant
                i <= self.stats.len(),
                r@.map_values(|s: DeviceStats| s@) == self.table().subrange(0, i as int),
            decreases self.stats.len() - i,
        {
            assert(self.table()[i as int] == self.stats[i as int]@);
            let ghost before = r@.map_values(|s: DeviceStats| s@);
            r.push(self.stats[i].duplicate());
            assert(r@.map_values(|s: DeviceStats| s@) =~= before.push(self.table()[i as int]));
            assert(self.table().subrange(0, i + 1) =~= self.table().subrange(0, i as int).push(
                self.table()[i as int],
            ));
            i = i + 1;
        }
        assert(self.table().subrange(0, self.stats.len() as int) =~= self.table());
        assert forall|i: int| 0 <= i < r@.len() implies (#[trigger] r@[i])@.in_range() by {
            assert(r@.map_values(|s: DeviceStats| s@)[i] == r@[i]@);
        }
        r
    }
}

} // verus!
