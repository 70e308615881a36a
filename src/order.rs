//! Orderings by time: devices by when they were last seen, logs by when they
//! were written, latest first in both.
use vstd::prelude::*;

use crate::registry::{Device, DeviceModel};
use crate::session::{LogEntry, LogModel};

verus! {

/// The first position at or after `i` whose last-seen time is earlier than `t`, or the end.
pub open spec fn seen_slot(s: Seq<DeviceModel>, t: i64, i: int) -> int
    decreases s.len() - i,
{
    if i < 0 || i >= s.len() {
        s.len() as int
    } else if s[i].last_seen < t {
        i
    } else {
        seen_slot(s, t, i + 1)
    }
}

/// `x` inserted into `s` after every item whose last-seen time is no earlier.
pub open spec fn insert_by_seen(s: Seq<DeviceModel>, x: DeviceModel) -> Seq<DeviceModel> {
    s.insert(seen_slot(s, x.last_seen, 0), x)
}

/// `s` ordered by last-seen time, latest first; items with equal last-seen time keep their order.
pub open spec fn by_seen(s: Seq<DeviceModel>) -> Seq<DeviceModel>
    decreases s.len(),
{
    if s.len() == 0 {
        s
    } else {
        insert_by_seen(by_seen(s.drop_last()), s.last())
    }
}

/// `s` runs from the latest last-seen time to the earliest.
pub open spec fn seen_desc(s: Seq<DeviceModel>) -> bool {
    forall|i: int, j: int| 0 <= i < j < s.len() ==> #[trigger] s[i].last_seen >= #[trigger] s[j].last_seen
}

proof fn lemma_seen_slot(s: Seq<DeviceModel>, t: i64, i: int)
    requires
        0 <= i <= s.len(),
    ensures
        i <= seen_slot(s, t, i) <= s.len(),
        forall|j: int| i <= j < seen_slot(s, t, i) ==> #[trigger] s[j].last_seen >= t,
        seen_slot(s, t, i) < s.len() ==> s[seen_slot(s, t, i)].last_seen < t,
    decreases s.len() - i,
{
    if i < s.len() && s[i].last_seen >= t {
        lemma_seen_slot(s, t, i + 1);
    }
}

/// Sorting orders by last-seen time, latest first, and keeps every item.
pub proof fn lemma_by_seen(s: Seq<DeviceModel>)
    ensures
        seen_desc(by_seen(s)),
        by_seen(s).to_multiset() == s.to_multiset(),
    decreases s.len(),
{
    broadcast use vstd::seq_lib::group_to_multiset_ensures;

    if s.len() > 0 {
        let r = by_seen(s.drop_last());
        lemma_by_seen(s.drop_last());
        let x = s.last();
        let p = seen_slot(r, x.last_seen, 0);
        lemma_seen_slot(r, x.last_seen, 0);
        let q = r.insert(p, x);
        assert forall|i: int, j: int| 0 <= i < j < q.len() implies #[trigger] q[i].last_seen
            >= #[trigger] q[j].last_seen by {
            if j < p {
            } else if i < p && j == p {
            } else if i < p {
                assert(q[j] == r[j - 1]);
                if p < r.len() {
                    assert(r[p].last_seen < x.last_seen);
                    assert(r[p].last_seen >= r[j - 1].last_seen || p == j - 1);
                }
            } else if i == p {
                assert(q[j] == r[j - 1]);
                assert(r[p].last_seen < x.last_seen);
                assert(r[p].last_seen >= r[j - 1].last_seen || p == j - 1);
            } else {
                assert(q[i] == r[i - 1] && q[j] == r[j - 1]);
            }
        }
        assert(q.remove(p) =~= r);
        assert(q.to_multiset().remove(x) =~= r.to_multiset());
        assert(q.to_multiset().count(x) > 0) by {
            assert(q[p] == x);
            assert(q.contains(x));
        }
        assert(q.to_multiset() =~= r.to_multiset().insert(x));
        assert(s =~= s.drop_last().push(x));
    }
}

/// Inserts `x` into `v` after every item whose last-seen time is no earlier.
pub fn insert_device_by_seen(v: &mut Vec<Device>, x: Device)
    ensures
        final(v)@.map_values(|e: Device| e@) == insert_by_seen(old(v)@.map_values(|e: Device| e@), x@),
{
    let ghost s = v@.map_values(|e: Device| e@);
    let mut p: usize = 0;
    while p < v.len() && !(v[p].last_seen < x.last_seen)
        invariant
            p <= v.len(),
            s == v@.map_values(|e: Device| e@),
            seen_slot(s, x@.last_seen, 0) == seen_slot(s, x@.last_seen, p as int),
        decreases v.len() - p,
    {
        assert(s[p as int] == v@[p as int]@);
        p = p + 1;
    }
    if p < v.len() {
        assert(s[p as int] == v@[p as int]@);
    }
    let ghost xv = x@;
    v.insert(p, x);
    assert(v@.map_values(|e: Device| e@) =~= s.insert(p as int, xv));
}

/// The items of `v` ordered by last-seen time, latest first; ties keep their order.
pub fn sort_devices_by_seen(v: Vec<Device>) -> (r: Vec<Device>)
    ensures
        r@.map_values(|e: Device| e@) == by_seen(v@.map_values(|e: Device| e@)),
{
    let ghost s = v@.map_values(|e: Device| e@);
    let mut r: Vec<Device> = Vec::new();
    let mut i: usize = 0;
    while i < v.len()
        invariant
            i <= v.len(),
            s == v@.map_values(|e: Device| e@),
            r@.map_values(|e: Device| e@) == by_seen(s.subrange(0, i as int)),
        decreases v.len() - i,
    {
        assert(s.subrange(0, i + 1).drop_last() =~= s.subrange(0, i as int));
        assert(s[i as int] == v@[i as int]@);
        insert_device_by_seen(&mut r, v[i].duplicate());
        i = i + 1;
    }
    assert(s.subrange(0, v.len() as int) =~= s);
    r
}

/// The first position at or after `i` whose timestamp is earlier than `t`, or the end.
pub open spec fn time_slot(s: Seq<LogModel>, t: i64, i: int) -> int
    decreases s.len() - i,
{
    if i < 0 || i >= s.len() {
        s.len() as int
    } else if s[i].timestamp < t {
        i
    } else {
        time_slot(s, t, i + 1)
    }
}

/// `x` inserted into `s` after every item whose timestamp is no earlier.
pub open spec fn insert_by_time(s: Seq<LogModel>, x: LogModel) -> Seq<LogModel> {
    s.insert(time_slot(s, x.timestamp, 0), x)
}

/// `s` ordered by timestamp, latest first; items with equal timestamp keep their order.
pub open spec fn by_time(s: Seq<LogModel>) -> Seq<LogModel>
    decreases s.len(),
{
    if s.len() == 0 {
        s
    } else {
        insert_by_time(by_time(s.drop_last()), s.last())
    }
}

/// `s` runs from the latest timestamp to the earliest.
pub open spec fn time_desc(s: Seq<LogModel>) -> bool {
    forall|i: int, j: int| 0 <= i < j < s.len() ==> #[trigger] s[i].timestamp >= #[trigger] s[j].timestamp
}

proof fn lemma_time_slot(s: Seq<LogModel>, t: i64, i: int)
    requires
        0 <= i <= s.len(),
    ensures
        i <= time_slot(s, t, i) <= s.len(),
        forall|j: int| i <= j < time_slot(s, t, i) ==> #[trigger] s[j].timestamp >= t,
        time_slot(s, t, i) < s.len() ==> s[time_slot(s, t, i)].timestamp < t,
    decreases s.len() - i,
{
    if i < s.len() && s[i].timestamp >= t {
        lemma_time_slot(s, t, i + 1);
    }
}

/// Sorting orders by timestamp, latest first, and keeps every item.
pub proof fn lemma_by_time(s: Seq<LogModel>)
    ensures
        time_desc(by_time(s)),
        by_time(s).to_multiset() == s.to_multiset(),
    decreases s.len(),
{
    broadcast use vstd::seq_lib::group_to_multiset_ensures;

    if s.len() > 0 {
        let r = by_time(s.drop_last());
        lemma_by_time(s.drop_last());
        let x = s.last();
        let p = time_slot(r, x.timestamp, 0);
        lemma_time_slot(r, x.timestamp, 0);
        let q = r.insert(p, x);
        assert forall|i: int, j: int| 0 <= i < j < q.len() implies #[trigger] q[i].timestamp
            >= #[trigger] q[j].timestamp by {
            if j < p {
            } else if i < p && j == p {
            } else if i < p {
                assert(q[j] == r[j - 1]);
                if p < r.len() {
                    assert(r[p].timestamp < x.timestamp);
                    assert(r[p].timestamp >= r[j - 1].timestamp || p == j - 1);
                }
            } else if i == p {
                assert(q[j] == r[j - 1]);
                assert(r[p].timestamp < x.timestamp);
                assert(r[p].timestamp >= r[j - 1].timestamp || p == j - 1);
            } else {
                assert(q[i] == r[i - 1] && q[j] == r[j - 1]);
            }
        }
        assert(q.remove(p) =~= r);
        assert(q.to_multiset().remove(x) =~= r.to_multiset());
        assert(q.to_multiset().count(x) > 0) by {
            assert(q[p] == x);
            assert(q.contains(x));
        }
        assert(q.to_multiset() =~= r.to_multiset().insert(x));
        assert(s =~= s.drop_last().push(x));
    }
}

/// Inserts `x` into `v` after every item whose timestamp is no earlier.
pub fn insert_log_by_time(v: &mut Vec<LogEntry>, x: LogEntry)
    ensures
        final(v)@.map_values(|e: LogEntry| e@) == insert_by_time(old(v)@.map_values(|e: LogEntry| e@), x@),
{
    let ghost s = v@.map_values(|e: LogEntry| e@);
    let mut p: usize = 0;
    while p < v.len() && !(v[p].timestamp < x.timestamp)
        invariant
            p <= v.len(),
            s == v@.map_values(|e: LogEntry| e@),
            time_slot(s, x@.timestamp, 0) == time_slot(s, x@.timestamp, p as int),
        decreases v.len() - p,
    {
        assert(s[p as int] == v@[p as int]@);
        p = p + 1;
    }
    if p < v.len() {
        assert(s[p as int] == v@[p as int]@);
    }
    let ghost xv = x@;
    v.insert(p, x);
    assert(v@.map_values(|e: LogEntry| e@) =~= s.insert(p as int, xv));
}

/// The items of `v` ordered by timestamp, latest first; ties keep their order.
pub fn sort_logs_by_time(v: Vec<LogEntry>) -> (r: Vec<LogEntry>)
    ensures
        r@.map_values(|e: LogEntry| e@) == by_time(v@.map_values(|e: LogEntry| e@)),
{
    let ghost s = v@.map_values(|e: LogEntry| e@);
    let mut r: Vec<LogEntry> = Vec::new();
    let mut i: usize = 0;
    while i < v.len()
        invariant
            i <= v.len(),
            s == v@.map_values(|e: LogEntry| e@),
            r@.map_values(|e: LogEntry| e@) == by_time(s.subrange(0, i as int)),
        decreases v.len() - i,
    {
        assert(s.subrange(0, i + 1).drop_last() =~= s.subrange(0, i as int));
        assert(s[i as int] == v@[i as int]@);
        insert_log_by_time(&mut r, v[i].duplicate());
        i = i + 1;
    }
    assert(s.subrange(0, v.len() as int) =~= s);
    r
}

} // verus!
