//! Read-side queries over the hub, and command submission as an operator sees it.
use vstd::prelude::*;

use crate::order::{by_seen, by_time, lemma_by_seen, lemma_by_time, seen_desc, time_desc, sort_devices_by_seen, sort_logs_by_time};
use crate::command::{
    executing_on, has_id, status_name, Command, CommandModel, CommandStatus, LedgerError,
};
use crate::registry::{Device, DeviceModel, EntryModel};
use crate::session::{live, live_pos, DispatchError, Hub, LogEntry, LogModel, SessionModel};

verus! {

/// The page size when a query names none.
pub const DEFAULT_LIMIT: i64 = 100;

/// Which logs to read: those of one device or of all, newest first, a page at a time.
pub struct LogsQuery {
    pub device_id: Option<String>,
    pub limit: Option<i64>,
    pub offset: Option<i64>,
}

/// Which devices to list: online ones, offline ones, or all.
pub struct DevicesQuery {
    pub online: Option<bool>,
}

/// Which commands of a device to list, newest first.
pub struct CommandsQuery {
    pub device_id: String,
    /// A status name such as `queued`; absent for every status.
    pub status: Option<String>,
    pub limit: Option<i64>,
}

/// An operator's request to run a command on a device.
pub struct DeviceCommandRequest {
    pub device_id: String,
    pub command: String,
    pub sudo: bool,
    /// Seconds the agent may let the command run; the agent enforces it.
    pub timeout: Option<u64>,
}

/// `new` is `old` with one more command, queued under the fresh identifier
/// `id` as `req` asks.
pub open spec fn queued_as(
    old: Seq<CommandModel>,
    new: Seq<CommandModel>,
    id: Seq<char>,
    req: DeviceCommandRequest,
) -> bool {
    &&& !has_id(old, id)
    &&& new.len() == old.len() + 1
    &&& new.drop_last() == old
    &&& new.last().id == id
    &&& new.last().device_id == req.device_id@
    &&& new.last().command == req.command@
    &&& new.last().sudo == req.sudo
    &&& new.last().status == CommandStatus::Queued
}

/// Why a submitted command was not handed to its device. In the two last cases
/// it was recorded and stays queued under the given identifier.
#[derive(Debug, PartialEq, Eq)]
pub enum SubmitError {
    Ledger(LedgerError),
    DeviceOffline(String),
    Busy(String),
}

pub open spec fn limit_of(limit: Option<i64>) -> int {
    match limit {
        Some(n) => if n < 0 {
            0
        } else {
            n as int
        },
        None => DEFAULT_LIMIT as int,
    }
}

pub open spec fn offset_of(offset: Option<i64>) -> int {
    match offset {
        Some(n) => if n < 0 {
            0
        } else {
            n as int
        },
        None => 0,
    }
}

/// At most `limit` items of `s` after skipping `offset` of them.
pub open spec fn page<A>(s: Seq<A>, offset: int, limit: int) -> Seq<A> {
    let lo = if offset < s.len() {
        offset
    } else {
        s.len() as int
    };
    let hi = if lo + limit < s.len() {
        lo + limit
    } else {
        s.len() as int
    };
    s.subrange(lo, hi)
}

pub open spec fn log_matches(l: LogModel, dev: Option<Seq<char>>) -> bool {
    match dev {
        Some(d) => l.device_id == d,
        None => true,
    }
}

/// The logs that `dev` selects, latest arrival first.
pub open spec fn logs_selected(ls: Seq<LogModel>, dev: Option<Seq<char>>) -> Seq<LogModel>
    decreases ls.len(),
{
    if ls.len() == 0 {
        Seq::empty()
    } else {
        let rest = logs_selected(ls.drop_first(), dev);
        if log_matches(ls[0], dev) {
            rest.push(ls[0])
        } else {
            rest
        }
    }
}

/// The logs that `dev` selects, newest timestamp first; logs with equal
/// timestamps come latest arrival first.
pub open spec fn logs_newest_first(ls: Seq<LogModel>, dev: Option<Seq<char>>) -> Seq<LogModel> {
    by_time(logs_selected(ls, dev))
}

pub open spec fn command_matches(c: CommandModel, dev: Seq<char>, status: Option<Seq<char>>) -> bool {
    c.device_id == dev && match status {
        Some(st) => status_name(c.status) == st,
        None => true,
    }
}

/// The commands of `dev` with the named status, newest first.
pub open spec fn commands_newest_first(
    cs: Seq<CommandModel>,
    dev: Seq<char>,
    status: Option<Seq<char>>,
) -> Seq<CommandModel>
    decreases cs.len(),
{
    if cs.len() == 0 {
        Seq::empty()
    } else {
        let rest = commands_newest_first(cs.drop_first(), dev, status);
        if command_matches(cs[0], dev, status) {
            rest.push(cs[0])
        } else {
            rest
        }
    }
}

/// The devices that `online` selects, most recently seen first; devices seen
/// at the same time keep their registration order.
pub open spec fn devices_listed(es: Seq<EntryModel>, online: Option<bool>) -> Seq<DeviceModel> {
    by_seen(devices_where(es, online))
}

/// The devices whose online flag `online` selects, in registration order.
pub open spec fn devices_where(es: Seq<EntryModel>, online: Option<bool>) -> Seq<DeviceModel>
    decreases es.len(),
{
    if es.len() == 0 {
        Seq::empty()
    } else {
        let rest = devices_where(es.drop_last(), online);
        let keep = match online {
            Some(b) => es.last().online == b,
            None => true,
        };
        if keep {
            rest.push(es.last().device)
        } else {
            rest
        }
    }
}

fn page_of_logs(all: Vec<LogEntry>, offset: Option<i64>, limit: Option<i64>) -> (r: Vec<LogEntry>)
    ensures
        r@.map_values(|l: LogEntry| l@) == page(
            all@.map_values(|l: LogEntry| l@),
            offset_of(offset),
            limit_of(limit),
        ),
{
    let ghost s = all@.map_values(|l: LogEntry| l@);
    let len = all.len();
    let off: usize = match offset {
        Some(n) => if n < 0 {
            0
        } else if (n as u64) < (len as u64) {
            n as usize
        } else {
            len
        },
        None => 0,
    };
    let lim: i64 = match limit {
        Some(n) => if n < 0 {
            0
        } else {
            n
        },
        None => DEFAULT_LIMIT,
    };
    let hi: usize = if (lim as u64) < ((len - off) as u64) {
        off + lim as usize
    } else {
        len
    };
    let mut r: Vec<LogEntry> = Vec::new();
    let mut i: usize = off;
    while i < hi
        invariant
            off <= i <= hi <= len == all@.len(),
            s == all@.map_values(|l: LogEntry| l@),
            r@.map_values(|l: LogEntry| l@) == s.subrange(off as int, i as int),
        decreases hi - i,
    {
        let ghost before = r@.map_values(|l: LogEntry| l@);
        r.push(all[i].duplicate());
        assert(r@.map_values(|l: LogEntry| l@) =~= before.push(s[i as int]));
        assert(s.subrange(off as int, i + 1) =~= s.subrange(off as int, i as int).push(s[i as int]));
        i = i + 1;
    }
    assert(s.subrange(off as int, hi as int) =~= page(s, offset_of(offset), limit_of(limit)));
    r
}

fn page_of_commands(all: Vec<Command>, limit: Option<i64>) -> (r: Vec<Command>)
    ensures
        r@.map_values(|c: Command| c@) == page(
            all@.map_values(|c: Command| c@),
            0,
            limit_of(limit),
        ),
{
    let ghost s = all@.map_values(|c: Command| c@);
    let len = all.len();
    let lim: i64 = match limit {
        Some(n) => if n < 0 {
            0
        } else {
            n
        },
        None => DEFAULT_LIMIT,
    };
    let hi: usize = if (lim as u64) < (len as u64) {
        lim as usize
    } else {
        len
    };
    let mut r: Vec<Command> = Vec::new();
    let mut i: usize = 0;
    while i < hi
        invariant
            i <= hi <= len == all@.len(),
            s == all@.map_values(|c: Command| c@),
            r@.map_values(|c: Command| c@) == s.subrange(0, i as int),
        decreases hi - i,
    {
        let ghost before = r@.map_values(|c: Command| c@);
        r.push(all[i].duplicate());
        assert(r@.map_values(|c: Command| c@) =~= before.push(s[i as int]));
        assert(s.subrange(0, i + 1) =~= s.subrange(0, i as int).push(s[i as int]));
        i = i + 1;
    }
    assert(s.subrange(0, hi as int) =~= page(s, 0, limit_of(limit)));
    r
}

impl Hub {
    /// The logs that `q` selects: those of its device (or all), newest
    /// timestamp first,
    /// skipping `offset` and keeping at most `limit` (100 when absent; a
    /// negative number counts as zero).
    pub fn get_logs(&self, q: &LogsQuery) -> (r: Vec<LogEntry>)
        ensures
            r@.map_values(|l: LogEntry| l@) == page(
                logs_newest_first(self.log_view(), crate::command::text_opt(q.device_id)),
                offset_of(q.offset),
                limit_of(q.limit),
            ),
            time_desc(logs_newest_first(self.log_view(), crate::command::text_opt(q.device_id))),
            logs_newest_first(self.log_view(), crate::command::text_opt(q.device_id)).to_multiset()
                == logs_selected(self.log_view(), crate::command::text_opt(q.device_id)).to_multiset(),
    {
        let ghost ls = self.log_view();
        let ghost dev = crate::command::text_opt(q.device_id);
        let mut all: Vec<LogEntry> = Vec::new();
        let mut i: usize = self.logs.len();
        while i > 0
            invariant
                i <= self.logs.len(),
                ls == self.log_view(),
                dev == crate::command::text_opt(q.device_id),
                all@.map_values(|l: LogEntry| l@) == logs_selected(
                    ls.subrange(i as int, ls.len() as int),
                    dev,
                ),
            decreases i,
        {
            i = i - 1;
            assert(ls[i as int] == self.logs[i as int]@);
            assert(ls.subrange(i as int, ls.len() as int).drop_first() =~= ls.subrange(
                i + 1,
                ls.len() as int,
            ));
            let keep = match &q.device_id {
                Some(d) => self.logs[i].device_id == *d,
                None => true,
            };
            if keep {
                let ghost before = all@.map_values(|l: LogEntry| l@);
                all.push(self.logs[i].duplicate());
                assert(all@.map_values(|l: LogEntry| l@) =~= before.push(ls[i as int]));
            }
        }
        assert(ls.subrange(0, ls.len() as int) =~= ls);
        let sorted = sort_logs_by_time(all);
        proof {
            lemma_by_time(logs_selected(ls, dev));
        }
        page_of_logs(sorted, q.offset, q.limit)
    }

    /// The commands of the device of `q` with its status (or any), newest
    /// first, at most `limit` of them (100 when absent; a negative number
    /// counts as zero).
    pub fn list_commands(&self, q: &CommandsQuery) -> (r: Vec<Command>)
        ensures
            r@.map_values(|c: Command| c@) == page(
                commands_newest_first(
                    self.ledger@,
                    q.device_id@,
                    crate::command::text_opt(q.status),
                ),
                0,
                limit_of(q.limit),
            ),
    {
        let ghost cs = self.ledger@;
        let ghost st = crate::command::text_opt(q.status);
        let mut all: Vec<Command> = Vec::new();
        let mut i: usize = self.ledger.len();
        while i > 0
            invariant
                i <= cs.len(),
                cs == self.ledger@,
                st == crate::command::text_opt(q.status),
                all@.map_values(|c: Command| c@) == commands_newest_first(
                    cs.subrange(i as int, cs.len() as int),
                    q.device_id@,
                    st,
                ),
            decreases i,
        {
            i = i - 1;
            let c = self.ledger.at(i);
            assert(cs.subrange(i as int, cs.len() as int).drop_first() =~= cs.subrange(
                i + 1,
                cs.len() as int,
            ));
            let keep = c.device_id == q.device_id && match &q.status {
                Some(st_text) => c.status.as_text() == *st_text,
                None => true,
            };
            if keep {
                let ghost before = all@.map_values(|c: Command| c@);
                all.push(c.duplicate());
                assert(all@.map_values(|c: Command| c@) =~= before.push(cs[i as int]));
            }
        }
        assert(cs.subrange(0, cs.len() as int) =~= cs);
        page_of_commands(all, q.limit)
    }

    /// Records the requested command and hands it to its device at once when
    /// the device has an active session and no command in flight. Otherwise it
    /// stays queued and the error carries its identifier.
    pub fn submit(&mut self, req: DeviceCommandRequest) -> (r: Result<String, SubmitError>)
        requires
            old(self).wf(),
        ensures
            final(self).wf(),
            final(self).registry@ == old(self).registry@,
            final(self).log_view() == old(self).log_view(),
            crate::command::reaches(old(self).ledger@, final(self).ledger@),
            crate::command::no_generated_ids(old(self).ledger@) ==> !(r is Err && r->Err_0 is Ledger),
            match r {
                Ok(id) => {
                    &&& live(old(self).ss(), req.device_id@)
                    &&& !executing_on(old(self).ledger@, req.device_id@)
                    &&& !has_id(old(self).ledger@, id@)
                    &&& final(self).ledger@.len() == old(self).ledger@.len() + 1
                    &&& final(self).ledger@.drop_last() == old(self).ledger@
                    &&& final(self).ledger@.last().id == id@
                    &&& final(self).ledger@.last().device_id == req.device_id@
                    &&& final(self).ledger@.last().command == req.command@
                    &&& final(self).ledger@.last().sudo == req.sudo
                    &&& final(self).ledger@.last().status == CommandStatus::Executing
                    &&& {
                        let i = live_pos(old(self).ss(), req.device_id@);
                        final(self).ss() == old(self).ss().update(
                            i,
                            SessionModel {
                                outbox: old(self).ss()[i].outbox.push(
                                    crate::protocol::MsgModel::Command {
                                        id: id@,
                                        command: req.command@,
                                        sudo: req.sudo,
                                    },
                                ),
                                ..old(self).ss()[i]
                            },
                        )
                    }
                },
                Err(SubmitError::Ledger(e)) => e == LedgerError::DuplicateId && final(self).ledger@
                    == old(self).ledger@ && final(self).ss() == old(self).ss(),
                Err(SubmitError::DeviceOffline(id)) => {
                    &&& !live(old(self).ss(), req.device_id@)
                    &&& final(self).ss() == old(self).ss()
                    &&& queued_as(old(self).ledger@, final(self).ledger@, id@, req)
                },
                Err(SubmitError::Busy(id)) => {
                    &&& live(old(self).ss(), req.device_id@)
                    &&& executing_on(old(self).ledger@, req.device_id@)
                    &&& final(self).ss() == old(self).ss()
                    &&& queued_as(old(self).ledger@, final(self).ledger@, id@, req)
                },
            },
    {
        let ghost cs0 = self.ledger@;
        let id = match self.enqueue_command(req.device_id.clone(), req.command.clone(), req.sudo) {
            Ok(id) => id,
            Err(e) => return Err(SubmitError::Ledger(e)),
        };
        let ghost cs1 = self.ledger@;
        proof {
            crate::command::lemma_evolves_reaches(cs0, cs1);
            let k = cs1.len() - 1;
            assert(cs1[k].id == id@);
            crate::command::lemma_unique_index(cs1, id@, k);
            assert(executing_on(cs1, req.device_id@) == executing_on(cs0, req.device_id@)) by {
                if executing_on(cs1, req.device_id@) {
                    let j = choose|j: int|
                        0 <= j < cs1.len() && #[trigger] cs1[j].device_id == req.device_id@
                            && cs1[j].status == CommandStatus::Executing;
                    assert(j != k);
                    assert(cs0[j] == cs1[j]);
                }
                if executing_on(cs0, req.device_id@) {
                    let j = choose|j: int|
                        0 <= j < cs0.len() && #[trigger] cs0[j].device_id == req.device_id@
                            && cs0[j].status == CommandStatus::Executing;
                    assert(cs1[j] == cs0[j]);
                }
            }
        }
        match self.dispatch(req.device_id.as_str(), id.as_str()) {
            Ok(()) => {
                proof {
                    let k = cs1.len() - 1;
                    assert(self.ledger@ =~= cs1.update(k, cs1[k].with_status(CommandStatus::Executing)));
                    assert(self.ledger@.drop_last() =~= cs0);
                    crate::command::lemma_evolves_reaches(cs1, self.ledger@);
                    crate::command::lemma_reaches_trans(cs0, cs1, self.ledger@);
                }
                Ok(id)
            },
            Err(DispatchError::DeviceOffline) => Err(SubmitError::DeviceOffline(id)),
            Err(_) => {
                proof {
                    let k = cs1.len() - 1;
                    assert(cs1[k].id == id@);
                }
                Err(SubmitError::Busy(id))
            },
        }
    }

    /// The devices that `q` selects, in registration order.
    pub fn list_devices(&self, q: &DevicesQuery) -> (r: Vec<Device>)
        ensures
            r@.map_values(|d: Device| d@) == devices_listed(self.registry@, q.online),
            seen_desc(r@.map_values(|d: Device| d@)),
            r@.map_values(|d: Device| d@).to_multiset() == devices_where(self.registry@, q.online).to_multiset(),
    {
        let ghost es = self.registry@;
        let mut r: Vec<Device> = Vec::new();
        let mut i: usize = 0;
        let n = self.registry.len();
        while i < n
            invariant
                i <= n == es.len(),
                es == self.registry@,
                r@.map_values(|d: Device| d@) == devices_where(es.subrange(0, i as int), q.online),
            decreases n - i,
        {
            assert(es.subrange(0, i + 1).drop_last() =~= es.subrange(0, i as int));
            let (d, online) = self.registry.entry_at(i);
            let keep = match q.online {
                Some(b) => online == b,
                None => true,
            };
            if keep {
                let ghost before = r@.map_values(|d: Device| d@);
                r.push(d.duplicate());
                assert(r@.map_values(|d: Device| d@) =~= before.push(es[i as int].device));
            }
            i = i + 1;
        }
        assert(es.subrange(0, n as int) =~= es);
        proof {
            lemma_by_seen(devices_where(es, q.online));
        }
        sort_devices_by_seen(r)
    }
}

} // verus!
