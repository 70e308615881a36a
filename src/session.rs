//! The session manager: one session per connection, the messages each may
//! send in each state, heartbeat liveness, and command delivery.
use vstd::prelude::*;

use crate::command::{
    executing_on, failed_in_flight, has_id, settle_post, text_opt, Command, CommandLedger,
    CommandModel, CommandStatus, LedgerError, Settled,
};
use crate::protocol::{MsgModel, WsMessage};
use crate::registry::{
    knows, offlined, online_devices, online_in, pos, touched, upserted, Device, DeviceModel,
    DeviceRegistry, EntryModel,
};
use crate::sys::new_uuid;

verus! {

#[derive(PartialEq, Eq, Structural, Clone, Copy, Debug)]
pub enum SessionState {
    /// Connected; no message seen yet.
    Connecting,
    /// The agent sent its token; the verdict is pending.
    Authenticating,
    /// Authenticated as a device.
    Active,
    /// Ended; waiting for the connection to be released.
    Closing,
    /// Released.
    Closed,
}

/// The live state of one connection.
pub struct Session {
    pub conn: u64,
    pub state: SessionState,
    /// The device the session speaks for; present exactly while it is active.
    pub device_id: Option<String>,
    pub last_heartbeat: i64,
    /// Messages waiting to be written to the connection.
    pub outbox: Vec<WsMessage>,
}

pub struct SessionModel {
    pub conn: u64,
    pub state: SessionState,
    pub device_id: Option<Seq<char>>,
    pub last_heartbeat: i64,
    pub outbox: Seq<MsgModel>,
}

impl View for Session {
    type V = SessionModel;

    open spec fn view(&self) -> SessionModel {
        SessionModel {
            conn: self.conn,
            state: self.state,
            device_id: text_opt(self.device_id),
            last_heartbeat: self.last_heartbeat,
            outbox: self.outbox@.map_values(|m: WsMessage| m@),
        }
    }
}

/// A log line that a device sent. Times are milliseconds since the Unix epoch.
#[derive(Clone, Debug, PartialEq, Eq)]
pub struct LogEntry {
    pub id: String,
    pub device_id: String,
    pub level: String,
    pub message: String,
    pub data: Option<String>,
    pub timestamp: i64,
}

pub struct LogModel {
    pub id: Seq<char>,
    pub device_id: Seq<char>,
    pub level: Seq<char>,
    pub message: Seq<char>,
    pub data: Option<Seq<char>>,
    pub timestamp: i64,
}

impl View for LogEntry {
    type V = LogModel;

    open spec fn view(&self) -> LogModel {
        LogModel {
            id: self.id@,
            device_id: self.device_id@,
            level: self.level@,
            message: self.message@,
            data: text_opt(self.data),
            timestamp: self.timestamp,
        }
    }
}

impl LogEntry {
    /// A copy of this entry.
    pub fn duplicate(&self) -> (r: LogEntry)
        ensures
            r@ == self@,
    {
        LogEntry {
            id: self.id.clone(),
            device_id: self.device_id.clone(),
            level: self.level.clone(),
            message: self.message.clone(),
            data: crate::command::copy_text(&self.data),
            timestamp: self.timestamp,
        }
    }
}

/// Why a session operation was refused.
#[derive(PartialEq, Eq, Structural, Clone, Copy, Debug)]
pub enum SessionError {
    /// No session has the given connection.
    UnknownConnection,
    /// A session has the given connection already.
    DuplicateConnection,
    /// The message is not allowed in the session's state; the session ends.
    ProtocolViolation,
    /// The session is ending and takes no more messages.
    NotAccepting,
    /// A command result that the ledger refused; the session goes on.
    Ledger(LedgerError),
}

/// Why a command could not be handed to its device.
#[derive(PartialEq, Eq, Structural, Clone, Copy, Debug)]
pub enum DispatchError {
    /// No active session speaks for the device.
    DeviceOffline,
    /// The device has no command with the given identifier.
    NotFound,
    /// The command is not queued, or another command of the device is executing.
    InvalidTransition,
}

/// What accepting a message asks of the caller.
#[derive(Debug, PartialEq, Eq)]
pub enum Reaction {
    /// Verify this token and report the verdict with `auth_result`.
    Verify(String),
    /// The message took effect.
    Accepted,
    /// A result for a command that had ended already; nothing changed.
    AlreadyFinal,
}

pub open spec fn conn_at(ss: Seq<SessionModel>, conn: u64, i: int) -> bool {
    0 <= i < ss.len() && ss[i].conn == conn
}

pub open spec fn has_conn(ss: Seq<SessionModel>, conn: u64) -> bool {
    exists|i: int| #[trigger] conn_at(ss, conn, i)
}

pub open spec fn active_at(ss: Seq<SessionModel>, dev: Seq<char>, i: int) -> bool {
    0 <= i < ss.len() && ss[i].state == SessionState::Active && ss[i].device_id == Some(dev)
}

/// Some active session speaks for `dev`.
pub open spec fn live(ss: Seq<SessionModel>, dev: Seq<char>) -> bool {
    exists|i: int| #[trigger] active_at(ss, dev, i)
}

pub open spec fn sessions_wf(ss: Seq<SessionModel>) -> bool {
    &&& forall|i: int, j: int| 0 <= i < j < ss.len() ==> #[trigger] ss[i].conn != #[trigger] ss[j].conn
    &&& forall|i: int|
        0 <= i < ss.len() ==> ((#[trigger] ss[i]).state == SessionState::Active
            <==> ss[i].device_id is Some) && ss[i].state != SessionState::Closed
    &&& forall|i: int, j: int|
        0 <= i < ss.len() && 0 <= j < ss.len() && i != j && (#[trigger] ss[i]).state
            == SessionState::Active && (#[trigger] ss[j]).state == SessionState::Active
            ==> ss[i].device_id != ss[j].device_id
}

/// The session after it ends: nothing left to send, speaking for no device.
pub open spec fn closing(s: SessionModel) -> SessionModel {
    SessionModel { state: SessionState::Closing, device_id: None, outbox: Seq::empty(), ..s }
}

/// The heartbeat of `s` is at least `window` old at `now`.
pub open spec fn expired(s: SessionModel, now: i64, window: i64) -> bool {
    s.state == SessionState::Active && now - s.last_heartbeat >= window
}

/// The record of `dev` after it reports `info` at `now`.
pub open spec fn info_record(es: Seq<EntryModel>, dev: Seq<char>, info: Seq<char>, now: i64) -> DeviceModel {
    if knows(es, dev) {
        DeviceModel { device_info: info, ..es[pos(es, dev)].device }
    } else {
        DeviceModel { device_info: info, ..unnamed_model(dev, now) }
    }
}

pub open spec fn unnamed_model(dev: Seq<char>, now: i64) -> DeviceModel {
    DeviceModel {
        id: dev,
        name: dev,
        model: Seq::empty(),
        android_version: Seq::empty(),
        api_level: 0,
        architecture: Seq::empty(),
        device_info: "{}"@,
        user_data: "{}"@,
        last_seen: now,
        created_at: now,
    }
}

/// The registry once `dev` has authenticated at `now`.
pub open spec fn admitted(es: Seq<EntryModel>, dev: Seq<char>, now: i64) -> Seq<EntryModel> {
    if knows(es, dev) {
        touched(es, dev, now)
    } else {
        upserted(es, unnamed_model(dev, now), now)
    }
}

/// The device that a message from an agent claims to speak for, if it names one.
pub open spec fn claimed_device(m: MsgModel) -> Option<Seq<char>> {
    match m {
        MsgModel::DeviceInfo { device_id, .. } => Some(device_id),
        MsgModel::Log { device_id, .. } => Some(device_id),
        MsgModel::Heartbeat { device_id, .. } => Some(device_id),
        _ => None,
    }
}

/// A message that an active session for `dev` may not send: one the server
/// alone sends, a second `Auth`, or one that speaks for another device.
pub open spec fn violates(m: MsgModel, dev: Seq<char>) -> bool {
    match m {
        MsgModel::Auth { .. } => true,
        MsgModel::Command { .. } => true,
        _ => match claimed_device(m) {
            Some(d) => d != dev,
            None => false,
        },
    }
}

/// The server: devices, commands, logs and live sessions.
pub struct Hub {
    pub registry: DeviceRegistry,
    pub ledger: CommandLedger,
    pub sessions: Vec<Session>,
    pub logs: Vec<LogEntry>,
    /// How long an active session may stay silent, in milliseconds.
    pub timeout_ms: i64,
}

impl Hub {
    pub open spec fn ss(&self) -> Seq<SessionModel> {
        self.sessions@.map_values(|s: Session| s@)
    }

    pub open spec fn log_view(&self) -> Seq<LogModel> {
        self.logs@.map_values(|l: LogEntry| l@)
    }

    pub open spec fn wf(&self) -> bool {
        &&& self.registry.wf()
        &&& self.ledger.wf()
        &&& sessions_wf(self.ss())
        &&& self.timeout_ms > 0
    }

    /// A hub with nothing in it, whose sessions time out after `timeout_ms`
    /// milliseconds of silence.
    pub fn new(timeout_ms: i64) -> (r: Hub)
        requires
            timeout_ms > 0,
        ensures
            r.wf(),
            r.registry@ == Seq::<EntryModel>::empty(),
            r.ledger@ == Seq::<CommandModel>::empty(),
            r.ss() == Seq::<SessionModel>::empty(),
            r.log_view() == Seq::<LogModel>::empty(),
            r.timeout_ms == timeout_ms,
    {
        let r = Hub {
            registry: DeviceRegistry::new(),
            ledger: CommandLedger::new(),
            sessions: Vec::new(),
            logs: Vec::new(),
            timeout_ms,
        };
        assert(r.ss() =~= Seq::<SessionModel>::empty());
        assert(r.log_view() =~= Seq::<LogModel>::empty());
        r
    }

    /// The position of the session of `conn`.
    pub fn find_conn(&self, conn: u64) -> (r: Option<usize>)
        ensures
            match r {
                Some(i) => conn_at(self.ss(), conn, i as int),
                None => !has_conn(self.ss(), conn),
            },
    {
        let mut i: usize = 0;
        while i < self.sessions.len()
            invariant
                i <= self.sessions.len(),
                forall|j: int| 0 <= j < i ==> !#[trigger] conn_at(self.ss(), conn, j),
            decreases self.sessions.len() - i,
        {
            assert(self.ss()[i as int] == self.sessions[i as int]@);
            if self.sessions[i].conn == conn {
                return Some(i);
            }
            i = i + 1;
        }
        None
    }

    /// The position of the active session of `dev`.
    pub fn find_live(&self, dev: &str) -> (r: Option<usize>)
        ensures
            match r {
                Some(i) => active_at(self.ss(), dev@, i as int),
                None => !live(self.ss(), dev@),
            },
    {
        let mut i: usize = 0;
        while i < self.sessions.len()
            invariant
                i <= self.sessions.len(),
                forall|j: int| 0 <= j < i ==> !#[trigger] active_at(self.ss(), dev@, j),
            decreases self.sessions.len() - i,
        {
            assert(self.ss()[i as int] == self.sessions[i as int]@);
            if self.sessions[i].state == SessionState::Active {
                match &self.sessions[i].device_id {
                    Some(d) => {
                        let t = dev.to_owned();
                        if *d == t {
                            return Some(i);
                        }
                    },
                    None => {},
                }
            }
            i = i + 1;
        }
        None
    }

    /// The state of the session of `conn`; `Closed` once it is released.
    pub fn state_of(&self, conn: u64) -> (r: SessionState)
        requires
            sessions_wf(self.ss()),
        ensures
            !has_conn(self.ss(), conn) ==> r == SessionState::Closed,
            forall|i: int| #[trigger] conn_at(self.ss(), conn, i) ==> r == self.ss()[i].state,
    {
        match self.find_conn(conn) {
            Some(i) => {
                assert(self.ss()[i as int] == self.sessions[i as int]@);
                assert forall|j: int| #[trigger] conn_at(self.ss(), conn, j) implies j == i by {
                    if j < i {
                        assert(self.ss()[j].conn != self.ss()[i as int].conn);
                    } else if i < j {
                        assert(self.ss()[i as int].conn != self.ss()[j].conn);
                    }
                }
                self.sessions[i].state
            },
            None => SessionState::Closed,
        }
    }

    /// Opens a session for the new connection `conn` at `now`.
    pub fn connect(&mut self, conn: u64, now: i64) -> (r: Result<(), SessionError>)
        requires
            old(self).wf(),
        ensures
            final(self).wf(),
            same_records(*old(self), *final(self)),
            r is Err <==> has_conn(old(self).ss(), conn),
            r is Err ==> r == Err::<(), _>(SessionError::DuplicateConnection) && final(self).ss()
                == old(self).ss(),
            r is Ok ==> final(self).ss() == old(self).ss().push(
                SessionModel {
                    conn,
                    state: SessionState::Connecting,
                    device_id: None,
                    last_heartbeat: now,
                    outbox: Seq::empty(),
                },
            ),
    {
        if self.find_conn(conn).is_some() {
            return Err(SessionError::DuplicateConnection);
        }
        let ghost before = self.ss();
        let s = Session {
            conn,
            state: SessionState::Connecting,
            device_id: None,
            last_heartbeat: now,
            outbox: Vec::new(),
        };
        assert(s@.outbox =~= Seq::<MsgModel>::empty());
        self.sessions.push(s);
        assert(self.ss() =~= before.push(s@));
        assert forall|j: int| 0 <= j < before.len() implies before[j].conn != conn by {
            assert(!conn_at(before, conn, j));
        }
        Ok(())
    }

    /// Replaces the session at `i` by `s`.
    fn put(&mut self, i: usize, s: Session)
        requires
            i < old(self).ss().len(),
        ensures
            final(self).ss() == old(self).ss().update(i as int, s@),
            same_records(*old(self), *final(self)),
    {
        let ghost before = self.ss();
        self.sessions.set(i, s);
        assert(self.ss() =~= before.update(i as int, s@));
    }

    /// Takes the session at `i` out, leaving a closing placeholder.
    fn take(&mut self, i: usize) -> (r: Session)
        requires
            i < old(self).ss().len(),
        ensures
            r@ == old(self).ss()[i as int],
            final(self).ss() == old(self).ss().update(i as int, closing(r@)),
            same_records(*old(self), *final(self)),
    {
        let ghost before = self.ss();
        let conn = self.sessions[i].conn;
        let last = self.sessions[i].last_heartbeat;
        let placeholder = Session {
            conn,
            state: SessionState::Closing,
            device_id: None,
            last_heartbeat: last,
            outbox: Vec::new(),
        };
        let r = self.sessions.remove(i);
        assert(r@ == before[i as int]);
        self.sessions.insert(i, placeholder);
        assert(placeholder@.outbox =~= Seq::<MsgModel>::empty());
        assert(self.ss() =~= before.update(i as int, closing(r@)));
        r
    }

    /// Ends the session at `i` for `reason` at `now`: if it was active, its
    /// device goes offline and the device's executing command fails.
    fn end_session(&mut self, i: usize, reason: &String, now: i64)
        requires
            old(self).wf(),
            i < old(self).ss().len(),
        ensures
            final(self).wf(),
            ended_post(*old(self), *final(self), i as int, reason@, now),
            crate::command::evolves(old(self).ledger@, final(self).ledger@),
    {
        let ghost old_ss = self.ss();
        let s = self.take(i);
        match &s.device_id {
            Some(dev) => {
                self.registry.mark_offline(dev.as_str());
                self.ledger.fail_in_flight(dev, reason, now);
            },
            None => {},
        }
        assert(sessions_wf(self.ss())) by {
            assert forall|j: int| 0 <= j < self.ss().len() implies (#[trigger] self.ss()[j]).conn
                == old_ss[j].conn by {}
        }
    }

    /// Handles message `m` from the agent on `conn` at `now`.
    ///
    /// The first message must be `Auth`; its token comes back for verification.
    /// While the verdict is pending, any message ends the session. An active
    /// session takes device information, heartbeats, logs, command results and
    /// errors for its own device; anything else ends it. A result for a command
    /// of another device is refused as unknown, and one for a command that has
    /// ended already changes nothing.
    pub fn receive(&mut self, conn: u64, m: WsMessage, now: i64) -> (r: Result<Reaction, SessionError>)
        requires
            old(self).wf(),
        ensures
            final(self).wf(),
            receive_post(*old(self), *final(self), conn, m@, now, r),
            crate::command::evolves(old(self).ledger@, final(self).ledger@),
    {
        let i = match self.find_conn(conn) {
            Some(i) => i,
            None => return Err(SessionError::UnknownConnection),
        };
        proof {
            lemma_conn_pos(self.ss(), conn, i as int);
        }
        assert(self.ss()[i as int] == self.sessions[i as int]@);
        match self.sessions[i].state {
            SessionState::Connecting => {
                let ghost old_ss = self.ss();
                let mut s = self.take(i);
                match m {
                    WsMessage::Auth { token } => {
                        s.state = SessionState::Authenticating;
                        self.put(i, s);
                        assert(self.ss() =~= old_ss.update(
                            i as int,
                            SessionModel { state: SessionState::Authenticating, ..old_ss[i as int] },
                        ));
                        Ok(Reaction::Verify(token))
                    },
                    _ => Err(SessionError::ProtocolViolation),
                }
            },
            SessionState::Authenticating => {
                let _ = self.take(i);
                Err(SessionError::ProtocolViolation)
            },
            SessionState::Active => {
                let dev = match &self.sessions[i].device_id {
                    Some(d) => d.clone(),
                    None => return Err(SessionError::NotAccepting),
                };
                self.active_message(i, dev, m, now)
            },
            _ => Err(SessionError::NotAccepting),
        }
    }

    /// Whether `m` names a device other than `dev`.
    fn names_other(m: &WsMessage, dev: &String) -> (r: bool)
        ensures
            r == match claimed_device(m@) {
                Some(d) => d != dev@,
                None => false,
            },
    {
        match m {
            WsMessage::DeviceInfo { device_id, .. } => *device_id != *dev,
            WsMessage::Log { device_id, .. } => *device_id != *dev,
            WsMessage::Heartbeat { device_id, .. } => *device_id != *dev,
            _ => false,
        }
    }

    fn active_message(&mut self, i: usize, dev: String, m: WsMessage, now: i64) -> (r: Result<
        Reaction,
        SessionError,
    >)
        requires
            old(self).wf(),
            i < old(self).ss().len(),
            old(self).ss()[i as int].state == SessionState::Active,
            old(self).ss()[i as int].device_id == Some(dev@),
        ensures
            final(self).wf(),
            crate::command::evolves(old(self).ledger@, final(self).ledger@),
            if violates(m@, dev@) {
                r == Err::<Reaction, _>(SessionError::ProtocolViolation) && ended_post(
                    *old(self),
                    *final(self),
                    i as int,
                    "protocol violation"@,
                    now,
                )
            } else {
                active_post(*old(self), *final(self), i as int, dev@, m@, now, r)
            },
    {
        let violation = match &m {
            WsMessage::Auth { .. } => true,
            WsMessage::Command { .. } => true,
            _ => Self::names_other(&m, &dev),
        };
        if violation {
            let reason = "protocol violation".to_owned();
            self.end_session(i, &reason, now);
            return Err(SessionError::ProtocolViolation);
        }
        match m {
            WsMessage::DeviceInfo { info, .. } => {
                let ghost es = self.registry@;
                let mut d = match self.registry.get(dev.as_str()) {
                    Some(d) => {
                        proof {
                            let k = choose|k: int| #[trigger] crate::registry::index_of_device(es, dev@, k) && es[k].device == d@;
                            crate::registry::lemma_pos(es, dev@, k);
                        }
                        d.duplicate()
                    },
                    None => Device::unnamed(dev, now),
                };
                d.device_info = info;
                self.registry.upsert(d, now);
                Ok(Reaction::Accepted)
            },
            WsMessage::Heartbeat { .. } => {
                self.registry.touch(dev.as_str(), now);
                let ghost old_ss = self.ss();
                let mut s = self.take(i);
                s.last_heartbeat = now;
                self.put(i, s);
                assert(self.ss() =~= old_ss.update(
                    i as int,
                    SessionModel { last_heartbeat: now, ..old_ss[i as int] },
                ));
                Ok(Reaction::Accepted)
            },
            WsMessage::Log { level, message, data, .. } => {
                let ghost before = self.log_view();
                let entry = LogEntry { id: new_uuid(), device_id: dev, level, message, data, timestamp: now };
                self.logs.push(entry);
                assert(self.log_view().drop_last() =~= before);
                Ok(Reaction::Accepted)
            },
            WsMessage::CommandResult { id, success, output, error } => {
                match self.ledger.find(id.as_str()) {
                    Some(k) => {
                        let c = self.ledger.at(k);
                        proof {
                            crate::command::lemma_unique_index(self.ledger@, id@, k as int);
                        }
                        if c.device_id != dev {
                            return Err(SessionError::Ledger(LedgerError::NotFound));
                        }
                    },
                    None => {},
                }
                let settled = if success {
                    self.ledger.complete(id.as_str(), output, now)
                } else {
                    let e = match error {
                        Some(e) => e,
                        None => "command failed".to_owned(),
                    };
                    self.ledger.fail(id.as_str(), Some(output), e, now)
                };
                match settled {
                    Ok(Settled::Applied) => Ok(Reaction::Accepted),
                    Ok(Settled::AlreadyFinal) => Ok(Reaction::AlreadyFinal),
                    Err(e) => Err(SessionError::Ledger(e)),
                }
            },
            _ => Ok(Reaction::Accepted),
        }
    }

    /// Reports the verdict on the token of the session of `conn` at `now`:
    /// the device it speaks for, or `None` when the token was refused.
    ///
    /// An admitted session becomes active and its device online, created on
    /// first sight; an earlier active session of the same device ends. A refused
    /// one is closing, with an error message queued for the agent.
    pub fn auth_result(&mut self, conn: u64, identity: Option<String>, now: i64) -> (r: Result<
        bool,
        SessionError,
    >)
        requires
            old(self).wf(),
        ensures
            final(self).wf(),
            auth_post(*old(self), *final(self), conn, text_opt(identity), now, r),
            crate::command::evolves(old(self).ledger@, final(self).ledger@),
    {
        let i = match self.find_conn(conn) {
            Some(i) => i,
            None => return Err(SessionError::UnknownConnection),
        };
        proof {
            lemma_conn_pos(self.ss(), conn, i as int);
        }
        assert(self.ss()[i as int] == self.sessions[i as int]@);
        if self.sessions[i].state != SessionState::Authenticating {
            return Err(SessionError::NotAccepting);
        }
        let ghost old_ss = self.ss();
        match identity {
            None => {
                let mut s = self.take(i);
                s.outbox = vec![
                    WsMessage::Error {
                        code: "auth_failed".to_owned(),
                        message: "authentication failed".to_owned(),
                    },
                ];
                s.state = SessionState::Closing;
                assert(s@.outbox =~= refused(old_ss[i as int]).outbox);
                self.put(i, s);
                assert(self.ss() =~= old_ss.update(i as int, refused(old_ss[i as int])));
                Ok(false)
            },
            Some(dev) => {
                match self.find_live(dev.as_str()) {
                    Some(j) => {
                        proof {
                            lemma_live_pos(self.ss(), dev@, j as int);
                        }
                        let reason = "replaced by a new connection".to_owned();
                        self.end_session(j, &reason, now);
                    },
                    None => {},
                }
                let ghost mid_ss = self.ss();
                assert(mid_ss[i as int] == old_ss[i as int]);
                if self.registry.find(dev.as_str()).is_some() {
                    self.registry.touch(dev.as_str(), now);
                } else {
                    let d = Device::unnamed(dev.clone(), now);
                    self.registry.upsert(d, now);
                }
                let mut s = self.take(i);
                s.state = SessionState::Active;
                s.device_id = Some(dev);
                s.last_heartbeat = now;
                self.put(i, s);
                let ghost want = SessionModel {
                    state: SessionState::Active,
                    device_id: Some(dev@),
                    last_heartbeat: now,
                    ..old_ss[i as int]
                };
                assert(self.ss() =~= mid_ss.update(i as int, want));
                assert(sessions_wf(self.ss())) by {
                    assert forall|a: int| 0 <= a < self.ss().len() implies (#[trigger] self.ss()[a]).conn
                        == old_ss[a].conn by {}
                    assert forall|a: int|
                        0 <= a < self.ss().len() && a != i && (#[trigger] self.ss()[a]).state
                            == SessionState::Active implies self.ss()[a].device_id != Some(dev@) by {
                        assert(!active_at(mid_ss, dev@, a));
                    }
                }
                Ok(true)
            },
        }
    }

    /// Hands the queued command `command_id` to the active session of
    /// `device_id`: the command message joins the session's outbox and the
    /// command is executing, both or neither.
    pub fn dispatch(&mut self, device_id: &str, command_id: &str) -> (r: Result<(), DispatchError>)
        requires
            old(self).wf(),
        ensures
            final(self).wf(),
            dispatch_post(*old(self), *final(self), device_id@, command_id@, r),
            crate::command::evolves(old(self).ledger@, final(self).ledger@),
    {
        let i = match self.find_live(device_id) {
            Some(i) => i,
            None => return Err(DispatchError::DeviceOffline),
        };
        proof {
            lemma_live_pos(self.ss(), device_id@, i as int);
        }
        let k = match self.ledger.find(command_id) {
            Some(k) => k,
            None => return Err(DispatchError::NotFound),
        };
        proof {
            crate::command::lemma_unique_index(self.ledger@, command_id@, k as int);
        }
        let msg = {
            let c = self.ledger.at(k);
            let t = device_id.to_owned();
            if c.device_id != t {
                return Err(DispatchError::NotFound);
            }
            WsMessage::Command { id: c.id.clone(), command: c.command.clone(), sudo: c.sudo }
        };
        match self.ledger.begin_execution(command_id) {
            Ok(()) => {},
            Err(_) => return Err(DispatchError::InvalidTransition),
        }
        let ghost old_ss = self.ss();
        let mut s = self.take(i);
        let ghost ob = s@.outbox;
        s.outbox.push(msg);
        assert(s@.outbox =~= ob.push(msg@));
        self.put(i, s);
        assert(self.ss() =~= old_ss.update(
            i as int,
            SessionModel { outbox: old_ss[i as int].outbox.push(msg@), ..old_ss[i as int] },
        ));
        Ok(())
    }

    /// Ends every active session whose last heartbeat is at least the window
    /// old at `now`: its device goes offline and the device's executing command
    /// fails.
    pub fn check_timeouts(&mut self, now: i64)
        requires
            old(self).wf(),
        ensures
            final(self).wf(),
            timeout_post(*old(self), *final(self), now),
    {
        let ghost old_hub = *self;
        let ghost ss0 = self.ss();
        let ghost cs0 = self.ledger@;
        let ghost es0 = self.registry@;
        let reason = "heartbeat timeout".to_owned();
        assert(self.registry@ =~= swept_registry(es0, ss0, now, self.timeout_ms, 0));
        assert(self.ledger@ =~= swept_ledger(cs0, ss0, now, self.timeout_ms, 0));
        let mut i: usize = 0;
        while i < self.sessions.len()
            invariant
                self.wf(),
                ss0 == old_hub.ss(),
                cs0 == old_hub.ledger@,
                self.timeout_ms == old_hub.timeout_ms,
                self.log_view() == old_hub.log_view(),
                i <= self.sessions.len(),
                self.ss().len() == ss0.len(),
                self.sessions@.len() == ss0.len(),
                only_failed(cs0, self.ledger@),
                es0 == old_hub.registry@,
                reason@ == "heartbeat timeout"@,
                self.registry@ == swept_registry(es0, ss0, now, self.timeout_ms, i as int),
                self.ledger@ == swept_ledger(cs0, ss0, now, self.timeout_ms, i as int),
                forall|a: int|
                    0 <= a < ss0.len() ==> #[trigger] self.ss()[a] == if a < i && expired(
                        ss0[a],
                        now,
                        self.timeout_ms,
                    ) {
                        closing(ss0[a])
                    } else {
                        ss0[a]
                    },
                forall|a: int|
                    0 <= a < i && #[trigger] expired(ss0[a], now, self.timeout_ms) ==> timed_out(
                        cs0,
                        self.registry@,
                        self.ledger@,
                        ss0[a].device_id->Some_0,
                    ),
            decreases self.sessions.len() - i,
        {
            assert(self.ss()[i as int] == self.sessions[i as int]@);
            let s = &self.sessions[i];
            if s.state == SessionState::Active && (now as i128) - (s.last_heartbeat as i128) >= (
            self.timeout_ms as i128) {
                let ghost before = *self;
                self.end_session(i, &reason, now);
                assert(self.ss().len() == ss0.len());
                assert(self.sessions@.len() == self.ss().len());
                let ghost dev = ss0[i as int].device_id->Some_0;
                proof {
                    assert forall|a: int|
                        0 <= a < i && #[trigger] expired(ss0[a], now, self.timeout_ms) implies timed_out(
                        cs0,
                        self.registry@,
                        self.ledger@,
                        ss0[a].device_id->Some_0,
                    ) by {
                        let d = ss0[a].device_id->Some_0;
                        assert(timed_out(cs0, before.registry@, before.ledger@, d));
                        crate::registry::lemma_offlined_keeps(before.registry@, d, dev);
                        lemma_failed_keeps(cs0, before.ledger@, d, dev, reason@, now);
                    }
                    lemma_fresh_timeout(cs0, before.registry@, before.ledger@, dev, reason@, now);
                    lemma_sweep_step(es0, cs0, ss0, now, self.timeout_ms, i as int, before.registry@, before.ledger@);
                }
            } else {
                proof {
                    lemma_sweep_skip(es0, cs0, ss0, now, self.timeout_ms, i as int);
                }
            }
            i = i + 1;
        }
        proof {
            lemma_only_failed_evolves(cs0, self.ledger@);
        }
        assert forall|a: int|
            0 <= a < ss0.len() && #[trigger] expired(ss0[a], now, self.timeout_ms) implies !executing_on(
            self.ledger@,
            ss0[a].device_id->Some_0,
        ) by {
            let d = ss0[a].device_id->Some_0;
            assert(expired_among(ss0, now, self.timeout_ms, d, ss0.len() as int));
            assert forall|k: int|
                0 <= k < self.ledger@.len() && #[trigger] self.ledger@[k].device_id == d implies self.ledger@[k].status
                != CommandStatus::Executing by {}
        }
    }

    /// Releases the session of `conn` at `now`, ending it first if it was
    /// active. Returns whether there was one; releasing twice is harmless.
    pub fn disconnect(&mut self, conn: u64, now: i64) -> (r: bool)
        requires
            old(self).wf(),
        ensures
            final(self).wf(),
            r == has_conn(old(self).ss(), conn),
            !r ==> same_records(*old(self), *final(self)) && final(self).ss() == old(self).ss(),
            r ==> released_post(*old(self), *final(self), conn_pos(old(self).ss(), conn), now),
            !has_conn(final(self).ss(), conn),
            crate::command::evolves(old(self).ledger@, final(self).ledger@),
    {
        let i = match self.find_conn(conn) {
            Some(i) => i,
            None => return false,
        };
        proof {
            lemma_conn_pos(self.ss(), conn, i as int);
        }
        let reason = "connection closed".to_owned();
        let ghost before = self.ss();
        self.end_session(i, &reason, now);
        let ghost mid = self.ss();
        assert(mid.len() == before.len());
        assert(self.sessions@.len() == mid.len());
        let _ = self.sessions.remove(i);
        assert(self.ss() =~= mid.remove(i as int));
        assert(self.ss() =~= before.remove(i as int));
        assert forall|a: int| !#[trigger] conn_at(self.ss(), conn, a) by {
            if 0 <= a < self.ss().len() {
                if a < i {
                    assert(before[a].conn != before[i as int].conn);
                } else {
                    assert(before[i as int].conn != before[a + 1].conn);
                }
            }
        }
        true
    }

    /// Takes the messages waiting for the connection `conn`, oldest first.
    pub fn take_outbox(&mut self, conn: u64) -> (r: Vec<WsMessage>)
        requires
            old(self).wf(),
        ensures
            final(self).wf(),
            same_records(*old(self), *final(self)),
            !has_conn(old(self).ss(), conn) ==> r@.len() == 0 && final(self).ss() == old(self).ss(),
            has_conn(old(self).ss(), conn) ==> {
                let i = conn_pos(old(self).ss(), conn);
                &&& r@.map_values(|m: WsMessage| m@) == old(self).ss()[i].outbox
                &&& final(self).ss() == old(self).ss().update(
                    i,
                    SessionModel { outbox: Seq::empty(), ..old(self).ss()[i] },
                )
            },
    {
        let i = match self.find_conn(conn) {
            Some(i) => i,
            None => return Vec::new(),
        };
        proof {
            lemma_conn_pos(self.ss(), conn, i as int);
        }
        let ghost old_ss = self.ss();
        let mut s = self.take(i);
        let mut out: Vec<WsMessage> = Vec::new();
        std::mem::swap(&mut out, &mut s.outbox);
        self.put(i, s);
        assert(s@.outbox =~= Seq::<MsgModel>::empty());
        assert(self.ss() =~= old_ss.update(
            i as int,
            SessionModel { outbox: Seq::empty(), ..old_ss[i as int] },
        ));
        out
    }

    /// Records a new queued command for `device_id`; see `CommandLedger::enqueue`.
    pub fn enqueue_command(&mut self, device_id: String, text: String, sudo: bool) -> (r: Result<
        String,
        LedgerError,
    >)
        requires
            old(self).wf(),
        ensures
            final(self).wf(),
            final(self).ss() == old(self).ss(),
            final(self).registry@ == old(self).registry@,
            final(self).log_view() == old(self).log_view(),
            crate::command::evolves(old(self).ledger@, final(self).ledger@),
            crate::command::no_generated_ids(old(self).ledger@) ==> r is Ok,
            match r {
                Ok(id) => {
                    &&& id@.len() == 36
                    &&& final(self).ledger@.len() == old(self).ledger@.len() + 1
                    &&& final(self).ledger@.drop_last() == old(self).ledger@
                    &&& !has_id(old(self).ledger@, id@)
                    &&& final(self).ledger@.last().id == id@
                    &&& final(self).ledger@.last().device_id == device_id@
                    &&& final(self).ledger@.last().command == text@
                    &&& final(self).ledger@.last().sudo == sudo
                    &&& final(self).ledger@.last().status == CommandStatus::Queued
                },
                Err(e) => e == LedgerError::DuplicateId && final(self).ledger@ == old(self).ledger@,
            },
    {
        self.ledger.enqueue(device_id, text, sudo)
    }

    /// The command named `id`.
    pub fn get_command(&self, id: &str) -> (r: Option<&Command>)
        ensures
            match r {
                Some(c) => c@.id == id@ && exists|i: int|
                    0 <= i < self.ledger@.len() && #[trigger] self.ledger@[i] == c@,
                None => !has_id(self.ledger@, id@),
            },
    {
        self.ledger.get(id)
    }

    /// The online devices, most recently seen first.
    pub fn list_online_devices(&self) -> (r: Vec<Device>)
        ensures
            r@.map_values(|d: Device| d@) == crate::order::by_seen(online_devices(self.registry@)),
            crate::order::seen_desc(r@.map_values(|d: Device| d@)),
            forall|i: int| 0 <= i < r@.len() ==> online_in(self.registry@, (#[trigger] r@[i])@.id),
            forall|k: int|
                0 <= k < self.registry@.len() && self.registry@[k].online ==> r@.map_values(
                    |d: Device| d@,
                ).contains(#[trigger] self.registry@[k].device),
    {
        let ghost es = self.registry@;
        let ghost od = online_devices(es);
        proof {
            crate::order::lemma_by_seen(od);
            crate::registry::lemma_online_devices_members(es);
        }
        let r = crate::order::sort_devices_by_seen(self.registry.list_online());
        let ghost rv = r@.map_values(|d: Device| d@);
        proof {
            broadcast use vstd::seq_lib::group_to_multiset_ensures;

            assert forall|i: int| 0 <= i < r@.len() implies online_in(es, (#[trigger] r@[i])@.id) by {
                assert(rv[i] == r@[i]@);
                assert(rv.contains(rv[i]));
                assert(od.to_multiset().count(rv[i]) > 0);
                assert(od.contains(rv[i]));
                let j = choose|j: int| 0 <= j < od.len() && od[j] == rv[i];
                assert(crate::registry::has_online_entry(es, od[j]));
                let k = choose|k: int| 0 <= k < es.len() && es[k].online && #[trigger] es[k].device == od[j];
                assert(crate::registry::index_of_device(es, rv[i].id, k));
            }
            assert forall|k: int| 0 <= k < es.len() && es[k].online implies rv.contains(
                #[trigger] es[k].device,
            ) by {
                assert(od.contains(es[k].device));
                assert(od.to_multiset().count(es[k].device) > 0);
            }
        }
        r
    }
}


/// The position of the session of `conn`, where there is one.
pub open spec fn conn_pos(ss: Seq<SessionModel>, conn: u64) -> int {
    choose|i: int| #[trigger] conn_at(ss, conn, i)
}

pub proof fn lemma_conn_pos(ss: Seq<SessionModel>, conn: u64, i: int)
    requires
        sessions_wf(ss),
        conn_at(ss, conn, i),
    ensures
        conn_pos(ss, conn) == i,
{
    let j = conn_pos(ss, conn);
    assert(conn_at(ss, conn, j));
    if j < i {
        assert(ss[j].conn != ss[i].conn);
    } else if i < j {
        assert(ss[i].conn != ss[j].conn);
    }
}

/// However the hub is driven, no device ever has two commands executing.
pub proof fn lemma_one_executing_per_device(h: Hub, i: int, j: int)
    requires
        h.wf(),
        0 <= i < h.ledger@.len(),
        0 <= j < h.ledger@.len(),
        h.ledger@[i].status == CommandStatus::Executing,
        h.ledger@[j].status == CommandStatus::Executing,
        h.ledger@[i].device_id == h.ledger@[j].device_id,
    ensures
        i == j,
{
}

/// Devices, commands, logs and the window stay as they were.
pub open spec fn same_records(old: Hub, new: Hub) -> bool {
    &&& new.registry@ == old.registry@
    &&& new.ledger@ == old.ledger@
    &&& new.log_view() == old.log_view()
    &&& new.timeout_ms == old.timeout_ms
}

/// The effect of ending the session at `i` for `reason` at `now`: it is closing;
/// if it was active, its device is offline and the device's executing command
/// has failed with `reason`.
pub open spec fn ended_post(old: Hub, new: Hub, i: int, reason: Seq<char>, now: i64) -> bool {
    &&& new.ss() == old.ss().update(i, closing(old.ss()[i]))
    &&& new.log_view() == old.log_view()
    &&& new.timeout_ms == old.timeout_ms
    &&& match old.ss()[i].device_id {
        Some(dev) => {
            &&& new.registry@ == offlined(old.registry@, dev)
            &&& new.ledger@ == failed_in_flight(old.ledger@, dev, reason, now)
        },
        None => new.registry@ == old.registry@ && new.ledger@ == old.ledger@,
    }
}

/// The error text of a command result: none on success; otherwise the
/// reported one, or a generic one.
pub open spec fn result_error(success: bool, error: Option<Seq<char>>) -> Option<Seq<char>> {
    if success {
        None
    } else {
        match error {
            Some(e) => Some(e),
            None => Some("command failed"@),
        }
    }
}

/// How a session reports what the ledger did with a command result.
pub open spec fn settled_as(r: Result<Reaction, SessionError>) -> Result<Settled, LedgerError> {
    match r {
        Ok(Reaction::AlreadyFinal) => Ok(Settled::AlreadyFinal),
        Err(SessionError::Ledger(e)) => Err(e),
        _ => Ok(Settled::Applied),
    }
}

pub open spec fn reports_settlement(r: Result<Reaction, SessionError>) -> bool {
    match r {
        Ok(Reaction::Accepted) => true,
        Ok(Reaction::AlreadyFinal) => true,
        Err(SessionError::Ledger(_)) => true,
        _ => false,
    }
}

pub open spec fn is_accepted(r: Result<Reaction, SessionError>) -> bool {
    match r {
        Ok(Reaction::Accepted) => true,
        _ => false,
    }
}

/// What an active session for `dev`, at position `i`, does with the allowed
/// message `m` at `now`.
pub open spec fn active_post(
    old: Hub,
    new: Hub,
    i: int,
    dev: Seq<char>,
    m: MsgModel,
    now: i64,
    r: Result<Reaction, SessionError>,
) -> bool {
    &&& new.timeout_ms == old.timeout_ms
    &&& match m {
        MsgModel::DeviceInfo { info, .. } => {
            &&& is_accepted(r)
            &&& new.registry@ == upserted(old.registry@, info_record(old.registry@, dev, info, now), now)
            &&& new.ss() == old.ss() && new.ledger@ == old.ledger@ && new.log_view() == old.log_view()
        },
        MsgModel::Heartbeat { .. } => {
            &&& is_accepted(r)
            &&& new.registry@ == touched(old.registry@, dev, now)
            &&& new.ss() == old.ss().update(i, SessionModel { last_heartbeat: now, ..old.ss()[i] })
            &&& new.ledger@ == old.ledger@ && new.log_view() == old.log_view()
        },
        MsgModel::Log { level, message, data, .. } => {
            &&& is_accepted(r)
            &&& new.log_view().len() == old.log_view().len() + 1
            &&& new.log_view().drop_last() == old.log_view()
            &&& new.log_view().last() == LogModel {
                id: new.log_view().last().id,
                device_id: dev,
                level,
                message,
                data,
                timestamp: now,
            }
            &&& new.ss() == old.ss() && new.ledger@ == old.ledger@ && new.registry@ == old.registry@
        },
        MsgModel::CommandResult { id, success, output, error } => if foreign_command(
            old.ledger@,
            id,
            dev,
        ) {
            r == Err::<Reaction, _>(SessionError::Ledger(LedgerError::NotFound)) && same_records(
                old,
                new,
            ) && new.ss() == old.ss()
        } else {
            &&& reports_settlement(r)
            &&& settle_post(
                old.ledger@,
                new.ledger@,
                id,
                if success {
                    CommandStatus::Completed
                } else {
                    CommandStatus::Failed
                },
                Some(output),
                result_error(success, error),
                now,
                settled_as(r),
            )
            &&& new.ss() == old.ss() && new.registry@ == old.registry@ && new.log_view()
                == old.log_view()
        },
        _ => is_accepted(r) && same_records(old, new) && new.ss() == old.ss(),
    }
}

/// The command named `id` belongs to a device other than `dev`.
pub open spec fn foreign_command(cs: Seq<CommandModel>, id: Seq<char>, dev: Seq<char>) -> bool {
    exists|k: int| 0 <= k < cs.len() && #[trigger] cs[k].id == id && cs[k].device_id != dev
}

/// What the session of `conn` does with message `m` at `now`.
pub open spec fn receive_post(
    old: Hub,
    new: Hub,
    conn: u64,
    m: MsgModel,
    now: i64,
    r: Result<Reaction, SessionError>,
) -> bool {
    if !has_conn(old.ss(), conn) {
        r == Err::<Reaction, _>(SessionError::UnknownConnection) && same_records(old, new) && new.ss()
            == old.ss()
    } else {
        let i = conn_pos(old.ss(), conn);
        let s = old.ss()[i];
        match s.state {
            SessionState::Connecting => match m {
                MsgModel::Auth { token } => {
                    &&& match r {
                        Ok(Reaction::Verify(t)) => t@ == token,
                        _ => false,
                    }
                    &&& new.ss() == old.ss().update(
                        i,
                        SessionModel { state: SessionState::Authenticating, ..s },
                    )
                    &&& same_records(old, new)
                },
                _ => r == Err::<Reaction, _>(SessionError::ProtocolViolation) && new.ss()
                    == old.ss().update(i, closing(s)) && same_records(old, new),
            },
            SessionState::Authenticating => r == Err::<Reaction, _>(SessionError::ProtocolViolation)
                && new.ss() == old.ss().update(i, closing(s)) && same_records(old, new),
            SessionState::Active => {
                let dev = s.device_id->Some_0;
                if violates(m, dev) {
                    r == Err::<Reaction, _>(SessionError::ProtocolViolation) && ended_post(
                        old,
                        new,
                        i,
                        "protocol violation"@,
                        now,
                    )
                } else {
                    active_post(old, new, i, dev, m, now, r)
                }
            },
            _ => r == Err::<Reaction, _>(SessionError::NotAccepting) && same_records(old, new)
                && new.ss() == old.ss(),
        }
    }
}


/// The position of the active session of `dev`, where there is one.
pub open spec fn live_pos(ss: Seq<SessionModel>, dev: Seq<char>) -> int {
    choose|i: int| #[trigger] active_at(ss, dev, i)
}

pub proof fn lemma_live_pos(ss: Seq<SessionModel>, dev: Seq<char>, i: int)
    requires
        sessions_wf(ss),
        active_at(ss, dev, i),
    ensures
        live_pos(ss, dev) == i,
{
    let j = live_pos(ss, dev);
    assert(active_at(ss, dev, j));
    if i != j {
        assert(ss[i].device_id != ss[j].device_id);
    }
}

/// A refused session: closing, with one error message for the agent.
pub open spec fn refused(s: SessionModel) -> SessionModel {
    SessionModel {
        state: SessionState::Closing,
        device_id: None,
        outbox: seq![
            MsgModel::Error { code: "auth_failed"@, message: "authentication failed"@ },
        ],
        ..s
    }
}

/// What reporting `identity` for the session of `conn` at `now` does.
pub open spec fn auth_post(
    old: Hub,
    new: Hub,
    conn: u64,
    identity: Option<Seq<char>>,
    now: i64,
    r: Result<bool, SessionError>,
) -> bool {
    &&& new.timeout_ms == old.timeout_ms
    &&& new.log_view() == old.log_view()
    &&& if !has_conn(old.ss(), conn) {
        r == Err::<bool, _>(SessionError::UnknownConnection) && same_records(old, new) && new.ss()
            == old.ss()
    } else {
        let i = conn_pos(old.ss(), conn);
        let s = old.ss()[i];
        if s.state != SessionState::Authenticating {
            r == Err::<bool, _>(SessionError::NotAccepting) && same_records(old, new) && new.ss()
                == old.ss()
        } else {
            match identity {
                None => r == Ok::<_, SessionError>(false) && same_records(old, new) && new.ss()
                    == old.ss().update(i, refused(s)),
                Some(dev) => {
                    let was_live = live(old.ss(), dev);
                    let j = live_pos(old.ss(), dev);
                    let es = if was_live {
                        offlined(old.registry@, dev)
                    } else {
                        old.registry@
                    };
                    let ss = if was_live {
                        old.ss().update(j, closing(old.ss()[j]))
                    } else {
                        old.ss()
                    };
                    &&& r == Ok::<_, SessionError>(true)
                    &&& new.ledger@ == if was_live {
                        failed_in_flight(old.ledger@, dev, "replaced by a new connection"@, now)
                    } else {
                        old.ledger@
                    }
                    &&& new.registry@ == admitted(es, dev, now)
                    &&& new.ss() == ss.update(
                        i,
                        SessionModel {
                            state: SessionState::Active,
                            device_id: Some(dev),
                            last_heartbeat: now,
                            ..s
                        },
                    )
                },
            }
        }
    }
}

/// What handing command `cid` to device `dev` does.
pub open spec fn dispatch_post(
    old: Hub,
    new: Hub,
    dev: Seq<char>,
    cid: Seq<char>,
    r: Result<(), DispatchError>,
) -> bool {
    &&& new.timeout_ms == old.timeout_ms
    &&& new.log_view() == old.log_view()
    &&& new.registry@ == old.registry@
    &&& r is Err ==> new.ledger@ == old.ledger@ && new.ss() == old.ss()
    &&& !live(old.ss(), dev) ==> r == Err::<(), _>(DispatchError::DeviceOffline)
    &&& live(old.ss(), dev) && !has_id(old.ledger@, cid) ==> r == Err::<(), _>(DispatchError::NotFound)
    &&& live(old.ss(), dev) ==> forall|k: int|
        0 <= k < old.ledger@.len() && #[trigger] old.ledger@[k].id == cid ==> {
            let c = old.ledger@[k];
            if c.device_id != dev {
                r == Err::<(), _>(DispatchError::NotFound)
            } else if c.status == CommandStatus::Queued && !executing_on(old.ledger@, dev) {
                let i = live_pos(old.ss(), dev);
                &&& r is Ok
                &&& new.ledger@ == old.ledger@.update(k, c.with_status(CommandStatus::Executing))
                &&& new.ss() == old.ss().update(
                    i,
                    SessionModel {
                        outbox: old.ss()[i].outbox.push(
                            MsgModel::Command { id: cid, command: c.command, sudo: c.sudo },
                        ),
                        ..old.ss()[i]
                    },
                )
            } else {
                r == Err::<(), _>(DispatchError::InvalidTransition)
            }
        }
}

/// After a heartbeat timeout of `dev`: it is offline, and each of its
/// commands that was executing in `cs0` has failed.
pub open spec fn timed_out(
    cs0: Seq<CommandModel>,
    es: Seq<EntryModel>,
    cs: Seq<CommandModel>,
    dev: Seq<char>,
) -> bool {
    &&& !online_in(es, dev)
    &&& cs.len() >= cs0.len()
    &&& forall|k: int|
        0 <= k < cs0.len() && #[trigger] cs0[k].device_id == dev && cs0[k].status
            == CommandStatus::Executing ==> cs[k].status == CommandStatus::Failed
}

/// What a timeout sweep at `now` does: exactly the expired sessions end, each
/// with its device offline and the device's executing command failed, and no
/// command moves backwards.
pub open spec fn timeout_post(old: Hub, new: Hub, now: i64) -> bool {
    &&& new.registry@ == swept_registry(old.registry@, old.ss(), now, old.timeout_ms, old.ss().len() as int)
    &&& new.ledger@ == swept_ledger(old.ledger@, old.ss(), now, old.timeout_ms, old.ss().len() as int)
    &&& forall|a: int|
        0 <= a < old.ss().len() && #[trigger] expired(old.ss()[a], now, old.timeout_ms) ==> !executing_on(
            new.ledger@,
            old.ss()[a].device_id->Some_0,
        )
    &&& new.timeout_ms == old.timeout_ms
    &&& new.log_view() == old.log_view()
    &&& new.ss().len() == old.ss().len()
    &&& crate::command::evolves(old.ledger@, new.ledger@)
    &&& forall|a: int|
        0 <= a < old.ss().len() ==> #[trigger] new.ss()[a] == if expired(old.ss()[a], now, old.timeout_ms) {
            closing(old.ss()[a])
        } else {
            old.ss()[a]
        }
    &&& forall|a: int|
        0 <= a < old.ss().len() && #[trigger] expired(old.ss()[a], now, old.timeout_ms) ==> timed_out(
            old.ledger@,
            new.registry@,
            new.ledger@,
            old.ss()[a].device_id->Some_0,
        )
}

/// One of the first `n` sessions of `ss` speaks for `d` and has expired.
pub open spec fn expired_among(ss: Seq<SessionModel>, now: i64, window: i64, d: Seq<char>, n: int) -> bool {
    exists|a: int| 0 <= a < n && #[trigger] expired(ss[a], now, window) && ss[a].device_id == Some(d)
}

/// The registry after the first `n` sessions of `ss` are swept: exactly the
/// devices of expired sessions are offline now; nothing else changes.
pub open spec fn swept_registry(
    es: Seq<EntryModel>,
    ss: Seq<SessionModel>,
    now: i64,
    window: i64,
    n: int,
) -> Seq<EntryModel> {
    Seq::new(
        es.len(),
        |k: int|
            if expired_among(ss, now, window, es[k].device.id, n) {
                EntryModel { online: false, ..es[k] }
            } else {
                es[k]
            },
    )
}

/// The ledger after the first `n` sessions of `ss` are swept: exactly the
/// executing commands of devices of expired sessions have failed at `now`
/// with a heartbeat-timeout error; nothing else changes.
pub open spec fn swept_ledger(
    cs: Seq<CommandModel>,
    ss: Seq<SessionModel>,
    now: i64,
    window: i64,
    n: int,
) -> Seq<CommandModel> {
    Seq::new(
        cs.len(),
        |k: int|
            if cs[k].status == CommandStatus::Executing && expired_among(ss, now, window, cs[k].device_id, n) {
                cs[k].ended(CommandStatus::Failed, None, Some("heartbeat timeout"@), now)
            } else {
                cs[k]
            },
    )
}

proof fn lemma_among_step(ss: Seq<SessionModel>, now: i64, window: i64, d: Seq<char>, i: int)
    requires
        0 <= i < ss.len(),
    ensures
        expired_among(ss, now, window, d, i + 1) == (expired_among(ss, now, window, d, i) || (
        expired(ss[i], now, window) && ss[i].device_id == Some(d))),
{
    if expired_among(ss, now, window, d, i + 1) {
        let a = choose|a: int|
            0 <= a < i + 1 && #[trigger] expired(ss[a], now, window) && ss[a].device_id == Some(d);
        if a < i {
            assert(expired_among(ss, now, window, d, i));
        }
    }
    if expired_among(ss, now, window, d, i) {
        let a = choose|a: int|
            0 <= a < i && #[trigger] expired(ss[a], now, window) && ss[a].device_id == Some(d);
        assert(expired_among(ss, now, window, d, i + 1));
    }
    if expired(ss[i], now, window) && ss[i].device_id == Some(d) {
        assert(expired_among(ss, now, window, d, i + 1));
    }
}

proof fn lemma_sweep_skip(
    es: Seq<EntryModel>,
    cs: Seq<CommandModel>,
    ss: Seq<SessionModel>,
    now: i64,
    window: i64,
    i: int,
)
    requires
        0 <= i < ss.len(),
        !expired(ss[i], now, window),
    ensures
        swept_registry(es, ss, now, window, i + 1) == swept_registry(es, ss, now, window, i),
        swept_ledger(cs, ss, now, window, i + 1) == swept_ledger(cs, ss, now, window, i),
{
    assert forall|d: Seq<char>|
        expired_among(ss, now, window, d, i + 1) == #[trigger] expired_among(ss, now, window, d, i) by {
        lemma_among_step(ss, now, window, d, i);
    }
    assert(swept_registry(es, ss, now, window, i + 1) =~= swept_registry(es, ss, now, window, i));
    assert(swept_ledger(cs, ss, now, window, i + 1) =~= swept_ledger(cs, ss, now, window, i));
}

proof fn lemma_sweep_step(
    es: Seq<EntryModel>,
    cs: Seq<CommandModel>,
    ss: Seq<SessionModel>,
    now: i64,
    window: i64,
    i: int,
    es_i: Seq<EntryModel>,
    cs_i: Seq<CommandModel>,
)
    requires
        0 <= i < ss.len(),
        expired(ss[i], now, window),
        ss[i].device_id is Some,
        crate::registry::ids_unique(es_i),
        es_i == swept_registry(es, ss, now, window, i),
        cs_i == swept_ledger(cs, ss, now, window, i),
    ensures
        offlined(es_i, ss[i].device_id->Some_0) == swept_registry(es, ss, now, window, i + 1),
        failed_in_flight(cs_i, ss[i].device_id->Some_0, "heartbeat timeout"@, now) == swept_ledger(
            cs,
            ss,
            now,
            window,
            i + 1,
        ),
{
    let dev = ss[i].device_id->Some_0;
    assert forall|d: Seq<char>|
        #[trigger] expired_among(ss, now, window, d, i + 1) == (expired_among(ss, now, window, d, i)
            || d == dev) by {
        lemma_among_step(ss, now, window, d, i);
    }
    crate::registry::lemma_offlined_at(es_i, dev);
    assert(offlined(es_i, dev) =~= swept_registry(es, ss, now, window, i + 1));
    assert(failed_in_flight(cs_i, dev, "heartbeat timeout"@, now) =~= swept_ledger(
        cs,
        ss,
        now,
        window,
        i + 1,
    ));
}

/// What releasing the session at `i` at `now` does.
pub open spec fn released_post(old: Hub, new: Hub, i: int, now: i64) -> bool {
    &&& new.ss() == old.ss().remove(i)
    &&& new.log_view() == old.log_view()
    &&& new.timeout_ms == old.timeout_ms
    &&& match old.ss()[i].device_id {
        Some(dev) => {
            &&& new.registry@ == offlined(old.registry@, dev)
            &&& new.ledger@ == failed_in_flight(old.ledger@, dev, "connection closed"@, now)
        },
        None => new.registry@ == old.registry@ && new.ledger@ == old.ledger@,
    }
}

proof fn lemma_failed_keeps(
    cs0: Seq<CommandModel>,
    cs: Seq<CommandModel>,
    d: Seq<char>,
    other: Seq<char>,
    reason: Seq<char>,
    now: i64,
)
    requires
        cs.len() >= cs0.len(),
        forall|k: int|
            0 <= k < cs0.len() && #[trigger] cs0[k].device_id == d && cs0[k].status
                == CommandStatus::Executing ==> cs[k].status == CommandStatus::Failed,
    ensures
        forall|k: int|
            0 <= k < cs0.len() && #[trigger] cs0[k].device_id == d && cs0[k].status
                == CommandStatus::Executing ==> failed_in_flight(cs, other, reason, now)[k].status
                == CommandStatus::Failed,
{
}

/// `cs` is `cs0` but for commands that were executing and have failed.
pub open spec fn only_failed(cs0: Seq<CommandModel>, cs: Seq<CommandModel>) -> bool {
    &&& cs.len() == cs0.len()
    &&& forall|k: int|
        0 <= k < cs0.len() ==> #[trigger] cs[k] == cs0[k] || (cs0[k].status
            == CommandStatus::Executing && cs[k].status == CommandStatus::Failed && cs[k].id
            == cs0[k].id && cs[k].device_id == cs0[k].device_id)
}

proof fn lemma_only_failed_evolves(cs0: Seq<CommandModel>, cs: Seq<CommandModel>)
    requires
        only_failed(cs0, cs),
    ensures
        crate::command::evolves(cs0, cs),
{
    assert forall|k: int| 0 <= k < cs0.len() implies crate::command::status_step(
        cs0[k].status,
        (#[trigger] cs[k]).status,
    ) by {}
}

proof fn lemma_fresh_timeout(
    cs0: Seq<CommandModel>,
    es: Seq<EntryModel>,
    cs: Seq<CommandModel>,
    dev: Seq<char>,
    reason: Seq<char>,
    now: i64,
)
    requires
        crate::registry::ids_unique(es),
        only_failed(cs0, cs),
    ensures
        timed_out(cs0, offlined(es, dev), failed_in_flight(cs, dev, reason, now), dev),
        only_failed(cs0, failed_in_flight(cs, dev, reason, now)),
{
    crate::registry::lemma_offlined_offline(es, dev);
    let f = failed_in_flight(cs, dev, reason, now);
    assert forall|k: int|
        0 <= k < cs0.len() && #[trigger] cs0[k].device_id == dev && cs0[k].status
            == CommandStatus::Executing implies f[k].status == CommandStatus::Failed by {
        assert(cs[k] == cs0[k] || cs[k].status == CommandStatus::Failed);
    }
    assert forall|k: int| 0 <= k < cs0.len() implies #[trigger] f[k] == cs0[k] || (cs0[k].status
        == CommandStatus::Executing && f[k].status == CommandStatus::Failed && f[k].id == cs0[k].id
        && f[k].device_id == cs0[k].device_id) by {
        assert(cs[k] == cs0[k] || cs[k].status == CommandStatus::Failed);
    }
}

} // verus!
