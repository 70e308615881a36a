//! The command ledger: every command ever submitted, and its lifecycle
//! `queued -> executing -> completed | failed`.
use vstd::prelude::*;

use crate::sys::{new_uuid, now_millis};

verus! {

#[derive(PartialEq, Eq, Structural, Clone, Copy, Debug)]
pub enum CommandStatus {
    Queued,
    Executing,
    Completed,
    Failed,
}

impl CommandStatus {
    pub open spec fn is_terminal(self) -> bool {
        self == CommandStatus::Completed || self == CommandStatus::Failed
    }

    /// The position of a status on the lifecycle.
    pub open spec fn rank(self) -> int {
        match self {
            CommandStatus::Queued => 0,
            CommandStatus::Executing => 1,
            _ => 2,
        }
    }

    /// The status name used on the wire and in storage.
    pub fn as_text(&self) -> (r: String)
        ensures
            r@ == status_name(*self),
    {
        match self {
            CommandStatus::Queued => "queued".to_owned(),
            CommandStatus::Executing => "executing".to_owned(),
            CommandStatus::Completed => "completed".to_owned(),
            CommandStatus::Failed => "failed".to_owned(),
        }
    }
}

pub open spec fn status_name(s: CommandStatus) -> Seq<char> {
    match s {
        CommandStatus::Queued => "queued"@,
        CommandStatus::Executing => "executing"@,
        CommandStatus::Completed => "completed"@,
        CommandStatus::Failed => "failed"@,
    }
}

/// One step of the lifecycle, or no step.
pub open spec fn status_step(a: CommandStatus, b: CommandStatus) -> bool {
    a == b || (a == CommandStatus::Queued && b == CommandStatus::Executing) || (a
        == CommandStatus::Executing && b.is_terminal())
}

/// `b` can be observed after `a`: it lies no earlier on the lifecycle, and a
/// terminal status never changes.
pub open spec fn status_reach(a: CommandStatus, b: CommandStatus) -> bool {
    a == b || (!a.is_terminal() && a.rank() < b.rank())
}

/// A submitted shell command and its outcome.
#[derive(Clone, Debug, PartialEq, Eq)]
pub struct Command {
    pub id: String,
    pub device_id: String,
    pub command: String,
    pub sudo: bool,
    pub output: Option<String>,
    pub error: Option<String>,
    pub status: CommandStatus,
    pub created_at: i64,
    pub completed_at: Option<i64>,
}

pub struct CommandModel {
    pub id: Seq<char>,
    pub device_id: Seq<char>,
    pub command: Seq<char>,
    pub sudo: bool,
    pub output: Option<Seq<char>>,
    pub error: Option<Seq<char>>,
    pub status: CommandStatus,
    pub created_at: i64,
    pub completed_at: Option<i64>,
}

pub open spec fn text_opt(o: Option<String>) -> Option<Seq<char>> {
    match o {
        Some(s) => Some(s@),
        None => None,
    }
}

impl View for Command {
    type V = CommandModel;

    open spec fn view(&self) -> CommandModel {
        CommandModel {
            id: self.id@,
            device_id: self.device_id@,
            command: self.command@,
            sudo: self.sudo,
            output: text_opt(self.output),
            error: text_opt(self.error),
            status: self.status,
            created_at: self.created_at,
            completed_at: self.completed_at,
        }
    }
}

pub fn copy_text(o: &Option<String>) -> (r: Option<String>)
    ensures
        text_opt(r) == text_opt(*o),
{
    match o {
        Some(s) => Some(s.clone()),
        None => None,
    }
}

impl Command {
    /// A copy of this command.
    pub fn duplicate(&self) -> (r: Command)
        ensures
            r@ == self@,
    {
        Command {
            id: self.id.clone(),
            device_id: self.device_id.clone(),
            command: self.command.clone(),
            sudo: self.sudo,
            output: copy_text(&self.output),
            error: copy_text(&self.error),
            status: self.status,
            created_at: self.created_at,
            completed_at: self.completed_at,
        }
    }
}

impl CommandModel {
    /// Output, error and completion time are present only once the command has ended.
    pub open spec fn consistent(self) -> bool {
        &&& (self.output.is_some() || self.error.is_some()) ==> self.status.is_terminal()
        &&& self.completed_at.is_some() <==> self.status.is_terminal()
    }

    /// The same command after one lifecycle step to `s`.
    pub open spec fn with_status(self, s: CommandStatus) -> CommandModel {
        CommandModel { status: s, ..self }
    }

    /// The same command, ended with status `s` at `at`.
    pub open spec fn ended(
        self,
        s: CommandStatus,
        output: Option<Seq<char>>,
        error: Option<Seq<char>>,
        at: i64,
    ) -> CommandModel {
        CommandModel { status: s, output, error, completed_at: Some(at), ..self }
    }
}

/// Why a ledger operation was refused.
#[derive(PartialEq, Eq, Structural, Clone, Copy, Debug)]
pub enum LedgerError {
    /// No command has the given identifier.
    NotFound,
    /// The command is not in a state from which the step may be taken.
    InvalidTransition,
    /// A command with the generated identifier exists already.
    DuplicateId,
}

/// What a result report did to its command.
#[derive(PartialEq, Eq, Structural, Clone, Copy, Debug)]
pub enum Settled {
    /// The command ended now.
    Applied,
    /// The command had ended before; nothing changed.
    AlreadyFinal,
}

pub open spec fn has_id(cs: Seq<CommandModel>, id: Seq<char>) -> bool {
    exists|i: int| 0 <= i < cs.len() && #[trigger] cs[i].id == id
}

pub open spec fn executing_on(cs: Seq<CommandModel>, device: Seq<char>) -> bool {
    exists|i: int|
        0 <= i < cs.len() && #[trigger] cs[i].device_id == device && cs[i].status
            == CommandStatus::Executing
}

/// No identifier in `cs` has the length of a generated one, so a generated
/// identifier cannot collide.
pub open spec fn no_generated_ids(cs: Seq<CommandModel>) -> bool {
    forall|i: int| 0 <= i < cs.len() ==> (#[trigger] cs[i]).id.len() != 36
}

pub open spec fn ids_unique(cs: Seq<CommandModel>) -> bool {
    forall|i: int, j: int| 0 <= i < j < cs.len() ==> #[trigger] cs[i].id != #[trigger] cs[j].id
}

/// No device has two commands executing.
pub open spec fn one_in_flight(cs: Seq<CommandModel>) -> bool {
    forall|i: int, j: int|
        0 <= i < cs.len() && 0 <= j < cs.len() && i != j && #[trigger] cs[i].status
            == CommandStatus::Executing && #[trigger] cs[j].status == CommandStatus::Executing
            ==> cs[i].device_id != cs[j].device_id
}

pub open spec fn ledger_wf(cs: Seq<CommandModel>) -> bool {
    &&& ids_unique(cs)
    &&& one_in_flight(cs)
    &&& forall|i: int| 0 <= i < cs.len() ==> (#[trigger] cs[i]).consistent()
}

/// `new` is a later state of the ledger `old`: no command is lost or renamed,
/// and each one's status moved by at most one lifecycle step.
pub open spec fn evolves(old: Seq<CommandModel>, new: Seq<CommandModel>) -> bool {
    &&& old.len() <= new.len()
    &&& forall|i: int|
        0 <= i < old.len() ==> {
            &&& (#[trigger] new[i]).id == old[i].id
            &&& new[i].device_id == old[i].device_id
            &&& status_step(old[i].status, new[i].status)
            &&& old[i].status.is_terminal() ==> new[i] == old[i]
        }
}

/// `new` is reachable from `old` by any number of ledger operations.
pub open spec fn reaches(old: Seq<CommandModel>, new: Seq<CommandModel>) -> bool {
    &&& old.len() <= new.len()
    &&& forall|i: int|
        0 <= i < old.len() ==> {
            &&& (#[trigger] new[i]).id == old[i].id
            &&& new[i].device_id == old[i].device_id
            &&& status_reach(old[i].status, new[i].status)
            &&& old[i].status.is_terminal() ==> new[i] == old[i]
        }
}

/// Statuses never move backwards: whatever operations run between two
/// observations of the ledger, each command's later status follows its earlier
/// one on `queued, executing, completed | failed`, and a terminal command stays
/// exactly as it was.
pub proof fn lemma_status_never_regresses(
    a: Seq<CommandModel>,
    b: Seq<CommandModel>,
    c: Seq<CommandModel>,
)
    requires
        reaches(a, b),
        evolves(b, c),
    ensures
        reaches(a, c),
{
    assert forall|i: int| 0 <= i < a.len() implies status_reach(a[i].status, (#[trigger] c[i]).status)
        by {
        assert(status_reach(a[i].status, b[i].status));
        assert(status_step(b[i].status, c[i].status));
    }
}

/// In a ledger with unique identifiers, one position holds `id`.
pub proof fn lemma_unique_index(cs: Seq<CommandModel>, id: Seq<char>, k: int)
    requires
        ids_unique(cs),
        0 <= k < cs.len(),
        cs[k].id == id,
    ensures
        forall|j: int| 0 <= j < cs.len() && #[trigger] cs[j].id == id ==> j == k,
{
    assert forall|j: int| 0 <= j < cs.len() && #[trigger] cs[j].id == id implies j == k by {
        if j < k {
            assert(cs[j].id != cs[k].id);
        } else if k < j {
            assert(cs[k].id != cs[j].id);
        }
    }
}

/// The effect of starting the command named `id` on ledger `a`, giving `b`;
/// `ok` says whether it started.
pub open spec fn begin_step(a: Seq<CommandModel>, b: Seq<CommandModel>, id: Seq<char>, ok: bool) -> bool {
    if exists|i: int|
        0 <= i < a.len() && #[trigger] a[i].id == id && a[i].status == CommandStatus::Queued
            && !executing_on(a, a[i].device_id) {
        ok && exists|i: int|
            0 <= i < a.len() && #[trigger] a[i].id == id && b == a.update(
                i,
                a[i].with_status(CommandStatus::Executing),
            )
    } else {
        !ok && b == a
    }
}

/// `id` names a command of `d` in `cs`.
pub open spec fn names_command_of(cs: Seq<CommandModel>, id: Seq<char>, d: Seq<char>) -> bool {
    exists|k: int| 0 <= k < cs.len() && #[trigger] cs[k].id == id && cs[k].device_id == d
}

/// Two ledgers hold the same commands, position by position, by name and device.
pub open spec fn same_names(a: Seq<CommandModel>, b: Seq<CommandModel>) -> bool {
    &&& b.len() == a.len()
    &&& forall|k: int| 0 <= k < a.len() ==> (#[trigger] b[k]).id == a[k].id && b[k].device_id == a[k].device_id
}

proof fn lemma_begin_step_keeps(a: Seq<CommandModel>, b: Seq<CommandModel>, id: Seq<char>, ok: bool, d: Seq<char>)
    requires
        ids_unique(a),
        begin_step(a, b, id, ok),
    ensures
        same_names(a, b),
        executing_on(a, d) ==> executing_on(b, d),
        ok ==> forall|k: int|
            0 <= k < a.len() && #[trigger] a[k].id == id ==> executing_on(b, a[k].device_id)
                && !executing_on(a, a[k].device_id),
{
    if ok {
        let i = choose|i: int|
            0 <= i < a.len() && #[trigger] a[i].id == id && b == a.update(
                i,
                a[i].with_status(CommandStatus::Executing),
            );
        let j = choose|j: int|
            0 <= j < a.len() && #[trigger] a[j].id == id && a[j].status == CommandStatus::Queued
                && !executing_on(a, a[j].device_id);
        lemma_unique_index(a, id, i);
        assert(i == j);
        if executing_on(a, d) {
            let k = choose|k: int|
                0 <= k < a.len() && #[trigger] a[k].device_id == d && a[k].status == CommandStatus::Executing;
            assert(k != i);
            assert(b[k] == a[k]);
        }
        assert(b[i].device_id == a[i].device_id && b[i].status == CommandStatus::Executing);
        assert forall|k: int| 0 <= k < a.len() && #[trigger] a[k].id == id implies executing_on(b, a[k].device_id)
            && !executing_on(a, a[k].device_id) by {
            assert(k == i);
        }
    }
}

proof fn lemma_steps_keep(
    states: Seq<Seq<CommandModel>>,
    ids: Seq<Seq<char>>,
    oks: Seq<bool>,
    d: Seq<char>,
    j: int,
)
    requires
        states.len() == ids.len() + 1,
        oks.len() == ids.len(),
        forall|j: int| 0 <= j < ids.len() ==> begin_step(states[j], #[trigger] states[j + 1], ids[j], oks[j]),
        ids_unique(states[0]),
        0 <= j <= ids.len(),
    ensures
        same_names(states[0], states[j]),
        ids_unique(states[j]),
    decreases j,
{
    if j > 0 {
        lemma_steps_keep(states, ids, oks, d, j - 1);
        let jj = j - 1;
        assert(begin_step(states[jj], states[jj + 1], ids[jj], oks[jj]));
        assert(states[jj + 1] == states[j]);
        lemma_begin_step_keeps(states[j - 1], states[j], ids[j - 1], oks[j - 1], d);
        assert forall|x: int, y: int| 0 <= x < y < states[j].len() implies #[trigger] states[j][x].id
            != #[trigger] states[j][y].id by {
            assert(states[0][x].id != states[0][y].id);
        }
    }
}

proof fn lemma_busy_persists(
    states: Seq<Seq<CommandModel>>,
    ids: Seq<Seq<char>>,
    oks: Seq<bool>,
    d: Seq<char>,
    from: int,
    to: int,
)
    requires
        states.len() == ids.len() + 1,
        oks.len() == ids.len(),
        forall|j: int| 0 <= j < ids.len() ==> begin_step(states[j], #[trigger] states[j + 1], ids[j], oks[j]),
        ids_unique(states[0]),
        0 <= from <= to <= ids.len(),
        executing_on(states[from], d),
    ensures
        executing_on(states[to], d),
    decreases to - from,
{
    if from < to {
        lemma_steps_keep(states, ids, oks, d, from);
        assert(begin_step(states[from], states[from + 1], ids[from], oks[from]));
        lemma_begin_step_keeps(states[from], states[from + 1], ids[from], oks[from], d);
        lemma_busy_persists(states, ids, oks, d, from + 1, to);
    }
}

/// Of any number of attempts, one after another, to start commands of one
/// device, at most one succeeds: once one has, every later attempt finds the
/// device busy.
pub proof fn lemma_one_start_wins(
    states: Seq<Seq<CommandModel>>,
    ids: Seq<Seq<char>>,
    oks: Seq<bool>,
    d: Seq<char>,
    j1: int,
    j2: int,
)
    requires
        states.len() == ids.len() + 1,
        oks.len() == ids.len(),
        forall|j: int| 0 <= j < ids.len() ==> begin_step(states[j], #[trigger] states[j + 1], ids[j], oks[j]),
        forall|j: int| 0 <= j < ids.len() ==> names_command_of(states[0], #[trigger] ids[j], d),
        ids_unique(states[0]),
        0 <= j1 < j2 < ids.len(),
        oks[j1],
    ensures
        !oks[j2],
{
    lemma_steps_keep(states, ids, oks, d, j1);
    assert(begin_step(states[j1], states[j1 + 1], ids[j1], oks[j1]));
    lemma_begin_step_keeps(states[j1], states[j1 + 1], ids[j1], oks[j1], d);
    assert(names_command_of(states[0], ids[j1], d));
    let k1 = choose|k: int| 0 <= k < states[0].len() && #[trigger] states[0][k].id == ids[j1] && states[0][k].device_id == d;
    assert(states[j1][k1].id == ids[j1] && states[j1][k1].device_id == d);
    assert(executing_on(states[j1 + 1], d));
    lemma_busy_persists(states, ids, oks, d, j1 + 1, j2);
    lemma_steps_keep(states, ids, oks, d, j2);
    assert(begin_step(states[j2], states[j2 + 1], ids[j2], oks[j2]));
    lemma_begin_step_keeps(states[j2], states[j2 + 1], ids[j2], oks[j2], d);
    assert(names_command_of(states[0], ids[j2], d));
    let k2 = choose|k: int| 0 <= k < states[0].len() && #[trigger] states[0][k].id == ids[j2] && states[0][k].device_id == d;
    assert(states[j2][k2].id == ids[j2] && states[j2][k2].device_id == d);
}

/// Reachability composes.
pub proof fn lemma_reaches_trans(a: Seq<CommandModel>, b: Seq<CommandModel>, c: Seq<CommandModel>)
    requires
        reaches(a, b),
        reaches(b, c),
    ensures
        reaches(a, c),
{
    assert forall|i: int| 0 <= i < a.len() implies status_reach(a[i].status, (#[trigger] c[i]).status)
        by {
        assert(status_reach(a[i].status, b[i].status));
        assert(status_reach(b[i].status, c[i].status));
    }
}

/// A single operation is a case of reachability.
pub proof fn lemma_evolves_reaches(a: Seq<CommandModel>, b: Seq<CommandModel>)
    requires
        evolves(a, b),
    ensures
        reaches(a, b),
{
}

/// Every command ever submitted, in submission order.
pub struct CommandLedger {
    commands: Vec<Command>,
}

impl View for CommandLedger {
    type V = Seq<CommandModel>;

    closed spec fn view(&self) -> Seq<CommandModel> {
        self.commands@.map_values(|c: Command| c@)
    }
}

impl CommandLedger {
    pub open spec fn wf(&self) -> bool {
        ledger_wf(self@)
    }

    pub fn new() -> (r: CommandLedger)
        ensures
            r@ == Seq::<CommandModel>::empty(),
            r.wf(),
    {
        let r = CommandLedger { commands: Vec::new() };
        assert(r@ =~= Seq::<CommandModel>::empty());
        r
    }

    pub fn len(&self) -> (r: usize)
        ensures
            r == self@.len(),
    {
        self.commands.len()
    }

    /// The position of the command named `id`.
    pub fn find(&self, id: &str) -> (r: Option<usize>)
        ensures
            match r {
                Some(i) => i < self@.len() && self@[i as int].id == id@,
                None => !has_id(self@, id@),
            },
    {
        let ghost cs = self@;
        let mut i: usize = 0;
        while i < self.commands.len()
            invariant
                i <= self.commands.len(),
                cs == self@,
                cs.len() == self.commands.len(),
                forall|j: int| 0 <= j < i ==> #[trigger] cs[j].id != id@,
            decreases self.commands.len() - i,
        {
            let t = id.to_owned();
            if self.commands[i].id == t {
                return Some(i);
            }
            i = i + 1;
        }
        None
    }

    /// The command named `id`.
    pub fn get(&self, id: &str) -> (r: Option<&Command>)
        ensures
            match r {
                Some(c) => c@.id == id@ && exists|i: int|
                    0 <= i < self@.len() && #[trigger] self@[i] == c@,
                None => !has_id(self@, id@),
            },
    {
        match self.find(id) {
            Some(i) => {
                let c = &self.commands[i];
                assert(self@[i as int] == c@);
                Some(c)
            },
            None => None,
        }
    }

    /// The command at position `i`.
    pub fn at(&self, i: usize) -> (r: &Command)
        requires
            i < self@.len(),
        ensures
            r@ == self@[i as int],
    {
        &self.commands[i]
    }

    /// Whether a command of `device` is executing.
    pub fn busy(&self, device: &String) -> (r: bool)
        ensures
            r == executing_on(self@, device@),
    {
        let ghost cs = self@;
        let mut i: usize = 0;
        while i < self.commands.len()
            invariant
                i <= self.commands.len(),
                cs == self@,
                cs.len() == self.commands.len(),
                forall|j: int|
                    0 <= j < i ==> !(#[trigger] cs[j].device_id == device@ && cs[j].status
                        == CommandStatus::Executing),
            decreases self.commands.len() - i,
        {
            let c = &self.commands[i];
            assert(cs[i as int] == c@);
            if c.status == CommandStatus::Executing && c.device_id == *device {
                assert(cs[i as int].device_id == device@);
                return true;
            }
            i = i + 1;
        }
        false
    }

    /// Records a new queued command named `id`, created at `now`.
    pub fn enqueue_with_id(
        &mut self,
        id: String,
        device_id: String,
        command: String,
        sudo: bool,
        now: i64,
    ) -> (r: Result<(), LedgerError>)
        requires
            old(self).wf(),
        ensures
            final(self).wf(),
            r is Err <==> has_id(old(self)@, id@),
            r is Err ==> r == Err::<(), _>(LedgerError::DuplicateId) && final(self)@ == old(self)@,
            r is Ok ==> final(self)@ == old(self)@.push(
                CommandModel {
                    id: id@,
                    device_id: device_id@,
                    command: command@,
                    sudo,
                    output: None,
                    error: None,
                    status: CommandStatus::Queued,
                    created_at: now,
                    completed_at: None,
                },
            ),
            evolves(old(self)@, final(self)@),
    {
        if self.find(id.as_str()).is_some() {
            return Err(LedgerError::DuplicateId);
        }
        let c = Command {
            id,
            device_id,
            command,
            sudo,
            output: None,
            error: None,
            status: CommandStatus::Queued,
            created_at: now,
            completed_at: None,
        };
        let ghost before = self@;
        self.commands.push(c);
        assert(self@ =~= before.push(c@));
        Ok(())
    }

    /// Records a new queued command for `device_id` under a fresh identifier,
    /// stamped with the current time, and returns that identifier.
    pub fn enqueue(&mut self, device_id: String, command: String, sudo: bool) -> (r: Result<
        String,
        LedgerError,
    >)
        requires
            old(self).wf(),
        ensures
            final(self).wf(),
            evolves(old(self)@, final(self)@),
            no_generated_ids(old(self)@) ==> r is Ok,
            match r {
                Ok(id) => {
                    &&& id@.len() == 36
                    &&& final(self)@.len() == old(self)@.len() + 1
                    &&& final(self)@.drop_last() == old(self)@
                    &&& !has_id(old(self)@, id@)
                    &&& final(self)@.last() == (CommandModel {
                        id: id@,
                        device_id: device_id@,
                        command: command@,
                        sudo,
                        output: None,
                        error: None,
                        status: CommandStatus::Queued,
                        created_at: final(self)@.last().created_at,
                        completed_at: None,
                    })
                },
                Err(e) => e == LedgerError::DuplicateId && final(self)@ == old(self)@,
            },
    {
        let id = new_uuid();
        let now = now_millis();
        let ghost before = self@;
        assert(no_generated_ids(before) ==> !has_id(before, id@));
        match self.enqueue_with_id(id.clone(), device_id, command, sudo, now) {
            Ok(()) => {
                assert(self@.drop_last() =~= before);
                Ok(id)
            },
            Err(e) => Err(e),
        }
    }

    /// Moves the command named `id` from queued to executing, unless another
    /// command of its device is executing.
    pub fn begin_execution(&mut self, id: &str) -> (r: Result<(), LedgerError>)
        requires
            old(self).wf(),
        ensures
            final(self).wf(),
            evolves(old(self)@, final(self)@),
            !has_id(old(self)@, id@) ==> r == Err::<(), _>(LedgerError::NotFound),
            forall|i: int|
                0 <= i < old(self)@.len() && #[trigger] old(self)@[i].id == id@ ==> {
                    if old(self)@[i].status == CommandStatus::Queued && !executing_on(
                        old(self)@,
                        old(self)@[i].device_id,
                    ) {
                        &&& r is Ok
                        &&& final(self)@ == old(self)@.update(
                            i,
                            old(self)@[i].with_status(CommandStatus::Executing),
                        )
                    } else {
                        r == Err::<(), _>(LedgerError::InvalidTransition)
                    }
                },
            r is Err ==> final(self)@ == old(self)@,
            begin_step(old(self)@, final(self)@, id@, r is Ok),
    {
        let i = match self.find(id) {
            Some(i) => i,
            None => return Err(LedgerError::NotFound),
        };
        let ghost cs = self@;
        if self.commands[i].status != CommandStatus::Queued {
            return Err(LedgerError::InvalidTransition);
        }
        let device = self.commands[i].device_id.clone();
        if self.busy(&device) {
            return Err(LedgerError::InvalidTransition);
        }
        let mut c = self.commands[i].duplicate();
        c.status = CommandStatus::Executing;
        self.commands.set(i, c);
        assert(self@ =~= cs.update(i as int, cs[i as int].with_status(CommandStatus::Executing)));
        Ok(())
    }

    /// Ends the executing command at position `i` with status `s`.
    fn end_at(
        &mut self,
        i: usize,
        s: CommandStatus,
        output: Option<String>,
        error: Option<String>,
        now: i64,
    )
        requires
            old(self).wf(),
            i < old(self)@.len(),
            old(self)@[i as int].status == CommandStatus::Executing,
            s.is_terminal(),
        ensures
            final(self).wf(),
            evolves(old(self)@, final(self)@),
            final(self)@ == old(self)@.update(
                i as int,
                old(self)@[i as int].ended(s, text_opt(output), text_opt(error), now),
            ),
    {
        let ghost cs = self@;
        let mut c = self.commands[i].duplicate();
        c.status = s;
        c.output = output;
        c.error = error;
        c.completed_at = Some(now);
        self.commands.set(i, c);
        assert(self@ =~= cs.update(
            i as int,
            cs[i as int].ended(s, text_opt(output), text_opt(error), now),
        ));
    }

    /// Ends the command named `id` with status `s`. A command that has ended
    /// already is left as it is.
    fn settle(
        &mut self,
        id: &str,
        s: CommandStatus,
        output: Option<String>,
        error: Option<String>,
        now: i64,
    ) -> (r: Result<Settled, LedgerError>)
        requires
            old(self).wf(),
            s.is_terminal(),
        ensures
            final(self).wf(),
            evolves(old(self)@, final(self)@),
            settle_post(old(self)@, final(self)@, id@, s, text_opt(output), text_opt(error), now, r),
    {
        let i = match self.find(id) {
            Some(i) => i,
            None => return Err(LedgerError::NotFound),
        };
        match self.commands[i].status {
            CommandStatus::Queued => Err(LedgerError::InvalidTransition),
            CommandStatus::Executing => {
                self.end_at(i, s, output, error, now);
                Ok(Settled::Applied)
            },
            _ => Ok(Settled::AlreadyFinal),
        }
    }

    /// Ends the executing command named `id` as completed with `output`.
    pub fn complete(&mut self, id: &str, output: String, now: i64) -> (r: Result<
        Settled,
        LedgerError,
    >)
        requires
            old(self).wf(),
        ensures
            final(self).wf(),
            evolves(old(self)@, final(self)@),
            settle_post(
                old(self)@,
                final(self)@,
                id@,
                CommandStatus::Completed,
                Some(output@),
                None,
                now,
                r,
            ),
    {
        self.settle(id, CommandStatus::Completed, Some(output), None, now)
    }

    /// Ends the executing command named `id` as failed with `error`, keeping
    /// whatever `output` it produced.
    pub fn fail(&mut self, id: &str, output: Option<String>, error: String, now: i64) -> (r:
        Result<Settled, LedgerError>)
        requires
            old(self).wf(),
        ensures
            final(self).wf(),
            evolves(old(self)@, final(self)@),
            settle_post(
                old(self)@,
                final(self)@,
                id@,
                CommandStatus::Failed,
                text_opt(output),
                Some(error@),
                now,
                r,
            ),
    {
        self.settle(id, CommandStatus::Failed, output, Some(error), now)
    }

    /// Fails whichever command of `device` is executing, with `error`, at `now`.
    pub fn fail_in_flight(&mut self, device: &String, error: &String, now: i64)
        requires
            old(self).wf(),
        ensures
            final(self).wf(),
            evolves(old(self)@, final(self)@),
            final(self)@.len() == old(self)@.len(),
            forall|i: int|
                0 <= i < old(self)@.len() ==> #[trigger] final(self)@[i] == if old(self)@[i].device_id
                    == device@ && old(self)@[i].status == CommandStatus::Executing {
                    old(self)@[i].ended(CommandStatus::Failed, None, Some(error@), now)
                } else {
                    old(self)@[i]
                },
            !executing_on(final(self)@, device@),
            final(self)@ == failed_in_flight(old(self)@, device@, error@, now),
    {
        let ghost cs = self@;
        let mut i: usize = 0;
        while i < self.commands.len()
            invariant
                i <= self.commands.len(),
                cs.len() == self.commands.len(),
                self.wf(),
                evolves(cs, self@),
                self@.len() == cs.len(),
                forall|j: int|
                    0 <= j < cs.len() ==> #[trigger] self@[j] == if j < i && cs[j].device_id
                        == device@ && cs[j].status == CommandStatus::Executing {
                        cs[j].ended(CommandStatus::Failed, None, Some(error@), now)
                    } else {
                        cs[j]
                    },
            decreases self.commands.len() - i,
        {
            if self.commands[i].status == CommandStatus::Executing && self.commands[i].device_id
                == *device {
                let ghost mid = self@;
                self.end_at(i, CommandStatus::Failed, None, Some(error.clone()), now);
                assert(forall|j: int| 0 <= j < cs.len() && j != i ==> self@[j] == mid[j]);
            }
            i = i + 1;
        }
        assert(!executing_on(self@, device@)) by {
            assert forall|j: int|
                0 <= j < self@.len() && #[trigger] self@[j].device_id == device@ implies self@[j].status
                != CommandStatus::Executing by {
                assert(self@[j] == (if cs[j].device_id == device@ && cs[j].status
                    == CommandStatus::Executing {
                    cs[j].ended(CommandStatus::Failed, None, Some(error@), now)
                } else {
                    cs[j]
                }));
            }
        }
        assert(self@ =~= failed_in_flight(cs, device@, error@, now));
    }
}

/// The ledger after every command of `device` that is executing fails with
/// `error` at `at`.
pub open spec fn failed_in_flight(
    cs: Seq<CommandModel>,
    device: Seq<char>,
    error: Seq<char>,
    at: i64,
) -> Seq<CommandModel> {
    Seq::new(
        cs.len(),
        |i: int|
            if cs[i].device_id == device && cs[i].status == CommandStatus::Executing {
                cs[i].ended(CommandStatus::Failed, None, Some(error), at)
            } else {
                cs[i]
            },
    )
}

/// What ending the command named `id` with status `s` does: an unknown name is
/// `NotFound`; a queued command is `InvalidTransition`; an executing one ends,
/// stamped with `at`; an ended one is left as it is. Only the executing case
/// changes anything.
pub open spec fn settle_post(
    old: Seq<CommandModel>,
    new: Seq<CommandModel>,
    id: Seq<char>,
    s: CommandStatus,
    output: Option<Seq<char>>,
    error: Option<Seq<char>>,
    at: i64,
    r: Result<Settled, LedgerError>,
) -> bool {
    &&& !has_id(old, id) ==> r == Err::<Settled, _>(LedgerError::NotFound) && new == old
    &&& forall|i: int|
        0 <= i < old.len() && #[trigger] old[i].id == id ==> match old[i].status {
            CommandStatus::Queued => r == Err::<Settled, _>(LedgerError::InvalidTransition) && new
                == old,
            CommandStatus::Executing => r == Ok::<_, LedgerError>(Settled::Applied) && new
                == old.update(i, old[i].ended(s, output, error, at)),
            _ => r == Ok::<_, LedgerError>(Settled::AlreadyFinal) && new == old,
        }
}

} // verus!
