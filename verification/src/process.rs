//! The process manager: a single writer owning the table of live child
//! processes, serializing spawn, resize, stdin, kill and reaping over a
//! command channel.
//!
//! The surrounding runtime launches the children, pumps their stdio and
//! forwards the commands; every decision — which id a spawn gets, which
//! command finds which process, what survives a closing connection — is
//! made and proved here.

use vstd::prelude::*;

use crate::idmap::IdMap;
use crate::server::ConnectionId;

verus! {

/// A process identifier: minted by the manager on a successful spawn,
/// unique for the server's lifetime.
pub type ProcessId = u64;

/// The dimensions of a pseudoterminal.
#[derive(Copy, Clone, Debug, PartialEq, Eq, Structural)]
pub struct PtySize {
    /// Number of character rows.
    pub rows: u16,
    /// Number of character columns.
    pub cols: u16,
    /// Width of the screen in pixels.
    pub pixel_width: u16,
    /// Height of the screen in pixels.
    pub pixel_height: u16,
}

/// What the manager remembers of one live child process.
#[derive(Copy, Clone, Debug, PartialEq, Eq, Structural)]
pub struct ProcessRecord {
    /// Whether the process outlives the connection that spawned it.
    pub persist: bool,
    /// Whether the child runs behind a pseudoterminal.
    pub has_pty: bool,
    /// Whether the child's stdin sink is still open.
    pub stdin_open: bool,
    /// The connection that spawned the process.
    pub origin: ConnectionId,
}

/// Why a manager command failed.
#[derive(Copy, Clone, Debug, PartialEq, Eq, Structural)]
pub enum ProcessError {
    /// No process is registered under the given id.
    NoSuchProcess,
    /// The process has no pseudoterminal to resize.
    NoPty,
    /// The process' stdin sink is closed.
    StdinClosed,
    /// The child could not be launched.
    SpawnFailed,
    /// The manager's command channel is closed.
    TaskClosed,
}

/// A command submitted to the manager.
pub enum InnerProcessMsg {
    /// Launch a child and register it.
    Spawn {
        /// The command line to run.
        cmd: String,
        /// The environment snapshot handed to the child.
        environment: Vec<(String, String)>,
        /// The working directory, when overridden.
        current_dir: Option<String>,
        /// Whether the child outlives its connection.
        persist: bool,
        /// The pseudoterminal dimensions, when one is wanted.
        pty: Option<PtySize>,
        /// The connection submitting the spawn.
        origin: ConnectionId,
    },
    /// Resize the pseudoterminal of a running process.
    Resize {
        /// The process to resize.
        id: ProcessId,
        /// The new dimensions.
        size: PtySize,
    },
    /// Send bytes to the stdin of a running process.
    Stdin {
        /// The process to write to.
        id: ProcessId,
        /// The bytes to write atomically.
        data: Vec<u8>,
    },
    /// Kill a running process.
    Kill {
        /// The process to kill.
        id: ProcessId,
    },
    /// Reap an entry after its exit observer fired.
    InternalRemove {
        /// The process that exited.
        id: ProcessId,
    },
}

/// The manager's answer to one command.
#[derive(Copy, Clone, Debug, PartialEq, Eq, Structural)]
pub enum ProcessReply {
    /// A spawn succeeded and registered this id.
    Spawned(ProcessId),
    /// The command found its process and was carried out or forwarded.
    Done,
    /// The command failed.
    Failed(ProcessError),
    /// The command answers nobody.
    NoReply,
}

/// What a resize of `id` answers, given the table.
pub open spec fn resize_reply(m: Map<ProcessId, ProcessRecord>, id: ProcessId) -> ProcessReply {
    if m.dom().contains(id) {
        if m[id].has_pty {
            ProcessReply::Done
        } else {
            ProcessReply::Failed(ProcessError::NoPty)
        }
    } else {
        ProcessReply::Failed(ProcessError::NoSuchProcess)
    }
}

/// What a stdin write to `id` answers, given the table.
pub open spec fn stdin_reply(m: Map<ProcessId, ProcessRecord>, id: ProcessId) -> ProcessReply {
    if m.dom().contains(id) {
        if m[id].stdin_open {
            ProcessReply::Done
        } else {
            ProcessReply::Failed(ProcessError::StdinClosed)
        }
    } else {
        ProcessReply::Failed(ProcessError::NoSuchProcess)
    }
}

/// What a kill of `id` answers, given the table: found means forwarded to
/// the killer handle.
pub open spec fn kill_reply(m: Map<ProcessId, ProcessRecord>, id: ProcessId) -> ProcessReply {
    if m.dom().contains(id) {
        ProcessReply::Done
    } else {
        ProcessReply::Failed(ProcessError::NoSuchProcess)
    }
}

/// The table after a connection closed: every non-persistent process that
/// the connection spawned is killed and dropped; everything else stays.
pub open spec fn close_filter(m: Map<ProcessId, ProcessRecord>, conn: ConnectionId) -> Map<
    ProcessId,
    ProcessRecord,
> {
    Map::new(
        |k: ProcessId| m.dom().contains(k) && !(m[k].origin == conn && !m[k].persist),
        |k: ProcessId| m[k],
    )
}

/// The manager's owned state: the table of live processes and the next id
/// to mint.
pub struct ProcessState {
    processes: IdMap<ProcessRecord>,
    next_id: ProcessId,
}

impl ProcessState {
    /// The table of live processes.
    pub closed spec fn view(&self) -> Map<ProcessId, ProcessRecord> {
        self.processes@
    }

    /// The next id a spawn will mint.
    pub closed spec fn next_id_spec(&self) -> ProcessId {
        self.next_id
    }

    /// Well-formed: the table is, and every registered id was minted
    /// before the next one, so a fresh id never collides.
    pub closed spec fn wf(&self) -> bool {
        &&& self.processes.wf()
        &&& forall|k: ProcessId| self.processes@.dom().contains(k) ==> k < self.next_id
    }

    /// A manager with no processes.
    pub fn new() -> (s: Self)
        ensures
            s.wf(),
            s@ =~= Map::<ProcessId, ProcessRecord>::empty(),
            s.next_id_spec() == 0,
    {
        ProcessState { processes: IdMap::new(), next_id: 0 }
    }

    /// The id the next successful spawn will be registered under.
    pub fn next_id(&self) -> (id: ProcessId)
        ensures
            id == self.next_id_spec(),
    {
        self.next_id
    }

    /// Whether a process is registered under `id`.
    pub fn contains(&self, id: ProcessId) -> (r: bool)
        requires
            self.wf(),
        ensures
            r == self@.dom().contains(id),
    {
        self.processes.contains(id)
    }

    /// The record registered under `id`, if any.
    pub fn get(&self, id: ProcessId) -> (r: Option<&ProcessRecord>)
        requires
            self.wf(),
        ensures
            match r {
                Some(rec) => self@.dom().contains(id) && *rec == self@[id],
                None => !self@.dom().contains(id),
            },
    {
        self.processes.get(id)
    }

    /// Marks the stdin sink of `id` closed.
    pub fn close_stdin(&mut self, id: ProcessId)
        requires
            old(self).wf(),
        ensures
            final(self).wf(),
            final(self).next_id_spec() == old(self).next_id_spec(),
            old(self)@.dom().contains(id) ==> final(self)@ =~= old(self)@.insert(
                id,
                ProcessRecord {
                    stdin_open: false,
                    ..old(self)@[id]
                },
            ),
            !old(self)@.dom().contains(id) ==> final(self)@ == old(self)@,
    {
        let record = match self.processes.get(id) {
            Some(r) => *r,
            None => {
                return ;
            },
        };
        self.processes.insert(
            id,
            ProcessRecord { stdin_open: false, ..record },
        );
    }
}

/// Carries out one manager command against the state.
///
/// The runtime has already performed the outside work the command needs —
/// for `Spawn` it launched the child, reporting success in `spawn_ok`; for
/// `Stdin` it writes the bytes to the sink of the process this returns
/// `Done` for; for `Kill` it forwards to the killer handle likewise.
/// Whatever those outside calls return, the table changes exactly as
/// stated here: a spawn registers a fresh id; resize, stdin and kill touch
/// nothing; the reaper drops exactly its entry.
pub fn process_task(state: &mut ProcessState, msg: &InnerProcessMsg, spawn_ok: bool) -> (r:
    ProcessReply)
    requires
        old(state).wf(),
        old(state).next_id_spec() < u64::MAX,
    ensures
        final(state).wf(),
        match msg {
            InnerProcessMsg::Spawn { persist, pty, origin, .. } => {
                if spawn_ok {
                    &&& r == ProcessReply::Spawned(old(state).next_id_spec())
                    &&& !old(state)@.dom().contains(old(state).next_id_spec())
                    &&& final(state)@ =~= old(state)@.insert(
                        old(state).next_id_spec(),
                        ProcessRecord {
                            persist: *persist,
                            has_pty: pty is Some,
                            stdin_open: true,
                            origin: *origin,
                        },
                    )
                    &&& final(state).next_id_spec() == old(state).next_id_spec() + 1
                } else {
                    &&& r == ProcessReply::Failed(ProcessError::SpawnFailed)
                    &&& final(state)@ == old(state)@
                    &&& final(state).next_id_spec() == old(state).next_id_spec()
                }
            },
            InnerProcessMsg::Resize { id, .. } => r == resize_reply(old(state)@, *id)
                && *final(state) == *old(state),
            InnerProcessMsg::Stdin { id, .. } => r == stdin_reply(old(state)@, *id)
                && *final(state) == *old(state),
            InnerProcessMsg::Kill { id } => r == kill_reply(old(state)@, *id) && *final(state)
                == *old(state),
            InnerProcessMsg::InternalRemove { id } => {
                &&& r == ProcessReply::NoReply
                &&& final(state)@ =~= old(state)@.remove(*id)
                &&& final(state).next_id_spec() == old(state).next_id_spec()
            },
        },
{
    match msg {
        InnerProcessMsg::Spawn { persist, pty, origin, .. } => {
            if spawn_ok {
                let id = state.next_id;
                let record = ProcessRecord {
                    persist: *persist,
                    has_pty: pty.is_some(),
                    stdin_open: true,
                    origin: *origin,
                };
                state.processes.insert(id, record);
                state.next_id = id + 1;
                ProcessReply::Spawned(id)
            } else {
                ProcessReply::Failed(ProcessError::SpawnFailed)
            }
        },
        InnerProcessMsg::Resize { id, .. } => {
            match state.processes.get(*id) {
                Some(record) => {
                    if record.has_pty {
                        ProcessReply::Done
                    } else {
                        ProcessReply::Failed(ProcessError::NoPty)
                    }
                },
                None => ProcessReply::Failed(ProcessError::NoSuchProcess),
            }
        },
        InnerProcessMsg::Stdin { id, .. } => {
            match state.processes.get(*id) {
                Some(record) => {
                    if record.stdin_open {
                        ProcessReply::Done
                    } else {
                        ProcessReply::Failed(ProcessError::StdinClosed)
                    }
                },
                None => ProcessReply::Failed(ProcessError::NoSuchProcess),
            }
        },
        InnerProcessMsg::Kill { id } => {
            if state.processes.contains(*id) {
                ProcessReply::Done
            } else {
                ProcessReply::Failed(ProcessError::NoSuchProcess)
            }
        },
        InnerProcessMsg::InternalRemove { id } => {
            let _ = state.processes.remove(*id);
            ProcessReply::NoReply
        },
    }
}

/// Tears down after a connection closed: every non-persistent process the
/// connection spawned leaves the table (the runtime kills those children);
/// persistent processes and other connections' processes stay untouched.
#[verifier::rlimit(100)]
pub fn connection_closed(state: &mut ProcessState, conn: ConnectionId) -> (killed: Vec<ProcessId>)
    requires
        old(state).wf(),
    ensures
        final(state).wf(),
        final(state).next_id_spec() == old(state).next_id_spec(),
        final(state)@ =~= close_filter(old(state)@, conn),
        forall|i: int|
            0 <= i < killed@.len() ==> old(state)@.dom().contains(#[trigger] killed@[i])
                && old(state)@[killed@[i]].origin == conn && !old(state)@[killed@[i]].persist,
{
    let ids = state.processes.keys();
    let ghost m0 = state.processes@;
    let mut killed: Vec<ProcessId> = Vec::new();
    let mut i: usize = 0;
    while i < ids.len()
        invariant
            i <= ids@.len(),
            state.processes.wf(),
            state.next_id_spec() == old(state).next_id_spec(),
            m0 == old(state)@,
            forall|k: ProcessId| m0.dom().contains(k) ==> k < state.next_id_spec(),
            forall|p: int, q: int| 0 <= p < q < ids@.len() ==> ids@[p] != ids@[q],
            forall|k: u64| ids@.contains(k) <==> m0.dom().contains(k),
            forall|k: ProcessId| #![trigger state.processes@.dom().contains(k)]
                state.processes@.dom().contains(k) ==> m0.dom().contains(k)
                    && state.processes@[k] == m0[k],
            forall|k: ProcessId|
                m0.dom().contains(k) ==> (state.processes@.dom().contains(k) <==> !(exists|j: int|
                    0 <= j < i && ids@[j] == k && m0[k].origin == conn && !m0[k].persist)),
            forall|j: int|
                0 <= j < killed@.len() ==> m0.dom().contains(#[trigger] killed@[j])
                    && m0[killed@[j]].origin == conn && !m0[killed@[j]].persist,
        decreases ids@.len() - i,
    {
        let id = ids[i];
        let ghost prev = state.processes@;
        let remove_it = match state.processes.get(id) {
            Some(record) => record.origin == conn && !record.persist,
            None => false,
        };
        if remove_it {
            let _ = state.processes.remove(id);
            killed.push(id);
        }
        proof {
            assert forall|k: ProcessId| state.processes@.dom().contains(k) implies m0.dom(
            ).contains(k) && state.processes@[k] == m0[k] by {
                assert(prev.dom().contains(k));
                assert(prev[k] == m0[k]);
                assert(m0.dom().contains(k));
                assert(state.processes@[k] == prev[k]);
                assert(m0.dom().contains(k) && state.processes@[k] == m0[k]);
            }
            assert(forall|k: ProcessId|
                state.processes@.dom().contains(k) ==> m0.dom().contains(k)
                    && state.processes@[k] == m0[k]);
            assert forall|k: ProcessId| m0.dom().contains(k) implies (
                state.processes@.dom().contains(k) <==> !(exists|j: int|
                    0 <= j < i + 1 && ids@[j] == k && m0[k].origin == conn
                        && !m0[k].persist)) by {
                if k == id {
                    assert(ids@[i as int] == k);
                } else {
                    if exists|j: int|
                        0 <= j < i + 1 && ids@[j] == k && m0[k].origin == conn
                            && !m0[k].persist {
                        let j = choose|j: int|
                            0 <= j < i + 1 && ids@[j] == k && m0[k].origin == conn
                                && !m0[k].persist;
                        assert(j < i);
                    }
                }
            }
        }
        i = i + 1;
    }
    proof {
        assert forall|k: ProcessId| #![auto]
            state.processes@.dom().contains(k) <==> close_filter(m0, conn).dom().contains(
                k,
            ) by {
            if m0.dom().contains(k) {
                assert(ids@.contains(k));
                if m0[k].origin == conn && !m0[k].persist {
                    let j = choose|j: int| 0 <= j < ids@.len() && ids@[j] == k;
                    assert(0 <= j < ids@.len() && ids@[j] == k && m0[k].origin == conn
                        && !m0[k].persist);
                }
            }
        }
        assert(state.processes@ =~= close_filter(m0, conn));
    }
    killed
}

/// Process-manager isolation: a command addressed to one id neither sees
/// nor disturbs any other id.  Registering or dropping a process under
/// `a` leaves what resize, stdin and kill answer for any other id `b`
/// exactly as it was; and any of them on an id that is not registered
/// answers that no such process exists.
pub proof fn lemma_process_isolation(
    m: Map<ProcessId, ProcessRecord>,
    a: ProcessId,
    b: ProcessId,
    record: ProcessRecord,
)
    requires
        a != b,
    ensures
        resize_reply(m.insert(a, record), b) == resize_reply(m, b),
        stdin_reply(m.insert(a, record), b) == stdin_reply(m, b),
        kill_reply(m.insert(a, record), b) == kill_reply(m, b),
        resize_reply(m.remove(a), b) == resize_reply(m, b),
        stdin_reply(m.remove(a), b) == stdin_reply(m, b),
        kill_reply(m.remove(a), b) == kill_reply(m, b),
        !m.dom().contains(b) ==> stdin_reply(m, b) == ProcessReply::Failed(
            ProcessError::NoSuchProcess,
        ) && kill_reply(m, b) == ProcessReply::Failed(ProcessError::NoSuchProcess)
            && resize_reply(m, b) == ProcessReply::Failed(ProcessError::NoSuchProcess),
{
}

/// Persist semantics: a process spawned with `persist` survives the close
/// of the connection that spawned it — its record is untouched, and a
/// later kill from any connection still finds it.
pub proof fn lemma_persist_survives_close(
    m: Map<ProcessId, ProcessRecord>,
    conn: ConnectionId,
    id: ProcessId,
)
    requires
        m.dom().contains(id),
        m[id].persist,
    ensures
        close_filter(m, conn).dom().contains(id),
        close_filter(m, conn)[id] == m[id],
        kill_reply(close_filter(m, conn), id) == ProcessReply::Done,
{
}

/// The other half of the persist semantics: a non-persistent process dies
/// with its connection — its entry is gone, and a later command on its id
/// finds no such process.
pub proof fn lemma_nonpersist_dies_with_connection(
    m: Map<ProcessId, ProcessRecord>,
    conn: ConnectionId,
    id: ProcessId,
)
    requires
        m.dom().contains(id),
        m[id].origin == conn,
        !m[id].persist,
    ensures
        !close_filter(m, conn).dom().contains(id),
        kill_reply(close_filter(m, conn), id) == ProcessReply::Failed(
            ProcessError::NoSuchProcess,
        ),
{
}

} // verus!
