//! The per-connection task: its lifecycle state machine, the builder that
//! assembles one, the request/response types, and the single-slot response
//! queue with its reply handle.
//!
//! The surrounding runtime performs the waiting, reading and writing; the
//! decisions of each step — which state follows which event, what one
//! readiness pass does, when the loop sleeps — are made here.

use vstd::prelude::*;

use crate::keychain::Keychain;
use crate::server::ConnectionId;

verus! {

/// Time in milliseconds to wait between read/write passes when nothing was
/// read or written on the last pass.
pub const SLEEP_DURATION: u64 = 1;

/// Relies on `rand::random`: a freshly drawn 64-bit connection id.
/// Nothing is promised of the value.
#[verifier::external_body]
fn random_connection_id() -> ConnectionId {
    rand::random()
}

/// Where a connection task stands in its life.
#[derive(Copy, Clone, Debug, PartialEq, Eq, Structural)]
pub enum ConnectionState {
    /// Built, not yet spawned.
    Pending,
    /// Establishing the authenticated transport.
    Authenticating,
    /// Handshake complete, per-connection key installed.
    Accepted,
    /// Serving requests.
    Running,
    /// Tearing down.
    Terminating,
    /// Removed from the server; the task has resolved.
    Finished,
}

/// Why a connection left its loop.
#[derive(Copy, Clone, Debug, PartialEq, Eq, Structural)]
pub enum TerminateReason {
    /// The verifier's weak reference was dead at handshake time.
    VerifierDropped,
    /// The handshake itself failed.
    HandshakeFailed,
    /// The handler's weak reference was dead after the handshake.
    HandlerDropped,
    /// The handler refused the connection.
    AcceptFailed,
    /// The readiness probe failed.
    ReadyFailed,
    /// The peer closed the transport cleanly.
    Closed,
}

/// Whether a reason terminates with an error or as a clean close.
pub open spec fn reason_is_error(r: TerminateReason) -> bool {
    !(r is Closed)
}

/// The opaque per-connection state preserved across a reconnect: the frame
/// offsets the engine had reached.
#[derive(Copy, Clone, Debug, PartialEq, Eq, Structural)]
pub struct Backup {
    /// How many frames had been sent.
    pub sent_cnt: u64,
    /// How many frames had been received.
    pub received_cnt: u64,
}

impl Default for Backup {
    /// A fresh backup with no frames recorded.
    fn default() -> (b: Self)
        ensures
            b.sent_cnt == 0,
            b.received_cnt == 0,
    {
        Backup { sent_cnt: 0, received_cnt: 0 }
    }
}

/// The connection lifecycle decisions, one step per event.
///
/// `Pending -> Authenticating`: the task is spawned.
pub fn step_spawned(state: ConnectionState) -> (next: ConnectionState)
    requires
        state == ConnectionState::Pending,
    ensures
        next == ConnectionState::Authenticating,
{
    ConnectionState::Authenticating
}

/// `Authenticating -> Accepted | Terminating`: the verifier must still be
/// alive and the handshake must succeed; otherwise the connection fails
/// before any application request is accepted.
pub fn step_handshake(state: ConnectionState, verifier_alive: bool, handshake_ok: bool) -> (r: (
    ConnectionState,
    Option<TerminateReason>,
))
    requires
        state == ConnectionState::Authenticating,
    ensures
        !verifier_alive ==> r == (
            ConnectionState::Terminating,
            Some(TerminateReason::VerifierDropped),
        ),
        verifier_alive && !handshake_ok ==> r == (
            ConnectionState::Terminating,
            Some(TerminateReason::HandshakeFailed),
        ),
        verifier_alive && handshake_ok ==> r == (
            ConnectionState::Accepted,
            None::<TerminateReason>,
        ),
{
    if !verifier_alive {
        (ConnectionState::Terminating, Some(TerminateReason::VerifierDropped))
    } else if !handshake_ok {
        (ConnectionState::Terminating, Some(TerminateReason::HandshakeFailed))
    } else {
        (ConnectionState::Accepted, None)
    }
}

/// `Accepted -> Running | Terminating`: the handler must still be alive
/// and must accept the connection.
pub fn step_accept(state: ConnectionState, handler_alive: bool, accept_ok: bool) -> (r: (
    ConnectionState,
    Option<TerminateReason>,
))
    requires
        state == ConnectionState::Accepted,
    ensures
        !handler_alive ==> r == (
            ConnectionState::Terminating,
            Some(TerminateReason::HandlerDropped),
        ),
        handler_alive && !accept_ok ==> r == (
            ConnectionState::Terminating,
            Some(TerminateReason::AcceptFailed),
        ),
        handler_alive && accept_ok ==> r == (ConnectionState::Running, None::<TerminateReason>),
{
    if !handler_alive {
        (ConnectionState::Terminating, Some(TerminateReason::HandlerDropped))
    } else if !accept_ok {
        (ConnectionState::Terminating, Some(TerminateReason::AcceptFailed))
    } else {
        (ConnectionState::Running, None)
    }
}

/// What one attempt to read a frame produced.
#[derive(Copy, Clone, Debug, PartialEq, Eq, Structural)]
pub enum ReadEvent {
    /// A frame arrived and both decode steps succeeded.
    FrameOk,
    /// A frame arrived but it did not decode as an untyped request.
    FrameInvalidPayload,
    /// A frame arrived, the untyped decode succeeded, the typed one did
    /// not.
    FrameInvalidRequest,
    /// The peer closed the transport cleanly.
    Closed,
    /// No frame can be read without blocking.
    WouldBlock,
    /// Reading failed; the read half itself may still be sound.
    Failed,
}

/// What one attempt to write produced.
#[derive(Copy, Clone, Debug, PartialEq, Eq, Structural)]
pub enum WriteEvent {
    /// A queued response was written.
    Wrote,
    /// Writing the queued response would block.
    WouldBlock,
    /// Writing failed.
    Failed,
    /// The queue was empty and the flush moved bytes.
    Flushed,
    /// The queue was empty and the flush moved nothing, or would block.
    FlushedNothing,
}

/// What the loop decided for one readiness pass.
#[derive(Copy, Clone, Debug, PartialEq, Eq, Structural)]
pub struct IterationDecision {
    /// The state after the pass.
    pub next: ConnectionState,
    /// Why the loop is leaving, when it is.
    pub terminate: Option<TerminateReason>,
    /// Whether the arrived request is dispatched to a handler task.
    pub dispatch: bool,
    /// Whether the pass ends with the polling sleep.
    pub sleep: bool,
}

/// Decides one pass of the read/write loop.
///
/// The runtime reports the readiness bits; when readable it attempts one
/// frame read, when writable one write or flush, and hands the outcomes
/// here.  A decoded request is dispatched to its own handler task; bad
/// bytes are dropped without killing the connection; a clean close or a
/// failed readiness probe terminates; the pass sleeps exactly when both
/// directions made no progress.
pub fn step_iteration(
    state: ConnectionState,
    ready_ok: bool,
    readable: bool,
    writable: bool,
    read_event: Option<ReadEvent>,
    write_event: Option<WriteEvent>,
) -> (d: IterationDecision)
    requires
        state == ConnectionState::Running,
        ready_ok && readable <==> read_event is Some,
        ready_ok && writable <==> write_event is Some,
    ensures
        !ready_ok ==> d == (IterationDecision {
            next: ConnectionState::Terminating,
            terminate: Some(TerminateReason::ReadyFailed),
            dispatch: false,
            sleep: false,
        }),
        ready_ok && read_event == Some(ReadEvent::Closed) ==> d.next
            == ConnectionState::Terminating && d.terminate == Some(TerminateReason::Closed)
            && !d.dispatch,
        ready_ok && !(read_event == Some(ReadEvent::Closed)) ==> {
            &&& d.next == ConnectionState::Running
            &&& d.terminate is None
            &&& d.dispatch == (read_event == Some(ReadEvent::FrameOk))
            &&& d.sleep == (read_blocked(readable, read_event) && write_blocked(
                writable,
                write_event,
            ))
        },
{
    if !ready_ok {
        return IterationDecision {
            next: ConnectionState::Terminating,
            terminate: Some(TerminateReason::ReadyFailed),
            dispatch: false,
            sleep: false,
        };
    }
    let mut dispatch = false;
    match read_event {
        Some(ReadEvent::Closed) => {
            return IterationDecision {
                next: ConnectionState::Terminating,
                terminate: Some(TerminateReason::Closed),
                dispatch: false,
                sleep: false,
            };
        },
        Some(ReadEvent::FrameOk) => {
            dispatch = true;
        },
        _ => {},
    }
    let rb = match read_event {
        None => true,
        Some(ReadEvent::WouldBlock) => true,
        _ => false,
    };
    let wb = match write_event {
        None => true,
        Some(WriteEvent::WouldBlock) => true,
        Some(WriteEvent::FlushedNothing) => true,
        _ => false,
    };
    IterationDecision {
        next: ConnectionState::Running,
        terminate: None,
        dispatch,
        sleep: rb && wb,
    }
}

/// Whether the read direction made no progress this pass.
pub open spec fn read_blocked(readable: bool, read_event: Option<ReadEvent>) -> bool {
    !readable || read_event == Some(ReadEvent::WouldBlock)
}

/// Whether the write direction made no progress this pass.
pub open spec fn write_blocked(writable: bool, write_event: Option<WriteEvent>) -> bool {
    !writable || write_event == Some(WriteEvent::WouldBlock) || write_event == Some(
        WriteEvent::FlushedNothing,
    )
}

/// A request as decoded off the wire: the client's correlation token and
/// the handler-defined payload bytes.
#[derive(Debug)]
pub struct Request {
    /// The client-assigned correlation token; it round-trips untouched.
    pub id: String,
    /// The handler-defined payload.
    pub payload: Vec<u8>,
}

/// A response on its way to the client.
#[derive(Debug)]
pub struct Response {
    /// A freshly-minted id of this response.
    pub id: String,
    /// The id of the request this responds to.
    pub origin_id: String,
    /// The handler-defined payload.
    pub payload: Vec<u8>,
}

/// The connection's outbound queue: a single slot, so that a slow client
/// pauses handler progress naturally.
pub struct ResponseQueue {
    slot: Option<Response>,
}

impl ResponseQueue {
    /// What the slot holds.
    pub closed spec fn slot_spec(&self) -> Option<Response> {
        self.slot
    }

    /// An empty queue.
    pub fn new() -> (q: Self)
        ensures
            q.slot_spec() is None,
    {
        ResponseQueue { slot: None }
    }

    /// Offers a response to the queue: accepted when the slot is free,
    /// handed back when it is full, so the sender must wait.
    pub fn try_send(&mut self, response: Response) -> (r: Result<(), Response>)
        ensures
            old(self).slot_spec() is None ==> r is Ok && final(self).slot_spec() == Some(
                response,
            ),
            old(self).slot_spec() is Some ==> r == Err::<(), Response>(response)
                && final(self).slot_spec() == old(self).slot_spec(),
    {
        if self.slot.is_none() {
            self.slot = Some(response);
            Ok(())
        } else {
            Err(response)
        }
    }

    /// Takes the queued response, if one waits.
    pub fn try_recv(&mut self) -> (r: Option<Response>)
        ensures
            r == old(self).slot_spec(),
            final(self).slot_spec() is None,
    {
        self.slot.take()
    }
}

/// A reply handle bound to one request: every response sent through it
/// carries that request's id as its origin.
pub struct ServerReply {
    origin_id: String,
}

impl ServerReply {
    /// The origin this handle replies for.
    pub closed spec fn origin_spec(&self) -> Seq<char> {
        self.origin_id@
    }

    /// A reply handle for `request`: responses will carry `request.id` as
    /// their origin.
    pub fn for_request(request: &Request) -> (r: Self)
        ensures
            r.origin_spec() == request.id@,
    {
        ServerReply { origin_id: request.id.clone() }
    }

    /// Builds the response for a payload and offers it to the connection's
    /// outbound queue.  The response's origin is this handle's origin; a
    /// full slot hands the payload back for a later retry.
    pub fn send(&self, response_id: String, payload: Vec<u8>, queue: &mut ResponseQueue) -> (r:
        Result<(), Response>)
        ensures
            old(queue).slot_spec() is None ==> r is Ok && (final(queue).slot_spec()
                matches Some(resp) && resp.origin_id@ == self.origin_spec() && resp.payload@
                == payload@ && resp.id@ == response_id@),
            old(queue).slot_spec() is Some ==> r is Err
                && final(queue).slot_spec() == old(queue).slot_spec(),
    {
        let response = Response {
            id: response_id,
            origin_id: self.origin_id.clone(),
            payload,
        };
        queue.try_send(response)
    }
}

/// Reply correlation: every response a handler produces through the reply
/// handle of a request with id `X` carries `origin_id == X`, whatever the
/// response's own id and payload are.
pub proof fn lemma_reply_correlation(request: Request, reply: ServerReply, response: Response)
    requires
        reply.origin_spec() == request.id@,
        response.origin_id@ == reply.origin_spec(),
    ensures
        response.origin_id@ == request.id@,
{
}

/// A builder collecting what a connection task runs with.  The handler and
/// transport slots are generic: the runtime hands in whatever it holds,
/// usually weak references whose liveness becomes an event of the state
/// machine.
pub struct ConnectionTaskBuilder<H, T> {
    id: ConnectionId,
    handler: H,
    transport: T,
    keychain: Keychain<Backup>,
    sleep_duration: u64,
}

/// An individual connection on the server.
pub struct ConnectionTask {
    id: ConnectionId,
    state: ConnectionState,
}

impl ConnectionTask {
    /// Starts building a new connection with a freshly minted id.
    pub fn build() -> (b: ConnectionTaskBuilder<(), ()>)
        ensures
            b.sleep_spec() == SLEEP_DURATION,
            b.keychain_spec() =~= Map::<Seq<u8>, Backup>::empty(),
    {
        let id = random_connection_id();
        ConnectionTaskBuilder {
            id,
            handler: (),
            transport: (),
            keychain: Keychain::new(),
            sleep_duration: SLEEP_DURATION,
        }
    }

    /// The id tied to the connection.
    pub fn id(&self) -> (id: ConnectionId)
        ensures
            id == self.id_spec(),
    {
        self.id
    }

    /// The id tied to the connection.
    pub closed spec fn id_spec(&self) -> ConnectionId {
        self.id
    }

    /// Where the task stands.
    pub closed spec fn state_spec(&self) -> ConnectionState {
        self.state
    }

    /// Whether the task has finished.
    pub fn is_finished(&self) -> (r: bool)
        ensures
            r == (self.state_spec() is Finished),
    {
        matches!(self.state, ConnectionState::Finished)
    }

    /// Aborts the connection: the task begins tearing down.
    pub fn abort(&mut self)
        ensures
            final(self).id_spec() == old(self).id_spec(),
            final(self).state_spec() == ConnectionState::Terminating,
    {
        self.state = ConnectionState::Terminating;
    }

    /// Marks the task resolved, after its removal from the server state.
    pub fn finish(&mut self)
        requires
            old(self).state_spec() == ConnectionState::Terminating,
        ensures
            final(self).id_spec() == old(self).id_spec(),
            final(self).state_spec() == ConnectionState::Finished,
    {
        self.state = ConnectionState::Finished;
    }
}

impl<H, T> ConnectionTaskBuilder<H, T> {
    /// The id the connection will carry.
    pub closed spec fn id_spec(&self) -> ConnectionId {
        self.id
    }

    /// The handler slot.
    pub closed spec fn handler_spec(&self) -> H {
        self.handler
    }

    /// The transport slot.
    pub closed spec fn transport_spec(&self) -> T {
        self.transport
    }

    /// The keychain handed to the handshake.
    pub closed spec fn keychain_spec(&self) -> Map<Seq<u8>, Backup> {
        self.keychain@
    }

    /// The polling sleep in milliseconds.
    pub closed spec fn sleep_spec(&self) -> u64 {
        self.sleep_duration
    }

    /// Whether the builder's keychain is well formed.
    pub closed spec fn wf(&self) -> bool {
        self.keychain.wf()
    }

    /// Replaces the handler slot, possibly changing its type.
    pub fn handler<U>(self, handler: U) -> (b: ConnectionTaskBuilder<U, T>)
        ensures
            b.id_spec() == self.id_spec(),
            b.handler_spec() == handler,
            b.transport_spec() == self.transport_spec(),
            b.keychain_spec() == self.keychain_spec(),
            b.sleep_spec() == self.sleep_spec(),
            self.wf() ==> b.wf(),
    {
        ConnectionTaskBuilder {
            id: self.id,
            handler,
            transport: self.transport,
            keychain: self.keychain,
            sleep_duration: self.sleep_duration,
        }
    }

    /// Replaces the keychain.
    pub fn keychain(self, keychain: Keychain<Backup>) -> (b: ConnectionTaskBuilder<H, T>)
        ensures
            b.id_spec() == self.id_spec(),
            b.handler_spec() == self.handler_spec(),
            b.transport_spec() == self.transport_spec(),
            b.keychain_spec() == keychain@,
            b.sleep_spec() == self.sleep_spec(),
            keychain.wf() ==> b.wf(),
    {
        ConnectionTaskBuilder {
            id: self.id,
            handler: self.handler,
            transport: self.transport,
            keychain,
            sleep_duration: self.sleep_duration,
        }
    }

    /// Replaces the transport slot, possibly changing its type.
    pub fn transport<U>(self, transport: U) -> (b: ConnectionTaskBuilder<H, U>)
        ensures
            b.id_spec() == self.id_spec(),
            b.handler_spec() == self.handler_spec(),
            b.transport_spec() == transport,
            b.keychain_spec() == self.keychain_spec(),
            b.sleep_spec() == self.sleep_spec(),
            self.wf() ==> b.wf(),
    {
        ConnectionTaskBuilder {
            id: self.id,
            handler: self.handler,
            transport,
            keychain: self.keychain,
            sleep_duration: self.sleep_duration,
        }
    }

    /// Replaces the polling sleep.
    pub fn sleep_duration(self, sleep_duration: u64) -> (b: ConnectionTaskBuilder<H, T>)
        ensures
            b.id_spec() == self.id_spec(),
            b.handler_spec() == self.handler_spec(),
            b.transport_spec() == self.transport_spec(),
            b.keychain_spec() == self.keychain_spec(),
            b.sleep_spec() == sleep_duration,
            self.wf() ==> b.wf(),
    {
        ConnectionTaskBuilder {
            id: self.id,
            handler: self.handler,
            transport: self.transport,
            keychain: self.keychain,
            sleep_duration,
        }
    }

    /// Hands the task to the runtime: it starts in `Pending`, and the
    /// runtime drives it through the lifecycle steps.
    pub fn spawn(self) -> (t: ConnectionTask)
        ensures
            t.id_spec() == self.id_spec(),
            t.state_spec() == ConnectionState::Pending,
    {
        ConnectionTask { id: self.id, state: ConnectionState::Pending }
    }
}

} // verus!
