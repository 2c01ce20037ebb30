//! The server core: the shared connection table, the shutdown timer, and
//! the builder that assembles a server from a config, a handler and a
//! verifier before it is started on a listener.

use vstd::prelude::*;

use crate::auth::Verifier;
use crate::idmap::IdMap;

verus! {

/// A connection identifier: a 64-bit value minted at task construction.
pub type ConnectionId = u64;

/// When the server shuts itself down.
#[derive(Copy, Clone, Debug, PartialEq, Eq, Structural)]
pub enum Shutdown {
    /// Never shut down on its own.
    Never,
    /// Shut down once this many milliseconds have passed after the timer
    /// last restarted.
    After(u64),
    /// Shut down after this many idle milliseconds: the timer restarts
    /// when the last connection closes and is cancelled on an accept.
    AfterIdle(u64),
}

/// The server configuration.
#[derive(Copy, Clone, Debug, PartialEq, Eq, Structural)]
pub struct ServerConfig {
    /// When the server shuts itself down.
    pub shutdown: Shutdown,
}

impl Default for ServerConfig {
    /// Defaults to never shutting down on its own.
    fn default() -> (c: Self)
        ensures
            c.shutdown == Shutdown::Never,
    {
        ServerConfig { shutdown: Shutdown::Never }
    }
}

/// The shutdown timer: restarted whenever the connection count becomes
/// zero, cancelled on an accept, and expired once its deadline passes.
#[derive(Copy, Clone, Debug, PartialEq, Eq, Structural)]
pub struct ShutdownTimer {
    config: Shutdown,
    deadline: Option<u64>,
}

impl ShutdownTimer {
    /// The configured policy.
    pub closed spec fn config_spec(&self) -> Shutdown {
        self.config
    }

    /// The current deadline, when one is armed.
    pub closed spec fn deadline_spec(&self) -> Option<u64> {
        self.deadline
    }

    /// Starts a timer for the given policy with no deadline armed yet.
    pub fn start(config: Shutdown) -> (t: Self)
        ensures
            t.config_spec() == config,
            t.deadline_spec() is None,
    {
        ShutdownTimer { config, deadline: None }
    }

    /// Restarts the timer at time `now` (milliseconds): a duration-based
    /// policy arms its deadline that far ahead; `Never` arms nothing.
    pub fn restart(&mut self, now: u64)
        requires
            match old(self).config_spec() {
                Shutdown::Never => true,
                Shutdown::After(d) => now + d <= u64::MAX,
                Shutdown::AfterIdle(d) => now + d <= u64::MAX,
            },
        ensures
            final(self).config_spec() == old(self).config_spec(),
            match old(self).config_spec() {
                Shutdown::Never => final(self).deadline_spec() is None,
                Shutdown::After(d) => final(self).deadline_spec() == Some((now + d) as u64),
                Shutdown::AfterIdle(d) => final(self).deadline_spec() == Some(
                    (now + d) as u64,
                ),
            },
    {
        match self.config {
            Shutdown::Never => {
                self.deadline = None;
            },
            Shutdown::After(d) => {
                self.deadline = Some(now + d);
            },
            Shutdown::AfterIdle(d) => {
                self.deadline = Some(now + d);
            },
        }
    }

    /// Cancels the timer on an accept: an idle policy disarms; a plain
    /// duration policy keeps counting; `Never` stays unarmed.
    pub fn cancel(&mut self)
        ensures
            final(self).config_spec() == old(self).config_spec(),
            match old(self).config_spec() {
                Shutdown::Never => final(self).deadline_spec() is None,
                Shutdown::After(_) => final(self).deadline_spec() == old(
                    self,
                ).deadline_spec(),
                Shutdown::AfterIdle(_) => final(self).deadline_spec() is None,
            },
    {
        match self.config {
            Shutdown::Never => {
                self.deadline = None;
            },
            Shutdown::After(_) => {},
            Shutdown::AfterIdle(_) => {
                self.deadline = None;
            },
        }
    }

    /// Whether the server should shut down at time `now`: an armed
    /// deadline has passed.
    pub fn should_shutdown(&self, now: u64) -> (r: bool)
        ensures
            r == (self.deadline_spec() matches Some(dl) && now >= dl),
    {
        match self.deadline {
            Some(dl) => now >= dl,
            None => false,
        }
    }
}

/// Shutdown-timer law: with `AfterIdle(d)` configured, once the timer
/// restarts at time `t` (the last connection closing) and no accept
/// cancels it, the server shuts down exactly from time `t + d` on, and not
/// a millisecond earlier.
pub proof fn lemma_shutdown_after_idle(timer: ShutdownTimer, t: u64, d: u64, now: u64)
    requires
        timer.config_spec() == Shutdown::AfterIdle(d),
        timer.deadline_spec() == Some((t + d) as u64),
        t + d <= u64::MAX,
    ensures
        now >= t + d ==> (timer.deadline_spec() matches Some(dl) && now >= dl),
        now < t + d ==> !(timer.deadline_spec() matches Some(dl) && now >= dl),
{
}

/// All top-level server state: the table of live connections.
pub struct ServerState<C> {
    /// The live connections, keyed by connection id.
    pub connections: IdMap<C>,
}

impl<C> ServerState<C> {
    /// Well-formed: the connection table is.
    pub open spec fn wf(&self) -> bool {
        self.connections.wf()
    }

    /// An empty state with no connections.
    pub fn new() -> (s: Self)
        ensures
            s.wf(),
            s.connections@ =~= Map::<u64, C>::empty(),
    {
        ServerState { connections: IdMap::new() }
    }
}

impl<C> Default for ServerState<C> {
    /// An empty state with no connections.
    fn default() -> (s: Self)
        ensures
            s.wf(),
            s.connections@ =~= Map::<u64, C>::empty(),
    {
        ServerState::new()
    }
}

/// Registers an accepted connection: the task handle enters the table
/// under the connection's id and the shutdown timer is cancelled.
pub fn accept_connection<C>(
    state: &mut ServerState<C>,
    timer: &mut ShutdownTimer,
    id: ConnectionId,
    handle: C,
)
    requires
        old(state).wf(),
    ensures
        final(state).wf(),
        final(state).connections@ =~= old(state).connections@.insert(id, handle),
        final(timer).config_spec() == old(timer).config_spec(),
        match old(timer).config_spec() {
            Shutdown::Never => final(timer).deadline_spec() is None,
            Shutdown::After(_) => final(timer).deadline_spec() == old(timer).deadline_spec(),
            Shutdown::AfterIdle(_) => final(timer).deadline_spec() is None,
        },
{
    state.connections.insert(id, handle);
    timer.cancel();
}

/// Removes a terminating connection from the table; when it was the last
/// one, the shutdown timer restarts at time `now`.
pub fn connection_finished<C>(
    state: &mut ServerState<C>,
    timer: &mut ShutdownTimer,
    id: ConnectionId,
    now: u64,
)
    requires
        old(state).wf(),
        match old(timer).config_spec() {
            Shutdown::Never => true,
            Shutdown::After(d) => now + d <= u64::MAX,
            Shutdown::AfterIdle(d) => now + d <= u64::MAX,
        },
    ensures
        final(state).wf(),
        final(state).connections@ =~= old(state).connections@.remove(id),
        final(timer).config_spec() == old(timer).config_spec(),
        final(state).connections@.dom().is_empty() ==> match old(timer).config_spec() {
            Shutdown::Never => final(timer).deadline_spec() is None,
            Shutdown::After(d) => final(timer).deadline_spec() == Some((now + d) as u64),
            Shutdown::AfterIdle(d) => final(timer).deadline_spec() == Some((now + d) as u64),
        },
        !final(state).connections@.dom().is_empty() ==> final(timer).deadline_spec() == old(
            timer,
        ).deadline_spec(),
{
    let _ = state.connections.remove(id);
    if state.connections.is_empty() {
        timer.restart(now);
    }
}

/// Connection-local isolation: two connections registered under distinct
/// ids keep their own handles and their own local data; registering the
/// second changes nothing the first can see.
pub proof fn lemma_connection_isolation<C>(
    connections: Map<u64, C>,
    id1: ConnectionId,
    id2: ConnectionId,
    c1: C,
    c2: C,
)
    requires
        id1 != id2,
    ensures
        connections.insert(id1, c1).insert(id2, c2)[id1] == c1,
        connections.insert(id1, c1).insert(id2, c2)[id2] == c2,
        connections.insert(id1, c1).insert(id2, c2).dom().contains(id1),
        connections.insert(id1, c1).insert(id2, c2).dom().contains(id2),
{
}

/// A server: its configuration, its request handler, and the verifier
/// consulted during each handshake.
pub struct Server<T> {
    config: ServerConfig,
    handler: T,
    verifier: Verifier,
}

impl Server<()> {
    /// A server with default configuration, no handler yet, and a
    /// verifier that accepts anything.
    pub fn new() -> (s: Server<()>)
        ensures
            s.config_spec().shutdown == Shutdown::Never,
            s.verifier_spec() is NoneRequired,
    {
        Server { config: ServerConfig { shutdown: Shutdown::Never }, handler: (), verifier: Verifier::none() }
    }
}

impl<T> Server<T> {
    /// The configuration in effect.
    pub closed spec fn config_spec(&self) -> ServerConfig {
        self.config
    }

    /// The handler in place.
    pub closed spec fn handler_spec(&self) -> T {
        self.handler
    }

    /// The verifier in place.
    pub closed spec fn verifier_spec(&self) -> Verifier {
        self.verifier
    }

    /// Replaces the configuration.
    pub fn config(self, config: ServerConfig) -> (s: Self)
        ensures
            s.config_spec() == config,
            s.handler_spec() == self.handler_spec(),
            s.verifier_spec() == self.verifier_spec(),
    {
        Server { config, handler: self.handler, verifier: self.verifier }
    }

    /// Replaces the handler, possibly changing its type.
    pub fn handler<U>(self, handler: U) -> (s: Server<U>)
        ensures
            s.config_spec() == self.config_spec(),
            s.handler_spec() == handler,
            s.verifier_spec() == self.verifier_spec(),
    {
        Server { config: self.config, handler, verifier: self.verifier }
    }

    /// Replaces the verifier.
    pub fn with_verifier(self, v: Verifier) -> (s: Self)
        ensures
            s.config_spec() == self.config_spec(),
            s.handler_spec() == self.handler_spec(),
            s.verifier_spec() == v,
    {
        Server { config: self.config, handler: self.handler, verifier: v }
    }

    /// Consume the server and produce a builder for a TCP variant.
    pub fn into_tcp_builder(self) -> (b: TcpServerBuilder<T>)
        ensures
            b.server_spec() == self,
    {
        TcpServerBuilder(self)
    }
}

/// A builder for a server listening on TCP.
pub struct TcpServerBuilder<T>(Server<T>);

impl Default for TcpServerBuilder<()> {
    /// A builder around a fresh server.
    fn default() -> (b: Self)
        ensures
            b.server_spec().config_spec().shutdown == Shutdown::Never,
            b.server_spec().verifier_spec() is NoneRequired,
    {
        TcpServerBuilder(Server::new())
    }
}

impl<T> TcpServerBuilder<T> {
    /// The server being built.
    pub closed spec fn server_spec(&self) -> Server<T> {
        self.0
    }

    /// Replaces the configuration.
    pub fn config(self, config: ServerConfig) -> (b: Self)
        ensures
            b.server_spec().config_spec() == config,
            b.server_spec().handler_spec() == self.server_spec().handler_spec(),
            b.server_spec().verifier_spec() == self.server_spec().verifier_spec(),
    {
        TcpServerBuilder(self.0.config(config))
    }

    /// Replaces the handler, possibly changing its type.
    pub fn handler<U>(self, handler: U) -> (b: TcpServerBuilder<U>)
        ensures
            b.server_spec().config_spec() == self.server_spec().config_spec(),
            b.server_spec().handler_spec() == handler,
            b.server_spec().verifier_spec() == self.server_spec().verifier_spec(),
    {
        TcpServerBuilder(self.0.handler(handler))
    }

    /// Replaces the verifier.
    pub fn with_verifier(self, v: Verifier) -> (b: Self)
        ensures
            b.server_spec().config_spec() == self.server_spec().config_spec(),
            b.server_spec().handler_spec() == self.server_spec().handler_spec(),
            b.server_spec().verifier_spec() == v,
    {
        TcpServerBuilder(self.0.with_verifier(v))
    }
}

} // verus!
