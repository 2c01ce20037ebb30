//! The manager broker: a thin multiplexer of logical channels from local
//! clients onto outbound server connections.  Its one invariant is that
//! channel ids are unique per manager process; the frames of a channel are
//! delivered in order by the connection underneath.

use vstd::prelude::*;

use crate::idmap::IdMap;
use crate::server::ConnectionId;

verus! {

/// The identifier of one logical channel.
pub type ManagerChannelId = u32;

/// The identifier of one in-flight authentication exchange.
pub type ManagerAuthenticationId = u32;

/// The broker's routing state: which channel runs over which server
/// connection, and the next channel id to mint.
pub struct ManagerState {
    channels: IdMap<ConnectionId>,
    next_channel_id: ManagerChannelId,
}

impl ManagerState {
    /// Which connection each open channel is routed onto.
    pub closed spec fn view(&self) -> Map<u64, ConnectionId> {
        self.channels@
    }

    /// The next channel id a successful open will mint.
    pub closed spec fn next_channel_spec(&self) -> ManagerChannelId {
        self.next_channel_id
    }

    /// Well-formed: the routing table is, and every open channel's id was
    /// minted before the next one, so a fresh id never collides.
    pub closed spec fn wf(&self) -> bool {
        &&& self.channels.wf()
        &&& forall|k: u64|
            self.channels@.dom().contains(k) ==> k < self.next_channel_id as u64
    }

    /// A broker with no channels.
    pub fn new() -> (m: Self)
        ensures
            m.wf(),
            m@ =~= Map::<u64, ConnectionId>::empty(),
            m.next_channel_spec() == 0,
    {
        ManagerState { channels: IdMap::new(), next_channel_id: 0 }
    }

    /// Opens a logical channel onto `connection`, minting a channel id
    /// that no open channel shares.
    pub fn open_channel(&mut self, connection: ConnectionId) -> (id: ManagerChannelId)
        requires
            old(self).wf(),
            old(self).next_channel_spec() < u32::MAX,
        ensures
            final(self).wf(),
            id == old(self).next_channel_spec(),
            !old(self)@.dom().contains(id as u64),
            final(self)@ =~= old(self)@.insert(id as u64, connection),
            final(self).next_channel_spec() == old(self).next_channel_spec() + 1,
    {
        let id = self.next_channel_id;
        self.channels.insert(id as u64, connection);
        self.next_channel_id = id + 1;
        id
    }

    /// The connection a channel is routed onto, if the channel is open.
    pub fn route_of(&self, id: ManagerChannelId) -> (r: Option<&ConnectionId>)
        requires
            self.wf(),
        ensures
            match r {
                Some(conn) => self@.dom().contains(id as u64) && *conn == self@[id as u64],
                None => !self@.dom().contains(id as u64),
            },
    {
        self.channels.get(id as u64)
    }

    /// Closes a channel; other channels' routes are untouched.
    pub fn close_channel(&mut self, id: ManagerChannelId)
        requires
            old(self).wf(),
        ensures
            final(self).wf(),
            final(self)@ =~= old(self)@.remove(id as u64),
            final(self).next_channel_spec() == old(self).next_channel_spec(),
    {
        let _ = self.channels.remove(id as u64);
    }
}

/// Channel-id uniqueness: two channels opened one after the other carry
/// distinct ids, and opening the second does not reroute the first.
pub proof fn lemma_channel_ids_unique(
    m0: ManagerState,
    m1: ManagerState,
    m2: ManagerState,
    id1: ManagerChannelId,
    id2: ManagerChannelId,
    c1: ConnectionId,
    c2: ConnectionId,
)
    requires
        m0.wf(),
        id1 == m0.next_channel_spec(),
        m1@ == m0@.insert(id1 as u64, c1),
        m1.next_channel_spec() == m0.next_channel_spec() + 1,
        id2 == m1.next_channel_spec(),
        m2@ == m1@.insert(id2 as u64, c2),
    ensures
        id1 != id2,
        m2@[id1 as u64] == c1,
        m2@[id2 as u64] == c2,
{
}

} // verus!
