//! Choosing which managed connection a client command talks to: an
//! explicitly named connection wins; otherwise the cached selection is
//! used when it is still alive, and a sole surviving connection is adopted
//! and cached.

use vstd::prelude::*;

use crate::server::ConnectionId;

verus! {

/// Why no connection could be chosen.
#[derive(Copy, Clone, Debug, PartialEq, Eq, Structural)]
pub enum LookupError {
    /// There are no connections being managed.
    NoConnections,
    /// There are multiple connections being managed and none was named.
    MultipleConnections,
}

/// Whether `list` holds `id`.
fn list_contains(list: &Vec<ConnectionId>, id: ConnectionId) -> (r: bool)
    ensures
        r == list@.contains(id),
{
    let mut i: usize = 0;
    while i < list.len()
        invariant
            i <= list@.len(),
            forall|j: int| 0 <= j < i ==> list@[j] != id,
        decreases list@.len() - i,
    {
        if list[i] == id {
            proof {
                assert(list@[i as int] == id);
            }
            return true;
        }
        i = i + 1;
    }
    proof {
        if list@.contains(id) {
            let j = choose|j: int| 0 <= j < list@.len() && list@[j] == id;
        }
    }
    false
}

/// Picks the connection a command uses, and whether the cached selection
/// must be rewritten.
///
/// An explicitly given id is used as it stands.  Otherwise the cached
/// selection is used when the manager still lists it; with no connections
/// at all, or several to choose from, the lookup fails; a single listed
/// connection is adopted and the cache updated.
pub fn use_or_lookup_connection_id(
    explicit: Option<ConnectionId>,
    selected: ConnectionId,
    list: &Vec<ConnectionId>,
) -> (r: Result<(ConnectionId, bool), LookupError>)
    ensures
        explicit matches Some(id) ==> r == Ok::<(ConnectionId, bool), LookupError>((id, false)),
        explicit is None && list@.contains(selected) ==> r == Ok::<
            (ConnectionId, bool),
            LookupError,
        >((selected, false)),
        explicit is None && !list@.contains(selected) && list@.len() == 0 ==> r == Err::<
            (ConnectionId, bool),
            LookupError,
        >(LookupError::NoConnections),
        explicit is None && !list@.contains(selected) && list@.len() > 1 ==> r == Err::<
            (ConnectionId, bool),
            LookupError,
        >(LookupError::MultipleConnections),
        explicit is None && !list@.contains(selected) && list@.len() == 1 ==> r == Ok::<
            (ConnectionId, bool),
            LookupError,
        >((list@[0], true)),
{
    match explicit {
        Some(id) => Ok((id, false)),
        None => {
            if list_contains(list, selected) {
                Ok((selected, false))
            } else if list.len() == 0 {
                Err(LookupError::NoConnections)
            } else if list.len() > 1 {
                Err(LookupError::MultipleConnections)
            } else {
                Ok((list[0], true))
            }
        },
    }
}

/// The default index the selection prompt highlights: the position of the
/// cached selection in the list, or the first entry when the cached id is
/// not listed.
pub fn selected_index(list: &Vec<ConnectionId>, selected: ConnectionId) -> (idx: usize)
    ensures
        list@.contains(selected) ==> idx < list@.len() && list@[idx as int] == selected
            && forall|j: int| 0 <= j < idx ==> list@[j] != selected,
        !list@.contains(selected) ==> idx == 0,
{
    let mut i: usize = 0;
    while i < list.len()
        invariant
            i <= list@.len(),
            forall|j: int| 0 <= j < i ==> list@[j] != selected,
        decreases list@.len() - i,
    {
        if list[i] == selected {
            proof {
                assert(list@[i as int] == selected);
            }
            return i;
        }
        i = i + 1;
    }
    proof {
        if list@.contains(selected) {
            let j = choose|j: int| 0 <= j < list@.len() && list@[j] == selected;
        }
    }
    0
}

} // verus!
