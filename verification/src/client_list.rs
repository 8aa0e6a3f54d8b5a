//! The registry of live connections: peer address to session entry.
//!
//! At most one entry per peer address; removal is the single point at
//! which a connection becomes eligible for teardown.

use vstd::prelude::*;

use crate::addr::SocketAddress;
use crate::addr::socket_addr_eq;
use crate::error::ErrorKind;

verus! {

/// The mathematical value of one registry entry.
pub struct ClientRecord {
    pub socket_addr: SocketAddress,
    pub nickname: Option<Seq<char>>,
}

/// One live connection as the registry sees it: its peer address and,
/// once the session authenticated, the bound nickname.
pub struct ClientEntry {
    pub socket_addr: SocketAddress,
    pub nickname: Option<String>,
}

impl ClientEntry {
    /// The mathematical value of this entry.
    pub open spec fn rec(&self) -> ClientRecord {
        ClientRecord {
            socket_addr: self.socket_addr,
            nickname: match self.nickname {
                Some(ref n) => Some(n@),
                None => None,
            },
        }
    }
}

/// True when `clients` holds an entry for `addr`.
pub open spec fn contains_addr(clients: Seq<ClientRecord>, addr: SocketAddress) -> bool {
    exists|i: int| 0 <= i < clients.len() && clients[i].socket_addr == addr
}

/// The index of the entry for `addr` in `clients`.
pub open spec fn index_of_addr(clients: Seq<ClientRecord>, addr: SocketAddress) -> int {
    choose|i: int| 0 <= i < clients.len() && clients[i].socket_addr == addr
}

/// The entry for `addr` in `clients`.
pub open spec fn record_of_addr(clients: Seq<ClientRecord>, addr: SocketAddress) -> ClientRecord
    recommends
        contains_addr(clients, addr),
{
    clients[index_of_addr(clients, addr)]
}

/// No two entries share a peer address.
pub open spec fn addrs_unique(clients: Seq<ClientRecord>) -> bool {
    forall|i: int, j: int|
        0 <= i < j < clients.len() ==> clients[i].socket_addr != clients[j].socket_addr
}

/// The registry of live connections, keyed by peer address.
pub struct ClientList {
    clients: Vec<ClientEntry>,
}

impl View for ClientList {
    type V = Seq<ClientRecord>;

    closed spec fn view(&self) -> Seq<ClientRecord> {
        self.clients@.map_values(|c: ClientEntry| c.rec())
    }
}

impl ClientList {
    /// Uniqueness of peer addresses: the well-formedness every operation
    /// establishes and preserves. The registry never holds two entries
    /// with the same peer address.
    pub open spec fn wf(self) -> bool {
        addrs_unique(self@)
    }

    /// Creates an empty registry.
    pub fn new() -> (r: Self)
        ensures
            r@ =~= Seq::<ClientRecord>::empty(),
            r.wf(),
    {
        ClientList { clients: Vec::new() }
    }

    /// The number of live connections.
    pub fn len(&self) -> (r: usize)
        ensures
            r == self@.len(),
    {
        self.clients.len()
    }

    /// The entry at position `i`, for iteration by the broadcast worker.
    pub fn get(&self, i: usize) -> (r: &ClientEntry)
        requires
            i < self@.len(),
        ensures
            r.rec() == self@[i as int],
    {
        &self.clients[i]
    }

    /// Returns whether a connection with the given peer address is
    /// registered.
    pub fn is_connected(&self, addr: &SocketAddress) -> (r: bool)
        ensures
            r == contains_addr(self@, *addr),
    {
        self.find(addr).is_some()
    }

    /// Finds the index of the entry for `addr`, if any.
    fn find(&self, addr: &SocketAddress) -> (r: Option<usize>)
        ensures
            match r {
                Some(i) => 0 <= i < self@.len() && self@[i as int].socket_addr == addr,
                None => !contains_addr(self@, *addr),
            },
    {
        let mut i: usize = 0;
        while i < self.clients.len()
            invariant
                0 <= i <= self@.len(),
                self@.len() == self.clients@.len(),
                forall|j: int| 0 <= j < i ==> (#[trigger] self@[j]).socket_addr != addr,
                forall|j: int|
                    0 <= j < self.clients@.len() ==> self@[j] == self.clients@[j].rec(),
            decreases self@.len() - i,
        {
            if socket_addr_eq(&self.clients[i].socket_addr, addr) {
                return Some(i);
            }
            i += 1;
        }
        None
    }

    /// Adds a new connection, keyed by its peer address. Inserting a
    /// duplicate peer address is a caller error, ruled out by the
    /// precondition; the registry keeps addresses unique.
    pub fn add_connection(&mut self, client: ClientEntry)
        requires
            old(self).wf(),
            !contains_addr(old(self)@, client.socket_addr),
        ensures
            final(self).wf(),
            final(self)@ =~= old(self)@.push(client.rec()),
    {
        self.clients.push(client);
        proof {
            assert(self@ =~= old(self)@.push(self@.last()));
        }
    }

    /// Removes the connection with the given peer address and returns its
    /// entry; `NotConnected` when no such connection exists. After the
    /// call the address is absent from the registry.
    pub fn remove_connection(&mut self, addr: &SocketAddress) -> (r: Result<
        ClientEntry,
        ErrorKind,
    >)
        requires
            old(self).wf(),
        ensures
            final(self).wf(),
            match r {
                Ok(entry) => {
                    &&& contains_addr(old(self)@, *addr)
                    &&& entry.rec() == record_of_addr(old(self)@, *addr)
                    &&& final(self)@ =~= old(self)@.remove(index_of_addr(old(self)@, *addr))
                    &&& !contains_addr(final(self)@, *addr)
                },
                Err(ErrorKind::NotConnected) => {
                    &&& !contains_addr(old(self)@, *addr)
                    &&& final(self)@ == old(self)@
                },
                _ => false,
            },
    {
        let i = match self.find(addr) {
            Some(i) => i,
            None => {
                return Err(ErrorKind::NotConnected);
            },
        };
        proof {
            lemma_unique_addr_index(self@, *addr, i as int);
        }
        let entry = self.clients.remove(i);
        proof {
            assert(self@ =~= old(self)@.remove(i as int));
            assert forall|j: int| 0 <= j < self@.len() implies (#[trigger] self@[j]).socket_addr
                != addr by {
                if j < i {
                    assert(old(self)@[j].socket_addr != old(self)@[i as int].socket_addr);
                } else {
                    assert(old(self)@[j + 1].socket_addr != old(self)@[i as int].socket_addr);
                }
            }
        }
        Ok(entry)
    }

    /// Returns the nickname bound to the connection at `addr`: `None`
    /// when the peer is not connected or its session has not
    /// authenticated yet.
    pub fn get_nickname(&self, addr: &SocketAddress) -> (r: Option<String>)
        requires
            self.wf(),
        ensures
            match r {
                Some(nick) => contains_addr(self@, *addr) && record_of_addr(self@, *addr).nickname
                    == Some(nick@),
                None => !contains_addr(self@, *addr) || record_of_addr(self@, *addr).nickname
                    is None,
            },
    {
        match self.find(addr) {
            Some(i) => {
                proof {
                    lemma_unique_addr_index(self@, *addr, i as int);
                }
                match &self.clients[i].nickname {
                    Some(nick) => Some(nick.clone()),
                    None => None,
                }
            },
            None => None,
        }
    }

    /// Binds `nickname` to the connection at `addr`, once its session
    /// authenticated. Every other entry is unchanged; `NotConnected` when
    /// the peer is absent.
    pub fn set_nickname(&mut self, addr: &SocketAddress, nickname: String) -> (r: Result<
        (),
        ErrorKind,
    >)
        requires
            old(self).wf(),
        ensures
            final(self).wf(),
            match r {
                Ok(()) => {
                    &&& contains_addr(old(self)@, *addr)
                    &&& final(self)@ =~= old(self)@.update(
                        index_of_addr(old(self)@, *addr),
                        ClientRecord { socket_addr: *addr, nickname: Some(nickname@) },
                    )
                },
                Err(ErrorKind::NotConnected) => {
                    &&& !contains_addr(old(self)@, *addr)
                    &&& final(self)@ == old(self)@
                },
                _ => false,
            },
    {
        let i = match self.find(addr) {
            Some(i) => i,
            None => {
                return Err(ErrorKind::NotConnected);
            },
        };
        proof {
            lemma_unique_addr_index(self@, *addr, i as int);
        }
        let entry = ClientEntry { socket_addr: *addr, nickname: Some(nickname) };
        vstd::pervasive::VecAdditionalExecFns::set(&mut self.clients, i, entry);
        proof {
            assert(self@ =~= old(self)@.update(
                index_of_addr(old(self)@, *addr),
                ClientRecord { socket_addr: *addr, nickname: self@[i as int].nickname },
            ));
        }
        Ok(())
    }
}

/// With unique addresses, any index holding `addr` is the chosen one.
proof fn lemma_unique_addr_index(clients: Seq<ClientRecord>, addr: SocketAddress, i: int)
    requires
        addrs_unique(clients),
        0 <= i < clients.len(),
        clients[i].socket_addr == addr,
    ensures
        index_of_addr(clients, addr) == i,
        record_of_addr(clients, addr) == clients[i],
        contains_addr(clients, addr),
{
    assert(contains_addr(clients, addr));
    let j = index_of_addr(clients, addr);
    if i < j {
        assert(clients[i].socket_addr != clients[j].socket_addr);
    } else if j < i {
        assert(clients[j].socket_addr != clients[i].socket_addr);
    }
}

} // verus!
