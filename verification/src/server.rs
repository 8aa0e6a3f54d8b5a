//! The server's shared state and the broadcast worker's step.
//!
//! A single [`ServerCore`] value holds the registries every session
//! reads and mutates; the surrounding process shares it behind one lock
//! and runs the I/O. The broadcast worker repeatedly takes the oldest
//! pending message, gives it the next id in the log, and fans it out to
//! every authenticated connection; a delivery acknowledgement moves
//! that user's cursor forward.

use vstd::prelude::*;

use crate::addr::SocketAddress;
use crate::client_list::ClientList;
use crate::client_list::ClientRecord;
use crate::config::Config;
use crate::message::Message;
use crate::message_list::MessageList;
use crate::message_queue::MessageQueue;
use crate::user_list::UserList;

verus! {

/// Whether a registry entry belongs to an authenticated session.
pub open spec fn has_nickname(c: ClientRecord) -> bool {
    c.nickname is Some
}

/// Everything the sessions and the broadcast worker share: the
/// admission policy, the user directory, the message log, the pending
/// queue, and the connected-clients registry.
pub struct ServerCore {
    pub config: Config,
    pub users: UserList,
    pub messages: MessageList,
    pub queue: MessageQueue,
    pub clients: ClientList,
}

impl ServerCore {
    /// Well-formedness of the shared state: unique nicknames in the
    /// directory, unique peer addresses in the registry, a well-formed
    /// policy, and room in the log for another id.
    pub open spec fn wf(self) -> bool {
        &&& self.users.wf()
        &&& self.clients.wf()
        &&& self.config.wf()
    }

    /// Creates a server around a loaded configuration, with empty
    /// registries.
    pub fn new(config: Config) -> (r: Self)
        requires
            config.wf(),
        ensures
            r.wf(),
            r.config == config,
            r.users@ =~= Seq::<crate::user_list::UserRecord>::empty(),
            r.messages@ =~= Seq::<crate::message::MessageView>::empty(),
            r.queue@ =~= Seq::<crate::message::MessageView>::empty(),
            r.clients@ =~= Seq::<ClientRecord>::empty(),
    {
        ServerCore {
            config,
            users: UserList::new(),
            messages: MessageList::new(),
            queue: MessageQueue::new(),
            clients: ClientList::new(),
        }
    }

    /// One step of the broadcast worker: takes the oldest pending
    /// message, appends it to the log, and plans the fan-out.
    ///
    /// `None` when the queue is empty. Otherwise the result is the id
    /// the message acquired — one more than every id already in the
    /// log — the message, and the peer addresses of exactly the
    /// authenticated connections, in registry order. The caller sends
    /// the message to each and records each acknowledged delivery with
    /// `UserList::set_last_sent_msg_id`.
    pub fn broadcast_next(&mut self) -> (r: Option<(u64, Message, Vec<SocketAddress>)>)
        requires
            old(self).wf(),
            old(self).messages@.len() < u64::MAX,
        ensures
            final(self).wf(),
            final(self).config == old(self).config,
            final(self).users == old(self).users,
            final(self).clients == old(self).clients,
            match r {
                None => old(self).queue@.len() == 0 && *final(self) == *old(self),
                Some((id, msg, recipients)) => {
                    &&& old(self).queue@.len() > 0
                    &&& msg@ == old(self).queue@.first()
                    &&& final(self).queue@ =~= old(self).queue@.drop_first()
                    &&& final(self).messages@ =~= old(self).messages@.push(msg@)
                    &&& id == old(self).messages@.len() + 1
                    &&& recipients@ =~= old(self).clients@.filter(
                        |c: ClientRecord| has_nickname(c),
                    ).map_values(|c: ClientRecord| c.socket_addr)
                },
            },
    {
        let message = match self.queue.pop() {
            Some(m) => m,
            None => {
                return None;
            },
        };
        let out = message.clone();
        let id = self.messages.push(message);
        let mut recipients: Vec<SocketAddress> = Vec::new();
        let ghost all = self.clients@;
        let mut i: usize = 0;
        proof {
            reveal(Seq::filter);
            assert(all.take(0) =~= Seq::<ClientRecord>::empty());
            assert(recipients@ =~= all.take(0).filter(|c: ClientRecord| has_nickname(c)).map_values(
                |c: ClientRecord| c.socket_addr,
            ));
        }
        while i < self.clients.len()
            invariant
                0 <= i <= all.len(),
                all == self.clients@,
                recipients@ =~= all.take(i as int).filter(
                    |c: ClientRecord| has_nickname(c),
                ).map_values(|c: ClientRecord| c.socket_addr),
            decreases all.len() - i,
        {
            let entry = self.clients.get(i);
            let is_authed = match &entry.nickname {
                Some(_) => true,
                None => false,
            };
            if is_authed {
                recipients.push(entry.socket_addr);
            }
            proof {
                reveal(Seq::filter);
                let p = |c: ClientRecord| has_nickname(c);
                assert(all.take(i as int + 1).drop_last() =~= all.take(i as int));
                assert(all.take(i as int + 1).last() == all[i as int]);
                assert(all.take(i as int + 1).filter(p) =~= if p(all[i as int]) {
                    all.take(i as int).filter(p).push(all[i as int])
                } else {
                    all.take(i as int).filter(p)
                });
                assert(recipients@ =~= all.take(i as int + 1).filter(p).map_values(
                    |c: ClientRecord| c.socket_addr,
                ));
            }
            i += 1;
        }
        proof {
            assert(all.take(all.len() as int) =~= all);
        }
        Some((id, out, recipients))
    }
}

} // verus!
