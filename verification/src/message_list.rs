//! The append-only message log: monotone-id-keyed store of accepted
//! messages, with range iteration for backlog replay.
//!
//! The id of a message is one more than its position in the log, so ids
//! are dense, start at 1, and reflect insertion order.

use vstd::prelude::*;

use crate::message::Message;
use crate::message::MessageView;

verus! {

/// The id held by the message at position `i` of the log.
pub open spec fn id_at(i: int) -> int {
    i + 1
}

/// The append-only message log.
pub struct MessageList {
    messages: Vec<Message>,
}

impl View for MessageList {
    type V = Seq<MessageView>;

    closed spec fn view(&self) -> Seq<MessageView> {
        self.messages@.map_values(|m: Message| m@)
    }
}

impl MessageList {
    /// Creates an empty log.
    pub fn new() -> (r: Self)
        ensures
            r@ =~= Seq::<MessageView>::empty(),
    {
        MessageList { messages: Vec::new() }
    }

    /// The number of messages in the log, which is also the id of the
    /// newest message.
    pub fn len(&self) -> (r: usize)
        ensures
            r == self@.len(),
    {
        self.messages.len()
    }

    /// Appends an accepted message and returns the id assigned to it:
    /// one more than the id of every message already in the log.
    pub fn push(&mut self, message: Message) -> (r: u64)
        requires
            old(self)@.len() < u64::MAX,
        ensures
            final(self)@ =~= old(self)@.push(message@),
            r == id_at(old(self)@.len() as int),
    {
        self.messages.push(message);
        (self.messages.len() as u64)
    }

    /// Returns `(id, message)` for every message with id strictly greater
    /// than `message_id`, in strictly increasing id order: the exact
    /// subsequence a reader with delivery cursor `message_id` is owed,
    /// with no duplicates and no gaps.
    pub fn for_messages_newer_than(&self, message_id: u64) -> (r: Vec<(u64, Message)>)
        requires
            self@.len() < u64::MAX,
        ensures
            r@.len() == if message_id < self@.len() {
                self@.len() - message_id
            } else {
                0int
            },
            forall|k: int|
                0 <= k < r@.len() ==> (#[trigger] r@[k]).0 == message_id + 1 + k && r@[k].1@
                    == self@[message_id + k],
    {
        let mut out: Vec<(u64, Message)> = Vec::new();
        let len = self.messages.len();
        if message_id >= len as u64 {
            return out;
        }
        let mut i: usize = message_id as usize;
        while i < len
            invariant
                message_id <= i <= len,
                len == self@.len(),
                self@.len() < u64::MAX,
                self@.len() == self.messages@.len(),
                out@.len() == i - message_id,
                forall|k: int|
                    0 <= k < out@.len() ==> (#[trigger] out@[k]).0 == message_id + 1 + k
                        && out@[k].1@ == self@[message_id + k],
                forall|j: int|
                    0 <= j < self.messages@.len() ==> self@[j] == self.messages@[j]@,
            decreases len - i,
        {
            let id: u64 = (i as u64) + 1;
            let msg = self.messages[i].clone();
            out.push((id, msg));
            i += 1;
        }
        out
    }
}

/// Law: message ids are dense and strictly increasing in insertion
/// order. The message at an earlier position holds a strictly smaller
/// id, and the id at position `i` is exactly `i + 1`, starting at 1.
pub proof fn lemma_log_ids_dense_increasing(log: Seq<MessageView>, i: int, j: int)
    requires
        0 <= i < j < log.len(),
    ensures
        id_at(i) < id_at(j),
        id_at(i) == i + 1,
        id_at(0) == 1,
{
}

} // verus!
