//! The pending-message queue: the FIFO that bridges sessions (producers)
//! and the broadcast worker (the single consumer).

use vstd::prelude::*;

use crate::message::DateTime;
use crate::message::Message;
use crate::message::MessageView;

use chrono::Datelike;
use chrono::Timelike;

verus! {

/// Relies on chrono::Utc::now and its Datelike/Timelike accessors: the
/// current UTC instant, handed out as plain calendar fields
/// (year, month, day, hour, minute, second). Nothing is promised of the
/// values: they depend on the system clock.
#[verifier::external_body]
fn system_now_fields() -> (r: (u16, u8, u8, u8, u8, u8)) {
    let now = chrono::Utc::now();
    (
        now.year() as u16,
        now.month() as u8,
        now.day() as u8,
        now.hour() as u8,
        now.minute() as u8,
        now.second() as u8,
    )
}

/// The current UTC instant as a well-formed [`DateTime`]. Whatever the
/// clock reports, the result is a valid calendar date and time: a
/// reading that does not fit falls back to the epoch instant.
pub fn now_utc() -> (r: DateTime)
    ensures
        r.valid(),
{
    let (year, month, day, hour, minute, second) = system_now_fields();
    match DateTime::new(year, month, day, hour, minute, second) {
        Some(dt) => dt,
        None => DateTime { year: 1970, month: 1, day: 1, hour: 0, minute: 0, second: 0 },
    }
}

/// The FIFO of accepted-but-not-yet-logged messages. The front of the
/// view is the oldest entry: the one `pop` returns next.
pub struct MessageQueue {
    items: Vec<Message>,
}

impl View for MessageQueue {
    type V = Seq<MessageView>;

    closed spec fn view(&self) -> Seq<MessageView> {
        self.items@.map_values(|m: Message| m@)
    }
}

impl MessageQueue {
    /// Creates an empty queue.
    pub fn new() -> (r: Self)
        ensures
            r@ =~= Seq::<MessageView>::empty(),
    {
        MessageQueue { items: Vec::new() }
    }

    /// The number of pending messages.
    pub fn len(&self) -> (r: usize)
        ensures
            r == self@.len(),
    {
        self.items.len()
    }

    /// Enqueues a new message from `sender` with text `text`, stamped
    /// with the current UTC instant. The queue grows by exactly that
    /// message at the back; the stamp is some valid instant.
    pub fn push(&mut self, sender: String, text: String)
        ensures
            final(self)@.len() == old(self)@.len() + 1,
            final(self)@.take(old(self)@.len() as int) =~= old(self)@,
            final(self)@.last().sender == sender@,
            final(self)@.last().text == text@,
            final(self)@.last().date_time.valid(),
    {
        let date_time = now_utc();
        let message = Message::new(sender, date_time, text);
        self.items.push(message);
        proof {
            assert(self@.take(old(self)@.len() as int) =~= old(self)@);
        }
    }

    /// Dequeues the oldest pending message; `None` when the queue is
    /// empty.
    pub fn pop(&mut self) -> (r: Option<Message>)
        ensures
            match r {
                Some(m) => old(self)@.len() > 0 && m@ == old(self)@.first() && final(self)@
                    =~= old(self)@.drop_first(),
                None => old(self)@.len() == 0 && *final(self) == *old(self),
            },
    {
        if self.items.len() == 0 {
            None
        } else {
            let m = self.items.remove(0);
            proof {
                assert(self@ =~= old(self)@.drop_first());
            }
            Some(m)
        }
    }
}

} // verus!
