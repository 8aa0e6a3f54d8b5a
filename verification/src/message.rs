use vstd::prelude::*;

verus! {

/// A calendar date and time of day, UTC, second resolution.
///
/// The fields are plain numbers so that contracts can speak of them
/// directly; the wire form is the RFC 3339 text `YYYY-MM-DDThh:mm:ssZ`.
#[derive(Clone, Copy, PartialEq, Eq, Structural, Debug)]
pub struct DateTime {
    pub year: u16,
    pub month: u8,
    pub day: u8,
    pub hour: u8,
    pub minute: u8,
    pub second: u8,
}

/// Number of days in the given month of the given year (proleptic
/// Gregorian calendar).
pub open spec fn days_in_month(year: u16, month: u8) -> u8 {
    if month == 2 {
        if (year % 4 == 0 && year % 100 != 0) || year % 400 == 0 {
            29
        } else {
            28
        }
    } else if month == 4 || month == 6 || month == 9 || month == 11 {
        30
    } else {
        31
    }
}

impl DateTime {
    /// A well-formed instant: a real calendar date with in-range time
    /// fields, and a year that four digits can carry.
    pub open spec fn valid(self) -> bool {
        &&& self.year <= 9999
        &&& 1 <= self.month <= 12
        &&& 1 <= self.day <= days_in_month(self.year, self.month)
        &&& self.hour <= 23
        &&& self.minute <= 59
        &&& self.second <= 59
    }

    /// Builds an instant from its fields; `None` when they do not form a
    /// real calendar date and time.
    pub fn new(year: u16, month: u8, day: u8, hour: u8, minute: u8, second: u8) -> (r: Option<
        DateTime,
    >)
        ensures
            ({
                let dt = DateTime { year, month, day, hour, minute, second };
                if dt.valid() {
                    r == Some(dt)
                } else {
                    r is None
                }
            }),
    {
        let dt = DateTime { year, month, day, hour, minute, second };
        let dim = if month == 2 {
            if (year % 4 == 0 && year % 100 != 0) || year % 400 == 0 {
                29
            } else {
                28
            }
        } else if month == 4 || month == 6 || month == 9 || month == 11 {
            30
        } else {
            31
        };
        if year <= 9999 && 1 <= month && month <= 12 && 1 <= day && day <= dim && hour <= 23
            && minute <= 59 && second <= 59 {
            Some(dt)
        } else {
            None
        }
    }
}

/// The mathematical value of a [`Message`]: its fields with strings as
/// character sequences.
pub struct MessageView {
    pub sender: Seq<char>,
    pub date_time: DateTime,
    pub text: Seq<char>,
}

/// A message in the chat: who sent it, when the server accepted it, and
/// its text. Immutable once accepted.
pub struct Message {
    sender: String,
    date_time: DateTime,
    text: String,
}

impl View for Message {
    type V = MessageView;

    closed spec fn view(&self) -> MessageView {
        MessageView { sender: self.sender@, date_time: self.date_time, text: self.text@ }
    }
}

impl Clone for Message {
    fn clone(&self) -> (r: Self)
        ensures
            r@ == self@,
    {
        Message {
            sender: self.sender.clone(),
            date_time: self.date_time,
            text: self.text.clone(),
        }
    }
}

impl Message {
    /// Creates a new [`Message`] from sender nickname, instant, and text.
    pub fn new(sender: String, date_time: DateTime, text: String) -> (r: Self)
        ensures
            r@.sender == sender@,
            r@.date_time == date_time,
            r@.text == text@,
    {
        Self { sender, date_time, text }
    }

    /// Returns the nickname of the user who sent the message.
    pub fn sender(&self) -> (r: &String)
        ensures
            r@ == self@.sender,
    {
        &self.sender
    }

    /// Returns the date and time when the message was accepted.
    pub fn date_time(&self) -> (r: &DateTime)
        ensures
            *r == self@.date_time,
    {
        &self.date_time
    }

    /// Returns the content of the message.
    pub fn text(&self) -> (r: &String)
        ensures
            r@ == self@.text,
    {
        &self.text
    }
}

} // verus!
