//! Commands sent by the server to a client.

use vstd::prelude::*;

use crate::message::Message;
use crate::message::MessageView;

verus! {

/// The mathematical value of a server-to-client [`Command`].
pub enum CommandView {
    LoginSuccess,
    Error { description: Seq<char> },
    Warning { description: Seq<char> },
    MessageRecv { message: MessageView },
}

/// A command that the server can send to a client.
pub enum Command {
    /// The login or registration succeeded.
    LoginSuccess,
    /// A fatal error: the peer must expect a stream reset.
    Error { description: String },
    /// Advisory information; the connection stays usable.
    Warning { description: String },
    /// A new message was accepted and is delivered to this client.
    MessageRecv { message: Message },
}

impl Clone for Command {
    fn clone(&self) -> (r: Self)
        ensures
            r@ == self@,
    {
        match self {
            Command::LoginSuccess => Command::LoginSuccess,
            Command::Error { description } => Command::Error { description: description.clone() },
            Command::Warning { description } => Command::Warning {
                description: description.clone(),
            },
            Command::MessageRecv { message } => Command::MessageRecv { message: message.clone() },
        }
    }
}

impl View for Command {
    type V = CommandView;

    open spec fn view(&self) -> CommandView {
        match self {
            Command::LoginSuccess => CommandView::LoginSuccess,
            Command::Error { description } => CommandView::Error { description: description@ },
            Command::Warning { description } => CommandView::Warning {
                description: description@,
            },
            Command::MessageRecv { message } => CommandView::MessageRecv { message: message@ },
        }
    }
}

} // verus!
