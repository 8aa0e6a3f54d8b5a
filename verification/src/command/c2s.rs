//! Commands sent by a client to the server.

use vstd::prelude::*;

use crate::login::LoginRequest;
use crate::login::LoginRequestView;

verus! {

/// The mathematical value of a client-to-server [`Command`].
pub enum CommandView {
    Login(LoginRequestView),
    SendMessage(Seq<char>),
}

/// A command that a client can send to the server.
pub enum Command {
    /// Log in, or register when the request says so. The server answers
    /// with `LoginSuccess` or with `Error`.
    Login(LoginRequest),
    /// Send a message to every other user. The server echoes the accepted
    /// message back as `MessageRecv`.
    SendMessage(String),
}

impl Clone for Command {
    fn clone(&self) -> (r: Self)
        ensures
            r@ == self@,
    {
        match self {
            Command::Login(request) => Command::Login(request.clone()),
            Command::SendMessage(text) => Command::SendMessage(text.clone()),
        }
    }
}

impl View for Command {
    type V = CommandView;

    open spec fn view(&self) -> CommandView {
        match self {
            Command::Login(request) => CommandView::Login(request@),
            Command::SendMessage(text) => CommandView::SendMessage(text@),
        }
    }
}

} // verus!
