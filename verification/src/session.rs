//! The per-connection session state machine.
//!
//! A session starts `Connected`, becomes `Authenticated` on a
//! successful login or registration, and ends `Closed`. Each received
//! command is one step of the machine: it mutates the shared state and
//! hands back the actions the connection's own I/O must perform, in
//! order. A `Send` that fails, an undecodable frame, or a transport
//! error is answered with [`Session::error`], which closes the session;
//! the surrounding loop then removes the connection from the registry
//! with [`Session::teardown`].
//!
//! A `Login` received on an already-authenticated session is treated as
//! a protocol error and closes the session.

use vstd::prelude::*;
use vstd::string::StringExecFns;
use vstd::utf8::encode_utf8;

use crate::addr::SocketAddress;
use crate::command::c2s;
use crate::command::s2c;
use crate::login::LoginRequest;
use crate::login::LoginRequestView;
use crate::message::Message;
use crate::nickname::nickname_allowed_spec;
use crate::message_filter::message_allowed_spec;
use crate::server::ServerCore;
use crate::user::valid_nickname;
use crate::user_list::UserRecord;
use crate::user_list::contains_nick;
use crate::user_list::hash_bytes;
use crate::user_list::record_of;

verus! {

/// The lifecycle of a session.
#[derive(Clone, Copy, PartialEq, Eq, Structural, Debug)]
pub enum SessionState {
    Connected,
    Authenticated,
    Closed,
}

/// The mathematical value of one [`Action`].
pub enum ActionView {
    Send(s2c::CommandView),
    FinishWrite,
    Reset,
}

/// One thing the connection's I/O must do, in the order handed out:
/// send a command, half-close the write direction, or abruptly reset
/// the transport.
pub enum Action {
    Send(s2c::Command),
    FinishWrite,
    Reset,
}

impl View for Action {
    type V = ActionView;

    open spec fn view(&self) -> ActionView {
        match self {
            Action::Send(cmd) => ActionView::Send(cmd@),
            Action::FinishWrite => ActionView::FinishWrite,
            Action::Reset => ActionView::Reset,
        }
    }
}


/// The views of a run of actions.
pub open spec fn views_of(acts: Seq<Action>) -> Seq<ActionView> {
    acts.map_values(|a: Action| a@)
}

/// What a login request decides, given the directory, the nickname
/// policy, and the request.
pub enum LoginDecision {
    /// The nickname fails the policy: refused before any lookup.
    NotAllowed,
    /// Registration of a taken nickname.
    TakenNickname,
    /// Registration of a structurally invalid nickname, caught by the
    /// directory's defensive re-check.
    BadNickname,
    /// A fresh registration that succeeds.
    Registered,
    /// Login to an unknown account.
    UnknownUser,
    /// Login with a wrong password.
    BadPassword,
    /// Login that succeeds.
    LoggedIn,
}

/// The arbitration of one login request: nickname policy first, then
/// the registration/login table on whether the account exists.
pub open spec fn login_decision(
    users: Seq<UserRecord>,
    nick_policy: crate::nickname::NicknameFilterView,
    req: LoginRequestView,
) -> LoginDecision {
    if !nickname_allowed_spec(nick_policy, req.nickname) {
        LoginDecision::NotAllowed
    } else if req.is_registering {
        if contains_nick(users, req.nickname) {
            LoginDecision::TakenNickname
        } else if !valid_nickname(encode_utf8(req.nickname)) {
            LoginDecision::BadNickname
        } else {
            LoginDecision::Registered
        }
    } else {
        if !contains_nick(users, req.nickname) {
            LoginDecision::UnknownUser
        } else if record_of(users, req.nickname).password_hash != hash_bytes(
            encode_utf8(req.password),
        ) {
            LoginDecision::BadPassword
        } else {
            LoginDecision::LoggedIn
        }
    }
}

/// The delivery cursor a replay starts from: the last delivered id, or
/// zero before any delivery.
pub open spec fn replay_from(users: Seq<UserRecord>, nick: Seq<char>) -> u64 {
    match record_of(users, nick).last_delivered {
        Some(id) => id,
        None => 0u64,
    }
}

/// The actions of a failed step: a best-effort `Error` frame, then a
/// half-close, then a reset.
pub open spec fn error_actions(actions: Seq<ActionView>, description: Seq<char>) -> bool {
    &&& actions.len() == 3
    &&& actions[0] == ActionView::Send(s2c::CommandView::Error { description })
    &&& actions[1] == ActionView::FinishWrite
    &&& actions[2] == ActionView::Reset
}

/// One live connection's server-side state: its peer address, the
/// nickname bound at authentication, and where it stands in its
/// lifecycle.
pub struct Session {
    pub socket_addr: SocketAddress,
    pub nickname: Option<String>,
    pub state: SessionState,
}

impl Session {
    /// Creates the session for a freshly accepted connection.
    pub fn new(socket_addr: SocketAddress) -> (r: Session)
        ensures
            r.socket_addr == socket_addr,
            r.nickname is None,
            r.state == SessionState::Connected,
    {
        Session { socket_addr, nickname: None, state: SessionState::Connected }
    }

    /// Returns the peer address that keys this session in the registry.
    pub fn socket_addr(&self) -> (r: &SocketAddress)
        ensures
            *r == self.socket_addr,
    {
        &self.socket_addr
    }

    /// Returns the nickname this session is logged into, `None` before
    /// authentication.
    pub fn nickname(&self) -> (r: Option<String>)
        ensures
            match r {
                Some(n) => self.nickname matches Some(m) && m@ == n@,
                None => self.nickname is None,
            },
    {
        match &self.nickname {
            Some(n) => Some(n.clone()),
            None => None,
        }
    }

    /// Closes the session over an error: the peer is told the reason
    /// best-effort, then the stream is half-closed and reset. The
    /// session is `Closed` afterwards; the caller removes it from the
    /// registry with [`Session::teardown`] when its loop exits.
    pub fn error(&mut self, description: String) -> (actions: Vec<Action>)
        ensures
            final(self).state == SessionState::Closed,
            final(self).socket_addr == old(self).socket_addr,
            final(self).nickname == old(self).nickname,
            error_actions(views_of(actions@), description@),
    {
        self.state = SessionState::Closed;
        let mut actions: Vec<Action> = Vec::new();
        actions.push(Action::Send(s2c::Command::Error { description }));
        actions.push(Action::FinishWrite);
        actions.push(Action::Reset);
        proof {
            let mapped = views_of(actions@);
            assert(mapped[0] == actions@[0]@);
            assert(mapped[1] == actions@[1]@);
            assert(mapped[2] == actions@[2]@);
        }
        actions
    }

    /// Removes this session's connection from the registry: the single
    /// point at which the connection becomes eligible for teardown.
    /// Tolerates a session that was already removed.
    pub fn teardown(&mut self, server: &mut ServerCore)
        requires
            old(server).wf(),
        ensures
            final(server).wf(),
            final(self).state == SessionState::Closed,
            final(self).socket_addr == old(self).socket_addr,
            final(self).nickname == old(self).nickname,
            final(server).users == old(server).users,
            final(server).messages == old(server).messages,
            final(server).queue == old(server).queue,
            final(server).config == old(server).config,
            !crate::client_list::contains_addr(final(server).clients@, old(self).socket_addr),
    {
        self.state = SessionState::Closed;
        let _ = server.clients.remove_connection(&self.socket_addr);
    }
}


/// The full postcondition of handling a `Login` command: how the new
/// session and server state and the emitted actions relate to the old
/// state and the request, case by case of [`login_decision`].
pub open spec fn login_post(
    old_server: ServerCore,
    old_self: Session,
    new_server: ServerCore,
    new_self: Session,
    req: LoginRequestView,
    acts: Seq<ActionView>,
) -> bool {
    &&& new_self.socket_addr == old_self.socket_addr
    &&& new_server.messages == old_server.messages
    &&& new_server.queue == old_server.queue
    &&& new_server.config == old_server.config
    &&& if old_self.state != SessionState::Connected {
        // a second `Login` on this session: a protocol error
        &&& new_self.state == SessionState::Closed
        &&& new_self.nickname == old_self.nickname
        &&& new_server.users == old_server.users
        &&& new_server.clients == old_server.clients
        &&& error_actions(acts, "Already logged in"@)
    } else {
        match login_decision(old_server.users@, old_server.config@.nickname, req) {
            LoginDecision::Registered => {
                &&& new_server.users@ =~= old_server.users@.push(
                    UserRecord {
                        nickname: req.nickname,
                        password_hash: hash_bytes(encode_utf8(req.password)),
                        last_delivered: None,
                    },
                )
                &&& contains_nick(new_server.users@, req.nickname)
                &&& new_self.state == SessionState::Authenticated
                &&& new_self.nickname matches Some(n) && n@ == req.nickname
                &&& registry_bound(old_server, new_server, old_self.socket_addr, req.nickname)
                &&& acts =~= seq![ActionView::Send(s2c::CommandView::LoginSuccess)]
            },
            LoginDecision::LoggedIn => {
                &&& new_server.users == old_server.users
                &&& new_self.state == SessionState::Authenticated
                &&& new_self.nickname matches Some(n) && n@ == req.nickname
                &&& registry_bound(old_server, new_server, old_self.socket_addr, req.nickname)
                &&& replay_actions(old_server, req.nickname, acts)
            },
            decision => {
                &&& new_server.users == old_server.users
                &&& new_server.clients == old_server.clients
                &&& new_self.state == SessionState::Closed
                &&& new_self.nickname == old_self.nickname
                &&& match decision {
                    LoginDecision::NotAllowed => error_actions(
                        acts,
                        "Nickname is not allowed due to regulations"@,
                    ),
                    LoginDecision::TakenNickname => error_actions(
                        acts,
                        "User account already exists"@,
                    ),
                    LoginDecision::BadNickname => error_actions(acts, "Nickname is not valid"@),
                    LoginDecision::UnknownUser => error_actions(acts, "User does not exist"@),
                    LoginDecision::BadPassword => error_actions(acts, "Invalid password"@),
                    _ => false,
                }
            },
        }
    }
}

/// After authentication the registry entry for this peer, if any,
/// carries the bound nickname; everything else is unchanged.
pub open spec fn registry_bound(
    old_server: ServerCore,
    new_server: ServerCore,
    addr: SocketAddress,
    nick: Seq<char>,
) -> bool {
    if crate::client_list::contains_addr(old_server.clients@, addr) {
        new_server.clients@ =~= old_server.clients@.update(
            crate::client_list::index_of_addr(old_server.clients@, addr),
            crate::client_list::ClientRecord { socket_addr: addr, nickname: Some(nick) },
        )
    } else {
        new_server.clients@ == old_server.clients@
    }
}

/// The actions of a successful login: `LoginSuccess` first, then the
/// whole backlog — every message with id strictly greater than the
/// user's delivery cursor, in strictly increasing id order, with no
/// duplicates and no gaps.
pub open spec fn replay_actions(
    old_server: ServerCore,
    nick: Seq<char>,
    acts: Seq<ActionView>,
) -> bool {
    let from = replay_from(old_server.users@, nick);
    let log = old_server.messages@;
    let count = if from < log.len() {
        log.len() - from
    } else {
        0int
    };
    &&& acts.len() == 1 + count
    &&& acts[0] == ActionView::Send(s2c::CommandView::LoginSuccess)
    &&& forall|k: int|
        0 <= k < count ==> #[trigger] acts[1 + k] == ActionView::Send(
            s2c::CommandView::MessageRecv { message: log[from + k] },
        )
}

/// The full postcondition of handling a `SendMessage` command.
pub open spec fn message_post(
    old_server: ServerCore,
    old_self: Session,
    new_server: ServerCore,
    new_self: Session,
    text: Seq<char>,
    acts: Seq<ActionView>,
) -> bool {
    &&& new_self.socket_addr == old_self.socket_addr
    &&& new_server.users == old_server.users
    &&& new_server.messages == old_server.messages
    &&& new_server.clients == old_server.clients
    &&& new_server.config == old_server.config
    &&& if !(old_self.state == SessionState::Authenticated && old_self.nickname is Some) {
        // a message while not logged in: a protocol violation
        &&& new_self.state == SessionState::Closed
        &&& new_self.nickname == old_self.nickname
        &&& new_server.queue == old_server.queue
        &&& error_actions(acts, "Not logged in"@)
    } else if !message_allowed_spec(old_server.config@.message, text) {
        // refused text: an advisory warning, the connection stays up
        &&& new_self == old_self
        &&& new_server.queue == old_server.queue
        &&& acts =~= seq![
            ActionView::Send(
                s2c::CommandView::Warning {
                    description: "Message is not allowed due to regulations"@,
                },
            ),
        ]
    } else {
        // accepted: enqueued for the broadcast worker, no reply yet
        &&& new_self == old_self
        &&& new_server.queue@.len() == old_server.queue@.len() + 1
        &&& new_server.queue@.take(old_server.queue@.len() as int) =~= old_server.queue@
        &&& new_server.queue@.last().sender == old_self.nickname->0@
        &&& new_server.queue@.last().text == text
        &&& new_server.queue@.last().date_time.valid()
        &&& acts.len() == 0
    }
}

impl Session {
    /// Handles a received `Login` command: checks the nickname policy,
    /// then registers or verifies per the arbitration table, binds the
    /// nickname on success and replays the backlog for a returning
    /// user; every failure closes the session.
    pub fn on_login(&mut self, server: &mut ServerCore, request: &LoginRequest) -> (actions: Vec<
        Action,
    >)
        requires
            old(server).wf(),
            old(server).messages@.len() < u64::MAX,
        ensures
            final(server).wf(),
            login_post(
                *old(server),
                *old(self),
                *final(server),
                *final(self),
                request@,
                views_of(actions@),
            ),
    {
        if !matches!(self.state, SessionState::Connected) {
            return self.error(String::from_str("Already logged in"));
        }
        let nickname = request.nickname();
        if !server.config.is_allowed_nickname(nickname.as_str()) {
            return self.error(String::from_str("Nickname is not allowed due to regulations"));
        }
        let is_present = server.users.user_exists(nickname.as_str());
        if request.is_registering() {
            if is_present {
                return self.error(String::from_str("User account already exists"));
            }
            match server.users.add_user(nickname.clone(), request.password().clone()) {
                Ok(()) => {},
                Err(_) => {
                    return self.error(String::from_str("Nickname is not valid"));
                },
            }
            proof {
                assert(server.users@[server.users@.len() - 1].nickname == request@.nickname);
                assert(contains_nick(server.users@, request@.nickname));
            }
            self.nickname = Some(nickname.clone());
            self.state = SessionState::Authenticated;
            let _ = server.clients.set_nickname(&self.socket_addr, nickname.clone());
            let mut actions: Vec<Action> = Vec::new();
            actions.push(Action::Send(s2c::Command::LoginSuccess));
            proof {
                assert(views_of(actions@) =~= seq![
                    ActionView::Send(s2c::CommandView::LoginSuccess),
                ]);
            }
            actions
        } else {
            if !is_present {
                return self.error(String::from_str("User does not exist"));
            }
            if !server.users.verify_password(nickname.as_str(), request.password().clone()) {
                return self.error(String::from_str("Invalid password"));
            }
            self.nickname = Some(nickname.clone());
            self.state = SessionState::Authenticated;
            let _ = server.clients.set_nickname(&self.socket_addr, nickname.clone());
            let from = match server.users.get_last_sent_msg_id(nickname.as_str()) {
                Some(id) => id,
                None => 0,
            };
            let replay = server.messages.for_messages_newer_than(from);
            let mut actions: Vec<Action> = Vec::new();
            actions.push(Action::Send(s2c::Command::LoginSuccess));
            proof {
                assert(views_of(actions@)[0] == actions@[0]@);
            }
            let ghost log = server.messages@;
            let mut k: usize = 0;
            while k < replay.len()
                invariant
                    0 <= k <= replay@.len(),
                    log == server.messages@,
                    from == replay_from(old(server).users@, request@.nickname),
                    replay@.len() == if from < log.len() {
                        log.len() - from
                    } else {
                        0int
                    },
                    forall|j: int|
                        0 <= j < replay@.len() ==> (#[trigger] replay@[j]).1@ == log[from + j],
                    actions@.len() == 1 + k,
                    views_of(actions@)[0] == ActionView::Send(
                        s2c::CommandView::LoginSuccess,
                    ),
                    forall|j: int|
                        0 <= j < k ==> #[trigger] views_of(actions@)[1 + j]
                            == ActionView::Send(
                            s2c::CommandView::MessageRecv { message: log[from + j] },
                        ),
                decreases replay@.len() - k,
            {
                let msg = replay[k].1.clone();
                let ghost prev = actions@;
                actions.push(Action::Send(s2c::Command::MessageRecv { message: msg }));
                proof {
                    assert forall|j: int| 0 <= j <= k implies #[trigger] views_of(actions@)[1
                        + j] == ActionView::Send(
                        s2c::CommandView::MessageRecv { message: log[from + j] },
                    ) by {
                        assert(views_of(actions@)[1 + j] == actions@[1 + j]@);
                        if j < k {
                            assert(actions@[1 + j] == prev[1 + j]);
                            assert(views_of(prev)[1 + j] == prev[1 + j]@);
                        }
                    }
                    assert(views_of(actions@)[0] == actions@[0]@);
                    assert(views_of(prev)[0] == prev[0]@);
                    assert(actions@[0] == prev[0]);
                }
                k += 1;
            }
            actions
        }
    }

    /// Handles a received `SendMessage` command: refused outright when
    /// the session is not authenticated; answered with an advisory
    /// `Warning` when the text fails the message policy; otherwise
    /// enqueued, stamped with the current instant, for the broadcast
    /// worker — the echo comes back through the fan-out.
    pub fn on_message(&mut self, server: &mut ServerCore, text: String) -> (actions: Vec<Action>)
        requires
            old(server).wf(),
        ensures
            final(server).wf(),
            message_post(
                *old(server),
                *old(self),
                *final(server),
                *final(self),
                text@,
                views_of(actions@),
            ),
    {
        if !matches!(self.state, SessionState::Authenticated) {
            return self.error(String::from_str("Not logged in"));
        }
        let nickname = match &self.nickname {
            Some(n) => n.clone(),
            None => {
                return self.error(String::from_str("Not logged in"));
            },
        };
        if !server.config.is_allowed_message_text(text.as_str()) {
            let mut actions: Vec<Action> = Vec::new();
            actions.push(
                Action::Send(
                    s2c::Command::Warning {
                        description: String::from_str("Message is not allowed due to regulations"),
                    },
                ),
            );
            proof {
                assert(views_of(actions@) =~= seq![
                    ActionView::Send(
                        s2c::CommandView::Warning {
                            description: "Message is not allowed due to regulations"@,
                        },
                    ),
                ]);
            }
            return actions;
        }
        server.queue.push(nickname, text);
        Vec::new()
    }

    /// Handles one received command: the dispatch step of the receive
    /// loop.
    pub fn on_command(&mut self, server: &mut ServerCore, command: c2s::Command) -> (actions: Vec<
        Action,
    >)
        requires
            old(server).wf(),
            old(server).messages@.len() < u64::MAX,
        ensures
            final(server).wf(),
            match command@ {
                c2s::CommandView::Login(req) => login_post(
                    *old(server),
                    *old(self),
                    *final(server),
                    *final(self),
                    req,
                    views_of(actions@),
                ),
                c2s::CommandView::SendMessage(text) => message_post(
                    *old(server),
                    *old(self),
                    *final(server),
                    *final(self),
                    text,
                    views_of(actions@),
                ),
            },
    {
        match command {
            c2s::Command::Login(request) => self.on_login(server, &request),
            c2s::Command::SendMessage(text) => self.on_message(server, text),
        }
    }
}

} // verus!
