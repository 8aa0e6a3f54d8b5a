//! Core of a line-oriented multi-user chat service: the framed command
//! protocol shared between server and clients, the admission policy that
//! filters addresses, nicknames and message text, the server-side
//! registries (users, connected clients, message log, pending queue), and
//! the per-connection session state machine with its broadcast fan-out.

pub mod addr;
pub mod client_list;
pub mod codec;
pub mod command;
pub mod config;
pub mod error;
pub mod ip;
pub mod json;
pub mod login;
pub mod message;
pub mod message_filter;
pub mod message_list;
pub mod message_queue;
pub mod nickname;
pub mod patterns;
pub mod server;
pub mod session;
pub mod strings;
pub mod user;
pub mod user_list;
