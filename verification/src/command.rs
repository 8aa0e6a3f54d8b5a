//! The commands of the wire protocol: what a client can send to the
//! server and what the server can send back.

pub mod c2s;
pub mod s2c;
