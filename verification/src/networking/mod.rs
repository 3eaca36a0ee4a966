//! Messages between the game client and server.
use vstd::prelude::*;

pub mod io_util;
pub mod udp;

verus! {

/// The version of the TCP protocol.
pub const PROTOCOL_VERSION: u32 = 0;

/// The length of one server step, in microseconds.
pub const SERVER_TIMESTEP_MICROS: u64 = 15625;

/// A message from a client to the server over UDP.
#[derive(Debug, PartialEq, Eq, Structural, Clone, Copy)]
pub enum MsgToServer {
    Disconnect,
}

/// A message from a client to the server over TCP.
#[derive(Debug, PartialEq, Eq)]
pub enum TcpMsgToServer {
    Connect,
    Message(String),
    Disconnect,
}

/// A message from the server to a client over TCP.
#[derive(Debug, PartialEq, Eq)]
pub enum TcpMsgToClient {
    ConnectionRefused,
    ConnectionAccepted { client_id: ClientId, world: String },
    ClientConnected(ClientId),
    ClientDisconnected(ClientId),
    Message { sender: ClientId, message: String },
}

/// The id the server gives a connected client.
#[derive(Debug, PartialEq, Eq, Structural, Hash, Clone, Copy)]
pub struct ClientId(pub usize);

} // verus!
