use vstd::prelude::*;

verus! {

/// Serverbound packet (client to server).
#[derive(Clone, Copy, Debug, PartialEq, Eq, Structural)]
pub enum PacketSb {
    Ping,
    Join,
}

/// Clientbound packet (server to client).
#[derive(Clone, Debug)]
pub enum PacketCb {
    PingAnswer(String),
    Accept,
}

} // verus!
