//! Protocol message shapes: client-to-server commands, server-to-client
//! notifications, and the delivery instructions the core hands back to the
//! transport.

use vstd::prelude::*;

verus! {

/// A client-to-server command.
#[derive(Clone, Debug, PartialEq, Eq)]
pub enum MessageC2S {
    CreateRoom { name: String },
    JoinRoom { name: String, room_id: String },
}

/// A server-to-client notification.
#[derive(Clone, Debug, PartialEq, Eq)]
pub enum MessageS2C {
    SendAlert { text: String },
    PreGameUI { room_id: String, players: Vec<String> },
}

/// One outbound write: which connection's sink to write to, and what.
#[derive(Clone, Debug, PartialEq, Eq)]
pub struct Delivery {
    pub target: u64,
    pub message: MessageS2C,
}

/// Faults that end the connection: a frame that does not decode, or a
/// command sent out of sequence (a session that is already in a lobby).
#[derive(Clone, Copy, Debug, PartialEq, Eq)]
pub enum HandlerError {
    MalformedMessage,
    AlreadyInLobby,
}

/// Rejection of a display name.
#[derive(Clone, Copy, Debug, PartialEq, Eq)]
pub enum NameError {
    EmptyName,
}

/// Mathematical model of a client-to-server command.
pub enum MsgC2SV {
    CreateRoom { name: Seq<char> },
    JoinRoom { name: Seq<char>, room_id: Seq<char> },
}

/// Mathematical model of a server-to-client notification.
pub enum MsgS2CV {
    SendAlert { text: Seq<char> },
    PreGameUI { room_id: Seq<char>, players: Seq<Seq<char>> },
}

/// Mathematical model of one outbound write.
pub struct DeliveryV {
    pub target: u64,
    pub message: MsgS2CV,
}

impl View for MessageC2S {
    type V = MsgC2SV;

    open spec fn view(&self) -> MsgC2SV {
        match self {
            MessageC2S::CreateRoom { name } => MsgC2SV::CreateRoom { name: name@ },
            MessageC2S::JoinRoom { name, room_id } => MsgC2SV::JoinRoom {
                name: name@,
                room_id: room_id@,
            },
        }
    }
}

impl View for MessageS2C {
    type V = MsgS2CV;

    open spec fn view(&self) -> MsgS2CV {
        match self {
            MessageS2C::SendAlert { text } => MsgS2CV::SendAlert { text: text@ },
            MessageS2C::PreGameUI { room_id, players } => MsgS2CV::PreGameUI {
                room_id: room_id@,
                players: players.deep_view(),
            },
        }
    }
}

impl View for Delivery {
    type V = DeliveryV;

    open spec fn view(&self) -> DeliveryV {
        DeliveryV { target: self.target, message: self.message@ }
    }
}

/// The view of each delivery in a vector.
pub open spec fn deliveries_view(ds: Seq<Delivery>) -> Seq<DeliveryV> {
    ds.map(|i: int, d: Delivery| d@)
}

} // verus!
