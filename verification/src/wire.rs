//! Wire-protocol data shapes: the tagged frame exchanged with the chat
//! server, the nested message payload, and the decode error.

use vstd::prelude::*;

verus! {

/// The tag of a wire frame. `Users` and `Message` arrive from the server;
/// `Register` and `Message` are sent to it.
#[derive(Clone, Copy, PartialEq, Eq, Structural, Debug)]
pub enum MsgTypes {
    Users,
    Register,
    Message,
}

/// One frame of the wire protocol, as decoded from a text frame.
pub struct WebSocketMessage {
    pub message_type: MsgTypes,
    pub data_array: Option<Vec<String>>,
    pub data: Option<String>,
}

/// The mathematical model of a frame.
pub struct SpecFrame {
    pub message_type: MsgTypes,
    pub data_array: Option<Seq<Seq<char>>>,
    pub data: Option<Seq<char>>,
}

impl View for WebSocketMessage {
    type V = SpecFrame;

    open spec fn view(&self) -> SpecFrame {
        SpecFrame {
            message_type: self.message_type,
            data_array: match self.data_array {
                Option::Some(v) => Option::Some(v.deep_view()),
                Option::None => Option::None,
            },
            data: match self.data {
                Option::Some(s) => Option::Some(s@),
                Option::None => Option::None,
            },
        }
    }
}

/// The nested payload carried by an inbound `Message` frame.
pub struct MessageData {
    pub from: String,
    pub message: String,
}

/// The mathematical model of a nested message payload.
pub struct SpecPayload {
    pub from: Seq<char>,
    pub message: Seq<char>,
}

impl View for MessageData {
    type V = SpecPayload;

    open spec fn view(&self) -> SpecPayload {
        SpecPayload { from: self.from@, message: self.message@ }
    }
}

/// Why an inbound text frame was rejected: the frame itself did not decode
/// (malformed structure or unrecognised message type), or the nested payload
/// of a `Message` frame did not.
#[derive(Clone, Copy, PartialEq, Eq, Structural, Debug)]
pub enum ProtocolDecodeError {
    MalformedFrame,
    MalformedPayload,
}

} // verus!
