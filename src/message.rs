//! Envelopes and their tagged payloads, with their mathematical models.
use vstd::prelude::*;

verus! {

/// The tagged body of an envelope: exactly one of the four known kinds.
#[derive(Debug, Clone, PartialEq, Eq)]
pub enum Payload {
    Init { msg_id: u32, node_id: String, node_ids: Vec<String> },
    InitOk { in_reply_to: u32 },
    Echo { msg_id: u32, echo: String },
    EchoOk { msg_id: u32, in_reply_to: u32, echo: String },
}

/// One message unit: who sent it, to whom, and what it carries.
#[derive(Debug, Clone, PartialEq, Eq)]
pub struct Message {
    pub src: String,
    pub dst: String,
    pub payload: Payload,
}

/// Mathematical model of a `Payload`: strings become character sequences.
pub enum PayloadModel {
    Init { msg_id: u32, node_id: Seq<char>, node_ids: Seq<Seq<char>> },
    InitOk { in_reply_to: u32 },
    Echo { msg_id: u32, echo: Seq<char> },
    EchoOk { msg_id: u32, in_reply_to: u32, echo: Seq<char> },
}

/// Mathematical model of a `Message`.
pub struct MessageModel {
    pub src: Seq<char>,
    pub dst: Seq<char>,
    pub payload: PayloadModel,
}

impl View for Payload {
    type V = PayloadModel;

    open spec fn view(&self) -> PayloadModel {
        match self {
            Payload::Init { msg_id, node_id, node_ids } => PayloadModel::Init {
                msg_id: *msg_id,
                node_id: node_id@,
                node_ids: node_ids.deep_view(),
            },
            Payload::InitOk { in_reply_to } => PayloadModel::InitOk { in_reply_to: *in_reply_to },
            Payload::Echo { msg_id, echo } => PayloadModel::Echo { msg_id: *msg_id, echo: echo@ },
            Payload::EchoOk { msg_id, in_reply_to, echo } => PayloadModel::EchoOk {
                msg_id: *msg_id,
                in_reply_to: *in_reply_to,
                echo: echo@,
            },
        }
    }
}

impl View for Message {
    type V = MessageModel;

    open spec fn view(&self) -> MessageModel {
        MessageModel { src: self.src@, dst: self.dst@, payload: self.payload@ }
    }
}

impl Message {
    /// Builds a message from its three parts.
    pub fn new(src: String, dst: String, payload: Payload) -> (r: Message)
        ensures
            r@ == (MessageModel { src: src@, dst: dst@, payload: payload@ }),
    {
        Message { src, dst, payload }
    }
}

} // verus!
