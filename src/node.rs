//! The node's state machine: an uninitialized node accepts only the handshake,
//! a ready node answers echo requests with ids drawn from its outbound counter.
use vstd::prelude::*;
use crate::message::{Message, MessageModel, Payload, PayloadModel};

verus! {

/// The largest number of echo replies one node can tag: one per `u32` value.
pub open spec fn id_space() -> nat {
    0x1_0000_0000
}

/// What the node knows: nothing before the handshake; afterwards its identity
/// and the id that its next echo reply carries.
#[derive(Debug, Clone, PartialEq, Eq)]
pub enum State {
    Uninitialized,
    Ready { node_id: String, next_id: u64 },
}

/// Mathematical model of a `State`.
pub enum StateModel {
    Uninitialized,
    Ready { node_id: Seq<char>, next_id: nat },
}

impl View for State {
    type V = StateModel;

    open spec fn view(&self) -> StateModel {
        match self {
            State::Uninitialized => StateModel::Uninitialized,
            State::Ready { node_id, next_id } => StateModel::Ready {
                node_id: node_id@,
                next_id: *next_id as nat,
            },
        }
    }
}

/// Why the node stops with a failure.
#[derive(Debug, Clone, PartialEq, Eq)]
pub enum NodeError {
    /// The input ended before any handshake.
    NoInitialMessage,
    /// A payload that is not legal in the node's current state.
    InvalidPayload(Payload),
    /// Every `u32` message id has been used by an earlier reply.
    IdsExhausted,
}

/// Mathematical model of a `NodeError`.
pub enum ErrorModel {
    NoInitialMessage,
    InvalidPayload(PayloadModel),
    IdsExhausted,
}

impl View for NodeError {
    type V = ErrorModel;

    open spec fn view(&self) -> ErrorModel {
        match self {
            NodeError::NoInitialMessage => ErrorModel::NoInitialMessage,
            NodeError::InvalidPayload(p) => ErrorModel::InvalidPayload(p@),
            NodeError::IdsExhausted => ErrorModel::IdsExhausted,
        }
    }
}

impl StateModel {
    /// The counter stays within the ids that a reply can carry, and it starts
    /// only with the handshake.
    pub open spec fn wf(self) -> bool {
        match self {
            StateModel::Uninitialized => true,
            StateModel::Ready { next_id, .. } => next_id <= id_space(),
        }
    }
}

/// One transition: the state after `m` and the reply it triggers, or the
/// failure that stops the node.
pub open spec fn step_model(s: StateModel, m: MessageModel) -> Result<
    (StateModel, MessageModel),
    ErrorModel,
> {
    match s {
        StateModel::Uninitialized => match m.payload {
            PayloadModel::Init { msg_id, node_id, .. } => Ok(
                (
                    StateModel::Ready { node_id, next_id: 0 },
                    MessageModel {
                        src: node_id,
                        dst: m.src,
                        payload: PayloadModel::InitOk { in_reply_to: msg_id },
                    },
                ),
            ),
            _ => Err(ErrorModel::InvalidPayload(m.payload)),
        },
        StateModel::Ready { node_id, next_id } => match m.payload {
            PayloadModel::Echo { msg_id, echo } => if next_id < id_space() {
                Ok(
                    (
                        StateModel::Ready { node_id, next_id: next_id + 1 },
                        MessageModel {
                            src: node_id,
                            dst: m.src,
                            payload: PayloadModel::EchoOk {
                                msg_id: next_id as u32,
                                in_reply_to: msg_id,
                                echo,
                            },
                        },
                    ),
                )
            } else {
                Err(ErrorModel::IdsExhausted)
            },
            _ => Err(ErrorModel::InvalidPayload(m.payload)),
        },
    }
}

/// The end of the input: normal once the handshake is done, a failure before.
pub open spec fn finish_model(s: StateModel) -> Result<(), ErrorModel> {
    match s {
        StateModel::Uninitialized => Err(ErrorModel::NoInitialMessage),
        StateModel::Ready { .. } => Ok(()),
    }
}

impl State {
    /// A node at process start: no identity yet.
    pub fn new() -> (r: State)
        ensures
            r@ == StateModel::Uninitialized,
    {
        State::Uninitialized
    }

    /// The node's identity, once the handshake has fixed it.
    pub fn node_id(&self) -> (r: Option<&String>)
        ensures
            match self@ {
                StateModel::Uninitialized => r is None,
                StateModel::Ready { node_id, .. } => r is Some && r->Some_0@ == node_id,
            },
    {
        match self {
            State::Uninitialized => None,
            State::Ready { node_id, .. } => Some(node_id),
        }
    }

    /// Handles one inbound message. On success the node has moved on and the
    /// reply is returned; on failure the node is left as it was.
    pub fn step(&mut self, m: Message) -> (r: Result<Message, NodeError>)
        ensures
            old(self)@.wf() ==> final(self)@.wf(),
            match step_model(old(self)@, m@) {
                Ok((next, reply)) => r is Ok && r->Ok_0@ == reply && final(self)@ == next,
                Err(e) => r is Err && r->Err_0@ == e && final(self)@ == old(self)@,
            },
    {
        let Message { src, dst: _, payload } = m;
        match self {
            State::Uninitialized => match payload {
                Payload::Init { msg_id, node_id, node_ids: _ } => {
                    let reply = Message {
                        src: node_id.clone(),
                        dst: src,
                        payload: Payload::InitOk { in_reply_to: msg_id },
                    };
                    *self = State::Ready { node_id, next_id: 0 };
                    Ok(reply)
                },
                other => Err(NodeError::InvalidPayload(other)),
            },
            State::Ready { node_id, next_id } => match payload {
                Payload::Echo { msg_id, echo } => {
                    if *next_id <= 0xffff_ffff {
                        let id = *next_id as u32;
                        *next_id = *next_id + 1;
                        Ok(
                            Message {
                                src: node_id.clone(),
                                dst: src,
                                payload: Payload::EchoOk { msg_id: id, in_reply_to: msg_id, echo },
                            },
                        )
                    } else {
                        Err(NodeError::IdsExhausted)
                    }
                },
                other => Err(NodeError::InvalidPayload(other)),
            },
        }
    }

    /// Handles the end of the input.
    pub fn finish(&self) -> (r: Result<(), NodeError>)
        ensures
            match finish_model(self@) {
                Ok(()) => r is Ok,
                Err(e) => r is Err && r->Err_0@ == e,
            },
    {
        match self {
            State::Uninitialized => Err(NodeError::NoInitialMessage),
            State::Ready { .. } => Ok(()),
        }
    }
}

/// A ready node answers an echo request with the request's text unchanged,
/// the request's id as `in_reply_to`, and its counter as the reply's own id,
/// as long as the counter has an id left to give.
pub proof fn lemma_echo_correlation(s: StateModel, m: MessageModel)
    requires
        s is Ready,
        s->Ready_next_id < id_space(),
        m.payload is Echo,
    ensures
        step_model(s, m) is Ok,
        step_model(s, m)->Ok_0.1 == (MessageModel {
            src: s->Ready_node_id,
            dst: m.src,
            payload: PayloadModel::EchoOk {
                msg_id: s->Ready_next_id as u32,
                in_reply_to: m.payload->Echo_msg_id,
                echo: m.payload->Echo_echo,
            },
        }),
        step_model(s, m)->Ok_0.0 == (StateModel::Ready {
            node_id: s->Ready_node_id,
            next_id: s->Ready_next_id + 1,
        }),
{
}

/// Once the handshake is done, every payload but an echo request stops the
/// node, a second handshake included.
pub proof fn lemma_rejects_after_handshake(s: StateModel, m: MessageModel)
    requires
        s is Ready,
        !(m.payload is Echo),
    ensures
        step_model(s, m) is Err,
        step_model(s, m)->Err_0 == ErrorModel::InvalidPayload(m.payload),
{
}

} // verus!
