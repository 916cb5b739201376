//! One participant of a line-oriented echo protocol.
//!
//! - `message`: envelopes and their four payload kinds, with their models;
//! - `codec`: the line that encodes a message, and line framing;
//! - `json`: the schema that reads a message out of a parsed JSON value;
//! - `node`: the handshake/echo state machine of one node;
//! - `session`: a node run over a whole input, and the laws that hold of it.
use vstd::prelude::*;

pub mod codec;
pub mod json;
pub mod message;
pub mod node;
pub mod session;

verus! {

} // verus!
