//! The wire protocol: lifecycle envelopes and the frame codec.

use vstd::prelude::*;

pub mod encode;

verus! {

/// What the application receives for one connection: the connection opened,
/// it closed, or it delivered a message.
pub enum ClientMessage<T> {
    Connect,
    Disconnect,
    Message(T),
}

} // verus!
