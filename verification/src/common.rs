//! The message types that client and server exchange.

use vstd::prelude::*;

verus! {

/// What a client sends to the server.
pub type ClientMessage = String;

/// What the server sends to a client.
pub type ServerMessage = String;

} // verus!
