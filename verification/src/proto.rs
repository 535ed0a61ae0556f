use vstd::prelude::*;

use crate::net::States;

verus! {

/// A message from a client to the server.
pub enum ClientToServer {
    Join,
}

/// A message from the server to a client.
pub enum ServerToClient {
    States(States),
}

/// The server side of a connection.
pub struct ServerEndpoint;

/// The client side of a connection.
pub struct ClientEndpoint;

/// A client that can open its session with the server.
pub trait ClientPeer {
    fn connect(&mut self);
}

} // verus!
