//! What can go wrong, and how far each failure reaches.

use vstd::prelude::*;
use crate::ids::ClientId;

verus! {

/// The kinds of failure that the compositor tells apart.
#[derive(Clone, Copy, Debug, PartialEq, Eq, Structural)]
pub enum Failure {
    /// The listening endpoint or the primary render surface could not be had.
    Startup,
    /// A client broke the protocol.
    ClientProtocol(ClientId),
    /// No per-client state could be set up for a new connection.
    ResourceExhaustion,
    /// A render target could not be acquired, or a frame not submitted.
    Render,
    /// The external program of a global binding could not be launched.
    ActionSpawn,
}

/// What a failure calls for.
#[derive(Clone, Copy, Debug, PartialEq, Eq, Structural)]
pub enum Consequence {
    /// The server cannot go on.
    Terminate,
    /// This client is torn down; nobody else is touched.
    DisconnectClient(ClientId),
    /// The connection attempt is turned away; nobody else is touched.
    RejectConnection,
    /// The failure is reported and nothing changes.
    Report,
}

impl Failure {
    /// A failure of a server-wide resource ends the server; a failure of one
    /// client or one attempt stays with that client or attempt.
    pub open spec fn calls_for(self) -> Consequence {
        match self {
            Failure::Startup => Consequence::Terminate,
            Failure::ClientProtocol(client) => Consequence::DisconnectClient(client),
            Failure::ResourceExhaustion => Consequence::RejectConnection,
            Failure::Render => Consequence::Terminate,
            Failure::ActionSpawn => Consequence::Report,
        }
    }

    /// Whether the failure is one of a resource that the whole server
    /// depends on.
    pub open spec fn is_server_wide(self) -> bool {
        self is Startup || self is Render
    }

    /// What this failure calls for.
    pub fn consequence(&self) -> (c: Consequence)
        ensures
            c == self.calls_for(),
            c is Terminate <==> self.is_server_wide(),
    {
        match self {
            Failure::Startup => Consequence::Terminate,
            Failure::ClientProtocol(client) => Consequence::DisconnectClient(*client),
            Failure::ResourceExhaustion => Consequence::RejectConnection,
            Failure::Render => Consequence::Terminate,
            Failure::ActionSpawn => Consequence::Report,
        }
    }
}

} // verus!
