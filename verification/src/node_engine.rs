//! The decisions of the node that serves client connections.
//!
//! The node itself performs no input or output: the program around it
//! listens, reads the certificate, receives requests and runs statements,
//! and asks the node what to do with the outcome of each of these steps.

use vstd::prelude::*;

verus! {

/// The port that the node listens on.
pub const PORT: u16 = 5432;

/// How connections are secured.
#[derive(Debug, PartialEq, Eq)]
pub enum Security {
    /// Connections are not encrypted.
    Plain,
    /// Connections are upgraded to an encrypted channel with the identity
    /// in the certificate bundle at `certificate_path`, opened with
    /// `password`.
    Encrypted { certificate_path: String, password: String },
}

/// The mathematical content of a way to secure connections.
pub enum SecurityContent {
    Plain,
    Encrypted { certificate_path: Seq<char>, password: Seq<char> },
}

impl View for Security {
    type V = SecurityContent;

    open spec fn view(&self) -> SecurityContent {
        match self {
            Security::Plain => SecurityContent::Plain,
            Security::Encrypted { certificate_path, password } => SecurityContent::Encrypted {
                certificate_path: certificate_path@,
                password: password@,
            },
        }
    }
}

/// What the program found when it waited for the next connection.
#[derive(Debug, PartialEq, Eq, Clone, Copy, Structural)]
pub enum Incoming {
    /// A client has connected.
    Connected,
    /// Waiting for a client failed.
    Failed,
}

/// What the program does after it waited for a connection.
#[derive(Debug, PartialEq, Eq, Clone, Copy, Structural)]
pub enum ListenerAction {
    /// Serve the client on a thread of its own and wait for the next.
    Serve,
    /// Stop listening.
    Stop,
}

/// What happened on a connection since the node was last asked.
#[derive(Debug, PartialEq, Eq, Clone, Copy, Structural)]
pub enum SessionEvent {
    /// The connection was accepted.
    Accepted,
    /// A request has arrived.
    Request,
    /// Receiving failed on the transport.
    TransportFailure,
    /// What arrived is not a request of the protocol.
    ProtocolFailure,
    /// The request was executed and answered.
    Executed,
    /// The request could not be carried out, or the client asked to end.
    ExecutionEnded,
}

/// What the program does next on a connection.
#[derive(Debug, PartialEq, Eq, Clone, Copy, Structural)]
pub enum SessionAction {
    /// Wait for the next request.
    Receive,
    /// Execute the request that arrived.
    Execute,
    /// End the session and report the failure of the transport.
    FailWithTransportError,
    /// End the session and report invalid input.
    FailWithInvalidInput,
    /// End the session without a failure.
    Finish,
}

/// The node that serves client connections.
#[derive(Debug, Clone, Copy)]
pub struct NodeEngine;

impl Default for NodeEngine {
    fn default() -> (r: NodeEngine)
        ensures
            r == NodeEngine,
    {
        NodeEngine
    }
}

impl NodeEngine {
    /// How connections are secured: encrypted where both the certificate
    /// bundle and its password are configured, plain otherwise.
    pub open spec fn secured(
        certificate_path: Option<Seq<char>>,
        password: Option<Seq<char>>,
    ) -> SecurityContent {
        match (certificate_path, password) {
            (Some(certificate_path), Some(password)) => SecurityContent::Encrypted {
                certificate_path,
                password,
            },
            _ => SecurityContent::Plain,
        }
    }

    /// What follows an event on a connection: a session receives after it
    /// was accepted and after each request it has answered, executes each
    /// request that arrives, and ends on the first failure.
    pub open spec fn reaction(event: SessionEvent) -> SessionAction {
        match event {
            SessionEvent::Accepted => SessionAction::Receive,
            SessionEvent::Request => SessionAction::Execute,
            SessionEvent::TransportFailure => SessionAction::FailWithTransportError,
            SessionEvent::ProtocolFailure => SessionAction::FailWithInvalidInput,
            SessionEvent::Executed => SessionAction::Receive,
            SessionEvent::ExecutionEnded => SessionAction::Finish,
        }
    }

    /// How connections are secured with the given configuration.
    pub fn security(&self, certificate_path: Option<String>, password: Option<String>) -> (r:
        Security)
        ensures
            r@ == Self::secured(certificate_path.deep_view(), password.deep_view()),
    {
        match (certificate_path, password) {
            (Some(certificate_path), Some(password)) => Security::Encrypted {
                certificate_path,
                password,
            },
            _ => Security::Plain,
        }
    }

    /// What to do after waiting for a connection: serve a client that has
    /// connected, stop listening when waiting failed.
    pub fn on_incoming(&self, incoming: Incoming) -> (r: ListenerAction)
        ensures
            r == match incoming {
                Incoming::Connected => ListenerAction::Serve,
                Incoming::Failed => ListenerAction::Stop,
            },
    {
        match incoming {
            Incoming::Connected => ListenerAction::Serve,
            Incoming::Failed => ListenerAction::Stop,
        }
    }

    /// What to do next on a connection after an event.
    pub fn on_event(&self, event: SessionEvent) -> (r: SessionAction)
        ensures
            r == Self::reaction(event),
    {
        match event {
            SessionEvent::Accepted | SessionEvent::Executed => SessionAction::Receive,
            SessionEvent::Request => SessionAction::Execute,
            SessionEvent::TransportFailure => SessionAction::FailWithTransportError,
            SessionEvent::ProtocolFailure => SessionAction::FailWithInvalidInput,
            SessionEvent::ExecutionEnded => SessionAction::Finish,
        }
    }
}

} // verus!
