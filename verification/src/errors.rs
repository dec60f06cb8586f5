//! The library's error type and its UI-facing code/message mapping.

use vstd::prelude::*;

verus! {

/// Errors surfaced by the protocol core.  Each variant carries a diagnostic
/// message; `code` gives the stable, machine-readable tag that the UI layer
/// serializes next to the message.
#[derive(Debug)]
pub enum Error {
    /// A filesystem failure reported by the surrounding process.
    Io(String),
    /// A record store failure (missing row, violated uniqueness).
    Database(String),
    /// A store schema migration failure.
    Migration(String),
    /// A failure with no more specific classification.
    Generic(String),
    /// Malformed text: a hex id or a base32 token.
    EncodeDecode(String),
    /// An invite ticket that is not valid base32 or does not carry the
    /// expected envelope shape.
    MalformedTicket(String),
    /// A transport endpoint failure.
    Endpoint(String),
    /// A gossip subscription failure (join refused, channel closed).
    GossipSubscription(String),
    /// A payload that could not be serialized or deserialized.
    Serde(String),
}

impl Error {
    /// The stable code tag for this error, as published to the UI.
    pub fn code(&self) -> (r: &'static str)
        ensures
            r@ == match self {
                Error::Io(_) => "io"@,
                Error::Database(_) => "database"@,
                Error::Migration(_) => "database"@,
                Error::Generic(_) => "generic"@,
                Error::EncodeDecode(_) => "encode_decode"@,
                Error::MalformedTicket(_) => "encode_decode"@,
                Error::Endpoint(_) => "endpoint"@,
                Error::GossipSubscription(_) => "gossip_subscription"@,
                Error::Serde(_) => "serde"@,
            },
    {
        match self {
            Error::Io(_) => "io",
            Error::Database(_) => "database",
            Error::Migration(_) => "database",
            Error::Generic(_) => "generic",
            Error::EncodeDecode(_) => "encode_decode",
            Error::MalformedTicket(_) => "encode_decode",
            Error::Endpoint(_) => "endpoint",
            Error::GossipSubscription(_) => "gossip_subscription",
            Error::Serde(_) => "serde",
        }
    }

    /// The human-readable message carried by this error.
    pub fn message(&self) -> (r: String)
        ensures
            r@ == match self {
                Error::Io(m) => m@,
                Error::Database(m) => m@,
                Error::Migration(m) => m@,
                Error::Generic(m) => m@,
                Error::EncodeDecode(m) => m@,
                Error::MalformedTicket(m) => m@,
                Error::Endpoint(m) => m@,
                Error::GossipSubscription(m) => m@,
                Error::Serde(m) => m@,
            },
    {
        match self {
            Error::Io(m) => m.clone(),
            Error::Database(m) => m.clone(),
            Error::Migration(m) => m.clone(),
            Error::Generic(m) => m.clone(),
            Error::EncodeDecode(m) => m.clone(),
            Error::MalformedTicket(m) => m.clone(),
            Error::Endpoint(m) => m.clone(),
            Error::GossipSubscription(m) => m.clone(),
            Error::Serde(m) => m.clone(),
        }
    }
}

} // verus!
