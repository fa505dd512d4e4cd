//! Core of an ntfy notification daemon: subscription state, message
//! de-duplication and persistence, NDJSON stream handling with supervised
//! reconnection, credential management, and the coordinator that owns the
//! set of live subscriptions.
use vstd::prelude::*;

pub mod base64;
pub mod credentials;
pub mod http_client;
pub mod json;
pub mod listener;
pub mod message_repo;
pub mod models;
pub mod ntfy;
pub mod output_tracker;
pub mod retry;
pub mod strutil;
pub mod subscription;
pub mod urls;

verus! {

/// The error taxonomy exposed by the library.
#[derive(Debug)]
pub enum Error {
    /// The topic is empty, too long, or holds a character outside the
    /// allowed set (ASCII letters, digits, `_` and `-`).
    InvalidTopic(String),
    /// The server string does not parse as an absolute base URL; the
    /// payload is a human-readable description of the parse failure.
    InvalidServer(String),
    /// A subscription failed validation for several reasons at once.
    InvalidSubscription(Vec<Error>),
    /// A message with the same `(server, id)` is already stored.
    DuplicateMessage,
    /// The line does not carry the minimal `{id, topic, time}` fields;
    /// the first payload is the offending line, the second a description.
    InvalidMinMessage(String, String),
    /// The line is not a well-formed server event; the first payload is
    /// the offending line, the second a description.
    InvalidMessage(String, String),
    /// A storage-level failure, with a description.
    Db(String),
    /// No subscription row matched; the payload names the operation.
    SubscriptionNotFound(String),
    /// A credential for this server already exists under another username.
    SingleAccountPerServer,
    /// No credential is stored for this server.
    AccountNotFound,
    /// The HTTP exchange failed: no response was configured, or the
    /// status was outside the 2xx range.
    Http(u16),
}

} // verus!
