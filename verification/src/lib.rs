//! Capture of OAuth authorization redirects on a local, short-lived HTTP listener.
//!
//! A browser that has finished an authorization is sent to
//! `http://127.0.0.1:<port>/callback/<provider>?code=...&state=...`. This
//! library holds what is decided on the way from those bytes to the event that
//! the application receives:
//!
//! - `text`: scanning and splitting of text;
//! - `decode`: percent-decoding of query values;
//! - `query`: the parameters of a query string;
//! - `request`: the request line, the provider and the query of its target;
//! - `handler`: what to answer to a connection and what to publish;
//! - `listener`: the life of one listener as a state machine;
//! - `registry`: the running listeners, one for each port;
//! - `address` and `error`: the address to bind and the failures to report.
//!
//! Sockets, tasks and the event bus are the caller's.

pub mod address;
pub mod decode;
pub mod error;
pub mod handler;
pub mod listener;
pub mod query;
pub mod registry;
pub mod request;
pub mod text;
