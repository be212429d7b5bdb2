//! The failures that starting and stopping a listener report to the caller.

use crate::address::{address_text, listen_address};
use vstd::prelude::*;
use vstd::string::*;

verus! {

/// Why a listener could not be started or stopped.
#[derive(Debug, PartialEq, Eq)]
pub enum ServerError {
    /// The port could not be bound; `reason` holds the system's words.
    Bind { port: u16, reason: String },
    /// The registry could not be reached; `reason` says why.
    Registry { reason: String },
}

/// A `ServerError` as plain values.
pub enum ErrorModel {
    Bind { port: u16, reason: Seq<char> },
    Registry { reason: Seq<char> },
}

impl View for ServerError {
    type V = ErrorModel;

    open spec fn view(&self) -> ErrorModel {
        match self {
            ServerError::Bind { port, reason } => ErrorModel::Bind { port: *port, reason: reason@ },
            ServerError::Registry { reason } => ErrorModel::Registry { reason: reason@ },
        }
    }
}

/// The message for an error: a bind failure names the address and the reason,
/// an unreachable registry gives its reason alone.
pub open spec fn message_text(error: ErrorModel) -> Seq<char> {
    match error {
        ErrorModel::Bind { port, reason } => "failed to bind "@ + address_text(port) + ": "@
            + reason,
        ErrorModel::Registry { reason } => reason,
    }
}

impl ServerError {
    /// The message that the caller of start or stop is given.
    pub fn message(&self) -> (text: String)
        ensures
            text@ == message_text(self@),
    {
        match self {
            ServerError::Bind { port, reason } => {
                let mut text: String = "failed to bind ".to_owned();
                let address: String = listen_address(*port);
                text.append(address.as_str());
                text.append(": ");
                text.append(reason.as_str());
                text
            },
            ServerError::Registry { reason } => reason.clone(),
        }
    }
}

} // verus!
