//! The error type of the library.
use vstd::prelude::*;
use crate::text::{push_str, string_from_chars};
use crate::types::{validation_error_text, BgpValidationError};

verus! {

/// Errors raised by the speaker.
#[derive(Debug)]
pub enum BgpError {
    Protocol(String),
    Message(String),
    Session(String),
    Connection(String),
    ChannelSend,
    MissingField(String),
    InvalidState(String),
    Validation(BgpValidationError),
}

/// A message error carrying `text`.
pub fn message_error(text: &str) -> (e: BgpError)
    ensures
        e matches BgpError::Message(s) && s@ == text@,
{
    BgpError::Message(text.to_owned())
}

/// The text that describes an error.
pub open spec fn error_text(e: BgpError) -> Seq<char> {
    match e {
        BgpError::Protocol(s) => "BGP protocol error: "@ + s@,
        BgpError::Message(s) => "BGP message error: "@ + s@,
        BgpError::Session(s) => "BGP session error: "@ + s@,
        BgpError::Connection(s) => "Connection failed: "@ + s@,
        BgpError::ChannelSend => "Channel send error"@,
        BgpError::MissingField(s) => "Missing required field: "@ + s@,
        BgpError::InvalidState(s) => "Invalid state transition: "@ + s@,
        BgpError::Validation(v) => "Validation error: "@ + validation_error_text(v),
    }
}

impl BgpError {
    /// The text that describes the error.
    pub fn message(&self) -> (r: String)
        ensures
            r@ == error_text(*self),
    {
        let mut out: Vec<char> = Vec::new();
        match self {
            BgpError::Protocol(s) => {
                push_str(&mut out, "BGP protocol error: ");
                push_str(&mut out, s.as_str());
            },
            BgpError::Message(s) => {
                push_str(&mut out, "BGP message error: ");
                push_str(&mut out, s.as_str());
            },
            BgpError::Session(s) => {
                push_str(&mut out, "BGP session error: ");
                push_str(&mut out, s.as_str());
            },
            BgpError::Connection(s) => {
                push_str(&mut out, "Connection failed: ");
                push_str(&mut out, s.as_str());
            },
            BgpError::ChannelSend => {
                push_str(&mut out, "Channel send error");
            },
            BgpError::MissingField(s) => {
                push_str(&mut out, "Missing required field: ");
                push_str(&mut out, s.as_str());
            },
            BgpError::InvalidState(s) => {
                push_str(&mut out, "Invalid state transition: ");
                push_str(&mut out, s.as_str());
            },
            BgpError::Validation(v) => {
                push_str(&mut out, "Validation error: ");
                let t = v.message();
                push_str(&mut out, t.as_str());
            },
        }
        string_from_chars(&out)
    }
}

} // verus!
