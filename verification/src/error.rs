//! The library's error type and its text.

use vstd::prelude::*;

verus! {

/// Errors of the tunnel, its messages and its configuration.
#[derive(Debug)]
pub enum Error {
    AnyError(String),
    JsonParseError(String),
    ServiceError(String),
    WebSocketClosed,
    NoClientError,
    InvalidAuthToken,
    CreateAuthTokenError,
    ClientReadError(String),
    ClientWriteError(String),
    ConfigReadError(String),
    ConfigParseError(String),
    ConfigInvalidError(String),
    TunnelMessageInvalid,
    TunnelStatusLineInvalid,
    RequestLineInvalid(String),
    ResponseLineInvalid(String),
    RequestHeaderTooLarge,
    RequestHeaderInvalid,
    ResponseHeaderTooLarge,
    ResponseHeaderInvalid,
}

/// The abstract value of an [`Error`]: the same variants, texts as
/// character sequences.
pub enum ErrorV {
    AnyError(Seq<char>),
    JsonParseError(Seq<char>),
    ServiceError(Seq<char>),
    WebSocketClosed,
    NoClientError,
    InvalidAuthToken,
    CreateAuthTokenError,
    ClientReadError(Seq<char>),
    ClientWriteError(Seq<char>),
    ConfigReadError(Seq<char>),
    ConfigParseError(Seq<char>),
    ConfigInvalidError(Seq<char>),
    TunnelMessageInvalid,
    TunnelStatusLineInvalid,
    RequestLineInvalid(Seq<char>),
    ResponseLineInvalid(Seq<char>),
    RequestHeaderTooLarge,
    RequestHeaderInvalid,
    ResponseHeaderTooLarge,
    ResponseHeaderInvalid,
}

impl View for Error {
    type V = ErrorV;

    open spec fn view(&self) -> ErrorV {
        match self {
            Error::AnyError(s) => ErrorV::AnyError(s@),
            Error::JsonParseError(s) => ErrorV::JsonParseError(s@),
            Error::ServiceError(s) => ErrorV::ServiceError(s@),
            Error::WebSocketClosed => ErrorV::WebSocketClosed,
            Error::NoClientError => ErrorV::NoClientError,
            Error::InvalidAuthToken => ErrorV::InvalidAuthToken,
            Error::CreateAuthTokenError => ErrorV::CreateAuthTokenError,
            Error::ClientReadError(s) => ErrorV::ClientReadError(s@),
            Error::ClientWriteError(s) => ErrorV::ClientWriteError(s@),
            Error::ConfigReadError(s) => ErrorV::ConfigReadError(s@),
            Error::ConfigParseError(s) => ErrorV::ConfigParseError(s@),
            Error::ConfigInvalidError(s) => ErrorV::ConfigInvalidError(s@),
            Error::TunnelMessageInvalid => ErrorV::TunnelMessageInvalid,
            Error::TunnelStatusLineInvalid => ErrorV::TunnelStatusLineInvalid,
            Error::RequestLineInvalid(s) => ErrorV::RequestLineInvalid(s@),
            Error::ResponseLineInvalid(s) => ErrorV::ResponseLineInvalid(s@),
            Error::RequestHeaderTooLarge => ErrorV::RequestHeaderTooLarge,
            Error::RequestHeaderInvalid => ErrorV::RequestHeaderInvalid,
            Error::ResponseHeaderTooLarge => ErrorV::ResponseHeaderTooLarge,
            Error::ResponseHeaderInvalid => ErrorV::ResponseHeaderInvalid,
        }
    }
}

/// The abstract value of a result: success by its view, failure by the
/// error's view.
pub open spec fn result_view<T: View>(r: Result<T, Error>) -> Result<T::V, ErrorV> {
    match r {
        Ok(t) => Ok(t@),
        Err(e) => Err(e@),
    }
}

/// The text shown for an error.
pub open spec fn error_text(e: ErrorV) -> Seq<char> {
    match e {
        ErrorV::AnyError(s) => s,
        ErrorV::JsonParseError(s) => s,
        ErrorV::ServiceError(s) => s,
        ErrorV::WebSocketClosed => "WebSocket connection closed"@,
        ErrorV::NoClientError => "No connected client"@,
        ErrorV::InvalidAuthToken => "Invalid auth token"@,
        ErrorV::CreateAuthTokenError => "Unable to create auth token"@,
        ErrorV::ClientReadError(s) => s,
        ErrorV::ClientWriteError(s) => s,
        ErrorV::ConfigReadError(s) => "ConfigReadError: "@ + s,
        ErrorV::ConfigParseError(s) => "ConfigParseError: "@ + s,
        ErrorV::ConfigInvalidError(s) => "ConfigInvalidError: "@ + s,
        ErrorV::TunnelMessageInvalid => "Tunnel message malformed"@,
        ErrorV::TunnelStatusLineInvalid => "Tunnel status line malformed"@,
        ErrorV::RequestLineInvalid(s) => "RequestLineInvalid: "@ + s,
        ErrorV::ResponseLineInvalid(s) => "ResponseLineInvalid: "@ + s,
        ErrorV::RequestHeaderTooLarge => "Request header too large"@,
        ErrorV::RequestHeaderInvalid => "Request header malformed"@,
        ErrorV::ResponseHeaderTooLarge => "Response header too large"@,
        ErrorV::ResponseHeaderInvalid => "Response header malformed"@,
    }
}

fn prefixed(prefix: &str, s: &String) -> (r: String)
    ensures
        r@ == prefix@ + s@,
{
    let mut r = String::from_str(prefix);
    r.append(s.as_str());
    r
}

impl Error {
    /// The text of this error, as its display shows it.
    pub fn message(&self) -> (r: String)
        ensures
            r@ == error_text(self@),
    {
        match self {
            Error::AnyError(s) => s.clone(),
            Error::JsonParseError(s) => s.clone(),
            Error::ServiceError(s) => s.clone(),
            Error::WebSocketClosed => String::from_str("WebSocket connection closed"),
            Error::NoClientError => String::from_str("No connected client"),
            Error::InvalidAuthToken => String::from_str("Invalid auth token"),
            Error::CreateAuthTokenError => String::from_str("Unable to create auth token"),
            Error::ClientReadError(s) => s.clone(),
            Error::ClientWriteError(s) => s.clone(),
            Error::ConfigReadError(s) => prefixed("ConfigReadError: ", s),
            Error::ConfigParseError(s) => prefixed("ConfigParseError: ", s),
            Error::ConfigInvalidError(s) => prefixed("ConfigInvalidError: ", s),
            Error::TunnelMessageInvalid => String::from_str("Tunnel message malformed"),
            Error::TunnelStatusLineInvalid => String::from_str("Tunnel status line malformed"),
            Error::RequestLineInvalid(s) => prefixed("RequestLineInvalid: ", s),
            Error::ResponseLineInvalid(s) => prefixed("ResponseLineInvalid: ", s),
            Error::RequestHeaderTooLarge => String::from_str("Request header too large"),
            Error::RequestHeaderInvalid => String::from_str("Request header malformed"),
            Error::ResponseHeaderTooLarge => String::from_str("Response header too large"),
            Error::ResponseHeaderInvalid => String::from_str("Response header malformed"),
        }
    }

    /// An error holding the given text (`From<&str>`).
    pub fn from_text(s: &str) -> (r: Error)
        ensures
            r@ == ErrorV::AnyError(s@),
    {
        Error::AnyError(String::from_str(s))
    }
}

} // verus!
