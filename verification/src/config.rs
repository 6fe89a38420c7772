//! Configuration of the server and of the client, checked after it has been
//! read.

use vstd::prelude::*;
use crate::error::{Error, ErrorV};
use crate::text::chars_of;
use crate::utils;

verus! {

broadcast use vstd::string::group_string_axioms;

/// Environment variable that selects the log filter.
pub const RUST_LOG: &'static str = "RUST_LOG";

/// Configuration of the server.
#[derive(Clone)]
pub struct ServerConfig {
    pub web_address: String,
    pub webhook_path: String,
    pub jwt_secret: String,
}

/// Configuration of the client.
#[derive(Clone)]
pub struct ClientConfig {
    pub ws_address: String,
    pub target_address: String,
    pub target_secure: bool,
    pub jwt_secret: String,
}

/// Command line of the server: the path of its configuration file.
pub struct ServerAppArgs {
    pub config: String,
}

/// Command line of the client: the path of its configuration file.
pub struct ClientAppArgs {
    pub config: String,
}

/// The error a server configuration is refused with, checked in order:
/// an empty webhook path, a path that is neither `*` nor of the form
/// `/name`, an empty JWT secret.
pub open spec fn server_config_error(webhook_path: Seq<char>, jwt_secret: Seq<char>) -> Option<ErrorV> {
    if webhook_path.len() == 0 {
        Some(ErrorV::ConfigInvalidError("Webhook path must not be empty."@))
    } else if webhook_path != "*"@ && !utils::webhook_path_ok(webhook_path) {
        Some(ErrorV::ConfigInvalidError("Webhook path must be in this format: /foo-bar"@))
    } else if jwt_secret.len() == 0 {
        Some(ErrorV::ConfigInvalidError("JWT secret must no be empty."@))
    } else {
        None
    }
}

/// Checks a webhook path and a secret as a server configuration does.
pub fn check_server_fields(webhook_path: &String, jwt_secret: &String) -> (r: Option<Error>)
    ensures
        match r {
            Some(e) => server_config_error(webhook_path@, jwt_secret@) == Some(e@),
            None => server_config_error(webhook_path@, jwt_secret@) is None,
        },
{
    let wh = chars_of(webhook_path.as_str());
    if wh.len() == 0 {
        return Some(Error::ConfigInvalidError(String::from_str("Webhook path must not be empty.")));
    }
    // Allow either "*" or "/foo-bar" format
    if !crate::text::eq_str(wh.as_slice(), "*") {
        if !utils::valid_webhook_path(webhook_path.as_str()) {
            return Some(
                Error::ConfigInvalidError(
                    String::from_str("Webhook path must be in this format: /foo-bar"),
                ),
            );
        }
    }
    let js = chars_of(jwt_secret.as_str());
    if js.len() == 0 {
        return Some(Error::ConfigInvalidError(String::from_str("JWT secret must no be empty.")));
    }
    None
}

/// The error a client configuration is refused with, checked in order:
/// empty websocket address, empty target address, empty JWT secret.
pub open spec fn client_config_error(c: ClientConfig) -> Option<ErrorV> {
    if c.ws_address@.len() == 0 {
        Some(ErrorV::ConfigInvalidError("Websocket address must not be empty."@))
    } else if c.target_address@.len() == 0 {
        Some(ErrorV::ConfigInvalidError("Target application host must not be empty."@))
    } else if c.jwt_secret@.len() == 0 {
        Some(ErrorV::ConfigInvalidError("JWT secret must no be empty."@))
    } else {
        None
    }
}

impl ServerConfig {
    /// Accepts a configuration as read from its file, or refuses it with the
    /// first problem found.
    pub fn validate(self) -> (r: Result<ServerConfig, Error>)
        ensures
            match r {
                Ok(c) => c == self && server_config_error(self.webhook_path@, self.jwt_secret@) is None,
                Err(e) => server_config_error(self.webhook_path@, self.jwt_secret@) == Some(e@),
            },
    {
        match check_server_fields(&self.webhook_path, &self.jwt_secret) {
            Some(e) => Err(e),
            None => Ok(self),
        }
    }
}

impl ClientConfig {
    /// Accepts a configuration as read from its file, or refuses it with the
    /// first problem found.
    pub fn validate(self) -> (r: Result<ClientConfig, Error>)
        ensures
            match r {
                Ok(c) => c == self && client_config_error(self) is None,
                Err(e) => client_config_error(self) == Some(e@),
            },
    {
        if chars_of(self.ws_address.as_str()).len() == 0 {
            return Err(
                Error::ConfigInvalidError(String::from_str("Websocket address must not be empty.")),
            );
        }
        if chars_of(self.target_address.as_str()).len() == 0 {
            return Err(
                Error::ConfigInvalidError(
                    String::from_str("Target application host must not be empty."),
                ),
            );
        }
        if chars_of(self.jwt_secret.as_str()).len() == 0 {
            return Err(Error::ConfigInvalidError(String::from_str("JWT secret must no be empty.")));
        }
        Ok(self)
    }
}

/// A server configuration is accepted exactly when its webhook path is `*`
/// or a valid `/name` path and its JWT secret is not empty.
pub proof fn lemma_server_fields_accepted(webhook_path: Seq<char>, jwt_secret: Seq<char>)
    ensures
        server_config_error(webhook_path, jwt_secret) is None <==> ((webhook_path == "*"@
            || utils::webhook_path_ok(webhook_path)) && jwt_secret.len() > 0),
{
    reveal_strlit("*");
}

/// A client configuration is accepted exactly when its websocket address,
/// target address and JWT secret are all non-empty.
pub proof fn lemma_client_fields_accepted(c: ClientConfig)
    ensures
        client_config_error(c) is None <==> (c.ws_address@.len() > 0 && c.target_address@.len() > 0
            && c.jwt_secret@.len() > 0),
{
}

} // verus!
