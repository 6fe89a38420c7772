//! Configuration of the standalone server, taken from environment variables.

use vstd::prelude::*;
use crate::config::{check_server_fields, server_config_error};
use crate::error::{Error, ErrorV};
use crate::text;
use crate::text::trim_str;

verus! {

broadcast use vstd::string::group_string_axioms;

/// Environment variable that selects the log filter.
pub const RUST_LOG: &'static str = "RUST_LOG";

/// Variable holding the address the web server listens on.
pub const WEBHOOK_SERVER_WEB_ADDRESS: &'static str = "WEBHOOK_SERVER_WEB_ADDRESS";

/// Variable holding the webhook path.
pub const WEBHOOK_SERVER_WEBHOOK_PATH: &'static str = "WEBHOOK_SERVER_WEBHOOK_PATH";

/// Variable holding the JWT secret.
pub const WEBHOOK_SERVER_JWT_SECRET: &'static str = "WEBHOOK_SERVER_JWT_SECRET";

/// Configuration of the standalone server.
#[derive(Clone)]
pub struct Config {
    pub web_address: String,
    pub webhook_path: String,
    pub jwt_secret: String,
}

/// What reading the variable `key` gives, from its value (`None` when it is
/// unset or not Unicode): the value, unless it is missing or blank.
pub open spec fn env_value(key: Seq<char>, value: Option<Seq<char>>) -> Result<Seq<char>, ErrorV> {
    match value {
        Some(v) => if text::trim(v).len() == 0 {
            Err(ErrorV::ConfigInvalidError("Environment variable "@ + key + " must not be empty."@))
        } else {
            Ok(v)
        },
        None => Err(ErrorV::ConfigInvalidError("Missing environment variable: "@ + key + "."@)),
    }
}

/// The value of the variable `key`, given what the environment holds for it.
pub fn read_env(key: &str, value: Option<String>) -> (r: Result<String, Error>)
    ensures
        match r {
            Ok(v) => value == Some(v) && env_value(key@, Some(v@)) == Ok::<Seq<char>, ErrorV>(v@),
            Err(e) => env_value(key@, crate::message::opt_view(value)) == Err::<Seq<char>, ErrorV>(
                e@,
            ),
        },
{
    match value {
        Some(v) => {
            let t = trim_str(v.as_str());
            if text::chars_of(t.as_str()).len() == 0 {
                let mut msg = String::from_str("Environment variable ");
                msg.append(key);
                msg.append(" must not be empty.");
                Err(Error::ConfigInvalidError(msg))
            } else {
                Ok(v)
            }
        },
        None => {
            let mut msg = String::from_str("Missing environment variable: ");
            msg.append(key);
            msg.append(".");
            Err(Error::ConfigInvalidError(msg))
        },
    }
}

/// What building the configuration from the three variables gives: the
/// first variable that is missing or blank, in the order web address,
/// webhook path, JWT secret, refuses it; then the webhook path and secret
/// are checked as in the server configuration.
pub open spec fn config_build(
    web_address: Option<Seq<char>>,
    webhook_path: Option<Seq<char>>,
    jwt_secret: Option<Seq<char>>,
) -> Result<(Seq<char>, Seq<char>, Seq<char>), ErrorV> {
    match env_value(WEBHOOK_SERVER_WEB_ADDRESS@, web_address) {
        Err(e) => Err(e),
        Ok(a) => match env_value(WEBHOOK_SERVER_WEBHOOK_PATH@, webhook_path) {
            Err(e) => Err(e),
            Ok(p) => match env_value(WEBHOOK_SERVER_JWT_SECRET@, jwt_secret) {
                Err(e) => Err(e),
                Ok(s) => match server_config_error(p, s) {
                    Some(e) => Err(e),
                    None => Ok((a, p, s)),
                },
            },
        },
    }
}

impl Config {
    /// Builds the configuration from the values the environment holds for
    /// its three variables.
    pub fn build(web_address: Option<String>, webhook_path: Option<String>, jwt_secret: Option<String>) -> (r: Result<Config, Error>)
        ensures
            match r {
                Ok(c) => config_build(
                    crate::message::opt_view(web_address),
                    crate::message::opt_view(webhook_path),
                    crate::message::opt_view(jwt_secret),
                ) == Ok::<(Seq<char>, Seq<char>, Seq<char>), ErrorV>(
                    (c.web_address@, c.webhook_path@, c.jwt_secret@),
                ),
                Err(e) => config_build(
                    crate::message::opt_view(web_address),
                    crate::message::opt_view(webhook_path),
                    crate::message::opt_view(jwt_secret),
                ) == Err::<(Seq<char>, Seq<char>, Seq<char>), ErrorV>(e@),
            },
    {
        let web_address = match read_env(WEBHOOK_SERVER_WEB_ADDRESS, web_address) {
            Ok(v) => v,
            Err(e) => {
                return Err(e);
            },
        };
        let webhook_path = match read_env(WEBHOOK_SERVER_WEBHOOK_PATH, webhook_path) {
            Ok(v) => v,
            Err(e) => {
                return Err(e);
            },
        };
        let jwt_secret = match read_env(WEBHOOK_SERVER_JWT_SECRET, jwt_secret) {
            Ok(v) => v,
            Err(e) => {
                return Err(e);
            },
        };
        match check_server_fields(&webhook_path, &jwt_secret) {
            Some(e) => Err(e),
            None => Ok(Config { web_address, webhook_path, jwt_secret }),
        }
    }
}

} // verus!
