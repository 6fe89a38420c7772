//! Configuration of the proxying client: the server to connect to and the
//! local targets requests are routed to.

use vstd::prelude::*;
use crate::error::{Error, ErrorV};
use crate::text;
use crate::text::{chars_of, starts_with_chars};

verus! {

broadcast use vstd::string::group_string_axioms;

/// Environment variable that selects the log filter.
pub const RUST_LOG: &'static str = "RUST_LOG";

/// A local target: requests whose path starts with `source_path` go to
/// `host`, with `source_path` replaced by `dest_path`.
#[derive(Clone)]
pub struct ProxyTarget {
    pub host: String,
    pub secure: bool,
    pub source_path: String,
    pub dest_path: String,
}

/// Configuration of the client.
#[derive(Clone)]
pub struct Config {
    pub server_address: String,
    pub targets: Vec<ProxyTarget>,
    pub jwt_secret: String,
}

/// Command line of the client: the path of its configuration file.
pub struct AppArgs {
    pub config: String,
}

/// The error a proxy target is refused with, checked in order.
pub open spec fn target_error(t: ProxyTarget) -> Option<ErrorV> {
    if t.host@.len() == 0 {
        Some(ErrorV::ConfigInvalidError("Proxy target host is required."@))
    } else if t.source_path@.len() == 0 {
        Some(ErrorV::ConfigInvalidError("Proxy target source path is required."@))
    } else if !text::has_prefix(t.source_path@, "/"@) {
        Some(ErrorV::ConfigInvalidError("Proxy target source path is invalid."@))
    } else if t.dest_path@.len() == 0 {
        Some(ErrorV::ConfigInvalidError("Proxy target destination path is required."@))
    } else if !text::has_prefix(t.dest_path@, "/"@) {
        Some(ErrorV::ConfigInvalidError("Proxy target destination path is invalid."@))
    } else {
        None
    }
}

/// The error of the first refused target among `ts`.
pub open spec fn targets_error(ts: Seq<ProxyTarget>) -> Option<ErrorV>
    decreases ts.len(),
{
    if ts.len() == 0 {
        None
    } else {
        match target_error(ts[0]) {
            Some(e) => Some(e),
            None => targets_error(ts.drop_first()),
        }
    }
}

/// The error a client configuration is refused with, checked in order:
/// empty server address, the first invalid target, empty JWT secret.
pub open spec fn config_error(c: Config) -> Option<ErrorV> {
    if c.server_address@.len() == 0 {
        Some(ErrorV::ConfigInvalidError("Websocket address must not be empty."@))
    } else {
        match targets_error(c.targets@) {
            Some(e) => Some(e),
            None => if c.jwt_secret@.len() == 0 {
                Some(ErrorV::ConfigInvalidError("JWT secret must no be empty."@))
            } else {
                None
            },
        }
    }
}

fn invalid(msg: &str) -> (r: Error)
    ensures
        r@ == ErrorV::ConfigInvalidError(msg@),
{
    Error::ConfigInvalidError(String::from_str(msg))
}

fn check_target(t: &ProxyTarget) -> (r: Option<Error>)
    ensures
        match r {
            Some(e) => target_error(*t) == Some(e@),
            None => target_error(*t) is None,
        },
{
    let slash = chars_of("/");
    if chars_of(t.host.as_str()).len() == 0 {
        return Some(invalid("Proxy target host is required."));
    }
    let sp = chars_of(t.source_path.as_str());
    if sp.len() == 0 {
        return Some(invalid("Proxy target source path is required."));
    }
    if !starts_with_chars(sp.as_slice(), slash.as_slice()) {
        return Some(invalid("Proxy target source path is invalid."));
    }
    let dp = chars_of(t.dest_path.as_str());
    if dp.len() == 0 {
        return Some(invalid("Proxy target destination path is required."));
    }
    if !starts_with_chars(dp.as_slice(), slash.as_slice()) {
        return Some(invalid("Proxy target destination path is invalid."));
    }
    None
}

impl Config {
    /// Accepts a configuration as read from its file, or refuses it with the
    /// first problem found.
    pub fn validate(self) -> (r: Result<Config, Error>)
        ensures
            match r {
                Ok(c) => c == self && config_error(self) is None,
                Err(e) => config_error(self) == Some(e@),
            },
    {
        if chars_of(self.server_address.as_str()).len() == 0 {
            return Err(invalid("Websocket address must not be empty."));
        }
        // Simple validation for proxy targets
        let mut i: usize = 0;
        assert(self.targets@.skip(0) =~= self.targets@);
        while i < self.targets.len()
            invariant
                i <= self.targets@.len(),
                self.server_address@.len() != 0,
                targets_error(self.targets@) == targets_error(self.targets@.skip(i as int)),
            decreases self.targets.len() - i,
        {
            assert(self.targets@.skip(i as int).drop_first() =~= self.targets@.skip(i + 1));
            match check_target(&self.targets[i]) {
                Some(e) => {
                    return Err(e);
                },
                None => {},
            }
            i = i + 1;
        }
        if chars_of(self.jwt_secret.as_str()).len() == 0 {
            return Err(invalid("JWT secret must no be empty."));
        }
        Ok(self)
    }
}

} // verus!
