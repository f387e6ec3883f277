//! Relay mode: requests on configured routes become events on channels.

pub mod auth;
pub mod capture;
pub mod channel;
pub mod config;
pub mod route;
pub mod sse;
pub mod template;

use crate::relay::config::{ConfigError, RelayConfig};
use vstd::prelude::*;
use vstd::string::*;

verus! {

/// Why the relay does not run.
#[derive(Debug)]
pub enum RelayError {
    Config(ConfigError),
    /// The variable that should hold the token is not set.
    TokenMissing(String),
    /// The address cannot be listened on: why.
    Bind(String),
    /// Serving ended: why.
    Serve(String),
}

impl RelayError {
    /// How the error is written.
    pub open spec fn text(self) -> Seq<char> {
        match self {
            RelayError::Config(e) => "config error: "@ + e.text(),
            RelayError::TokenMissing(name) => "admin bearer required but env var '"@ + name@ + "' is unset"@,
            RelayError::Bind(why) => "bind error: "@ + why@,
            RelayError::Serve(why) => "serve error: "@ + why@,
        }
    }

    /// Writes the error.
    pub fn to_text(&self) -> (r: String)
        ensures
            r@ == self.text(),
    {
        match self {
            RelayError::Config(e) => {
                let t = e.to_text();
                "config error: ".to_owned().concat(t.as_str())
            },
            RelayError::TokenMissing(name) => "admin bearer required but env var '".to_owned().concat(
                name.as_str(),
            ).concat("' is unset"),
            RelayError::Bind(why) => "bind error: ".to_owned().concat(why.as_str()),
            RelayError::Serve(why) => "serve error: ".to_owned().concat(why.as_str()),
        }
    }
}

/// Decides whether the relay starts: the configuration has to be accepted, and where a route
/// asks for the token there has to be one.
pub fn check_startup(config: &RelayConfig, has_token: bool) -> (r: Result<(), RelayError>)
    ensures
        match r {
            Ok(_) => config.problem() is None && (config.some_route_needs_token() ==> has_token),
            Err(RelayError::Config(ConfigError::Validation(what))) => config.problem() == Some(what@),
            Err(RelayError::TokenMissing(name)) => config.problem() is None && config.some_route_needs_token()
                && !has_token && name@ == config.admin_token_env@,
            Err(_) => false,
        },
{
    match config.validate() {
        Ok(_) => {},
        Err(e) => {
            return Err(RelayError::Config(e));
        },
    }
    if !has_token && config.requires_bearer() {
        return Err(RelayError::TokenMissing(config.admin_token_env.clone()));
    }
    Ok(())
}

/// An error of the relay is written with what failed, then why.
pub proof fn law_relay_errors_tell_what_failed(e: ConfigError, name: String, why: String)
    ensures
        RelayError::Config(e).text() == "config error: "@ + e.text(),
        RelayError::TokenMissing(name).text() == "admin bearer required but env var '"@ + name@ + "' is unset"@,
        RelayError::Bind(why).text() == "bind error: "@ + why@,
        RelayError::Serve(why).text() == "serve error: "@ + why@,
{
}

} // verus!
