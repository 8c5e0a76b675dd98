//! Startup options read from the program call.
//!
//! Reading the call line itself is the embedding program's business; the
//! decision of what a token means lives here.

use vstd::prelude::*;

use crate::errors::FromCallError;

verus! {

/// Which role the process starts in.
#[derive(Clone, Copy, Debug, PartialEq, Eq, Structural, Hash)]
pub enum StartupOption {
    /// Host the shared log and accept connections.
    Server,
    /// Look for a server and follow its log.
    Client,
}

impl StartupOption {
    /// The role taken when the call names none: a client.
    pub fn new() -> (r: Self)
        ensures
            r == StartupOption::Client,
    {
        StartupOption::Client
    }

    /// Whether the process should start as a server.
    pub fn as_server(&self) -> (r: bool)
        ensures
            r == (self is Server),
    {
        match self {
            StartupOption::Server => true,
            StartupOption::Client => false,
        }
    }

    /// Whether the process should start as a client.
    pub fn as_client(&self) -> (r: bool)
        ensures
            r == (self is Client),
    {
        match self {
            StartupOption::Server => false,
            StartupOption::Client => true,
        }
    }

    /// Read a role from one token: anything starting with `s` is the
    /// server role, anything starting with `c` the client role.
    pub fn from_flag(s: &str) -> (r: Result<Self, FromCallError>)
        ensures
            r == (if s@.len() > 0 && s@[0] == 's' {
                Ok::<StartupOption, FromCallError>(StartupOption::Server)
            } else if s@.len() > 0 && s@[0] == 'c' {
                Ok::<StartupOption, FromCallError>(StartupOption::Client)
            } else {
                Err::<StartupOption, FromCallError>(FromCallError::NotFound)
            }),
    {
        if s.unicode_len() == 0 {
            return Err(FromCallError::NotFound);
        }
        let first = s.get_char(0);
        if first == 's' {
            Ok(StartupOption::Server)
        } else if first == 'c' {
            Ok(StartupOption::Client)
        } else {
            Err(FromCallError::NotFound)
        }
    }
}

} // verus!
