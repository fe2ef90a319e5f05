//! Process configuration, as plain values.
//!
//! Gathering these from the command line or the environment, and opening
//! the connections they describe, happens outside the library.

use vstd::prelude::*;

verus! {

/// Connection configuration for the chain endpoints.
pub struct Args {
    /// HTTP RPC endpoint for read calls.
    pub rpc: String,
    /// WebSocket endpoint for the log subscription.
    pub wss: String,
    /// Optional basic-auth user for both endpoints.
    pub username: Option<String>,
    /// Optional basic-auth password for both endpoints.
    pub password: Option<String>,
    /// Identifier of the chain being observed.
    pub chain: String,
}

impl Args {
    /// Basic-auth is in use exactly when a username is configured.
    pub open spec fn uses_auth(self) -> bool {
        self.username is Some
    }

    /// The basic-auth credentials to connect with: present exactly when
    /// a username is configured. A username without a password is a
    /// configuration error the caller must rule out first.
    pub fn credentials(&self) -> (r: Option<(String, String)>)
        requires
            self.username is Some ==> self.password is Some,
        ensures
            r is Some <==> self.uses_auth(),
            r matches Some(c) ==> (self.username matches Some(u) && c.0@ == u@) && (
            self.password matches Some(w) && c.1@ == w@),
    {
        match (&self.username, &self.password) {
            (Some(u), Some(w)) => Some((u.clone(), w.clone())),
            _ => None,
        }
    }
}

} // verus!
