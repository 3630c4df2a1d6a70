//! Session-establishment data: the connection configuration and the
//! errors a handshake can end with. The handshakes themselves perform
//! transport work and live with the caller; the commands they issue are
//! built here, verified.

use vstd::prelude::*;

use crate::error::ESLError;

verus! {

/// Configuration for establishing a session: the password to present,
/// and how many seconds a handshake step may take.
pub struct ESLConfig {
    pub password: String,
    pub timeout_secs: u64,
}

impl Default for ESLConfig {
    /// An empty password and a five-second handshake timeout.
    fn default() -> (r: Self)
        ensures
            r.password@ == Seq::<char>::empty(),
            r.timeout_secs == 5,
    {
        ESLConfig { password: String::new(), timeout_secs: 5 }
    }
}

impl ESLConfig {
    /// A configuration that keeps the default timeout and takes the
    /// given text as the password.
    pub fn from(value: &str) -> (r: Self)
        ensures
            r.password@ == value@,
            r.timeout_secs == 5,
    {
        ESLConfig { password: value.to_owned(), timeout_secs: 5 }
    }
}

/// Why establishing a session failed: the handshake timed out, the peer
/// rejected the credentials, or the connection itself failed.
#[derive(Debug)]
pub enum ConnectError {
    Timeout,
    Auth,
    Connection(ESLError),
}

impl From<ESLError> for ConnectError {
    fn from(value: ESLError) -> (r: Self) {
        ConnectError::Connection(value)
    }
}

impl vstd::std_specs::convert::FromSpecImpl<ESLError> for ConnectError {
    open spec fn obeys_from_spec() -> bool {
        true
    }

    open spec fn from_spec(v: ESLError) -> ConnectError {
        ConnectError::Connection(v)
    }
}

} // verus!
