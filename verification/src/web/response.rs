//! The bodies of the HTTP answers.

use vstd::prelude::*;

verus! {

/// The answer to a status request: how long the server has run.
pub struct Uptime {
    /// Seconds since the server started.
    pub uptime: u64,
    pub message: String,
}

/// The answer to a request to send a mail.
pub struct SendMail {
    pub success: bool,
    /// `"OK"`, or what went wrong.
    pub message: String,
}

} // verus!
