//! The decisions behind the routes of the HTTP interface.

use vstd::prelude::*;

use super::response::{SendMail, Uptime};

verus! {

/// Whether a request may pass: it carries a `token` header whose bytes are
/// those of the server's token.
pub fn authorized(header: Option<&[u8]>, token: &str) -> (r: bool)
    ensures
        r == (header matches Some(h) && h@ == vstd::utf8::encode_utf8(token@)),
{
    match header {
        None => false,
        Some(h) => {
            let t = token.as_bytes();
            if h.len() != t.len() {
                return false;
            }
            let mut i: usize = 0;
            while i < h.len()
                invariant
                    header == Some(h),
                    t@ == vstd::utf8::encode_utf8(token@),
                    h@.len() == t@.len(),
                    i <= h@.len(),
                    forall|k: int| 0 <= k < i ==> h@[k] == t@[k],
                decreases h@.len() - i,
            {
                if h[i] != t[i] {
                    assert(h@[i as int] != t@[i as int]);
                    return false;
                }
                i = i + 1;
            }
            assert(h@ =~= t@);
            true
        },
    }
}

/// The answer to a request to send a mail, from what went wrong, if anything.
pub fn send_mail_answer(failure: Option<String>) -> (r: SendMail)
    ensures
        match failure {
            None => r.success && r.message@ == "OK"@,
            Some(m) => !r.success && r.message@ == m@,
        },
{
    match failure {
        None => SendMail { success: true, message: String::from_str("OK") },
        Some(message) => SendMail { success: false, message },
    }
}

/// The answer to a status request, after `seconds` of running.
pub fn uptime_answer(seconds: u64) -> (r: Uptime)
    ensures
        r.uptime == seconds,
        r.message@ == "OK"@,
{
    Uptime { uptime: seconds, message: String::from_str("OK") }
}

} // verus!
