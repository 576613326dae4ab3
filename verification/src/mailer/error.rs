//! Errors of preparing a mail for sending.

use vstd::prelude::*;

use crate::mailfmt::error::MailFmtError;

verus! {

#[verifier::external_type_specification]
#[verifier::external_body]
pub struct ExAddressError(lettre::address::AddressError);

/// Why a mail could not be prepared.
#[derive(Debug)]
pub enum MailerError {
    /// The mail could not be formatted.
    MailFmtError(MailFmtError),
    /// An e-mail address could not be read.
    AddressError(lettre::address::AddressError),
}

impl MailerError {
    /// The error of formatting a mail, as an error of preparing it.
    pub fn from_fmt(error: MailFmtError) -> (r: Self)
        ensures
            r matches MailerError::MailFmtError(e) && e@ == error@,
    {
        MailerError::MailFmtError(error)
    }

    /// The error of reading an address, as an error of preparing a mail.
    pub fn from_address(error: lettre::address::AddressError) -> (r: Self)
        ensures
            r == MailerError::AddressError(error),
    {
        MailerError::AddressError(error)
    }
}

} // verus!
