//! The credentials with which the reader signs in.

use vstd::prelude::*;

verus! {

/// The user names and passwords of the mailbox and of the mail submission
/// service.
pub struct Config {
    pub imap_user: String,
    pub imap_pass: String,
    pub smtp_user: String,
    pub smtp_pass: String,
}

} // verus!
