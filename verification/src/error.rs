//! The errors that cross the engine's boundary.

use vstd::prelude::*;

verus! {

/// What can go wrong between the reader and its mailbox.
#[derive(Debug, Clone, Copy, PartialEq, Eq, Structural)]
pub enum MailError {
    /// The mailbox refused the credentials.
    Auth,
    /// The connection could not be made or broke.
    Transport,
    /// A request went through, but the mailbox reported failure or returned
    /// nothing that matches.
    Fetch,
    /// A message or a part of it is malformed.
    Parse,
}

/// What went wrong in an exchange with the mailbox, as the connection
/// reports it.
#[derive(Debug, Clone, Copy, PartialEq, Eq, Structural)]
pub enum Fault {
    /// The network or the encryption failed, or the connection was lost.
    Network,
    /// The mailbox answered, and its answer was a refusal.
    Refused,
    /// What was sent or what came back is not in the protocol's form.
    Garbled,
}

/// The error that a fault amounts to.  A refusal means bad credentials
/// while signing in and a failed request afterwards; every other fault is a
/// failure of the transport.
pub open spec fn error_of(fault: Fault, signing_in: bool) -> MailError {
    match fault {
        Fault::Refused => if signing_in {
            MailError::Auth
        } else {
            MailError::Fetch
        },
        _ => MailError::Transport,
    }
}

/// What an error says of itself.
pub open spec fn message_of(error: MailError) -> Seq<char> {
    match error {
        MailError::Auth => "the mailbox refused the credentials"@,
        MailError::Transport => "the connection to the mailbox failed"@,
        MailError::Fetch => "the mailbox returned nothing for the request"@,
        MailError::Parse => "the message is malformed"@,
    }
}

impl MailError {
    /// The error that a fault amounts to, while signing in or afterwards.
    pub fn of_fault(fault: Fault, signing_in: bool) -> (error: MailError)
        ensures
            error == error_of(fault, signing_in),
    {
        match fault {
            Fault::Refused => if signing_in {
                MailError::Auth
            } else {
                MailError::Fetch
            },
            _ => MailError::Transport,
        }
    }

    /// The error in words.
    pub fn message(&self) -> (text: &'static str)
        ensures
            text@ == message_of(*self),
    {
        match *self {
            MailError::Auth => "the mailbox refused the credentials",
            MailError::Transport => "the connection to the mailbox failed",
            MailError::Fetch => "the mailbox returned nothing for the request",
            MailError::Parse => "the message is malformed",
        }
    }
}

} // verus!
