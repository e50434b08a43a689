//! The email service handle. Sending mail is I/O and lives outside the
//! library; the handle itself is plain state that the application threads
//! through its shared state, so it is defined here.

use vstd::prelude::*;

verus! {

/// A handle to the mail-sending collaborator; it carries no configuration,
/// which comes from the environment at the sending side.
#[derive(Debug, Clone)]
pub struct EmailService {}

impl EmailService {
    /// A fresh handle.
    pub fn new() -> (r: EmailService)
        ensures
            r == (EmailService {  }),
    {
        EmailService {  }
    }
}

} // verus!
