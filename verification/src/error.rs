//! What can go wrong while a flavor is built or named.

use vstd::prelude::*;

verus! {

/// The errors of this crate.
#[derive(Debug)]
pub enum DpfError {
    /// The configuration cannot be used; the message says why.
    ConfigError(String),
    /// A resource could not be written as JSON.
    JsonError(serde_json::Error),
}

impl DpfError {
    /// The configuration was refused with this message.
    pub open spec fn is_config_error(self, message: Seq<char>) -> bool {
        self matches DpfError::ConfigError(m) && m@ == message
    }
}

/// A refusal of the configuration carries exactly its message, and no other error is one.
pub proof fn law_config_error(error: DpfError, message: Seq<char>)
    ensures
        match error {
            DpfError::ConfigError(m) => error.is_config_error(message) <==> m@ == message,
            DpfError::JsonError(_) => !error.is_config_error(message),
        },
{
}

} // verus!
