//! Errors reported to the author of a profile.

use vstd::prelude::*;

verus! {

/// What is wrong with a sandbox configuration.
#[derive(Debug)]
pub enum SandboxError {
    /// A value was refused, for the reason that the message gives.
    Invalid(String),
}

/// The error type of every fallible function of this crate.
#[derive(Debug)]
pub enum SandlockError {
    /// The sandbox configuration is at fault.
    Sandbox(SandboxError),
}

impl SandlockError {
    /// The message that the error carries.
    pub open spec fn text(&self) -> Seq<char> {
        match self {
            SandlockError::Sandbox(SandboxError::Invalid(msg)) => msg@,
        }
    }

    /// The message that the error carries.
    pub fn message(&self) -> (msg: String)
        ensures
            msg@ == self.text(),
    {
        match self {
            SandlockError::Sandbox(SandboxError::Invalid(msg)) => msg.clone(),
        }
    }
}

/// Wraps `msg` as the refusal of a configuration value.
pub fn invalid(msg: String) -> (err: SandlockError)
    ensures
        err == SandlockError::Sandbox(SandboxError::Invalid(msg)),
{
    SandlockError::Sandbox(SandboxError::Invalid(msg))
}

} // verus!
