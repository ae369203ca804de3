//! What can go wrong with an engine.

use vstd::prelude::*;

verus! {

/// A failure reported while loading a model or driving an engine.
#[derive(Debug)]
pub enum Error {
    /// The engine's native library reported a failure; holds its message.
    SysError(String),
    /// Any other failure; holds its description.
    Unknown(String),
}

impl Error {
    /// The text that describes this error.
    pub open spec fn message(&self) -> Seq<char> {
        match self {
            Error::SysError(message) => message@,
            Error::Unknown(message) => message@,
        }
    }

    /// Renders the error as text: the message it holds, unchanged.
    pub fn to_string(&self) -> (text: String)
        ensures
            text@ == self.message(),
    {
        match self {
            Error::SysError(message) => message.clone(),
            Error::Unknown(message) => message.clone(),
        }
    }
}

} // verus!
