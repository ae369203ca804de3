//! The status codes of the native engine libraries.

use crate::error::Error;
use vstd::prelude::*;

verus! {

/// What a call into an engine's native library reports back.
#[derive(Clone, Copy, Debug, PartialEq, Eq, Structural)]
pub enum InferenceEngineResultCode {
    /// The call did its work.
    Success,
    /// The call failed; the library keeps a message that says why.
    Error,
}

impl InferenceEngineResultCode {
    /// Turns the code of a native call into a `Result`.
    ///
    /// `Success` becomes `Ok(())`. `Error` becomes [`Error::SysError`] with the
    /// message that `last_error_message` hands out; the message is asked for
    /// only in that case.
    pub fn into_result<F: FnOnce() -> String>(self, last_error_message: F) -> (result: Result<
        (),
        Error,
    >)
        requires
            self is Error ==> call_requires(last_error_message, ()),
        ensures
            self is Success ==> result is Ok,
            self is Error ==> (result matches Err(Error::SysError(message)) && call_ensures(
                last_error_message,
                (),
                message,
            )),
    {
        match self {
            InferenceEngineResultCode::Success => Ok(()),
            InferenceEngineResultCode::Error => Err(Error::SysError(last_error_message())),
        }
    }
}

} // verus!
