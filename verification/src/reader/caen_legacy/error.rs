//! CAENDigitizer error handling.

use vstd::prelude::*;

verus! {

/// Return code of a CAENDigitizer call.
#[derive(Debug, Clone, Copy, PartialEq, Eq, Structural)]
pub enum ErrorCode {
    /// `CAEN_DGTZ_Success`.
    Success,
    /// `CAEN_DGTZ_GenericError`.
    GenericError,
    /// Any other code, by its number.
    Other(i32),
}

/// A CAENDigitizer error: the return code and what was being done.
#[derive(Debug, Clone)]
pub struct DigitizerError {
    pub code: ErrorCode,
    pub context: String,
}

impl DigitizerError {
    /// An error of the library's own (generic code) with a context
    /// message; `_code` is not used.
    pub fn new(_code: i32, context: &str) -> (e: Self)
        ensures
            e.code == ErrorCode::GenericError,
            e.context@ == context@,
    {
        DigitizerError { code: ErrorCode::GenericError, context: context.to_owned() }
    }

    /// `Ok` for a successful return code, else the error with `context`.
    pub fn check(ret: ErrorCode, context: &str) -> (r: Result<(), Self>)
        ensures
            ret == ErrorCode::Success ==> r is Ok,
            ret != ErrorCode::Success ==> (r matches Err(e) && e.code == ret && e.context@
                == context@),
    {
        match ret {
            ErrorCode::Success => Ok(()),
            _ => Err(DigitizerError { code: ret, context: context.to_owned() }),
        }
    }

    /// Whether a return code reports success.
    pub fn is_success(ret: ErrorCode) -> (r: bool)
        ensures
            r == (ret == ErrorCode::Success),
    {
        match ret {
            ErrorCode::Success => true,
            _ => false,
        }
    }
}

} // verus!
