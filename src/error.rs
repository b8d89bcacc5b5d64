//! Errors of the library.
use vstd::prelude::*;

verus! {

/// Linux `EPERM`: the operation is not permitted.
pub const EPERM: i32 = 1;

/// Linux `ESRCH`: no such process.
pub const ESRCH: i32 = 3;

#[derive(Debug, Clone)]
pub enum AppError {
    /// The OS denied the cross-process read.
    PermissionDenied,
    /// The target process is gone.
    ProcessNotFound,
    /// The text was not a value of the requested type; carries a message.
    DataTypeParseError(String),
    /// Any other OS failure, with its raw error code.
    Errno(i32),
    /// Fewer bytes were given than the type's size.
    BufferTooSmall,
}

impl AppError {
    /// The error for an OS error code.
    pub fn from_errno(code: i32) -> (r: AppError)
        ensures
            code == EPERM ==> r is PermissionDenied,
            code == ESRCH ==> r is ProcessNotFound,
            code != EPERM && code != ESRCH ==> r == AppError::Errno(code),
    {
        if code == EPERM {
            AppError::PermissionDenied
        } else if code == ESRCH {
            AppError::ProcessNotFound
        } else {
            AppError::Errno(code)
        }
    }
}

} // verus!
