//! Error glue for the debot subsystem: a numeric error-code block and the
//! messages attached to each failure.

use crate::strings::{dec_digits, push_dec, push_str};
use vstd::prelude::*;

verus! {

/// First code of the debot error block.
pub const DEBOT: u32 = 800;

/// The failure kinds of the debot subsystem.
pub enum ErrorCode {
    DebotStartFailed,
    DebotFetchFailed,
    DebotExecutionFailed,
    DebotInvalidHandle,
}

/// The numeric code of each failure kind, counted from the block base.
pub open spec fn spec_code_number(code: ErrorCode) -> u32 {
    match code {
        ErrorCode::DebotStartFailed => (DEBOT + 1) as u32,
        ErrorCode::DebotFetchFailed => (DEBOT + 2) as u32,
        ErrorCode::DebotExecutionFailed => (DEBOT + 3) as u32,
        ErrorCode::DebotInvalidHandle => (DEBOT + 4) as u32,
    }
}

/// An error as handed to a client: a numeric code and a message.
#[derive(Debug)]
pub struct ClientError {
    pub code: u32,
    pub message: String,
}

impl ClientError {
    pub fn with_code_message(code: u32, message: String) -> (r: ClientError)
        ensures
            r.code == code,
            r.message@ == message@,
    {
        ClientError { code, message }
    }
}

/// An error of the given kind with the given message.
pub fn error(code: ErrorCode, message: String) -> (r: ClientError)
    ensures
        r.code == spec_code_number(code),
        r.message@ == message@,
{
    let n: u32 = match code {
        ErrorCode::DebotStartFailed => DEBOT + 1,
        ErrorCode::DebotFetchFailed => DEBOT + 2,
        ErrorCode::DebotExecutionFailed => DEBOT + 3,
        ErrorCode::DebotInvalidHandle => DEBOT + 4,
    };
    ClientError::with_code_message(n, message)
}

/// Constructors for the debot failure kinds.
pub struct Error;

impl Error {
    /// The debot could not be started; `err` describes why.
    pub fn start_failed(err: String) -> (r: ClientError)
        ensures
            r.code == spec_code_number(ErrorCode::DebotStartFailed),
            r.message@ == "Debot start failed: "@ + err@,
    {
        let mut message = "Debot start failed: ".to_owned();
        push_str(&mut message, err.as_str());
        error(ErrorCode::DebotStartFailed, message)
    }

    /// The debot could not be fetched; `err` describes why.
    pub fn fetch_failed(err: String) -> (r: ClientError)
        ensures
            r.code == spec_code_number(ErrorCode::DebotFetchFailed),
            r.message@ == "Debot fetch failed: "@ + err@,
    {
        let mut message = "Debot fetch failed: ".to_owned();
        push_str(&mut message, err.as_str());
        error(ErrorCode::DebotFetchFailed, message)
    }

    /// The debot failed while executing; `err` describes why.
    pub fn execute_failed(err: String) -> (r: ClientError)
        ensures
            r.code == spec_code_number(ErrorCode::DebotExecutionFailed),
            r.message@ == "Debot execution failed: "@ + err@,
    {
        let mut message = "Debot execution failed: ".to_owned();
        push_str(&mut message, err.as_str());
        error(ErrorCode::DebotExecutionFailed, message)
    }

    /// No debot is registered under `handle`.
    pub fn invalid_handle(handle: u32) -> (r: ClientError)
        ensures
            r.code == spec_code_number(ErrorCode::DebotInvalidHandle),
            r.message@ == "Invalid debot handle: "@ + dec_digits(handle as nat),
    {
        let mut message = "Invalid debot handle: ".to_owned();
        push_dec(&mut message, handle);
        error(ErrorCode::DebotInvalidHandle, message)
    }
}

} // verus!
