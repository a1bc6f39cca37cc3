//! The failure of a call to the remote endpoint, as the mail transfer agent
//! is told of it.

use crate::text::{decimal, to_decimal};
use vstd::prelude::*;
use vstd::string::StringExecFns;

verus! {

/// A call to the remote endpoint that failed: a status code from a small
/// fixed set, and the text that the endpoint gave.
#[derive(Debug, PartialEq, Eq)]
pub struct HttpError {
    code: u16,
    details: String,
}

/// The code that stands for the HTTP status `code`: 200 stays, 401 becomes
/// 421, and every other status becomes 432.
pub open spec fn bucket(code: u16) -> u16 {
    if code == 200 {
        200
    } else if code == 401 {
        421
    } else {
        432
    }
}

/// The text of an error with the code `code` and the details `details`:
/// the code in decimal digits, a space, and the details.
pub open spec fn error_text(code: u16, details: Seq<char>) -> Seq<char> {
    decimal(code as nat) + " "@ + details
}

impl View for HttpError {
    type V = (u16, Seq<char>);

    closed spec fn view(&self) -> (u16, Seq<char>) {
        (self.code, self.details@)
    }
}

impl HttpError {
    /// The error for the HTTP status `code` with the text `details`.
    pub fn new(code: u16, details: &str) -> (e: HttpError)
        ensures
            e@ == (bucket(code), details@),
    {
        HttpError {
            code: match code {
                200 => 200,
                401 => 421,
                _ => 432,
            },
            details: details.to_owned(),
        }
    }

    /// The code of the error: 200, 421 or 432 for one that `new` made.
    pub fn code(&self) -> (code: u16)
        ensures
            code == self@.0,
    {
        self.code
    }

    /// The text that the endpoint gave.
    pub fn description(&self) -> (details: &str)
        ensures
            details@ == self@.1,
    {
        self.details.as_str()
    }

    /// The error as one line: the code, a space, and the details. The code
    /// comes first because the mail transfer agent reads the status of a
    /// failed command from the leading digits of what the command prints.
    pub fn to_string(&self) -> (line: String)
        ensures
            line@ == error_text(self@.0, self@.1),
    {
        let line = to_decimal(self.code as u64).concat(" ").concat(self.details.as_str());
        line
    }
}

} // verus!
