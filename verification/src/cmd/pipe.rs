//! Sending one message from the standard input to the remote endpoint.

use crate::errors::{bucket, HttpError};
use crate::utils::{succeeded, Response};
use vstd::prelude::*;

verus! {

/// The name of the endpoint's service that takes a message.
pub const SERVICE: &'static str = "pipe";

/// The content type that a message is sent with.
pub const CONTENT_TYPE: &'static str = "text/plain";

/// How the command ends, given the endpoint's answer to the message that
/// was posted to the service `SERVICE`: with the endpoint's text to show
/// where the call succeeded, else with the error of the status.
pub fn cmd(posted: Response) -> (r: Result<Option<String>, HttpError>)
    ensures
        match r {
            Ok(Some(text)) => succeeded(posted.status) && text@ == posted.body@,
            Ok(None) => false,
            Err(e) => !succeeded(posted.status) && e@ == (bucket(posted.status), posted.body@),
        },
{
    match posted.into_result() {
        Ok(text) => Ok(Some(text)),
        Err(e) => Err(e),
    }
}

} // verus!
