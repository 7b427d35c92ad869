//! Registration over HTTP.
use crate::text::{trim_end, trimmed_end};
use vstd::prelude::*;
use vstd::string::*;

verus! {

/// How a registration request fared.
#[derive(Debug, PartialEq, Eq)]
pub enum HttpOutcome {
    /// No answer came, for the given reason.
    Unreachable { reason: String },
    /// The server answered.
    Answered { success: bool, status: String, body: String },
}

/// Where to register at a server: slashes at the end of its address do not count.
pub fn register_url(base_url: &str) -> (res: String)
    ensures
        res@ == trimmed_end(base_url@, '/') + "/register"@,
{
    let mut res = trim_end(base_url, '/').to_owned();
    res.append("/register");
    res
}

/// What a registration comes to.
pub fn register(outcome: &HttpOutcome) -> (res: Result<(), String>)
    ensures
        (match outcome {
            HttpOutcome::Unreachable { reason } => res matches Err(e) && e@ == "http: "@ + reason@,
            HttpOutcome::Answered { success, status, body } => if *success {
                res is Ok
            } else {
                res matches Err(e) && e@ == "server: "@ + status@ + " "@ + body@
            },
        }),
{
    match outcome {
        HttpOutcome::Unreachable { reason } => {
            let mut e = "http: ".to_owned();
            e.append(reason.as_str());
            Err(e)
        },
        HttpOutcome::Answered { success, status, body } => if *success {
            Ok(())
        } else {
            let mut e = "server: ".to_owned();
            e.append(status.as_str());
            e.append(" ");
            e.append(body.as_str());
            Err(e)
        },
    }
}

} // verus!
