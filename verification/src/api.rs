//! What the crates.io client sends and what it makes of the reply.
use vstd::prelude::*;

use crate::decimal::{decimal, decimal_string};

verus! {

/// Metadata about a crate fetched from crates.io.
#[derive(Debug, Clone)]
pub struct CrateInfo {
    pub name: String,
    pub updated_at: String,
    pub downloads: u64,
    pub repository: Option<String>,
    pub description: Option<String>,
    pub max_version: String,
}

/// The User-Agent header that crates.io's API policy asks for.
pub const USER_AGENT: &'static str = "cargo-health/0.1.0 (https://github.com/Philamentous/cargo-health)";

/// The crates endpoint of the crates.io API.
pub const CRATES_IO_API: &'static str = "https://crates.io/api/v1/crates";

/// The address of the crates.io metadata of the crate `name`.
pub fn crate_url(name: &str) -> (url: String)
    ensures
        url@ == CRATES_IO_API@ + "/"@ + name@,
{
    let mut url = String::new();
    url.append(CRATES_IO_API);
    url.append("/");
    url.append(name);
    url
}

/// Accept a reply of crates.io only with status 200; any other status is
/// an error that names it and the crate.
pub fn check_status(status: u16, name: &str) -> (checked: Result<(), String>)
    ensures
        checked is Ok <==> status == 200,
        checked matches Err(message) ==> message@ == "crates.io returned status "@ + decimal(
            status as nat,
        ) + " for "@ + name@,
{
    if status != 200 {
        let mut message = String::new();
        message.append("crates.io returned status ");
        message.append(decimal_string(status as u64).as_str());
        message.append(" for ");
        message.append(name);
        return Err(message);
    }
    Ok(())
}

/// The error when the request for the crate `name` fails, with the failure's
/// own text.
pub fn request_failed_message(name: &str, failure: &str) -> (message: String)
    ensures
        message@ == "HTTP request failed for "@ + name@ + ": "@ + failure@,
{
    let mut message = String::new();
    message.append("HTTP request failed for ");
    message.append(name);
    message.append(": ");
    message.append(failure);
    message
}

/// The error when the reply for the crate `name` cannot be read, with the
/// failure's own text.
pub fn parse_failed_message(name: &str, failure: &str) -> (message: String)
    ensures
        message@ == "Failed to parse response for "@ + name@ + ": "@ + failure@,
{
    let mut message = String::new();
    message.append("Failed to parse response for ");
    message.append(name);
    message.append(": ");
    message.append(failure);
    message
}

} // verus!
