//! The command line: `tofino URL` fetches the URL and prints its body as
//! console text. The fetch itself is I/O and is done by the caller between
//! the two steps here: `cli` decides what to fetch, `render` what to print.

use vstd::prelude::*;
use vstd::string::*;
use crate::html::{show, shown};
use crate::resources::{resource_body, Resource};
use crate::url::{parse_url, url_error_message, url_port_readable, Url, UrlParseError};

verus! {

/// The program was not given exactly one URL.
#[derive(Debug)]
pub struct CliError;

/// The message for a wrong number of arguments.
pub open spec fn usage_message() -> Seq<char> {
    "Tofino accepts a single URL argument"@
}

impl CliError {
    /// The message that describes the error.
    pub fn to_string(&self) -> (s: String)
        ensures
            s@ == usage_message(),
    {
        String::from_str("Tofino accepts a single URL argument")
    }
}

/// Why the command line could not be turned into a URL to fetch.
#[derive(Debug)]
pub enum CliFailure {
    Usage(CliError),
    Url(UrlParseError),
}

impl CliFailure {
    /// The message that describes the failure.
    pub fn to_string(&self) -> (s: String)
        ensures
            s@ == match self {
                CliFailure::Usage(_) => usage_message(),
                CliFailure::Url(e) => url_error_message(*e),
            },
    {
        match self {
            CliFailure::Usage(e) => e.to_string(),
            CliFailure::Url(e) => e.to_string(),
        }
    }
}

/// Reads the command line (program name, then one URL) and gives the URL
/// to fetch. Panics where the original does: on a port that does not read
/// as a `usize`.
pub fn cli(args: Vec<String>) -> (r: Result<Url, CliFailure>)
    requires
        args.len() == 2 ==> url_port_readable(args[1]@),
    ensures
        args.len() != 2 ==> r matches Err(CliFailure::Usage(_)),
        args.len() == 2 ==> match parse_url(args[1]@) {
            Ok(u) => r matches Ok(url) && url@ == u,
            Err(e) => r matches Err(CliFailure::Url(f)) && f == e,
        },
{
    if args.len() != 2 {
        return Err(CliFailure::Usage(CliError));
    }
    match Url::from_str(args[1].as_str()) {
        Ok(url) => Ok(url),
        Err(e) => Err(CliFailure::Url(e)),
    }
}

/// What the command line prints for a fetched resource: its body as
/// console text.
pub fn render(resource: &Resource) -> (s: String)
    ensures
        s@ == shown(resource_body(resource@)),
{
    let body = resource.to_string();
    show(body.as_str())
}

} // verus!
