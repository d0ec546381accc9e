//! Checks on what scripts ask to read.

use vstd::prelude::*;

verus! {

/// Whether `is_url::is_url` accepts the text.
pub uninterp spec fn url_accepted(s: Seq<char>) -> bool;

/// Calls `is_url::is_url`, a fixed regular expression. Claimed: the answer depends on the
/// text alone.
#[verifier::external_body]
fn url_ok(s: &str) -> (r: bool)
    ensures
        r == url_accepted(s@),
{
    is_url::is_url(s)
}

/// Refuses a socket request whose URL is not a URL, with the message scripts see.
pub fn socket_url_check(socket_url: &str) -> (r: Result<(), String>)
    ensures
        r is Ok <==> url_accepted(socket_url@),
        r matches Err(e) ==> e@ == "input::socket() url error: "@ + socket_url@,
{
    if url_ok(socket_url) {
        Ok(())
    } else {
        let mut e = String::from_str("input::socket() url error: ");
        e.append(socket_url);
        Err(e)
    }
}

} // verus!
