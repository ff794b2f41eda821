//! Upstream resolvers and the errors that they give.

use vstd::prelude::*;

use crate::error::{DnsError, DnsErrorView};
use crate::text::{chars_of, contains, contains_chars, lower_text, push_text, to_lowercase};

verus! {

/// The message of an error.
pub open spec fn message_of(e: DnsErrorView) -> Seq<char> {
    match e {
        DnsErrorView::Plugin(m) => m,
        DnsErrorView::Runtime(m) => m,
    }
}

/// Whether a message tells of a timeout.
pub open spec fn tells_timeout(message: Seq<char>) -> bool {
    contains(lower_text(message), "timeout"@)
}

/// Whether an error is a timeout.
pub fn is_timeout_error(err: &DnsError) -> (r: bool)
    ensures
        r == tells_timeout(message_of(err@)),
{
    let lower = chars_of(to_lowercase(err.message()).as_str());
    let sought = chars_of("timeout");
    contains_chars(lower.as_slice(), sought.as_slice())
}

/// How an upstream is known.
#[derive(Debug, PartialEq, Eq)]
pub struct ConnectionInfo {
    /// The configured name.
    pub tag: Option<String>,
    /// The configured address.
    pub raw_addr: String,
}

/// An error with the upstream that it came from.
pub open spec fn contextualized(
    tag: Option<Seq<char>>,
    raw_addr: Seq<char>,
    err: DnsErrorView,
) -> DnsErrorView {
    DnsErrorView::Plugin(
        match tag {
            Some(t) => "upstream '"@ + t + "' ("@ + raw_addr + ") query failed: "@ + message_of(
                err,
            ),
            None => "upstream '"@ + raw_addr + "' query failed: "@ + message_of(err),
        },
    )
}

/// Adds the upstream to an error.
pub fn contextualize_upstream_error(info: &ConnectionInfo, err: DnsError) -> (r: DnsError)
    ensures
        r@ == contextualized(
            match info.tag {
                Some(t) => Some(t@),
                None => None,
            },
            info.raw_addr@,
            err@,
        ),
{
    let mut text = "upstream '".to_owned();
    match &info.tag {
        Some(tag) => {
            push_text(&mut text, tag.as_str());
            push_text(&mut text, "' (");
            push_text(&mut text, info.raw_addr.as_str());
            push_text(&mut text, ") query failed: ");
        },
        None => {
            push_text(&mut text, info.raw_addr.as_str());
            push_text(&mut text, "' query failed: ");
        },
    }
    push_text(&mut text, err.message());
    DnsError::Plugin(text)
}

} // verus!
