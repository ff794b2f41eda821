//! Errors.

use vstd::prelude::*;

verus! {

/// An error, with a message for people.
#[derive(Debug, PartialEq, Eq)]
pub enum DnsError {
    /// A plugin is configured or used in a way that it does not support.
    Plugin(String),
    /// An operation failed while the service was running.
    Runtime(String),
}

/// The mathematical content of a [`DnsError`].
pub enum DnsErrorView {
    Plugin(Seq<char>),
    Runtime(Seq<char>),
}

impl View for DnsError {
    type V = DnsErrorView;

    open spec fn view(&self) -> DnsErrorView {
        match self {
            DnsError::Plugin(m) => DnsErrorView::Plugin(m@),
            DnsError::Runtime(m) => DnsErrorView::Runtime(m@),
        }
    }
}

impl DnsError {
    /// An error of a plugin.
    pub fn plugin(message: &str) -> (r: DnsError)
        ensures
            r@ == DnsErrorView::Plugin(message@),
    {
        DnsError::Plugin(message.to_owned())
    }

    /// An error of the runtime.
    pub fn runtime(message: &str) -> (r: DnsError)
        ensures
            r@ == DnsErrorView::Runtime(message@),
    {
        DnsError::Runtime(message.to_owned())
    }

    /// The message.
    pub fn message(&self) -> (r: &str)
        ensures
            r@ == (match self@ {
                DnsErrorView::Plugin(m) => m,
                DnsErrorView::Runtime(m) => m,
            }),
    {
        match self {
            DnsError::Plugin(m) => m.as_str(),
            DnsError::Runtime(m) => m.as_str(),
        }
    }
}

} // verus!
