//! What a forwarder gives back.

use vstd::prelude::*;

use crate::error::{DnsError, DnsErrorView};
use crate::forward::selection::{outcome_view, OutcomeView, SelectionOutcome};
use crate::forward::upstream::{
    contextualize_upstream_error, contextualized, message_of, ConnectionInfo,
};
use crate::proto::message::{Message, MessageView};
use crate::proto::response::ResponseDisposition;
use crate::text::{between, push_text};

verus! {

/// Whether the chain goes on.
#[derive(Debug, Clone, Copy, PartialEq, Eq, Structural)]
pub enum ExecStep {
    Next,
    Stop,
}

pub open spec fn step_after(short_circuit: bool) -> ExecStep {
    if short_circuit {
        ExecStep::Stop
    } else {
        ExecStep::Next
    }
}

/// A forwarder with several upstreams.
#[derive(Debug, PartialEq, Eq)]
pub struct ConcurrentForwarder {
    pub tag: String,
    /// The number of upstreams that are asked at the same time.
    pub active_concurrent: usize,
    /// Whether a response ends the chain.
    pub short_circuit: bool,
}

/// What a request gets from several upstreams: the response, the step and whether the
/// response is an alias without its records.
pub open spec fn forwarded(tag: Seq<char>, short_circuit: bool, o: OutcomeView) -> Result<
    (MessageView, ExecStep, bool),
    DnsErrorView,
> {
    match o.response {
        Some(s) => Ok(
            (
                s.message,
                step_after(short_circuit),
                s.disposition == Some(ResponseDisposition::IncompleteAlias),
            ),
        ),
        None => Err(
            DnsErrorView::Plugin(
                "forward plugin '"@ + tag + "' failed across all concurrent upstreams: "@ + match o.error {
                    Some(e) => e,
                    None => "no upstream response"@,
                },
            ),
        ),
    }
}

impl ConcurrentForwarder {
    /// What follows a response.
    pub fn completion_step(&self) -> (r: ExecStep)
        ensures
            r == step_after(self.short_circuit),
    {
        if self.short_circuit {
            ExecStep::Stop
        } else {
            ExecStep::Next
        }
    }

    /// What a request gets.
    pub fn conclude(&self, outcome: SelectionOutcome) -> (r: Result<
        (Message, ExecStep, bool),
        DnsError,
    >)
        ensures
            ({
                let f = forwarded(self.tag@, self.short_circuit, outcome_view(outcome));
                match r {
                    Ok((m, step, alias)) => f == Ok::<
                        (MessageView, ExecStep, bool),
                        DnsErrorView,
                    >((m@, step, alias)),
                    Err(e) => f == Err::<(MessageView, ExecStep, bool), DnsErrorView>(e@),
                }
            }),
    {
        let (response, last_error, _) = outcome;
        if let Some(selected) = response {
            let alias = match selected.disposition {
                Some(ResponseDisposition::IncompleteAlias) => true,
                _ => false,
            };
            return Ok((selected.message, self.completion_step(), alias));
        }
        let err = match last_error {
            Some(e) => e,
            None => "no upstream response".to_owned(),
        };
        let mut text = between(
            "forward plugin '",
            self.tag.as_str(),
            "' failed across all concurrent upstreams: ",
        );
        push_text(&mut text, err.as_str());
        Err(DnsError::Plugin(text))
    }
}

/// A forwarder with one upstream.
#[derive(Debug, PartialEq, Eq)]
pub struct SingleDnsForwarder {
    pub tag: String,
    pub upstream: ConnectionInfo,
    /// Whether a response ends the chain.
    pub short_circuit: bool,
}

/// The error of a request to one upstream.
pub open spec fn single_error(
    tag: Seq<char>,
    upstream_tag: Option<Seq<char>>,
    raw_addr: Seq<char>,
    e: DnsErrorView,
) -> DnsErrorView {
    DnsErrorView::Plugin(
        "forward plugin '"@ + tag + "' query failed: "@ + message_of(
            contextualized(upstream_tag, raw_addr, e),
        ),
    )
}

impl SingleDnsForwarder {
    /// What follows a response.
    pub fn completion_step(&self) -> (r: ExecStep)
        ensures
            r == step_after(self.short_circuit),
    {
        if self.short_circuit {
            ExecStep::Stop
        } else {
            ExecStep::Next
        }
    }

    /// What a request gets.
    pub fn conclude(&self, result: Result<Message, DnsError>) -> (r: Result<
        (Message, ExecStep),
        DnsError,
    >)
        ensures
            match result {
                Ok(m) => r == Ok::<(Message, ExecStep), DnsError>(
                    (m, step_after(self.short_circuit)),
                ),
                Err(e) => r is Err && r->Err_0@ == single_error(
                    self.tag@,
                    match self.upstream.tag {
                        Some(t) => Some(t@),
                        None => None,
                    },
                    self.upstream.raw_addr@,
                    e@,
                ),
            },
    {
        match result {
            Ok(m) => Ok((m, self.completion_step())),
            Err(e) => {
                let error = contextualize_upstream_error(&self.upstream, e);
                let mut text = between("forward plugin '", self.tag.as_str(), "' query failed: ");
                push_text(&mut text, error.message());
                Err(DnsError::Plugin(text))
            },
        }
    }
}

} // verus!
