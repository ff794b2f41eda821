//! Probes of addresses, and their results.

use vstd::prelude::*;

use crate::ip_selector::score::{latency_of, IpScore, ScoreSource};
use crate::proto::message::IpAddr;

verus! {

/// How an address is probed.
#[derive(Debug, Clone, Copy, PartialEq, Eq, Hash, Structural)]
pub enum ProbeMethod {
    /// By a connection to this port.
    Tcp(u16),
    Ping,
    /// Not at all.
    Off,
}

/// What is probed, and how.
#[derive(Debug, Clone, Copy, PartialEq, Eq, Hash, Structural)]
pub struct ProbeKey {
    pub ip: IpAddr,
    pub method: ProbeMethod,
}

/// The result of a probe.
#[derive(Debug, Clone, Copy, PartialEq, Eq, Structural)]
pub struct ProbeObservation {
    pub success: bool,
    pub latency_ms: Option<u64>,
    pub sampled_at_ms: u64,
}

/// The score that a result gives. A failure gives none.
pub open spec fn observed_score(o: ProbeObservation, source: ScoreSource) -> Option<IpScore> {
    if o.success {
        Some(IpScore { latency_ms: latency_of(o), source })
    } else {
        None
    }
}

impl ProbeObservation {
    /// A probe that was answered.
    pub fn success(latency_ms: u64, now_ms: u64) -> (r: ProbeObservation)
        ensures
            r == (ProbeObservation {
                success: true,
                latency_ms: Some(latency_ms),
                sampled_at_ms: now_ms,
            }),
    {
        ProbeObservation { success: true, latency_ms: Some(latency_ms), sampled_at_ms: now_ms }
    }

    /// A probe that was not answered.
    pub fn failure(now_ms: u64) -> (r: ProbeObservation)
        ensures
            r == (ProbeObservation { success: false, latency_ms: None, sampled_at_ms: now_ms }),
    {
        ProbeObservation { success: false, latency_ms: None, sampled_at_ms: now_ms }
    }

    /// The score that a result gives, if it gives one.
    pub fn score(self, source: ScoreSource) -> (r: Option<IpScore>)
        ensures
            r == observed_score(self, source),
    {
        if self.success {
            let latency_ms: u64 = match self.latency_ms {
                Some(l) => l,
                None => u64::MAX,
            };
            Some(IpScore { latency_ms, source })
        } else {
            None
        }
    }
}

/// A span of time: seconds, and nanoseconds below a second.
#[derive(Debug, Clone, Copy, PartialEq, Eq, Structural)]
pub struct Delay {
    pub secs: u64,
    pub nanos: u32,
}

/// The nanoseconds of a second.
pub const NANOS_PER_SEC: u32 = 1000000000;

impl Delay {
    /// All nanoseconds.
    pub open spec fn total(self) -> int {
        self.secs * NANOS_PER_SEC + self.nanos
    }
}

/// The longest span.
pub open spec fn longest() -> Delay {
    Delay { secs: u64::MAX, nanos: 999999999 }
}

/// How long a method waits for those before it: a step for each of them, or the longest
/// span where that is too long.
pub fn delay_for_method(stagger: Delay, method_idx: usize) -> (r: Delay)
    requires
        stagger.nanos < NANOS_PER_SEC,
    ensures
        r.nanos < NANOS_PER_SEC,
        ({
            let product = stagger.total() * (method_idx as u32);
            if product <= longest().total() {
                r.total() == product
            } else {
                r == longest()
            }
        }),
{
    let times: u32 = method_idx as u32;
    assert(stagger.nanos * times <= 999999999 * 0xffff_ffff) by (nonlinear_arith)
        requires
            stagger.nanos <= 999999999,
            times <= 0xffff_ffff,
    ;
    let nanos_all: u64 = stagger.nanos as u64 * times as u64;
    let billion: u64 = NANOS_PER_SEC as u64;
    let extra: u64 = nanos_all / billion;
    let nanos: u32 = (nanos_all % billion) as u32;
    let ghost product = stagger.total() * times;
    assert(product == stagger.secs * times * NANOS_PER_SEC + nanos_all) by (nonlinear_arith)
        requires
            product == (stagger.secs * NANOS_PER_SEC + stagger.nanos) * times,
            nanos_all == stagger.nanos * times,
    ;
    assert(nanos_all == extra * 1000000000 + nanos);
    match stagger.secs.checked_mul(times as u64) {
        Some(secs) => match secs.checked_add(extra) {
            Some(all) => {
                assert(product == all * 1000000000 + nanos);
                Delay { secs: all, nanos }
            },
            None => Delay { secs: u64::MAX, nanos: 999999999 },
        },
        None => {
            assert(product >= (u64::MAX + 1) * 1000000000);
            Delay { secs: u64::MAX, nanos: 999999999 }
        },
    }
}

/// A program to run, with its arguments.
#[derive(Debug, PartialEq, Eq)]
pub struct PingCommand {
    pub program: String,
    pub args: Vec<String>,
}

pub open spec fn is_command(c: PingCommand, program: Seq<char>, args: Seq<Seq<char>>) -> bool {
    c.program@ == program && crate::text::views(c.args@) == args
}

/// The programs to try for a ping, in order. The next is tried where one is not there.
pub fn ping_commands(ipv6: bool, ip: &str) -> (r: Vec<PingCommand>)
    ensures
        if ipv6 {
            &&& r@.len() == 2
            &&& is_command(r@[0], "ping6"@, seq!["-c"@, "1"@, ip@])
            &&& is_command(r@[1], "ping"@, seq!["-6"@, "-c"@, "1"@, ip@])
        } else {
            r@.len() == 1 && is_command(r@[0], "ping"@, seq!["-c"@, "1"@, ip@])
        },
{
    let mut out: Vec<PingCommand> = Vec::new();
    let mut plain: Vec<String> = Vec::new();
    plain.push("-c".to_owned());
    plain.push("1".to_owned());
    plain.push(ip.to_owned());
    assert(crate::text::views(plain@) =~= seq!["-c"@, "1"@, ip@]);
    if ipv6 {
        let mut marked: Vec<String> = Vec::new();
        marked.push("-6".to_owned());
        marked.push("-c".to_owned());
        marked.push("1".to_owned());
        marked.push(ip.to_owned());
        assert(crate::text::views(marked@) =~= seq!["-6"@, "-c"@, "1"@, ip@]);
        out.push(PingCommand { program: "ping6".to_owned(), args: plain });
        out.push(PingCommand { program: "ping".to_owned(), args: marked });
    } else {
        out.push(PingCommand { program: "ping".to_owned(), args: plain });
    }
    out
}

} // verus!
