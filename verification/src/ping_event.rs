//! The events that probe workers send to the aggregator.

use crate::target_stats::Outcome;
use vstd::prelude::*;
use vstd::string::StringExecFns;

verus! {

/// The key under which a target's statistics are kept: its display name, an
/// underscore, and its resolved address.
pub open spec fn target_key(addr: Seq<char>, ip: Seq<char>) -> Seq<char> {
    addr + seq!['_'] + ip
}

/// Builds the key of the target `addr` at `ip`.
pub fn make_target_key(addr: &str, ip: &str) -> (key: String)
    ensures
        key@ == target_key(addr@, ip@),
{
    proof {
        reveal_strlit("_");
    }
    assert("_"@ =~= seq!['_']);
    String::from_str(addr).concat("_").concat(ip)
}

/// The outcome of one probe, with the target it belongs to.
#[derive(Debug)]
pub enum PingEvent {
    /// A reply came back after `rtt` hundredths of a millisecond.
    Success { addr: String, ip: String, rtt: i64 },
    /// No reply came within the probe's deadline.
    Timeout { addr: String, ip: String },
}

impl PingEvent {
    /// Display name of the target that was probed.
    pub open spec fn addr(self) -> Seq<char> {
        match self {
            PingEvent::Success { addr, .. } => addr@,
            PingEvent::Timeout { addr, .. } => addr@,
        }
    }

    /// Resolved address of the target that was probed.
    pub open spec fn ip(self) -> Seq<char> {
        match self {
            PingEvent::Success { ip, .. } => ip@,
            PingEvent::Timeout { ip, .. } => ip@,
        }
    }

    /// The key of the target that was probed.
    pub open spec fn key(self) -> Seq<char> {
        target_key(self.addr(), self.ip())
    }

    /// What the probe brought, without the target.
    pub open spec fn outcome(self) -> Outcome {
        match self {
            PingEvent::Success { rtt, .. } => Outcome::Success { rtt },
            PingEvent::Timeout { .. } => Outcome::Timeout,
        }
    }
}

impl Clone for PingEvent {
    fn clone(&self) -> (copy: Self)
        ensures
            copy == *self,
    {
        match self {
            PingEvent::Success { addr, ip, rtt } => PingEvent::Success {
                addr: addr.clone(),
                ip: ip.clone(),
                rtt: *rtt,
            },
            PingEvent::Timeout { addr, ip } => PingEvent::Timeout {
                addr: addr.clone(),
                ip: ip.clone(),
            },
        }
    }
}

} // verus!
