//! The probe worker without its probe: what it does before each probe, with
//! each reply, and when its probe cannot be started.

use crate::ping_event::PingEvent;
use vstd::prelude::*;
use vstd::string::StringExecFns;

verus! {

/// Nanoseconds in one hundredth of a millisecond, the unit of a latency.
pub const NANOS_PER_UNIT: u128 = 10_000;

/// A duration in hundredths of a millisecond, rounded to the nearest unit,
/// halves upwards.
pub open spec fn rounded_units(nanos: nat) -> nat {
    (nanos + 5_000) / 10_000
}

/// The latency that stands for a reply after `nanos` nanoseconds: the
/// duration in hundredths of a millisecond, rounded to the nearest, and the
/// largest latency there is where the duration lies beyond it.
pub open spec fn rtt_of(nanos: nat) -> i64 {
    if rounded_units(nanos) <= i64::MAX {
        rounded_units(nanos) as i64
    } else {
        i64::MAX
    }
}

/// Turns the duration of a reply into a latency.
pub fn rtt_from_nanos(nanos: u128) -> (rtt: i64)
    ensures
        rtt == rtt_of(nanos as nat),
        rtt >= 0,
{
    let whole: u128 = nanos / NANOS_PER_UNIT;
    let rest: u128 = nanos % NANOS_PER_UNIT;
    let rounded: u128 = if rest >= 5_000 {
        whole + 1
    } else {
        whole
    };
    assert(rounded == rounded_units(nanos as nat));
    if rounded <= i64::MAX as u128 {
        rounded as i64
    } else {
        i64::MAX
    }
}

/// What the probe mechanism yielded for one cycle.
#[derive(Debug)]
pub enum ProbeReply {
    /// A reply came back after `nanos` nanoseconds.
    Pong { nanos: u128 },
    /// No reply came within the deadline.
    Timeout,
    /// The probe process ended, with this exit code if it has one, its status
    /// as text, and what it wrote to its error stream.
    Exited { code: Option<i32>, status: String, stderr: String },
    /// The probe mechanism printed a line that it does not understand.
    Unknown { line: String },
    /// The stream of replies could not be read.
    Failed { error: String },
}

/// What a worker does with a reply.
#[derive(Debug)]
pub enum TaskAction {
    /// Send the event to the aggregator.
    Send(PingEvent),
    /// Add the message to the error log.
    Report(String),
    /// Do nothing.
    Skip,
}

/// The message for a probe process that ended.
pub open spec fn exited_message(ip: Seq<char>, stderr: Seq<char>, status: Seq<char>) -> Seq<
    char,
> {
    "host("@ + ip + ") ping err, reason: ping excited, status: "@ + stderr + " err: "@ + status
}

/// The message for a line that the probe mechanism does not understand.
pub open spec fn unknown_message(ip: Seq<char>, line: Seq<char>) -> Seq<char> {
    "host("@ + ip + ") ping err, reason:unknown, err: "@ + line
}

/// The message for a stream of replies that could not be read.
pub open spec fn failed_message(ip: Seq<char>, error: Seq<char>) -> Seq<char> {
    "host("@ + ip + ") ping err, reason: unknown, err: "@ + error
}

/// The message for a probe to `ip` that could not be started.
pub open spec fn init_failed_message(ip: Seq<char>, error: Seq<char>) -> Seq<char> {
    "host("@ + ip + ") ping err, reason: ping init failed, err: "@ + error
}

/// Writes the message for a probe to `ip` that could not be started.
pub fn init_failed(ip: &str, error: &str) -> (message: String)
    ensures
        message@ == init_failed_message(ip@, error@),
{
    String::from_str("host(").concat(ip).concat(") ping err, reason: ping init failed, err: ").concat(
        error,
    )
}

/// Whether an exit code is that of a probe process that ended well.
pub open spec fn is_clean_exit(code: Option<i32>) -> bool {
    code == Some(0i32)
}

/// What a worker for the target `addr` at `ip` does with `reply`.
///
/// A reply and a timeout become events for the aggregator. A probe process
/// that ended badly, a line that was not understood and a stream that could
/// not be read become messages for the error log; they are no statistics.
pub open spec fn action_for(addr: Seq<char>, ip: Seq<char>, reply: ProbeReply) -> SpecAction {
    match reply {
        ProbeReply::Pong { nanos } => SpecAction::Send {
            addr,
            ip,
            outcome: crate::target_stats::Outcome::Success { rtt: rtt_of(nanos as nat) },
        },
        ProbeReply::Timeout => SpecAction::Send {
            addr,
            ip,
            outcome: crate::target_stats::Outcome::Timeout,
        },
        ProbeReply::Exited { code, status, stderr } => if is_clean_exit(code) {
            SpecAction::Skip
        } else {
            SpecAction::Report { message: exited_message(ip, stderr@, status@) }
        },
        ProbeReply::Unknown { line } => SpecAction::Report { message: unknown_message(ip, line@) },
        ProbeReply::Failed { error } => SpecAction::Report { message: failed_message(ip, error@) },
    }
}

/// Model of a [`TaskAction`].
pub enum SpecAction {
    Send { addr: Seq<char>, ip: Seq<char>, outcome: crate::target_stats::Outcome },
    Report { message: Seq<char> },
    Skip,
}

impl View for TaskAction {
    type V = SpecAction;

    open spec fn view(&self) -> SpecAction {
        match self {
            TaskAction::Send(event) => SpecAction::Send {
                addr: event.addr(),
                ip: event.ip(),
                outcome: event.outcome(),
            },
            TaskAction::Report(message) => SpecAction::Report { message: message@ },
            TaskAction::Skip => SpecAction::Skip,
        }
    }
}

/// Probe interval, in milliseconds, that stands in for an interval of 0.
pub const DEFAULT_INTERVAL_MILLIS: u64 = 500;

/// The interval that a worker probes at when it is given `interval`
/// milliseconds: the default where it is given 0.
pub open spec fn cadence_of(interval: u64) -> u64 {
    if interval == 0 {
        DEFAULT_INTERVAL_MILLIS
    } else {
        interval
    }
}

/// The probe worker of one target: its identity, its cadence, and how many
/// probes it has made of those it may make.
pub struct PingTask {
    addr: String,
    ip: String,
    count: usize,
    interval: u64,
    ping_count: usize,
    stopped: bool,
}

impl PingTask {
    /// Display name of the target.
    pub closed spec fn addr(&self) -> Seq<char> {
        self.addr@
    }

    /// Resolved address of the target.
    pub closed spec fn ip(&self) -> Seq<char> {
        self.ip@
    }

    /// Largest number of probes to make; 0 for no limit.
    pub closed spec fn count(&self) -> nat {
        self.count as nat
    }

    /// Milliseconds between two probes; never 0.
    pub closed spec fn interval(&self) -> u64 {
        self.interval
    }

    /// Number of probes made so far, counted only where there is a limit.
    pub closed spec fn probes_made(&self) -> nat {
        self.ping_count as nat
    }

    /// Whether the worker has ended because the aggregator is gone or its
    /// probe could not be started.
    pub closed spec fn stopped(&self) -> bool {
        self.stopped
    }

    /// Under a limit, the worker has made no more probes than it may.
    pub open spec fn wf(&self) -> bool {
        self.count() > 0 ==> self.probes_made() <= self.count()
    }

    /// Whether the worker goes on to one more probe: the pipeline is
    /// running, the aggregator is there, and the limit, if any, is not
    /// reached.
    pub open spec fn goes_on(&self, running: bool) -> bool {
        running && !self.stopped() && (self.count() == 0 || self.probes_made() < self.count())
    }

    /// A worker for the target `addr` at `ip` that makes at most `count`
    /// probes, or any number if `count` is 0, every `interval` milliseconds,
    /// or at the default interval if `interval` is 0.
    pub fn new(addr: String, ip: String, count: usize, interval: u64) -> (task: Self)
        ensures
            task.addr() == addr@,
            task.ip() == ip@,
            task.count() == count,
            task.interval() == cadence_of(interval),
            task.probes_made() == 0,
            !task.stopped(),
            task.wf(),
    {
        let interval = if interval == 0 {
            DEFAULT_INTERVAL_MILLIS
        } else {
            interval
        };
        PingTask { addr, ip, count, interval, ping_count: 0, stopped: false }
    }

    /// What a worker does when its probe cannot be started: it reports the
    /// failure to the error log and ends. Other workers are not touched.
    pub fn start_failed(&mut self, error: &str) -> (action: TaskAction)
        ensures
            action@ == (SpecAction::Report {
                message: init_failed_message(old(self).ip(), error@),
            }),
            final(self).stopped(),
            final(self).addr() == old(self).addr(),
            final(self).ip() == old(self).ip(),
            final(self).count() == old(self).count(),
            final(self).interval() == old(self).interval(),
            final(self).probes_made() == old(self).probes_made(),
    {
        self.stopped = true;
        TaskAction::Report(init_failed(self.ip.as_str(), error))
    }

    /// Milliseconds between two probes.
    pub fn interval_millis(&self) -> (millis: u64)
        ensures
            millis == self.interval(),
    {
        self.interval
    }

    /// Address to probe.
    pub fn target_ip(&self) -> (ip: &String)
        ensures
            ip@ == self.ip(),
    {
        &self.ip
    }

    /// Decides at the head of the loop whether to make one more probe, and
    /// counts the probe where there is a limit. The worker ends when the
    /// pipeline no longer runs, when the aggregator is gone, or when the
    /// limit is reached.
    pub fn next_probe(&mut self, running: bool) -> (go_on: bool)
        requires
            old(self).wf(),
        ensures
            go_on == old(self).goes_on(running),
            final(self).wf(),
            final(self).probes_made() == if go_on && old(self).count() > 0 {
                old(self).probes_made() + 1
            } else {
                old(self).probes_made()
            },
            final(self).addr() == old(self).addr(),
            final(self).ip() == old(self).ip(),
            final(self).count() == old(self).count(),
            final(self).interval() == old(self).interval(),
            final(self).stopped() == old(self).stopped(),
    {
        if !running || self.stopped {
            return false;
        }
        if self.count > 0 {
            if self.ping_count >= self.count {
                return false;
            }
            self.ping_count += 1;
        }
        true
    }

    /// What to do with the reply of a probe.
    pub fn handle_reply(&self, reply: ProbeReply) -> (action: TaskAction)
        ensures
            action@ == action_for(self.addr(), self.ip(), reply),
    {
        match reply {
            ProbeReply::Pong { nanos } => TaskAction::Send(
                PingEvent::Success {
                    addr: self.addr.clone(),
                    ip: self.ip.clone(),
                    rtt: rtt_from_nanos(nanos),
                },
            ),
            ProbeReply::Timeout => TaskAction::Send(
                PingEvent::Timeout { addr: self.addr.clone(), ip: self.ip.clone() },
            ),
            ProbeReply::Exited { code, status, stderr } => {
                let clean = match code {
                    Some(value) => value == 0,
                    None => false,
                };
                if clean {
                    TaskAction::Skip
                } else {
                    let message = String::from_str("host(").concat(self.ip.as_str()).concat(
                        ") ping err, reason: ping excited, status: ",
                    ).concat(stderr.as_str()).concat(" err: ").concat(status.as_str());
                    TaskAction::Report(message)
                }
            },
            ProbeReply::Unknown { line } => {
                let message = String::from_str("host(").concat(self.ip.as_str()).concat(
                    ") ping err, reason:unknown, err: ",
                ).concat(line.as_str());
                TaskAction::Report(message)
            },
            ProbeReply::Failed { error } => {
                let message = String::from_str("host(").concat(self.ip.as_str()).concat(
                    ") ping err, reason: unknown, err: ",
                ).concat(error.as_str());
                TaskAction::Report(message)
            },
        }
    }

    /// Notes that an event could not be sent because the aggregator is gone:
    /// the worker ends, without an error.
    pub fn send_failed(&mut self)
        ensures
            final(self).stopped(),
            final(self).addr() == old(self).addr(),
            final(self).ip() == old(self).ip(),
            final(self).count() == old(self).count(),
            final(self).interval() == old(self).interval(),
            final(self).probes_made() == old(self).probes_made(),
    {
        self.stopped = true;
    }
}

/// A worker with a limit makes exactly as many probes as the limit says, as
/// long as the pipeline runs and the aggregator is there: it goes on while
/// it has made fewer, and ends once it has made them all.
pub proof fn lemma_limit_is_exact(task: PingTask)
    requires
        task.wf(),
        task.count() > 0,
        !task.stopped(),
    ensures
        task.goes_on(true) <==> task.probes_made() < task.count(),
{
}

/// Adds a message to the error log.
pub fn set_error(errs: &mut Vec<String>, err: String)
    ensures
        final(errs)@ == old(errs)@.push(err),
{
    errs.push(err);
}

} // verus!
