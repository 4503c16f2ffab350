//! The exporter mode without its metrics store and its server: what a
//! probe reply means for the metrics, and which page a request gets.

use crate::network::{is_clean_exit, ProbeReply};
use vstd::prelude::*;
use vstd::string::StringExecFns;

verus! {

/// What an exporter worker records for a probe reply.
#[derive(Debug)]
pub enum MetricAction {
    /// Count a success and observe a latency of `nanos` nanoseconds.
    Success { nanos: u128 },
    /// Count a timeout.
    Timeout,
    /// Count an error and print `message`.
    Error { message: String },
    /// Record nothing.
    Skip,
}

/// Model of a [`MetricAction`].
pub enum MetricView {
    Success { nanos: u128 },
    Timeout,
    Error { message: Seq<char> },
    Skip,
}

impl View for MetricAction {
    type V = MetricView;

    open spec fn view(&self) -> MetricView {
        match self {
            MetricAction::Success { nanos } => MetricView::Success { nanos: *nanos },
            MetricAction::Timeout => MetricView::Timeout,
            MetricAction::Error { message } => MetricView::Error { message: message@ },
            MetricAction::Skip => MetricView::Skip,
        }
    }
}

/// The message for a probe process that ended.
pub open spec fn exited_message(ip: Seq<char>, stderr: Seq<char>, status: Seq<char>) -> Seq<
    char,
> {
    "host("@ + ip + ") ping err, reason: ping exited, status: "@ + stderr + " err: "@ + status
}

/// The message for a line that the probe mechanism does not understand.
pub open spec fn unknown_message(ip: Seq<char>, line: Seq<char>) -> Seq<char> {
    "host("@ + ip + ") ping err, reason: unknown, err: "@ + line
}

/// The message for a stream of replies that could not be read.
pub open spec fn failed_message(ip: Seq<char>, error: Seq<char>) -> Seq<char> {
    "host("@ + ip + ") ping err, reason: recv failed, err: "@ + error
}

/// What an exporter worker for the address `ip` records for `reply`: a
/// success with its latency, a timeout, or an error for everything else but a
/// probe process that ended well.
pub open spec fn metric_for(ip: Seq<char>, reply: ProbeReply) -> MetricView {
    match reply {
        ProbeReply::Pong { nanos } => MetricView::Success { nanos },
        ProbeReply::Timeout => MetricView::Timeout,
        ProbeReply::Exited { code, status, stderr } => if is_clean_exit(code) {
            MetricView::Skip
        } else {
            MetricView::Error { message: exited_message(ip, stderr@, status@) }
        },
        ProbeReply::Unknown { line } => MetricView::Error { message: unknown_message(ip, line@) },
        ProbeReply::Failed { error } => MetricView::Error { message: failed_message(ip, error@) },
    }
}

/// Decides what an exporter worker for the address `ip` records for a probe
/// reply.
pub fn metric_action(ip: &str, reply: ProbeReply) -> (action: MetricAction)
    ensures
        action@ == metric_for(ip@, reply),
{
    match reply {
        ProbeReply::Pong { nanos } => MetricAction::Success { nanos },
        ProbeReply::Timeout => MetricAction::Timeout,
        ProbeReply::Exited { code, status, stderr } => {
            let clean = match code {
                Some(value) => value == 0,
                None => false,
            };
            if clean {
                MetricAction::Skip
            } else {
                MetricAction::Error {
                    message: String::from_str("host(").concat(ip).concat(
                        ") ping err, reason: ping exited, status: ",
                    ).concat(stderr.as_str()).concat(" err: ").concat(status.as_str()),
                }
            }
        },
        ProbeReply::Unknown { line } => MetricAction::Error {
            message: String::from_str("host(").concat(ip).concat(
                ") ping err, reason: unknown, err: ",
            ).concat(line.as_str()),
        },
        ProbeReply::Failed { error } => MetricAction::Error {
            message: String::from_str("host(").concat(ip).concat(
                ") ping err, reason: recv failed, err: ",
            ).concat(error.as_str()),
        },
    }
}

/// The label under which a metric action is counted, if it is counted.
pub open spec fn label_of(action: MetricView) -> Option<Seq<char>> {
    match action {
        MetricView::Success { .. } => Some("success"@),
        MetricView::Timeout => Some("timeout"@),
        MetricView::Error { .. } => Some("error"@),
        MetricView::Skip => None,
    }
}

/// The value of the status label under which a metric action is counted;
/// nothing for an action that records nothing.
pub fn status_label(action: &MetricAction) -> (label: Option<&'static str>)
    ensures
        match label {
            Some(text) => label_of(action@) == Some(text@),
            None => label_of(action@) is None,
        },
{
    match action {
        MetricAction::Success { .. } => Some("success"),
        MetricAction::Timeout => Some("timeout"),
        MetricAction::Error { .. } => Some("error"),
        MetricAction::Skip => None,
    }
}

/// What the metrics server answers a request with.
#[derive(Clone, Copy, Debug, PartialEq, Eq, Structural)]
pub enum Route {
    /// The metrics in text form.
    Metrics,
    /// No page.
    NotFound,
}

/// What a request gets: the metrics for GET on `/metrics`, and no page for
/// every other path and every other method.
pub open spec fn route_of(is_get: bool, path: Seq<char>) -> Route {
    if is_get && path == "/metrics"@ {
        Route::Metrics
    } else {
        Route::NotFound
    }
}

/// Decides what a request gets from whether its method is GET and from its
/// path.
pub fn route(is_get: bool, path: &str) -> (page: Route)
    ensures
        page == route_of(is_get, path@),
{
    if is_get && String::from_str(path) == String::from_str("/metrics") {
        Route::Metrics
    } else {
        Route::NotFound
    }
}

/// How many targets the start-up banner names before it sums up the rest.
pub const BANNER_TARGETS: usize = 5;

/// How many targets the start-up banner names one by one.
pub fn banner_named(target_count: usize) -> (named: usize)
    ensures
        named == if target_count <= BANNER_TARGETS {
            target_count
        } else {
            BANNER_TARGETS
        },
{
    if target_count <= BANNER_TARGETS {
        target_count
    } else {
        BANNER_TARGETS
    }
}

/// How many targets the start-up banner sums up as "more".
pub fn banner_more(target_count: usize) -> (more: usize)
    ensures
        more == if target_count <= BANNER_TARGETS {
            0
        } else {
            target_count - BANNER_TARGETS
        },
{
    if target_count <= BANNER_TARGETS {
        0
    } else {
        target_count - BANNER_TARGETS
    }
}

} // verus!
