//! What a consumer of snapshots decides: where an update goes in the list
//! that is shown, what line it gives in the output file, which view draws
//! it, and which key ends the run.

use crate::target_stats::{StatsView, TargetStats, TIMEOUT_SAMPLE};
use crate::text::{hundredths, hundredths_text};
use vstd::prelude::*;
use vstd::string::StringExecFns;

verus! {

/// Longest wait for a key press, in milliseconds, before the loop goes on.
pub const KEY_POLL_MILLIS: u64 = 50;

/// Longest wait for a snapshot, in milliseconds, before the loop goes on.
pub const UPDATE_POLL_MILLIS: u64 = 50;

/// A key press, as far as the run cares about it.
#[derive(Clone, Copy, Debug, PartialEq, Eq, Structural)]
pub enum Key {
    /// A character key.
    Char(char),
    /// The escape key.
    Esc,
    /// Any other key.
    Other,
}

/// Whether a key press asks to end the run: `q` and escape do, whatever is
/// held with them, and `c` does where control and nothing else is held.
pub open spec fn asks_to_quit(key: Key, control_only: bool) -> bool {
    match key {
        Key::Char(c) => c == 'q' || (c == 'c' && control_only),
        Key::Esc => true,
        Key::Other => false,
    }
}

/// Whether a key press asks to end the run. `control_only` says that the
/// control key, and no other modifier, is held with the key.
pub fn is_quit_key(key: Key, control_only: bool) -> (quit: bool)
    ensures
        quit == asks_to_quit(key, control_only),
{
    match key {
        Key::Char(c) => c == 'q' || (c == 'c' && control_only),
        Key::Esc => true,
        Key::Other => false,
    }
}

/// The views that can draw the statistics.
#[derive(Clone, Copy, Debug, PartialEq, Eq, Structural)]
pub enum ViewKind {
    Graph,
    Table,
    Point,
    Sparkline,
}

/// The view that a view mode names; a mode that names none gives the graph.
pub open spec fn view_named(view_type: Seq<char>) -> ViewKind {
    if view_type == "table"@ {
        ViewKind::Table
    } else if view_type == "point"@ {
        ViewKind::Point
    } else if view_type == "sparkline"@ {
        ViewKind::Sparkline
    } else {
        ViewKind::Graph
    }
}

/// The view that draws the statistics under the view mode `view_type`.
pub fn view_kind(view_type: &str) -> (kind: ViewKind)
    ensures
        kind == view_named(view_type@),
{
    let mode = String::from_str(view_type);
    if mode == String::from_str("table") {
        ViewKind::Table
    } else if mode == String::from_str("point") {
        ViewKind::Point
    } else if mode == String::from_str("sparkline") {
        ViewKind::Sparkline
    } else {
        ViewKind::Graph
    }
}

/// Whether a list entry is the target `addr` at `ip`.
pub open spec fn is_target(entry: TargetStats, addr: Seq<char>, ip: Seq<char>) -> bool {
    entry.addr@ == addr && entry.ip@ == ip
}

/// The index of the first entry of `list` that is the target `addr` at
/// `ip`, or the length of the list where there is none.
pub open spec fn position_of(list: Seq<TargetStats>, addr: Seq<char>, ip: Seq<char>) -> int
    decreases list.len(),
{
    if list.len() == 0 {
        0
    } else if is_target(list[0], addr, ip) {
        0
    } else {
        1 + position_of(list.drop_first(), addr, ip)
    }
}

/// The position of a target lies within the list exactly where the list
/// holds the target; it is the first such place.
pub proof fn lemma_position_of(list: Seq<TargetStats>, addr: Seq<char>, ip: Seq<char>)
    ensures
        0 <= position_of(list, addr, ip) <= list.len(),
        position_of(list, addr, ip) < list.len() ==> is_target(
            list[position_of(list, addr, ip)],
            addr,
            ip,
        ),
        forall|i: int| 0 <= i < position_of(list, addr, ip) ==> !is_target(list[i], addr, ip),
    decreases list.len(),
{
    if list.len() > 0 && !is_target(list[0], addr, ip) {
        let rest = list.drop_first();
        lemma_position_of(rest, addr, ip);
        assert forall|i: int| 0 <= i < position_of(list, addr, ip) implies !is_target(
            list[i],
            addr,
            ip,
        ) by {
            if i > 0 {
                assert(list[i] == rest[i - 1]);
            }
        }
        if position_of(list, addr, ip) < list.len() {
            assert(list[position_of(list, addr, ip)] == rest[position_of(rest, addr, ip)]);
        }
    }
}

/// Puts a snapshot in the place of the statistics shown for its target: the
/// first entry with the snapshot's name and address is replaced. Where no
/// entry is that target, the list stays as it is.
pub fn apply_update(ip_data: &mut Vec<TargetStats>, updated: TargetStats)
    ensures
        ({
            let at = position_of(old(ip_data)@, updated.addr@, updated.ip@);
            if at < old(ip_data)@.len() {
                final(ip_data)@ == old(ip_data)@.update(at, updated)
            } else {
                final(ip_data)@ == old(ip_data)@
            }
        }),
{
    let ghost addr = updated.addr@;
    let ghost ip = updated.ip@;
    let mut i: usize = 0;
    proof {
        lemma_position_of(ip_data@, addr, ip);
    }
    while i < ip_data.len()
        invariant
            i <= ip_data.len(),
            addr == updated.addr@,
            ip == updated.ip@,
            ip_data@ == old(ip_data)@,
            forall|j: int| 0 <= j < i ==> !is_target(ip_data@[j], addr, ip),
        decreases ip_data.len() - i,
    {
        if ip_data[i].addr == updated.addr && ip_data[i].ip == updated.ip {
            proof {
                lemma_position_of(ip_data@, addr, ip);
                let at = position_of(ip_data@, addr, ip);
                if at > i {
                    assert(!is_target(ip_data@[i as int], addr, ip));
                }
                if at < i {
                    assert(is_target(ip_data@[at], addr, ip));
                }
            }
            ip_data.set(i, updated);
            return ;
        }
        i += 1;
    }
    proof {
        lemma_position_of(ip_data@, addr, ip);
        let at = position_of(ip_data@, addr, ip);
        if at < ip_data@.len() {
            assert(is_target(ip_data@[at], addr, ip));
        }
    }
}

/// The latency of a snapshot as the output file shows it: the word
/// `timeout` for a probe without reply, else the latency in milliseconds
/// with two decimal places.
pub open spec fn latency_text(last_sample: i64) -> Seq<char> {
    if last_sample == TIMEOUT_SAMPLE {
        "timeout"@
    } else {
        hundredths_text(last_sample as int) + "ms"@
    }
}

/// The line that an update adds to the output file, without its line end:
/// the target's name, its address, and its latest latency.
pub open spec fn line_for(stats: StatsView) -> Seq<char> {
    stats.addr + " "@ + stats.ip + " "@ + latency_text(stats.last_sample)
}

/// Writes the line that an update adds to the output file, without its line
/// end: `<name> <address> <latency>`, where the latency of a probe without
/// reply is the word `timeout`.
pub fn output_line(stats: &TargetStats) -> (line: String)
    ensures
        line@ == line_for(stats@),
{
    let latency = if stats.last_sample == TIMEOUT_SAMPLE {
        String::from_str("timeout")
    } else {
        hundredths(stats.last_sample).concat("ms")
    };
    let line = stats.addr.clone().concat(" ").concat(stats.ip.as_str()).concat(" ").concat(
        latency.as_str(),
    );
    assert(line@ =~= line_for(stats@));
    line
}

} // verus!
