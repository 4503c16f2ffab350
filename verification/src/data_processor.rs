//! The aggregator: sole owner of the per-target statistics. It takes probe
//! events one at a time and hands out a snapshot of the target it updated.

use crate::ping_event::{make_target_key, target_key, PingEvent};
use crate::target_stats::{Outcome, StatsView, TargetStats, TIMEOUT_SAMPLE};
use vstd::hash_map::StringHashMap;
use vstd::prelude::*;
use vstd::string::StringExecFns;

verus! {

/// Window capacity of the views that draw every sample.
pub const HISTORY_WINDOW: usize = 200;

/// Window capacity of the views that show a summary.
pub const SUMMARY_WINDOW: usize = 10;

/// The window capacity that goes with a view mode: the point and sparkline
/// views keep a long history, every other view a short one.
pub open spec fn window_capacity(view_type: Seq<char>) -> nat {
    if view_type == "point"@ || view_type == "sparkline"@ {
        HISTORY_WINDOW as nat
    } else {
        SUMMARY_WINDOW as nat
    }
}

/// The statistics map that a list of `(name, address)` pairs starts with:
/// one fresh entry under each pair's key. Where two pairs share a key, the
/// later pair names the entry.
pub open spec fn initial_targets(targets: Seq<(String, String)>) -> Map<Seq<char>, StatsView>
    decreases targets.len(),
{
    if targets.len() == 0 {
        Map::empty()
    } else {
        initial_targets(targets.drop_last()).insert(
            target_key(targets.last().0@, targets.last().1@),
            StatsView::fresh(targets.last().0@, targets.last().1@),
        )
    }
}

/// The statistics map of a list of targets knows the key of every pair of
/// the list and no other key, and every entry is the fresh statistics of a
/// pair with that key.
pub proof fn lemma_initial_targets(targets: Seq<(String, String)>)
    ensures
        forall|i: int|
            0 <= i < targets.len() ==> initial_targets(targets).contains_key(
                #[trigger] target_key(targets[i].0@, targets[i].1@),
            ),
        forall|key: Seq<char>| #[trigger]
            initial_targets(targets).contains_key(key) ==> exists|i: int|
                0 <= i < targets.len() && key == target_key(targets[i].0@, targets[i].1@)
                    && initial_targets(targets)[key] == StatsView::fresh(
                    targets[i].0@,
                    targets[i].1@,
                ),
    decreases targets.len(),
{
    if targets.len() > 0 {
        let earlier = targets.drop_last();
        let last = targets.len() - 1;
        lemma_initial_targets(earlier);
        assert forall|i: int| 0 <= i < targets.len() implies initial_targets(
            targets,
        ).contains_key(#[trigger] target_key(targets[i].0@, targets[i].1@)) by {
            if i < last {
                assert(earlier[i] == targets[i]);
                assert(initial_targets(earlier).contains_key(
                    target_key(earlier[i].0@, earlier[i].1@),
                ));
            }
        }
        assert forall|key: Seq<char>| #[trigger]
            initial_targets(targets).contains_key(key) implies exists|i: int|
            0 <= i < targets.len() && key == target_key(targets[i].0@, targets[i].1@)
                && initial_targets(targets)[key] == StatsView::fresh(
                targets[i].0@,
                targets[i].1@,
            ) by {
            if key == target_key(targets[last].0@, targets[last].1@) {
                assert(0 <= last < targets.len() && key == target_key(
                    targets[last].0@,
                    targets[last].1@,
                ) && initial_targets(targets)[key] == StatsView::fresh(
                    targets[last].0@,
                    targets[last].1@,
                ));
            } else {
                assert(initial_targets(earlier).contains_key(key));
                let i = choose|i: int|
                    0 <= i < earlier.len() && key == target_key(earlier[i].0@, earlier[i].1@)
                        && initial_targets(earlier)[key] == StatsView::fresh(
                        earlier[i].0@,
                        earlier[i].1@,
                    );
                assert(earlier[i] == targets[i]);
                assert(0 <= i < targets.len() && key == target_key(targets[i].0@, targets[i].1@)
                    && initial_targets(targets)[key] == StatsView::fresh(
                    targets[i].0@,
                    targets[i].1@,
                ));
            }
        }
    }
}

/// Model of the aggregator: the statistics by target key, and the capacity
/// that every window has.
pub struct ProcessorView {
    pub targets: Map<Seq<char>, StatsView>,
    pub capacity: nat,
}

impl ProcessorView {
    /// Every entry keeps its window within the capacity, accounts for every
    /// sample it observed, and stands under the key of its own identity.
    pub open spec fn wf(self) -> bool {
        forall|key: Seq<char>| #[trigger]
            self.targets.contains_key(key) ==> {
                &&& self.targets[key].wf(self.capacity)
                &&& target_key(self.targets[key].addr, self.targets[key].ip) == key
            }
    }

    /// Whether the event's target can count one more sample.
    pub open spec fn has_room(self, event: PingEvent) -> bool {
        self.targets.contains_key(event.key()) ==> self.targets[event.key()].observed()
            < usize::MAX
    }

    /// The snapshot that the event gives rise to: the updated statistics of
    /// its target, or nothing where the target is not known.
    pub open spec fn emitted(self, event: PingEvent) -> Option<StatsView> {
        if self.targets.contains_key(event.key()) {
            Some(self.targets[event.key()].apply(event.outcome(), self.capacity))
        } else {
            None
        }
    }

    /// The aggregator after the event: the target's entry is replaced by its
    /// updated statistics; an event for an unknown target changes nothing.
    pub open spec fn step(self, event: PingEvent) -> ProcessorView {
        match self.emitted(event) {
            Some(updated) => ProcessorView {
                targets: self.targets.insert(event.key(), updated),
                ..self
            },
            None => self,
        }
    }
}

/// Keeps the statistics of a fixed set of targets and updates them from
/// probe events.
pub struct DataProcessor {
    data_map: StringHashMap<TargetStats>,
    point_num: usize,
}

impl View for DataProcessor {
    type V = ProcessorView;

    closed spec fn view(&self) -> ProcessorView {
        ProcessorView {
            targets: self.data_map@.map_values(|stats: TargetStats| stats@),
            capacity: self.point_num as nat,
        }
    }
}

impl DataProcessor {
    /// An aggregator for `targets`, each a `(name, address)` pair, with the
    /// window capacity that goes with `view_type`.
    pub fn new(targets: &[(String, String)], view_type: &str) -> (processor: Self)
        ensures
            processor@.targets == initial_targets(targets@),
            processor@.capacity == window_capacity(view_type@),
            processor@.wf(),
    {
        let view = String::from_str(view_type);
        let point_num = if view == String::from_str("point") || view == String::from_str(
            "sparkline",
        ) {
            HISTORY_WINDOW
        } else {
            SUMMARY_WINDOW
        };
        Self::with_capacity(targets, point_num)
    }

    /// An aggregator for `targets`, each a `(name, address)` pair, whose
    /// windows hold `capacity` samples.
    pub fn with_capacity(targets: &[(String, String)], capacity: usize) -> (processor: Self)
        ensures
            processor@.targets == initial_targets(targets@),
            processor@.capacity == capacity,
            processor@.wf(),
    {
        let mut data_map: StringHashMap<TargetStats> = StringHashMap::new();
        let mut i: usize = 0;
        assert(targets@.take(0) =~= Seq::empty());
        assert(data_map@.map_values(|stats: TargetStats| stats@) =~= Map::empty());
        while i < targets.len()
            invariant
                i <= targets.len(),
                data_map@.map_values(|stats: TargetStats| stats@) == initial_targets(
                    targets@.take(i as int),
                ),
                forall|key: Seq<char>| #[trigger]
                    data_map@.contains_key(key) ==> {
                        &&& data_map@[key]@.wf(capacity as nat)
                        &&& target_key(data_map@[key]@.addr, data_map@[key]@.ip) == key
                    },
            decreases targets.len() - i,
        {
            let addr = &targets[i].0;
            let ip = &targets[i].1;
            let key = make_target_key(addr.as_str(), ip.as_str());
            let stats = TargetStats::new(addr.clone(), ip.clone());
            let ghost before = data_map@;
            data_map.insert(key, stats);
            proof {
                let taken = targets@.take(i as int + 1);
                assert(taken.drop_last() =~= targets@.take(i as int));
                assert(taken.last() == targets@[i as int]);
                assert(data_map@.map_values(|stats: TargetStats| stats@) =~= before.map_values(
                    |stats: TargetStats| stats@,
                ).insert(key@, stats@));
            }
            i += 1;
        }
        assert(targets@.take(i as int) =~= targets@);
        DataProcessor { data_map, point_num: capacity }
    }

    /// The capacity that every window has.
    pub fn point_num(&self) -> (capacity: usize)
        ensures
            capacity == self@.capacity,
    {
        self.point_num
    }

    /// A copy of the statistics kept for the target `addr` at `ip`, if the
    /// target is known.
    pub fn stats_of(&self, addr: &str, ip: &str) -> (stats: Option<TargetStats>)
        ensures
            match stats {
                Some(found) => self@.targets.contains_key(target_key(addr@, ip@))
                    && found@ == self@.targets[target_key(addr@, ip@)],
                None => !self@.targets.contains_key(target_key(addr@, ip@)),
            },
    {
        let key = make_target_key(addr, ip);
        match self.data_map.get(key.as_str()) {
            Some(found) => Some(found.clone()),
            None => None,
        }
    }

    /// Whether `process_event` can take `event`: its target, if known, can
    /// count one more sample.
    pub fn can_process(&self, event: &PingEvent) -> (room: bool)
        ensures
            room == self@.has_room(*event),
    {
        let key = match event {
            PingEvent::Success { addr, ip, .. } => make_target_key(addr.as_str(), ip.as_str()),
            PingEvent::Timeout { addr, ip } => make_target_key(addr.as_str(), ip.as_str()),
        };
        match self.data_map.get(key.as_str()) {
            Some(stats) => stats.received < usize::MAX - stats.timeout_count,
            None => true,
        }
    }

    /// Updates the statistics of the event's target and returns a snapshot of
    /// them. An event for a target that is not known is dropped: nothing
    /// changes and nothing is returned.
    pub fn process_event(&mut self, event: PingEvent) -> (snapshot: Option<TargetStats>)
        requires
            old(self)@.wf(),
            old(self)@.has_room(event),
        ensures
            final(self)@ == old(self)@.step(event),
            final(self)@.wf(),
            final(self)@.targets.dom() == old(self)@.targets.dom(),
            match snapshot {
                Some(stats) => old(self)@.emitted(event) == Some(stats@),
                None => old(self)@.emitted(event) is None,
            },
    {
        let ghost before = self.data_map@;
        match event {
            PingEvent::Success { addr, ip, rtt } => {
                let key = make_target_key(addr.as_str(), ip.as_str());
                match self.data_map.get(key.as_str()) {
                    Some(current) => {
                        let mut data = current.clone();
                        Self::update_success_stats(&mut data, rtt, self.point_num);
                        let snapshot = data.clone();
                        self.data_map.insert(key, data);
                        proof {
                            assert(self.data_map@.map_values(|stats: TargetStats| stats@)
                                =~= before.map_values(|stats: TargetStats| stats@).insert(
                                key@,
                                data@,
                            ));
                            assert(final(self)@.targets.dom() =~= old(self)@.targets.dom());
                        }
                        Some(snapshot)
                    },
                    None => None,
                }
            },
            PingEvent::Timeout { addr, ip } => {
                let key = make_target_key(addr.as_str(), ip.as_str());
                match self.data_map.get(key.as_str()) {
                    Some(current) => {
                        let mut data = current.clone();
                        Self::update_timeout_stats(&mut data, self.point_num);
                        let snapshot = data.clone();
                        self.data_map.insert(key, data);
                        proof {
                            assert(self.data_map@.map_values(|stats: TargetStats| stats@)
                                =~= before.map_values(|stats: TargetStats| stats@).insert(
                                key@,
                                data@,
                            ));
                            assert(final(self)@.targets.dom() =~= old(self)@.targets.dom());
                        }
                        Some(snapshot)
                    },
                    None => None,
                }
            },
        }
    }

    /// Records a reply with latency `rtt` in `data`, under a window of
    /// `point_num` slots.
    pub fn update_success_stats(data: &mut TargetStats, rtt: i64, point_num: usize)
        requires
            old(data).received < usize::MAX,
            old(data).rtt_window@.len() >= point_num ==> old(data).evicted_count < usize::MAX,
        ensures
            final(data)@ == old(data)@.record_success(rtt, point_num as nat),
            final(data).timeout_count == old(data).timeout_count,
            final(data).received == old(data).received + 1,
            final(data).evicted_count >= old(data).evicted_count,
    {
        data.received += 1;
        data.last_sample = rtt;
        data.rtt_window.push_back(rtt);
        if data.min_rtt == 0 || rtt < data.min_rtt {
            data.min_rtt = rtt;
        }
        if rtt > data.max_rtt {
            data.max_rtt = rtt;
        }
        if data.rtt_window.len() > point_num {
            data.rtt_window.pop_front();
            data.evicted_count += 1;
        }
    }

    /// Records a probe without reply in `data`, under a window of
    /// `point_num` slots. The minimum and the maximum are not touched.
    pub fn update_timeout_stats(data: &mut TargetStats, point_num: usize)
        requires
            old(data).timeout_count < usize::MAX,
            old(data).rtt_window@.len() >= point_num ==> old(data).evicted_count < usize::MAX,
        ensures
            final(data)@ == old(data)@.record_timeout(point_num as nat),
            final(data).min_rtt == old(data).min_rtt,
            final(data).max_rtt == old(data).max_rtt,
            final(data).received == old(data).received,
            final(data).timeout_count == old(data).timeout_count + 1,
            final(data).evicted_count >= old(data).evicted_count,
    {
        data.rtt_window.push_back(TIMEOUT_SAMPLE);
        data.last_sample = TIMEOUT_SAMPLE;
        data.timeout_count += 1;
        if data.rtt_window.len() > point_num {
            data.rtt_window.pop_front();
            data.evicted_count += 1;
        }
    }
}

/// Longest wait for the next event, in milliseconds, before the running flag
/// is looked at again.
pub const POLL_INTERVAL_MILLIS: u64 = 100;

/// What a bounded wait on the event bus brought.
#[derive(Debug)]
pub enum Received {
    /// A probe worker sent an event.
    Event(PingEvent),
    /// Nothing arrived within the poll interval.
    TimedOut,
    /// Every probe worker is gone.
    Disconnected,
}

/// The aggregator's loop without its channels: an owner of the statistics
/// that says when to wait for the next event, what to publish for it, and
/// when the loop is over.
pub struct Aggregator {
    processor: DataProcessor,
    finished: bool,
}

impl Aggregator {
    /// The statistics that the aggregator holds.
    pub closed spec fn processor(&self) -> ProcessorView {
        self.processor@
    }

    /// Whether the loop is over: the event bus was disconnected or a snapshot
    /// could not be published.
    pub closed spec fn finished(&self) -> bool {
        self.finished
    }

    /// Whether `handle` can take `received`.
    pub open spec fn has_room(&self, received: Received) -> bool {
        received matches Received::Event(event) ==> self.processor().has_room(event)
    }

    /// An aggregator at the start of its loop.
    pub fn new(targets: &[(String, String)], view_type: &str) -> (aggregator: Self)
        ensures
            aggregator.processor().targets == initial_targets(targets@),
            aggregator.processor().capacity == window_capacity(view_type@),
            aggregator.processor().wf(),
            !aggregator.finished(),
    {
        Aggregator { processor: DataProcessor::new(targets, view_type), finished: false }
    }

    /// An aggregator at the start of its loop, whose windows hold `capacity`
    /// samples.
    pub fn with_capacity(targets: &[(String, String)], capacity: usize) -> (aggregator: Self)
        ensures
            aggregator.processor().targets == initial_targets(targets@),
            aggregator.processor().capacity == capacity,
            aggregator.processor().wf(),
            !aggregator.finished(),
    {
        Aggregator { processor: DataProcessor::with_capacity(targets, capacity), finished: false }
    }

    /// Whether the loop goes on to wait for the next event: it does while the
    /// pipeline is running and the loop is not over.
    pub fn wants_event(&self, running: bool) -> (go_on: bool)
        ensures
            go_on == (running && !self.finished()),
    {
        running && !self.finished
    }

    /// Whether `handle` can take `received`.
    pub fn can_handle(&self, received: &Received) -> (room: bool)
        ensures
            room == self.has_room(*received),
    {
        match received {
            Received::Event(event) => self.processor.can_process(event),
            _ => true,
        }
    }

    /// Takes what the wait on the event bus brought and returns the snapshot
    /// to publish, if any. An event updates its target as `process_event`
    /// does; a wait that timed out changes nothing; a disconnected bus ends
    /// the loop.
    pub fn handle(&mut self, received: Received) -> (snapshot: Option<TargetStats>)
        requires
            old(self).processor().wf(),
            old(self).has_room(received),
        ensures
            final(self).processor().wf(),
            match received {
                Received::Event(event) => {
                    &&& final(self).processor() == old(self).processor().step(event)
                    &&& final(self).finished() == old(self).finished()
                    &&& match snapshot {
                        Some(stats) => old(self).processor().emitted(event) == Some(stats@),
                        None => old(self).processor().emitted(event) is None,
                    }
                },
                Received::TimedOut => {
                    &&& final(self).processor() == old(self).processor()
                    &&& final(self).finished() == old(self).finished()
                    &&& snapshot is None
                },
                Received::Disconnected => {
                    &&& final(self).processor() == old(self).processor()
                    &&& final(self).finished()
                    &&& snapshot is None
                },
            },
    {
        match received {
            Received::Event(event) => self.processor.process_event(event),
            Received::TimedOut => None,
            Received::Disconnected => {
                self.finished = true;
                None
            },
        }
    }

    /// Notes that a snapshot could not be published because its receiver is
    /// gone: the loop is over.
    pub fn publish_failed(&mut self)
        ensures
            final(self).finished(),
            final(self).processor() == old(self).processor(),
    {
        self.finished = true;
    }
}

impl ProcessorView {
    /// The aggregator after a sequence of events, taken in order.
    pub open spec fn replay(self, events: Seq<PingEvent>) -> ProcessorView
        decreases events.len(),
    {
        if events.len() == 0 {
            self
        } else {
            self.replay(events.drop_last()).step(events.last())
        }
    }

    /// The snapshots that a sequence of events gives rise to, in the order in
    /// which they are published.
    pub open spec fn snapshots(self, events: Seq<PingEvent>) -> Seq<StatsView>
        decreases events.len(),
    {
        if events.len() == 0 {
            Seq::empty()
        } else {
            let earlier = self.snapshots(events.drop_last());
            match self.replay(events.drop_last()).emitted(events.last()) {
                Some(updated) => earlier.push(updated),
                None => earlier,
            }
        }
    }
}

/// The outcomes among `events` that belong to the target under `key`, in the
/// order of the events.
pub open spec fn outcomes_for(events: Seq<PingEvent>, key: Seq<char>) -> Seq<Outcome> {
    events.filter(|event: PingEvent| event.key() == key).map_values(
        |event: PingEvent| event.outcome(),
    )
}

/// The successive statistics of a target under a sequence of outcomes: the
/// entry at `i` is what the first `i + 1` outcomes lead to.
pub open spec fn progression(stats: StatsView, outcomes: Seq<Outcome>, capacity: nat) -> Seq<
    StatsView,
> {
    Seq::new(outcomes.len(), |i: int| stats.apply_all(outcomes.take(i + 1), capacity))
}

/// The set of targets is fixed: no sequence of events adds or removes a key,
/// and the invariant of every entry is kept.
pub proof fn lemma_replay_keeps_targets(view: ProcessorView, events: Seq<PingEvent>)
    requires
        view.wf(),
    ensures
        view.replay(events).targets.dom() == view.targets.dom(),
        view.replay(events).capacity == view.capacity,
        view.replay(events).wf(),
    decreases events.len(),
{
    if events.len() > 0 {
        lemma_replay_keeps_targets(view, events.drop_last());
        let before = view.replay(events.drop_last());
        assert(before.step(events.last()).targets.dom() =~= before.targets.dom());
    }
}

/// Snapshots of one target come out in the order of its events and depend on
/// nothing else: the snapshots published for the target under `key` are its
/// successive statistics under the outcomes addressed to it, whatever events
/// for other targets lie between them.
pub proof fn lemma_per_target_order(view: ProcessorView, events: Seq<PingEvent>, key: Seq<char>)
    requires
        view.wf(),
        view.targets.contains_key(key),
    ensures
        view.snapshots(events).filter(|stats: StatsView| target_key(stats.addr, stats.ip) == key)
            == progression(view.targets[key], outcomes_for(events, key), view.capacity),
        view.replay(events).targets[key] == view.targets[key].apply_all(
            outcomes_for(events, key),
            view.capacity,
        ),
    decreases events.len(),
{
    let of_key = |stats: StatsView| target_key(stats.addr, stats.ip) == key;
    let to_key = |event: PingEvent| event.key() == key;
    let to_outcome = |event: PingEvent| event.outcome();
    let start = view.targets[key];
    if events.len() == 0 {
        assert(events.filter(to_key).len() == 0) by {
            events.lemma_filter_len(to_key);
        }
        assert(view.snapshots(events).filter(of_key).len() == 0) by {
            view.snapshots(events).lemma_filter_len(of_key);
        }
        assert(view.snapshots(events).filter(of_key) =~= progression(
            start,
            outcomes_for(events, key),
            view.capacity,
        ));
    } else {
        let earlier = events.drop_last();
        let event = events.last();
        lemma_per_target_order(view, earlier, key);
        lemma_replay_keeps_targets(view, earlier);
        let before = view.replay(earlier);
        let earlier_outcomes = outcomes_for(earlier, key);
        assert(events =~= earlier.push(event));
        earlier.lemma_filter_push(event, to_key);
        if before.targets.contains_key(event.key()) {
            let updated = before.targets[event.key()].apply(event.outcome(), view.capacity);
            assert(view.snapshots(events) == view.snapshots(earlier).push(updated));
            view.snapshots(earlier).lemma_filter_push(updated, of_key);
            assert(target_key(updated.addr, updated.ip) == event.key());
            if event.key() == key {
                let outcomes = earlier_outcomes.push(event.outcome());
                assert(outcomes_for(events, key) =~= outcomes);
                assert(outcomes.drop_last() =~= earlier_outcomes);
                let now = progression(start, outcomes, view.capacity);
                let then = progression(start, earlier_outcomes, view.capacity).push(updated);
                assert forall|i: int| 0 <= i < now.len() implies now[i] == then[i] by {
                    if i < earlier_outcomes.len() {
                        assert(outcomes.take(i + 1) =~= earlier_outcomes.take(i + 1));
                    } else {
                        assert(outcomes.take(i + 1) =~= outcomes);
                    }
                }
                assert(now =~= then);
            }
        }
    }
}

} // verus!
