//! What is settled once, when a run starts: the list of targets, the probe
//! interval, and how many workers there will be.

use crate::network::DEFAULT_INTERVAL_MILLIS;
use crate::resolve::texts;
use vstd::hash_map::StringHashMap;
use vstd::prelude::*;

verus! {

/// A list without its repetitions: of equal entries only the first stays,
/// and the entries that stay keep their order.
pub open spec fn without_repeats(list: Seq<Seq<char>>) -> Seq<Seq<char>>
    decreases list.len(),
{
    if list.len() == 0 {
        Seq::empty()
    } else if without_repeats(list.drop_last()).contains(list.last()) {
        without_repeats(list.drop_last())
    } else {
        without_repeats(list.drop_last()).push(list.last())
    }
}

/// A list without its repetitions names every entry of the list, names
/// nothing else, and names nothing twice.
pub proof fn lemma_without_repeats(list: Seq<Seq<char>>)
    ensures
        without_repeats(list).no_duplicates(),
        forall|entry: Seq<char>| without_repeats(list).contains(entry) <==> list.contains(entry),
        without_repeats(list).len() <= list.len(),
    decreases list.len(),
{
    if list.len() > 0 {
        let earlier = list.drop_last();
        lemma_without_repeats(earlier);
        let kept = without_repeats(earlier);
        let result = without_repeats(list);
        assert forall|entry: Seq<char>| result.contains(entry) <==> list.contains(entry) by {
            if list.contains(entry) {
                let i = choose|i: int| 0 <= i < list.len() && list[i] == entry;
                if i < earlier.len() {
                    assert(earlier[i] == entry);
                    assert(earlier.contains(entry));
                    assert(kept.contains(entry));
                    let j = choose|j: int| 0 <= j < kept.len() && kept[j] == entry;
                    assert(result[j] == entry);
                } else if !kept.contains(list.last()) {
                    assert(result[result.len() - 1] == entry);
                }
            }
            if result.contains(entry) {
                let j = choose|j: int| 0 <= j < result.len() && result[j] == entry;
                if j < kept.len() {
                    assert(kept[j] == entry);
                    assert(kept.contains(entry));
                    assert(earlier.contains(entry));
                    let i = choose|i: int| 0 <= i < earlier.len() && earlier[i] == entry;
                    assert(list[i] == entry);
                } else {
                    assert(list[list.len() - 1] == entry);
                }
            }
        }
    }
}

/// Drops the repetitions from a list of targets: a target that was named
/// before is left out, and the order of the others is kept.
pub fn dedup_targets(targets: Vec<String>) -> (unique: Vec<String>)
    ensures
        texts(unique@) == without_repeats(texts(targets@)),
{
    let mut seen: StringHashMap<bool> = StringHashMap::new();
    let mut unique: Vec<String> = Vec::new();
    let mut i: usize = 0;
    assert(texts(targets@).take(0) =~= Seq::empty());
    assert(texts(unique@) =~= Seq::empty());
    while i < targets.len()
        invariant
            i <= targets.len(),
            texts(unique@) == without_repeats(texts(targets@).take(i as int)),
            forall|entry: Seq<char>| #[trigger]
                seen@.contains_key(entry) <==> texts(unique@).contains(entry),
        decreases targets.len() - i,
    {
        assert(texts(targets@).take(i as int + 1).drop_last() =~= texts(targets@).take(i as int));
        assert(texts(targets@).take(i as int + 1).last() == targets@[i as int]@);
        if !seen.contains_key(targets[i].as_str()) {
            let ghost before = unique@;
            seen.insert(targets[i].clone(), true);
            unique.push(targets[i].clone());
            assert(texts(unique@) =~= texts(before).push(targets@[i as int]@));
            assert forall|entry: Seq<char>| #[trigger]
                seen@.contains_key(entry) <==> texts(unique@).contains(entry) by {
                if texts(before).contains(entry) {
                    let at = choose|at: int| 0 <= at < texts(before).len() && texts(before)[at] == entry;
                    assert(texts(unique@)[at] == entry);
                }
                if entry == targets@[i as int]@ {
                    assert(texts(unique@)[texts(unique@).len() - 1] == entry);
                }
                if texts(unique@).contains(entry) {
                    let at = choose|at: int| 0 <= at < texts(unique@).len() && texts(unique@)[at] == entry;
                    if at < texts(before).len() {
                        assert(texts(before)[at] == entry);
                    }
                }
            }
        }
        i += 1;
    }
    assert(texts(targets@).take(i as int) =~= texts(targets@));
    unique
}

/// How many addresses a run probes: as many as were asked for where one
/// target is probed at several addresses, else one for each target.
pub open spec fn address_count(target_count: nat, multiple: int) -> nat {
    if target_count == 1 && multiple > 0 {
        multiple as nat
    } else {
        target_count
    }
}

/// How many addresses a run probes.
pub fn ip_count(target_count: usize, multiple: i32) -> (count: usize)
    ensures
        count == address_count(target_count as nat, multiple as int),
{
    if target_count == 1 && multiple > 0 {
        multiple as usize
    } else {
        target_count
    }
}

/// How many worker threads a run gets: one for each address, and one more.
pub fn worker_threads(ip_count: usize) -> (threads: usize)
    requires
        ip_count < usize::MAX,
    ensures
        threads == ip_count + 1,
{
    ip_count + 1
}

/// The probe interval in milliseconds for an interval given in seconds,
/// where 0 stands for the default.
pub open spec fn interval_of(seconds: int) -> int {
    if seconds == 0 {
        DEFAULT_INTERVAL_MILLIS as int
    } else {
        seconds * 1000
    }
}

/// The probe interval in milliseconds: the interval given in seconds, or
/// the default where 0 is given.
pub fn interval_millis(seconds: i32) -> (millis: u64)
    requires
        seconds >= 0,
    ensures
        millis == interval_of(seconds as int),
        millis > 0,
{
    if seconds == 0 {
        DEFAULT_INTERVAL_MILLIS
    } else {
        seconds as u64 * 1000
    }
}

/// The display name that goes with the address at `index`: the only target
/// where there is one, else the target at the same index.
pub open spec fn name_of(targets: Seq<String>, index: int) -> Seq<char> {
    if targets.len() == 1 {
        targets[0]@
    } else {
        targets[index]@
    }
}

/// Pairs every resolved address with the display name of its target.
pub fn pair_targets(targets: &Vec<String>, ips: &Vec<String>) -> (pairs: Vec<(String, String)>)
    requires
        targets.len() == 1 || ips.len() <= targets.len(),
    ensures
        pairs.len() == ips.len(),
        forall|i: int|
            0 <= i < ips.len() ==> (#[trigger] pairs@[i]).0@ == name_of(targets@, i) && pairs@[i].1@
                == ips@[i]@,
{
    let mut pairs: Vec<(String, String)> = Vec::new();
    let mut i: usize = 0;
    while i < ips.len()
        invariant
            i <= ips.len(),
            targets.len() == 1 || ips.len() <= targets.len(),
            pairs.len() == i,
            forall|j: int|
                0 <= j < i ==> (#[trigger] pairs@[j]).0@ == name_of(targets@, j) && pairs@[j].1@
                    == ips@[j]@,
        decreases ips.len() - i,
    {
        let addr = if targets.len() == 1 {
            targets[0].clone()
        } else {
            targets[i].clone()
        };
        pairs.push((addr, ips[i].clone()));
        i += 1;
    }
    pairs
}

} // verus!
