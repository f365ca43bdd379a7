//! Per-message-type processing-time history and its 99th percentile.
//!
//! Durations are nanoseconds (`u128`, exact for every `Duration`).

use vstd::prelude::*;
use crate::assoc::{
    assoc_map, distinct_keys, has_key, key_index, lemma_assoc_index, lemma_assoc_push,
    lemma_assoc_update,
};

verus! {

/// A history longer than this is cut.
pub const MAX_HISTORY: usize = 1000;

/// How many of the oldest entries a cut drops.
pub const HISTORY_DROP: usize = 500;

/// A 99th percentile above this (100 ms, in nanoseconds) is slow.
pub const SLOW_P99_NANOS: u128 = 100_000_000;

/// `s` is in ascending order.
pub open spec fn sorted(s: Seq<u128>) -> bool {
    forall|i: int, j: int| 0 <= i <= j < s.len() ==> s[i] <= s[j]
}

/// `v` is the element at index `k` of `s` once sorted ascending.
pub open spec fn rank_value(s: Seq<u128>, k: int, v: u128) -> bool {
    exists|t: Seq<u128>|
        #![trigger t.to_multiset()]
        sorted(t) && t.to_multiset() == s.to_multiset() && 0 <= k < t.len() && t[k] == v
}

/// The index of the 99th percentile in a history of `n` entries.
pub open spec fn p99_index(n: int) -> int {
    (n * 99) / 100
}

/// The history after adding one duration: cut to its newest entries when too long.
pub open spec fn extended_history(h: Seq<u128>, d: u128) -> Seq<u128> {
    if h.len() + 1 > MAX_HISTORY {
        h.push(d).skip(HISTORY_DROP as int)
    } else {
        h.push(d)
    }
}

/// The history of a message type (empty if never seen).
pub open spec fn history_of(m: Map<Seq<char>, Seq<u128>>, mt: Seq<char>) -> Seq<u128> {
    if m.contains_key(mt) {
        m[mt]
    } else {
        Seq::empty()
    }
}

/// The reported percentile is one of the recorded durations.
pub proof fn law_p99_is_recorded(s: Seq<u128>, k: int, v: u128)
    requires
        rank_value(s, k, v),
    ensures
        s.contains(v),
{
    broadcast use vstd::seq_lib::group_to_multiset_ensures;

    let t = choose|t: Seq<u128>|
        #![trigger t.to_multiset()]
        sorted(t) && t.to_multiset() == s.to_multiset() && 0 <= k < t.len() && t[k] == v;
    assert(t.contains(v));
    assert(t.to_multiset().count(v) > 0);
}

/// A history never grows past `MAX_HISTORY`, always ends with the newest
/// duration, and keeps everything while it is short.
pub proof fn law_history_bounded(h: Seq<u128>, d: u128)
    requires
        h.len() <= MAX_HISTORY,
    ensures
        extended_history(h, d).len() <= MAX_HISTORY,
        extended_history(h, d).len() > 0,
        extended_history(h, d).last() == d,
        h.len() < MAX_HISTORY ==> extended_history(h, d) == h.push(d),
{
}

/// A history keeps its last 1000 durations: adding to a full history of 1000
/// drops the oldest 500; the 99th percentile of `n` durations is the one at
/// sorted index `floor(99 n / 100)`; a percentile is slow above 100 ms.
pub proof fn law_history_window(h: Seq<u128>, d: u128, n: int)
    ensures
        h.len() < 1000 ==> extended_history(h, d) == h.push(d),
        h.len() == 1000 ==> extended_history(h, d) == h.push(d).skip(500),
        p99_index(n) == (n * 99) / 100,
        SLOW_P99_NANOS == 100_000_000,
{
}

/// The percentile index always falls inside a non-empty history.
pub proof fn law_p99_index_in_range(n: int)
    requires
        n > 0,
    ensures
        0 <= p99_index(n) < n,
{
    assert((n * 99) / 100 < n) by (nonlinear_arith)
        requires
            n > 0,
    ;
    assert((n * 99) / 100 >= 0) by (nonlinear_arith)
        requires
            n > 0,
    ;
}

/// What the caller reports after recording a processing time.
pub struct ProcessingReport {
    /// The 99th-percentile processing time of the message type, in nanoseconds.
    pub p99_nanos: u128,
    /// Whether that percentile exceeds `SLOW_P99_NANOS`.
    pub slow: bool,
}

/// A sorted copy of `v`.
pub fn sorted_copy(v: &Vec<u128>) -> (r: Vec<u128>)
    ensures
        sorted(r@),
        r@.to_multiset() == v@.to_multiset(),
{
    broadcast use vstd::seq_lib::group_to_multiset_ensures;

    let mut r: Vec<u128> = Vec::new();
    let mut i: usize = 0;
    assert(v@.take(0) =~= Seq::<u128>::empty());
    while i < v.len()
        invariant
            i <= v@.len(),
            sorted(r@),
            r@.to_multiset() == v@.take(i as int).to_multiset(),
        decreases v.len() - i,
    {
        let x = v[i];
        let mut p: usize = 0;
        while p < r.len() && r[p] <= x
            invariant
                p <= r@.len(),
                forall|j: int| 0 <= j < p ==> r@[j] <= x,
            decreases r.len() - p,
        {
            p = p + 1;
        }
        let ghost r0 = r@;
        r.insert(p, x);
        proof {
            assert(r@ == r0.insert(p as int, x));
            vstd::seq_lib::to_multiset_insert(r0, p as int, x);
            assert(r@.to_multiset() == r0.to_multiset().insert(x));
            assert forall|a: int, b: int| 0 <= a <= b < r@.len() implies r@[a] <= r@[b] by {
                if a < p && b < p {
                    assert(r@[a] == r0[a] && r@[b] == r0[b]);
                } else if a < p && b == p {
                } else if a < p {
                    assert(r@[a] == r0[a] && r@[b] == r0[b - 1]);
                } else if a == p && b > p {
                    assert(r@[b] == r0[b - 1]);
                    assert(p < r0.len());
                    assert(r0[p as int] > x);
                    assert(r0[p as int] <= r0[b - 1]);
                } else if a > p {
                    assert(r@[a] == r0[a - 1] && r@[b] == r0[b - 1]);
                }
            }
            assert(v@.take(i as int + 1) =~= v@.take(i as int).push(x));
            vstd::seq_lib::to_multiset_build(v@.take(i as int), x);
            assert(v@.take(i as int + 1).to_multiset() == v@.take(i as int).to_multiset().insert(x));
        }
        i = i + 1;
    }
    assert(v@.take(i as int) =~= v@);
    r
}

/// The element at index `k` of `v` once sorted.
pub fn rank_select(v: &Vec<u128>, k: usize) -> (x: u128)
    requires
        k < v.len(),
    ensures
        rank_value(v@, k as int, x),
{
    broadcast use vstd::seq_lib::group_to_multiset_ensures;

    let s = sorted_copy(v);
    proof {
        assert(s@.len() == s@.to_multiset().len());
        assert(v@.len() == v@.to_multiset().len());
    }
    let x = s[k];
    assert(sorted(s@) && s@.to_multiset() == v@.to_multiset() && 0 <= k < s@.len() && s@[k as int] == x);
    x
}

/// Processing-time histories, one per message type.
pub struct MessageProcessingMetrics {
    processing_times: Vec<(String, Vec<u128>)>,
}

impl MessageProcessingMetrics {
    /// The histories as an association list over the message types.
    pub closed spec fn entries(&self) -> Seq<(Seq<char>, Seq<u128>)> {
        self.processing_times@.map_values(|e: (String, Vec<u128>)| (e.0@, e.1@))
    }

    /// The history of each message type.
    pub open spec fn histories(&self) -> Map<Seq<char>, Seq<u128>> {
        assoc_map(self.entries())
    }

    /// Well-formedness: distinct types, and no history longer than `MAX_HISTORY`.
    pub closed spec fn wf(&self) -> bool {
        &&& distinct_keys(self.entries())
        &&& forall|i: int|
            0 <= i < self.processing_times@.len() ==> #[trigger] self.processing_times@[i].1@.len()
                <= MAX_HISTORY
    }

    /// An empty set of histories.
    pub fn new() -> (m: MessageProcessingMetrics)
        ensures
            m.wf(),
            m.histories() == Map::<Seq<char>, Seq<u128>>::empty(),
    {
        let m = MessageProcessingMetrics { processing_times: Vec::new() };
        assert(m.entries() =~= Seq::<(Seq<char>, Seq<u128>)>::empty());
        assert(m.histories() =~= Map::<Seq<char>, Seq<u128>>::empty());
        m
    }

    /// Records that a message of type `message_type` took `duration_nanos` to
    /// process, and reports the type's 99th percentile and whether it is slow.
    pub fn record_processing_time(&mut self, message_type: &str, duration_nanos: u128) -> (rep: ProcessingReport)
        requires
            old(self).wf(),
        ensures
            final(self).wf(),
            final(self).histories() == old(self).histories().insert(
                message_type@,
                extended_history(history_of(old(self).histories(), message_type@), duration_nanos),
            ),
            rank_value(
                extended_history(history_of(old(self).histories(), message_type@), duration_nanos),
                p99_index(
                    extended_history(history_of(old(self).histories(), message_type@), duration_nanos).len() as int,
                ),
                rep.p99_nanos,
            ),
            rep.slow == (rep.p99_nanos > SLOW_P99_NANOS),
    {
        let key = message_type.to_owned();
        let ghost s0 = self.entries();
        let ghost h = history_of(self.histories(), message_type@);
        let mut idx: usize = 0;
        while idx < self.processing_times.len() && !(self.processing_times[idx].0 == key)
            invariant
                idx <= self.processing_times@.len(),
                forall|j: int| 0 <= j < idx ==> #[trigger] self.processing_times@[j].0@ != key@,
            decreases self.processing_times.len() - idx,
        {
            idx = idx + 1;
        }
        let found = idx < self.processing_times.len();
        let mut times: Vec<u128> = if found {
            proof {
                lemma_assoc_index(s0, idx as int);
                assert(s0[idx as int] == (self.processing_times@[idx as int].0@, self.processing_times@[idx as int].1@));
            }
            let (_, t) = self.processing_times.remove(idx);
            t
        } else {
            proof {
                if has_key(s0, key@) {
                    let j = key_index(s0, key@);
                    assert(s0[j].0 == self.processing_times@[j].0@);
                }
            }
            Vec::new()
        };
        assert(times@ == h);
        assert(times@.len() <= MAX_HISTORY) by {
            if found {
                assert(old(self).processing_times@[idx as int].1@.len() <= MAX_HISTORY);
            }
        }
        times.push(duration_nanos);
        if times.len() > MAX_HISTORY {
            let mut kept: Vec<u128> = Vec::new();
            let mut j: usize = HISTORY_DROP;
            while j < times.len()
                invariant
                    HISTORY_DROP <= j <= times@.len(),
                    kept@ == times@.subrange(HISTORY_DROP as int, j as int),
                decreases times.len() - j,
            {
                kept.push(times[j]);
                j = j + 1;
                assert(kept@ =~= times@.subrange(HISTORY_DROP as int, j as int));
            }
            assert(kept@ =~= times@.skip(HISTORY_DROP as int));
            times = kept;
        }
        let ghost h2 = extended_history(h, duration_nanos);
        assert(times@ =~= h2);
        let k = (times.len() * 99) / 100;
        let p99 = rank_select(&times, k);
        let ghost tv = times@;
        if found {
            self.processing_times.insert(idx, (key, times));
            proof {
                assert(self.entries() =~= s0.update(idx as int, (s0[idx as int].0, tv)));
                lemma_assoc_update(s0, idx as int, tv);
                assert forall|i: int| 0 <= i < self.processing_times@.len() implies #[trigger] self.processing_times@[i].1@.len()
                    <= MAX_HISTORY by {
                    if i != idx {
                        assert(self.processing_times@[i] == old(self).processing_times@[i]);
                    }
                }
            }
        } else {
            let ghost kv = key@;
            self.processing_times.push((key, times));
            proof {
                assert(self.entries() =~= s0.push((kv, tv)));
                lemma_assoc_push(s0, kv, tv);
                assert forall|i: int| 0 <= i < self.processing_times@.len() implies #[trigger] self.processing_times@[i].1@.len()
                    <= MAX_HISTORY by {
                    if i < s0.len() {
                        assert(self.processing_times@[i] == old(self).processing_times@[i]);
                    }
                }
            }
        }
        ProcessingReport { p99_nanos: p99, slow: p99 > SLOW_P99_NANOS }
    }
}

} // verus!
