//! Per-peer rate and pattern tracking that flags suspicious peers.
//!
//! Times are nanoseconds on a monotonic clock chosen by the caller; a peer is
//! identified by the integer parts of its socket address.

use vstd::prelude::*;
use crate::assoc::{
    assoc_map, distinct_keys, has_key, key_index, lemma_assoc_index, lemma_assoc_len, lemma_assoc_push,
    lemma_assoc_remove, lemma_assoc_update,
};

verus! {

/// Length of the rate-limit window, in nanoseconds (one second).
pub const ONE_SECOND_NANOS: u64 = 1_000_000_000;

/// More messages than this within one window is a rate violation.
pub const MAX_MESSAGES_PER_SECOND: u64 = 100;

/// More bytes than this within one window is a rate violation.
pub const MAX_BYTES_PER_SECOND: u64 = 1_000_000;

/// More messages of one type than this is the start of a repetition pattern.
pub const REPEAT_COUNT_THRESHOLD: u64 = 50;

/// A repetition pattern needs fewer than this many messages of other types.
pub const REPEAT_OTHER_LIMIT: u64 = 10;

/// A peer with at least this many suspicious patterns should be disconnected.
pub const DISCONNECT_THRESHOLD: u32 = 3;

/// The identity of a peer: its socket address as plain integers.
///
/// `ip` holds the 4 or 16 address bytes big-endian; `flowinfo` and `scope_id`
/// are zero for IPv4 peers. Two keys are equal exactly when the addresses are.
#[derive(Clone, Copy, Debug, PartialEq, Eq, Structural)]
pub struct PeerKey {
    pub is_v6: bool,
    pub ip: u128,
    pub port: u16,
    pub flowinfo: u32,
    pub scope_id: u32,
}

/// The mathematical state kept for one peer.
pub struct PeerRecord {
    pub total_messages: int,
    pub messages_this_second: int,
    pub current_second_start: int,
    pub total_bytes: int,
    pub bytes_this_second: int,
    pub last_message_time: int,
    pub suspicious_patterns: int,
    pub type_counts: Map<Seq<char>, int>,
}

/// The state of a peer that has not sent anything yet, created at time `now`.
pub open spec fn fresh_record(now: int) -> PeerRecord {
    PeerRecord {
        total_messages: 0,
        messages_this_second: 0,
        current_second_start: now,
        total_bytes: 0,
        bytes_this_second: 0,
        last_message_time: now,
        suspicious_patterns: 0,
        type_counts: Map::empty(),
    }
}

/// How many messages of type `mt` the peer has sent.
pub open spec fn count_of(r: PeerRecord, mt: Seq<char>) -> int {
    if r.type_counts.contains_key(mt) {
        r.type_counts[mt]
    } else {
        0
    }
}

/// The counters after one more message, before any pattern is checked.
///
/// The per-second counters restart when a full second has passed since the
/// window began (an earlier `now` counts as no time passed).
pub open spec fn counted(r: PeerRecord, mt: Seq<char>, bytes: int, now: int) -> PeerRecord {
    let new_window = now - r.current_second_start >= ONE_SECOND_NANOS;
    PeerRecord {
        total_messages: r.total_messages + 1,
        messages_this_second: (if new_window { 0 } else { r.messages_this_second }) + 1,
        current_second_start: if new_window { now } else { r.current_second_start },
        total_bytes: r.total_bytes + bytes,
        bytes_this_second: (if new_window { 0 } else { r.bytes_this_second }) + bytes,
        last_message_time: now,
        suspicious_patterns: r.suspicious_patterns,
        type_counts: r.type_counts.insert(mt, count_of(r, mt) + 1),
    }
}

/// The message-rate pattern.
pub open spec fn exceeds_message_rate(c: PeerRecord) -> bool {
    c.messages_this_second > MAX_MESSAGES_PER_SECOND
}

/// The byte-rate pattern.
pub open spec fn exceeds_byte_rate(c: PeerRecord) -> bool {
    c.bytes_this_second > MAX_BYTES_PER_SECOND
}

/// The repeated-message-type pattern.
pub open spec fn repeats_message_type(c: PeerRecord, mt: Seq<char>) -> bool {
    count_of(c, mt) > REPEAT_COUNT_THRESHOLD && c.total_messages - count_of(c, mt)
        < REPEAT_OTHER_LIMIT
}

/// How many of the three patterns the counted state shows.
pub open spec fn patterns_found(c: PeerRecord, mt: Seq<char>) -> int {
    (if exceeds_message_rate(c) { 1int } else { 0int }) + (if exceeds_byte_rate(c) {
        1int
    } else {
        0int
    }) + (if repeats_message_type(c, mt) { 1int } else { 0int })
}

/// The state a peer is in before a message: its record, or a fresh one.
pub open spec fn prior_record(prev: Option<PeerRecord>, now: int) -> PeerRecord {
    match prev {
        Some(r) => r,
        None => fresh_record(now),
    }
}

/// The state of a peer after it sends a message of type `mt` and `bytes` bytes at `now`.
pub open spec fn record_step(prev: Option<PeerRecord>, mt: Seq<char>, bytes: int, now: int) -> PeerRecord {
    let c = counted(prior_record(prev, now), mt, bytes, now);
    PeerRecord {
        total_messages: c.total_messages,
        messages_this_second: c.messages_this_second,
        current_second_start: c.current_second_start,
        total_bytes: c.total_bytes,
        bytes_this_second: c.bytes_this_second,
        last_message_time: c.last_message_time,
        suspicious_patterns: c.suspicious_patterns + patterns_found(c, mt),
        type_counts: c.type_counts,
    }
}

/// Whether the message is reported as suspicious.
pub open spec fn record_flags(prev: Option<PeerRecord>, mt: Seq<char>, bytes: int, now: int) -> bool {
    patterns_found(counted(prior_record(prev, now), mt, bytes, now), mt) > 0
}

/// How the number of suspicious peers changes when a message is recorded: by
/// one exactly when the message is flagged and the peer had shown no pattern.
pub open spec fn newly_suspicious(prev: Option<PeerRecord>, mt: Seq<char>, bytes: int, now: int) -> int {
    if record_flags(prev, mt, bytes, now) && prior_record(prev, now).suspicious_patterns == 0 {
        1
    } else {
        0
    }
}

/// The counters of the new state fit their machine integers (`u64`, and `u32`
/// for the pattern count); otherwise the update would overflow.
pub open spec fn record_fits(prev: Option<PeerRecord>, mt: Seq<char>, bytes: int, now: int) -> bool {
    let n = record_step(prev, mt, bytes, now);
    n.total_messages <= u64::MAX && n.total_bytes <= u64::MAX && n.suspicious_patterns
        <= u32::MAX
}

/// The invariant of a peer's state.
pub open spec fn record_wf(r: PeerRecord) -> bool {
    &&& 0 <= r.messages_this_second <= r.total_messages <= u64::MAX
    &&& 0 <= r.bytes_this_second <= r.total_bytes <= u64::MAX
    &&& 0 <= r.current_second_start <= u64::MAX
    &&& 0 <= r.last_message_time <= u64::MAX
    &&& 0 <= r.suspicious_patterns <= u32::MAX
    &&& forall|k: Seq<char>|
        #[trigger] r.type_counts.contains_key(k) ==> 0 <= r.type_counts[k] <= r.total_messages
}

/// Whether a peer in state `r` should be disconnected.
pub open spec fn disconnect_due(r: Option<PeerRecord>) -> bool {
    match r {
        Some(s) => s.suspicious_patterns >= DISCONNECT_THRESHOLD,
        None => false,
    }
}

/// The per-second window: when at least one second (10^9 ns) has passed since
/// the current window began, the window restarts at this message, so it holds
/// only this message and its bytes, whenever the previous message came;
/// otherwise the message is added to the current window. A message is flagged
/// exactly when, after it, the window holds more than 100 messages or more than
/// 1,000,000 bytes, or more than 50 messages of its type were sent with fewer
/// than 10 of other types; each of these adds one pattern, and a peer is due
/// for disconnection from 3 patterns on.
pub proof fn law_rate_window(prev: Option<PeerRecord>, mt: Seq<char>, bytes: int, now: int)
    ensures
        ({
            let p = prior_record(prev, now);
            let n = record_step(prev, mt, bytes, now);
            let rate = n.messages_this_second > 100;
            let volume = n.bytes_this_second > 1_000_000;
            let repeat = count_of(n, mt) > 50 && n.total_messages - count_of(n, mt) < 10;
            &&& now - p.current_second_start >= 1_000_000_000 ==> n.messages_this_second == 1
                && n.bytes_this_second == bytes && n.current_second_start == now
            &&& now - p.current_second_start < 1_000_000_000 ==> n.messages_this_second
                == p.messages_this_second + 1 && n.bytes_this_second == p.bytes_this_second + bytes
                && n.current_second_start == p.current_second_start
            &&& n.last_message_time == now
            &&& record_flags(prev, mt, bytes, now) == (rate || volume || repeat)
            &&& n.suspicious_patterns == p.suspicious_patterns + (if rate { 1int } else { 0int }) + (if volume {
                1int
            } else {
                0int
            }) + (if repeat { 1int } else { 0int })
            &&& disconnect_due(Some(n)) == (n.suspicious_patterns >= 3)
        }),
{
}

/// Recording a message never lowers the suspicious-pattern count, adds exactly
/// the number of patterns found, counts one more message and `bytes` more bytes,
/// and the message is flagged exactly when the count rose.
pub proof fn law_record_counts(prev: Option<PeerRecord>, mt: Seq<char>, bytes: int, now: int)
    requires
        bytes >= 0,
    ensures
        record_step(prev, mt, bytes, now).suspicious_patterns >= prior_record(prev, now).suspicious_patterns,
        record_step(prev, mt, bytes, now).total_messages == prior_record(prev, now).total_messages + 1,
        record_step(prev, mt, bytes, now).total_bytes == prior_record(prev, now).total_bytes + bytes,
        record_flags(prev, mt, bytes, now) <==> record_step(prev, mt, bytes, now).suspicious_patterns
            > prior_record(prev, now).suspicious_patterns,
        count_of(record_step(prev, mt, bytes, now), mt) == count_of(prior_record(prev, now), mt) + 1,
{
}

/// A well-formed state stays well-formed after a message whose counters fit.
pub proof fn law_record_keeps_invariant(prev: Option<PeerRecord>, mt: Seq<char>, bytes: int, now: int)
    requires
        prev matches Some(r) ==> record_wf(r),
        0 <= bytes,
        0 <= now <= u64::MAX,
        record_fits(prev, mt, bytes, now),
    ensures
        record_wf(record_step(prev, mt, bytes, now)),
{
    let p = prior_record(prev, now);
    let n = record_step(prev, mt, bytes, now);
    assert forall|k: Seq<char>| #[trigger] n.type_counts.contains_key(k) implies 0 <= n.type_counts[k]
        <= n.total_messages by {
        if k != mt {
            assert(p.type_counts.contains_key(k));
        }
    }
}

/// Once a peer is due for disconnection, further messages keep it due.
pub proof fn law_disconnect_is_sticky(r: PeerRecord, mt: Seq<char>, bytes: int, now: int)
    requires
        disconnect_due(Some(r)),
    ensures
        disconnect_due(Some(record_step(Some(r), mt, bytes, now))),
{
}

/// After recording a message from a peer, the disconnection decision for that
/// peer is read from its new state, and every other peer's decision is unchanged.
pub proof fn law_disconnect_after_record(
    m: Map<PeerKey, PeerRecord>,
    peer: PeerKey,
    other: PeerKey,
    mt: Seq<char>,
    bytes: int,
    now: int,
)
    requires
        other != peer,
    ensures
        disconnect_due(m.insert(peer, record_step(m.get(peer), mt, bytes, now)).get(peer))
            == (record_step(m.get(peer), mt, bytes, now).suspicious_patterns >= DISCONNECT_THRESHOLD),
        disconnect_due(m.insert(peer, record_step(m.get(peer), mt, bytes, now)).get(other))
            == disconnect_due(m.get(other)),
{
    assert(m.insert(peer, record_step(m.get(peer), mt, bytes, now)).get(peer) == Some(
        record_step(m.get(peer), mt, bytes, now),
    ));
    assert(m.insert(peer, record_step(m.get(peer), mt, bytes, now)).get(other) == m.get(other));
}

/// A removed peer is not due for disconnection, and its next message starts
/// from a fresh state.
pub proof fn law_remove_forgets(m: Map<PeerKey, PeerRecord>, peer: PeerKey, mt: Seq<char>, bytes: int, now: int)
    ensures
        !disconnect_due(m.remove(peer).get(peer)),
        record_step(m.remove(peer).get(peer), mt, bytes, now) == record_step(None, mt, bytes, now),
{
    assert(m.remove(peer).get(peer) == None::<PeerRecord>);
}

/// A single message from a new peer shows at most one pattern, so it never
/// makes the peer due for disconnection.
pub proof fn law_first_message_never_disconnects(mt: Seq<char>, bytes: int, now: int)
    ensures
        record_step(None, mt, bytes, now).suspicious_patterns <= 1,
        !disconnect_due(Some(record_step(None, mt, bytes, now))),
{
}

/// The state of a peer after the messages `msgs` (type, byte size, time), in
/// order, since it was last untracked (never seen, or removed): each
/// `record_message` for the peer takes one `record_step`, and `remove_peer`
/// makes it untracked again.
pub open spec fn replay_peer(msgs: Seq<(Seq<char>, int, int)>) -> Option<PeerRecord>
    decreases msgs.len(),
{
    if msgs.len() == 0 {
        None
    } else {
        let m = msgs.last();
        Some(record_step(replay_peer(msgs.drop_last()), m.0, m.1, m.2))
    }
}

/// How many of the messages `msgs` were reported suspicious (`record_message`
/// returns `record_flags` of the state before each one).
pub open spec fn flagged_count(msgs: Seq<(Seq<char>, int, int)>) -> int
    decreases msgs.len(),
{
    if msgs.len() == 0 {
        0
    } else {
        let m = msgs.last();
        flagged_count(msgs.drop_last()) + if record_flags(replay_peer(msgs.drop_last()), m.0, m.1, m.2) {
            1int
        } else {
            0int
        }
    }
}

/// The bytes of a list of messages.
pub open spec fn bytes_total(msgs: Seq<(Seq<char>, int, int)>) -> int
    decreases msgs.len(),
{
    if msgs.len() == 0 {
        0
    } else {
        bytes_total(msgs.drop_last()) + msgs.last().1
    }
}

/// A replayed peer is tracked exactly when it has messages; it counts them and
/// their bytes; its pattern count is at least the number of flagged messages,
/// and it showed a pattern exactly when some message was flagged.
proof fn lemma_replay_patterns(msgs: Seq<(Seq<char>, int, int)>)
    ensures
        (msgs.len() == 0) == (replay_peer(msgs) is None),
        0 <= flagged_count(msgs),
        replay_peer(msgs) matches Some(r) ==> {
            &&& r.total_messages == msgs.len()
            &&& r.total_bytes == bytes_total(msgs)
            &&& r.suspicious_patterns >= flagged_count(msgs)
            &&& (flagged_count(msgs) == 0 ==> r.suspicious_patterns == 0)
        },
    decreases msgs.len(),
{
    if msgs.len() > 0 {
        let p = msgs.drop_last();
        let m = msgs.last();
        lemma_replay_patterns(p);
        let prior = prior_record(replay_peer(p), m.2);
        let n = record_step(replay_peer(p), m.0, m.1, m.2);
        assert(replay_peer(msgs) == Some(n));
        assert(prior.total_messages == p.len());
        assert(prior.total_bytes == bytes_total(p));
        assert(n.total_messages == msgs.len());
        assert(n.total_bytes == bytes_total(msgs));
    }
}

/// A peer is due for disconnection once at least `DISCONNECT_THRESHOLD` of its
/// messages since it was last untracked were reported suspicious, and is never
/// due while none of them was (an untracked peer, with no messages, is not due).
pub proof fn law_disconnect_after_flags(msgs: Seq<(Seq<char>, int, int)>)
    ensures
        flagged_count(msgs) >= DISCONNECT_THRESHOLD ==> disconnect_due(replay_peer(msgs)),
        flagged_count(msgs) == 0 ==> !disconnect_due(replay_peer(msgs)),
{
    lemma_replay_patterns(msgs);
}

/// Which patterns one message showed, with the counters they were checked on.
pub struct RecordOutcome {
    /// More than `MAX_MESSAGES_PER_SECOND` messages in the current second.
    pub message_rate_exceeded: bool,
    /// More than `MAX_BYTES_PER_SECOND` bytes in the current second.
    pub byte_rate_exceeded: bool,
    /// The same message type repeated with few others in between.
    pub repeated_type: bool,
    /// Messages in the current second, this one included.
    pub messages_this_second: u64,
    /// Bytes in the current second, this message included.
    pub bytes_this_second: u64,
    /// Messages of this type so far, this one included.
    pub type_count: u64,
}

/// `o` describes recording a message of type `mt` with `bytes` bytes at `now`
/// on a peer in state `prev`.
pub open spec fn outcome_of(o: RecordOutcome, prev: Option<PeerRecord>, mt: Seq<char>, bytes: int, now: int) -> bool {
    let c = counted(prior_record(prev, now), mt, bytes, now);
    &&& o.message_rate_exceeded == exceeds_message_rate(c)
    &&& o.byte_rate_exceeded == exceeds_byte_rate(c)
    &&& o.repeated_type == repeats_message_type(c, mt)
    &&& o.messages_this_second == c.messages_this_second
    &&& o.bytes_this_second == c.bytes_this_second
    &&& o.type_count == count_of(c, mt)
}

/// The executable state of one peer.
pub struct PeerState {
    total_messages: u64,
    messages_this_second: u64,
    current_second_start: u64,
    total_bytes: u64,
    bytes_this_second: u64,
    last_message_time: u64,
    suspicious_patterns: u32,
    message_type_counts: Vec<(String, u64)>,
}

/// The counts of message types as an association list of character sequences.
pub open spec fn type_entries(v: Seq<(String, u64)>) -> Seq<(Seq<char>, int)> {
    v.map_values(|e: (String, u64)| (e.0@, e.1 as int))
}

impl View for PeerState {
    type V = PeerRecord;

    closed spec fn view(&self) -> PeerRecord {
        PeerRecord {
            total_messages: self.total_messages as int,
            messages_this_second: self.messages_this_second as int,
            current_second_start: self.current_second_start as int,
            total_bytes: self.total_bytes as int,
            bytes_this_second: self.bytes_this_second as int,
            last_message_time: self.last_message_time as int,
            suspicious_patterns: self.suspicious_patterns as int,
            type_counts: assoc_map(type_entries(self.message_type_counts@)),
        }
    }
}

impl PeerState {
    /// Well-formedness: distinct message types and the record invariant.
    pub closed spec fn wf(&self) -> bool {
        distinct_keys(type_entries(self.message_type_counts@)) && record_wf(self@)
    }

    /// A state for a peer first seen at `now`.
    fn fresh(now: u64) -> (s: PeerState)
        ensures
            s.wf(),
            s@ == fresh_record(now as int),
    {
        let s = PeerState {
            total_messages: 0,
            messages_this_second: 0,
            current_second_start: now,
            total_bytes: 0,
            bytes_this_second: 0,
            last_message_time: now,
            suspicious_patterns: 0,
            message_type_counts: Vec::new(),
        };
        assert(type_entries(s.message_type_counts@) =~= Seq::<(Seq<char>, int)>::empty());
        assert(assoc_map(type_entries(s.message_type_counts@)) =~= Map::<Seq<char>, int>::empty());
        s
    }

    /// The index of the count for message type `mt`, if the type was seen.
    fn type_index(&self, mt: &String) -> (r: Option<usize>)
        requires
            self.wf(),
        ensures
            match r {
                Some(i) => i < self.message_type_counts@.len() && self.message_type_counts@[i as int].0@
                    == mt@,
                None => !self@.type_counts.contains_key(mt@),
            },
    {
        let mut i: usize = 0;
        while i < self.message_type_counts.len()
            invariant
                i <= self.message_type_counts@.len(),
                forall|j: int| 0 <= j < i ==> #[trigger] self.message_type_counts@[j].0@ != mt@,
            decreases self.message_type_counts.len() - i,
        {
            if self.message_type_counts[i].0 == *mt {
                return Some(i);
            }
            i = i + 1;
        }
        proof {
            let s = type_entries(self.message_type_counts@);
            if has_key(s, mt@) {
                let j = key_index(s, mt@);
                assert(s[j].0 == self.message_type_counts@[j].0@);
            }
        }
        None
    }

    /// How many messages of type `mt` were counted.
    fn count_for(&self, mt: &String) -> (c: u64)
        requires
            self.wf(),
        ensures
            c == count_of(self@, mt@),
    {
        match self.type_index(mt) {
            Some(i) => {
                proof {
                    lemma_assoc_index(type_entries(self.message_type_counts@), i as int);
                }
                self.message_type_counts[i].1
            },
            None => 0,
        }
    }

    /// Adds one to the count of message type `mt`.
    fn bump_type(&mut self, mt: String)
        requires
            old(self).wf(),
            count_of(old(self)@, mt@) < u64::MAX,
        ensures
            distinct_keys(type_entries(final(self).message_type_counts@)),
            final(self)@ == (PeerRecord {
                type_counts: old(self)@.type_counts.insert(mt@, count_of(old(self)@, mt@) + 1),
                ..old(self)@
            }),
    {
        let ghost s0 = type_entries(self.message_type_counts@);
        match self.type_index(&mt) {
            Some(i) => {
                proof {
                    lemma_assoc_index(s0, i as int);
                }
                let c = self.message_type_counts[i].1;
                self.message_type_counts.set(i, (mt, c + 1));
                proof {
                    assert(type_entries(self.message_type_counts@) =~= s0.update(
                        i as int,
                        (s0[i as int].0, c + 1),
                    ));
                    lemma_assoc_update(s0, i as int, c + 1);
                }
            },
            None => {
                let ghost key = mt@;
                self.message_type_counts.push((mt, 1));
                proof {
                    assert(type_entries(self.message_type_counts@) =~= s0.push((key, 1int)));
                    lemma_assoc_push(s0, key, 1int);
                }
            },
        }
    }

    /// Whether recording the message would keep every counter in range.
    fn fits(&self, mt: &String, byte_size: u64, now: u64) -> (r: bool)
        requires
            self.wf(),
        ensures
            r == record_fits(Some(self@), mt@, byte_size as int, now as int),
    {
        if self.total_messages == u64::MAX {
            return false;
        }
        if self.total_bytes > u64::MAX - byte_size {
            return false;
        }
        let new_window = now >= self.current_second_start && now - self.current_second_start
            >= ONE_SECOND_NANOS;
        let mts = (if new_window { 0 } else { self.messages_this_second }) + 1;
        let bts = (if new_window { 0 } else { self.bytes_this_second }) + byte_size;
        let total = self.total_messages + 1;
        let count = self.count_for(mt) + 1;
        let mut found: u32 = 0;
        if mts > MAX_MESSAGES_PER_SECOND {
            found = found + 1;
        }
        if bts > MAX_BYTES_PER_SECOND {
            found = found + 1;
        }
        if count > REPEAT_COUNT_THRESHOLD && total - count < REPEAT_OTHER_LIMIT {
            found = found + 1;
        }
        proof {
            let c = counted(self@, mt@, byte_size as int, now as int);
            assert(count_of(c, mt@) == count);
            assert(patterns_found(c, mt@) == found);
        }
        self.suspicious_patterns <= u32::MAX - found
    }

    /// Counts one message and checks the three patterns.
    fn record(&mut self, mt: String, byte_size: u64, now: u64) -> (o: RecordOutcome)
        requires
            old(self).wf(),
            record_fits(Some(old(self)@), mt@, byte_size as int, now as int),
        ensures
            final(self).wf(),
            final(self)@ == record_step(Some(old(self)@), mt@, byte_size as int, now as int),
            outcome_of(o, Some(old(self)@), mt@, byte_size as int, now as int),
    {
        let ghost r0 = self@;
        let ghost c = counted(r0, mt@, byte_size as int, now as int);
        if now >= self.current_second_start && now - self.current_second_start >= ONE_SECOND_NANOS {
            self.messages_this_second = 0;
            self.bytes_this_second = 0;
            self.current_second_start = now;
        }
        self.total_messages = self.total_messages + 1;
        self.messages_this_second = self.messages_this_second + 1;
        self.total_bytes = self.total_bytes + byte_size;
        self.bytes_this_second = self.bytes_this_second + byte_size;
        self.last_message_time = now;
        let ghost mtv = mt@;
        let key = mt.clone();
        proof {
            assert(count_of(self@, mtv) == count_of(r0, mtv));
        }
        self.bump_type(mt);
        let count = self.count_for(&key);
        proof {
            assert(self@.type_counts =~= c.type_counts);
            assert(count == count_of(c, mtv));
        }
        let message_rate_exceeded = self.messages_this_second > MAX_MESSAGES_PER_SECOND;
        if message_rate_exceeded {
            self.suspicious_patterns = self.suspicious_patterns + 1;
        }
        let byte_rate_exceeded = self.bytes_this_second > MAX_BYTES_PER_SECOND;
        if byte_rate_exceeded {
            self.suspicious_patterns = self.suspicious_patterns + 1;
        }
        let repeated_type = count > REPEAT_COUNT_THRESHOLD && self.total_messages - count < REPEAT_OTHER_LIMIT;
        if repeated_type {
            self.suspicious_patterns = self.suspicious_patterns + 1;
        }
        let outcome = RecordOutcome {
            message_rate_exceeded,
            byte_rate_exceeded,
            repeated_type,
            messages_this_second: self.messages_this_second,
            bytes_this_second: self.bytes_this_second,
            type_count: count,
        };
        proof {
            let n = record_step(Some(r0), mtv, byte_size as int, now as int);
            assert(self@.type_counts =~= n.type_counts);
            assert forall|k: Seq<char>| #[trigger] self@.type_counts.contains_key(k) implies 0
                <= self@.type_counts[k] <= self@.total_messages by {
                if k != mtv {
                    assert(r0.type_counts.contains_key(k));
                }
            }
        }
        outcome
    }
}

/// Tracks per-peer metrics to detect suspicious behaviour.
pub struct PeerMetrics {
    peers: Vec<(PeerKey, PeerState)>,
}

/// Aggregate statistics across all peers.
pub struct PeerStats {
    pub total_peers: usize,
    pub suspicious_peers: usize,
    pub total_messages: u64,
    pub total_bytes: u64,
}

/// The sum of `f` over the records of an entry list.
pub open spec fn sum_over(s: Seq<(PeerKey, PeerRecord)>, f: spec_fn(PeerRecord) -> int) -> int
    decreases s.len(),
{
    if s.len() == 0 {
        0
    } else {
        sum_over(s.drop_last(), f) + f(s.last().1)
    }
}

/// Messages of a peer.
pub open spec fn messages_of(r: PeerRecord) -> int {
    r.total_messages
}

/// Bytes of a peer.
pub open spec fn bytes_of(r: PeerRecord) -> int {
    r.total_bytes
}

/// One if the peer showed a suspicious pattern, else zero.
pub open spec fn suspicious_of(r: PeerRecord) -> int {
    if r.suspicious_patterns > 0 {
        1
    } else {
        0
    }
}

/// The sum of `f` over the records of a map with finitely many peers.
pub open spec fn map_sum(m: Map<PeerKey, PeerRecord>, f: spec_fn(PeerRecord) -> int) -> int
    decreases m.dom().len(),
    when m.dom().finite()
{
    if m.dom().len() == 0 {
        0
    } else {
        let k = m.dom().choose();
        proof {
            vstd::set::axiom_set_choose_len(m.dom());
            vstd::map::axiom_map_remove_domain(m, k);
            vstd::set::axiom_set_remove_len(m.dom(), k);
        }
        f(m[k]) + map_sum(m.remove(k), f)
    }
}

/// The value `f` gives the record of `peer` in `m`, or zero if it is untracked.
pub open spec fn tracked_value(m: Map<PeerKey, PeerRecord>, peer: PeerKey, f: spec_fn(PeerRecord) -> int) -> int {
    if m.contains_key(peer) {
        f(m[peer])
    } else {
        0
    }
}

/// A map sum may take out any one of its peers first.
pub proof fn lemma_map_sum_pick(m: Map<PeerKey, PeerRecord>, k: PeerKey, f: spec_fn(PeerRecord) -> int)
    requires
        m.dom().finite(),
        m.dom().contains(k),
    ensures
        map_sum(m, f) == f(m[k]) + map_sum(m.remove(k), f),
    decreases m.dom().len(),
{
    vstd::map::axiom_map_remove_domain(m, k);
    vstd::set::axiom_set_remove_len(m.dom(), k);
    let c = m.dom().choose();
    vstd::set::axiom_set_choose_len(m.dom());
    if c != k {
        let mc = m.remove(c);
        let mk = m.remove(k);
        vstd::map::axiom_map_remove_domain(m, c);
        vstd::set::axiom_set_remove_len(m.dom(), c);
        assert(mc.dom().contains(k));
        assert(mk.dom().contains(c));
        lemma_map_sum_pick(mc, k, f);
        lemma_map_sum_pick(mk, c, f);
        assert(mc.remove(k) =~= mk.remove(c));
        assert(mc[k] == m[k]);
        assert(mk[c] == m[c]);
    }
}

/// A map sum over an empty map is zero.
pub proof fn lemma_map_sum_empty(f: spec_fn(PeerRecord) -> int)
    ensures
        map_sum(Map::<PeerKey, PeerRecord>::empty(), f) == 0,
{
    assert(Map::<PeerKey, PeerRecord>::empty().dom() =~= Set::<PeerKey>::empty());
}

/// Over a list with distinct keys, the list sum is the sum over its map.
pub proof fn lemma_sum_over_map(s: Seq<(PeerKey, PeerRecord)>, f: spec_fn(PeerRecord) -> int)
    requires
        distinct_keys(s),
    ensures
        assoc_map(s).dom().finite(),
        sum_over(s, f) == map_sum(assoc_map(s), f),
    decreases s.len(),
{
    lemma_assoc_len(s);
    if s.len() == 0 {
        assert(assoc_map(s) =~= Map::<PeerKey, PeerRecord>::empty());
        lemma_map_sum_empty(f);
    } else {
        let p = s.drop_last();
        let last = s.last();
        assert(distinct_keys(p)) by {
            assert forall|a: int, b: int|
                0 <= a < p.len() && 0 <= b < p.len() && a != b implies #[trigger] p[a].0
                != #[trigger] p[b].0 by {
                assert(p[a] == s[a]);
                assert(p[b] == s[b]);
            }
        }
        assert(!has_key(p, last.0)) by {
            if has_key(p, last.0) {
                let j = key_index(p, last.0);
                assert(p[j] == s[j]);
            }
        }
        lemma_sum_over_map(p, f);
        lemma_assoc_push(p, last.0, last.1);
        assert(p.push(last) =~= s);
        let m = assoc_map(s);
        lemma_map_sum_pick(m, last.0, f);
        assert(m.remove(last.0) =~= assoc_map(p));
    }
}

/// The sum of `g` over a finite set of peers.
pub open spec fn key_sum(d: Set<PeerKey>, g: spec_fn(PeerKey) -> int) -> int
    decreases d.len(),
    when d.finite()
{
    if d.len() == 0 {
        0
    } else {
        let k = d.choose();
        proof {
            vstd::set::axiom_set_choose_len(d);
            vstd::set::axiom_set_remove_len(d, k);
        }
        g(k) + key_sum(d.remove(k), g)
    }
}

/// A sum over the records of a map is the sum over its peers of any function
/// that agrees with it on each peer.
pub proof fn lemma_map_sum_keys(m: Map<PeerKey, PeerRecord>, f: spec_fn(PeerRecord) -> int, g: spec_fn(PeerKey) -> int)
    requires
        m.dom().finite(),
        forall|k: PeerKey| m.dom().contains(k) ==> f(m[k]) == g(k),
    ensures
        map_sum(m, f) == key_sum(m.dom(), g),
    decreases m.dom().len(),
{
    if m.dom().len() > 0 {
        let c = m.dom().choose();
        vstd::set::axiom_set_choose_len(m.dom());
        vstd::map::axiom_map_remove_domain(m, c);
        vstd::set::axiom_set_remove_len(m.dom(), c);
        let r = m.remove(c);
        assert forall|k: PeerKey| r.dom().contains(k) implies f(r[k]) == g(k) by {
            assert(r[k] == m[k]);
        }
        lemma_map_sum_keys(r, f, g);
    }
}

/// One call on a tracker: a recorded message, or the removal of a peer.
pub enum PeerOp {
    /// `record_message(peer, mt, bytes, now)`.
    Record { peer: PeerKey, mt: Seq<char>, bytes: int, now: int },
    /// `remove_peer(peer)`.
    Remove { peer: PeerKey },
}

/// The per-peer records after the calls `ops`, starting from `new()`: the
/// records that `record_message` and `remove_peer` leave, call by call.
pub open spec fn apply_ops(ops: Seq<PeerOp>) -> Map<PeerKey, PeerRecord>
    decreases ops.len(),
{
    if ops.len() == 0 {
        Map::empty()
    } else {
        let m = apply_ops(ops.drop_last());
        match ops.last() {
            PeerOp::Record { peer, mt, bytes, now } => m.insert(peer, record_step(m.get(peer), mt, bytes, now)),
            PeerOp::Remove { peer } => m.remove(peer),
        }
    }
}

/// The messages recorded for `p` in `ops` since it was last removed.
pub open spec fn msgs_since(ops: Seq<PeerOp>, p: PeerKey) -> Seq<(Seq<char>, int, int)>
    decreases ops.len(),
{
    if ops.len() == 0 {
        Seq::empty()
    } else {
        let prev = msgs_since(ops.drop_last(), p);
        match ops.last() {
            PeerOp::Record { peer, mt, bytes, now } => if peer == p {
                prev.push((mt, bytes, now))
            } else {
                prev
            },
            PeerOp::Remove { peer } => if peer == p {
                Seq::empty()
            } else {
                prev
            },
        }
    }
}

/// The peers with messages since their last removal.
pub open spec fn tracked_peers(ops: Seq<PeerOp>) -> Set<PeerKey> {
    Set::new(|p: PeerKey| msgs_since(ops, p).len() > 0)
}

/// No calls leave no records, and one more call changes the records as
/// `record_message` or `remove_peer` does.
pub proof fn law_history_step(ops: Seq<PeerOp>, op: PeerOp)
    ensures
        apply_ops(Seq::<PeerOp>::empty()) == Map::<PeerKey, PeerRecord>::empty(),
        apply_ops(ops.push(op)) == match op {
            PeerOp::Record { peer, mt, bytes, now } => apply_ops(ops).insert(
                peer,
                record_step(apply_ops(ops).get(peer), mt, bytes, now),
            ),
            PeerOp::Remove { peer } => apply_ops(ops).remove(peer),
        },
{
    assert(ops.push(op).drop_last() =~= ops);
}

/// After any calls, each peer's record is the replay of its messages since it
/// was last removed, and the tracked peers are those with such messages.
pub proof fn law_records_follow_calls(ops: Seq<PeerOp>)
    ensures
        apply_ops(ops).dom().finite(),
        apply_ops(ops).dom() == tracked_peers(ops),
        forall|p: PeerKey| #[trigger] apply_ops(ops).get(p) == replay_peer(msgs_since(ops, p)),
    decreases ops.len(),
{
    if ops.len() == 0 {
        assert(apply_ops(ops).dom() =~= Set::<PeerKey>::empty());
        assert(tracked_peers(ops) =~= Set::<PeerKey>::empty());
    } else {
        let prev = ops.drop_last();
        law_records_follow_calls(prev);
        let m = apply_ops(prev);
        assert forall|p: PeerKey| #[trigger] apply_ops(ops).get(p) == replay_peer(msgs_since(ops, p)) by {
            assert(m.get(p) == replay_peer(msgs_since(prev, p)));
            match ops.last() {
                PeerOp::Record { peer, mt, bytes, now } => {
                    if peer == p {
                        let q = msgs_since(prev, p).push((mt, bytes, now));
                        assert(q.drop_last() =~= msgs_since(prev, p));
                    }
                },
                PeerOp::Remove { peer } => {},
            }
        }
        assert forall|p: PeerKey| apply_ops(ops).dom().contains(p) == tracked_peers(ops).contains(p) by {
            lemma_replay_patterns(msgs_since(ops, p));
            assert(apply_ops(ops).get(p) == replay_peer(msgs_since(ops, p)));
        }
        assert(apply_ops(ops).dom() =~= tracked_peers(ops));
    }
}

/// After any calls, `get_stats` reports the number of tracked peers, the
/// number of messages and of bytes recorded for them since their last removal,
/// and the number of them with a message reported suspicious since then; each
/// peer with at least `DISCONNECT_THRESHOLD` such messages is due for
/// disconnection, and no peer without one is.
pub proof fn law_stats_follow_calls(ops: Seq<PeerOp>)
    ensures
        tracked_peers(ops).finite(),
        apply_ops(ops).len() == tracked_peers(ops).len(),
        map_sum(apply_ops(ops), |r: PeerRecord| messages_of(r)) == key_sum(
            tracked_peers(ops),
            |p: PeerKey| msgs_since(ops, p).len() as int,
        ),
        map_sum(apply_ops(ops), |r: PeerRecord| bytes_of(r)) == key_sum(
            tracked_peers(ops),
            |p: PeerKey| bytes_total(msgs_since(ops, p)),
        ),
        map_sum(apply_ops(ops), |r: PeerRecord| suspicious_of(r)) == key_sum(
            tracked_peers(ops),
            |p: PeerKey| if flagged_count(msgs_since(ops, p)) > 0 { 1int } else { 0int },
        ),
        forall|p: PeerKey|
            flagged_count(#[trigger] msgs_since(ops, p)) >= DISCONNECT_THRESHOLD ==> disconnect_due(
                apply_ops(ops).get(p),
            ),
        forall|p: PeerKey| flagged_count(#[trigger] msgs_since(ops, p)) == 0 ==> !disconnect_due(apply_ops(ops).get(p)),
{
    law_records_follow_calls(ops);
    let m = apply_ops(ops);
    assert forall|p: PeerKey| m.dom().contains(p) implies {
        &&& messages_of(m[p]) == msgs_since(ops, p).len()
        &&& bytes_of(m[p]) == bytes_total(msgs_since(ops, p))
        &&& suspicious_of(m[p]) == if flagged_count(msgs_since(ops, p)) > 0 { 1int } else { 0int }
    } by {
        lemma_replay_patterns(msgs_since(ops, p));
        assert(m.get(p) == replay_peer(msgs_since(ops, p)));
    }
    lemma_map_sum_keys(m, |r: PeerRecord| messages_of(r), |p: PeerKey| msgs_since(ops, p).len() as int);
    lemma_map_sum_keys(m, |r: PeerRecord| bytes_of(r), |p: PeerKey| bytes_total(msgs_since(ops, p)));
    lemma_map_sum_keys(
        m,
        |r: PeerRecord| suspicious_of(r),
        |p: PeerKey| if flagged_count(msgs_since(ops, p)) > 0 { 1int } else { 0int },
    );
    assert forall|p: PeerKey| flagged_count(#[trigger] msgs_since(ops, p)) >= DISCONNECT_THRESHOLD implies disconnect_due(
        m.get(p),
    ) by {
        law_disconnect_after_flags(msgs_since(ops, p));
        assert(m.get(p) == replay_peer(msgs_since(ops, p)));
    }
    assert forall|p: PeerKey| flagged_count(#[trigger] msgs_since(ops, p)) == 0 implies !disconnect_due(m.get(p)) by {
        law_disconnect_after_flags(msgs_since(ops, p));
        assert(m.get(p) == replay_peer(msgs_since(ops, p)));
    }
}

/// Replacing one entry changes a sum by the difference of the two values.
pub proof fn lemma_sum_update(
    s: Seq<(PeerKey, PeerRecord)>,
    i: int,
    x: (PeerKey, PeerRecord),
    f: spec_fn(PeerRecord) -> int,
)
    requires
        0 <= i < s.len(),
    ensures
        sum_over(s.update(i, x), f) == sum_over(s, f) - f(s[i].1) + f(x.1),
    decreases s.len(),
{
    let t = s.update(i, x);
    if i == s.len() - 1 {
        assert(t.drop_last() =~= s.drop_last());
    } else {
        assert(t.drop_last() =~= s.drop_last().update(i, x));
        lemma_sum_update(s.drop_last(), i, x, f);
    }
}

/// A sum of non-negative values bounded by `b` each is at most `b` times the length.
pub proof fn lemma_sum_bounded(s: Seq<(PeerKey, PeerRecord)>, f: spec_fn(PeerRecord) -> int, b: int)
    requires
        forall|i: int| 0 <= i < s.len() ==> 0 <= #[trigger] f(s[i].1) <= b,
    ensures
        0 <= sum_over(s, f) <= b * s.len(),
    decreases s.len(),
{
    if s.len() > 0 {
        let p = s.drop_last();
        assert forall|i: int| 0 <= i < p.len() implies 0 <= #[trigger] f(p[i].1) <= b by {
            assert(p[i] == s[i]);
        }
        lemma_sum_bounded(p, f, b);
        assert(f(s[s.len() - 1].1) <= b);
        assert(b * p.len() + b == b * s.len()) by (nonlinear_arith)
            requires
                p.len() + 1 == s.len(),
        ;
    }
}

impl PeerMetrics {
    /// The entries as (peer, record) pairs, in insertion order.
    pub closed spec fn entries(&self) -> Seq<(PeerKey, PeerRecord)> {
        self.peers@.map_values(|e: (PeerKey, PeerState)| (e.0, e.1@))
    }

    /// The per-peer states, as a map.
    pub open spec fn records(&self) -> Map<PeerKey, PeerRecord> {
        assoc_map(self.entries())
    }

    /// Well-formedness: distinct peers, each with a well-formed state.
    pub closed spec fn wf(&self) -> bool {
        &&& distinct_keys(self.entries())
        &&& forall|i: int| 0 <= i < self.peers@.len() ==> #[trigger] self.peers@[i].1.wf()
    }

    /// Sum of the messages of all peers.
    pub open spec fn message_sum(&self) -> int {
        map_sum(self.records(), |r: PeerRecord| messages_of(r))
    }

    /// Sum of the bytes of all peers.
    pub open spec fn byte_sum(&self) -> int {
        map_sum(self.records(), |r: PeerRecord| bytes_of(r))
    }

    /// Number of peers that showed a suspicious pattern.
    pub open spec fn suspicious_sum(&self) -> int {
        map_sum(self.records(), |r: PeerRecord| suspicious_of(r))
    }

    /// A well-formed tracker has finitely many peers, and each total is the
    /// sum over its entry list.
    proof fn lemma_sums(&self)
        requires
            self.wf(),
        ensures
            self.records().dom().finite(),
            self.message_sum() == sum_over(self.entries(), |r: PeerRecord| messages_of(r)),
            self.byte_sum() == sum_over(self.entries(), |r: PeerRecord| bytes_of(r)),
            self.suspicious_sum() == sum_over(self.entries(), |r: PeerRecord| suspicious_of(r)),
    {
        lemma_sum_over_map(self.entries(), |r: PeerRecord| messages_of(r));
        lemma_sum_over_map(self.entries(), |r: PeerRecord| bytes_of(r));
        lemma_sum_over_map(self.entries(), |r: PeerRecord| suspicious_of(r));
    }

    /// A well-formed tracker tracks finitely many peers.
    pub proof fn lemma_records_finite(&self)
        requires
            self.wf(),
        ensures
            self.records().dom().finite(),
    {
        self.lemma_sums();
    }

    /// An empty tracker.
    pub fn new() -> (m: PeerMetrics)
        ensures
            m.wf(),
            m.records() == Map::<PeerKey, PeerRecord>::empty(),
            m.message_sum() == 0,
            m.byte_sum() == 0,
            m.suspicious_sum() == 0,
    {
        let m = PeerMetrics { peers: Vec::new() };
        assert(m.entries() =~= Seq::<(PeerKey, PeerRecord)>::empty());
        assert(m.records() =~= Map::<PeerKey, PeerRecord>::empty());
        m
    }

    /// The index of `peer` in the entry list, if it is tracked.
    fn find_peer(&self, peer: PeerKey) -> (r: Option<usize>)
        requires
            self.wf(),
        ensures
            match r {
                Some(i) => i < self.peers@.len() && self.peers@[i as int].0 == peer,
                None => !self.records().contains_key(peer),
            },
    {
        let mut i: usize = 0;
        while i < self.peers.len()
            invariant
                i <= self.peers@.len(),
                forall|j: int| 0 <= j < i ==> #[trigger] self.peers@[j].0 != peer,
            decreases self.peers.len() - i,
        {
            if self.peers[i].0 == peer {
                return Some(i);
            }
            i = i + 1;
        }
        proof {
            let s = self.entries();
            if has_key(s, peer) {
                let j = key_index(s, peer);
                assert(s[j].0 == self.peers@[j].0);
            }
        }
        None
    }

    /// Whether recording a message from `peer` of type `message_type` with
    /// `byte_size` bytes at `now` keeps every counter of that peer in range.
    pub fn can_record(&self, peer: PeerKey, message_type: &str, byte_size: usize, now: u64) -> (r: bool)
        requires
            self.wf(),
        ensures
            r == record_fits(self.records().get(peer), message_type@, byte_size as int, now as int),
    {
        let mt = message_type.to_owned();
        match self.find_peer(peer) {
            Some(i) => {
                proof {
                    lemma_assoc_index(self.entries(), i as int);
                }
                self.peers[i].1.fits(&mt, byte_size as u64, now)
            },
            None => {
                let fresh = PeerState::fresh(now);
                fresh.fits(&mt, byte_size as u64, now)
            },
        }
    }

    /// Records a message received from `peer` at time `now` (nanoseconds) and
    /// reports whether it showed a suspicious pattern.
    pub fn record_message(&mut self, peer: PeerKey, message_type: &str, byte_size: usize, now: u64) -> (suspicious: bool)
        requires
            old(self).wf(),
            record_fits(old(self).records().get(peer), message_type@, byte_size as int, now as int),
        ensures
            final(self).wf(),
            final(self).records() == old(self).records().insert(
                peer,
                record_step(old(self).records().get(peer), message_type@, byte_size as int, now as int),
            ),
            suspicious == record_flags(
                old(self).records().get(peer),
                message_type@,
                byte_size as int,
                now as int,
            ),
            final(self).message_sum() == old(self).message_sum() + 1,
            final(self).byte_sum() == old(self).byte_sum() + byte_size,
            final(self).suspicious_sum() == old(self).suspicious_sum() + newly_suspicious(
                old(self).records().get(peer),
                message_type@,
                byte_size as int,
                now as int,
            ),
    {
        let o = self.record_message_outcome(peer, message_type, byte_size, now);
        o.message_rate_exceeded || o.byte_rate_exceeded || o.repeated_type
    }

    /// Records a message as `record_message` does, and reports which patterns
    /// it showed and the counters they were checked on.
    pub fn record_message_outcome(
        &mut self,
        peer: PeerKey,
        message_type: &str,
        byte_size: usize,
        now: u64,
    ) -> (o: RecordOutcome)
        requires
            old(self).wf(),
            record_fits(old(self).records().get(peer), message_type@, byte_size as int, now as int),
        ensures
            final(self).wf(),
            final(self).records() == old(self).records().insert(
                peer,
                record_step(old(self).records().get(peer), message_type@, byte_size as int, now as int),
            ),
            outcome_of(o, old(self).records().get(peer), message_type@, byte_size as int, now as int),
            final(self).message_sum() == old(self).message_sum() + 1,
            final(self).byte_sum() == old(self).byte_sum() + byte_size,
            final(self).suspicious_sum() == old(self).suspicious_sum() + newly_suspicious(
                old(self).records().get(peer),
                message_type@,
                byte_size as int,
                now as int,
            ),
    {
        let mt = message_type.to_owned();
        let ghost s0 = self.entries();
        let ghost prev = self.records().get(peer);
        proof {
            self.lemma_sums();
        }
        match self.find_peer(peer) {
            Some(i) => {
                proof {
                    lemma_assoc_index(s0, i as int);
                    assert(self.peers@[i as int].1.wf());
                }
                let (k, mut st) = self.peers.remove(i);
                let ghost st0 = st@;
                let outcome = st.record(mt, byte_size as u64, now);
                self.peers.insert(i, (k, st));
                proof {
                    let x = (peer, st@);
                    assert(self.entries() =~= s0.update(i as int, x));
                    lemma_assoc_update(s0, i as int, st@);
                    assert forall|j: int| 0 <= j < self.peers@.len() implies #[trigger] self.peers@[j].1.wf() by {
                        if j != i {
                            assert(self.peers@[j] == old(self).peers@[j]);
                        }
                    }
                    lemma_sum_update(s0, i as int, x, |r: PeerRecord| messages_of(r));
                    lemma_sum_update(s0, i as int, x, |r: PeerRecord| bytes_of(r));
                    lemma_sum_update(s0, i as int, x, |r: PeerRecord| suspicious_of(r));
                    assert(prev == Some(st0));
                    self.lemma_sums();
                }
                outcome
            },
            None => {
                let mut st = PeerState::fresh(now);
                let outcome = st.record(mt, byte_size as u64, now);
                self.peers.push((peer, st));
                proof {
                    let x = (peer, st@);
                    assert(self.entries() =~= s0.push(x));
                    lemma_assoc_push(s0, peer, st@);
                    assert(self.entries().drop_last() =~= s0);
                    assert forall|j: int| 0 <= j < self.peers@.len() implies #[trigger] self.peers@[j].1.wf() by {
                        if j < s0.len() {
                            assert(self.peers@[j] == old(self).peers@[j]);
                        }
                    }
                    assert(prev == None::<PeerRecord>);
                    self.lemma_sums();
                }
                outcome
            },
        }
    }

    /// Whether `peer` should be disconnected: it showed at least
    /// `DISCONNECT_THRESHOLD` suspicious patterns.
    pub fn should_disconnect(&self, peer: PeerKey) -> (r: bool)
        requires
            self.wf(),
        ensures
            r == disconnect_due(self.records().get(peer)),
    {
        match self.find_peer(peer) {
            Some(i) => {
                proof {
                    lemma_assoc_index(self.entries(), i as int);
                }
                self.peers[i].1.suspicious_patterns >= DISCONNECT_THRESHOLD
            },
            None => false,
        }
    }

    /// Forgets the state of a disconnected peer.
    pub fn remove_peer(&mut self, peer: PeerKey)
        requires
            old(self).wf(),
        ensures
            final(self).wf(),
            final(self).records() == old(self).records().remove(peer),
            final(self).message_sum() == old(self).message_sum() - tracked_value(
                old(self).records(),
                peer,
                |r: PeerRecord| messages_of(r),
            ),
            final(self).byte_sum() == old(self).byte_sum() - tracked_value(
                old(self).records(),
                peer,
                |r: PeerRecord| bytes_of(r),
            ),
            final(self).suspicious_sum() == old(self).suspicious_sum() - tracked_value(
                old(self).records(),
                peer,
                |r: PeerRecord| suspicious_of(r),
            ),
    {
        let ghost s0 = self.entries();
        let ghost m0 = self.records();
        proof {
            self.lemma_records_finite();
            if m0.contains_key(peer) {
                lemma_map_sum_pick(m0, peer, |r: PeerRecord| messages_of(r));
                lemma_map_sum_pick(m0, peer, |r: PeerRecord| bytes_of(r));
                lemma_map_sum_pick(m0, peer, |r: PeerRecord| suspicious_of(r));
            }
        }
        match self.find_peer(peer) {
            Some(i) => {
                let _ = self.peers.remove(i);
                proof {
                    assert(self.entries() =~= s0.remove(i as int));
                    lemma_assoc_remove(s0, i as int);
                    assert forall|j: int| 0 <= j < self.peers@.len() implies #[trigger] self.peers@[j].1.wf() by {
                        let j2 = if j < i { j } else { j + 1 };
                        assert(self.peers@[j] == old(self).peers@[j2]);
                    }
                }
            },
            None => {
                assert(self.records().remove(peer) =~= self.records());
            },
        }
    }

    /// Whether the message and byte totals over all peers fit in `u64`.
    pub open spec fn totals_fit(&self) -> bool {
        self.message_sum() <= u64::MAX && self.byte_sum() <= u64::MAX
    }

    /// Whether the message and byte totals over all peers fit in `u64`, so
    /// that `get_stats` can be called.
    pub fn totals_in_range(&self) -> (r: bool)
        requires
            self.wf(),
        ensures
            r == self.totals_fit(),
    {
        let ghost s = self.entries();
        let mut messages: u64 = 0;
        let mut bytes: u64 = 0;
        let mut i: usize = 0;
        proof {
            self.lemma_sums();
            assert(s.take(0) =~= Seq::<(PeerKey, PeerRecord)>::empty());
        }
        while i < self.peers.len()
            invariant
                s == self.entries(),
                self.wf(),
                self.message_sum() == sum_over(s, |r: PeerRecord| messages_of(r)),
                self.byte_sum() == sum_over(s, |r: PeerRecord| bytes_of(r)),
                i <= self.peers@.len(),
                messages == sum_over(s.take(i as int), |r: PeerRecord| messages_of(r)),
                bytes == sum_over(s.take(i as int), |r: PeerRecord| bytes_of(r)),
            decreases self.peers.len() - i,
        {
            let ghost t = s.take(i as int + 1);
            proof {
                assert(t.drop_last() =~= s.take(i as int));
                assert(t.last() == s[i as int]);
                assert(self.peers@[i as int].1.wf());
                lemma_sum_prefix_le(s, i as int + 1, |r: PeerRecord| messages_of(r));
                lemma_sum_prefix_le(s, i as int + 1, |r: PeerRecord| bytes_of(r));
            }
            let st = &self.peers[i].1;
            match messages.checked_add(st.total_messages) {
                Some(x) => {
                    messages = x;
                },
                None => {
                    return false;
                },
            }
            match bytes.checked_add(st.total_bytes) {
                Some(x) => {
                    bytes = x;
                },
                None => {
                    return false;
                },
            }
            i = i + 1;
        }
        proof {
            assert(s.take(i as int) =~= s);
        }
        true
    }

    /// Statistics over all peers.
    pub fn get_stats(&self) -> (st: PeerStats)
        requires
            self.wf(),
            self.totals_fit(),
        ensures
            self.records().dom().finite(),
            st.total_peers == self.records().len(),
            st.suspicious_peers == self.suspicious_sum(),
            st.total_messages == self.message_sum(),
            st.total_bytes == self.byte_sum(),
    {
        let ghost s = self.entries();
        let mut suspicious: usize = 0;
        let mut messages: u64 = 0;
        let mut bytes: u64 = 0;
        let mut i: usize = 0;
        proof {
            self.lemma_sums();
            lemma_assoc_len(s);
            assert(s.take(0) =~= Seq::<(PeerKey, PeerRecord)>::empty());
        }
        while i < self.peers.len()
            invariant
                s == self.entries(),
                self.wf(),
                self.message_sum() == sum_over(s, |r: PeerRecord| messages_of(r)),
                self.byte_sum() == sum_over(s, |r: PeerRecord| bytes_of(r)),
                self.suspicious_sum() == sum_over(s, |r: PeerRecord| suspicious_of(r)),
                self.totals_fit(),
                i <= self.peers@.len(),
                suspicious == sum_over(s.take(i as int), |r: PeerRecord| suspicious_of(r)),
                messages == sum_over(s.take(i as int), |r: PeerRecord| messages_of(r)),
                bytes == sum_over(s.take(i as int), |r: PeerRecord| bytes_of(r)),
            decreases self.peers.len() - i,
        {
            let ghost t = s.take(i as int + 1);
            proof {
                assert(t.drop_last() =~= s.take(i as int));
                assert(t.last() == s[i as int]);
                lemma_sum_prefix_le(s, i as int + 1, |r: PeerRecord| messages_of(r));
                lemma_sum_prefix_le(s, i as int + 1, |r: PeerRecord| bytes_of(r));
                lemma_sum_bounded(t, |r: PeerRecord| suspicious_of(r), 1);
                assert(self.peers@[i as int].1.wf());
            }
            let st = &self.peers[i].1;
            if st.suspicious_patterns > 0 {
                suspicious = suspicious + 1;
            }
            messages = messages + st.total_messages;
            bytes = bytes + st.total_bytes;
            i = i + 1;
        }
        proof {
            assert(s.take(i as int) =~= s);
        }
        PeerStats {
            total_peers: self.peers.len(),
            suspicious_peers: suspicious,
            total_messages: messages,
            total_bytes: bytes,
        }
    }
}

/// A prefix sum of non-negative values is at most the whole sum.
pub proof fn lemma_sum_prefix_le(s: Seq<(PeerKey, PeerRecord)>, n: int, f: spec_fn(PeerRecord) -> int)
    requires
        0 <= n <= s.len(),
        forall|i: int| 0 <= i < s.len() ==> 0 <= #[trigger] f(s[i].1),
    ensures
        0 <= sum_over(s.take(n), f) <= sum_over(s, f),
    decreases s.len(),
{
    if n == s.len() {
        assert(s.take(n) =~= s);
        lemma_sum_bounded_below(s, f);
    } else {
        let p = s.drop_last();
        assert forall|i: int| 0 <= i < p.len() implies 0 <= #[trigger] f(p[i].1) by {
            assert(p[i] == s[i]);
        }
        lemma_sum_prefix_le(p, n, f);
        assert(p.take(n) =~= s.take(n));
        assert(f(s[s.len() - 1].1) >= 0);
    }
}

/// A sum of non-negative values is non-negative.
proof fn lemma_sum_bounded_below(s: Seq<(PeerKey, PeerRecord)>, f: spec_fn(PeerRecord) -> int)
    requires
        forall|i: int| 0 <= i < s.len() ==> 0 <= #[trigger] f(s[i].1),
    ensures
        0 <= sum_over(s, f),
    decreases s.len(),
{
    if s.len() > 0 {
        let p = s.drop_last();
        assert forall|i: int| 0 <= i < p.len() implies 0 <= #[trigger] f(p[i].1) by {
            assert(p[i] == s[i]);
        }
        lemma_sum_bounded_below(p, f);
        assert(f(s[s.len() - 1].1) >= 0);
    }
}

} // verus!
