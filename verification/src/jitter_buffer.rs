//! Jitter buffer: ordered buffering of packets keyed by sequence number,
//! with a priming phase, duplicate suppression, late-packet rejection, and
//! in-order release.
//!
//! Entries are kept sorted by forward distance from the next expected
//! sequence, so the head is always the oldest buffered packet and the next
//! expected packet, when present, is at the head.  Time is a millisecond
//! count supplied by the caller.

use vstd::prelude::*;

use crate::rtp::PacketModel;
use crate::rtp::RtpPacket;
use crate::sequence::distance_forward;
use crate::sequence::lemma_dist_next;
use crate::sequence::seq_dist;
use crate::sequence::seq_is_late;
use crate::sequence::seq_next;
use crate::stats::elapsed_ms;

verus! {

/// Jitter buffer configuration.
#[derive(Debug, Clone)]
pub struct JitterBufferConfig {
    /// Buffer depth in milliseconds: how long the buffer withholds playout
    /// after the first packet arrives.
    pub depth_ms: u32,
    /// Maximum packets to buffer; on overflow the oldest entry is dropped.
    pub max_packets: usize,
}

impl Default for JitterBufferConfig {
    /// 60 ms of depth (three 20 ms frames) and a 100-packet safety limit.
    fn default() -> (c: Self)
        ensures
            c.depth_ms == 60,
            c.max_packets == 100,
    {
        Self { depth_ms: 60, max_packets: 100 }
    }
}

/// A buffered packet with its arrival time.
#[derive(Debug, Clone)]
struct BufferedPacket {
    packet: RtpPacket,
    arrival_ms: u64,
}

/// Ghost record of one buffered packet.
pub struct EntryModel {
    pub packet: PacketModel,
    pub arrival_ms: u64,
}

/// What `insert` did with a packet.
#[derive(Debug, Clone, Copy, PartialEq, Eq, Structural)]
pub enum InsertOutcome {
    /// The packet was buffered.
    Inserted,
    /// A packet with the same sequence is already buffered; discarded.
    Duplicate,
    /// The sequence lies behind the next expected one; discarded.
    Late,
    /// The packet was buffered and the oldest entry was dropped to stay
    /// within `max_packets`.
    Overflowed,
}

/// Current buffer status for observability.
#[derive(Debug, Clone)]
pub struct JitterBufferStatus {
    pub buffered_packets: usize,
    pub is_primed: bool,
    pub next_sequence: Option<u16>,
}

/// Where an entry sorts among `entries` held in ring order from `next`:
/// before the first entry that lies further forward than it.
pub open spec fn ring_insert(entries: Seq<EntryModel>, next: u16, e: EntryModel) -> Seq<EntryModel>
    decreases entries.len(),
{
    if entries.len() == 0 {
        seq![e]
    } else if seq_dist(next, e.packet.sequence) < seq_dist(next, entries[0].packet.sequence) {
        seq![e] + entries
    } else {
        seq![entries[0]] + ring_insert(entries.drop_first(), next, e)
    }
}

/// Jitter buffer for packet reordering and playout smoothing.
pub struct JitterBuffer {
    config: JitterBufferConfig,
    buffer: Vec<BufferedPacket>,
    next_sequence: Option<u16>,
    start_time_ms: Option<u64>,
    is_primed: bool,
}

impl JitterBuffer {
    /// The buffered entries, oldest (smallest forward distance) first.
    pub closed spec fn entries(self) -> Seq<EntryModel> {
        self.buffer@.map_values(
            |bp: BufferedPacket| EntryModel { packet: bp.packet@, arrival_ms: bp.arrival_ms },
        )
    }

    /// The next sequence to release, once set by the first insert.
    pub closed spec fn next_seq(self) -> Option<u16> {
        self.next_sequence
    }

    /// When the first packet arrived, in milliseconds.
    pub closed spec fn start_ms(self) -> Option<u64> {
        self.start_time_ms
    }

    /// Whether the priming phase is over.
    pub closed spec fn primed(self) -> bool {
        self.is_primed
    }

    /// Configured buffer depth in milliseconds.
    pub closed spec fn depth_ms(self) -> u32 {
        self.config.depth_ms
    }

    /// Configured packet capacity.
    pub closed spec fn max_packets(self) -> usize {
        self.config.max_packets
    }

    /// The buffered sequence numbers, in release order.
    pub open spec fn seqs(self) -> Seq<u16> {
        self.entries().map_values(|e: EntryModel| e.packet.sequence)
    }

    /// Whether some buffered entry carries sequence `s`.
    pub open spec fn contains_seq(self, s: u16) -> bool {
        exists|i: int| 0 <= i < self.entries().len() && self.entries()[i].packet.sequence == s
    }

    /// Well-formedness: the clock anchor and the release cursor are set
    /// together; a non-empty or primed buffer has a cursor; the buffer is
    /// within its capacity; and entries are strictly sorted by forward
    /// distance from the cursor, all within the forward half-ring.
    pub open spec fn wf(self) -> bool {
        &&& self.next_seq().is_some() == self.start_ms().is_some()
        &&& (self.entries().len() > 0 ==> self.next_seq().is_some())
        &&& (self.primed() ==> self.next_seq().is_some())
        &&& self.entries().len() <= self.max_packets()
        &&& (self.next_seq().is_some() ==> {
            let n = self.next_seq().unwrap();
            &&& (forall|i: int|
                0 <= i < self.entries().len() ==> seq_dist(
                    n,
                    #[trigger] self.entries()[i].packet.sequence,
                ) <= 32768)
            &&& (forall|i: int, j: int|
                0 <= i < j < self.entries().len() ==> seq_dist(
                    n,
                    #[trigger] self.entries()[i].packet.sequence,
                ) < seq_dist(n, #[trigger] self.entries()[j].packet.sequence))
        })
    }

    /// Priming ends once the configured depth has elapsed since the first
    /// arrival, or as soon as three packets are waiting.
    pub open spec fn should_start_spec(self, now_ms: u64) -> bool {
        &&& self.entries().len() > 0
        &&& self.start_ms().is_some()
        &&& {
            elapsed_ms(self.start_ms().unwrap(), now_ms) >= self.depth_ms()
                || self.entries().len() >= 3
        }
    }

    /// Creates a new, empty, unprimed jitter buffer.
    pub fn new(config: JitterBufferConfig) -> (b: Self)
        ensures
            b.wf(),
            b.entries().len() == 0,
            b.next_seq() is None,
            b.start_ms() is None,
            !b.primed(),
            b.depth_ms() == config.depth_ms,
            b.max_packets() == config.max_packets,
    {
        Self {
            config,
            buffer: Vec::new(),
            next_sequence: None,
            start_time_ms: None,
            is_primed: false,
        }
    }

    /// Returns current buffer status.
    pub fn status(&self) -> (st: JitterBufferStatus)
        ensures
            st.buffered_packets == self.entries().len(),
            st.is_primed == self.primed(),
            st.next_sequence == self.next_seq(),
    {
        JitterBufferStatus {
            buffered_packets: self.buffer.len(),
            is_primed: self.is_primed,
            next_sequence: self.next_sequence,
        }
    }

    /// Whether the given sequence arrived out of the expected order: true
    /// iff a release cursor exists and the sequence is not the expected one.
    pub fn was_reordered(&self, sequence: u16) -> (r: bool)
        ensures
            r == (self.next_seq().is_some() && sequence != self.next_seq().unwrap()),
    {
        match self.next_sequence {
            Some(next_seq) => sequence != next_seq,
            None => false,
        }
    }

    /// Whether a packet is too late for playout: its sequence lies in the
    /// half-ring behind the next expected sequence.  The first packet is
    /// never late.
    pub fn is_late(&self, packet: &RtpPacket) -> (r: bool)
        ensures
            r == (self.next_seq().is_some() && seq_is_late(
                self.next_seq().unwrap(),
                packet@.sequence,
            )),
    {
        match self.next_sequence {
            Some(next_seq) => distance_forward(next_seq, packet.sequence) > 32768,
            None => false,
        }
    }

    /// Whether the priming phase should end at `now_ms`.
    pub fn should_start_playout(&self, now_ms: u64) -> (r: bool)
        ensures
            r == self.should_start_spec(now_ms),
    {
        if self.buffer.len() == 0 {
            return false;
        }
        let start: u64 = match self.start_time_ms {
            Some(s) => s,
            None => { return false; },
        };
        let elapsed: u64 = if now_ms >= start {
            now_ms - start
        } else {
            0
        };
        elapsed >= self.config.depth_ms as u64 || self.buffer.len() >= 3
    }
}

/// `ring_insert` places an entry exactly at the position its forward
/// distance dictates.
proof fn lemma_ring_insert_at(entries: Seq<EntryModel>, next: u16, e: EntryModel, pos: int)
    requires
        0 <= pos <= entries.len(),
        forall|j: int|
            0 <= j < pos ==> seq_dist(next, #[trigger] entries[j].packet.sequence) < seq_dist(
                next,
                e.packet.sequence,
            ),
        pos < entries.len() ==> seq_dist(next, entries[pos].packet.sequence) > seq_dist(
            next,
            e.packet.sequence,
        ),
    ensures
        ring_insert(entries, next, e) == entries.insert(pos, e),
    decreases entries.len(),
{
    if entries.len() == 0 {
        assert(ring_insert(entries, next, e) =~= entries.insert(0, e));
    } else if pos == 0 {
        assert(seq![e] + entries =~= entries.insert(0, e));
    } else {
        lemma_ring_insert_at(entries.drop_first(), next, e, pos - 1);
        assert(seq![entries[0]] + entries.drop_first().insert(pos - 1, e) =~= entries.insert(
            pos,
            e,
        ));
    }
}

/// Overflow preserves freshness: a packet strictly fresher than everything
/// buffered sorts to the tail, so dropping the head on overflow keeps
/// exactly the most recent entries.
pub proof fn lemma_ring_insert_freshest(entries: Seq<EntryModel>, next: u16, e: EntryModel)
    requires
        forall|i: int|
            0 <= i < entries.len() ==> seq_dist(next, #[trigger] entries[i].packet.sequence)
                < seq_dist(next, e.packet.sequence),
    ensures
        ring_insert(entries, next, e) == entries.push(e),
{
    lemma_ring_insert_at(entries, next, e, entries.len() as int);
    assert(entries.insert(entries.len() as int, e) =~= entries.push(e));
}

/// What `insert` does: how `pre` becomes `post` when a packet `p` arrives at
/// `now_ms` with outcome `r`.  The first packet sets the release cursor and
/// the clock anchor; late and duplicate packets leave the buffer unchanged;
/// anything else lands at its ring-order position, and when that exceeds the
/// capacity the oldest entry is dropped.
pub open spec fn insert_post(
    pre: JitterBuffer,
    post: JitterBuffer,
    p: PacketModel,
    now_ms: u64,
    r: InsertOutcome,
) -> bool {
    let eff_next = if pre.next_seq().is_some() {
        pre.next_seq().unwrap()
    } else {
        p.sequence
    };
    let late = pre.next_seq().is_some() && seq_is_late(pre.next_seq().unwrap(), p.sequence);
    let dup = !late && pre.contains_seq(p.sequence);
    let grown = ring_insert(pre.entries(), eff_next, EntryModel { packet: p, arrival_ms: now_ms });
    &&& post.primed() == pre.primed()
    &&& post.depth_ms() == pre.depth_ms()
    &&& post.max_packets() == pre.max_packets()
    &&& post.next_seq() == Some(eff_next)
    &&& post.start_ms() == if pre.start_ms().is_some() {
        pre.start_ms()
    } else {
        Some(now_ms)
    }
    &&& (r == InsertOutcome::Late <==> late)
    &&& (r == InsertOutcome::Duplicate <==> dup)
    &&& ((late || dup) ==> post.entries() == pre.entries())
    &&& (!late && !dup ==> {
        &&& (r == InsertOutcome::Overflowed <==> grown.len() > pre.max_packets())
        &&& (r == InsertOutcome::Inserted <==> grown.len() <= pre.max_packets())
        &&& post.entries() == if grown.len() > pre.max_packets() {
            grown.drop_first()
        } else {
            grown
        }
    })
}

/// What `get_next` does: priming may end at `now_ms`; once primed, the head
/// entry is released iff it carries the next expected sequence, and the
/// cursor advances by one.
pub open spec fn pop_post(
    pre: JitterBuffer,
    post: JitterBuffer,
    now_ms: u64,
    r: Option<(RtpPacket, u64)>,
) -> bool {
    let starting = pre.primed() || pre.should_start_spec(now_ms);
    &&& post.depth_ms() == pre.depth_ms()
    &&& post.max_packets() == pre.max_packets()
    &&& post.start_ms() == pre.start_ms()
    &&& post.primed() == starting
    &&& (!starting ==> r is None && post.entries() == pre.entries() && post.next_seq()
        == pre.next_seq())
    &&& (starting ==> {
        if pre.entries().len() > 0 && pre.entries()[0].packet.sequence
            == pre.next_seq().unwrap() {
            &&& r is Some
            &&& (r matches Some(pr) ==> pr.0@ == pre.entries()[0].packet && pr.1 == elapsed_ms(
                pre.entries()[0].arrival_ms,
                now_ms,
            ))
            &&& post.entries() == pre.entries().drop_first()
            &&& post.next_seq() == Some(seq_next(pre.next_seq().unwrap()))
        } else {
            &&& r is None
            &&& post.entries() == pre.entries()
            &&& post.next_seq() == pre.next_seq()
        }
    })
}

impl JitterBuffer {
    /// Inserts a packet that arrived at `now_ms`.
    ///
    /// The first packet initializes the release cursor and anchors the
    /// priming clock.  A packet behind the cursor is rejected as `Late`; one
    /// whose sequence is already buffered as `Duplicate`.  Everything else
    /// is stored at its ring-order position; if the buffer then exceeds
    /// `max_packets`, the oldest entry is dropped and the outcome is
    /// `Overflowed`.
    #[verifier::loop_isolation(false)]
    #[verifier::rlimit(60)]
    pub fn insert(&mut self, packet: RtpPacket, now_ms: u64) -> (r: InsertOutcome)
        requires
            old(self).wf(),
        ensures
            final(self).wf(),
            insert_post(*old(self), *final(self), packet@, now_ms, r),
    {
        if self.next_sequence.is_none() {
            self.next_sequence = Some(packet.sequence);
            self.start_time_ms = Some(now_ms);
        }
        let next: u16 = self.next_sequence.unwrap();

        // Reject packets behind the release cursor.
        if distance_forward(next, packet.sequence) > 32768 {
            return InsertOutcome::Late;
        }

        // Reject sequences that are already buffered.
        let ghost e = EntryModel { packet: packet@, arrival_ms: now_ms };
        let mut i: usize = 0;
        let mut dup: bool = false;
        while i < self.buffer.len()
            invariant
                i <= self.buffer.len(),
                !dup ==> forall|j: int|
                    0 <= j < i ==> (#[trigger] self.entries()[j]).packet.sequence
                        != packet@.sequence,
                dup ==> self.contains_seq(packet@.sequence),
            decreases self.buffer.len() - i,
        {
            if self.buffer[i].packet.sequence == packet.sequence {
                dup = true;
                proof {
                    assert(self.entries()[i as int].packet.sequence == packet@.sequence);
                }
            }
            i += 1;
        }
        if dup {
            return InsertOutcome::Duplicate;
        }

        // Find the unique ring-order position.
        let key_new: u16 = distance_forward(next, packet.sequence);
        let mut pos: usize = 0;
        while pos < self.buffer.len() && distance_forward(
            next,
            self.buffer[pos].packet.sequence,
        ) < key_new
            invariant
                pos <= self.buffer.len(),
                forall|j: int|
                    0 <= j < pos ==> seq_dist(next, #[trigger] self.entries()[j].packet.sequence)
                        < key_new,
            decreases self.buffer.len() - pos,
        {
            pos += 1;
        }

        proof {
            // The entry at `pos`, if any, lies strictly further forward:
            // equal distance would mean an equal sequence, excluded above.
            if pos < self.entries().len() {
                assert(self.entries()[pos as int].packet.sequence != packet@.sequence);
                assert(seq_dist(next, self.entries()[pos as int].packet.sequence) > seq_dist(
                    next,
                    packet@.sequence,
                ));
            }
            lemma_ring_insert_at(self.entries(), next, e, pos as int);
        }
        let ghost pre_entries = self.entries();
        let ghost grown = ring_insert(pre_entries, next, e);

        self.buffer.insert(pos, BufferedPacket { packet, arrival_ms: now_ms });
        proof {
            assert(self.entries() =~= pre_entries.insert(pos as int, e));
            // The grown buffer is still strictly sorted within the half-ring.
            assert forall|a: int, b: int|
                0 <= a < b < self.entries().len() implies seq_dist(
                next,
                #[trigger] self.entries()[a].packet.sequence,
            ) < seq_dist(next, #[trigger] self.entries()[b].packet.sequence) by {
                if a < pos && b >= pos + 1 {
                    assert(seq_dist(next, pre_entries[a].packet.sequence) < key_new);
                }
            }
        }

        if self.buffer.len() > self.config.max_packets {
            // Over capacity: drop the entry with the smallest forward
            // distance — the oldest — to preserve freshness.
            self.buffer.remove(0);
            proof {
                assert(self.entries() =~= grown.drop_first());
            }
            return InsertOutcome::Overflowed;
        }
        InsertOutcome::Inserted
    }

    /// Retrieves the next packet ready for playout at `now_ms`, together
    /// with how long it waited in the buffer.
    ///
    /// While priming, returns `None` until the depth has elapsed or three
    /// packets are buffered; priming ends exactly once.  Once primed,
    /// returns the head entry iff it carries the next expected sequence,
    /// advancing the cursor by one; gaps are never skipped here.
    pub fn get_next(&mut self, now_ms: u64) -> (r: Option<(RtpPacket, u64)>)
        requires
            old(self).wf(),
        ensures
            final(self).wf(),
            pop_post(*old(self), *final(self), now_ms, r),
    {
        if !self.is_primed {
            if self.should_start_playout(now_ms) {
                self.is_primed = true;
            } else {
                return None;
            }
        }
        let next: u16 = match self.next_sequence {
            Some(s) => s,
            None => {
                proof {
                    // Primed buffers always have a cursor.
                    assert(false);
                }
                return None;
            },
        };
        if self.buffer.len() > 0 {
            let head_matches: bool = self.buffer[0].packet.sequence == next;
            if head_matches {
                let ghost pre_entries = self.entries();
                let bp = self.buffer.remove(0);
                self.next_sequence = Some(next.wrapping_add(1));
                let delay: u64 = if now_ms >= bp.arrival_ms {
                    now_ms - bp.arrival_ms
                } else {
                    0
                };
                proof {
                    assert(self.entries() =~= pre_entries.drop_first());
                    // Advancing the cursor shortens every remaining distance
                    // by one, so order and the half-ring bound are kept.
                    assert forall|i: int| 0 <= i < self.entries().len() implies seq_dist(
                        seq_next(next),
                        #[trigger] self.entries()[i].packet.sequence,
                    ) == seq_dist(next, self.entries()[i].packet.sequence) - 1 by {
                        assert(seq_dist(next, pre_entries[0].packet.sequence) == 0);
                        assert(seq_dist(next, pre_entries[i + 1].packet.sequence) >= 1);
                        lemma_dist_next(next, self.entries()[i].packet.sequence);
                    }
                }
                return Some((bp.packet, delay));
            }
        }
        None
    }
}

/// Overflow preserves freshness: when the buffer is full and a packet
/// arrives that lies further forward than everything buffered — the next
/// step of an in-order stream — the insertion overflows, exactly the oldest
/// entry leaves, and the buffer keeps the most recent `max_packets`
/// sequences.
pub proof fn lemma_overflow_preserves_freshness(
    pre: JitterBuffer,
    post: JitterBuffer,
    p: PacketModel,
    now_ms: u64,
    r: InsertOutcome,
)
    requires
        pre.wf(),
        pre.next_seq().is_some(),
        insert_post(pre, post, p, now_ms, r),
        pre.entries().len() == pre.max_packets(),
        pre.max_packets() >= 1,
        forall|i: int|
            0 <= i < pre.entries().len() ==> seq_dist(
                pre.next_seq().unwrap(),
                #[trigger] pre.entries()[i].packet.sequence,
            ) < seq_dist(pre.next_seq().unwrap(), p.sequence),
        !seq_is_late(pre.next_seq().unwrap(), p.sequence),
    ensures
        r == InsertOutcome::Overflowed,
        post.seqs() == pre.seqs().drop_first().push(p.sequence),
{
    let n = pre.next_seq().unwrap();
    let e = EntryModel { packet: p, arrival_ms: now_ms };
    assert(!pre.contains_seq(p.sequence)) by {
        if pre.contains_seq(p.sequence) {
            let i = choose|i: int|
                0 <= i < pre.entries().len() && pre.entries()[i].packet.sequence == p.sequence;
            assert(seq_dist(n, pre.entries()[i].packet.sequence) < seq_dist(n, p.sequence));
        }
    }
    lemma_ring_insert_freshest(pre.entries(), n, e);
    assert(post.entries() =~= pre.entries().drop_first().push(e));
    assert(post.seqs() =~= pre.seqs().drop_first().push(p.sequence));
}

/// The sequence numbers a run of packets carries.
pub open spec fn packet_seqs(packets: Seq<PacketModel>) -> Seq<u16> {
    Seq::new(packets.len(), |k: int| packets[k].sequence)
}

/// Overflow preserves freshness, over a whole stream: insert any run of
/// distinct, ever-fresher, non-late packets into a fresh buffer — `states`
/// is the chain of buffer states, linked pairwise by what `insert`
/// guarantees — and the buffer ends up holding exactly the most recent
/// `max_packets` of them, in arrival order.
pub proof fn lemma_forward_inserts_keep_freshest(
    states: Seq<JitterBuffer>,
    packets: Seq<PacketModel>,
    times: Seq<u64>,
    outcomes: Seq<InsertOutcome>,
)
    requires
        states.len() == packets.len() + 1,
        times.len() == packets.len(),
        outcomes.len() == packets.len(),
        packets.len() >= 1,
        states[0].entries().len() == 0,
        states[0].next_seq() is None,
        states[0].start_ms() is None,
        states[0].max_packets() >= 1,
        forall|k: int|
            0 <= k < packets.len() ==> insert_post(
                states[k],
                #[trigger] states[k + 1],
                packets[k],
                times[k],
                outcomes[k],
            ),
        forall|k1: int, k2: int|
            0 <= k1 < k2 < packets.len() ==> seq_dist(
                packets[0].sequence,
                #[trigger] packets[k1].sequence,
            ) < seq_dist(packets[0].sequence, #[trigger] packets[k2].sequence),
        forall|k: int|
            0 <= k < packets.len() ==> seq_dist(
                packets[0].sequence,
                #[trigger] packets[k].sequence,
            ) <= 32768,
    ensures
        states.last().next_seq() == Some(packets[0].sequence),
        states.last().max_packets() == states[0].max_packets(),
        states.last().seqs() == packet_seqs(packets).skip(
            if packets.len() <= states[0].max_packets() {
                0
            } else {
                packets.len() - states[0].max_packets()
            },
        ),
    decreases packets.len(),
{
    let n = packets.len() as int;
    let p0 = packets[0].sequence;
    let max = states[0].max_packets() as int;
    if n == 1 {
        // The first packet sets the cursor to itself and is stored alone.
        let z: int = 0;
        assert(insert_post(states[z], states[z + 1], packets[z], times[z], outcomes[z]));
        let e = EntryModel { packet: packets[0], arrival_ms: times[0] };
        assert(ring_insert(states[0].entries(), p0, e) =~= seq![e]);
        assert(states[1].entries() == seq![e]);
        assert(states[1].seqs() =~= packet_seqs(packets).skip(0));
    } else {
        let prev_states = states.drop_last();
        let prev_packets = packets.drop_last();
        let prev_times = times.drop_last();
        let prev_outcomes = outcomes.drop_last();
        assert(prev_packets[0] == packets[0]);
        assert forall|k: int| 0 <= k < prev_packets.len() implies insert_post(
            prev_states[k],
            #[trigger] prev_states[k + 1],
            prev_packets[k],
            prev_times[k],
            prev_outcomes[k],
        ) by {
            assert(prev_states[k] == states[k] && prev_states[k + 1] == states[k + 1]);
            assert(prev_packets[k] == packets[k]);
            assert(prev_times[k] == times[k] && prev_outcomes[k] == outcomes[k]);
        }
        lemma_forward_inserts_keep_freshest(prev_states, prev_packets, prev_times, prev_outcomes);

        let pre = states[n - 1];
        let post = states[n];
        let p = packets[n - 1];
        let start = if n - 1 <= max {
            0int
        } else {
            n - 1 - max
        };
        assert(pre == prev_states.last());
        assert(pre.seqs() == packet_seqs(prev_packets).skip(start));
        assert(pre.next_seq() == Some(p0));
        // Every buffered sequence is an earlier packet's, so it lies
        // strictly behind the new one: the packet is neither late nor a
        // duplicate, and sorts to the tail.
        assert forall|i: int| 0 <= i < pre.entries().len() implies seq_dist(
            p0,
            #[trigger] pre.entries()[i].packet.sequence,
        ) < seq_dist(p0, p.sequence) by {
            assert(pre.seqs()[i] == pre.entries()[i].packet.sequence);
            assert(pre.seqs()[i] == packet_seqs(prev_packets)[start + i]);
            assert(packet_seqs(prev_packets)[start + i] == packets[start + i].sequence);
        }
        assert(!pre.contains_seq(p.sequence)) by {
            if pre.contains_seq(p.sequence) {
                let i = choose|i: int|
                    0 <= i < pre.entries().len() && pre.entries()[i].packet.sequence == p.sequence;
                assert(seq_dist(p0, pre.entries()[i].packet.sequence) < seq_dist(p0, p.sequence));
            }
        }
        assert(!seq_is_late(p0, p.sequence)) by {
            if n - 1 == 0 {
            } else {
                assert(seq_dist(p0, packets[n - 1].sequence) <= 32768);
            }
        }
        assert(insert_post(states[n - 1], states[n - 1 + 1], packets[n - 1], times[n - 1],
            outcomes[n - 1]));
        assert(insert_post(pre, post, p, times[n - 1], outcomes[n - 1]));
        let e = EntryModel { packet: p, arrival_ms: times[n - 1] };
        lemma_ring_insert_freshest(pre.entries(), p0, e);
        let grown = pre.entries().push(e);
        assert(grown.len() == pre.entries().len() + 1);
        if grown.len() > max {
            // The oldest buffered packet leaves; the window slides by one.
            assert(post.entries() == grown.drop_first());
            assert(pre.entries().len() == max);
            assert(n - 1 >= max);
            assert(start == n - 1 - max);
            assert forall|i: int| 0 <= i < post.seqs().len() implies post.seqs()[i]
                == packet_seqs(packets).skip(n - max)[i] by {
                assert(post.seqs()[i] == post.entries()[i].packet.sequence);
                assert(post.entries()[i] == grown[i + 1]);
                if i + 1 < max {
                    assert(grown[i + 1] == pre.entries()[i + 1]);
                    assert(pre.seqs()[i + 1] == pre.entries()[i + 1].packet.sequence);
                    assert(pre.seqs()[i + 1] == packet_seqs(prev_packets)[start + i + 1]);
                    assert(packet_seqs(prev_packets)[start + i + 1] == packets[start + i
                        + 1].sequence);
                } else {
                    assert(grown[i + 1] == e);
                }
            }
            assert(post.seqs().len() == max);
            assert(post.seqs() =~= packet_seqs(packets).skip(n - max));
        } else {
            assert(post.entries() == grown);
            assert(n <= max);
            assert(start == 0);
            assert forall|i: int| 0 <= i < post.seqs().len() implies post.seqs()[i]
                == packet_seqs(packets).skip(0)[i] by {
                assert(post.seqs()[i] == post.entries()[i].packet.sequence);
                if i < n - 1 {
                    assert(post.entries()[i] == pre.entries()[i]);
                    assert(pre.seqs()[i] == pre.entries()[i].packet.sequence);
                    assert(pre.seqs()[i] == packet_seqs(prev_packets)[i]);
                    assert(packet_seqs(prev_packets)[i] == packets[i].sequence);
                } else {
                    assert(post.entries()[i] == e);
                }
            }
            assert(post.seqs().len() == n);
            assert(post.seqs() =~= packet_seqs(packets).skip(0));
        }
    }
}

/// A sequence of sequence numbers in strict ring order from `next`.
pub open spec fn ring_sorted(s: Seq<u16>, next: u16) -> bool {
    forall|i: int, j: int|
        0 <= i < j < s.len() ==> seq_dist(next, #[trigger] s[i]) < seq_dist(next, #[trigger] s[j])
}

/// Strict ring order admits only one arrangement of a given set of
/// sequences.
proof fn lemma_ring_sorted_unique(a: Seq<u16>, b: Seq<u16>, next: u16)
    requires
        ring_sorted(a, next),
        ring_sorted(b, next),
        forall|s: u16| a.contains(s) <==> b.contains(s),
    ensures
        a == b,
    decreases a.len(),
{
    if a.len() == 0 {
        if b.len() > 0 {
            assert(b.contains(b[0]));
            assert(a.contains(b[0]));
            assert(false);
        }
        assert(a =~= b);
    } else {
        assert(a.contains(a[0]));
        assert(b.contains(a[0]));
        let i = choose|i: int| 0 <= i < b.len() && b[i] == a[0];
        assert(b.contains(b[0]));
        assert(a.contains(b[0]));
        let j = choose|j: int| 0 <= j < a.len() && a[j] == b[0];
        // The head is the unique minimum on both sides, so the heads agree.
        if i > 0 {
            assert(seq_dist(next, b[0]) < seq_dist(next, b[i]));
        }
        if j > 0 {
            assert(seq_dist(next, a[0]) < seq_dist(next, a[j]));
        }
        assert(a[0] == b[0]);
        let at = a.drop_first();
        let bt = b.drop_first();
        // The head cannot recur, so the tails hold the same sequences.
        assert forall|s: u16| at.contains(s) <==> bt.contains(s) by {
            if at.contains(s) {
                let k = choose|k: int| 0 <= k < at.len() && at[k] == s;
                assert(a[k + 1] == s);
                assert(seq_dist(next, a[0]) < seq_dist(next, a[k + 1]));
                assert(b.contains(s));
                let m = choose|m: int| 0 <= m < b.len() && b[m] == s;
                assert(m > 0);
                assert(bt[m - 1] == s);
            }
            if bt.contains(s) {
                let k = choose|k: int| 0 <= k < bt.len() && bt[k] == s;
                assert(b[k + 1] == s);
                assert(seq_dist(next, b[0]) < seq_dist(next, b[k + 1]));
                assert(a.contains(s));
                let m = choose|m: int| 0 <= m < a.len() && a[m] == s;
                assert(m > 0);
                assert(at[m - 1] == s);
            }
        }
        assert(ring_sorted(at, next)) by {
            assert forall|p: int, q: int|
                0 <= p < q < at.len() implies seq_dist(next, #[trigger] at[p]) < seq_dist(
                next,
                #[trigger] at[q],
            ) by {
                assert(at[p] == a[p + 1] && at[q] == a[q + 1]);
            }
        }
        assert(ring_sorted(bt, next)) by {
            assert forall|p: int, q: int|
                0 <= p < q < bt.len() implies seq_dist(next, #[trigger] bt[p]) < seq_dist(
                next,
                #[trigger] bt[q],
            ) by {
                assert(bt[p] == b[p + 1] && bt[q] == b[q + 1]);
            }
        }
        lemma_ring_sorted_unique(at, bt, next);
        assert forall|k: int| 0 <= k < a.len() implies a[k] == b[k] by {
            if k > 0 {
                assert(a[k] == at[k - 1] && b[k] == bt[k - 1]);
            }
        }
        assert(a =~= b);
    }
}

/// Release order does not depend on insertion order: two well-formed
/// buffers whose cursors agree and which hold the same sequence numbers
/// hold them in the same order — the ring order from the cursor, which is
/// the order repeated release returns them in.
pub proof fn lemma_release_order_unique(a: JitterBuffer, b: JitterBuffer)
    requires
        a.wf(),
        b.wf(),
        a.next_seq().is_some(),
        a.next_seq() == b.next_seq(),
        forall|s: u16| a.seqs().contains(s) <==> b.seqs().contains(s),
    ensures
        a.seqs() == b.seqs(),
{
    let n = a.next_seq().unwrap();
    assert(ring_sorted(a.seqs(), n)) by {
        assert forall|i: int, j: int|
            0 <= i < j < a.seqs().len() implies seq_dist(n, #[trigger] a.seqs()[i]) < seq_dist(
            n,
            #[trigger] a.seqs()[j],
        ) by {
            assert(a.seqs()[i] == a.entries()[i].packet.sequence);
            assert(a.seqs()[j] == a.entries()[j].packet.sequence);
        }
    }
    assert(ring_sorted(b.seqs(), n)) by {
        assert forall|i: int, j: int|
            0 <= i < j < b.seqs().len() implies seq_dist(n, #[trigger] b.seqs()[i]) < seq_dist(
            n,
            #[trigger] b.seqs()[j],
        ) by {
            assert(b.seqs()[i] == b.entries()[i].packet.sequence);
            assert(b.seqs()[j] == b.entries()[j].packet.sequence);
        }
    }
    lemma_ring_sorted_unique(a.seqs(), b.seqs(), n);
}

/// On a well-formed buffer the next expected packet, when buffered at all,
/// sits at the head: repeated release therefore returns sequences in ring
/// order from the cursor, and stops exactly when the next expected sequence
/// is absent.
pub proof fn lemma_next_at_head(b: JitterBuffer)
    requires
        b.wf(),
        b.next_seq().is_some(),
    ensures
        b.contains_seq(b.next_seq().unwrap()) <==> (b.entries().len() > 0
            && b.entries()[0].packet.sequence == b.next_seq().unwrap()),
{
    let n = b.next_seq().unwrap();
    if b.contains_seq(n) {
        let i = choose|i: int| 0 <= i < b.entries().len() && b.entries()[i].packet.sequence == n;
        assert(seq_dist(n, b.entries()[i].packet.sequence) == 0);
        if i > 0 {
            assert(seq_dist(n, b.entries()[0].packet.sequence) < seq_dist(
                n,
                b.entries()[i].packet.sequence,
            ));
        }
    }
}

} // verus!
