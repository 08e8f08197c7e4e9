//! The data phase of an SSU2 session: monotone packet numbering, duplicate
//! suppression over a 64-entry replay window, acknowledgement tracking,
//! retransmission bookkeeping, and termination.
//!
//! The session never touches a socket: outgoing packets are returned to the
//! caller, incoming ones arrive as byte vectors.

use vstd::prelude::*;

use crate::block::{
    spec_blocks_wf, spec_find_termination, spec_parse_blocks, views_of, Block, BlockView,
    SocketAddress, TerminationReason,
};
use crate::crypto::{chacha_seal_of, sha256_of};
use crate::header::{spec_mask2, spec_read_header, HeaderKindView, MIN_PACKET_LEN};
use crate::inbound::{KeyContext, Ssu2SessionContext};
use crate::message::{
    build_data, open_data_packet, padding_block, spec_data_packet, spec_padding_block, DataPacket,
};
use crate::wire::sub_vec;
use crate::{Packet, Ssu2Error};

verus! {

/// Two in-window packet numbers with the same residue are equal.
proof fn lemma_same_residue_gap(a: u32, b: u32)
    ensures
        (a % 64 == b % 64 && a < b) ==> b >= a + 64,
{
    assert((a % 64 == b % 64 && a < b) ==> b >= a + 64) by (bit_vector);
}

/// A value's residue indexes the slot arrays.
proof fn lemma_residue_bound(n: u32)
    ensures
        0 <= n % 64 < 64,
{
    assert(n % 64 < 64) by (bit_vector);
}

/// Duplicate suppression for one direction of one session: a sliding
/// 64-entry window over packet numbers. A packet number below the window
/// floor or already accepted is rejected; everything else is accepted
/// exactly once.
pub struct ReplayFilter {
    /// Highest packet number accepted so far.
    highest: u32,
    /// Whether anything was accepted yet.
    any: bool,
    /// Per-residue largest accepted packet number.
    slots: Vec<u32>,
    /// Which slots hold a value.
    has: Vec<bool>,
    /// Every packet number ever accepted.
    accepted: Ghost<Set<u32>>,
}

impl ReplayFilter {
    /// The set of packet numbers this filter has accepted.
    pub closed spec fn accepted_set(&self) -> Set<u32> {
        self.accepted@
    }

    /// The highest accepted packet number.
    pub closed spec fn spec_highest(&self) -> u32 {
        self.highest
    }

    /// Whether anything was accepted yet.
    pub closed spec fn spec_any(&self) -> bool {
        self.any
    }

    /// The window floor: packet numbers below it are rejected out of hand.
    pub open spec fn spec_floor(&self) -> u32 {
        if !self.spec_any() || self.spec_highest() < 64 {
            0u32
        } else {
            (self.spec_highest() - 63) as u32
        }
    }

    /// A number the filter will accept: at or above the floor and not yet
    /// accepted.
    pub open spec fn spec_admits(&self, n: u32) -> bool {
        n >= self.spec_floor() && !self.accepted_set().contains(n)
    }

    /// The window invariant: each slot holds the largest accepted number of
    /// its residue class, and every accepted number is at or below the
    /// highest and covered by its slot.
    pub closed spec fn wf(&self) -> bool {
        &&& self.slots@.len() == 64
        &&& self.has@.len() == 64
        &&& (forall|i: int|
            0 <= i < 64 && self.has@[i] ==> (#[trigger] self.slots@[i]) % 64 == i
                && self.slots@[i] <= self.highest && self.accepted@.contains(self.slots@[i]))
        &&& (forall|n: u32| #![trigger self.accepted@.contains(n)]
            self.accepted@.contains(n) ==> n <= self.highest && self.has@[n as int % 64]
                && n <= self.slots@[n as int % 64])
        &&& (!self.any ==> self.accepted@ =~= Set::<u32>::empty())
        &&& (self.any ==> self.accepted@.contains(self.highest))
    }

    /// An empty filter.
    pub fn new() -> (r: Self)
        ensures
            r.wf(),
            r.accepted_set() =~= Set::<u32>::empty(),
            !r.spec_any(),
    {
        let slots: Vec<u32> = vec![0u32; 64];
        let has: Vec<bool> = vec![false; 64];
        ReplayFilter { highest: 0, any: false, slots, has, accepted: Ghost(Set::empty()) }
    }

    /// Accept or reject one incoming packet number.
    ///
    /// Accepts exactly the numbers at or above the window floor that were
    /// never accepted before; a rejected packet leaves the filter exactly
    /// as it was, so a replayed packet is dropped without side effects.
    pub fn accept(&mut self, n: u32) -> (r: bool)
        requires
            old(self).wf(),
        ensures
            final(self).wf(),
            r == old(self).spec_admits(n),
            r ==> final(self).accepted_set() == old(self).accepted_set().insert(n),
            !r ==> *final(self) == *old(self),
            r ==> final(self).accepted_set().contains(n) && final(self).spec_any(),
            r ==> final(self).spec_highest() == if n > old(self).spec_highest() || !old(
                self,
            ).spec_any() {
                n
            } else {
                old(self).spec_highest()
            },
    {
        proof {
            lemma_residue_bound(n);
        }
        let idx = (n % 64) as usize;
        if self.any && self.highest >= 64 && n < self.highest - 63 {
            proof {
                assert(n < old(self).spec_floor());
            }
            return false;
        }
        if self.has[idx] && self.slots[idx] >= n {
            if self.slots[idx] == n {
                proof {
                    assert(self.accepted@.contains(n));
                }
                return false;
            }
            proof {
                let s = self.slots@[idx as int];
                assert(s % 64 == n % 64);
                lemma_same_residue_gap(n, s);
                assert(s >= n + 64);
                assert(s <= self.highest);
                assert(self.any && self.highest >= 64 && n < self.highest - 63);
            }
            return false;
        }
        proof {
            if self.accepted@.contains(n) {
                assert(self.has@[idx as int] && n <= self.slots@[idx as int]);
            }
            assert(!self.accepted@.contains(n));
        }
        self.slots.set(idx, n);
        self.has.set(idx, true);
        if !self.any || n > self.highest {
            self.highest = n;
        }
        self.any = true;
        proof {
            self.accepted@ = self.accepted@.insert(n);
            assert forall|m: u32| self.accepted@.contains(m) implies m <= self.highest
                && self.has@[m as int % 64] && m <= self.slots@[m as int % 64] by {
                lemma_residue_bound(m);
                if m != n {
                    assert(old(self).accepted@.contains(m));
                    assert(old(self).has@[m as int % 64] && m <= old(self).slots@[m as int % 64]);
                    if m as int % 64 == idx as int {
                        let s0 = old(self).slots@[idx as int];
                        if s0 >= n {
                            assert(false);
                        }
                        assert(m <= s0 < n);
                    }
                }
            }
            assert forall|i: int| 0 <= i < 64 && self.has@[i] implies (
            #[trigger] self.slots@[i]) % 64 == i && self.slots@[i] <= self.highest
                && self.accepted@.contains(self.slots@[i]) by {
                if i != idx as int {
                    assert(old(self).has@[i] == self.has@[i]);
                }
            }
        }
        true
    }

    /// Whether `n` was accepted; exact for numbers at or above the floor.
    pub fn is_seen(&self, n: u32) -> (r: bool)
        requires
            self.wf(),
        ensures
            r ==> self.accepted_set().contains(n),
            n >= self.spec_floor() ==> r == self.accepted_set().contains(n),
    {
        proof {
            lemma_residue_bound(n);
        }
        let idx = (n % 64) as usize;
        let r = self.has[idx] && self.slots[idx] == n;
        proof {
            if !r && n >= self.spec_floor() && self.accepted_set().contains(n) {
                let s = self.slots@[idx as int];
                assert(self.has@[idx as int] && n <= s);
                if n != s {
                    lemma_same_residue_gap(n, s);
                    assert(s <= self.highest);
                }
            }
        }
        r
    }
}

/// Packet numbers received but not yet summarized in an `Ack`, kept sorted
/// and unique.
pub struct AckTracker {
    received: Vec<u32>,
}

/// A strictly increasing sequence.
pub open spec fn spec_sorted_strict(s: Seq<u32>) -> bool {
    forall|i: int, j: int| 0 <= i < j < s.len() ==> s[i] < s[j]
}

/// One contiguous run of packet numbers.
pub open spec fn spec_contiguous(s: Seq<u32>) -> bool {
    forall|i: int| 0 <= i < s.len() - 1 ==> #[trigger] s[i + 1] == s[i] + 1
}

impl AckTracker {
    /// The packet numbers tracked, in increasing order.
    pub closed spec fn view(&self) -> Seq<u32> {
        self.received@
    }

    /// Sorted and unique.
    pub open spec fn wf(&self) -> bool {
        spec_sorted_strict(self@)
    }

    /// An empty tracker.
    pub fn new() -> (r: Self)
        ensures
            r.wf(),
            r@ == Seq::<u32>::empty(),
    {
        AckTracker { received: Vec::new() }
    }

    /// How many packet numbers are tracked.
    pub fn len(&self) -> (r: usize)
        ensures
            r == self@.len(),
    {
        self.received.len()
    }

    /// Track one received packet number; already-tracked numbers change
    /// nothing.
    pub fn record(&mut self, n: u32)
        requires
            old(self).wf(),
        ensures
            final(self).wf(),
            final(self)@.to_set() == old(self)@.to_set().insert(n),
            final(self)@.len() <= old(self)@.len() + 1,
    {
        let ghost pre = self@;
        let len: usize = self.received.len();
        let mut i: usize = 0;
        while i < len && self.received[i] < n
            invariant
                i <= len,
                len == self@.len(),
                self@ == pre,
                spec_sorted_strict(pre),
                forall|j: int| 0 <= j < i ==> pre[j] < n,
            decreases len - i,
        {
            i = i + 1;
        }
        if i < len && self.received[i] == n {
            proof {
                assert(pre.to_set().contains(n));
                assert(pre.to_set() =~= pre.to_set().insert(n));
            }
            return ;
        }
        self.received.insert(i, n);
        proof {
            let s = self@;
            assert(s == pre.insert(i as int, n));
            pre.insert_ensures(i as int, n);
            assert(i == len || pre[i as int] > n);
            assert forall|a: int, b: int| 0 <= a < b < s.len() implies s[a] < s[b] by {
                if b < i {
                    assert(s[a] == pre[a] && s[b] == pre[b]);
                } else if b == i {
                    assert(s[a] == pre[a] && s[b] == n);
                } else if a < i {
                    assert(s[a] == pre[a] && s[b] == pre[b - 1] && b - 1 >= i && i < len);
                    assert(pre[a] < n);
                    if b - 1 == i {
                        assert(pre[b - 1] > n);
                    } else {
                        assert(pre[i as int] < pre[b - 1]);
                    }
                } else if a == i {
                    assert(s[a] == n && s[b] == pre[b - 1] && b - 1 >= i && i < len);
                    if b - 1 == i {
                        assert(pre[b - 1] > n);
                    } else {
                        assert(pre[i as int] < pre[b - 1]);
                    }
                } else {
                    assert(s[a] == pre[a - 1] && s[b] == pre[b - 1]);
                }
            }
            assert forall|x: u32| s.to_set().contains(x) <==> pre.to_set().insert(n).contains(
                x,
            ) by {
                if s.to_set().contains(x) {
                    let k = choose|k: int| 0 <= k < s.len() && s[k] == x;
                    if k < i {
                        assert(pre[k] == x);
                        assert(pre.to_set().contains(x));
                    } else if k == i {
                        assert(x == n);
                    } else {
                        assert(pre[k - 1] == x);
                        assert(pre.to_set().contains(x));
                    }
                }
                if pre.to_set().contains(x) {
                    let k = choose|k: int| 0 <= k < pre.len() && pre[k] == x;
                    if k < i {
                        assert(s[k] == x);
                    } else {
                        assert(s[k + 1] == x);
                    }
                    assert(s.to_set().contains(x));
                }
                if x == n {
                    assert(s[i as int] == n);
                    assert(s.to_set().contains(x));
                }
            }
            assert(self@.to_set() =~= pre.to_set().insert(n));
        }
    }

    /// The next acknowledgement: the highest received number; the
    /// contiguous run ending at `ack_through` is acknowledged implicitly,
    /// and each (nack, ack) range pair describes one gap and one
    /// consecutive acked run below it, walking downward, counts saturating
    /// at 255. Ranges are present exactly when the tracked numbers are not
    /// one contiguous run, and every range acknowledges at least one
    /// packet.
    pub fn next_ack(&self) -> (r: Option<Block>)
        requires
            self.wf(),
        ensures
            match r {
                Some(b) => {
                    &&& self@.len() > 0
                    &&& b@ matches BlockView::Ack { ack_through, num_acks, ranges } && {
                        &&& ack_through == self@.last()
                        &&& (num_acks == 0 <==> spec_contiguous(self@))
                        &&& (ranges.len() == 0 <==> spec_contiguous(self@))
                        &&& (forall|i: int| 0 <= i < ranges.len() ==> (#[trigger] ranges[i]).1
                            >= 1)
                    }
                },
                None => self@.len() == 0,
            },
    {
        let len: usize = self.received.len();
        if len == 0 {
            return None;
        }
        let ack_through = self.received[len - 1];
        // Find the start of the contiguous run that ends at the top.
        let mut run_start: usize = len - 1;
        while run_start > 0 && self.received[run_start] - self.received[run_start - 1] == 1
            invariant
                run_start < len,
                len == self@.len(),
                spec_sorted_strict(self@),
                forall|j: int| run_start <= j < len - 1 ==> #[trigger] self@[j + 1] == self@[j] + 1,
            decreases run_start,
        {
            run_start = run_start - 1;
        }
        if run_start == 0 {
            proof {
                assert forall|j: int| 0 <= j < self@.len() - 1 implies #[trigger] self@[j + 1]
                    == self@[j] + 1 by {}
                assert(spec_contiguous(self@));
            }
            let ranges: Vec<(u8, u8)> = Vec::new();
            return Some(Block::Ack { ack_through, num_acks: 0, ranges });
        }
        // Encode what lies below the run as (nack, ack) ranges, walking
        // downward; counts saturate at 255 per range entry.
        let mut ranges: Vec<(u8, u8)> = Vec::new();
        let mut num_acks: u8 = 0;
        let mut cursor: usize = run_start;
        while cursor > 0
            invariant
                cursor < len,
                run_start < len,
                len == self@.len(),
                spec_sorted_strict(self@),
                cursor < run_start ==> ranges@.len() >= 1 && num_acks >= 1,
                forall|i: int| 0 <= i < ranges@.len() ==> (#[trigger] ranges@[i]).1 >= 1,
            decreases cursor,
        {
            // One range: the gap above this acked stretch, then the stretch.
            let gap_top = self.received[cursor];
            let top = self.received[cursor - 1];
            proof {
                assert(self@[cursor - 1] < self@[cursor as int]);
            }
            let gap128: u32 = gap_top - top - 1;
            let gap: u8 = if gap128 > 255 {
                255
            } else {
                gap128 as u8
            };
            let mut acks: u8 = 1;
            cursor = cursor - 1;
            let ghost c_mark = cursor;
            while cursor > 0 && acks < 255 && self.received[cursor] - self.received[cursor - 1]
                == 1
                invariant
                    cursor <= c_mark,
                    c_mark < len,
                    len == self@.len(),
                    spec_sorted_strict(self@),
                    acks >= 1,
                decreases cursor,
            {
                cursor = cursor - 1;
                acks = acks + 1;
            }
            ranges.push((gap, acks));
            if 255 - num_acks < acks {
                num_acks = 255;
            } else {
                num_acks = num_acks + acks;
            }
            proof {
                assert(ranges@.last() == (gap, acks));
                assert(acks >= 1);
                assert(num_acks >= 1);
            }
        }
        proof {
            if spec_contiguous(self@) {
                let j = run_start - 1;
                assert(self@[j + 1] == self@[j] + 1);
                assert(false);
            }
            assert(ranges@.len() >= 1 && num_acks >= 1);
        }
        Some(Block::Ack { ack_through, num_acks, ranges })
    }

    /// Forget everything at or below `n`, once an acknowledgement for it
    /// was sent and the window moved on.
    pub fn drop_through(&mut self, n: u32)
        requires
            old(self).wf(),
        ensures
            final(self).wf(),
            final(self)@ == old(self)@.filter(|m: u32| m > n),
    {
        let ghost pre = self@;
        let len: usize = self.received.len();
        let mut out: Vec<u32> = Vec::new();
        let mut i: usize = 0;
        while i < len
            invariant
                i <= len,
                len == pre.len(),
                self@ == pre,
                out@ == pre.take(i as int).filter(|m: u32| m > n),
                spec_sorted_strict(pre),
                spec_sorted_strict(out@),
                forall|j: int| 0 <= j < out@.len() ==> exists|k: int|
                    0 <= k < i && #[trigger] out@[j] == pre[k],
            decreases len - i,
        {
            proof {
                assert(pre.take(i + 1).drop_last() =~= pre.take(i as int));
                assert(pre.take(i + 1).last() == pre[i as int]);
                reveal(Seq::filter);
            }
            if self.received[i] > n {
                out.push(self.received[i]);
            }
            i = i + 1;
        }
        proof {
            assert(pre.take(len as int) =~= pre);
        }
        self.received = out;
    }
}

/// Retransmission limit: a packet unacknowledged after this many
/// retransmissions is considered lost and the session times out.
pub const MAX_RETRANSMISSIONS: u8 = 3;

/// Unacknowledged outgoing packets with their retransmission counts.
pub struct RtoQueue {
    entries: Vec<(u32, u8)>,
}

/// Whether the queue holds packet number `n`.
pub open spec fn spec_in_queue(q: Seq<(u32, u8)>, n: u32) -> bool {
    exists|i: int| 0 <= i < q.len() && (#[trigger] q[i]).0 == n
}

impl RtoQueue {
    /// The queued (packet number, attempts) pairs, oldest first.
    pub closed spec fn view(&self) -> Seq<(u32, u8)> {
        self.entries@
    }

    /// No packet queued twice; attempts within the limit.
    pub open spec fn wf(&self) -> bool {
        &&& (forall|i: int, j: int|
            0 <= i < j < self@.len() ==> (#[trigger] self@[i]).0 != (#[trigger] self@[j]).0)
        &&& (forall|i: int| 0 <= i < self@.len() ==> (#[trigger] self@[i]).1 <= MAX_RETRANSMISSIONS)
    }

    /// An empty queue.
    pub fn new() -> (r: Self)
        ensures
            r.wf(),
            r@ == Seq::<(u32, u8)>::empty(),
    {
        RtoQueue { entries: Vec::new() }
    }

    /// How many packets await acknowledgement.
    pub fn len(&self) -> (r: usize)
        ensures
            r == self@.len(),
    {
        self.entries.len()
    }

    /// Queue a freshly sent packet.
    pub fn insert(&mut self, n: u32)
        requires
            old(self).wf(),
            !spec_in_queue(old(self)@, n),
        ensures
            final(self).wf(),
            final(self)@ == old(self)@.push((n, 0u8)),
    {
        self.entries.push((n, 0));
    }

    /// An acknowledgement arrived: the packet leaves the queue; every other
    /// entry stays.
    pub fn on_ack(&mut self, n: u32)
        requires
            old(self).wf(),
        ensures
            final(self).wf(),
            final(self)@ == old(self)@.filter(|e: (u32, u8)| e.0 != n),
            !spec_in_queue(final(self)@, n),
    {
        let ghost pre = self@;
        let len: usize = self.entries.len();
        let mut out: Vec<(u32, u8)> = Vec::new();
        let mut i: usize = 0;
        while i < len
            invariant
                i <= len,
                len == pre.len(),
                self@ == pre,
                forall|a: int, b: int|
                    0 <= a < b < pre.len() ==> (#[trigger] pre[a]).0 != (#[trigger] pre[b]).0,
                forall|a: int| 0 <= a < pre.len() ==> (#[trigger] pre[a]).1
                    <= MAX_RETRANSMISSIONS,
                out@ == pre.take(i as int).filter(|e: (u32, u8)| e.0 != n),
                forall|a: int| 0 <= a < out@.len() ==> exists|k: int|
                    0 <= k < i && #[trigger] out@[a] == pre[k],
                forall|a: int, b: int|
                    0 <= a < b < out@.len() ==> (#[trigger] out@[a]).0 != (#[trigger] out@[b]).0,
                forall|a: int| 0 <= a < out@.len() ==> (#[trigger] out@[a]).1
                    <= MAX_RETRANSMISSIONS,
                forall|a: int| 0 <= a < out@.len() ==> (#[trigger] out@[a]).0 != n,
            decreases len - i,
        {
            proof {
                assert(pre.take(i + 1).drop_last() =~= pre.take(i as int));
                assert(pre.take(i + 1).last() == pre[i as int]);
                reveal(Seq::filter);
            }
            let (num, attempts) = self.entries[i];
            if num != n {
                out.push((num, attempts));
                proof {
                    assert(out@.last() == pre[i as int]);
                    assert forall|a: int| 0 <= a < out@.len() implies exists|k: int|
                        0 <= k < i + 1 && #[trigger] out@[a] == pre[k] by {
                        if a < out@.len() - 1 {
                            let k0 = choose|k0: int| 0 <= k0 < i && out@[a] == pre[k0];
                            assert(0 <= k0 < i + 1 && out@[a] == pre[k0]);
                        } else {
                            assert(out@[a] == pre[i as int]);
                        }
                    }
                    assert forall|a: int, b: int|
                        0 <= a < b < out@.len() implies (#[trigger] out@[a]).0 != (
                    #[trigger] out@[b]).0 by {
                        if b == out@.len() - 1 {
                            let k0 = choose|k0: int| 0 <= k0 < i && out@[a] == pre[k0];
                            assert(pre[k0].0 != pre[i as int].0);
                        }
                    }
                }
            }
            i = i + 1;
        }
        proof {
            assert(pre.take(len as int) =~= pre);
        }
        self.entries = out;
    }

    /// Acknowledgements arrived for every number in `acked`: those packets
    /// leave the queue; every other entry stays, in order.
    pub fn on_ack_many(&mut self, acked: &Vec<u32>)
        requires
            old(self).wf(),
        ensures
            final(self).wf(),
            final(self)@ == old(self)@.filter(|e: (u32, u8)| !acked@.contains(e.0)),
            forall|i: int|
                0 <= i < final(self)@.len() ==> old(self)@.contains(#[trigger] final(self)@[i])
                    && !acked@.contains(final(self)@[i].0),
            forall|k: int|
                0 <= k < old(self)@.len() && !acked@.contains((#[trigger] old(self)@[k]).0)
                    ==> final(self)@.contains(old(self)@[k]),
    {
        let ghost pre = self@;
        let len: usize = self.entries.len();
        let mut out: Vec<(u32, u8)> = Vec::new();
        let mut i: usize = 0;
        while i < len
            invariant
                i <= len,
                len == pre.len(),
                self@ == pre,
                forall|a: int, b: int|
                    0 <= a < b < pre.len() ==> (#[trigger] pre[a]).0 != (#[trigger] pre[b]).0,
                forall|a: int| 0 <= a < pre.len() ==> (#[trigger] pre[a]).1
                    <= MAX_RETRANSMISSIONS,
                out@ == pre.take(i as int).filter(|e: (u32, u8)| !acked@.contains(e.0)),
                forall|a: int| 0 <= a < out@.len() ==> exists|k: int|
                    0 <= k < i && #[trigger] out@[a] == pre[k],
                forall|a: int, b: int|
                    0 <= a < b < out@.len() ==> (#[trigger] out@[a]).0 != (#[trigger] out@[b]).0,
                forall|a: int| 0 <= a < out@.len() ==> (#[trigger] out@[a]).1
                    <= MAX_RETRANSMISSIONS,
                forall|a: int| 0 <= a < out@.len() ==> !acked@.contains(
                    (#[trigger] out@[a]).0,
                ),
                forall|k: int|
                    0 <= k < i && !acked@.contains((#[trigger] pre[k]).0) ==> out@.contains(
                        pre[k],
                    ),
            decreases len - i,
        {
            proof {
                assert(pre.take(i + 1).drop_last() =~= pre.take(i as int));
                assert(pre.take(i + 1).last() == pre[i as int]);
                reveal(Seq::filter);
            }
            let ghost out_pre = out@;
            let (num, attempts) = self.entries[i];
            if !contains_u32(acked, num) {
                out.push((num, attempts));
                proof {
                    assert(out@.last() == pre[i as int]);
                    assert forall|a: int| 0 <= a < out@.len() implies exists|k: int|
                        0 <= k < i + 1 && #[trigger] out@[a] == pre[k] by {
                        if a < out@.len() - 1 {
                            let k0 = choose|k0: int| 0 <= k0 < i && out@[a] == pre[k0];
                            assert(0 <= k0 < i + 1 && out@[a] == pre[k0]);
                        } else {
                            assert(out@[a] == pre[i as int]);
                        }
                    }
                    assert forall|a: int, b: int|
                        0 <= a < b < out@.len() implies (#[trigger] out@[a]).0 != (
                    #[trigger] out@[b]).0 by {
                        if b == out@.len() - 1 {
                            let k0 = choose|k0: int| 0 <= k0 < i && out@[a] == pre[k0];
                            assert(pre[k0].0 != pre[i as int].0);
                        }
                    }
                }
            }
            proof {
                assert forall|k: int|
                    0 <= k < i + 1 && !acked@.contains((#[trigger] pre[k]).0) implies out@.contains(
                    pre[k],
                ) by {
                    if k < i {
                        assert(out_pre.contains(pre[k]));
                        let idx = choose|idx: int|
                            0 <= idx < out_pre.len() && out_pre[idx] == pre[k];
                        assert(out@[idx] == pre[k]);
                    } else {
                        assert(out@.last() == pre[i as int]);
                    }
                }
            }
            i = i + 1;
        }
        proof {
            assert(pre.take(len as int) =~= pre);
        }
        self.entries = out;
    }

    /// A retransmission timer fired. If some packet has exhausted its
    /// retransmissions it is lost: the session must terminate with
    /// `Timeout`. Otherwise every queued packet is due for one more
    /// retransmission and its attempt count grows.
    pub fn on_timer(&mut self) -> (r: Result<Vec<u32>, TerminationReason>)
        requires
            old(self).wf(),
        ensures
            final(self).wf(),
            match r {
                Ok(to_resend) => {
                    &&& (forall|i: int|
                        0 <= i < old(self)@.len() ==> (#[trigger] old(self)@[i]).1
                            < MAX_RETRANSMISSIONS)
                    &&& final(self)@.len() == old(self)@.len()
                    &&& (forall|i: int|
                        0 <= i < final(self)@.len() ==> (#[trigger] final(self)@[i]).0 == old(
                            self,
                        )@[i].0 && final(self)@[i].1 == old(self)@[i].1 + 1)
                    &&& to_resend@.len() == old(self)@.len()
                    &&& (forall|i: int|
                        0 <= i < to_resend@.len() ==> #[trigger] to_resend@[i] == old(
                            self,
                        )@[i].0)
                },
                Err(reason) => {
                    &&& reason == TerminationReason::Timeout
                    &&& *final(self) == *old(self)
                    &&& exists|i: int|
                        0 <= i < old(self)@.len() && (#[trigger] old(self)@[i]).1
                            >= MAX_RETRANSMISSIONS
                },
            },
    {
        let ghost pre = self@;
        let len: usize = self.entries.len();
        let mut hit = false;
        let mut i: usize = 0;
        while i < len
            invariant
                i <= len,
                len == self@.len(),
                self@ == pre,
                hit == exists|j: int|
                    0 <= j < i && (#[trigger] pre[j]).1 >= MAX_RETRANSMISSIONS,
            decreases len - i,
        {
            if self.entries[i].1 >= MAX_RETRANSMISSIONS {
                hit = true;
                proof {
                    assert((pre[i as int]).1 >= MAX_RETRANSMISSIONS);
                }
            }
            i = i + 1;
        }
        if hit {
            return Err(TerminationReason::Timeout);
        }
        assert(forall|j: int| 0 <= j < pre.len() ==> (#[trigger] pre[j]).1 < MAX_RETRANSMISSIONS);
        let mut to_resend: Vec<u32> = Vec::new();
        let mut k: usize = 0;
        while k < len
            invariant
                k <= len,
                len == self@.len(),
                self@.len() == pre.len(),
                forall|j: int| 0 <= j < pre.len() ==> (#[trigger] pre[j]).1 < MAX_RETRANSMISSIONS,
                forall|j: int| k <= j < pre.len() ==> #[trigger] self@[j] == pre[j],
                forall|j: int|
                    0 <= j < k ==> (#[trigger] self@[j]).0 == pre[j].0 && self@[j].1 == pre[j].1
                        + 1,
                to_resend@.len() == k,
                forall|j: int| 0 <= j < k ==> #[trigger] to_resend@[j] == pre[j].0,
            decreases len - k,
        {
            let (num, attempts) = self.entries[k];
            self.entries.set(k, (num, attempts + 1));
            to_resend.push(num);
            k = k + 1;
        }
        proof {
            assert forall|a: int, b: int|
                0 <= a < b < self@.len() implies (#[trigger] self@[a]).0 != (
            #[trigger] self@[b]).0 by {
                assert(self@[a].0 == pre[a].0 && self@[b].0 == pre[b].0);
                assert(pre[a].0 != pre[b].0);
            }
        }
        Ok(to_resend)
    }
}

/// Some block of the list is an `Ack` acknowledging exactly `n`.
pub open spec fn spec_ack_covers(bs: Seq<BlockView>, n: u32) -> bool {
    exists|i: int|
        #![trigger bs[i]]
        ({
            &&& 0 <= i < bs.len()
            &&& bs[i] matches BlockView::Ack { ack_through, .. }
            &&& ack_through == n
        })
}

/// Whether `v` holds `n`.
fn contains_u32(v: &Vec<u32>, n: u32) -> (r: bool)
    ensures
        r == v@.contains(n),
{
    let len: usize = v.len();
    let mut i: usize = 0;
    while i < len
        invariant
            i <= len,
            len == v@.len(),
            forall|j: int| 0 <= j < i ==> v@[j] != n,
        decreases len - i,
    {
        if v[i] == n {
            return true;
        }
        i = i + 1;
    }
    false
}

/// The packet numbers the `Ack` blocks of a payload acknowledge.
fn collect_ack_throughs(blocks: &Vec<Block>) -> (r: Vec<u32>)
    ensures
        forall|n: u32| #[trigger] r@.contains(n) == spec_ack_covers(views_of(blocks@), n),
{
    let ghost bs = views_of(blocks@);
    let mut acked: Vec<u32> = Vec::new();
    let len: usize = blocks.len();
    let mut i: usize = 0;
    while i < len
        invariant
            i <= len,
            len == blocks@.len(),
            bs == views_of(blocks@),
            bs.len() == len,
            forall|n: u32| #[trigger] acked@.contains(n) == spec_ack_covers(
                bs.take(i as int),
                n,
            ),
        decreases len - i,
    {
        let ghost pre = acked@;
        if let Block::Ack { ack_through, .. } = &blocks[i] {
            acked.push(*ack_through);
        }
        proof {
            assert(bs[i as int] == blocks@[i as int]@);
            assert forall|n: u32| #[trigger] acked@.contains(n) == spec_ack_covers(
                bs.take(i + 1),
                n,
            ) by {
                if acked@.contains(n) {
                    if pre.contains(n) {
                        assert(spec_ack_covers(bs.take(i as int), n));
                        let j = choose|j: int|
                            #![trigger bs.take(i as int)[j]]
                            ({
                                &&& 0 <= j < bs.take(i as int).len()
                                &&& bs.take(i as int)[j] matches BlockView::Ack {
                                    ack_through,
                                    ..
                                }
                                &&& ack_through == n
                            });
                        assert(bs.take(i + 1)[j] == bs.take(i as int)[j]);
                        assert(spec_ack_covers(bs.take(i + 1), n));
                    } else {
                        assert(acked@ == pre.push(n));
                        assert(bs.take(i + 1)[i as int] == bs[i as int]);
                        assert(spec_ack_covers(bs.take(i + 1), n));
                    }
                }
                if spec_ack_covers(bs.take(i + 1), n) {
                    let j = choose|j: int|
                        #![trigger bs.take(i + 1)[j]]
                        ({
                            &&& 0 <= j < bs.take(i + 1).len()
                            &&& bs.take(i + 1)[j] matches BlockView::Ack { ack_through, .. }
                            &&& ack_through == n
                        });
                    if j < i {
                        assert(bs.take(i as int)[j] == bs.take(i + 1)[j]);
                        assert(spec_ack_covers(bs.take(i as int), n));
                        assert(pre.contains(n));
                        let k = choose|k: int| 0 <= k < pre.len() && pre[k] == n;
                        assert(acked@[k] == n);
                    } else {
                        assert(bs.take(i + 1)[i as int] == bs[i as int]);
                        assert(acked@.last() == n);
                    }
                    assert(acked@.contains(n));
                }
            }
        }
        i = i + 1;
    }
    proof {
        assert(bs.take(len as int) =~= bs);
    }
    acked
}

/// What one incoming datagram did to the session.
pub enum SessionEvent {
    /// The packet did not open, or the session is already over: dropped.
    Dropped,
    /// The packet number was already accepted or lies below the window:
    /// dropped without side effects.
    Duplicate { pkt_num: u32 },
    /// A fresh packet: its blocks, for the upper layer.
    Received { pkt_num: u32, blocks: Vec<Block> },
    /// The peer terminated the session; the reason is surfaced verbatim.
    Terminated { reason: TerminationReason },
}

/// An active SSU2 session: the data phase between two routers.
pub struct ActiveSession {
    /// Socket address of the remote router.
    address: SocketAddress,
    /// Connection ID the peer expects on packets we send.
    dst_id: u64,
    /// The peer's intro key.
    intro_key: Vec<u8>,
    /// Keys for packets the peer sends us.
    recv_key_ctx: KeyContext,
    /// Keys for packets we send.
    send_key_ctx: KeyContext,
    /// The peer's router identity hash.
    router_id: Vec<u8>,
    /// The packet number the next outgoing packet takes.
    next_pkt_num: u32,
    /// Every packet number this session has used, in order.
    sent: Ghost<Seq<u32>>,
    /// Duplicate suppression for incoming packets.
    replay: ReplayFilter,
    /// Received packet numbers awaiting acknowledgement.
    acks: AckTracker,
    /// Unacknowledged outgoing packets.
    rto: RtoQueue,
    /// Why the session ended, once it has.
    terminated: Option<TerminationReason>,
}

impl ActiveSession {
    /// Packet numbers this session has used, in order of use.
    pub closed spec fn sent_log(&self) -> Seq<u32> {
        self.sent@
    }

    /// The next packet number to be used.
    pub closed spec fn spec_next_pkt_num(&self) -> u32 {
        self.next_pkt_num
    }

    /// The replay filter's accepted set.
    pub closed spec fn accepted_set(&self) -> Set<u32> {
        self.replay.accepted_set()
    }

    /// Whether the replay filter admits `n`.
    pub closed spec fn spec_admits(&self, n: u32) -> bool {
        self.replay.spec_admits(n)
    }

    /// The session is over.
    pub closed spec fn is_terminated(&self) -> bool {
        self.terminated is Some
    }

    /// Why the session ended.
    pub closed spec fn termination_reason(&self) -> TerminationReason
        recommends
            self.is_terminated(),
    {
        self.terminated->0
    }

    /// Key sizes, component invariants, and the packet-number discipline:
    /// the log is strictly increasing and everything logged lies below the
    /// next number to be used.
    pub closed spec fn wf(&self) -> bool {
        &&& self.intro_key@.len() == 32
        &&& self.recv_key_ctx.k_data@.len() == 32
        &&& self.recv_key_ctx.k_header_2@.len() == 32
        &&& self.send_key_ctx.k_data@.len() == 32
        &&& self.send_key_ctx.k_header_2@.len() == 32
        &&& (self.address.ip@.len() == 4 || self.address.ip@.len() == 16)
        &&& self.replay.wf()
        &&& self.acks.wf()
        &&& self.rto.wf()
        &&& (forall|i: int, j: int|
            0 <= i < j < self.sent@.len() ==> #[trigger] self.sent@[i] < #[trigger] self.sent@[j])
        &&& (forall|i: int| 0 <= i < self.sent@.len() ==> #[trigger] self.sent@[i] < self.next_pkt_num)
        &&& (forall|i: int|
            0 <= i < self.rto@.len() ==> (#[trigger] self.rto@[i]).0 < self.next_pkt_num)
    }

    /// Promote a completed handshake into an active session. The pending
    /// session already spent packet number zero on its first data packet.
    pub fn new(context: Ssu2SessionContext) -> (r: Self)
        requires
            context.intro_key@.len() == 32,
            context.recv_key_ctx.k_data@.len() == 32,
            context.recv_key_ctx.k_header_2@.len() == 32,
            context.send_key_ctx.k_data@.len() == 32,
            context.send_key_ctx.k_header_2@.len() == 32,
            context.address.ip@.len() == 4 || context.address.ip@.len() == 16,
        ensures
            r.wf(),
            !r.is_terminated(),
            r.spec_next_pkt_num() == 1,
            r.sent_log() == seq![0u32],
            r.accepted_set() =~= Set::<u32>::empty(),
            r.peer_id() == context.dst_id,
            r.peer_intro_key() == context.intro_key@,
            r.peer_addr() == context.address@,
            r.router_id_bytes() == context.router_id@,
            r.send_data_key() == context.send_key_ctx.k_data@,
            r.send_header_key() == context.send_key_ctx.k_header_2@,
            r.recv_data_key() == context.recv_key_ctx.k_data@,
            r.recv_header_key() == context.recv_key_ctx.k_header_2@,
            r.rto_view() == Seq::<(u32, u8)>::empty(),
            r.pending_acks() == Seq::<u32>::empty(),
    {
        let ghost sent0: Seq<u32> = seq![0u32];
        let Ssu2SessionContext {
            address,
            dst_id,
            intro_key,
            recv_key_ctx,
            send_key_ctx,
            router_id,
        } = context;
        ActiveSession {
            address,
            dst_id,
            intro_key,
            recv_key_ctx,
            send_key_ctx,
            router_id,
            next_pkt_num: 1,
            sent: Ghost(sent0),
            replay: ReplayFilter::new(),
            acks: AckTracker::new(),
            rto: RtoQueue::new(),
            terminated: None,
        }
    }

    /// Encrypt and frame one outgoing packet carrying `blocks` plus the
    /// minimum padding. The packet number is the next in line, never
    /// reused: the log grows strictly.
    pub fn send(&mut self, blocks: Vec<Block>) -> (r: Packet)
        requires
            old(self).wf(),
            !old(self).is_terminated(),
            old(self).spec_next_pkt_num() < u32::MAX,
            spec_blocks_wf(views_of(blocks@)),
        ensures
            final(self).wf(),
            final(self).spec_next_pkt_num() == old(self).spec_next_pkt_num() + 1,
            final(self).sent_log() == old(self).sent_log().push(old(self).spec_next_pkt_num()),
            !final(self).is_terminated(),
            r.pkt@ == spec_data_packet(
                final(self).peer_id(),
                old(self).spec_next_pkt_num(),
                false,
                final(self).send_data_key(),
                views_of(blocks@).push(spec_padding_block(8)),
                final(self).peer_intro_key(),
                final(self).send_header_key(),
            ),
            r.address@ == final(self).peer_addr(),
    {
        proof {
            assert(!spec_in_queue(self.rto@, self.next_pkt_num)) by {
                assert forall|i: int|
                    0 <= i < self.rto@.len() implies (#[trigger] self.rto@[i]).0
                    != self.next_pkt_num by {}
            }
        }
        let pkt_num = self.next_pkt_num;
        let mut padded = blocks;
        let ghost before = views_of(padded@);
        padded.push(padding_block(8));
        proof {
            assert(views_of(padded@) =~= before.push(spec_padding_block(8)));
            crate::block::lemma_serialize_blocks_push(before, spec_padding_block(8));
            assert(crate::block::spec_serialize_block(spec_padding_block(8)).len() == 11);
        }
        let pkt = build_data(
            self.dst_id,
            pkt_num,
            false,
            &padded,
            &self.send_key_ctx.k_data,
            &self.intro_key,
            &self.send_key_ctx.k_header_2,
        );
        let ghost rto_before = self.rto@;
        self.rto.insert(pkt_num);
        self.next_pkt_num = pkt_num + 1;
        proof {
            self.sent@ = self.sent@.push(pkt_num);
            assert forall|i: int|
                0 <= i < self.rto@.len() implies (#[trigger] self.rto@[i]).0
                < self.next_pkt_num by {
                if i < rto_before.len() {
                    assert(self.rto@[i] == rto_before[i]);
                } else {
                    assert(self.rto@[i] == (pkt_num, 0u8));
                }
            }
        }
        let address = SocketAddress {
            ip: sub_vec(&self.address.ip, 0, self.address.ip.len()),
            port: self.address.port,
        };
        proof {
            assert(address.ip@ =~= self.address.ip@);
        }
        Packet { pkt, address }
    }

    /// The connection ID on outgoing packets.
    pub closed spec fn peer_id(&self) -> u64 {
        self.dst_id
    }

    /// The peer's intro key bytes.
    pub closed spec fn peer_intro_key(&self) -> Seq<u8> {
        self.intro_key@
    }

    /// The outgoing AEAD key.
    pub closed spec fn send_data_key(&self) -> Seq<u8> {
        self.send_key_ctx.k_data@
    }

    /// The outgoing header key.
    pub closed spec fn send_header_key(&self) -> Seq<u8> {
        self.send_key_ctx.k_header_2@
    }

    /// The peer's socket address.
    pub closed spec fn peer_addr(&self) -> crate::block::SocketAddressView {
        self.address@
    }

    /// The incoming AEAD key.
    pub closed spec fn recv_data_key(&self) -> Seq<u8> {
        self.recv_key_ctx.k_data@
    }

    /// The incoming header key.
    pub closed spec fn recv_header_key(&self) -> Seq<u8> {
        self.recv_key_ctx.k_header_2@
    }

    /// The peer's router identity hash.
    pub closed spec fn router_id_bytes(&self) -> Seq<u8> {
        self.router_id@
    }

    /// The next packet number an outgoing packet will take; callers test
    /// it against the numbering limit before sending.
    pub fn next_pkt_num(&self) -> (r: u32)
        ensures
            r == self.spec_next_pkt_num(),
    {
        self.next_pkt_num
    }

    /// The retransmission queue contents.
    pub closed spec fn rto_view(&self) -> Seq<(u32, u8)> {
        self.rto@
    }

    /// The packet numbers received and not yet summarized in an `Ack`.
    pub closed spec fn pending_acks(&self) -> Seq<u32> {
        self.acks@
    }

    /// Handle one incoming datagram (first header half already unmasked by
    /// the socket).
    ///
    /// A packet is dropped exactly when the session is over, the packet is
    /// too short, its header is not a data header, or its payload fails to
    /// authenticate or parse. A packet number already accepted, or below
    /// the replay window, is a duplicate, dropped without side effects. A
    /// fresh packet is recorded for acknowledgement; if it carries a
    /// `Termination` block the session ends with the peer's first stated
    /// reason; otherwise its blocks are delivered and every packet an `Ack`
    /// block acknowledges leaves the retransmission queue.
    pub fn on_datagram(&mut self, pkt: &Vec<u8>) -> (r: SessionEvent)
        requires
            old(self).wf(),
        ensures
            final(self).wf(),
            old(self).is_terminated() ==> r is Dropped,
            match r {
                SessionEvent::Dropped => {
                    &&& *final(self) == *old(self)
                    &&& old(self).is_terminated() || pkt@.len() < MIN_PACKET_LEN || ({
                        let un = spec_mask2(pkt@, old(self).recv_header_key());
                        match spec_read_header(un) {
                            Ok(kind) => match kind {
                                HeaderKindView::Data { pkt_num, .. } => forall|q: Seq<u8>|
                                    #![trigger spec_parse_blocks(q, false)]
                                    un.skip(16) == chacha_seal_of(
                                        old(self).recv_data_key(),
                                        pkt_num as u64,
                                        sha256_of(un.subrange(0, 16)),
                                        q,
                                    ) ==> spec_parse_blocks(q, false) is None,
                                _ => true,
                            },
                            Err(_) => true,
                        }
                    })
                },
                SessionEvent::Duplicate { pkt_num } => {
                    let un = spec_mask2(pkt@, old(self).recv_header_key());
                    &&& !old(self).is_terminated()
                    &&& spec_read_header(un) matches Ok(
                        HeaderKindView::Data { pkt_num: pn, .. },
                    ) && pn == pkt_num
                    &&& !old(self).spec_admits(pkt_num)
                    &&& *final(self) == *old(self)
                },
                SessionEvent::Received { pkt_num, blocks } => {
                    let un = spec_mask2(pkt@, old(self).recv_header_key());
                    &&& !old(self).is_terminated()
                    &&& spec_read_header(un) matches Ok(
                        HeaderKindView::Data { pkt_num: pn, .. },
                    ) && pn == pkt_num
                    &&& (forall|q: Seq<u8>|
                        #![trigger spec_parse_blocks(q, false)]
                        un.skip(16) == chacha_seal_of(
                            old(self).recv_data_key(),
                            pkt_num as u64,
                            sha256_of(un.subrange(0, 16)),
                            q,
                        ) ==> spec_parse_blocks(q, false) == Some(views_of(blocks@)))
                    &&& old(self).spec_admits(pkt_num)
                    &&& spec_find_termination(views_of(blocks@)) is None
                    &&& final(self).accepted_set() == old(self).accepted_set().insert(pkt_num)
                    &&& final(self).pending_acks().to_set() == old(
                        self,
                    ).pending_acks().to_set().insert(pkt_num)
                    &&& (forall|n: u32|
                        spec_in_queue(final(self).rto_view(), n) <==> spec_in_queue(
                            old(self).rto_view(),
                            n,
                        ) && !spec_ack_covers(views_of(blocks@), n))
                    &&& !final(self).is_terminated()
                    &&& final(self).sent_log() == old(self).sent_log()
                    &&& final(self).spec_next_pkt_num() == old(self).spec_next_pkt_num()
                },
                SessionEvent::Terminated { reason } => {
                    let un = spec_mask2(pkt@, old(self).recv_header_key());
                    &&& !old(self).is_terminated()
                    &&& spec_read_header(un) matches Ok(
                        HeaderKindView::Data { pkt_num: pn, .. },
                    ) && ({
                        &&& old(self).spec_admits(pn)
                        &&& final(self).accepted_set() == old(self).accepted_set().insert(pn)
                        &&& forall|q: Seq<u8>|
                            #![trigger spec_parse_blocks(q, false)]
                            un.skip(16) == chacha_seal_of(
                                old(self).recv_data_key(),
                                pn as u64,
                                sha256_of(un.subrange(0, 16)),
                                q,
                            ) ==> (spec_parse_blocks(q, false) matches Some(bs)
                                && spec_find_termination(bs) == Some(reason))
                    })
                    &&& final(self).is_terminated()
                    &&& final(self).termination_reason() == reason
                },
            },
    {
        if self.terminated.is_some() {
            return SessionEvent::Dropped;
        }
        let opened = open_data_packet(
            pkt,
            &self.recv_key_ctx.k_data,
            &self.recv_key_ctx.k_header_2,
        );
        let DataPacket { pkt_num, immediate_ack: _, blocks } = match opened {
            Some(dp) => dp,
            None => {
                return SessionEvent::Dropped;
            },
        };
        if !self.replay.accept(pkt_num) {
            return SessionEvent::Duplicate { pkt_num };
        }
        self.acks.record(pkt_num);
        if let Some(reason) = crate::block::find_termination(&blocks) {
            self.terminated = Some(reason);
            return SessionEvent::Terminated { reason };
        }
        let acked = collect_ack_throughs(&blocks);
        let ghost rto_before = self.rto@;
        self.rto.on_ack_many(&acked);
        proof {
            assert forall|n: u32|
                spec_in_queue(self.rto@, n) <==> spec_in_queue(rto_before, n)
                    && !spec_ack_covers(views_of(blocks@), n) by {
                if spec_in_queue(self.rto@, n) {
                    let i = choose|i: int| 0 <= i < self.rto@.len() && (#[trigger] self.rto@[i]).0
                        == n;
                    let e = self.rto@[i];
                    assert(rto_before.contains(e) && !acked@.contains(e.0));
                    let j = choose|j: int| 0 <= j < rto_before.len() && rto_before[j] == e;
                    assert(spec_in_queue(rto_before, n));
                }
                if spec_in_queue(rto_before, n) && !spec_ack_covers(views_of(blocks@), n) {
                    let i = choose|i: int| 0 <= i < rto_before.len() && (
                    #[trigger] rto_before[i]).0 == n;
                    let e = rto_before[i];
                    assert(!acked@.contains(e.0));
                    assert(self.rto@.contains(e));
                    let j = choose|j: int| 0 <= j < self.rto@.len() && self.rto@[j] == e;
                    assert(spec_in_queue(self.rto@, n));
                }
            }
            assert forall|i: int|
                0 <= i < self.rto@.len() implies (#[trigger] self.rto@[i]).0
                < self.next_pkt_num by {
                let e = self.rto@[i];
                assert(rto_before.contains(e));
                let j = choose|j: int| 0 <= j < rto_before.len() && rto_before[j] == e;
                assert(rto_before[j].0 < self.next_pkt_num);
            }
        }
        SessionEvent::Received { pkt_num, blocks }
    }

    /// Whether packet number `n` was accepted; exact at or above the
    /// window floor.
    pub fn is_seen(&self, n: u32) -> (r: bool)
        requires
            self.wf(),
        ensures
            r ==> self.accepted_set().contains(n),
            n >= self.replay_floor() ==> r == self.accepted_set().contains(n),
    {
        self.replay.is_seen(n)
    }

    /// The replay window floor.
    pub closed spec fn replay_floor(&self) -> u32 {
        self.replay.spec_floor()
    }

    /// The next acknowledgement block to send, if anything awaits one:
    /// the highest pending number, with gap ranges present exactly when
    /// the pending numbers are not one contiguous run.
    pub fn pending_ack(&self) -> (r: Option<Block>)
        requires
            self.wf(),
        ensures
            match r {
                Some(b) => {
                    &&& self.pending_acks().len() > 0
                    &&& b@ matches BlockView::Ack { ack_through, num_acks, ranges } && {
                        &&& ack_through == self.pending_acks().last()
                        &&& (num_acks == 0 <==> spec_contiguous(self.pending_acks()))
                        &&& (ranges.len() == 0 <==> spec_contiguous(self.pending_acks()))
                        &&& (forall|i: int| 0 <= i < ranges.len() ==> (#[trigger] ranges[i]).1
                            >= 1)
                    }
                },
                None => self.pending_acks().len() == 0,
            },
    {
        self.acks.next_ack()
    }

    /// An acknowledgement through `through` went out: received packet
    /// numbers at or below it need no further reporting.
    pub fn ack_sent(&mut self, through: u32)
        requires
            old(self).wf(),
        ensures
            final(self).wf(),
            final(self).pending_acks() == old(self).pending_acks().filter(
                |m: u32| m > through,
            ),
            final(self).sent_log() == old(self).sent_log(),
            final(self).accepted_set() == old(self).accepted_set(),
            final(self).is_terminated() == old(self).is_terminated(),
    {
        self.acks.drop_through(through);
    }

    /// The retransmission timer fired: either every queued packet is due
    /// again, or one exhausted its retransmissions and the session times
    /// out.
    pub fn on_timer(&mut self) -> (r: Result<Vec<u32>, TerminationReason>)
        requires
            old(self).wf(),
            !old(self).is_terminated(),
        ensures
            final(self).wf(),
            match r {
                Ok(to_resend) => {
                    &&& !final(self).is_terminated()
                    &&& (forall|i: int|
                        0 <= i < old(self).rto_view().len()
                            ==> (#[trigger] old(self).rto_view()[i]).1 < MAX_RETRANSMISSIONS)
                    &&& final(self).rto_view().len() == old(self).rto_view().len()
                    &&& (forall|i: int|
                        0 <= i < final(self).rto_view().len()
                            ==> (#[trigger] final(self).rto_view()[i]).0
                            == old(self).rto_view()[i].0 && final(self).rto_view()[i].1
                            == old(self).rto_view()[i].1 + 1)
                    &&& to_resend@.len() == old(self).rto_view().len()
                    &&& (forall|i: int|
                        0 <= i < to_resend@.len()
                            ==> #[trigger] to_resend@[i] == old(self).rto_view()[i].0)
                    &&& final(self).sent_log() == old(self).sent_log()
                    &&& final(self).accepted_set() == old(self).accepted_set()
                    &&& final(self).pending_acks() == old(self).pending_acks()
                    &&& final(self).spec_next_pkt_num() == old(self).spec_next_pkt_num()
                },
                Err(reason) => {
                    &&& reason == TerminationReason::Timeout
                    &&& final(self).is_terminated()
                    &&& final(self).termination_reason() == TerminationReason::Timeout
                    &&& exists|i: int|
                        0 <= i < old(self).rto_view().len() && (#[trigger] old(
                            self,
                        ).rto_view()[i]).1 >= MAX_RETRANSMISSIONS
                },
            },
    {
        let ghost rto_before = self.rto@;
        match self.rto.on_timer() {
            Ok(to_resend) => {
                proof {
                    assert forall|i: int|
                        0 <= i < self.rto@.len() implies (#[trigger] self.rto@[i]).0
                        < self.next_pkt_num by {
                        assert(self.rto@[i].0 == rto_before[i].0);
                    }
                }
                Ok(to_resend)
            },
            Err(reason) => {
                self.terminated = Some(reason);
                proof {
                    let q0 = old(self).rto@;
                    let k = choose|i: int|
                        0 <= i < q0.len() && (#[trigger] q0[i]).1 >= MAX_RETRANSMISSIONS;
                    assert(0 <= k < old(self).rto_view().len() && (old(self).rto_view()[k]).1
                        >= MAX_RETRANSMISSIONS);
                }
                Err(reason)
            },
        }
    }

    /// End the session locally: emit one final packet carrying a
    /// `Termination` block with `reason`, and stop both directions.
    pub fn terminate(&mut self, reason: TerminationReason) -> (r: Packet)
        requires
            old(self).wf(),
            !old(self).is_terminated(),
            old(self).spec_next_pkt_num() < u32::MAX,
        ensures
            final(self).wf(),
            final(self).is_terminated(),
            final(self).termination_reason() == reason,
            r.pkt@ == spec_data_packet(
                final(self).peer_id(),
                old(self).spec_next_pkt_num(),
                false,
                final(self).send_data_key(),
                seq![BlockView::Termination { reason }].push(spec_padding_block(8)),
                final(self).peer_intro_key(),
                final(self).send_header_key(),
            ),
    {
        let mut blocks: Vec<Block> = Vec::new();
        blocks.push(Block::Termination { reason });
        proof {
            assert(views_of(blocks@) =~= seq![BlockView::Termination { reason }]);
        }
        let pkt = self.send(blocks);
        self.terminated = Some(reason);
        pkt
    }
}

/// No packet-number reuse: within one direction of one session, the packet
/// numbers a session has used are strictly increasing, so no two sends
/// share a number.
pub proof fn lemma_no_pkt_num_reuse(s: ActiveSession, i: int, j: int)
    requires
        s.wf(),
        0 <= i < j < s.sent_log().len(),
    ensures
        s.sent_log()[i] < s.sent_log()[j],
{
}

} // verus!
