//! Retransmission timeout estimation (RFC 6298) and the queue of segments
//! awaiting acknowledgement.
//!
//! Durations and instants are nanoseconds; instants are read from the
//! caller's monotonic clock.

use vstd::prelude::*;
use std::collections::VecDeque;

verus! {

/// Lower bound of the retransmission timeout: 10 ms.
pub const MIN_RTO: u64 = 10_000_000;
/// Upper bound of the retransmission timeout: 60 s.
pub const MAX_RTO: u64 = 60_000_000_000;
/// A segment is dropped after this many retransmissions.
pub const MAX_RETRANSMISSIONS: u32 = 3;

/// `x` clamped into `[lo, hi]`.
pub open spec fn clamp(x: int, lo: int, hi: int) -> int {
    if x < lo { lo } else if x > hi { hi } else { x }
}

/// The retransmission timer: smoothed round-trip time, its variation, and
/// the timeout derived from them.
#[derive(Debug)]
pub struct RetransmissionTimer {
    pub rto: u64,
    pub srtt: Option<u64>,
    pub rttvar: Option<u64>,
    pub min_rto: u64,
    pub max_rto: u64,
    pub retransmission_count: u32,
}

/// The smoothed round-trip time after measuring `r`: `(7 srtt + r) / 8`.
pub open spec fn next_srtt(srtt: int, r: int) -> int {
    (7 * srtt + r) / 8
}

/// The round-trip variation after measuring `r`: `(3 rttvar + |srtt - r|) / 4`.
pub open spec fn next_rttvar(srtt: int, rttvar: int, r: int) -> int {
    (3 * rttvar + (if srtt >= r { srtt - r } else { r - srtt })) / 4
}

/// The smoothed round-trip time and its variation after the sample `r`
/// (see `update_rto`).
pub open spec fn sampled(srtt: Option<u64>, rttvar: Option<u64>, r: u64) -> (Option<u64>, Option<u64>) {
    match (srtt, rttvar) {
        (Some(s), Some(v)) => (Some(next_srtt(s as int, r as int) as u64), Some(next_rttvar(s as int, v as int, r as int) as u64)),
        _ => (Some(r), Some(r / 2)),
    }
}

/// The timeout that the estimates give: `srtt + 4 rttvar` clamped into the
/// bounds, or the minimum before any measurement.
pub open spec fn estimated_rto(srtt: Option<u64>, rttvar: Option<u64>) -> int {
    match (srtt, rttvar) {
        (Some(s), Some(v)) => clamp(s + 4 * v, MIN_RTO as int, MAX_RTO as int),
        _ => MIN_RTO as int,
    }
}

/// Whether timer `b` is timer `a` after `do_retransmission`: the timeout
/// doubled up to the maximum, one retransmission more, the estimates kept.
pub open spec fn backed_off(a: RetransmissionTimer, b: RetransmissionTimer) -> bool {
    &&& b.retransmission_count == a.retransmission_count.wrapping_add(1)
    &&& b.rto == (if 2 * a.rto > MAX_RTO { MAX_RTO as int } else { 2 * a.rto })
    &&& b.srtt == a.srtt
    &&& b.rttvar == a.rttvar
}

/// Reset undoes back-off: for a timer whose timeout is the one its
/// estimates give (as after `update_rto`, or before any measurement),
/// after any number of `do_retransmission` calls `reset` gives that same
/// timeout again.
pub proof fn lemma_reset_undoes_backoff(ts: Seq<RetransmissionTimer>)
    requires
        ts.len() > 0,
        ts[0].rto == estimated_rto(ts[0].srtt, ts[0].rttvar),
        forall|i: int| 0 <= i < ts.len() - 1 ==> backed_off(#[trigger] ts[i], ts[i + 1]),
    ensures
        estimated_rto(ts.last().srtt, ts.last().rttvar) == ts[0].rto,
    decreases ts.len(),
{
    if ts.len() > 1 {
        let init = ts.drop_last();
        assert forall|i: int| 0 <= i < init.len() - 1 implies backed_off(#[trigger] init[i], init[i + 1]) by {
            assert(init[i] == ts[i] && init[i + 1] == ts[i + 1]);
        }
        lemma_reset_undoes_backoff(init);
        assert(backed_off(ts[ts.len() - 2], ts[ts.len() - 1]));
    }
}

impl RetransmissionTimer {
    /// The bounds are the fixed ones and the timeout lies within them.
    pub open spec fn wf(&self) -> bool {
        &&& self.min_rto == MIN_RTO
        &&& self.max_rto == MAX_RTO
        &&& MIN_RTO <= self.rto <= MAX_RTO
        &&& (self.srtt is Some <==> self.rttvar is Some)
    }

    /// A timer with no measurement yet: the timeout is the minimum.
    pub fn new() -> (t: RetransmissionTimer)
        ensures
            t.wf(),
            t.rto == MIN_RTO,
            t.srtt is None,
            t.rttvar is None,
            t.retransmission_count == 0,
    {
        RetransmissionTimer {
            rto: MIN_RTO,
            srtt: None,
            rttvar: None,
            min_rto: MIN_RTO,
            max_rto: MAX_RTO,
            retransmission_count: 0,
        }
    }

    /// `srtt + 4 rttvar` clamped into the bounds.
    fn computed_rto(srtt: u64, rttvar: u64) -> (r: u64)
        ensures
            r == clamp(srtt + 4 * rttvar, MIN_RTO as int, MAX_RTO as int),
    {
        let x: u128 = (srtt as u128) + 4 * (rttvar as u128);
        if x < MIN_RTO as u128 {
            MIN_RTO
        } else if x > MAX_RTO as u128 {
            MAX_RTO
        } else {
            x as u64
        }
    }

    /// Takes a round-trip measurement into account: the first one sets the
    /// smoothed time to it and the variation to half of it; later ones
    /// average them in with weights 1/8 and 1/4. The timeout becomes
    /// `srtt + 4 rttvar`, clamped.
    pub fn update_rto(&mut self, measured_rtt: u64)
        requires
            old(self).wf(),
        ensures
            final(self).wf(),
            final(self).retransmission_count == old(self).retransmission_count,
            match (old(self).srtt, old(self).rttvar) {
                (Some(s), Some(v)) => {
                    &&& final(self).srtt == Some(next_srtt(s as int, measured_rtt as int) as u64)
                    &&& final(self).rttvar == Some(next_rttvar(s as int, v as int, measured_rtt as int) as u64)
                },
                _ => {
                    &&& final(self).srtt == Some(measured_rtt)
                    &&& final(self).rttvar == Some(measured_rtt / 2)
                },
            },
            final(self).rto == clamp(final(self).srtt->0 + 4 * final(self).rttvar->0, MIN_RTO as int, MAX_RTO as int),
            final(self).rto == estimated_rto(final(self).srtt, final(self).rttvar),
    {
        match (self.srtt, self.rttvar) {
            (Some(srtt), Some(rttvar)) => {
                let variation: u64 = if srtt >= measured_rtt { srtt - measured_rtt } else { measured_rtt - srtt };
                let new_rttvar: u128 = (3 * (rttvar as u128) + (variation as u128)) / 4;
                let new_srtt: u128 = (7 * (srtt as u128) + (measured_rtt as u128)) / 8;
                assert(new_rttvar <= u64::MAX) by (nonlinear_arith)
                    requires new_rttvar == (3 * (rttvar as u128) + (variation as u128)) / 4, rttvar <= u64::MAX, variation <= u64::MAX;
                assert(new_srtt <= u64::MAX) by (nonlinear_arith)
                    requires new_srtt == (7 * (srtt as u128) + (measured_rtt as u128)) / 8, srtt <= u64::MAX, measured_rtt <= u64::MAX;
                self.rttvar = Some(new_rttvar as u64);
                self.srtt = Some(new_srtt as u64);
            },
            _ => {
                self.srtt = Some(measured_rtt);
                self.rttvar = Some(measured_rtt / 2);
            },
        }
        let s = match self.srtt { Some(s) => s, None => 0 };
        let v = match self.rttvar { Some(v) => v, None => 0 };
        self.rto = Self::computed_rto(s, v);
    }

    /// One more retransmission: the timeout doubles, up to the maximum.
    pub fn do_retransmission(&mut self)
        requires
            old(self).wf(),
        ensures
            final(self).wf(),
            final(self).retransmission_count == old(self).retransmission_count.wrapping_add(1),
            final(self).rto == (if 2 * old(self).rto > MAX_RTO { MAX_RTO as int } else { 2 * old(self).rto }),
            final(self).srtt == old(self).srtt,
            final(self).rttvar == old(self).rttvar,
            backed_off(*old(self), *final(self)),
    {
        self.retransmission_count = self.retransmission_count.wrapping_add(1);
        self.rto = self.rto * 2;
        if self.rto > self.max_rto {
            self.rto = self.max_rto;
        }
    }

    /// Clears the retransmission count and recomputes the timeout from the
    /// estimates (the minimum when there are none).
    pub fn reset(&mut self)
        requires
            old(self).wf(),
        ensures
            final(self).wf(),
            final(self).retransmission_count == 0,
            final(self).srtt == old(self).srtt,
            final(self).rttvar == old(self).rttvar,
            final(self).rto == estimated_rto(old(self).srtt, old(self).rttvar),
    {
        self.retransmission_count = 0;
        match (self.srtt, self.rttvar) {
            (Some(srtt), Some(rttvar)) => {
                self.rto = Self::computed_rto(srtt, rttvar);
            },
            _ => {
                self.rto = MIN_RTO;
            },
        }
    }
}

/// A segment kept for retransmission.
#[derive(Debug)]
pub struct RetrSegment {
    pub seq_num: u32,
    pub payload: Vec<u8>,
    pub flags: u8,
    /// When the segment was last sent.
    pub time_of_send: u64,
    pub checksum: u16,
    pub retransmission_count: u32,
}

/// The content of a segment kept for retransmission.
pub struct RetrSegmentView {
    pub seq_num: u32,
    pub payload: Seq<u8>,
    pub flags: u8,
    pub time_of_send: u64,
    pub checksum: u16,
    pub retransmission_count: u32,
}

impl View for RetrSegment {
    type V = RetrSegmentView;

    open spec fn view(&self) -> RetrSegmentView {
        RetrSegmentView {
            seq_num: self.seq_num,
            payload: self.payload@,
            flags: self.flags,
            time_of_send: self.time_of_send,
            checksum: self.checksum,
            retransmission_count: self.retransmission_count,
        }
    }
}

/// Time elapsed since `then`, zero when `then` is later than `now`.
pub open spec fn elapsed(now: u64, then: u64) -> int {
    if now >= then { now - then } else { 0 }
}

impl RetrSegment {
    /// A segment sent at `now`, not yet retransmitted.
    pub fn new(seq_num: u32, data: Vec<u8>, flags: u8, checksum: u16, now: u64) -> (s: RetrSegment)
        ensures
            s@ == (RetrSegmentView {
                seq_num,
                payload: data@,
                flags,
                time_of_send: now,
                checksum,
                retransmission_count: 0,
            }),
    {
        RetrSegment { seq_num, payload: data, flags, time_of_send: now, checksum, retransmission_count: 0 }
    }

    /// A copy of this segment.
    pub fn duplicate(&self) -> (r: RetrSegment)
        ensures
            r@ == self@,
    {
        RetrSegment {
            seq_num: self.seq_num,
            payload: self.payload.clone(),
            flags: self.flags,
            time_of_send: self.time_of_send,
            checksum: self.checksum,
            retransmission_count: self.retransmission_count,
        }
    }

    /// Whether the segment has waited at least `current_rto` since it was sent.
    pub fn timed_out(&self, current_rto: u64, now: u64) -> (b: bool)
        ensures
            b == (elapsed(now, self.time_of_send) >= current_rto),
    {
        let e = if now >= self.time_of_send { now - self.time_of_send } else { 0 };
        e >= current_rto
    }

    /// Records that the segment was sent again at `now`.
    pub fn update_time_of_send(&mut self, now: u64)
        ensures
            final(self)@ == (RetrSegmentView { time_of_send: now, ..old(self)@ }),
    {
        self.time_of_send = now;
    }
}

/// The number of leading segments of `q` that `ack` acknowledges (their
/// sequence number is below it).
pub open spec fn acked_prefix(q: Seq<RetrSegmentView>, ack: u32) -> nat
    decreases q.len(),
{
    if q.len() == 0 || q[0].seq_num >= ack {
        0
    } else {
        1 + acked_prefix(q.drop_first(), ack)
    }
}

/// The acknowledged prefix is part of the queue.
pub proof fn lemma_acked_prefix_le(q: Seq<RetrSegmentView>, ack: u32)
    ensures
        acked_prefix(q, ack) <= q.len(),
    decreases q.len(),
{
    if q.len() > 0 && q[0].seq_num < ack {
        lemma_acked_prefix_le(q.drop_first(), ack);
    }
}

/// What acknowledgement number `ack` does to a queue with segments `segs`,
/// last acknowledgement `last` and duplicate count `dup` (see
/// `remove_acked_segments`): a new number drops the acknowledged leading
/// segments and clears the count; a repeated one counts a duplicate.
pub open spec fn acked_queue(segs: Seq<RetrSegmentView>, last: u32, dup: u32, ack: u32) -> (Seq<RetrSegmentView>, u32, u32) {
    if ack == last {
        (segs, last, dup.wrapping_add(1))
    } else {
        (segs.skip(acked_prefix(segs, ack) as int), ack, 0)
    }
}

/// The queue of sent segments awaiting acknowledgement, oldest first.
#[derive(Debug)]
pub struct RetransmissionQueue {
    pub queue: VecDeque<RetrSegment>,
    pub dup_ack_count: u32,
    pub last_ack: u32,
}

impl RetransmissionQueue {
    /// The segments, oldest first.
    pub open spec fn segs(&self) -> Seq<RetrSegmentView> {
        self.queue@.map_values(|s: RetrSegment| s@)
    }

    pub fn new() -> (q: RetransmissionQueue)
        ensures
            q.segs().len() == 0,
            q.dup_ack_count == 0,
            q.last_ack == 0,
    {
        RetransmissionQueue { queue: VecDeque::new(), dup_ack_count: 0, last_ack: 0 }
    }

    /// Handles an acknowledgement number. A new number drops every leading
    /// segment below it and resets the duplicate count. A repeated number
    /// counts one more duplicate; on exactly the third, a copy of the oldest
    /// segment is returned when it starts at that number (fast retransmit).
    pub fn remove_acked_segments(&mut self, ack_num: u32) -> (r: Option<RetrSegment>)
        ensures
            ack_num == old(self).last_ack ==> {
                &&& final(self).segs() == old(self).segs()
                &&& final(self).last_ack == old(self).last_ack
                &&& final(self).dup_ack_count == old(self).dup_ack_count.wrapping_add(1)
                &&& (r is Some <==> (final(self).dup_ack_count == 3 && old(self).segs().len() > 0
                        && old(self).segs()[0].seq_num == ack_num))
                &&& r matches Some(s) ==> s@ == old(self).segs()[0]
            },
            ack_num != old(self).last_ack ==> {
                &&& final(self).segs() == old(self).segs().skip(acked_prefix(old(self).segs(), ack_num) as int)
                &&& final(self).last_ack == ack_num
                &&& final(self).dup_ack_count == 0
                &&& r is None
            },
    {
        if ack_num == self.last_ack {
            self.dup_ack_count = self.dup_ack_count.wrapping_add(1);
            if self.dup_ack_count == 3 {
                if self.queue.len() > 0 {
                    if self.queue[0].seq_num == ack_num {
                        return Some(self.queue[0].duplicate());
                    }
                }
            }
            None
        } else {
            self.dup_ack_count = 0;
            self.last_ack = ack_num;
            let ghost s0 = self.segs();
            let ghost mut k: int = 0;
            proof { assert(s0.skip(0) =~= s0); }
            while self.queue.len() > 0 && self.queue[0].seq_num < ack_num
                invariant
                    0 <= k <= s0.len(),
                    self.segs() == s0.skip(k),
                    self.last_ack == ack_num,
                    self.dup_ack_count == 0,
                    acked_prefix(s0, ack_num) == k + acked_prefix(s0.skip(k), ack_num),
                decreases self.queue@.len(),
            {
                let ghost before = self.segs();
                let _ = self.queue.pop_front();
                proof {
                    assert(before.drop_first() =~= s0.skip(k + 1));
                    assert(self.segs() =~= before.drop_first());
                    k = k + 1;
                }
            }
            proof {
                assert(self.segs().len() == 0 || self.segs()[0].seq_num >= ack_num);
                assert(acked_prefix(self.segs(), ack_num) == 0);
            }
            None
        }
    }

    /// Checks the oldest segment for a timeout at `now`. A timed-out segment
    /// that was already retransmitted the maximum number of times is dropped
    /// (nothing is returned); otherwise its count goes up, its send time
    /// becomes `now`, and a copy is returned for retransmission.
    pub fn get_next_timeout(&mut self, current_rto: u64, now: u64) -> (r: Option<RetrSegment>)
        ensures
            final(self).dup_ack_count == old(self).dup_ack_count,
            final(self).last_ack == old(self).last_ack,
            old(self).segs().len() == 0 || elapsed(now, old(self).segs()[0].time_of_send) < current_rto ==> {
                &&& *final(self) == *old(self)
                &&& r is None
            },
            old(self).segs().len() > 0 && elapsed(now, old(self).segs()[0].time_of_send) >= current_rto
                && old(self).segs()[0].retransmission_count >= MAX_RETRANSMISSIONS ==> {
                &&& final(self).segs() == old(self).segs().drop_first()
                &&& r is None
            },
            old(self).segs().len() > 0 && elapsed(now, old(self).segs()[0].time_of_send) >= current_rto
                && old(self).segs()[0].retransmission_count < MAX_RETRANSMISSIONS ==> {
                let s = RetrSegmentView {
                    retransmission_count: (old(self).segs()[0].retransmission_count + 1) as u32,
                    time_of_send: now,
                    ..old(self).segs()[0]
                };
                &&& final(self).segs() == old(self).segs().update(0, s)
                &&& r matches Some(seg) && seg@ == s
            },
    {
        if self.queue.len() == 0 {
            return None;
        }
        if !self.queue[0].timed_out(current_rto, now) {
            return None;
        }
        let ghost s0 = self.segs();
        let mut front = match self.queue.pop_front() {
            Some(f) => f,
            None => { return None; },
        };
        proof { assert(self.segs() =~= s0.drop_first()); }
        if front.retransmission_count >= MAX_RETRANSMISSIONS {
            return None;
        }
        front.retransmission_count = front.retransmission_count + 1;
        front.update_time_of_send(now);
        let copy = front.duplicate();
        self.queue.push_front(front);
        proof { assert(self.segs() =~= s0.update(0, copy@)); }
        Some(copy)
    }

    /// Appends a segment sent at `now`.
    pub fn add_segment(&mut self, seq_num: u32, data: Vec<u8>, flags: u8, checksum: u16, now: u64)
        ensures
            final(self).segs() == old(self).segs().push(RetrSegmentView {
                seq_num,
                payload: data@,
                flags,
                time_of_send: now,
                checksum,
                retransmission_count: 0,
            }),
            final(self).dup_ack_count == old(self).dup_ack_count,
            final(self).last_ack == old(self).last_ack,
    {
        let segment = RetrSegment::new(seq_num, data, flags, checksum, now);
        self.queue.push_back(segment);
        proof { assert(self.segs() =~= old(self).segs().push(segment@)); }
    }

    /// Records that the first segment with sequence number `seq_num` was sent
    /// at `now`.
    pub fn mark_sent(&mut self, seq_num: u32, now: u64)
        ensures
            final(self).dup_ack_count == old(self).dup_ack_count,
            final(self).last_ack == old(self).last_ack,
            (forall|i: int| 0 <= i < old(self).segs().len() ==> (#[trigger] old(self).segs()[i]).seq_num != seq_num)
                ==> final(self).segs() == old(self).segs(),
            forall|i: int| 0 <= i < old(self).segs().len() && (#[trigger] old(self).segs()[i]).seq_num == seq_num
                && (forall|j: int| 0 <= j < i ==> old(self).segs()[j].seq_num != seq_num)
                ==> final(self).segs() == old(self).segs().update(i, RetrSegmentView { time_of_send: now, ..old(self).segs()[i] }),
    {
        let mut i: usize = 0;
        while i < self.queue.len()
            invariant
                self.segs() == old(self).segs(),
                self.dup_ack_count == old(self).dup_ack_count,
                self.last_ack == old(self).last_ack,
                i <= self.queue@.len(),
                forall|j: int| 0 <= j < i ==> self.segs()[j].seq_num != seq_num,
            decreases self.queue@.len() - i,
        {
            if self.queue[i].seq_num == seq_num {
                let ghost s0 = self.segs();
                let mut seg = match self.queue.remove(i) {
                    Some(s) => s,
                    None => { return; },
                };
                seg.update_time_of_send(now);
                self.queue.insert(i, seg);
                proof {
                    assert(self.segs() =~= s0.update(i as int, RetrSegmentView { time_of_send: now, ..s0[i as int] }));
                }
                return;
            }
            i = i + 1;
        }
    }

    /// A round-trip sample from the oldest segment, when `ack_num`
    /// acknowledges it and it was never retransmitted: the time since it was
    /// sent.
    pub fn calculate_rtt(&self, ack_num: u32, now: u64) -> (r: Option<u64>)
        ensures
            r is Some <==> self.segs().len() > 0 && self.segs()[0].seq_num < ack_num
                && self.segs()[0].retransmission_count == 0,
            r matches Some(d) ==> d == elapsed(now, self.segs()[0].time_of_send),
    {
        if self.queue.len() == 0 {
            return None;
        }
        let s = &self.queue[0];
        if s.seq_num < ack_num && s.retransmission_count == 0 {
            Some(if now >= s.time_of_send { now - s.time_of_send } else { 0 })
        } else {
            None
        }
    }

    /// Whether no segment awaits acknowledgement.
    pub fn is_empty(&self) -> (b: bool)
        ensures
            b == (self.segs().len() == 0),
    {
        self.queue.len() == 0
    }
}

} // verus!
