//! What an application does with a connection: sending and receiving,
//! closing, and the steps of the timer and sending loops (the loops
//! themselves, which sleep and wait, belong to the caller).

use vstd::prelude::*;
use crate::tcp::{TcpState, ACK, FIN, SYN, FINACK};
use crate::buffers::{SendBuf, NextData, spec_next_data, spec_recv_read, MAX_MSG_SIZE};
use crate::circ::{circ_contents, circ_len};
use crate::retransmission::{RetrSegmentView, MAX_RETRANSMISSIONS, MAX_RTO, elapsed};
use crate::conn_socket::{ConnectionSocket, SocketEvent, SocketEventView, SocketError, SendStep, events,
    send_event, closed_on_our_side, retransmit_header};

verus! {

/// Nanoseconds between two zero-window probes (five seconds).
pub const ZWP_NANOS: u64 = 5_000_000_000;

/// The timers of one connection that the host's loop keeps: the
/// zero-window probe being repeated, with the time it was last sent, and the
/// time TIME-WAIT began.
#[derive(Debug)]
pub struct ConnTimers {
    pub probe: Option<(Vec<u8>, u64)>,
    pub time_wait_since: Option<u64>,
}

impl ConnTimers {
    /// No probe and no TIME-WAIT.
    pub fn new() -> (t: ConnTimers)
        ensures
            t.probe is None,
            t.time_wait_since is None,
    {
        ConnTimers { probe: None, time_wait_since: None }
    }
}

/// The byte string of the probe being repeated (empty when there is none).
pub open spec fn probe_bytes(t: ConnTimers) -> Seq<u8> {
    match t.probe {
        Some((p, _)) => p@,
        None => Seq::empty(),
    }
}

/// Whether a probe last sent at `last` is due again at `now` (nanoseconds).
pub open spec fn probe_due(last: u64, now: u64) -> bool {
    elapsed(now, last) >= ZWP_NANOS
}

/// Whether TIME-WAIT that began at `since` is over at `now` (nanoseconds):
/// twice the longest timeout has passed.
pub open spec fn time_wait_over(since: u64, now: u64) -> bool {
    elapsed(now, since) >= 2 * MAX_RTO
}

impl ConnectionSocket {
    /// Whether the application may still send: `close` has not been called
    /// on this side.
    pub fn send_allowed(&self) -> (b: bool)
        ensures
            b == !closed_on_our_side(self.state),
    {
        match self.state {
            TcpState::FinWait1 | TcpState::FinWait2 | TcpState::TimeWait | TcpState::LastAck | TcpState::Closed => false,
            _ => true,
        }
    }

    /// Whether the application may still receive: `close` has not been
    /// called on this side, and the peer has not closed or unread bytes
    /// remain.
    pub fn receive_allowed(&self) -> (b: bool)
        ensures
            b == (!closed_on_our_side(self.state)
                && (self.read_buf.final_seq is None || circ_contents(self.read_buf.circ_buffer).len() > 0)),
    {
        let proper_state = match self.state {
            TcpState::FinWait1 | TcpState::FinWait2 | TcpState::TimeWait | TcpState::LastAck | TcpState::Closed => false,
            _ => true,
        };
        let data_out_there = self.read_buf.can_receive();
        proper_state && data_out_there
    }

    /// Takes up to `bytes` received bytes. Fails when receiving is no
    /// longer allowed, or when nothing could be taken.
    pub fn receive(&mut self, bytes: u16) -> (r: Result<Vec<u8>, SocketError>)
        requires
            old(self).wf(),
        ensures
            final(self).wf(),
            ({
                let allowed = !closed_on_our_side(old(self).state)
                    && (old(self).read_buf.final_seq is None || old(self).read_buf.view().data.len() > 0);
                let (d, v1) = spec_recv_read(old(self).read_buf.view(), bytes);
                &&& !allowed ==> *final(self) == *old(self) && r == Err::<Vec<u8>, SocketError>(SocketError::ReceiveNotAllowed)
                &&& allowed ==> {
                    &&& *final(self) == (ConnectionSocket { read_buf: final(self).read_buf, ..*old(self) })
                    &&& final(self).read_buf.view() == v1
                    &&& final(self).read_buf.final_seq == old(self).read_buf.final_seq
                    &&& d.len() == 0 ==> r == Err::<Vec<u8>, SocketError>(SocketError::ReceiveNotAllowed)
                    &&& d.len() > 0 ==> (r matches Ok(v) && v@ == d)
                }
            }),
    {
        if !self.receive_allowed() {
            return Err(SocketError::ReceiveNotAllowed);
        }
        let received = self.read_buf.read(bytes);
        if received.len() == 0 {
            return Err(SocketError::ReceiveNotAllowed);
        }
        Ok(received)
    }

    /// Whether everything written has been sent and acknowledged: nothing
    /// buffered, no probe outstanding, and nothing awaiting
    /// retransmission.
    pub fn is_send_complete(write_buf: &SendBuf) -> (b: bool)
        ensures
            b == (write_buf.view().data.len() == 0 && write_buf.nxt == 0 && !write_buf.probing
                && write_buf.retr_queue.segs().len() == 0),
    {
        circ_len(&write_buf.circ_buffer) == 0 && write_buf.nxt == 0 && !write_buf.probing
            && write_buf.retr_queue.is_empty()
    }

    /// Starts closing this side (once everything sent is acknowledged): in
    /// ESTABLISHED a FIN+ACK is sent and the socket enters FIN-WAIT-1, in
    /// CLOSE-WAIT it enters LAST-ACK. In any other state nothing happens
    /// and the result is false.
    pub fn close(&mut self, now: u64, out: &mut Vec<SocketEvent>) -> (started: bool)
        requires
            old(self).wf(),
        ensures
            final(self).wf(),
            started == (old(self).state == TcpState::Established || old(self).state == TcpState::CloseWait),
            old(self).state == TcpState::Established ==> final(self).state == TcpState::FinWait1,
            old(self).state == TcpState::CloseWait ==> final(self).state == TcpState::LastAck,
            started ==> {
                &&& final(self).seq_num == old(self).seq_num.wrapping_add(1)
                &&& final(self).ack_num == old(self).ack_num
                &&& final(self).read_buf == old(self).read_buf
                &&& final(self).write_buf.view() == old(self).write_buf.view()
                &&& final(self).write_buf.retr_queue.segs() == old(self).write_buf.retr_queue.segs().push(RetrSegmentView {
                    seq_num: old(self).seq_num,
                    payload: Seq::empty(),
                    flags: FINACK,
                    time_of_send: now,
                    checksum: old(self).next_header(FINACK, Seq::empty()).checksum,
                    retransmission_count: 0,
                })
                &&& events(final(out)@) == events(old(out)@).push(send_event(old(self).dst_addr,
                    old(self).next_header(FINACK, Seq::empty()), Seq::empty()))
            },
            !started ==> *final(self) == *old(self) && events(final(out)@) == events(old(out)@),
    {
        let new_state = match self.state {
            TcpState::Established => TcpState::FinWait1,
            TcpState::CloseWait => TcpState::LastAck,
            _ => {
                return false;
            },
        };
        assert((34u8 & (16u8 | 32u8)) != 0u8) by (bit_vector);
        self.send_flags(FINACK, now, out);
        self.state = new_state;
        true
    }

    /// The end of TIME-WAIT (twice the longest timeout after it began): the
    /// socket is closed and the socket table is told.
    pub fn wait_then_close(&mut self, out: &mut Vec<SocketEvent>)
        ensures
            *final(self) == (ConnectionSocket { state: TcpState::Closed, ..*old(self) }),
            events(final(out)@) == events(old(out)@).push(SocketEventView::Closed(old(self).sid)),
    {
        let ghost o0 = out@;
        out.push(SocketEvent::Closed(self.sid));
        proof { assert(events(out@) =~= events(o0).push(SocketEventView::Closed(self.sid))); }
        self.state = TcpState::Closed;
    }

    /// One check of the retransmission timer, made `current_rto` after the
    /// previous one, at time `now`: when the oldest queued segment has timed
    /// out and may still be retransmitted, the timeout is doubled and the
    /// segment is sent again; the result says whether that happened.
    pub fn on_timeout(&mut self, current_rto: u64, now: u64, out: &mut Vec<SocketEvent>) -> (resent: bool)
        requires
            old(self).wf(),
        ensures
            final(self).wf(),
            ({
                let q = old(self).write_buf.retr_queue.segs();
                let due = q.len() > 0 && elapsed(now, q[0].time_of_send) >= current_rto;
                &&& !due ==> !resent && *final(self) == *old(self) && events(final(out)@) == events(old(out)@)
                &&& due && q[0].retransmission_count >= MAX_RETRANSMISSIONS ==> {
                    &&& !resent
                    &&& final(self).write_buf.retr_queue.segs() == q.drop_first()
                    &&& final(self).retr_timer == old(self).retr_timer
                    &&& events(final(out)@) == events(old(out)@)
                }
                &&& due && q[0].retransmission_count < MAX_RETRANSMISSIONS ==> {
                    &&& resent
                    &&& final(self).write_buf.retr_queue.segs() == q.update(0, RetrSegmentView {
                        retransmission_count: (q[0].retransmission_count + 1) as u32,
                        time_of_send: now,
                        ..q[0]
                    })
                    &&& final(self).retr_timer.rto == (if 2 * old(self).retr_timer.rto > MAX_RTO { MAX_RTO as int } else { 2 * old(self).retr_timer.rto })
                    &&& events(final(out)@) == events(old(out)@).push(send_event(old(self).dst_addr,
                        retransmit_header(*old(self), q[0]), q[0].payload))
                }
                &&& final(self).state == old(self).state
                &&& final(self).seq_num == old(self).seq_num
                &&& final(self).ack_num == old(self).ack_num
                &&& final(self).read_buf == old(self).read_buf
                &&& final(self).write_buf.view() == old(self).write_buf.view()
            }),
    {
        let ghost q0 = self.write_buf.retr_queue.segs();
        match self.write_buf.retr_queue.get_next_timeout(current_rto, now) {
            Some(seg) => {
                proof {
                    let q1 = self.write_buf.retr_queue.segs();
                    assert forall|i: int| 0 <= i < q1.len() implies (#[trigger] q1[i]).payload.len() <= MAX_MSG_SIZE by {
                        assert(q0[i].payload.len() <= MAX_MSG_SIZE);
                    }
                }
                self.retr_timer.do_retransmission();
                self.send_segment(seg.seq_num, seg.payload, seg.flags, seg.checksum, out);
                true
            },
            None => {
                proof {
                    let q1 = self.write_buf.retr_queue.segs();
                    assert forall|i: int| 0 <= i < q1.len() implies (#[trigger] q1[i]).payload.len() <= MAX_MSG_SIZE by {
                        if q1 != q0 {
                            assert(q1[i] == q0[i + 1]);
                        }
                    }
                }
                false
            },
        }
    }

    /// One step of the sending loop at time `now`: the send buffer is asked
    /// for its next data; data is sent as a segment, a closed window is
    /// reported with the byte to probe it with, and an empty buffer is
    /// reported as idle.
    pub fn send_next(&mut self, now: u64, out: &mut Vec<SocketEvent>) -> (r: SendStep)
        requires
            old(self).wf(),
        ensures
            final(self).wf(),
            final(self).write_buf.view() == spec_next_data(old(self).write_buf.view()).1,
            final(self).state == old(self).state,
            final(self).ack_num == old(self).ack_num,
            final(self).read_buf == old(self).read_buf,
            ({
                let d = spec_next_data(old(self).write_buf.view()).0;
                let probing = spec_next_data(old(self).write_buf.view()).1.probing;
                &&& d.len() == 0 ==> {
                    &&& r is Idle
                    &&& final(self).seq_num == old(self).seq_num
                    &&& events(final(out)@) == events(old(out)@)
                }
                &&& d.len() > 0 && probing ==> {
                    &&& (r matches SendStep::Probe(p) && p@ == d)
                    &&& final(self).seq_num == old(self).seq_num
                    &&& events(final(out)@) == events(old(out)@)
                }
                &&& d.len() > 0 && !probing ==> {
                    &&& r is Sent
                    &&& final(self).seq_num == ((old(self).seq_num + d.len()) % 0x1_0000_0000) as u32
                    &&& final(self).write_buf.retr_queue.segs() == old(self).write_buf.retr_queue.segs().push(RetrSegmentView {
                        seq_num: old(self).seq_num,
                        payload: d,
                        flags: ACK,
                        time_of_send: now,
                        checksum: old(self).next_header(ACK, d).checksum,
                        retransmission_count: 0,
                    })
                    &&& events(final(out)@) == events(old(out)@).push(send_event(old(self).dst_addr,
                        old(self).next_header(ACK, d), d))
                    &&& old(self).checksum_sent_ok(ACK, d)
                }
            }),
    {
        match self.write_buf.next_data() {
            NextData::Data(data) => {
                self.send_data(data, now, out);
                SendStep::Sent
            },
            NextData::ZeroWindow(probe) => SendStep::Probe(probe),
            NextData::NoData => SendStep::Idle,
        }
    }

    /// Counts an acknowledged zero-window probe: its byte took one sequence
    /// number.
    pub fn end_probe(&mut self)
        ensures
            *final(self) == (ConnectionSocket { seq_num: old(self).seq_num.wrapping_add(1), ..*old(self) }),
    {
        self.seq_num = self.seq_num.wrapping_add(1);
    }

    /// The peer acknowledged the zero-window probe: its byte took one
    /// sequence number (see `end_probe`), and the probe is no longer
    /// repeated.
    pub fn stop_probing(&mut self, timers: &mut ConnTimers)
        ensures
            *final(self) == (ConnectionSocket { seq_num: old(self).seq_num.wrapping_add(1), ..*old(self) }),
            final(timers).probe is None,
            final(timers).time_wait_since == old(timers).time_wait_since,
    {
        self.end_probe();
        timers.probe = None;
    }

    /// Whether a reader waiting on this socket may go on: `close` was
    /// called on this side, bytes are buffered, or the peer has closed.
    pub fn recv_ready(&self) -> (b: bool)
        ensures
            b == (closed_on_our_side(self.state) || circ_contents(self.read_buf.circ_buffer).len() > 0
                || self.read_buf.final_seq is Some),
    {
        !self.receive_allowed() || circ_len(&self.read_buf.circ_buffer) > 0 || self.read_buf.final_seq.is_some()
    }

    /// Whether the peer has closed and every byte it sent has been read.
    pub fn peer_done(&self) -> (b: bool)
        ensures
            b == (self.read_buf.final_seq is Some && circ_contents(self.read_buf.circ_buffer).len() == 0),
    {
        self.read_buf.final_seq.is_some() && circ_len(&self.read_buf.circ_buffer) == 0
    }

    /// Starts zero-window probing with `probe` at time `now`, unless a
    /// probe is already being repeated: while the peer's window is closed
    /// the probe is sent and remembered with the time.
    pub fn begin_probe(&mut self, timers: &mut ConnTimers, probe: Vec<u8>, now: u64, out: &mut Vec<SocketEvent>)
        requires
            old(self).wf(),
            probe@.len() <= MAX_MSG_SIZE,
        ensures
            *final(self) == *old(self),
            final(timers).time_wait_since == old(timers).time_wait_since,
            old(timers).probe is Some || old(self).write_buf.view().rem_window != 0 ==> {
                &&& final(timers).probe == old(timers).probe
                &&& events(final(out)@) == events(old(out)@)
            },
            old(timers).probe is None && old(self).write_buf.view().rem_window == 0 ==> {
                &&& final(timers).probe matches Some((p, t)) && p@ == probe@ && t == now
                &&& events(final(out)@) == events(old(out)@).push(send_event(old(self).dst_addr,
                    old(self).next_header(ACK, probe@), probe@))
            },
    {
        if timers.probe.is_none() {
            if self.probe_if_closed(&probe, out) {
                timers.probe = Some((probe, now));
            }
        }
    }

    /// One tick of the connection's timers at time `now` (nanoseconds): a
    /// probe last sent `ZWP_NANOS` ago or more is sent again while the
    /// peer's window stays closed (and remembered with the time), and is
    /// dropped once the window has opened; a connection that has been in
    /// TIME-WAIT for twice the longest timeout closes (see
    /// `wait_then_close`).
    pub fn timer_tick(&mut self, timers: &mut ConnTimers, now: u64, out: &mut Vec<SocketEvent>)
        requires
            old(self).wf(),
            old(timers).probe matches Some((p, _)) ==> p@.len() <= MAX_MSG_SIZE,
        ensures
            final(timers).time_wait_since == old(timers).time_wait_since,
            ({
                let due = old(timers).probe matches Some((_, last)) && probe_due(last, now);
                let closes = old(timers).time_wait_since matches Some(b) && time_wait_over(b, now);
                let open = old(self).write_buf.view().rem_window != 0;
                let ev1 = if due && !open {
                    events(old(out)@).push(send_event(old(self).dst_addr,
                        old(self).next_header(ACK, probe_bytes(*old(timers))), probe_bytes(*old(timers))))
                } else {
                    events(old(out)@)
                };
                &&& !due ==> final(timers).probe == old(timers).probe
                &&& due && open ==> final(timers).probe is None
                &&& due && !open ==> (final(timers).probe matches Some((p, t)) && p@ == probe_bytes(*old(timers)) && t == now)
                &&& closes ==> *final(self) == (ConnectionSocket { state: TcpState::Closed, ..*old(self) })
                    && events(final(out)@) == ev1.push(SocketEventView::Closed(old(self).sid))
                &&& !closes ==> *final(self) == *old(self) && events(final(out)@) == ev1
            }),
    {
        let taken = timers.probe.take();
        match taken {
            Some((p, last)) => {
                if now >= last && now - last >= ZWP_NANOS {
                    if self.probe_if_closed(&p, out) {
                        timers.probe = Some((p, now));
                    }
                } else {
                    timers.probe = Some((p, last));
                }
            },
            None => {},
        }
        let closes = match timers.time_wait_since {
            Some(b) => now >= b && now - b >= 2 * MAX_RTO,
            None => false,
        };
        if closes {
            self.wait_then_close(out);
        }
    }

    /// One step of zero-window probing: while the peer's window is still
    /// closed, the probe is sent again and the result is true; once it has
    /// opened, nothing is sent and the result is false.
    pub fn probe_if_closed(&mut self, probe: &Vec<u8>, out: &mut Vec<SocketEvent>) -> (again: bool)
        requires
            old(self).wf(),
            probe@.len() <= MAX_MSG_SIZE,
        ensures
            *final(self) == *old(self),
            again == (old(self).write_buf.view().rem_window == 0),
            again ==> events(final(out)@) == events(old(out)@).push(send_event(old(self).dst_addr,
                old(self).next_header(ACK, probe@), probe@)),
            !again ==> events(final(out)@) == events(old(out)@),
    {
        if self.write_buf.rem_window == 0 {
            self.send_probe(probe.clone(), out);
            true
        } else {
            false
        }
    }
}

} // verus!
