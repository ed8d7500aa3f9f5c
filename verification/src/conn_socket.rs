//! A TCP connection: the handshake, data transfer with acknowledgements and
//! fast retransmit, zero-window probing, and teardown.
//!
//! The socket does no I/O itself. Each operation appends what it wants done
//! to a list of events (segments to hand to the IP layer, readers to wake,
//! timers to start), and takes the current time, in nanoseconds, as an
//! argument.

use vstd::prelude::*;
use crate::tcp::{TcpState, TcpAddress, TcpHeader, TcpHeaderView, TcpPacket, tcp_checksum, tcp_header_bytes, set_tcp_checksum,
    calc_tcp_checksum, serialize_tcp, set_flags, header_flags, has_flags, has_only_flags, spec_header_flags,
    URG, ACK, PSH, RST, SYN, FIN, FINACK};
use crate::ipv4::{PacketBasis, PROTOCOL_TCP};
use crate::buffers::{RecvBuf, SendBuf, NextData, spec_ack_ok, spec_recv_add, MAX_MSG_SIZE};
use crate::circ::{BUFFER_CAPACITY, circ_contents};
use crate::retransmission::{RetransmissionTimer, RetrSegmentView, elapsed, acked_prefix, acked_queue, sampled, clamp, MIN_RTO, MAX_RTO};
use crate::rng::random_u32;

verus! {

/// Identifier of a socket in the socket table.
pub type SocketId = u16;

/// Something a socket asks its owner to do.
#[derive(Debug)]
pub enum SocketEvent {
    /// Hand this packet basis to the IP layer.
    Send(PacketBasis),
    /// The socket with this id is closed; drop it from the socket table.
    Closed(SocketId),
    /// Data arrived (or the peer closed): wake a blocked reader.
    DataReady,
    /// A zero-window probe was acknowledged: stop probing.
    StopProbing,
    /// Wait twice the maximum timeout, then close (`wait_then_close`).
    StartTimeWait,
}

/// The content of an event.
pub enum SocketEventView {
    Send { dst_ip: u32, prot_num: u8, msg: Seq<u8> },
    Closed(SocketId),
    DataReady,
    StopProbing,
    StartTimeWait,
}

impl View for SocketEvent {
    type V = SocketEventView;

    open spec fn view(&self) -> SocketEventView {
        match self {
            SocketEvent::Send(pb) => SocketEventView::Send { dst_ip: pb.dst_ip, prot_num: pb.prot_num, msg: pb.msg@ },
            SocketEvent::Closed(sid) => SocketEventView::Closed(*sid),
            SocketEvent::DataReady => SocketEventView::DataReady,
            SocketEvent::StopProbing => SocketEventView::StopProbing,
            SocketEvent::StartTimeWait => SocketEventView::StartTimeWait,
        }
    }
}

/// The contents of a list of events.
pub open spec fn events(v: Seq<SocketEvent>) -> Seq<SocketEventView> {
    v.map_values(|e: SocketEvent| e@)
}

/// The header of a segment this socket builds: its ports, the given sequence
/// and acknowledgement numbers and window, the flags named by `flags`, and
/// the checksum over `payload`.
pub open spec fn seg_header(src: TcpAddress, dst: TcpAddress, seq: u32, ack: u32, window: u16, flags: u8, payload: Seq<u8>) -> TcpHeaderView {
    let h0 = TcpHeaderView {
        source_port: src.port,
        destination_port: dst.port,
        sequence_number: seq,
        acknowledgment_number: ack,
        ns: false,
        fin: (flags & FIN) != 0,
        syn: (flags & SYN) != 0,
        rst: (flags & RST) != 0,
        psh: (flags & PSH) != 0,
        ack: (flags & ACK) != 0,
        urg: (flags & URG) != 0,
        ece: false,
        cwr: false,
        window_size: window,
        checksum: 0,
        urgent_pointer: 0,
        options: Seq::empty(),
    };
    TcpHeaderView { checksum: tcp_checksum(h0, src.ip, dst.ip, payload), ..h0 }
}

/// The event that sends a segment with this header and payload to `dst`.
pub open spec fn send_event(dst: TcpAddress, h: TcpHeaderView, payload: Seq<u8>) -> SocketEventView {
    SocketEventView::Send { dst_ip: dst.ip, prot_num: PROTOCOL_TCP, msg: tcp_header_bytes(h) + payload }
}

/// Whether a state is one where `close` has already been called on our side.
pub open spec fn closed_on_our_side(s: TcpState) -> bool {
    s == TcpState::FinWait1 || s == TcpState::FinWait2 || s == TcpState::TimeWait
        || s == TcpState::LastAck || s == TcpState::Closed
}

/// Why a send or receive was refused.
#[derive(Clone, Copy, Debug, PartialEq, Eq, Structural)]
pub enum SocketError {
    /// The socket was already closed on this side.
    SendNotAllowed,
    /// There is nothing left to receive.
    ReceiveNotAllowed,
    /// No socket has this id (or it is not a connection socket).
    NoSuchSocket,
}

/// What the sending loop should do next.
#[derive(Debug)]
pub enum SendStep {
    /// A data segment was sent.
    Sent,
    /// The peer's window is closed: probe it with this byte.
    Probe(Vec<u8>),
    /// Nothing to send.
    Idle,
}

/// A TCP connection socket.
#[derive(Debug)]
pub struct ConnectionSocket {
    pub state: TcpState,
    pub src_addr: TcpAddress,
    pub dst_addr: TcpAddress,
    pub sid: SocketId,
    /// Next sequence number to send.
    pub seq_num: u32,
    /// Next sequence number expected from the peer.
    pub ack_num: u32,
    pub read_buf: RecvBuf,
    pub write_buf: SendBuf,
    pub retr_timer: RetransmissionTimer,
    pub last_ack_num: u32,
    pub dup_ack_count: u32,
}

impl ConnectionSocket {
    /// The buffers and timer are consistent, and every queued segment fits
    /// one payload.
    pub open spec fn wf(&self) -> bool {
        &&& self.read_buf.wf()
        &&& self.write_buf.wf()
        &&& self.retr_timer.wf()
        &&& forall|i: int| 0 <= i < self.write_buf.retr_queue.segs().len()
            ==> (#[trigger] self.write_buf.retr_queue.segs()[i]).payload.len() <= MAX_MSG_SIZE
    }

    /// The header of the next segment with these flags and payload.
    pub open spec fn next_header(&self, flags: u8, payload: Seq<u8>) -> TcpHeaderView {
        seg_header(self.src_addr, self.dst_addr, self.seq_num, self.ack_num,
            self.read_buf.view().window() as u16, flags, payload)
    }

    /// Whether the segment this socket builds with these flags and payload
    /// carries the checksum that its peer computes for it over the two
    /// addresses, so that the peer's check takes it.
    pub open spec fn checksum_sent_ok(&self, flags: u8, payload: Seq<u8>) -> bool {
        tcp_checksum(self.next_header(flags, payload), self.src_addr.ip, self.dst_addr.ip, payload)
            == self.next_header(flags, payload).checksum
    }

    /// A socket with initial sequence number `seq_num`, nothing received or
    /// sent, and id 0 until the socket table assigns one.
    pub fn with_init_seq(state: TcpState, src_addr: TcpAddress, dst_addr: TcpAddress, seq_num: u32) -> (s: ConnectionSocket)
        ensures
            s.wf(),
            s.state == state,
            s.src_addr == src_addr,
            s.dst_addr == dst_addr,
            s.sid == 0,
            s.seq_num == seq_num,
            s.ack_num == 0,
            s.last_ack_num == 0,
            s.dup_ack_count == 0,
            s.read_buf.view().data.len() == 0,
            s.read_buf.view().early_size == 0,
            s.write_buf.view().data.len() == 0,
            s.write_buf.view().our_init_seq == seq_num,
            s.write_buf.retr_queue.segs().len() == 0,
            s.retr_timer.srtt is None,
    {
        ConnectionSocket {
            state,
            src_addr,
            dst_addr,
            sid: 0,
            seq_num,
            ack_num: 0,
            read_buf: RecvBuf::new(),
            write_buf: SendBuf::new(seq_num),
            retr_timer: RetransmissionTimer::new(),
            last_ack_num: 0,
            dup_ack_count: 0,
        }
    }

    /// A socket whose initial sequence number is a random number below 2^31.
    pub fn new(state: TcpState, src_addr: TcpAddress, dst_addr: TcpAddress) -> (s: ConnectionSocket)
        ensures
            s.wf(),
            s.state == state,
            s.src_addr == src_addr,
            s.dst_addr == dst_addr,
            s.sid == 0,
            s.seq_num < 0x8000_0000,
            s.ack_num == 0,
            s.last_ack_num == 0,
            s.dup_ack_count == 0,
            s.write_buf.view().our_init_seq == s.seq_num,
            s.write_buf.view().data.len() == 0,
            s.write_buf.retr_queue.segs().len() == 0,
            s.read_buf.view().data.len() == 0,
            s.read_buf.view().early_size == 0,
            s.retr_timer.srtt is None,
    {
        let r = random_u32();
        Self::with_init_seq(state, src_addr, dst_addr, r / 2)
    }

    /// The socket's id.
    pub fn get_sid(&self) -> (sid: SocketId)
        ensures
            sid == self.sid,
    {
        self.sid
    }

    /// Sets the socket's id, once the socket table has assigned one.
    pub fn set_sid(&mut self, sid: SocketId)
        ensures
            *final(self) == (ConnectionSocket { sid, ..*old(self) }),
    {
        self.sid = sid;
    }

    /// Builds a segment from this socket: ports, current sequence and
    /// acknowledgement numbers and window, the given flags, and the checksum.
    pub(crate) fn build_packet(&self, payload: Vec<u8>, flags: u8) -> (p: TcpPacket)
        requires
            self.wf(),
            payload@.len() <= 65515,
        ensures
            p.header@ == self.next_header(flags, payload@),
            p.payload@ == payload@,
            p.header@.wf(),
            self.checksum_sent_ok(flags, payload@),
    {
        let window_size = self.read_buf.window();
        let mut tcp_header = TcpHeader::new(self.src_addr.port, self.dst_addr.port, self.seq_num, window_size);
        tcp_header.acknowledgment_number = self.ack_num;
        set_flags(&mut tcp_header, flags);
        let checksum = match calc_tcp_checksum(&tcp_header, self.src_addr.ip, self.dst_addr.ip, payload.as_slice()) {
            Some(c) => c,
            None => 0,
        };
        let ghost h0 = tcp_header@;
        tcp_header.checksum = checksum;
        proof { assert(tcp_header@ == set_tcp_checksum(h0, checksum)); }
        TcpPacket { header: tcp_header, payload }
    }

    /// The packet basis that carries a segment to the peer.
    pub(crate) fn packet_basis(&self, tpack: TcpPacket) -> (pb: PacketBasis)
        requires
            tpack.header@.wf(),
        ensures
            pb.dst_ip == self.dst_addr.ip,
            pb.prot_num == PROTOCOL_TCP,
            pb.msg@ == tcp_header_bytes(tpack.header@) + tpack.payload@,
    {
        PacketBasis { dst_ip: self.dst_addr.ip, prot_num: PROTOCOL_TCP, msg: serialize_tcp(tpack) }
    }

    /// Builds a segment and asks for it to be sent; returns its sequence
    /// number, checksum and payload.
    pub(crate) fn build_and_send(&mut self, payload: Vec<u8>, flags: u8, out: &mut Vec<SocketEvent>) -> (r: (u32, u16, Vec<u8>))
        requires
            old(self).wf(),
            payload@.len() <= 65515,
        ensures
            *final(self) == *old(self),
            events(final(out)@) == events(old(out)@).push(send_event(old(self).dst_addr, old(self).next_header(flags, payload@), payload@)),
            r.0 == old(self).seq_num,
            r.1 == old(self).next_header(flags, payload@).checksum,
            r.2@ == payload@,
            old(self).checksum_sent_ok(flags, payload@),
    {
        let new_pack = self.build_packet(payload, flags);
        let seq = new_pack.header.sequence_number;
        let checksum = new_pack.header.checksum;
        let data = new_pack.payload.clone();
        let pbasis = self.packet_basis(new_pack);
        let ghost o0 = out@;
        out.push(SocketEvent::Send(pbasis));
        proof { assert(events(out@) =~= events(o0).push(out@.last()@)); }
        (seq, checksum, data)
    }

    /// Sends a segment with no data and the given flags at time `now`. A
    /// SYN or FIN is queued for retransmission and takes one sequence number.
    pub fn send_flags(&mut self, flags: u8, now: u64, out: &mut Vec<SocketEvent>)
        requires
            old(self).wf(),
        ensures
            final(self).wf(),
            events(final(out)@) == events(old(out)@).push(send_event(old(self).dst_addr, old(self).next_header(flags, Seq::empty()), Seq::empty())),
            old(self).checksum_sent_ok(flags, Seq::empty()),
            (flags & (SYN | FIN)) != 0 ==> {
                &&& final(self).seq_num == old(self).seq_num.wrapping_add(1)
                &&& final(self).write_buf.retr_queue.segs() == old(self).write_buf.retr_queue.segs().push(RetrSegmentView {
                    seq_num: old(self).seq_num,
                    payload: Seq::empty(),
                    flags,
                    time_of_send: now,
                    checksum: old(self).next_header(flags, Seq::empty()).checksum,
                    retransmission_count: 0,
                })
            },
            (flags & (SYN | FIN)) == 0 ==> final(self).seq_num == old(self).seq_num
                && final(self).write_buf.retr_queue.segs() == old(self).write_buf.retr_queue.segs(),
            final(self).state == old(self).state,
            final(self).ack_num == old(self).ack_num,
            final(self).read_buf == old(self).read_buf,
            final(self).write_buf.view() == old(self).write_buf.view(),
            final(self).write_buf.retr_queue.dup_ack_count == old(self).write_buf.retr_queue.dup_ack_count,
            final(self).write_buf.retr_queue.last_ack == old(self).write_buf.retr_queue.last_ack,
            final(self).retr_timer == old(self).retr_timer,
            final(self).last_ack_num == old(self).last_ack_num,
            final(self).dup_ack_count == old(self).dup_ack_count,
            final(self).src_addr == old(self).src_addr,
            final(self).dst_addr == old(self).dst_addr,
            final(self).sid == old(self).sid,
    {
        let (seq, checksum, payload) = self.build_and_send(Vec::new(), flags, out);
        proof { assert(payload@ =~= Seq::<u8>::empty()); }
        if (flags & (SYN | FIN)) != 0 {
            self.write_buf.retr_queue.add_segment(seq, payload, flags, checksum, now);
            self.seq_num = self.seq_num.wrapping_add(1);
        }
    }

    /// Sends a data segment at time `now`, queues it for retransmission, and
    /// advances the sequence number by its length.
    pub(crate) fn send_data(&mut self, data: Vec<u8>, now: u64, out: &mut Vec<SocketEvent>)
        requires
            old(self).wf(),
            data@.len() <= MAX_MSG_SIZE,
        ensures
            final(self).wf(),
            events(final(out)@) == events(old(out)@).push(send_event(old(self).dst_addr, old(self).next_header(ACK, data@), data@)),
            old(self).checksum_sent_ok(ACK, data@),
            final(self).seq_num == ((old(self).seq_num + data@.len()) % 0x1_0000_0000) as u32,
            final(self).write_buf.retr_queue.segs() == old(self).write_buf.retr_queue.segs().push(RetrSegmentView {
                seq_num: old(self).seq_num,
                payload: data@,
                flags: ACK,
                time_of_send: now,
                checksum: old(self).next_header(ACK, data@).checksum,
                retransmission_count: 0,
            }),
            final(self).state == old(self).state,
            final(self).ack_num == old(self).ack_num,
            final(self).read_buf == old(self).read_buf,
            final(self).write_buf.view() == old(self).write_buf.view(),
    {
        let len = data.len();
        let (seq, checksum, payload) = self.build_and_send(data, ACK, out);
        self.write_buf.retr_queue.add_segment(seq, payload, ACK, checksum, now);
        self.seq_num = ((self.seq_num as u64 + len as u64) % 0x1_0000_0000) as u32;
    }

    /// Sends a zero-window probe; probes take no sequence number.
    pub fn send_probe(&mut self, data: Vec<u8>, out: &mut Vec<SocketEvent>)
        requires
            old(self).wf(),
            data@.len() <= 65515,
        ensures
            *final(self) == *old(self),
            events(final(out)@) == events(old(out)@).push(send_event(old(self).dst_addr, old(self).next_header(ACK, data@), data@)),
            old(self).checksum_sent_ok(ACK, data@),
    {
        let _ = self.build_and_send(data, ACK, out);
    }

    /// Sends a segment again: built afresh, with its original sequence
    /// number and checksum.
    pub(crate) fn send_segment(&mut self, seq_num: u32, payload: Vec<u8>, flags: u8, checksum: u16, out: &mut Vec<SocketEvent>)
        requires
            old(self).wf(),
            payload@.len() <= 65515,
        ensures
            *final(self) == *old(self),
            events(final(out)@) == events(old(out)@).push(send_event(old(self).dst_addr, TcpHeaderView {
                checksum,
                sequence_number: seq_num,
                ..old(self).next_header(flags, payload@)
            }, payload@)),
    {
        let mut tpack = self.build_packet(payload, flags);
        tpack.header.checksum = checksum;
        tpack.header.sequence_number = seq_num;
        let pbasis = self.packet_basis(tpack);
        let ghost o0 = out@;
        out.push(SocketEvent::Send(pbasis));
        proof { assert(events(out@) =~= events(o0).push(out@.last()@)); }
    }

    /// Starts the handshake: sends a SYN and enters SYN-SENT.
    pub fn first_syn(&mut self, now: u64, out: &mut Vec<SocketEvent>)
        requires
            old(self).wf(),
        ensures
            final(self).wf(),
            final(self).state == TcpState::SynSent,
            final(self).seq_num == old(self).seq_num.wrapping_add(1),
            events(final(out)@) == events(old(out)@).push(send_event(old(self).dst_addr, old(self).next_header(SYN, Seq::empty()), Seq::empty())),
            old(self).checksum_sent_ok(SYN, Seq::empty()),
            final(self).write_buf.retr_queue.segs() == old(self).write_buf.retr_queue.segs().push(RetrSegmentView {
                seq_num: old(self).seq_num,
                payload: Seq::empty(),
                flags: SYN,
                time_of_send: now,
                checksum: old(self).next_header(SYN, Seq::empty()).checksum,
                retransmission_count: 0,
            }),
            final(self).write_buf.retr_queue.last_ack == old(self).write_buf.retr_queue.last_ack,
            final(self).write_buf.retr_queue.dup_ack_count == old(self).write_buf.retr_queue.dup_ack_count,
            final(self).write_buf.view() == old(self).write_buf.view(),
            final(self).read_buf == old(self).read_buf,
            final(self).retr_timer == old(self).retr_timer,
            final(self).src_addr == old(self).src_addr,
            final(self).dst_addr == old(self).dst_addr,
            final(self).sid == old(self).sid,
            final(self).ack_num == old(self).ack_num,
    {
        assert((16u8 & (16u8 | 32u8)) != 0u8) by (bit_vector);
        self.send_flags(SYN, now, out);
        self.state = TcpState::SynSent;
    }

    /// Learns the peer's initial sequence number: the next expected number
    /// is one past it.
    pub(crate) fn set_init_ack(&mut self, rem_seq_num: u32)
        requires
            old(self).wf(),
        ensures
            final(self).wf(),
            *final(self) == (ConnectionSocket { ack_num: rem_seq_num.wrapping_add(1), read_buf: final(self).read_buf, ..*old(self) }),
            final(self).read_buf.view() == (crate::buffers::RecvBufView { rem_init_seq: rem_seq_num, ..old(self).read_buf.view() }),
            final(self).read_buf.final_seq == old(self).read_buf.final_seq,
    {
        self.ack_num = rem_seq_num.wrapping_add(1);
        self.read_buf.set_init_seq(rem_seq_num);
    }

    /// Passes an acknowledgement number to the retransmission queue; on a
    /// fast retransmit candidate the timer takes the time since that segment
    /// was sent as a round-trip sample and is reset.
    pub(crate) fn ack_rt(&mut self, ack_num: u32, now: u64)
        requires
            old(self).wf(),
        ensures
            final(self).wf(),
            final(self).state == old(self).state,
            ack_rt_effect(*old(self), *final(self), ack_num, now),
    {
        let ghost q0 = self.write_buf.retr_queue.segs();
        match self.write_buf.retr_queue.remove_acked_segments(ack_num) {
            Some(seg) => {
                let sample = if now >= seg.time_of_send { now - seg.time_of_send } else { 0 };
                self.retr_timer.update_rto(sample);
                self.retr_timer.reset();
            },
            None => {},
        }
        proof {
            let q1 = self.write_buf.retr_queue.segs();
            assert forall|i: int| 0 <= i < q1.len() implies (#[trigger] q1[i]).payload.len() <= MAX_MSG_SIZE by {
                if ack_num != old(self).write_buf.retr_queue.last_ack {
                    let k = crate::retransmission::acked_prefix(q0, ack_num) as int;
                    crate::retransmission::lemma_acked_prefix_le(q0, ack_num);
                    assert(q1[i] == q0.skip(k)[i]);
                    assert(q0[i + k] == q0.skip(k)[i]);
                }
            }
        }
    }
}

} // verus!

verus! {

/// The state a connection moves to on a segment with flags `f`: `empty`
/// says whether it carries no data, `acks_all` whether its acknowledgement
/// number equals our next sequence number (everything we sent, FIN included,
/// is acknowledged).
pub open spec fn spec_next_state(st: TcpState, f: u8, empty: bool, acks_all: bool) -> TcpState {
    match st {
        TcpState::Initialized => TcpState::SynRecvd,
        TcpState::SynSent => if f == SYN | ACK { TcpState::Established } else { TcpState::SynSent },
        TcpState::SynRecvd => if f == ACK { TcpState::Established } else { TcpState::SynRecvd },
        TcpState::Established => if f == FINACK { TcpState::CloseWait } else { TcpState::Established },
        TcpState::FinWait1 => if f == ACK && empty && acks_all {
            TcpState::FinWait2
        } else if f == FINACK && acks_all {
            TcpState::TimeWait
        } else {
            TcpState::FinWait1
        },
        TcpState::FinWait2 => if f == FINACK { TcpState::TimeWait } else { TcpState::FinWait2 },
        TcpState::LastAck => if f == ACK && empty && acks_all { TcpState::Closed } else { TcpState::LastAck },
        _ => st,
    }
}

/// Whether data of a segment can be taken into the receive buffer: a
/// segment ahead of the expected one must fit next to what is buffered.
pub open spec fn absorb_ok(b: RecvBuf, seq: u32, len: nat) -> bool {
    seq > b.view().expected() ==> circ_contents(b.circ_buffer).len() + b.early_arrivals.size + len <= BUFFER_CAPACITY
}

/// Whether acknowledgement `a` can be processed: an advancing one must be
/// acceptable to the send buffer.
pub open spec fn ack_cond(s: ConnectionSocket, a: u32) -> bool {
    a > s.last_ack_num ==> spec_ack_ok(s.write_buf.view(), a)
}

/// The segments a socket can handle without failing (the cases where
/// handling would stop the program are left out): no RST, a payload that a
/// checksum can be computed over, a state that takes segments, only a SYN
/// in the state created for an incoming SYN, and acknowledgements and data
/// that the buffers can take.
pub open spec fn handle_ok(s: ConnectionSocket, h: TcpHeaderView, payload: Seq<u8>) -> bool {
    let f = spec_header_flags(h);
    let empty = payload.len() == 0;
    &&& (f & RST) != RST
    &&& payload.len() <= 65535 - h.header_len()
    &&& s.state != TcpState::Listening && s.state != TcpState::AwaitingRun
    &&& s.state == TcpState::Initialized ==> f == SYN
    &&& (s.state == TcpState::Established || s.state == TcpState::FinWait1 || s.state == TcpState::FinWait2) ==> {
        &&& f == ACK && empty ==> ack_cond(s, h.acknowledgment_number)
        &&& f == ACK && !empty ==> absorb_ok(s.read_buf, h.sequence_number, payload.len())
    }
    &&& s.state == TcpState::FinWait2 && f == FINACK && !empty ==> absorb_ok(s.read_buf, h.sequence_number, payload.len())
    &&& (s.state == TcpState::TimeWait || s.state == TcpState::CloseWait) && f == ACK && empty
        ==> ack_cond(s, h.acknowledgment_number)
    &&& s.state == TcpState::LastAck && f == ACK && empty && h.acknowledgment_number != s.seq_num
        ==> ack_cond(s, h.acknowledgment_number)
}

/// What `ack_rt` does with acknowledgement `a` at time `now`, to every part
/// of socket `s0` but its state: the retransmission queue drops the segments
/// that `a` covers (or, for a repeated `a`, counts a duplicate); when that
/// count reaches three with a queued segment at `a`, the timer takes the time
/// since that segment was sent as a sample and is reset. Nothing else changes.
pub open spec fn ack_rt_effect(s0: ConnectionSocket, s1: ConnectionSocket, a: u32, now: u64) -> bool {
    let q0 = s0.write_buf.retr_queue;
    let q1 = s1.write_buf.retr_queue;
    let fast = a == q0.last_ack && q0.dup_ack_count.wrapping_add(1) == 3
        && q0.segs().len() > 0 && q0.segs()[0].seq_num == a;
    &&& s1.seq_num == s0.seq_num
    &&& s1.ack_num == s0.ack_num
    &&& s1.read_buf == s0.read_buf
    &&& s1.write_buf.view() == s0.write_buf.view()
    &&& s1.last_ack_num == s0.last_ack_num
    &&& s1.dup_ack_count == s0.dup_ack_count
    &&& s1.src_addr == s0.src_addr
    &&& s1.dst_addr == s0.dst_addr
    &&& s1.sid == s0.sid
    &&& a != q0.last_ack ==> {
        &&& q1.segs() == q0.segs().skip(acked_prefix(q0.segs(), a) as int)
        &&& q1.last_ack == a
        &&& q1.dup_ack_count == 0
    }
    &&& a == q0.last_ack ==> {
        &&& q1.segs() == q0.segs()
        &&& q1.last_ack == q0.last_ack
        &&& q1.dup_ack_count == q0.dup_ack_count.wrapping_add(1)
    }
    &&& !fast ==> s1.retr_timer == s0.retr_timer
    &&& fast ==> {
        let est = sampled(s0.retr_timer.srtt, s0.retr_timer.rttvar, elapsed(now, q0.segs()[0].time_of_send) as u64);
        &&& s1.retr_timer.srtt == est.0
        &&& s1.retr_timer.rttvar == est.1
        &&& s1.retr_timer.rto == clamp(est.0->0 + 4 * est.1->0, MIN_RTO as int, MAX_RTO as int)
        &&& s1.retr_timer.retransmission_count == 0
    }
}

/// What `ack` does with acknowledgement `a` and advertised window `w` at
/// time `now`, to every part of socket `s0` but its state, and to the list
/// of events (`e0` before, `e1` after).
///
/// An advancing acknowledgement drops the bytes it covers from the send
/// buffer (ending a probe it covers, which asks to stop probing), drops the
/// segments it covers from the retransmission queue, and resets the
/// duplicate count. A repeated one takes a larger window and resets the
/// count, or else counts a duplicate, and the third duplicate resends the
/// oldest queued segment. An older one changes nothing.
pub open spec fn ack_effect(s0: ConnectionSocket, s1: ConnectionSocket, a: u32, w: u16, now: u64,
    e0: Seq<SocketEventView>, e1: Seq<SocketEventView>) -> bool
{
    let v = s0.write_buf.view();
    let rel = crate::buffers::relative_ack(v, a);
    let q0 = s0.write_buf.retr_queue;
    let q1 = s1.write_buf.retr_queue;
    &&& s1.seq_num == s0.seq_num
    &&& s1.ack_num == s0.ack_num
    &&& s1.read_buf == s0.read_buf
    &&& s1.src_addr == s0.src_addr
    &&& s1.dst_addr == s0.dst_addr
    &&& s1.sid == s0.sid
    &&& if a > s0.last_ack_num {
        let r1 = acked_queue(q0.segs(), q0.last_ack, q0.dup_ack_count, a);
        let r2 = acked_queue(r1.0, r1.1, r1.2, a);
        let fast = r2.2 == 3 && r1.0.len() > 0 && r1.0[0].seq_num == a;
        &&& (q1.segs(), q1.last_ack, q1.dup_ack_count) == r2
        &&& !fast ==> s1.retr_timer == s0.retr_timer
        &&& fast ==> {
            let est = sampled(s0.retr_timer.srtt, s0.retr_timer.rttvar, elapsed(now, r1.0[0].time_of_send) as u64);
            &&& s1.retr_timer.srtt == est.0
            &&& s1.retr_timer.rttvar == est.1
            &&& s1.retr_timer.rto == clamp(est.0->0 + 4 * est.1->0, MIN_RTO as int, MAX_RTO as int)
            &&& s1.retr_timer.retransmission_count == 0
        }
        &&& s1.last_ack_num == a
        &&& s1.dup_ack_count == 0
        &&& s1.write_buf.view() == (crate::buffers::SendBufView {
            data: v.data.skip(rel),
            nxt: (crate::buffers::acked_nxt(v, rel) - rel) as nat,
            num_acked: (v.num_acked + rel) as u32,
            probing: v.probing && !(rel > v.nxt),
            ..v
        })
        &&& e1 == if v.probing && rel > v.nxt { e0.push(SocketEventView::StopProbing) } else { e0 }
    } else if a == s0.last_ack_num {
        &&& s1.last_ack_num == a
        &&& q1 == q0
        &&& s1.retr_timer == s0.retr_timer
        &&& w > v.rem_window ==> s1.dup_ack_count == 0
            && s1.write_buf.view() == (crate::buffers::SendBufView { rem_window: w, ..v })
            && e1 == e0
        &&& w <= v.rem_window ==> s1.dup_ack_count == s0.dup_ack_count.wrapping_add(1)
            && s1.write_buf.view() == v
            && (s1.dup_ack_count != 3 || q0.segs().len() == 0 ==> e1 == e0)
            && (s1.dup_ack_count == 3 && q0.segs().len() > 0
                ==> e1 == e0.push(send_event(s0.dst_addr, retransmit_header(s0, q0.segs()[0]), q0.segs()[0].payload)))
    } else {
        &&& s1.write_buf == s0.write_buf
        &&& s1.retr_timer == s0.retr_timer
        &&& s1.last_ack_num == s0.last_ack_num
        &&& s1.dup_ack_count == s0.dup_ack_count
        &&& e1 == e0
    }
}

impl ConnectionSocket {
    /// Takes a segment's data into the receive buffer, sets the
    /// acknowledgement number to the next expected byte, and wakes readers.
    pub(crate) fn absorb_packet(&mut self, tpack: TcpPacket, out: &mut Vec<SocketEvent>)
        requires
            old(self).wf(),
            absorb_ok(old(self).read_buf, tpack.header.sequence_number, tpack.payload@.len()),
        ensures
            final(self).wf(),
            final(self).read_buf.view() == spec_recv_add(old(self).read_buf.view(), tpack.header.sequence_number, tpack.payload@),
            final(self).read_buf.final_seq == old(self).read_buf.final_seq,
            final(self).ack_num == final(self).read_buf.view().expected(),
            events(final(out)@) == events(old(out)@).push(SocketEventView::DataReady),
            final(self).state == old(self).state,
            final(self).seq_num == old(self).seq_num,
            final(self).write_buf == old(self).write_buf,
            final(self).retr_timer == old(self).retr_timer,
            final(self).last_ack_num == old(self).last_ack_num,
            final(self).dup_ack_count == old(self).dup_ack_count,
            final(self).src_addr == old(self).src_addr,
            final(self).dst_addr == old(self).dst_addr,
            final(self).sid == old(self).sid,
    {
        let new_ack = self.read_buf.add(tpack.header.sequence_number, tpack.payload);
        self.ack_num = new_ack;
        let ghost o0 = out@;
        out.push(SocketEvent::DataReady);
        proof { assert(events(out@) =~= events(o0).push(SocketEventView::DataReady)); }
    }

    /// Takes a segment's data and acknowledges it.
    pub(crate) fn absorb_and_acknowledge(&mut self, tpack: TcpPacket, now: u64, out: &mut Vec<SocketEvent>)
        requires
            old(self).wf(),
            absorb_ok(old(self).read_buf, tpack.header.sequence_number, tpack.payload@.len()),
        ensures
            final(self).wf(),
            final(self).read_buf.view() == spec_recv_add(old(self).read_buf.view(), tpack.header.sequence_number, tpack.payload@),
            final(self).ack_num == final(self).read_buf.view().expected(),
            events(final(out)@) == events(old(out)@).push(SocketEventView::DataReady)
                .push(send_event(final(self).dst_addr, final(self).next_header(ACK, Seq::empty()), Seq::empty())),
            final(self).state == old(self).state,
            final(self).seq_num == old(self).seq_num,
            final(self).write_buf.view() == old(self).write_buf.view(),
            final(self).last_ack_num == old(self).last_ack_num,
            final(self).dup_ack_count == old(self).dup_ack_count,
            final(self).src_addr == old(self).src_addr,
            final(self).dst_addr == old(self).dst_addr,
            final(self).sid == old(self).sid,
    {
        self.absorb_packet(tpack, out);
        assert((2u8 & (16u8 | 32u8)) == 0u8) by (bit_vector);
        self.send_flags(ACK, now, out);
    }

    /// Handles an acknowledgement (and the window it advertises). An
    /// advancing acknowledgement drops the acknowledged segments and bytes;
    /// a repeated one either updates a growing window or counts a duplicate,
    /// and the third duplicate resends the oldest queued segment.
    pub(crate) fn ack(&mut self, tpack: &TcpPacket, now: u64, out: &mut Vec<SocketEvent>)
        requires
            old(self).wf(),
            ack_cond(*old(self), tpack.header.acknowledgment_number),
        ensures
            final(self).wf(),
            final(self).state == old(self).state,
            ack_effect(*old(self), *final(self), tpack.header.acknowledgment_number, tpack.header.window_size, now,
                events(old(out)@), events(final(out)@)),
    {
        let ack_num = tpack.header.acknowledgment_number;
        let new_window = tpack.header.window_size;
        let old_window = self.write_buf.rem_window;
        if ack_num > self.last_ack_num {
            self.last_ack_num = ack_num;
            self.dup_ack_count = 0;
            let ghost q0 = self.write_buf.retr_queue.segs();
            let _ = self.write_buf.retr_queue.remove_acked_segments(ack_num);
            proof {
                let q1 = self.write_buf.retr_queue.segs();
                assert forall|i: int| 0 <= i < q1.len() implies (#[trigger] q1[i]).payload.len() <= MAX_MSG_SIZE by {
                    if ack_num != old(self).write_buf.retr_queue.last_ack {
                        let k = crate::retransmission::acked_prefix(q0, ack_num) as int;
                        crate::retransmission::lemma_acked_prefix_le(q0, ack_num);
                        assert(q1[i] == q0.skip(k)[i]);
                    }
                }
            }
            let stopped = self.write_buf.ack_data(ack_num);
            if stopped {
                let ghost o0 = out@;
                out.push(SocketEvent::StopProbing);
                proof { assert(events(out@) =~= events(o0).push(SocketEventView::StopProbing)); }
            }
            self.ack_rt(ack_num, now);
        } else if ack_num == self.last_ack_num {
            if new_window > old_window {
                self.write_buf.update_window(new_window);
                self.dup_ack_count = 0;
            } else {
                self.dup_ack_count = self.dup_ack_count.wrapping_add(1);
                if self.dup_ack_count == 3 {
                    if self.write_buf.retr_queue.queue.len() > 0 {
                        let seg = self.write_buf.retr_queue.queue[0].duplicate();
                        proof { assert(seg@ == self.write_buf.retr_queue.segs()[0]); }
                        self.send_segment(seg.seq_num, seg.payload, seg.flags, seg.checksum, out);
                    }
                }
            }
        }
    }
}

/// The header of a retransmitted segment: built afresh with the segment's
/// flags and payload, then given its original sequence number and checksum.
pub open spec fn retransmit_header(s: ConnectionSocket, seg: RetrSegmentView) -> TcpHeaderView {
    TcpHeaderView {
        checksum: seg.checksum,
        sequence_number: seg.seq_num,
        ..s.next_header(seg.flags, seg.payload)
    }
}

} // verus!
