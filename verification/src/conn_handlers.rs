//! How a connection socket answers an incoming segment, state by state.

use vstd::prelude::*;
use crate::tcp::{TcpState, TcpPacket, TcpHeaderView, tcp_checksum, calc_tcp_checksum, header_flags,
    spec_header_flags, ACK, SYN, RST, FINACK};
use crate::ipv4::IpHeader;
use crate::circ::{circ_len, BUFFER_CAPACITY};
use crate::buffers::{RecvBufView, SendBuf, spec_recv_add};
use crate::conn_socket::{ConnectionSocket, SocketEvent, SocketEventView, events, send_event, seg_header,
    spec_next_state, absorb_ok, ack_cond, handle_ok, closed_on_our_side, ack_rt_effect, ack_effect};

verus! {

/// The event that sends a bare ACK from socket `s` as it stands.
pub open spec fn ack_event(s: ConnectionSocket) -> SocketEventView {
    send_event(s.dst_addr, s.next_header(ACK, Seq::empty()), Seq::empty())
}

/// Whether the checksum a segment carries is the one computed over its
/// header, payload and the addresses of the IP packet it came in.
pub open spec fn checksum_ok(h: TcpHeaderView, payload: Seq<u8>, src: u32, dst: u32) -> bool {
    tcp_checksum(h, src, dst, payload) == h.checksum
}

/// The segments that `handle_packet` takes: no RST and a payload that a
/// checksum can be computed over (where handling would stop the program
/// whatever the checksum); when the checksum is right, also a segment the
/// socket can handle (`handle_ok`). A segment with a wrong checksum is
/// otherwise always taken, and dropped.
pub open spec fn handle_pre(s: ConnectionSocket, h: TcpHeaderView, payload: Seq<u8>, src: u32, dst: u32) -> bool {
    &&& (spec_header_flags(h) & RST) != RST
    &&& payload.len() <= 65535 - h.header_len()
    &&& checksum_ok(h, payload, src, dst) ==> handle_ok(s, h, payload)
}

/// The peer's window as a handler leaves it: unchanged, unless a repeated
/// acknowledgement advertised a larger one.
pub open spec fn window_kept(s0: ConnectionSocket, s1: ConnectionSocket, h: TcpHeaderView) -> bool {
    s1.write_buf.view().rem_window == s0.write_buf.view().rem_window
        || (h.acknowledgment_number == s0.last_ack_num && h.window_size > s0.write_buf.view().rem_window)
}

/// Socket `s` with the peer's advertised window recorded as `w`, as
/// `handle_packet` leaves it before the state's handler runs.
pub open spec fn with_window(s: ConnectionSocket, w: u16) -> ConnectionSocket {
    ConnectionSocket { write_buf: SendBuf { rem_window: w, ..s.write_buf }, ..s }
}

/// A bare acknowledgement as the teardown states and CLOSE-WAIT take it:
/// first passed to the retransmission queue (`ack_rt_effect`), then handled
/// as `ack` does (`ack_effect`).
pub open spec fn rt_then_ack(s0: ConnectionSocket, s1: ConnectionSocket, a: u32, w: u16, now: u64,
    e0: Seq<SocketEventView>, e1: Seq<SocketEventView>) -> bool
{
    exists|m: ConnectionSocket| #[trigger] ack_rt_effect(s0, m, a, now) && ack_effect(m, s1, a, w, now, e0, e1)
}

/// The larger of two acknowledgement numbers.
pub open spec fn max_ack(a: u32, b: u32) -> u32 {
    if a > b { a } else { b }
}

impl ConnectionSocket {
    /// Whether the segment's checksum matches the one computed for it.
    fn check_tcp_checksum(&self, tpack: &TcpPacket, ip_head: &IpHeader) -> (b: bool)
        requires
            tpack.header@.wf(),
            tpack.payload@.len() <= 65535 - tpack.header@.header_len(),
        ensures
            b == checksum_ok(tpack.header@, tpack.payload@, ip_head.source, ip_head.destination),
    {
        match calc_tcp_checksum(&tpack.header, ip_head.source, ip_head.destination, tpack.payload.as_slice()) {
            Some(c) => c == tpack.header.checksum,
            None => false,
        }
    }

    /// A SYN on a socket made for an incoming connection: learn the peer's
    /// sequence number, answer with SYN+ACK, and enter SYN-RECEIVED.
    fn process_syn(&mut self, tpack: &TcpPacket, now: u64, out: &mut Vec<SocketEvent>) -> (st: TcpState)
        requires
            old(self).wf(),
        ensures
            final(self).wf(),
            window_kept(*old(self), *final(self), tpack.header@),
            st == TcpState::SynRecvd,
            final(self).ack_num == tpack.header.sequence_number.wrapping_add(1),
            final(self).seq_num == old(self).seq_num.wrapping_add(1),
            final(self).read_buf.view() == (RecvBufView { rem_init_seq: tpack.header.sequence_number, ..old(self).read_buf.view() }),
            events(final(out)@) == events(old(out)@).push(send_event(old(self).dst_addr,
                seg_header(old(self).src_addr, old(self).dst_addr, old(self).seq_num, final(self).ack_num,
                    old(self).read_buf.view().window() as u16, SYN | ACK, Seq::empty()), Seq::empty())),
            final(self).state == old(self).state,
            final(self).src_addr == old(self).src_addr,
            final(self).dst_addr == old(self).dst_addr,
            final(self).sid == old(self).sid,
    {
        self.set_init_ack(tpack.header.sequence_number);
        self.ack_rt(tpack.header.acknowledgment_number, now);
        assert(((16u8 | 2u8) & (16u8 | 32u8)) != 0u8) by (bit_vector);
        self.send_flags(SYN | ACK, now, out);
        TcpState::SynRecvd
    }

    /// In SYN-SENT: a SYN+ACK completes our side of the handshake; it is
    /// acknowledged and the connection is established. Anything else is
    /// ignored.
    fn process_syn_ack(&mut self, tpack: &TcpPacket, now: u64, out: &mut Vec<SocketEvent>) -> (st: TcpState)
        requires
            old(self).wf(),
        ensures
            final(self).wf(),
            window_kept(*old(self), *final(self), tpack.header@),
            final(self).state == old(self).state,
            final(self).src_addr == old(self).src_addr,
            final(self).dst_addr == old(self).dst_addr,
            final(self).sid == old(self).sid,
            spec_header_flags(tpack.header@) == SYN | ACK ==> {
                &&& st == TcpState::Established
                &&& final(self).ack_num == tpack.header.sequence_number.wrapping_add(1)
                &&& final(self).seq_num == old(self).seq_num
                &&& final(self).read_buf.view() == (RecvBufView { rem_init_seq: tpack.header.sequence_number, ..old(self).read_buf.view() })
                &&& events(final(out)@) == events(old(out)@).push(ack_event(*final(self)))
            },
            spec_header_flags(tpack.header@) != SYN | ACK ==> {
                &&& st == TcpState::SynSent
                &&& *final(self) == *old(self)
                &&& events(final(out)@) == events(old(out)@)
            },
    {
        let f = header_flags(&tpack.header);
        if f == SYN | ACK {
            self.set_init_ack(tpack.header.sequence_number);
            self.ack_rt(tpack.header.acknowledgment_number, now);
            assert((2u8 & (16u8 | 32u8)) == 0u8) by (bit_vector);
            self.send_flags(ACK, now, out);
            TcpState::Established
        } else {
            TcpState::SynSent
        }
    }

    /// In SYN-RECEIVED: an ACK establishes the connection; anything else
    /// is ignored.
    fn process_ack(&mut self, tpack: &TcpPacket, now: u64) -> (st: TcpState)
        requires
            old(self).wf(),
        ensures
            final(self).wf(),
            window_kept(*old(self), *final(self), tpack.header@),
            spec_header_flags(tpack.header@) == ACK ==> {
                &&& st == TcpState::Established
                &&& ack_rt_effect(*old(self), *final(self), tpack.header.acknowledgment_number, now)
                &&& final(self).state == old(self).state
                &&& final(self).seq_num == old(self).seq_num
                &&& final(self).ack_num == old(self).ack_num
                &&& final(self).read_buf == old(self).read_buf
                &&& final(self).src_addr == old(self).src_addr
                &&& final(self).dst_addr == old(self).dst_addr
                &&& final(self).sid == old(self).sid
            },
            spec_header_flags(tpack.header@) != ACK ==> st == TcpState::SynRecvd && *final(self) == *old(self),
    {
        let f = header_flags(&tpack.header);
        if f == ACK {
            self.ack_rt(tpack.header.acknowledgment_number, now);
            TcpState::Established
        } else {
            TcpState::SynRecvd
        }
    }

    /// In ESTABLISHED: a bare ACK acknowledges our data, an ACK with data
    /// is taken in and acknowledged, and a FIN+ACK means the peer closes:
    /// its FIN is acknowledged, readers learn that nothing more comes, and
    /// the connection moves to CLOSE-WAIT. Other segments are ignored.
    fn established_handle(&mut self, tpack: TcpPacket, now: u64, out: &mut Vec<SocketEvent>) -> (st: TcpState)
        requires
            old(self).wf(),
            spec_header_flags(tpack.header@) == ACK && tpack.payload@.len() == 0
                ==> ack_cond(*old(self), tpack.header.acknowledgment_number),
            spec_header_flags(tpack.header@) == ACK && tpack.payload@.len() != 0
                ==> absorb_ok(old(self).read_buf, tpack.header.sequence_number, tpack.payload@.len()),
        ensures
            final(self).wf(),
            window_kept(*old(self), *final(self), tpack.header@),
            st == spec_next_state(TcpState::Established, spec_header_flags(tpack.header@), tpack.payload@.len() == 0,
                tpack.header.acknowledgment_number == old(self).seq_num),
            final(self).state == old(self).state,
            final(self).seq_num == old(self).seq_num,
            final(self).src_addr == old(self).src_addr,
            final(self).dst_addr == old(self).dst_addr,
            final(self).sid == old(self).sid,
            ({
                let f = spec_header_flags(tpack.header@);
                let h = tpack.header@;
                &&& f == ACK && tpack.payload@.len() == 0 ==> {
                    &&& ack_effect(*old(self), *final(self), h.acknowledgment_number, h.window_size, now,
                        events(old(out)@), events(final(out)@))
                    &&& final(self).last_ack_num == max_ack(h.acknowledgment_number, old(self).last_ack_num)
                }
                &&& f == ACK && tpack.payload@.len() != 0 ==> {
                    &&& final(self).read_buf.view() == spec_recv_add(old(self).read_buf.view(), h.sequence_number, tpack.payload@)
                    &&& final(self).ack_num == final(self).read_buf.view().expected()
                    &&& events(final(out)@) == events(old(out)@).push(SocketEventView::DataReady).push(ack_event(*final(self)))
                }
                &&& f == FINACK ==> {
                    &&& final(self).ack_num == old(self).ack_num.wrapping_add(1)
                    &&& final(self).read_buf.view() == old(self).read_buf.view()
                    &&& final(self).read_buf.final_seq == Some(h.sequence_number)
                    &&& events(final(out)@) == events(old(out)@).push(SocketEventView::DataReady).push(ack_event(*final(self)))
                }
                &&& f != ACK && f != FINACK ==> *final(self) == *old(self) && events(final(out)@) == events(old(out)@)
            }),
    {
        let f = header_flags(&tpack.header);
        if f == ACK && tpack.payload.len() == 0 {
            self.ack(&tpack, now, out);
            TcpState::Established
        } else if f == ACK {
            self.absorb_and_acknowledge(tpack, now, out);
            TcpState::Established
        } else if f == FINACK {
            self.ack_num = self.ack_num.wrapping_add(1);
            self.read_buf.set_final_seq(tpack.header.sequence_number);
            let ghost o0 = out@;
            out.push(SocketEvent::DataReady);
            proof { assert(events(out@) =~= events(o0).push(SocketEventView::DataReady)); }
            self.ack_rt(tpack.header.acknowledgment_number, now);
            assert((2u8 & (16u8 | 32u8)) == 0u8) by (bit_vector);
            self.send_flags(ACK, now, out);
            TcpState::CloseWait
        } else {
            TcpState::Established
        }
    }
    /// In FIN-WAIT-1 (our FIN sent): acknowledgements still drop our data,
    /// and an ACK that covers our FIN moves to FIN-WAIT-2; data is still
    /// taken in; a FIN+ACK from the peer is acknowledged, and moves to
    /// TIME-WAIT when it also covers our FIN.
    fn fin_wait_1_handler(&mut self, tpack: TcpPacket, now: u64, out: &mut Vec<SocketEvent>) -> (st: TcpState)
        requires
            old(self).wf(),
            spec_header_flags(tpack.header@) == ACK && tpack.payload@.len() == 0
                ==> ack_cond(*old(self), tpack.header.acknowledgment_number),
            spec_header_flags(tpack.header@) == ACK && tpack.payload@.len() != 0
                ==> absorb_ok(old(self).read_buf, tpack.header.sequence_number, tpack.payload@.len()),
        ensures
            final(self).wf(),
            window_kept(*old(self), *final(self), tpack.header@),
            st == spec_next_state(TcpState::FinWait1, spec_header_flags(tpack.header@), tpack.payload@.len() == 0,
                tpack.header.acknowledgment_number == old(self).seq_num),
            final(self).state == old(self).state,
            final(self).seq_num == old(self).seq_num,
            final(self).src_addr == old(self).src_addr,
            final(self).dst_addr == old(self).dst_addr,
            final(self).sid == old(self).sid,
            ({
                let f = spec_header_flags(tpack.header@);
                let h = tpack.header@;
                &&& f == ACK && tpack.payload@.len() == 0 ==> {
                    &&& rt_then_ack(*old(self), *final(self), h.acknowledgment_number, h.window_size, now,
                        events(old(out)@), events(final(out)@))
                    &&& final(self).last_ack_num == max_ack(h.acknowledgment_number, old(self).last_ack_num)
                }
                &&& f == ACK && tpack.payload@.len() != 0 ==> {
                    &&& final(self).read_buf.view() == spec_recv_add(old(self).read_buf.view(), h.sequence_number, tpack.payload@)
                    &&& final(self).ack_num == final(self).read_buf.view().expected()
                    &&& events(final(out)@) == events(old(out)@).push(SocketEventView::DataReady).push(ack_event(*final(self)))
                }
                &&& f == FINACK ==> {
                    &&& final(self).ack_num == old(self).ack_num.wrapping_add(1)
                    &&& final(self).read_buf == old(self).read_buf
                    &&& events(final(out)@) == events(old(out)@).push(ack_event(*final(self)))
                }
                &&& f != ACK && f != FINACK ==> {
                    &&& ack_rt_effect(*old(self), *final(self), h.acknowledgment_number, now)
                    &&& events(final(out)@) == events(old(out)@)
                }
            }),
    {
        let a = tpack.header.acknowledgment_number;
        self.ack_rt(a, now);
        let ghost mid = *self;
        let f = header_flags(&tpack.header);
        if f == ACK && tpack.payload.len() == 0 {
            self.ack(&tpack, now, out);
            assert(ack_rt_effect(*old(self), mid, a, now));
            if a == self.seq_num { TcpState::FinWait2 } else { TcpState::FinWait1 }
        } else if f == ACK {
            self.absorb_and_acknowledge(tpack, now, out);
            TcpState::FinWait1
        } else if f == FINACK {
            self.ack_num = self.ack_num.wrapping_add(1);
            assert((2u8 & (16u8 | 32u8)) == 0u8) by (bit_vector);
            self.send_flags(ACK, now, out);
            if a == self.seq_num { TcpState::TimeWait } else { TcpState::FinWait1 }
        } else {
            TcpState::FinWait1
        }
    }

    /// In FIN-WAIT-2 (our FIN acknowledged): acknowledgements and data are
    /// still handled; the peer's FIN+ACK (with any last data) is
    /// acknowledged, the TIME-WAIT timer is started, and the connection
    /// moves to TIME-WAIT.
    fn fin_wait_2_handler(&mut self, tpack: TcpPacket, now: u64, out: &mut Vec<SocketEvent>) -> (st: TcpState)
        requires
            old(self).wf(),
            spec_header_flags(tpack.header@) == ACK && tpack.payload@.len() == 0
                ==> ack_cond(*old(self), tpack.header.acknowledgment_number),
            (spec_header_flags(tpack.header@) == ACK || spec_header_flags(tpack.header@) == FINACK)
                && tpack.payload@.len() != 0
                ==> absorb_ok(old(self).read_buf, tpack.header.sequence_number, tpack.payload@.len()),
        ensures
            final(self).wf(),
            window_kept(*old(self), *final(self), tpack.header@),
            st == spec_next_state(TcpState::FinWait2, spec_header_flags(tpack.header@), tpack.payload@.len() == 0,
                tpack.header.acknowledgment_number == old(self).seq_num),
            final(self).state == old(self).state,
            final(self).seq_num == old(self).seq_num,
            final(self).src_addr == old(self).src_addr,
            final(self).dst_addr == old(self).dst_addr,
            final(self).sid == old(self).sid,
            ({
                let f = spec_header_flags(tpack.header@);
                let h = tpack.header@;
                &&& f == ACK && tpack.payload@.len() == 0 ==> {
                    &&& rt_then_ack(*old(self), *final(self), h.acknowledgment_number, h.window_size, now,
                        events(old(out)@), events(final(out)@))
                    &&& final(self).last_ack_num == max_ack(h.acknowledgment_number, old(self).last_ack_num)
                }
                &&& f == ACK && tpack.payload@.len() != 0 ==> {
                    &&& final(self).read_buf.view() == spec_recv_add(old(self).read_buf.view(), h.sequence_number, tpack.payload@)
                    &&& final(self).ack_num == final(self).read_buf.view().expected()
                    &&& events(final(out)@) == events(old(out)@).push(SocketEventView::DataReady).push(ack_event(*final(self)))
                }
                &&& f == FINACK && tpack.payload@.len() == 0 ==> {
                    &&& final(self).ack_num == old(self).ack_num.wrapping_add(1)
                    &&& final(self).read_buf == old(self).read_buf
                    &&& events(final(out)@) == events(old(out)@).push(ack_event(*final(self)))
                        .push(SocketEventView::StartTimeWait)
                }
                &&& f == FINACK && tpack.payload@.len() != 0 ==> {
                    &&& final(self).read_buf.view() == spec_recv_add(old(self).read_buf.view(), h.sequence_number, tpack.payload@)
                    &&& final(self).ack_num == final(self).read_buf.view().expected().wrapping_add(1)
                    &&& events(final(out)@) == events(old(out)@).push(SocketEventView::DataReady)
                        .push(ack_event(*final(self))).push(SocketEventView::StartTimeWait)
                }
                &&& f != ACK && f != FINACK ==> {
                    &&& ack_rt_effect(*old(self), *final(self), h.acknowledgment_number, now)
                    &&& events(final(out)@) == events(old(out)@)
                }
            }),
    {
        let a = tpack.header.acknowledgment_number;
        self.ack_rt(a, now);
        let ghost mid = *self;
        let f = header_flags(&tpack.header);
        if f == ACK && tpack.payload.len() == 0 {
            self.ack(&tpack, now, out);
            assert(ack_rt_effect(*old(self), mid, a, now));
            TcpState::FinWait2
        } else if f == ACK {
            self.absorb_and_acknowledge(tpack, now, out);
            TcpState::FinWait2
        } else if f == FINACK {
            if tpack.payload.len() != 0 {
                self.absorb_packet(tpack, out);
            }
            self.ack_num = self.ack_num.wrapping_add(1);
            assert((2u8 & (16u8 | 32u8)) == 0u8) by (bit_vector);
            self.send_flags(ACK, now, out);
            let ghost o0 = out@;
            out.push(SocketEvent::StartTimeWait);
            proof { assert(events(out@) =~= events(o0).push(SocketEventView::StartTimeWait)); }
            TcpState::TimeWait
        } else {
            TcpState::FinWait2
        }
    }

    /// In TIME-WAIT and CLOSE-WAIT: only bare acknowledgements of our data
    /// are handled; the state does not change here.
    fn ack_only_handler(&mut self, tpack: &TcpPacket, now: u64, out: &mut Vec<SocketEvent>)
        requires
            old(self).wf(),
            spec_header_flags(tpack.header@) == ACK && tpack.payload@.len() == 0
                ==> ack_cond(*old(self), tpack.header.acknowledgment_number),
        ensures
            final(self).wf(),
            window_kept(*old(self), *final(self), tpack.header@),
            final(self).state == old(self).state,
            final(self).seq_num == old(self).seq_num,
            final(self).ack_num == old(self).ack_num,
            final(self).read_buf == old(self).read_buf,
            final(self).src_addr == old(self).src_addr,
            final(self).dst_addr == old(self).dst_addr,
            final(self).sid == old(self).sid,
            spec_header_flags(tpack.header@) == ACK && tpack.payload@.len() == 0
                ==> final(self).last_ack_num == max_ack(tpack.header.acknowledgment_number, old(self).last_ack_num),
            spec_header_flags(tpack.header@) == ACK && tpack.payload@.len() == 0
                ==> rt_then_ack(*old(self), *final(self), tpack.header.acknowledgment_number, tpack.header.window_size,
                    now, events(old(out)@), events(final(out)@)),
            !(spec_header_flags(tpack.header@) == ACK && tpack.payload@.len() == 0)
                ==> *final(self) == *old(self) && events(final(out)@) == events(old(out)@),
    {
        let f = header_flags(&tpack.header);
        if f == ACK && tpack.payload.len() == 0 {
            self.ack_rt(tpack.header.acknowledgment_number, now);
            let ghost mid = *self;
            self.ack(tpack, now, out);
            assert(ack_rt_effect(*old(self), mid, tpack.header.acknowledgment_number, now));
        }
    }

    /// In LAST-ACK (our FIN sent after the peer's): the ACK of our FIN
    /// closes the connection and the socket table is told; other bare ACKs
    /// still acknowledge data.
    fn last_ack_handler(&mut self, tpack: &TcpPacket, now: u64, out: &mut Vec<SocketEvent>) -> (st: TcpState)
        requires
            old(self).wf(),
            spec_header_flags(tpack.header@) == ACK && tpack.payload@.len() == 0
                && tpack.header.acknowledgment_number != old(self).seq_num
                ==> ack_cond(*old(self), tpack.header.acknowledgment_number),
        ensures
            final(self).wf(),
            window_kept(*old(self), *final(self), tpack.header@),
            st == spec_next_state(TcpState::LastAck, spec_header_flags(tpack.header@), tpack.payload@.len() == 0,
                tpack.header.acknowledgment_number == old(self).seq_num),
            final(self).state == old(self).state,
            final(self).seq_num == old(self).seq_num,
            final(self).ack_num == old(self).ack_num,
            final(self).read_buf == old(self).read_buf,
            final(self).src_addr == old(self).src_addr,
            final(self).dst_addr == old(self).dst_addr,
            final(self).sid == old(self).sid,
            st == TcpState::Closed ==> events(final(out)@) == events(old(out)@).push(SocketEventView::Closed(old(self).sid)),
            st == TcpState::Closed ==> ack_rt_effect(*old(self), *final(self), tpack.header.acknowledgment_number, now),
            spec_header_flags(tpack.header@) == ACK && tpack.payload@.len() == 0
                && tpack.header.acknowledgment_number != old(self).seq_num
                ==> rt_then_ack(*old(self), *final(self), tpack.header.acknowledgment_number, tpack.header.window_size,
                    now, events(old(out)@), events(final(out)@)),
            !(spec_header_flags(tpack.header@) == ACK && tpack.payload@.len() == 0)
                ==> *final(self) == *old(self) && events(final(out)@) == events(old(out)@),
    {
        let f = header_flags(&tpack.header);
        if f == ACK && tpack.payload.len() == 0 {
            let a = tpack.header.acknowledgment_number;
            self.ack_rt(a, now);
            let ghost mid = *self;
            if a == self.seq_num {
                self.enter_closed(out);
                return TcpState::Closed;
            } else {
                self.ack(tpack, now, out);
                assert(ack_rt_effect(*old(self), mid, a, now));
            }
        }
        TcpState::LastAck
    }

    /// Tells the socket table that this socket is closed.
    fn enter_closed(&self, out: &mut Vec<SocketEvent>)
        ensures
            events(final(out)@) == events(old(out)@).push(SocketEventView::Closed(self.sid)),
    {
        let ghost o0 = out@;
        out.push(SocketEvent::Closed(self.sid));
        proof { assert(events(out@) =~= events(o0).push(SocketEventView::Closed(self.sid))); }
    }
    /// Whether acknowledgement `a` can be processed (`ack_cond`).
    fn ack_acceptable(&self, a: u32) -> (b: bool)
        ensures
            b == ack_cond(*self, a),
    {
        !(a > self.last_ack_num) || self.write_buf.ack_ok(a)
    }

    /// Whether `len` bytes of data with sequence number `seq` can be taken
    /// in (`absorb_ok`).
    fn absorb_acceptable(&self, seq: u32, len: usize) -> (b: bool)
        requires
            self.wf(),
        ensures
            b == absorb_ok(self.read_buf, seq, len as nat),
    {
        let expected = self.read_buf.expected_seq();
        if seq > expected {
            (circ_len(&self.read_buf.circ_buffer) as u128) + (self.read_buf.early_arrivals.size as u128) + (len as u128)
                <= BUFFER_CAPACITY as u128
        } else {
            true
        }
    }

    /// Whether `handle_packet` can take this segment, which came in an IP
    /// packet with header `ip_head` (`handle_pre`).
    pub fn handle_acceptable(&self, tpack: &TcpPacket, ip_head: &IpHeader) -> (b: bool)
        requires
            self.wf(),
            tpack.header@.wf(),
        ensures
            b == handle_pre(*self, tpack.header@, tpack.payload@, ip_head.source, ip_head.destination),
    {
        let f0 = header_flags(&tpack.header);
        let hl0 = 20 + tpack.header.options.len();
        if (f0 & RST) == RST || tpack.payload.len() > 65535 - hl0 {
            return false;
        }
        if !self.check_tcp_checksum(tpack, ip_head) {
            return true;
        }
        self.handle_ok_check(tpack)
    }

    /// Whether the socket can handle this segment (`handle_ok`).
    fn handle_ok_check(&self, tpack: &TcpPacket) -> (b: bool)
        requires
            self.wf(),
            tpack.header@.wf(),
        ensures
            b == handle_ok(*self, tpack.header@, tpack.payload@),
    {
        let f = header_flags(&tpack.header);
        let len = tpack.payload.len();
        let empty = len == 0;
        let a = tpack.header.acknowledgment_number;
        let seq = tpack.header.sequence_number;
        let hl = 20 + tpack.header.options.len();
        let st = self.state;
        if (f & RST) == RST || len > 65535 - hl {
            return false;
        }
        if st == TcpState::Listening || st == TcpState::AwaitingRun {
            return false;
        }
        if st == TcpState::Initialized && f != SYN {
            return false;
        }
        if st == TcpState::Established || st == TcpState::FinWait1 || st == TcpState::FinWait2 {
            if f == ACK && empty && !self.ack_acceptable(a) {
                return false;
            }
            if f == ACK && !empty && !self.absorb_acceptable(seq, len) {
                return false;
            }
        }
        if st == TcpState::FinWait2 && f == FINACK && !empty && !self.absorb_acceptable(seq, len) {
            return false;
        }
        if (st == TcpState::TimeWait || st == TcpState::CloseWait) && f == ACK && empty && !self.ack_acceptable(a) {
            return false;
        }
        if st == TcpState::LastAck && f == ACK && empty && a != self.seq_num && !self.ack_acceptable(a) {
            return false;
        }
        true
    }

    /// Handles a segment that arrived at time `now` in an IP packet with
    /// header `ip_head`. A segment whose checksum is wrong is dropped,
    /// whatever the socket's state.
    /// Otherwise the peer's advertised window is recorded and the segment is
    /// handled as the socket's state demands; `spec_next_state` gives the
    /// state it moves to.
    pub fn handle_packet(&mut self, tpack: TcpPacket, ip_head: &IpHeader, now: u64, out: &mut Vec<SocketEvent>)
        requires
            old(self).wf(),
            tpack.header@.wf(),
            handle_pre(*old(self), tpack.header@, tpack.payload@, ip_head.source, ip_head.destination),
        ensures
            final(self).wf(),
            final(self).src_addr == old(self).src_addr,
            final(self).dst_addr == old(self).dst_addr,
            final(self).sid == old(self).sid,
            ({
                let h = tpack.header@;
                let p = tpack.payload@;
                let f = spec_header_flags(h);
                let empty = p.len() == 0;
                let st = old(self).state;
                let ok = checksum_ok(h, p, ip_head.source, ip_head.destination);
                let s0 = with_window(*old(self), h.window_size);
                let e0 = events(old(out)@);
                let e1 = events(final(out)@);
                &&& !ok ==> *final(self) == *old(self) && events(final(out)@) == events(old(out)@)
                &&& ok ==> final(self).state == spec_next_state(st, f, empty, h.acknowledgment_number == old(self).seq_num)
                &&& ok ==> final(self).write_buf.view().rem_window == h.window_size
                &&& ok && st == TcpState::Initialized ==> {
                    &&& final(self).ack_num == h.sequence_number.wrapping_add(1)
                    &&& final(self).seq_num == old(self).seq_num.wrapping_add(1)
                    &&& events(final(out)@) == events(old(out)@).push(send_event(old(self).dst_addr,
                        seg_header(old(self).src_addr, old(self).dst_addr, old(self).seq_num, final(self).ack_num,
                            old(self).read_buf.view().window() as u16, SYN | ACK, Seq::empty()), Seq::empty()))
                }
                &&& ok && st == TcpState::SynSent && f == SYN | ACK ==> {
                    &&& final(self).ack_num == h.sequence_number.wrapping_add(1)
                    &&& final(self).seq_num == old(self).seq_num
                    &&& events(final(out)@) == events(old(out)@).push(ack_event(*final(self)))
                }
                &&& ok && st == TcpState::Established && f == FINACK ==> {
                    &&& final(self).ack_num == old(self).ack_num.wrapping_add(1)
                    &&& final(self).read_buf.view() == old(self).read_buf.view()
                    &&& final(self).read_buf.final_seq == Some(h.sequence_number)
                    &&& events(final(out)@) == events(old(out)@).push(SocketEventView::DataReady).push(ack_event(*final(self)))
                }
                &&& ok && (st == TcpState::Established || st == TcpState::FinWait1 || st == TcpState::FinWait2)
                    && f == ACK && !empty ==> {
                    &&& final(self).read_buf.view() == spec_recv_add(old(self).read_buf.view(), h.sequence_number, p)
                    &&& final(self).ack_num == final(self).read_buf.view().expected()
                    &&& events(final(out)@) == events(old(out)@).push(SocketEventView::DataReady).push(ack_event(*final(self)))
                }
                &&& ok && (st == TcpState::Established || st == TcpState::FinWait1 || st == TcpState::FinWait2
                    || st == TcpState::TimeWait || st == TcpState::CloseWait) && f == ACK && empty ==> {
                    &&& final(self).last_ack_num == max_ack(h.acknowledgment_number, old(self).last_ack_num)
                    &&& final(self).ack_num == old(self).ack_num
                    &&& final(self).read_buf == old(self).read_buf
                }
                &&& ok && st == TcpState::Established && f == ACK && empty
                    ==> ack_effect(s0, *final(self), h.acknowledgment_number, h.window_size, now, e0, e1)
                &&& ok && (st == TcpState::FinWait1 || st == TcpState::FinWait2 || st == TcpState::TimeWait
                    || st == TcpState::CloseWait) && f == ACK && empty
                    ==> rt_then_ack(s0, *final(self), h.acknowledgment_number, h.window_size, now, e0, e1)
                &&& ok && st == TcpState::SynRecvd && f == ACK ==> ack_rt_effect(s0, *final(self), h.acknowledgment_number, now)
                &&& ok && st == TcpState::FinWait1 && f == FINACK ==> {
                    &&& final(self).ack_num == old(self).ack_num.wrapping_add(1)
                    &&& final(self).read_buf == old(self).read_buf
                    &&& e1 == e0.push(ack_event(*final(self)))
                }
                &&& ok && st == TcpState::FinWait2 && f == FINACK && empty ==> {
                    &&& final(self).ack_num == old(self).ack_num.wrapping_add(1)
                    &&& final(self).read_buf == old(self).read_buf
                    &&& e1 == e0.push(ack_event(*final(self))).push(SocketEventView::StartTimeWait)
                }
                &&& ok && st == TcpState::FinWait2 && f == FINACK && !empty ==> {
                    &&& final(self).read_buf.view() == spec_recv_add(old(self).read_buf.view(), h.sequence_number, p)
                    &&& final(self).ack_num == final(self).read_buf.view().expected().wrapping_add(1)
                    &&& e1 == e0.push(SocketEventView::DataReady).push(ack_event(*final(self)))
                        .push(SocketEventView::StartTimeWait)
                }
                &&& ok && (st == TcpState::FinWait1 || st == TcpState::FinWait2) && f != ACK && f != FINACK
                    ==> ack_rt_effect(s0, *final(self), h.acknowledgment_number, now) && e1 == e0
                &&& ok && st == TcpState::LastAck && f == ACK && empty && h.acknowledgment_number == old(self).seq_num
                    ==> e1 == e0.push(SocketEventView::Closed(old(self).sid))
                        && ack_rt_effect(s0, *final(self), h.acknowledgment_number, now)
                &&& ok && st == TcpState::LastAck && f == ACK && empty && h.acknowledgment_number != old(self).seq_num
                    ==> rt_then_ack(s0, *final(self), h.acknowledgment_number, h.window_size, now, e0, e1)
                &&& ok && ((st == TcpState::SynSent && f != SYN | ACK) || (st == TcpState::SynRecvd && f != ACK)
                    || (st == TcpState::Established && f != ACK && f != FINACK)
                    || ((st == TcpState::TimeWait || st == TcpState::CloseWait || st == TcpState::LastAck)
                        && !(f == ACK && empty))
                    || st == TcpState::Closing || st == TcpState::Closed)
                    ==> *final(self) == s0 && e1 == e0
            }),
    {
        if !self.check_tcp_checksum(&tpack, ip_head) {
            return;
        }
        self.write_buf.update_window(tpack.header.window_size);
        let new_state = match self.state {
            TcpState::Initialized => self.process_syn(&tpack, now, out),
            TcpState::SynSent => self.process_syn_ack(&tpack, now, out),
            TcpState::SynRecvd => self.process_ack(&tpack, now),
            TcpState::Established => self.established_handle(tpack, now, out),
            TcpState::FinWait1 => self.fin_wait_1_handler(tpack, now, out),
            TcpState::FinWait2 => self.fin_wait_2_handler(tpack, now, out),
            TcpState::TimeWait => {
                self.ack_only_handler(&tpack, now, out);
                TcpState::TimeWait
            },
            TcpState::CloseWait => {
                self.ack_only_handler(&tpack, now, out);
                TcpState::CloseWait
            },
            TcpState::LastAck => self.last_ack_handler(&tpack, now, out),
            other => other,
        };
        self.state = new_state;
    }
}


/// The three-way handshake: a SYN makes a fresh incoming socket
/// SYN-RECEIVED, and the answering ACK establishes it; on the connecting
/// side the SYN+ACK establishes the connection. Segments with other flags
/// leave both waiting states as they are.
pub proof fn lemma_handshake(empty: bool, acks_all: bool, f: u8)
    ensures
        spec_next_state(TcpState::Initialized, SYN, empty, acks_all) == TcpState::SynRecvd,
        spec_next_state(TcpState::SynRecvd, ACK, empty, acks_all) == TcpState::Established,
        spec_next_state(TcpState::SynSent, SYN | ACK, empty, acks_all) == TcpState::Established,
        f != SYN | ACK ==> spec_next_state(TcpState::SynSent, f, empty, acks_all) == TcpState::SynSent,
        f != ACK ==> spec_next_state(TcpState::SynRecvd, f, empty, acks_all) == TcpState::SynRecvd,
{
}

/// Teardown, as the state function has it: the side that receives the
/// peer's FIN goes ESTABLISHED, CLOSE-WAIT, (its own close) LAST-ACK, and on
/// the ACK of its FIN CLOSED; the side that closes first goes FIN-WAIT-1, on
/// the ACK of its FIN FIN-WAIT-2, and on the peer's FIN TIME-WAIT. (A socket
/// takes a bare acknowledgement with a right checksum only when its send
/// buffer can count it, see `handle_pre`.)
pub proof fn lemma_teardown(acks_all: bool)
    ensures
        spec_next_state(TcpState::Established, FINACK, true, acks_all) == TcpState::CloseWait,
        spec_next_state(TcpState::LastAck, ACK, true, true) == TcpState::Closed,
        spec_next_state(TcpState::FinWait1, ACK, true, true) == TcpState::FinWait2,
        spec_next_state(TcpState::FinWait2, FINACK, true, acks_all) == TcpState::TimeWait,
        spec_next_state(TcpState::FinWait1, FINACK, true, true) == TcpState::TimeWait,
{
}

/// Once `close` has been called on this side, no segment reopens it:
/// sending stays refused for good.
pub proof fn lemma_closed_side_stays_closed(st: TcpState, f: u8, empty: bool, acks_all: bool)
    requires
        closed_on_our_side(st),
    ensures
        closed_on_our_side(spec_next_state(st, f, empty, acks_all)),
{
}

/// A closed connection stays closed whatever arrives.
pub proof fn lemma_closed_absorbs(f: u8, empty: bool, acks_all: bool)
    ensures
        spec_next_state(TcpState::Closed, f, empty, acks_all) == TcpState::Closed,
{
}

} // verus!
