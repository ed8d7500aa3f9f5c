//! TCP segments: headers, flags, addresses and connection states, and their
//! wire format.

use vstd::prelude::*;
use etherparse::{TcpHeader as EtherTcpHeader, TcpOptions};
use crate::ipv4::{IpHeaderView, spec_parse_ipv4, packet_bytes_ok, packet_from_bytes};

verus! {

/// Flag bits as `header_flags` reports them.
pub const URG: u8 = 1;
pub const ACK: u8 = 2;
pub const PSH: u8 = 4;
pub const RST: u8 = 8;
pub const SYN: u8 = 16;
pub const FIN: u8 = 32;
/// FIN and ACK together.
pub const FINACK: u8 = 34;

/// The state of a TCP socket.
#[derive(Clone, Copy, Debug, PartialEq, Eq, Structural)]
pub enum TcpState {
    /// A listener socket.
    Listening,
    /// A connection socket created by `connect`, not yet started.
    AwaitingRun,
    /// A connection socket created for an incoming SYN, not yet answered.
    Initialized,
    SynSent,
    SynRecvd,
    Established,
    FinWait1,
    FinWait2,
    Closing,
    TimeWait,
    CloseWait,
    LastAck,
    Closed,
}

/// An address and port.
#[derive(Clone, Copy, Debug, PartialEq, Eq, Structural)]
pub struct TcpAddress {
    pub ip: u32,
    pub port: u16,
}

impl TcpAddress {
    pub fn new(ip: u32, port: u16) -> (a: TcpAddress)
        ensures
            a == (TcpAddress { ip, port }),
    {
        TcpAddress { ip, port }
    }
}

/// The fields of a TCP header.
#[derive(Debug)]
pub struct TcpHeader {
    pub source_port: u16,
    pub destination_port: u16,
    pub sequence_number: u32,
    pub acknowledgment_number: u32,
    pub ns: bool,
    pub fin: bool,
    pub syn: bool,
    pub rst: bool,
    pub psh: bool,
    pub ack: bool,
    pub urg: bool,
    pub ece: bool,
    pub cwr: bool,
    pub window_size: u16,
    pub checksum: u16,
    pub urgent_pointer: u16,
    /// Raw header options.
    pub options: Vec<u8>,
}

/// The content of a TCP header.
pub struct TcpHeaderView {
    pub source_port: u16,
    pub destination_port: u16,
    pub sequence_number: u32,
    pub acknowledgment_number: u32,
    pub ns: bool,
    pub fin: bool,
    pub syn: bool,
    pub rst: bool,
    pub psh: bool,
    pub ack: bool,
    pub urg: bool,
    pub ece: bool,
    pub cwr: bool,
    pub window_size: u16,
    pub checksum: u16,
    pub urgent_pointer: u16,
    pub options: Seq<u8>,
}

impl View for TcpHeader {
    type V = TcpHeaderView;

    open spec fn view(&self) -> TcpHeaderView {
        TcpHeaderView {
            source_port: self.source_port,
            destination_port: self.destination_port,
            sequence_number: self.sequence_number,
            acknowledgment_number: self.acknowledgment_number,
            ns: self.ns,
            fin: self.fin,
            syn: self.syn,
            rst: self.rst,
            psh: self.psh,
            ack: self.ack,
            urg: self.urg,
            ece: self.ece,
            cwr: self.cwr,
            window_size: self.window_size,
            checksum: self.checksum,
            urgent_pointer: self.urgent_pointer,
            options: self.options@,
        }
    }
}

impl TcpHeaderView {
    /// The options fit a TCP header.
    pub open spec fn wf(self) -> bool {
        self.options.len() <= 40 && self.options.len() % 4 == 0
    }

    /// Length of the header on the wire.
    pub open spec fn header_len(self) -> int {
        20 + self.options.len() as int
    }
}

impl TcpHeader {
    /// A header with the given ports, sequence number and window, no flags,
    /// no options and the other fields zero.
    pub fn new(source_port: u16, destination_port: u16, sequence_number: u32, window_size: u16) -> (h: TcpHeader)
        ensures
            h@ == (TcpHeaderView {
                source_port,
                destination_port,
                sequence_number,
                acknowledgment_number: 0,
                ns: false,
                fin: false,
                syn: false,
                rst: false,
                psh: false,
                ack: false,
                urg: false,
                ece: false,
                cwr: false,
                window_size,
                checksum: 0,
                urgent_pointer: 0,
                options: Seq::empty(),
            }),
    {
        let h = TcpHeader {
            source_port,
            destination_port,
            sequence_number,
            acknowledgment_number: 0,
            ns: false,
            fin: false,
            syn: false,
            rst: false,
            psh: false,
            ack: false,
            urg: false,
            ece: false,
            cwr: false,
            window_size,
            checksum: 0,
            urgent_pointer: 0,
            options: Vec::new(),
        };
        assert(h@.options =~= Seq::<u8>::empty());
        h
    }

    /// A copy of this header.
    pub fn duplicate(&self) -> (r: TcpHeader)
        ensures
            r@ == self@,
    {
        TcpHeader {
            source_port: self.source_port,
            destination_port: self.destination_port,
            sequence_number: self.sequence_number,
            acknowledgment_number: self.acknowledgment_number,
            ns: self.ns,
            fin: self.fin,
            syn: self.syn,
            rst: self.rst,
            psh: self.psh,
            ack: self.ack,
            urg: self.urg,
            ece: self.ece,
            cwr: self.cwr,
            window_size: self.window_size,
            checksum: self.checksum,
            urgent_pointer: self.urgent_pointer,
            options: self.options.clone(),
        }
    }
}

/// The TCP checksum of a header and payload between two addresses, as
/// etherparse computes it (the stored checksum field does not enter it).
pub uninterp spec fn tcp_checksum(h: TcpHeaderView, src: u32, dst: u32, payload: Seq<u8>) -> u16;

/// The bytes of a TCP header (with the checksum stored in it).
pub uninterp spec fn tcp_header_bytes(h: TcpHeaderView) -> Seq<u8>;

/// What etherparse reads from the front of `b`: a TCP header and the bytes
/// after it.
pub uninterp spec fn spec_parse_tcp(b: Seq<u8>) -> Option<(TcpHeaderView, Seq<u8>)>;

#[verifier::external_type_specification]
#[verifier::external_body]
pub struct ExTcpHeader(EtherTcpHeader);

/// Converts a header into etherparse's representation, field for field.
#[verifier::external_body]
fn to_ether_tcp(h: &TcpHeader) -> (r: EtherTcpHeader)
    requires
        h@.wf(),
{
    EtherTcpHeader {
        source_port: h.source_port,
        destination_port: h.destination_port,
        sequence_number: h.sequence_number,
        acknowledgment_number: h.acknowledgment_number,
        ns: h.ns, fin: h.fin, syn: h.syn, rst: h.rst, psh: h.psh,
        ack: h.ack, urg: h.urg, ece: h.ece, cwr: h.cwr,
        window_size: h.window_size,
        checksum: h.checksum,
        urgent_pointer: h.urgent_pointer,
        options: TcpOptions::try_from_slice(h.options.as_slice()).unwrap(),
    }
}

/// Converts etherparse's representation of a header, field for field; its
/// options never exceed 40 bytes and come in 4-byte words.
#[verifier::external_body]
fn from_ether_tcp(h: &EtherTcpHeader) -> (r: TcpHeader)
    ensures
        r@.wf(),
{
    TcpHeader {
        source_port: h.source_port,
        destination_port: h.destination_port,
        sequence_number: h.sequence_number,
        acknowledgment_number: h.acknowledgment_number,
        ns: h.ns, fin: h.fin, syn: h.syn, rst: h.rst, psh: h.psh,
        ack: h.ack, urg: h.urg, ece: h.ece, cwr: h.cwr,
        window_size: h.window_size,
        checksum: h.checksum,
        urgent_pointer: h.urgent_pointer,
        options: h.options.as_slice().to_vec(),
    }
}

/// A header with `k` in its checksum field.
pub open spec fn set_tcp_checksum(h: TcpHeaderView, k: u16) -> TcpHeaderView {
    TcpHeaderView { checksum: k, ..h }
}

/// `TcpHeader::calc_checksum_ipv4_raw` of etherparse: the checksum, named
/// `tcp_checksum`; it fails only when the header and payload do not fit the
/// 16-bit TCP length. Its source sums every header field but the stored
/// checksum, so the result is the same whatever that field holds.
#[verifier::external_body]
pub(crate) fn calc_tcp_checksum(h: &TcpHeader, src: u32, dst: u32, payload: &[u8]) -> (r: Option<u16>)
    requires
        h@.wf(),
    ensures
        r is Some <==> payload@.len() <= 65535 - h@.header_len(),
        r matches Some(c) ==> c == tcp_checksum(h@, src, dst, payload@),
        r matches Some(c) ==> forall|k: u16| #[trigger] tcp_checksum(set_tcp_checksum(h@, k), src, dst, payload@) == c,
{
    to_ether_tcp(h).calc_checksum_ipv4_raw(src.to_be_bytes(), dst.to_be_bytes(), payload).ok()
}

/// `TcpHeader::to_bytes` of etherparse: the header's bytes, named
/// `tcp_header_bytes`, as long as the header. `TcpHeader::from_slice` reads
/// every field that `to_bytes` stores back from those bytes (the data
/// offset from the options, the checksum as stored), and leaves whatever
/// follows them.
#[verifier::external_body]
fn header_to_bytes(h: &TcpHeader) -> (r: Vec<u8>)
    requires
        h@.wf(),
    ensures
        r@ == tcp_header_bytes(h@),
        r@.len() == h@.header_len(),
        forall|rest: Seq<u8>| #[trigger] spec_parse_tcp(r@ + rest) == Some((h@, rest)),
{
    to_ether_tcp(h).to_bytes().to_vec()
}

/// Whether `b` starts with what etherparse takes for a TCP header: at least
/// 20 bytes, a data offset of at least 5 words, and all of those words
/// present.
pub open spec fn tcp_front_ok(b: Seq<u8>) -> bool {
    &&& b.len() >= 20
    &&& b[12] / 16 >= 5
    &&& b.len() >= (b[12] / 16) * 4
}

/// `TcpHeader::from_slice` of etherparse: the header at the front of `b` and
/// the bytes after it, named `spec_parse_tcp`. Its source
/// (`TcpHeaderSlice::from_slice`) fails exactly when the front of `b` is
/// not a header (see `tcp_front_ok`), and takes the header's length from
/// its data offset.
#[verifier::external_body]
fn parse_tcp(b: &[u8]) -> (r: Option<(TcpHeader, Vec<u8>)>)
    ensures
        r is Some <==> spec_parse_tcp(b@) is Some,
        r is Some <==> tcp_front_ok(b@),
        r matches Some((h, rest)) ==> {
            &&& spec_parse_tcp(b@) == Some((h@, rest@))
            &&& h@.wf()
            &&& h@.header_len() == (b@[12] / 16) * 4
            &&& h@.header_len() <= b@.len()
            &&& rest@ == b@.skip(h@.header_len())
        },
{
    match EtherTcpHeader::from_slice(b) {
        Ok((h, rest)) => Some((from_ether_tcp(&h), rest.to_vec())),
        Err(_) => None,
    }
}

/// A TCP segment: header and payload.
#[derive(Debug)]
pub struct TcpPacket {
    pub header: TcpHeader,
    pub payload: Vec<u8>,
}

impl TcpPacket {
    pub fn new(header: TcpHeader, payload: Vec<u8>) -> (p: TcpPacket)
        ensures
            p.header@ == header@,
            p.payload@ == payload@,
    {
        TcpPacket { header, payload }
    }

    /// A copy of this segment.
    pub fn duplicate(&self) -> (r: TcpPacket)
        ensures
            r.header@ == self.header@,
            r.payload@ == self.payload@,
    {
        TcpPacket { header: self.header.duplicate(), payload: self.payload.clone() }
    }
}

/// Serializes a segment into the payload of an IP packet: header bytes then
/// payload.
pub fn serialize_tcp(packet: TcpPacket) -> (buf: Vec<u8>)
    requires
        packet.header@.wf(),
    ensures
        buf@ == tcp_header_bytes(packet.header@) + packet.payload@,
        buf@.len() == packet.header@.header_len() + packet.payload@.len(),
        spec_parse_tcp(buf@) == Some((packet.header@, packet.payload@)),
{
    let mut buffer = header_to_bytes(&packet.header);
    let mut i: usize = 0;
    let ghost head = buffer@;
    while i < packet.payload.len()
        invariant
            i <= packet.payload@.len(),
            buffer@ == head + packet.payload@.take(i as int),
        decreases packet.payload@.len() - i,
    {
        buffer.push(packet.payload[i]);
        i = i + 1;
        proof { assert(buffer@ =~= head + packet.payload@.take(i as int)); }
    }
    proof {
        assert(packet.payload@.take(i as int) =~= packet.payload@);
        assert(spec_parse_tcp(head + packet.payload@) == Some((packet.header@, packet.payload@)));
    }
    buffer
}

/// The segment carried as the payload of an IP packet.
pub fn tcp_from_payload(payload: &[u8]) -> (r: Option<TcpPacket>)
    ensures
        r is Some <==> spec_parse_tcp(payload@) is Some,
        r is Some <==> tcp_front_ok(payload@),
        r matches Some(p) ==> {
            &&& spec_parse_tcp(payload@) == Some((p.header@, p.payload@))
            &&& p.header@.wf()
            &&& p.header@.header_len() <= payload@.len()
            &&& p.payload@ == payload@.skip(p.header@.header_len())
        },
{
    match parse_tcp(payload) {
        Some((header, rest)) => Some(TcpPacket { header, payload: rest }),
        None => None,
    }
}

/// Why a segment could not be read.
#[derive(Clone, Copy, Debug, PartialEq, Eq, Structural)]
pub enum TcpParseError {
    /// The bytes do not hold a well formed packet.
    InvalidData,
}

/// The segment that a whole IP packet holds: the IP header is read, its
/// announced payload taken, and a TCP header read from that payload.
pub open spec fn spec_deserialize_tcp(b: Seq<u8>) -> Option<(TcpHeaderView, Seq<u8>)> {
    match spec_parse_ipv4(b) {
        None => None,
        Some((h, rest)) => spec_parse_tcp(rest.take(h.total_len - 20)),
    }
}

/// Deserializes a TCP segment from a whole IP packet (not from a payload).
pub fn deserialize_tcp(raw_packet: Vec<u8>) -> (r: Result<TcpPacket, TcpParseError>)
    requires
        packet_bytes_ok(raw_packet@),
    ensures
        r is Ok <==> spec_deserialize_tcp(raw_packet@) is Some,
        !crate::ipv4::ipv4_front_ok(raw_packet@) ==> r is Err,
        r matches Ok(p) ==> spec_deserialize_tcp(raw_packet@) == Some((p.header@, p.payload@)),
{
    match packet_from_bytes(raw_packet.as_slice()) {
        Some(pack) => match tcp_from_payload(pack.data.as_slice()) {
            Some(p) => Ok(p),
            None => Err(TcpParseError::InvalidData),
        },
        None => Err(TcpParseError::InvalidData),
    }
}

/// The flag bits of a header: FIN, SYN, RST, PSH, ACK, URG as 32, 16, 8,
/// 4, 2, 1 (NS, ECE and CWR are not reported).
pub open spec fn spec_header_flags(h: TcpHeaderView) -> u8 {
    ((if h.fin { FIN } else { 0u8 }) + (if h.syn { SYN } else { 0u8 }) + (if h.rst { RST } else { 0u8 })
        + (if h.psh { PSH } else { 0u8 }) + (if h.ack { ACK } else { 0u8 }) + (if h.urg { URG } else { 0u8 })) as u8
}

/// The flag bits of a header.
pub fn header_flags(head: &TcpHeader) -> (f: u8)
    ensures
        f == spec_header_flags(head@),
        f < 64,
{
    let mut f: u8 = 0;
    if head.fin { f = f + FIN; }
    if head.syn { f = f + SYN; }
    if head.rst { f = f + RST; }
    if head.psh { f = f + PSH; }
    if head.ack { f = f + ACK; }
    if head.urg { f = f + URG; }
    f
}

/// Whether the header's flags are exactly `flags`.
pub fn has_only_flags(head: &TcpHeader, flags: u8) -> (b: bool)
    ensures
        b == (spec_header_flags(head@) == flags),
{
    let head_flags = header_flags(head);
    proof {
        assert((head_flags ^ flags) == 0u8 <==> head_flags == flags) by (bit_vector);
    }
    (head_flags ^ flags) == 0
}

/// Whether the header has all of `flags` (and maybe others).
pub fn has_flags(head: &TcpHeader, flags: u8) -> (b: bool)
    ensures
        b == ((spec_header_flags(head@) & flags) == flags),
{
    let head_flags = header_flags(head);
    (head_flags & flags) == flags
}

/// A command to the socket manager (not to a socket).
#[derive(Debug)]
pub enum SockMand {
    /// Open a listener on this port.
    Listen(u16),
    /// Start accepting on the listener on this port.
    Accept(u16),
    /// Open a connection to this address and port.
    Connect(u32, u16),
}

/// A command to a socket.
#[derive(Debug)]
pub enum SocketCmd {
    /// Take this segment from the peer.
    Process(TcpPacket),
    /// Send this segment to the peer.
    Send(TcpPacket),
    /// Hand over this many received bytes.
    Recv(usize),
    /// Tear the connection down.
    Close,
}

/// Whether the segment is a SYN and nothing else (no other flag, NS, ECE
/// and CWR included).
pub fn is_syn(head: &TcpHeader) -> (b: bool)
    ensures
        b == (head.syn && !(head.ns || head.fin || head.rst || head.psh || head.ack || head.urg || head.ece || head.cwr)),
{
    if head.ns || head.fin || head.rst || head.psh || head.ack || head.urg || head.ece || head.cwr {
        false
    } else if head.syn {
        true
    } else {
        false
    }
}

/// Sets the header flags named by the bits of `flags` (flags already set
/// stay set).
pub fn set_flags(head: &mut TcpHeader, flags: u8)
    ensures
        final(head)@ == (TcpHeaderView {
            syn: old(head).syn || (flags & SYN) != 0,
            ack: old(head).ack || (flags & ACK) != 0,
            fin: old(head).fin || (flags & FIN) != 0,
            rst: old(head).rst || (flags & RST) != 0,
            psh: old(head).psh || (flags & PSH) != 0,
            urg: old(head).urg || (flags & URG) != 0,
            ..old(head)@
        }),
{
    if (flags & SYN) != 0 { head.syn = true; }
    if (flags & ACK) != 0 { head.ack = true; }
    if (flags & FIN) != 0 { head.fin = true; }
    if (flags & RST) != 0 { head.rst = true; }
    if (flags & PSH) != 0 { head.psh = true; }
    if (flags & URG) != 0 { head.urg = true; }
}

/// Setting the flags of `flags` on a header without flags makes
/// `header_flags` report exactly the bits of `flags` that name a flag.
pub proof fn lemma_set_flags_roundtrip(h: TcpHeaderView, flags: u8)
    requires
        !h.fin && !h.syn && !h.rst && !h.psh && !h.ack && !h.urg,
    ensures
        spec_header_flags(TcpHeaderView {
            syn: (flags & SYN) != 0,
            ack: (flags & ACK) != 0,
            fin: (flags & FIN) != 0,
            rst: (flags & RST) != 0,
            psh: (flags & PSH) != 0,
            urg: (flags & URG) != 0,
            ..h
        }) == flags & 63u8,
{
    assert(
        (((if (flags & 32u8) != 0 { 32u8 } else { 0u8 }) + (if (flags & 16u8) != 0 { 16u8 } else { 0u8 })
        + (if (flags & 8u8) != 0 { 8u8 } else { 0u8 }) + (if (flags & 4u8) != 0 { 4u8 } else { 0u8 })
        + (if (flags & 2u8) != 0 { 2u8 } else { 0u8 }) + (if (flags & 1u8) != 0 { 1u8 } else { 0u8 })) as u8)
        == flags & 63u8
    ) by (bit_vector);
}

} // verus!
