//! IPv4 packets: headers, checksums, validity, forwarding updates, and
//! building packets for local sends.

use vstd::prelude::*;
use etherparse::{Ipv4Header, IpNumber, Ipv4Options, Ipv4Dscp, Ipv4Ecn, IpFragOffset};

verus! {

/// Default time to live of packets built by this node.
pub const DEFAULT_TTL: u8 = 16;

/// Protocol number of test packets.
pub const PROTOCOL_TEST: u8 = 0;

/// Protocol number of TCP.
pub const PROTOCOL_TCP: u8 = 6;

/// Protocol number of RIP.
pub const PROTOCOL_RIP: u8 = 200;

/// The fields of an IPv4 header.
#[derive(Debug)]
pub struct IpHeader {
    pub dscp: u8,
    pub ecn: u8,
    pub total_len: u16,
    pub identification: u16,
    pub dont_fragment: bool,
    pub more_fragments: bool,
    pub fragment_offset: u16,
    pub time_to_live: u8,
    pub protocol: u8,
    pub header_checksum: u16,
    /// Source address.
    pub source: u32,
    /// Destination address.
    pub destination: u32,
    /// Raw header options.
    pub options: Vec<u8>,
}

/// The content of an IPv4 header.
pub struct IpHeaderView {
    pub dscp: u8,
    pub ecn: u8,
    pub total_len: u16,
    pub identification: u16,
    pub dont_fragment: bool,
    pub more_fragments: bool,
    pub fragment_offset: u16,
    pub time_to_live: u8,
    pub protocol: u8,
    pub header_checksum: u16,
    pub source: u32,
    pub destination: u32,
    pub options: Seq<u8>,
}

impl View for IpHeader {
    type V = IpHeaderView;

    open spec fn view(&self) -> IpHeaderView {
        IpHeaderView {
            dscp: self.dscp,
            ecn: self.ecn,
            total_len: self.total_len,
            identification: self.identification,
            dont_fragment: self.dont_fragment,
            more_fragments: self.more_fragments,
            fragment_offset: self.fragment_offset,
            time_to_live: self.time_to_live,
            protocol: self.protocol,
            header_checksum: self.header_checksum,
            source: self.source,
            destination: self.destination,
            options: self.options@,
        }
    }
}

impl IpHeaderView {
    /// Every field fits the width it has on the wire.
    pub open spec fn wf(self) -> bool {
        &&& self.dscp < 64
        &&& self.ecn < 4
        &&& self.fragment_offset < 8192
        &&& self.options.len() <= 40
        &&& self.options.len() % 4 == 0
    }
}

/// The IPv4 header checksum of a header, as etherparse computes it (the
/// stored checksum field does not enter it).
pub uninterp spec fn ipv4_checksum(h: IpHeaderView) -> u16;

/// What etherparse reads from the front of `b`: a header and the bytes after
/// it, or nothing when `b` does not start with an IPv4 header.
pub uninterp spec fn spec_parse_ipv4(b: Seq<u8>) -> Option<(IpHeaderView, Seq<u8>)>;

/// The declaration that lets etherparse's IPv4 header appear in signatures.
#[verifier::external_type_specification]
#[verifier::external_body]
pub struct ExIpv4Header(Ipv4Header);

/// Converts a header into etherparse's representation, field for field.
#[verifier::external_body]
fn to_ether(h: &IpHeader) -> (r: Ipv4Header)
    requires
        h@.wf(),
{
    Ipv4Header {
        dscp: Ipv4Dscp::try_new(h.dscp).unwrap(),
        ecn: Ipv4Ecn::try_new(h.ecn).unwrap(),
        total_len: h.total_len,
        identification: h.identification,
        dont_fragment: h.dont_fragment,
        more_fragments: h.more_fragments,
        fragment_offset: IpFragOffset::try_new(h.fragment_offset).unwrap(),
        time_to_live: h.time_to_live,
        protocol: IpNumber(h.protocol),
        header_checksum: h.header_checksum,
        source: h.source.to_be_bytes(),
        destination: h.destination.to_be_bytes(),
        options: Ipv4Options::try_from(h.options.as_slice()).unwrap(),
    }
}

/// Converts etherparse's representation of a header, field for field; the
/// widths of etherparse's field types make the result well formed.
#[verifier::external_body]
fn from_ether(h: &Ipv4Header) -> (r: IpHeader)
    ensures
        r@.wf(),
{
    IpHeader {
        dscp: h.dscp.value(),
        ecn: h.ecn.value(),
        total_len: h.total_len,
        identification: h.identification,
        dont_fragment: h.dont_fragment,
        more_fragments: h.more_fragments,
        fragment_offset: h.fragment_offset.value(),
        time_to_live: h.time_to_live,
        protocol: h.protocol.0,
        header_checksum: h.header_checksum,
        source: u32::from_be_bytes(h.source),
        destination: u32::from_be_bytes(h.destination),
        options: h.options.as_slice().to_vec(),
    }
}

/// A header with `k` in its checksum field.
pub open spec fn set_checksum(h: IpHeaderView, k: u16) -> IpHeaderView {
    IpHeaderView { header_checksum: k, ..h }
}

/// A header with its checksum field set to the checksum of its other fields.
pub open spec fn with_checksum(h: IpHeaderView) -> IpHeaderView {
    set_checksum(h, ipv4_checksum(h))
}

/// `Ipv4Header::calc_header_checksum` of etherparse: the checksum of the
/// header, named `ipv4_checksum`. Its source sums every field but the
/// stored checksum, so the result is the same whatever that field holds.
#[verifier::external_body]
pub(crate) fn calc_header_checksum(h: &IpHeader) -> (c: u16)
    requires
        h@.wf(),
    ensures
        c == ipv4_checksum(h@),
        forall|k: u16| #[trigger] ipv4_checksum(set_checksum(h@, k)) == c,
{
    to_ether(h).calc_header_checksum()
}

/// What etherparse writes for a header: its fields, with the checksum
/// recomputed, then its options.
pub uninterp spec fn ipv4_wire_bytes(h: IpHeaderView) -> Seq<u8>;


/// `Ipv4Header::write` of etherparse, into a growing buffer: the header's
/// bytes with the checksum recomputed, named `ipv4_wire_bytes`, as long as
/// the header. `Ipv4Header::from_slice` reads every field that `write`
/// stores back from those bytes (version 4, the header length from the
/// options, the recomputed checksum), and leaves whatever follows them.
#[verifier::external_body]
pub(crate) fn write_header(h: &IpHeader) -> (r: Vec<u8>)
    requires
        h@.wf(),
    ensures
        r@ == ipv4_wire_bytes(h@),
        r@.len() == 20 + h@.options.len(),
        forall|rest: Seq<u8>| #[trigger] spec_parse_ipv4(r@ + rest) == Some((with_checksum(h@), rest)),
{
    let mut buf: Vec<u8> = Vec::new();
    let _ = to_ether(h).write(&mut buf);
    buf
}

/// Whether `b` starts with what etherparse takes for an IPv4 header: at
/// least 20 bytes, version 4, a header length of at least 5 words, and all
/// of those words present.
pub open spec fn ipv4_front_ok(b: Seq<u8>) -> bool {
    &&& b.len() >= 20
    &&& b[0] / 16 == 4
    &&& b[0] % 16 >= 5
    &&& b.len() >= (b[0] % 16) * 4
}

/// `Ipv4Header::from_slice` of etherparse: the header at the front of `b`
/// and the bytes after the header (after its options), named
/// `spec_parse_ipv4`. Its source (`Ipv4HeaderSlice::from_slice`) fails
/// exactly when the front of `b` is not a header (see `ipv4_front_ok`),
/// and takes the header's length from its header-length field.
#[verifier::external_body]
fn parse_ipv4(b: &[u8]) -> (r: Option<(IpHeader, Vec<u8>)>)
    ensures
        r is Some <==> spec_parse_ipv4(b@) is Some,
        r is Some <==> ipv4_front_ok(b@),
        r matches Some((h, rest)) ==> {
            &&& spec_parse_ipv4(b@) == Some((h@, rest@))
            &&& h@.wf()
            &&& 20 + h.options@.len() == (b@[0] % 16) * 4
            &&& rest@ == b@.skip(20 + h.options@.len() as int)
        },
{
    match Ipv4Header::from_slice(b) {
        Ok((h, rest)) => Some((from_ether(&h), rest.to_vec())),
        Err(_) => None,
    }
}

/// An IPv4 packet.
#[derive(Debug)]
pub struct Packet {
    pub header: IpHeader,
    pub data: Vec<u8>,
}

/// What a node needs to build a packet: destination, protocol and payload.
#[derive(Debug)]
pub struct PacketBasis {
    pub dst_ip: u32,
    pub prot_num: u8,
    pub msg: Vec<u8>,
}

impl IpHeader {
    /// A copy of this header.
    pub fn duplicate(&self) -> (r: IpHeader)
        ensures
            r@ == self@,
    {
        IpHeader {
            dscp: self.dscp,
            ecn: self.ecn,
            total_len: self.total_len,
            identification: self.identification,
            dont_fragment: self.dont_fragment,
            more_fragments: self.more_fragments,
            fragment_offset: self.fragment_offset,
            time_to_live: self.time_to_live,
            protocol: self.protocol,
            header_checksum: self.header_checksum,
            source: self.source,
            destination: self.destination,
            options: self.options.clone(),
        }
    }
}

impl Packet {
    /// A copy of this packet.
    pub fn duplicate(&self) -> (r: Packet)
        ensures
            r.header@ == self.header@,
            r.data@ == self.data@,
    {
        Packet { header: self.header.duplicate(), data: self.data.clone() }
    }
}

/// A packet is forwarded only when its time to live is not zero and its
/// checksum is right.
pub open spec fn spec_packet_valid(h: IpHeaderView) -> bool {
    h.time_to_live != 0 && h.header_checksum == ipv4_checksum(h)
}

/// Whether a received packet may be forwarded or consumed.
pub fn packet_valid(pack: &Packet) -> (b: bool)
    requires
        pack.header@.wf(),
    ensures
        b == spec_packet_valid(pack.header@),
{
    if pack.header.time_to_live == 0 {
        return false;
    }
    pack.header.header_checksum == calc_header_checksum(&pack.header)
}

/// The header after one hop: time to live decremented (unless already 0) and
/// checksum recomputed.
pub open spec fn spec_hop(h: IpHeaderView) -> IpHeaderView {
    let h2 = IpHeaderView {
        time_to_live: if h.time_to_live != 0 { (h.time_to_live - 1) as u8 } else { 0 },
        ..h
    };
    IpHeaderView { header_checksum: ipv4_checksum(h2), ..h2 }
}

/// Updates a packet for forwarding: one hop fewer to live, checksum redone.
pub fn update_pack(pack: Packet) -> (r: Packet)
    requires
        pack.header@.wf(),
    ensures
        r.header@ == spec_hop(pack.header@),
        r.data@ == pack.data@,
        r.header@.wf(),
        r.header@.header_checksum == ipv4_checksum(r.header@),
{
    let mut header = pack.header;
    if header.time_to_live != 0 {
        header.time_to_live = header.time_to_live - 1;
    }
    let ghost before = header@;
    header.header_checksum = calc_header_checksum(&header);
    proof { assert(header@ == set_checksum(before, header.header_checksum)); }
    Packet { header, data: pack.data }
}

/// The header of a packet built by this node from `src` to `dst`: no
/// options, default fields, time to live 16, and the checksum filled in.
pub open spec fn spec_built_header(src: u32, dst: u32, prot: u8, payload_len: nat) -> IpHeaderView {
    let h = IpHeaderView {
        dscp: 0,
        ecn: 0,
        total_len: (20 + (payload_len as u16)) as u16,
        identification: 0,
        dont_fragment: true,
        more_fragments: false,
        fragment_offset: 0,
        time_to_live: DEFAULT_TTL,
        protocol: prot,
        header_checksum: 0,
        source: src,
        destination: dst,
        options: Seq::empty(),
    };
    IpHeaderView { header_checksum: ipv4_checksum(h), ..h }
}

/// Whether a payload of this length fits the total length field (the length
/// is taken modulo 2^16 first, as the cast does).
pub open spec fn payload_len_ok(len: nat) -> bool {
    (len as u16) as int + 20 <= u16::MAX
}

/// Builds a packet from `src` carrying `pb`.
pub fn build_packet(pb: PacketBasis, src: u32) -> (p: Packet)
    requires
        payload_len_ok(pb.msg@.len()),
    ensures
        p.header@ == spec_built_header(src, pb.dst_ip, pb.prot_num, pb.msg@.len()),
        p.data@ == pb.msg@,
        p.header@.wf(),
        spec_packet_valid(p.header@),
{
    let mut header = IpHeader {
        dscp: 0,
        ecn: 0,
        total_len: 20 + (pb.msg.len() as u16),
        identification: 0,
        dont_fragment: true,
        more_fragments: false,
        fragment_offset: 0,
        time_to_live: DEFAULT_TTL,
        protocol: pb.prot_num,
        header_checksum: 0,
        source: src,
        destination: pb.dst_ip,
        options: Vec::new(),
    };
    proof { assert(header.options@ =~= Seq::<u8>::empty()); }
    let ghost before = header@;
    header.header_checksum = calc_header_checksum(&header);
    proof { assert(header@ == set_checksum(before, header.header_checksum)); }
    Packet { header, data: pb.msg }
}

/// The packet that a raw byte buffer holds: the header, then a payload of
/// `total_len - 20` bytes taken after the header's options.
pub open spec fn spec_packet_from_bytes(b: Seq<u8>) -> Option<(IpHeaderView, Seq<u8>)> {
    match spec_parse_ipv4(b) {
        None => None,
        Some((h, rest)) => Some((h, rest.take(h.total_len - 20))),
    }
}

/// Whether the payload length that the header announces fits the bytes.
pub open spec fn packet_bytes_ok(b: Seq<u8>) -> bool {
    spec_parse_ipv4(b) matches Some((h, rest)) ==> h.total_len >= 20 && rest.len() >= h.total_len - 20
}

/// Whether the payload length that the header at the front of `b` announces
/// fits the bytes (see `packet_bytes_ok`); true of bytes that do not start
/// with an IPv4 header.
pub fn packet_bytes_check(b: &[u8]) -> (r: bool)
    ensures
        r == packet_bytes_ok(b@),
        spec_parse_ipv4(b@) is Some <==> ipv4_front_ok(b@),
{
    match parse_ipv4(b) {
        Some((h, rest)) => h.total_len >= 20 && rest.len() >= (h.total_len - 20) as usize,
        None => true,
    }
}

/// Reads a packet from raw bytes; `None` when they do not start with an
/// IPv4 header.
pub fn packet_from_bytes(b: &[u8]) -> (r: Option<Packet>)
    requires
        packet_bytes_ok(b@),
    ensures
        r is Some <==> spec_parse_ipv4(b@) is Some,
        r is Some <==> ipv4_front_ok(b@),
        r matches Some(p) ==> spec_packet_from_bytes(b@) == Some((p.header@, p.data@)) && p.header@.wf(),
{
    match parse_ipv4(b) {
        Some((h, rest)) => {
            let len = (h.total_len - 20) as usize;
            let data = copy_prefix(&rest, len);
            Some(Packet { header: h, data })
        },
        None => None,
    }
}

/// Reads a packet from raw bytes, checking first that the bytes hold the
/// payload that the header announces; `None` when they do not, or when they
/// do not start with an IPv4 header.
pub fn checked_packet_from_bytes(b: &[u8]) -> (r: Option<Packet>)
    ensures
        r is Some <==> spec_parse_ipv4(b@) is Some && packet_bytes_ok(b@),
        spec_parse_ipv4(b@) is Some <==> ipv4_front_ok(b@),
        !ipv4_front_ok(b@) ==> r is None,
        r matches Some(p) ==> spec_packet_from_bytes(b@) == Some((p.header@, p.data@)) && p.header@.wf(),
{
    match parse_ipv4(b) {
        Some((h, rest)) => {
            if h.total_len < 20 || rest.len() < (h.total_len - 20) as usize {
                return None;
            }
            let len = (h.total_len - 20) as usize;
            let data = copy_prefix(&rest, len);
            Some(Packet { header: h, data })
        },
        None => None,
    }
}

/// The first `n` bytes of `v`.
pub fn copy_prefix(v: &Vec<u8>, n: usize) -> (r: Vec<u8>)
    requires
        n <= v@.len(),
    ensures
        r@ == v@.take(n as int),
{
    let mut r: Vec<u8> = Vec::new();
    let mut i: usize = 0;
    while i < n
        invariant
            i <= n,
            n <= v@.len(),
            r@ == v@.take(i as int),
        decreases n - i,
    {
        r.push(v[i]);
        i = i + 1;
        proof { assert(r@ =~= v@.take(i as int)); }
    }
    r
}

/// The decimal digits of a byte.
pub open spec fn decimal(n: u8) -> Seq<char>
    decreases n,
{
    if n < 10 {
        seq![digit_char(n)]
    } else {
        decimal((n / 10) as u8).push(digit_char((n % 10) as u8))
    }
}

/// The character of a decimal digit.
pub open spec fn digit_char(d: u8) -> char {
    (('0' as u8) + d) as char
}

/// The dotted-quad text of an address.
pub open spec fn spec_string_ip(a: u32) -> Seq<char> {
    decimal((a >> 24u32) as u8) + seq!['.'] + decimal((a >> 16u32) as u8) + seq!['.']
        + decimal((a >> 8u32) as u8) + seq!['.'] + decimal(a as u8)
}

fn push_decimal(s: &mut Vec<char>, n: u8)
    ensures
        final(s)@ == old(s)@ + decimal(n),
    decreases n,
{
    if n < 10 {
        s.push(((('0' as u8) + n) as char));
        assert(s@ =~= old(s)@ + decimal(n));
    } else {
        push_decimal(s, n / 10);
        s.push(((('0' as u8) + (n % 10)) as char));
        assert(s@ =~= old(s)@ + decimal(n));
    }
}

/// The dotted-quad text of an address, as characters.
pub fn string_ip(raw_ip: u32) -> (s: Vec<char>)
    ensures
        s@ == spec_string_ip(raw_ip),
{
    let mut s: Vec<char> = Vec::new();
    push_decimal(&mut s, (raw_ip >> 24u32) as u8);
    s.push('.');
    push_decimal(&mut s, (raw_ip >> 16u32) as u8);
    s.push('.');
    push_decimal(&mut s, (raw_ip >> 8u32) as u8);
    s.push('.');
    push_decimal(&mut s, raw_ip as u8);
    assert(s@ =~= spec_string_ip(raw_ip));
    s
}

} // verus!
