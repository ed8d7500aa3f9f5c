//! TCP send and receive buffers over the circular byte buffer, with the
//! store of segments that arrive ahead of the next expected byte.

use vstd::prelude::*;
use std::collections::HashMap;
use circular_buffer::CircularBuffer;
use crate::circ::{BUFFER_CAPACITY, circ_contents, circ_new, circ_len, circ_capacity, circ_extend,
    circ_range, circ_drain_front};
use crate::retransmission::{RetransmissionQueue, RetrSegment, RetrSegmentView, MAX_RETRANSMISSIONS, elapsed};

verus! {

broadcast use vstd::std_specs::hash::group_hash_axioms;

/// Largest payload of one segment (1500 bytes less 40 of headers).
pub const MAX_MSG_SIZE: usize = 1460;

/// The total length of the payloads a map holds.
pub open spec fn total(m: Map<u32, Seq<u8>>) -> nat
    decreases m.dom().len(),
    when m.dom().finite()
{
    if m.dom().len() == 0 {
        0
    } else {
        let k = m.dom().choose();
        m[k].len() + total(m.remove(k))
    }
}

/// Removing any key takes its payload's length off the total.
pub proof fn lemma_total_remove(m: Map<u32, Seq<u8>>, k: u32)
    requires
        m.dom().finite(),
        m.contains_key(k),
    ensures
        total(m) == m[k].len() + total(m.remove(k)),
    decreases m.dom().len(),
{
    let c = m.dom().choose();
    if c != k {
        let mc = m.remove(c);
        let mk = m.remove(k);
        assert(mc.dom().len() < m.dom().len());
        lemma_total_remove(mc, k);
        lemma_total_remove(mk, c);
        assert(mc.remove(k) =~= mk.remove(c));
    }
}

/// Setting a key sets its payload's share of the total.
pub proof fn lemma_total_insert(m: Map<u32, Seq<u8>>, k: u32, v: Seq<u8>)
    requires
        m.dom().finite(),
    ensures
        total(m.insert(k, v)) == total(m.remove(k)) + v.len(),
        m.contains_key(k) ==> total(m) == total(m.remove(k)) + m[k].len(),
{
    lemma_total_remove(m.insert(k, v), k);
    assert(m.insert(k, v).remove(k) =~= m.remove(k));
    if m.contains_key(k) {
        lemma_total_remove(m, k);
    }
}

/// The length of the payload stored under `key`, or 0 when there is none.
pub open spec fn replaced_len(m: Map<u32, Seq<u8>>, key: u32) -> int {
    if m.contains_key(key) { m[key].len() as int } else { 0 }
}

/// Payloads keyed by sequence number, with the total of their lengths.
#[derive(Debug)]
pub struct PayloadMap {
    pub hash_map: HashMap<u32, Vec<u8>>,
    pub size: usize,
}

impl PayloadMap {
    /// The payloads by sequence number.
    pub open spec fn view(&self) -> Map<u32, Seq<u8>> {
        self.hash_map@.map_values(|v: Vec<u8>| v@)
    }

    /// Only finitely many payloads are held.
    pub proof fn lemma_view_finite(&self)
        ensures
            self.view().dom().finite(),
    {
        vstd::std_specs::hash::axiom_hashmap_view_finite_dom(self.hash_map);
        assert(self.view().dom() =~= self.hash_map@.dom());
    }

    /// The size is the total length of the payloads held.
    pub open spec fn wf(&self) -> bool {
        self.size == total(self.view())
    }

    pub fn new() -> (p: PayloadMap)
        ensures
            p.wf(),
            p.view() == Map::<u32, Seq<u8>>::empty(),
            p.size == 0,
    {
        let p = PayloadMap { hash_map: HashMap::new(), size: 0 };
        assert(p.view() =~= Map::<u32, Seq<u8>>::empty());
        assert(total(p.view()) == 0);
        p
    }

    /// Stores a payload, replacing any under the same key: the size loses
    /// the replaced payload's length and gains the new one's.
    pub fn insert(&mut self, key: u32, val: Vec<u8>)
        requires
            old(self).wf(),
            old(self).size - replaced_len(old(self).view(), key) + val@.len() <= usize::MAX,
        ensures
            final(self).wf(),
            final(self).view() == old(self).view().insert(key, val@),
            final(self).size == old(self).size - replaced_len(old(self).view(), key) + val@.len(),
    {
        let ghost m0 = self.view();
        let ghost v = val@;
        proof {
            self.lemma_view_finite();
            lemma_total_insert(m0, key, v);
            if !m0.contains_key(key) {
                assert(m0.remove(key) =~= m0);
            }
        }
        let n = val.len();
        let prev = self.hash_map.insert(key, val);
        match prev {
            Some(p) => {
                self.size = self.size - p.len();
            },
            None => {},
        }
        self.size = self.size + n;
        assert(self.view() =~= m0.insert(key, v));
    }

    /// Takes out the payload stored under `key`, if any, and takes its length
    /// off the size.
    pub fn remove(&mut self, key: &u32) -> (r: Option<Vec<u8>>)
        requires
            old(self).wf(),
        ensures
            final(self).wf(),
            final(self).view() == old(self).view().remove(*key),
            r is Some <==> old(self).view().contains_key(*key),
            r matches Some(v) ==> v@ == old(self).view()[*key] && final(self).size == old(self).size - v@.len(),
            r is None ==> final(self).size == old(self).size,
    {
        let ghost m0 = self.view();
        proof { self.lemma_view_finite(); }
        let payload = self.hash_map.remove(key);
        match &payload {
            Some(data) => {
                proof { lemma_total_remove(m0, *key); }
                self.size = self.size - data.len();
            },
            None => {
                assert(m0.remove(*key) =~= m0);
            },
        }
        assert(self.view() =~= m0.remove(*key));
        payload
    }

    /// The counted size.
    pub fn len(&self) -> (n: usize)
        ensures
            n == self.size,
    {
        self.size
    }
}

/// A buffer that a blocked reader or writer waits on.
pub trait TcpBuffer {
    spec fn spec_ready(&self) -> bool;

    /// Whether a waiting thread may go on.
    fn ready(&self) -> (b: bool)
        ensures
            b == self.spec_ready();
}

/// The state of a receive buffer.
pub struct RecvBufView {
    /// In-order bytes not yet read.
    pub data: Seq<u8>,
    /// Segments that arrived ahead of the next expected byte.
    pub early: Map<u32, Seq<u8>>,
    /// Total length of the early segments.
    pub early_size: nat,
    pub bytes_read: u32,
    pub rem_init_seq: u32,
}

impl RecvBufView {
    /// The next expected sequence number (sequence numbers wrap at 2^32).
    pub open spec fn expected(self) -> u32 {
        ((self.rem_init_seq + self.bytes_read + self.data.len() + 1) % 0x1_0000_0000) as u32
    }

    /// The advertised window: capacity less buffered and early bytes.
    pub open spec fn window(self) -> int {
        BUFFER_CAPACITY - self.data.len() - self.early_size
    }
}

/// The receive buffer after a segment `(seq, data)` arrives: the expected
/// segment is appended (cut to the window) and early segments that become
/// expected follow it; an earlier segment is dropped; a later one is stored
/// as an early arrival.
pub open spec fn spec_recv_add(v: RecvBufView, seq: u32, data: Seq<u8>) -> RecvBufView
    decreases v.early.dom().len(),
    when v.early.dom().finite()
{
    if seq == v.expected() {
        let w = v.window();
        let slice = if data.len() > w { data.take(w) } else { data };
        let v1 = RecvBufView { data: v.data + slice, ..v };
        let e = v1.expected();
        if v1.early.contains_key(e) {
            let nd = v1.early[e];
            spec_recv_add(
                RecvBufView {
                    early: v1.early.remove(e),
                    early_size: (v1.early_size - nd.len()) as nat,
                    ..v1
                },
                e,
                nd,
            )
        } else {
            v1
        }
    } else if seq < v.expected() {
        v
    } else {
        RecvBufView {
            early: v.early.insert(seq, data),
            early_size: (v.early_size - replaced_len(v.early, seq) + data.len()) as nat,
            ..v
        }
    }
}

/// Reading up to `bytes` from a receive buffer: the bytes read and the
/// buffer after.
pub open spec fn spec_recv_read(v: RecvBufView, bytes: u16) -> (Seq<u8>, RecvBufView) {
    let n = if bytes as int <= v.data.len() { bytes as int } else { v.data.len() as int };
    (v.data.take(n), RecvBufView { data: v.data.skip(n), bytes_read: ((v.bytes_read + n) % 0x1_0000_0000) as u32, ..v })
}

/// The receive buffer of a connection.
#[derive(Debug)]
pub struct RecvBuf {
    pub circ_buffer: CircularBuffer<65535, u8>,
    pub early_arrivals: PayloadMap,
    pub bytes_read: u32,
    pub rem_init_seq: u32,
    /// Sequence number of the peer's FIN, once it has arrived.
    pub final_seq: Option<u32>,
}

impl RecvBuf {
    pub open spec fn view(&self) -> RecvBufView {
        RecvBufView {
            data: circ_contents(self.circ_buffer),
            early: self.early_arrivals.view(),
            early_size: self.early_arrivals.size as nat,
            bytes_read: self.bytes_read,
            rem_init_seq: self.rem_init_seq,
        }
    }

    /// The early store is consistent and buffered and early bytes fit the
    /// capacity.
    pub open spec fn wf(&self) -> bool {
        &&& self.early_arrivals.wf()
        &&& circ_contents(self.circ_buffer).len() + self.early_arrivals.size <= BUFFER_CAPACITY
    }

    pub fn new() -> (b: RecvBuf)
        ensures
            b.wf(),
            b.view().data == Seq::<u8>::empty(),
            b.view().early == Map::<u32, Seq<u8>>::empty(),
            b.view().early_size == 0,
            b.view().bytes_read == 0,
            b.view().rem_init_seq == 0,
            b.final_seq is None,
    {
        RecvBuf {
            circ_buffer: circ_new(),
            early_arrivals: PayloadMap::new(),
            bytes_read: 0,
            rem_init_seq: 0,
            final_seq: None,
        }
    }

    /// Records that the peer's FIN arrived with sequence number `seq_num`:
    /// nothing is received after the bytes already in order.
    pub fn set_final_seq(&mut self, seq_num: u32)
        ensures
            final(self).view() == old(self).view(),
            final(self).final_seq == Some(seq_num),
            final(self).wf() == old(self).wf(),
    {
        self.final_seq = Some(seq_num);
    }

    /// Whether a reader may still get data: the peer has not closed, or
    /// in-order bytes remain.
    pub fn can_receive(&self) -> (b: bool)
        ensures
            b == (self.final_seq is None || circ_contents(self.circ_buffer).len() > 0),
    {
        self.final_seq.is_none() || circ_len(&self.circ_buffer) > 0
    }

    /// Takes up to `bytes` in-order bytes out of the buffer.
    pub fn read(&mut self, bytes: u16) -> (data: Vec<u8>)
        requires
            old(self).wf(),
        ensures
            final(self).wf(),
            final(self).final_seq == old(self).final_seq,
            data@ == spec_recv_read(old(self).view(), bytes).0,
            final(self).view() == spec_recv_read(old(self).view(), bytes).1,
    {
        let len = circ_len(&self.circ_buffer);
        let n: usize = if (bytes as usize) <= len { bytes as usize } else { len };
        let data = circ_drain_front(&mut self.circ_buffer, n);
        self.bytes_read = ((self.bytes_read as u64 + n as u64) % 0x1_0000_0000) as u32;
        data
    }

    /// The next expected sequence number.
    pub fn expected_seq(&self) -> (s: u32)
        requires
            self.wf(),
        ensures
            s == self.view().expected(),
    {
        let len = circ_len(&self.circ_buffer);
        ((self.rem_init_seq as u64 + self.bytes_read as u64 + len as u64 + 1) % 0x1_0000_0000) as u32
    }

    /// The window to advertise.
    pub fn window(&self) -> (w: u16)
        requires
            self.wf(),
        ensures
            w == self.view().window(),
    {
        let cap = circ_capacity(&self.circ_buffer);
        let len = circ_len(&self.circ_buffer);
        (cap - len - self.early_arrivals.len()) as u16
    }

    /// Records the peer's initial sequence number.
    pub fn set_init_seq(&mut self, seq_num: u32)
        requires
            old(self).wf(),
        ensures
            final(self).wf(),
            final(self).view() == (RecvBufView { rem_init_seq: seq_num, ..old(self).view() }),
            final(self).final_seq == old(self).final_seq,
    {
        self.rem_init_seq = seq_num;
    }

    /// Takes in a segment: appended when it is the expected one (cut to the
    /// window), followed by any stored early segments that become expected;
    /// dropped when it is older; stored when it is ahead. Returns the next
    /// expected sequence number, the new acknowledgement number.
    pub fn add(&mut self, seq_num: u32, data: Vec<u8>) -> (ack: u32)
        requires
            old(self).wf(),
            seq_num > old(self).view().expected() ==> circ_contents(old(self).circ_buffer).len()
                + old(self).early_arrivals.size + data@.len() <= BUFFER_CAPACITY,
        ensures
            final(self).wf(),
            final(self).view() == spec_recv_add(old(self).view(), seq_num, data@),
            final(self).final_seq == old(self).final_seq,
            ack == final(self).view().expected(),
        decreases old(self).early_arrivals.view().dom().len(),
    {
        proof { self.early_arrivals.lemma_view_finite(); }
        let ghost v0 = self.view();
        let expected = self.expected_seq();
        if seq_num == expected {
            let w = self.window() as usize;
            if data.len() > w {
                let cut = crate::ipv4::copy_prefix(&data, w);
                circ_extend(&mut self.circ_buffer, cut.as_slice());
            } else {
                circ_extend(&mut self.circ_buffer, data.as_slice());
            }
            let ghost v1 = self.view();
            proof {
                let slice = if data@.len() > w { data@.take(w as int) } else { data@ };
                assert(v1 == RecvBufView { data: v0.data + slice, ..v0 });
            }
            let next = self.expected_seq();
            let ghost m1 = self.early_arrivals.view();
            match self.early_arrivals.remove(&next) {
                Some(next_data) => {
                    proof {
                        assert(m1.dom() =~= old(self).early_arrivals.view().dom());
                        assert(self.early_arrivals.view().dom() =~= m1.dom().remove(next));
                        assert(m1.dom().contains(next));
                        assert(self.early_arrivals.view().dom().len() < old(self).early_arrivals.view().dom().len());
                    }
                    return self.add(next, next_data);
                },
                None => {
                    proof {
                        assert(self.early_arrivals.view() =~= m1);
                        assert(self.view() == v1);
                    }
                    return next;
                },
            }
        } else if seq_num < expected {
            return expected;
        } else {
            self.early_arrivals.insert(seq_num, data);
            return expected;
        }
    }
}

impl TcpBuffer for RecvBuf {
    open spec fn spec_ready(&self) -> bool {
        circ_contents(self.circ_buffer).len() != 0
    }

    /// Ready when it holds some in-order bytes.
    fn ready(&self) -> (b: bool) {
        circ_len(&self.circ_buffer) != 0
    }
}

} // verus!

verus! {

/// Reassembly: with nothing stored early, a segment that arrives one
/// segment ahead is held back, and once the expected segment before it
/// arrives both are delivered in order.
pub proof fn lemma_recv_reassembles(v: RecvBufView, d1: Seq<u8>, d2: Seq<u8>)
    requires
        v.early == Map::<u32, Seq<u8>>::empty(),
        v.early_size == 0,
        d1.len() > 0,
        v.rem_init_seq + v.bytes_read + v.data.len() + 1 + d1.len() + d2.len() <= u32::MAX,
        v.data.len() + d1.len() + d2.len() <= BUFFER_CAPACITY,
    ensures
        ({
            let s1 = v.expected();
            let s2 = (v.expected() + d1.len()) as u32;
            spec_recv_add(spec_recv_add(v, s2, d2), s1, d1)
                == RecvBufView { data: v.data + d1 + d2, ..v }
        }),
{
    let s1 = v.expected();
    let s2 = (v.expected() + d1.len()) as u32;
    assert(v.expected() == v.rem_init_seq + v.bytes_read + v.data.len() + 1);
    assert(v.early.dom() =~= Set::<u32>::empty());
    let va = spec_recv_add(v, s2, d2);
    assert(va == RecvBufView { early: v.early.insert(s2, d2), early_size: d2.len(), ..v });
    assert(va.early.dom() =~= set![s2]);
    let v1 = RecvBufView { data: va.data + d1, ..va };
    assert(va.window() >= d1.len());
    let vb = RecvBufView { early: v1.early.remove(s2), early_size: 0, ..v1 };
    assert(vb.early =~= Map::<u32, Seq<u8>>::empty());
    assert(vb.early.dom() =~= Set::<u32>::empty());
    assert(v1.expected() == s2);
    assert(spec_recv_add(va, s1, d1) == spec_recv_add(vb, s2, d2));
    let vc = RecvBufView { data: vb.data + d2, ..vb };
    assert(vb.window() >= d2.len());
    assert(!vc.early.contains_key((vc.expected()) as u32));
    assert(spec_recv_add(vb, s2, d2) == vc);
    assert(vc == RecvBufView { data: v.data + d1 + d2, ..v });
}

} // verus!

verus! {

/// What the sender should put in its next segment.
#[derive(Debug)]
pub enum NextData {
    /// Data to send.
    Data(Vec<u8>),
    /// One byte to probe a zero window with.
    ZeroWindow(Vec<u8>),
    /// Nothing to send.
    NoData,
}

/// The state of a send buffer.
pub struct SendBufView {
    /// Bytes not yet acknowledged, oldest first.
    pub data: Seq<u8>,
    /// Number of those bytes already sent.
    pub nxt: nat,
    /// What the peer's window still allows.
    pub rem_window: u16,
    /// Bytes acknowledged so far.
    pub num_acked: u32,
    /// Our initial sequence number.
    pub our_init_seq: u32,
    /// Whether a zero-window probe is outstanding.
    pub probing: bool,
}

/// The send buffer of a connection.
#[derive(Debug)]
pub struct SendBuf {
    pub circ_buffer: CircularBuffer<65535, u8>,
    pub nxt: usize,
    pub rem_window: u16,
    pub num_acked: u32,
    pub our_init_seq: u32,
    pub probing: bool,
    pub retr_queue: RetransmissionQueue,
}

/// The number of bytes the next segment takes (outside probing): what is
/// unsent, limited by the peer's window and the largest payload.
pub open spec fn send_amount(v: SendBufView) -> nat {
    let unsent = (v.data.len() - v.nxt) as nat;
    let lim = if (v.rem_window as nat) < MAX_MSG_SIZE { v.rem_window as nat } else { MAX_MSG_SIZE as nat };
    if lim < unsent { lim } else { unsent }
}

/// The payload and the buffer after asking for the next segment's data: with
/// a zero window, probing starts and the next unsent byte (if any) is looked
/// at without being consumed; otherwise `send_amount` bytes are taken.
pub open spec fn spec_next_data(v: SendBufView) -> (Seq<u8>, SendBufView) {
    if v.rem_window == 0 {
        let n = if v.nxt < v.data.len() { 1int } else { 0int };
        (v.data.subrange(v.nxt as int, v.nxt + n), SendBufView { probing: true, ..v })
    } else {
        let n = send_amount(v);
        (
            v.data.subrange(v.nxt as int, v.nxt + n as int),
            SendBufView { nxt: v.nxt + n, rem_window: (v.rem_window - n) as u16, ..v },
        )
    }
}

/// The sent-but-unacknowledged count once a probe is counted as sent: a
/// probe that the acknowledgement goes past counts one more byte.
pub open spec fn acked_nxt(v: SendBufView, rel: int) -> int {
    if v.probing && rel > v.nxt { v.nxt + 1int } else { v.nxt as int }
}

/// The number of new bytes that acknowledgement `ack` covers.
pub open spec fn relative_ack(v: SendBufView, ack: u32) -> int {
    ack - (v.num_acked + v.our_init_seq + 1)
}

/// Whether `ack` can be taken by `ack_data`: it lies between the bytes
/// already acknowledged and the bytes sent (a probe counting as sent), and
/// the counters stay within 32 bits.
pub open spec fn spec_ack_ok(v: SendBufView, ack: u32) -> bool {
    let rel = relative_ack(v, ack);
    &&& v.num_acked + v.our_init_seq + 1 <= u32::MAX
    &&& rel >= 0
    &&& rel <= acked_nxt(v, rel)
    &&& rel <= v.data.len()
}

impl SendBuf {
    pub open spec fn view(&self) -> SendBufView {
        SendBufView {
            data: circ_contents(self.circ_buffer),
            nxt: self.nxt as nat,
            rem_window: self.rem_window,
            num_acked: self.num_acked,
            our_init_seq: self.our_init_seq,
            probing: self.probing,
        }
    }

    /// Sent bytes are bytes held, and no more than the capacity is held.
    pub open spec fn wf(&self) -> bool {
        &&& self.nxt <= circ_contents(self.circ_buffer).len()
        &&& circ_contents(self.circ_buffer).len() <= BUFFER_CAPACITY
    }

    /// An empty buffer for a connection whose initial sequence number is
    /// `our_init_seq`.
    pub fn new(our_init_seq: u32) -> (b: SendBuf)
        ensures
            b.wf(),
            b.view() == (SendBufView {
                data: Seq::empty(),
                nxt: 0,
                rem_window: 0,
                num_acked: 0,
                our_init_seq,
                probing: false,
            }),
            b.retr_queue.segs().len() == 0,
    {
        SendBuf {
            circ_buffer: circ_new(),
            nxt: 0,
            rem_window: 0,
            num_acked: 0,
            our_init_seq,
            probing: false,
            retr_queue: RetransmissionQueue::new(),
        }
    }

    /// Adds as much of `filler` as fits and returns the rest.
    pub fn fill_with(&mut self, filler: Vec<u8>) -> (rest: Vec<u8>)
        requires
            old(self).wf(),
        ensures
            final(self).wf(),
            ({
                let space = BUFFER_CAPACITY - old(self).view().data.len();
                let k = if filler@.len() < space { filler@.len() as int } else { space };
                &&& final(self).view() == SendBufView { data: old(self).view().data + filler@.take(k), ..old(self).view() }
                &&& rest@ == filler@.skip(k)
            }),
            final(self).retr_queue == old(self).retr_queue,
    {
        let available = circ_capacity(&self.circ_buffer) - circ_len(&self.circ_buffer);
        let k = if filler.len() < available { filler.len() } else { available };
        let to_add = crate::ipv4::copy_prefix(&filler, k);
        circ_extend(&mut self.circ_buffer, to_add.as_slice());
        let mut rest: Vec<u8> = Vec::new();
        let mut i: usize = k;
        while i < filler.len()
            invariant
                k <= i <= filler@.len(),
                rest@ == filler@.subrange(k as int, i as int),
            decreases filler@.len() - i,
        {
            rest.push(filler[i]);
            i = i + 1;
            proof { assert(rest@ =~= filler@.subrange(k as int, i as int)); }
        }
        proof { assert(filler@.subrange(k as int, i as int) =~= filler@.skip(k as int)); }
        rest
    }

    /// Clones up to `amount` unsent bytes, starting at the next one to send.
    fn see_amount(&self, amount: usize) -> (r: Vec<u8>)
        requires
            self.wf(),
        ensures
            ({
                let unsent = self.view().data.len() - self.nxt;
                let n = if amount < unsent { amount as int } else { unsent };
                r@ == self.view().data.subrange(self.nxt as int, self.nxt + n)
            }),
    {
        let len = circ_len(&self.circ_buffer);
        let unsent = len - self.nxt;
        let n = if amount < unsent { amount } else { unsent };
        circ_range(&self.circ_buffer, self.nxt, self.nxt + n)
    }

    /// Takes up to `amount` unsent bytes and counts them as sent.
    fn take_amount(&mut self, amount: usize) -> (r: Vec<u8>)
        requires
            old(self).wf(),
        ensures
            final(self).wf(),
            ({
                let unsent = old(self).view().data.len() - old(self).nxt;
                let n = if amount < unsent { amount as int } else { unsent };
                &&& r@ == old(self).view().data.subrange(old(self).nxt as int, old(self).nxt + n)
                &&& final(self).view() == SendBufView { nxt: (old(self).nxt + n) as nat, ..old(self).view() }
            }),
            final(self).retr_queue == old(self).retr_queue,
    {
        let data = self.see_amount(amount);
        self.nxt = self.nxt + data.len();
        data
    }

    /// The data for the next segment, respecting the peer's window: a
    /// zero-window probe when the window is closed, otherwise up to a full
    /// payload of unsent bytes. A probe is reported as long as probing has
    /// not ended.
    pub fn next_data(&mut self) -> (r: NextData)
        requires
            old(self).wf(),
        ensures
            final(self).wf(),
            final(self).view() == spec_next_data(old(self).view()).1,
            final(self).retr_queue == old(self).retr_queue,
            ({
                let d = spec_next_data(old(self).view()).0;
                match r {
                    NextData::NoData => d.len() == 0,
                    NextData::ZeroWindow(v) => d.len() > 0 && final(self).probing && v@ == d,
                    NextData::Data(v) => d.len() > 0 && !final(self).probing && v@ == d,
                }
            }),
    {
        let nxt_data = if self.rem_window == 0 {
            self.probing = true;
            self.see_amount(1)
        } else {
            let limit = if (self.rem_window as usize) < MAX_MSG_SIZE { self.rem_window as usize } else { MAX_MSG_SIZE };
            let data = self.take_amount(limit);
            self.rem_window = self.rem_window - (data.len() as u16);
            data
        };
        if nxt_data.len() == 0 {
            NextData::NoData
        } else if self.probing {
            NextData::ZeroWindow(nxt_data)
        } else {
            NextData::Data(nxt_data)
        }
    }

    /// Whether `ack_data` can take acknowledgement `most_recent_ack`.
    pub fn ack_ok(&self, most_recent_ack: u32) -> (b: bool)
        ensures
            b == spec_ack_ok(self.view(), most_recent_ack),
    {
        let base: u64 = (self.num_acked as u64) + (self.our_init_seq as u64) + 1;
        if base > u32::MAX as u64 || (most_recent_ack as u64) < base {
            return false;
        }
        let rel: u64 = (most_recent_ack as u64) - base;
        let nxt2: u64 = if self.probing && rel > self.nxt as u64 { self.nxt as u64 + 1 } else { self.nxt as u64 };
        rel <= nxt2 && rel <= circ_len(&self.circ_buffer) as u64
    }

    /// Drops the bytes that `most_recent_ack` acknowledges. An outstanding
    /// probe that the acknowledgement covers ends probing (the probe byte
    /// counts as sent); the result says whether that happened.
    pub fn ack_data(&mut self, most_recent_ack: u32) -> (stopped_probing: bool)
        requires
            old(self).wf(),
            spec_ack_ok(old(self).view(), most_recent_ack),
        ensures
            final(self).wf(),
            ({
                let v = old(self).view();
                let rel = relative_ack(v, most_recent_ack);
                &&& stopped_probing == (v.probing && rel > v.nxt)
                &&& final(self).view() == SendBufView {
                    data: v.data.skip(rel),
                    nxt: (acked_nxt(v, rel) - rel) as nat,
                    num_acked: (v.num_acked + rel) as u32,
                    probing: v.probing && !(rel > v.nxt),
                    ..v
                }
            }),
            final(self).retr_queue == old(self).retr_queue,
    {
        let relative_ack = most_recent_ack - (self.num_acked + self.our_init_seq + 1);
        let mut stopped = false;
        if self.probing && (relative_ack as usize) > self.nxt {
            self.probing = false;
            self.nxt = self.nxt + 1;
            stopped = true;
        }
        self.nxt = self.nxt - (relative_ack as usize);
        let _ = circ_drain_front(&mut self.circ_buffer, relative_ack as usize);
        self.num_acked = self.num_acked + relative_ack;
        stopped
    }

    /// Records the peer's advertised window.
    pub fn update_window(&mut self, new_window: u16)
        ensures
            *final(self) == (SendBuf { rem_window: new_window, ..*old(self) }),
            final(self).view() == (SendBufView { rem_window: new_window, ..old(self).view() }),
            final(self).retr_queue == old(self).retr_queue,
            final(self).wf() == old(self).wf(),
    {
        self.rem_window = new_window;
    }

    /// Checks every queued segment for a timeout at `now`: timed-out ones
    /// count a retransmission and are dropped once they reach the maximum;
    /// the others that timed out are stamped with `now` and returned for
    /// retransmission, oldest first.
    pub fn check_timeouts(&mut self, current_rto: u64, now: u64) -> (r: Vec<RetrSegment>)
        ensures
            final(self).view() == old(self).view(),
            final(self).retr_queue.segs() == timeout_pass(old(self).retr_queue.segs(), current_rto, now).0,
            r@.map_values(|s: RetrSegment| s@) == timeout_pass(old(self).retr_queue.segs(), current_rto, now).1,
            final(self).retr_queue.dup_ack_count == old(self).retr_queue.dup_ack_count,
            final(self).retr_queue.last_ack == old(self).retr_queue.last_ack,
    {
        let ghost s0 = self.retr_queue.segs();
        let mut out: Vec<RetrSegment> = Vec::new();
        let mut kept: std::collections::VecDeque<RetrSegment> = std::collections::VecDeque::new();
        let mut i: usize = 0;
        let n = self.retr_queue.queue.len();
        while i < n
            invariant
                n == s0.len(),
                i <= n,
                self.retr_queue.segs() == s0.skip(i as int),
                self.view() == old(self).view(),
                self.retr_queue.dup_ack_count == old(self).retr_queue.dup_ack_count,
                self.retr_queue.last_ack == old(self).retr_queue.last_ack,
                kept@.map_values(|s: RetrSegment| s@) == timeout_pass(s0.take(i as int), current_rto, now).0,
                out@.map_values(|s: RetrSegment| s@) == timeout_pass(s0.take(i as int), current_rto, now).1,
            decreases n - i,
        {
            let ghost q0 = self.retr_queue.queue@;
            assert(q0.map_values(|s: RetrSegment| s@) == s0.skip(i as int));
            assert(q0.len() == n - i);
            let popped = self.retr_queue.queue.pop_front();
            let mut seg = popped.unwrap();
            proof {
                assert(q0.map_values(|s: RetrSegment| s@)[0] == s0[i as int]);
                let q1 = self.retr_queue.queue@;
                assert(q1 == q0.subrange(1, q0.len() as int));
                assert forall|j: int| 0 <= j < q1.len() implies q1[j]@ == s0.skip(i + 1)[j] by {
                    assert(q1[j] == q0[j + 1]);
                    assert(q0.map_values(|s: RetrSegment| s@)[j + 1] == s0.skip(i as int)[j + 1]);
                }
                assert(self.retr_queue.segs() =~= s0.skip(i + 1));
                assert(seg@ == s0[i as int]);
                assert(s0.take(i + 1).drop_last() =~= s0.take(i as int));
            }
            if seg.timed_out(current_rto, now) {
                if seg.retransmission_count >= MAX_RETRANSMISSIONS - 1 {
                    proof {
                        assert(kept@.map_values(|s: RetrSegment| s@) =~= timeout_pass(s0.take(i + 1), current_rto, now).0);
                    }
                } else {
                    seg.retransmission_count = seg.retransmission_count + 1;
                    seg.update_time_of_send(now);
                    let copy = seg.duplicate();
                    let ghost k0 = kept@;
                    let ghost o0 = out@;
                    out.push(copy);
                    kept.push_back(seg);
                    proof {
                        assert(kept@.map_values(|s: RetrSegment| s@) =~= k0.map_values(|s: RetrSegment| s@).push(copy@));
                        assert(out@.map_values(|s: RetrSegment| s@) =~= o0.map_values(|s: RetrSegment| s@).push(copy@));
                    }
                }
            } else {
                let ghost k0 = kept@;
                kept.push_back(seg);
                proof {
                    assert(kept@.map_values(|s: RetrSegment| s@) =~= k0.map_values(|s: RetrSegment| s@).push(s0[i as int]));
                }
            }
            i = i + 1;
        }
        proof { assert(s0.take(n as int) =~= s0); }
        self.retr_queue.queue = kept;
        out
    }
}

/// One pass of timeout checks over queued segments: the segments kept and
/// the segments to retransmit, in order.
pub open spec fn timeout_pass(q: Seq<RetrSegmentView>, rto: u64, now: u64) -> (Seq<RetrSegmentView>, Seq<RetrSegmentView>)
    decreases q.len(),
{
    if q.len() == 0 {
        (Seq::empty(), Seq::empty())
    } else {
        let prev = timeout_pass(q.drop_last(), rto, now);
        let s = q.last();
        if elapsed(now, s.time_of_send) >= rto {
            if s.retransmission_count + 1 >= MAX_RETRANSMISSIONS {
                prev
            } else {
                let s2 = RetrSegmentView {
                    retransmission_count: (s.retransmission_count + 1) as u32,
                    time_of_send: now,
                    ..s
                };
                (prev.0.push(s2), prev.1.push(s2))
            }
        } else {
            (prev.0.push(s), prev.1)
        }
    }
}

impl TcpBuffer for SendBuf {
    open spec fn spec_ready(&self) -> bool {
        circ_contents(self.circ_buffer).len() != BUFFER_CAPACITY
    }

    /// Ready when not full.
    fn ready(&self) -> (b: bool) {
        circ_len(&self.circ_buffer) != circ_capacity(&self.circ_buffer)
    }
}

} // verus!
