//! The fixed-capacity circular byte buffer of the `circular_buffer` crate,
//! as the send and receive buffers use it.

use vstd::prelude::*;
use circular_buffer::CircularBuffer;

verus! {

/// Capacity of the send and receive buffers.
pub const BUFFER_CAPACITY: usize = 65535;

#[verifier::external_type_specification]
#[verifier::external_body]
#[verifier::reject_recursive_types(T)]
pub struct ExCircularBuffer<const N: usize, T>(CircularBuffer<N, T>);

/// The bytes a buffer holds, front first.
pub uninterp spec fn circ_contents(b: CircularBuffer<65535, u8>) -> Seq<u8>;

/// `CircularBuffer::new`: an empty buffer.
#[verifier::external_body]
pub(crate) fn circ_new() -> (b: CircularBuffer<65535, u8>)
    ensures
        circ_contents(b) == Seq::<u8>::empty(),
{
    CircularBuffer::new()
}

/// `CircularBuffer::len`: the number of bytes held, never above the capacity.
#[verifier::external_body]
pub(crate) fn circ_len(b: &CircularBuffer<65535, u8>) -> (n: usize)
    ensures
        n == circ_contents(*b).len(),
        n <= BUFFER_CAPACITY,
{
    b.len()
}

/// `CircularBuffer::capacity`: the capacity, 65535.
#[verifier::external_body]
pub(crate) fn circ_capacity(b: &CircularBuffer<65535, u8>) -> (n: usize)
    ensures
        n == BUFFER_CAPACITY,
{
    b.capacity()
}

/// `CircularBuffer::extend_from_slice`: appends the bytes; when they do not
/// fit, the bytes at the front are dropped so that the last 65535 remain.
#[verifier::external_body]
pub(crate) fn circ_extend(b: &mut CircularBuffer<65535, u8>, other: &[u8])
    ensures
        ({
            let all = circ_contents(*old(b)) + other@;
            circ_contents(*final(b)) == if all.len() <= BUFFER_CAPACITY {
                all
            } else {
                all.skip(all.len() - BUFFER_CAPACITY)
            }
        }),
{
    b.extend_from_slice(other)
}

/// `CircularBuffer::range` collected into a vector: the bytes at positions
/// `start..end`.
#[verifier::external_body]
pub(crate) fn circ_range(b: &CircularBuffer<65535, u8>, start: usize, end: usize) -> (r: Vec<u8>)
    requires
        start <= end <= circ_contents(*b).len(),
    ensures
        r@ == circ_contents(*b).subrange(start as int, end as int),
{
    b.range(start..end).cloned().collect()
}

/// `CircularBuffer::drain` of the first `n` bytes, collected into a vector.
#[verifier::external_body]
pub(crate) fn circ_drain_front(b: &mut CircularBuffer<65535, u8>, n: usize) -> (r: Vec<u8>)
    requires
        n <= circ_contents(*old(b)).len(),
    ensures
        r@ == circ_contents(*old(b)).take(n as int),
        circ_contents(*final(b)) == circ_contents(*old(b)).skip(n as int),
{
    b.drain(..n).collect()
}

} // verus!
