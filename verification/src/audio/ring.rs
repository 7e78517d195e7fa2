//! The ring between the sound card's callback and the capture worker.
//!
//! A sample travels through the ring as its 32-bit pattern.

use ringbuf::traits::{Consumer, Observer, Producer, Split};
use vstd::prelude::*;

verus! {

/// The writing end of a ring.
#[verifier::external_body]
pub struct RingProducer {
    inner: ringbuf::HeapProd<u32>,
}

/// The reading end of a ring.
#[verifier::external_body]
pub struct RingConsumer {
    inner: ringbuf::HeapCons<u32>,
}

/// Everything that has been written through this end, in order.
pub uninterp spec fn sent(p: &RingProducer) -> Seq<u32>;

/// How many free places this end saw when it last looked. The other end can
/// only have made more of them since.
pub uninterp spec fn seen_free(p: &RingProducer) -> nat;

/// Everything that has been read through this end, in order.
pub uninterp spec fn received(c: &RingConsumer) -> Seq<u32>;

/// How many of the items this end saw waiting, when it last looked, it has not
/// read yet. The other end can only have added to them since.
pub uninterp spec fn seen_waiting(c: &RingConsumer) -> nat;

/// `ringbuf::HeapRb::new` and `split`: two ends of an empty ring. The ring needs
/// a place at least, and its storage has to fit in memory's addresses: making
/// it panics otherwise.
#[verifier::external_body]
pub(crate) fn make_ring(capacity: usize) -> (r: (RingProducer, RingConsumer))
    requires
        capacity > 0,
        capacity * 4 <= isize::MAX,
    ensures
        sent(&r.0) == Seq::<u32>::empty(),
        received(&r.1) == Seq::<u32>::empty(),
{
    let (producer, consumer) = ringbuf::HeapRb::<u32>::new(capacity).split();
    (RingProducer { inner: producer }, RingConsumer { inner: consumer })
}

/// `ringbuf`'s `Observer::vacant_len` on a producer: looks how many places are
/// free, and changes nothing in the ring.
#[verifier::external_body]
fn look_for_room(p: &mut RingProducer) -> (r: usize)
    ensures
        sent(final(p)) == sent(old(p)),
        r == seen_free(final(p)),
{
    p.inner.vacant_len()
}

/// `ringbuf`'s `Producer::push_slice`: writes a front part of the items, all of
/// them when as many places were seen free, and returns how many.
#[verifier::external_body]
fn write_items(p: &mut RingProducer, items: &[u32]) -> (r: usize)
    ensures
        r <= items@.len(),
        sent(final(p)) == sent(old(p)) + items@.take(r as int),
        items@.len() <= seen_free(old(p)) ==> r == items@.len(),
{
    p.inner.push_slice(items)
}

/// `ringbuf`'s `Observer::occupied_len` on a consumer: looks how many items are
/// waiting, and changes nothing in the ring.
#[verifier::external_body]
fn look_for_items(c: &mut RingConsumer) -> (r: usize)
    ensures
        received(final(c)) == received(old(c)),
        r == seen_waiting(final(c)),
{
    c.inner.occupied_len()
}

/// `ringbuf`'s `Consumer::pop_slice`: reads items into the front of `target`,
/// as many as it has room for when as many were seen waiting, and returns how
/// many. What it reads no longer waits. Which items the other end wrote is left
/// open.
#[verifier::external_body]
fn read_items(c: &mut RingConsumer, target: &mut Vec<u32>) -> (r: usize)
    ensures
        r <= old(target)@.len(),
        final(target)@.len() == old(target)@.len(),
        received(final(c)) == received(old(c)) + final(target)@.take(r as int),
        old(target)@.len() <= seen_waiting(old(c)) ==> r == old(target)@.len() && seen_waiting(
            final(c),
        ) == seen_waiting(old(c)) - r,
{
    c.inner.pop_slice(target)
}

/// How many seconds of audio the ring holds.
pub const RING_SECONDS: u64 = 2;

/// How many samples a ring for that device holds.
pub open spec fn ring_size(sample_rate: u32, channels: u16) -> int {
    let n = sample_rate * channels * RING_SECONDS;
    if n == 0 {
        1
    } else {
        n
    }
}

/// A ring for a device: two seconds of its audio.
pub fn ring_for(sample_rate: u32, channels: u16) -> (r: (RingProducer, RingConsumer))
    requires
        ring_size(sample_rate, channels) * 4 <= isize::MAX,
    ensures
        sent(&r.0) == Seq::<u32>::empty(),
        received(&r.1) == Seq::<u32>::empty(),
{
    proof {
        assert(sample_rate * channels * 2 <= 0xffff_ffff * 0xffff * 2) by (nonlinear_arith)
            requires
                0 <= sample_rate <= 0xffff_ffff,
                0 <= channels <= 0xffff,
        ;
        assert(sample_rate * channels <= 0xffff_ffff * 0xffff) by (nonlinear_arith)
            requires
                0 <= sample_rate <= 0xffff_ffff,
                0 <= channels <= 0xffff,
        ;
        assert(sample_rate * channels >= 0) by (nonlinear_arith)
            requires
                0 <= sample_rate,
                0 <= channels,
        ;
    }
    let n: u64 = sample_rate as u64 * channels as u64 * RING_SECONDS;
    let capacity: usize = if n == 0 {
        1
    } else {
        n as usize
    };
    make_ring(capacity)
}

/// A ring of a given size.
pub fn ring_of(capacity: usize) -> (r: (RingProducer, RingConsumer))
    requires
        capacity > 0,
        capacity * 4 <= isize::MAX,
    ensures
        sent(&r.0) == Seq::<u32>::empty(),
        received(&r.1) == Seq::<u32>::empty(),
{
    make_ring(capacity)
}

/// What becomes of a buffer of that length when that many places are free: all
/// of it is written, or all of it is dropped.
pub fn dropped_when(vacant: usize, len: usize) -> (r: usize)
    ensures
        r == if vacant >= len {
            0
        } else {
            len as int
        },
{
    if vacant >= len {
        0
    } else {
        len
    }
}

/// Writes a buffer to the ring, all of it or none of it, and returns how many
/// samples were dropped. A part of a buffer would leave half a frame in the
/// ring and swap the channels of every frame behind it.
pub fn enqueue(producer: &mut RingProducer, samples: &[u32]) -> (dropped: usize)
    ensures
        dropped == 0 || dropped == samples@.len(),
        dropped == 0 ==> sent(final(producer)) == sent(old(producer)) + samples@,
        dropped != 0 ==> sent(final(producer)) == sent(old(producer)) && seen_free(final(producer))
            < samples@.len(),
{
    let vacant: usize = look_for_room(producer);
    let dropped: usize = dropped_when(vacant, samples.len());
    if dropped == 0 && samples.len() > 0 {
        let written: usize = write_items(producer, samples);
        proof {
            assert(samples@.take(written as int) =~= samples@);
        }
    } else {
        proof {
            if samples@.len() == 0 {
                assert(sent(old(producer)) + samples@ =~= sent(old(producer)));
            }
        }
    }
    dropped
}

/// How many samples one pass reads: what is waiting, as far as the buffer
/// reaches, in whole frames.
pub open spec fn readable(waiting: int, buffer: int, channels: int) -> int {
    let n = if waiting <= buffer {
        waiting
    } else {
        buffer
    };
    n - n % channels
}

/// How many samples one pass reads.
pub fn drain_len(waiting: usize, buffer: usize, channels: usize) -> (r: usize)
    requires
        channels > 0,
    ensures
        r == readable(waiting as int, buffer as int, channels as int),
        r <= waiting,
        r <= buffer,
        r as int % channels as int == 0,
{
    let n: usize = if waiting <= buffer {
        waiting
    } else {
        buffer
    };
    let rest: usize = n % channels;
    proof {
        vstd::arithmetic::div_mod::lemma_fundamental_div_mod(n as int, channels as int);
        vstd::arithmetic::div_mod::lemma_mod_bound(n as int, channels as int);
        vstd::arithmetic::div_mod::lemma_mod_multiples_basic(
            n as int / channels as int,
            channels as int,
        );
        assert(n as int - rest as int == (n as int / channels as int) * channels as int)
            by (nonlinear_arith)
            requires
                n as int == channels as int * (n as int / channels as int) + n as int
                    % channels as int,
                rest as int == n as int % channels as int,
        ;
    }
    n - rest
}

/// Reads what is waiting, in whole frames and no more than `buffer` samples;
/// `None` when not even one frame is waiting. A remainder waits for the next
/// time.
pub fn drain(consumer: &mut RingConsumer, buffer: usize, channels: usize) -> (r: Option<Vec<u32>>)
    requires
        channels > 0,
    ensures
        match r {
            Some(samples) => {
                &&& samples@.len() > 0
                &&& samples@.len() == readable(
                    seen_waiting(final(consumer)) as int + samples@.len(),
                    buffer as int,
                    channels as int,
                )
                &&& samples@.len() <= buffer
                &&& samples@.len() as int % channels as int == 0
                &&& received(final(consumer)) == received(old(consumer)) + samples@
            },
            None => {
                &&& received(final(consumer)) == received(old(consumer))
                &&& readable(
                    seen_waiting(final(consumer)) as int,
                    buffer as int,
                    channels as int,
                ) == 0
            },
        },
{
    let waiting: usize = look_for_items(consumer);
    let available: usize = drain_len(waiting, buffer, channels);
    if available == 0 {
        return None;
    }
    let mut target: Vec<u32> = vec![0u32; available];
    let count: usize = read_items(consumer, &mut target);
    proof {
        assert(target@.take(count as int) =~= target@);
    }
    Some(target)
}

} // verus!
