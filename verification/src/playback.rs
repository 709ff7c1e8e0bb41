//! The listener's playback queue and the decoder's throttle.
//!
//! Decoded samples queue up for the output device; when the queue grows
//! past `BUFFER_LIMIT` everything queued is dropped at once, trading a
//! glitch for bounded latency. The device callback pops one sample per
//! frame and plays silence when the queue is empty. On the decoding side,
//! more stored audio is decoded only while the queue is below half the
//! buffer.

use vstd::prelude::*;

use crate::codec::decode_spec;
use crate::sample::{BUFFER_LENGTH, BUFFER_LIMIT};

verus! {

/// The queue of decoded samples awaiting playback.
pub struct PlaybackBuffer {
    samples: Vec<i64>,
}

impl PlaybackBuffer {
    /// The queued samples, oldest first.
    pub closed spec fn view(&self) -> Seq<i64> {
        self.samples@
    }

    /// An empty queue.
    pub fn new() -> (b: PlaybackBuffer)
        ensures
            b@ =~= Seq::<i64>::empty(),
    {
        PlaybackBuffer { samples: Vec::new() }
    }

    /// How many samples are queued.
    pub fn len(&self) -> (n: usize)
        ensures
            n == self@.len(),
    {
        self.samples.len()
    }

    /// Queues one decoded sample.
    pub fn push(&mut self, s: i64)
        requires
            old(self)@.len() < usize::MAX,
        ensures
            final(self)@ =~= old(self)@.push(s),
    {
        self.samples.push(s);
    }

    /// The overflow policy, checked before each device callback: past the
    /// limit, every queued sample is dropped at once. Returns whether the
    /// queue was dropped.
    pub fn maintain(&mut self) -> (dropped: bool)
        ensures
            dropped == (old(self)@.len() > BUFFER_LIMIT),
            dropped ==> final(self)@ =~= Seq::<i64>::empty(),
            !dropped ==> final(self)@ == old(self)@,
    {
        if self.samples.len() > BUFFER_LIMIT {
            self.samples = Vec::new();
            true
        } else {
            false
        }
    }

    /// Hands the next sample to the output device, or silence when nothing
    /// is queued.
    pub fn pop_or_silence(&mut self) -> (s: i64)
        ensures
            old(self)@.len() == 0 ==> s == 0 && final(self)@ == old(self)@,
            old(self)@.len() > 0 ==> s == old(self)@[0] && final(self)@ =~= old(self)@.skip(1),
    {
        if self.samples.len() == 0 {
            0
        } else {
            self.samples.remove(0)
        }
    }
}

/// One received wire message, decoded and queued for playback: the
/// listener's per-message work. A message that does not decompress leaves
/// the queue untouched; otherwise every decoded sample is queued in order
/// (only an address-space-sized queue could drop any) and the count is
/// returned.
pub fn listener_ingest(buffer: &mut PlaybackBuffer, data: &Vec<u8>) -> (n: Option<usize>)
    ensures
        n is None ==> *final(buffer) == *old(buffer) && (forall|s: Seq<u8>|
            data@ != #[trigger] crate::wire::brotli_of(s)),
        forall|s: Seq<u8>|
            data@ == #[trigger] crate::wire::brotli_of(s) ==> (n matches Some(k) && k
                == decode_spec(s).len() && (old(buffer)@.len() + decode_spec(s).len() <= usize::MAX
                ==> crate::codec::to_ints(final(buffer)@) == crate::codec::to_ints(old(buffer)@)
                + decode_spec(s))),
{
    let samples = match crate::wire::decode_wire_message(data) {
        Some(samples) => samples,
        None => {
            return None;
        },
    };
    let n = samples.len();
    let mut k: usize = 0;
    proof {
        assert(samples@.take(0) =~= Seq::<i64>::empty());
        assert(crate::codec::to_ints(old(buffer)@) + crate::codec::to_ints(samples@.take(0))
            =~= crate::codec::to_ints(old(buffer)@));
    }
    while k < n
        invariant
            k <= n == samples@.len(),
            old(buffer)@.len() + n <= usize::MAX ==> buffer@.len() == old(buffer)@.len() + k
                && crate::codec::to_ints(buffer@) == crate::codec::to_ints(old(buffer)@)
                + crate::codec::to_ints(samples@.take(k as int)),
        decreases n - k,
    {
        let s = samples[k];
        let ghost prev = buffer@;
        if buffer.len() < usize::MAX {
            buffer.push(s);
        }
        proof {
            if old(buffer)@.len() + n <= usize::MAX {
                assert(buffer@ == prev.push(s));
                assert(crate::codec::to_ints(prev.push(s)) =~= crate::codec::to_ints(prev).push(
                    s as int,
                ));
                assert(samples@.take(k + 1) =~= samples@.take(k as int).push(s));
                assert(crate::codec::to_ints(samples@.take(k as int).push(s))
                    =~= crate::codec::to_ints(samples@.take(k as int)).push(s as int));
                assert(crate::codec::to_ints(old(buffer)@) + crate::codec::to_ints(
                    samples@.take(k as int),
                ).push(s as int) =~= (crate::codec::to_ints(old(buffer)@) + crate::codec::to_ints(
                    samples@.take(k as int),
                )).push(s as int));
            }
        }
        k = k + 1;
    }
    proof {
        assert(samples@.take(n as int) =~= samples@);
    }
    Some(n)
}

/// The decode throttle: more stored audio is decoded only while the
/// playback queue is below half the buffer.
pub fn should_decode_now(buffered: usize) -> (r: bool)
    ensures
        r == (buffered < BUFFER_LENGTH / 2),
{
    buffered < BUFFER_LENGTH / 2
}

} // verus!
