//! Which samples of interleaved audio belong together: the channels of a frame,
//! two channels seen at an offset, and what a conversion has to do at all.

use crate::draft::handle::TARGET_SAMPLE_RATE;
use vstd::arithmetic::div_mod::{lemma_fundamental_div_mod, lemma_mod_bound};
use vstd::prelude::*;

verus! {

/// Whole frames in that many interleaved samples; none without channels.
pub open spec fn whole_frames(len: int, channels: int) -> int {
    if channels == 0 {
        0
    } else {
        len / channels
    }
}

/// Whole frames in a buffer.
pub fn frame_count(len: usize, channels: u16) -> (r: usize)
    ensures
        r == whole_frames(len as int, channels as int),
{
    if channels == 0 {
        0
    } else {
        len / channels as usize
    }
}

/// One channel of interleaved audio: a sample of every whole frame. A partial
/// frame at the end is left out.
pub open spec fn channel_of<T>(interleaved: Seq<T>, channels: int, index: int) -> Seq<T> {
    Seq::new(
        (interleaved.len() as int / channels) as nat,
        |i: int| interleaved[i * channels + index],
    )
}

/// Copies one channel out of interleaved audio. A channel that is not there has
/// no samples.
pub fn extract_channel<T: Copy>(interleaved: &[T], channels: usize, index: usize) -> (r: Vec<T>)
    ensures
        ({
            let n = if channels == 0 {
                1int
            } else {
                channels as int
            };
            r@ == (if index < n {
                channel_of(interleaved@, n, index as int)
            } else {
                Seq::empty()
            })
        }),
{
    let n: usize = if channels == 0 {
        1
    } else {
        channels
    };
    let mut out: Vec<T> = Vec::new();
    if index >= n {
        proof {
            assert(out@ =~= Seq::<T>::empty());
        }
        return out;
    }
    let total: usize = interleaved.len();
    let frames: usize = total / n;
    let mut i: usize = 0;
    proof {
        lemma_frames_fit(interleaved@.len() as int, n as int, frames as int);
    }
    while i < frames
        invariant
            i <= frames,
            index < n,
            total == interleaved@.len(),
            frames == interleaved@.len() as int / n as int,
            frames * n <= interleaved@.len(),
            out@.len() == i,
            forall|k: int| 0 <= k < i ==> #[trigger] out@[k] == interleaved@[k * n + index],
        decreases frames - i,
    {
        proof {
            assert(i * n + n <= frames * n) by (nonlinear_arith)
                requires
                    0 <= i < frames,
                    0 < n,
            ;
            assert(i * n >= 0) by (nonlinear_arith)
                requires
                    0 <= i,
                    0 < n,
            ;
        }
        out.push(interleaved[i * n + index]);
        i = i + 1;
    }
    proof {
        assert(out@ =~= channel_of(interleaved@, n as int, index as int));
    }
    out
}

proof fn lemma_frames_fit(len: int, channels: int, frames: int)
    requires
        len >= 0,
        channels > 0,
        frames == len / channels,
    ensures
        frames >= 0,
        frames * channels <= len,
{
    lemma_fundamental_div_mod(len, channels);
    lemma_mod_bound(len, channels);
    assert(frames * channels == channels * frames) by (nonlinear_arith);
    assert(frames >= 0) by (nonlinear_arith)
        requires
            len >= 0,
            channels > 0,
            frames == len / channels,
    ;
}

/// How interleaved audio becomes mono.
#[derive(Debug, Clone, Copy, PartialEq, Eq, Structural)]
pub enum Downmix {
    /// It is mono already.
    AsIs,
    /// One channel dominates: take it alone.
    Take(usize),
    /// The channels are averaged.
    Average,
}

/// How interleaved audio becomes mono, when `dominant` is the channel that is
/// far louder than another, if one is.
pub fn downmix_plan(channels: u16, dominant: Option<usize>) -> (r: Downmix)
    ensures
        r == (if channels <= 1 {
            Downmix::AsIs
        } else {
            match dominant {
                Some(index) => Downmix::Take(index),
                None => Downmix::Average,
            }
        }),
{
    if channels <= 1 {
        return Downmix::AsIs;
    }
    match dominant {
        Some(index) => Downmix::Take(index),
        None => Downmix::Average,
    }
}

/// What resampling to the transcriber's rate has to do.
#[derive(Debug, Clone, Copy, PartialEq, Eq, Structural)]
pub enum Resampling {
    /// There is nothing to resample.
    Nothing,
    /// The audio is at that rate already.
    AsIs,
    /// The audio is converted.
    Convert,
}

/// What resampling that many samples from that rate has to do.
pub fn resampling_plan(len: usize, src_rate: u32) -> (r: Resampling)
    ensures
        r == (if len == 0 {
            Resampling::Nothing
        } else if src_rate == TARGET_SAMPLE_RATE {
            Resampling::AsIs
        } else {
            Resampling::Convert
        }),
{
    if len == 0 {
        Resampling::Nothing
    } else if src_rate == TARGET_SAMPLE_RATE {
        Resampling::AsIs
    } else {
        Resampling::Convert
    }
}

// ---------------------------------------------------------------------------
// Two channels at an offset
// ---------------------------------------------------------------------------

/// Widest offset that is searched, in samples.
pub const CORRELATION_MAX_LAG: i32 = 8;

/// Where two channels overlap when the second is read `lag` samples later: how
/// far into each the overlap starts, and how long it is.
#[derive(Debug, Clone, Copy, PartialEq, Eq, Structural)]
pub struct Overlap {
    pub left: usize,
    pub right: usize,
    pub len: usize,
}

/// The larger of the difference and nothing.
pub open spec fn less(a: int, b: int) -> int {
    if a >= b {
        a - b
    } else {
        0
    }
}

/// The overlap of two channels at that offset: sample `i` of the left channel
/// meets sample `i + lag` of the right one, and each channel gives up as many
/// samples as the offset is wide.
pub open spec fn is_overlap(o: Overlap, left_len: int, right_len: int, lag: int) -> bool {
    let shift = if lag < 0 {
        -lag
    } else {
        lag
    };
    &&& o.left == less(0, lag)
    &&& o.right == less(lag, 0)
    &&& o.len == (if left_len <= right_len {
        less(left_len, shift)
    } else {
        less(right_len, shift)
    })
}

/// Where two channels overlap at an offset; `None` when the offset is beyond the
/// end of the channel that is read from there.
pub fn overlap_at(left_len: usize, right_len: usize, lag: i32) -> (r: Option<Overlap>)
    requires
        lag > i32::MIN,
    ensures
        match r {
            Some(o) => is_overlap(o, left_len as int, right_len as int, lag as int) && o.left
                + o.len <= left_len && o.right + o.len <= right_len,
            None => (lag < 0 && -lag > left_len) || (lag > 0 && lag > right_len),
        },
{
    let left: usize = if lag < 0 {
        (-lag) as usize
    } else {
        0
    };
    let right: usize = if lag > 0 {
        lag as usize
    } else {
        0
    };
    if left > left_len || right > right_len {
        return None;
    }
    let shift: usize = left + right;
    let shorter: usize = if left_len <= right_len {
        left_len
    } else {
        right_len
    };
    let len: usize = if shorter >= shift {
        shorter - shift
    } else {
        0
    };
    Some(Overlap { left, right, len })
}

/// The offset of the strongest match. `strengths` holds, for each offset from
/// the lowest up, how strong the match is there.
pub open spec fn strongest(strengths: Seq<u32>, n: int) -> Option<int>
    decreases n,
{
    if n <= 0 {
        None
    } else {
        let best = strongest(strengths, n - 1);
        let bar = match best {
            Some(i) => strengths[i],
            None => 0,
        };
        if strengths[n - 1] > bar {
            Some(n - 1)
        } else {
            best
        }
    }
}

/// The offset of the strongest match, the lowest of several that are equally
/// strong, and zero when nothing matches at all. `strengths` holds how strong
/// the match is at each offset, from the lowest up.
pub fn strongest_lag(strengths: &[u32]) -> (r: i32)
    requires
        strengths@.len() == 2 * CORRELATION_MAX_LAG + 1,
    ensures
        r == (match strongest(strengths@, strengths@.len() as int) {
            Some(i) => i - CORRELATION_MAX_LAG,
            None => 0,
        }),
        -CORRELATION_MAX_LAG <= r <= CORRELATION_MAX_LAG,
{
    let mut lag: i32 = 0;
    let mut bar: u32 = 0;
    let mut i: usize = 0;
    while i < strengths.len()
        invariant
            i <= strengths@.len(),
            strengths@.len() == 2 * CORRELATION_MAX_LAG + 1,
            match strongest(strengths@, i as int) {
                Some(k) => 0 <= k < i && lag == k - CORRELATION_MAX_LAG && bar == strengths@[k],
                None => lag == 0 && bar == 0,
            },
        decreases strengths@.len() - i,
    {
        if strengths[i] > bar {
            bar = strengths[i];
            lag = i as i32 - CORRELATION_MAX_LAG;
        }
        i = i + 1;
    }
    lag
}

// ---------------------------------------------------------------------------
// Laws
// ---------------------------------------------------------------------------

/// Every sample of a whole frame is in exactly the channel it belongs to: the
/// frames can be put together again from the channels.
pub proof fn the_channels_make_up_the_frames<T>(interleaved: Seq<T>, channels: int, at: int)
    requires
        channels > 0,
        0 <= at < whole_frames(interleaved.len() as int, channels) * channels,
    ensures
        0 <= at / channels < channel_of(interleaved, channels, at % channels).len(),
        channel_of(interleaved, channels, at % channels)[at / channels] == interleaved[at],
{
    let frames = interleaved.len() as int / channels;
    lemma_frames_fit(interleaved.len() as int, channels, frames);
    lemma_fundamental_div_mod(at, channels);
    lemma_mod_bound(at, channels);
    let q = at / channels;
    assert(q * channels == channels * q) by (nonlinear_arith);
    assert(0 <= q < frames) by (nonlinear_arith)
        requires
            0 <= at < frames * channels,
            channels > 0,
            at == q * channels + at % channels,
            0 <= at % channels < channels,
    ;
}

proof fn lemma_strongest(strengths: Seq<u32>, n: int)
    requires
        0 <= n <= strengths.len(),
    ensures
        match strongest(strengths, n) {
            Some(i) => {
                &&& 0 <= i < n
                &&& strengths[i] > 0
                &&& forall|k: int| 0 <= k < n ==> #[trigger] strengths[k] <= strengths[i]
                &&& forall|k: int| 0 <= k < i ==> #[trigger] strengths[k] < strengths[i]
            },
            None => forall|k: int| 0 <= k < n ==> #[trigger] strengths[k] == 0,
        },
    decreases n,
{
    if n > 0 {
        lemma_strongest(strengths, n - 1);
    }
}

/// No offset matches better than the one that is chosen, and no lower one as
/// well.
pub proof fn the_strongest_match_is_the_first_of_the_best(strengths: Seq<u32>)
    ensures
        match strongest(strengths, strengths.len() as int) {
            Some(i) => {
                &&& 0 <= i < strengths.len()
                &&& forall|k: int|
                    0 <= k < strengths.len() ==> #[trigger] strengths[k] <= strengths[i]
                &&& forall|k: int| 0 <= k < i ==> #[trigger] strengths[k] < strengths[i]
            },
            None => forall|k: int| 0 <= k < strengths.len() ==> #[trigger] strengths[k] == 0,
        },
{
    lemma_strongest(strengths, strengths.len() as int);
}

} // verus!
