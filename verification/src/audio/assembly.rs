//! Pre-roll and utterance assembly.
//!
//! A rolling buffer keeps the most recent audio at all times. A press opens an
//! utterance with it; a release ends the utterance after a short post-roll; a
//! cap splits a long one without losing a sample.

use std::collections::VecDeque;
use vstd::prelude::*;

verus! {

/// Audio kept from before the key went down, in milliseconds.
pub const PRE_ROLL_MS: u64 = 400;

/// Audio kept after the key comes up, in milliseconds.
pub const POST_ROLL_MS: u64 = 200;

/// Hard ceiling on one line of audio, in milliseconds: two minutes.
pub const MAX_UTTERANCE_MS: u64 = 120000;

/// Where the assembly stands.
#[derive(Debug, Clone, Copy, PartialEq, Eq, Structural)]
pub enum Phase {
    Idle,
    Recording,
    PostRoll,
}

/// One finished chunk of native interleaved audio.
#[derive(Debug)]
pub struct Chunk<T> {
    /// The samples, pre-roll first.
    pub raw: Vec<T>,
    /// The cap ended it, not the user.
    pub capped: bool,
    /// A cap split opened it, not a press.
    pub continued: bool,
}

/// What a [`Chunk`] holds.
pub struct ChunkView<T> {
    pub raw: Seq<T>,
    pub capped: bool,
    pub continued: bool,
}

impl<T> View for Chunk<T> {
    type V = ChunkView<T>;

    open spec fn view(&self) -> ChunkView<T> {
        ChunkView { raw: self.raw@, capped: self.capped, continued: self.continued }
    }
}

/// The contents of a list of chunks.
pub open spec fn chunks_view<T>(chunks: Seq<Chunk<T>>) -> Seq<ChunkView<T>> {
    chunks.map_values(|c: Chunk<T>| c@)
}

/// What an optional chunk holds.
pub open spec fn opt_chunk<T>(c: Option<Chunk<T>>) -> Option<ChunkView<T>> {
    match c {
        Some(c) => Some(c@),
        None => None,
    }
}

/// Rolling pre-roll plus utterance assembly, in native interleaved samples.
#[derive(Debug)]
pub struct CaptureState<T> {
    /// The most recent audio.
    pub pre_roll: VecDeque<T>,
    /// How much of it is kept.
    pub pre_roll_cap: usize,
    /// How much is kept after a release.
    pub post_roll_len: usize,
    /// How much of that is still to come.
    pub post_roll_left: usize,
    /// The chunk being assembled.
    pub utterance: Vec<T>,
    /// Where a chunk is split; never, when it is zero.
    pub utterance_cap: usize,
    /// Where the assembly stands.
    pub phase: Phase,
    /// Whether the chunk being assembled was opened by a split.
    pub continued: bool,
}

/// What a [`CaptureState`] holds.
pub struct CaptureView<T> {
    pub pre_roll: Seq<T>,
    pub pre_roll_cap: nat,
    pub post_roll_len: nat,
    pub post_roll_left: nat,
    pub utterance: Seq<T>,
    pub utterance_cap: nat,
    pub phase: Phase,
    pub continued: bool,
}

impl<T> View for CaptureState<T> {
    type V = CaptureView<T>;

    open spec fn view(&self) -> CaptureView<T> {
        CaptureView {
            pre_roll: self.pre_roll@,
            pre_roll_cap: self.pre_roll_cap as nat,
            post_roll_len: self.post_roll_len as nat,
            post_roll_left: self.post_roll_left as nat,
            utterance: self.utterance@,
            utterance_cap: self.utterance_cap as nat,
            phase: self.phase,
            continued: self.continued,
        }
    }
}

// ---------------------------------------------------------------------------
// What each step does
// ---------------------------------------------------------------------------

/// The last `n` items of a run, or all of it when it is shorter.
pub open spec fn last_of<T>(s: Seq<T>, n: nat) -> Seq<T> {
    if s.len() <= n {
        s
    } else {
        s.skip(s.len() - n)
    }
}

/// The state with no audio yet.
pub open spec fn fresh<T>(pre: nat, post: nat, cap: nat) -> CaptureView<T> {
    CaptureView {
        pre_roll: Seq::empty(),
        pre_roll_cap: pre,
        post_roll_len: post,
        post_roll_left: 0,
        utterance: Seq::empty(),
        utterance_cap: cap,
        phase: Phase::Idle,
        continued: false,
    }
}

/// The state after the pre-roll has taken the samples in.
pub open spec fn remembered<T>(s: CaptureView<T>, samples: Seq<T>) -> CaptureView<T> {
    CaptureView { pre_roll: last_of(s.pre_roll + samples, s.pre_roll_cap), ..s }
}

/// The chunk being assembled, as it stands.
pub open spec fn current_chunk<T>(s: CaptureView<T>, capped: bool) -> ChunkView<T> {
    ChunkView { raw: s.utterance, capped, continued: s.continued }
}

/// The state after samples have gone to the utterance and to the pre-roll.
pub open spec fn taken<T>(s: CaptureView<T>, samples: Seq<T>) -> CaptureView<T> {
    remembered(CaptureView { utterance: s.utterance + samples, ..s }, samples)
}

/// The state after a split: the next chunk is open, with the pre-roll in it.
pub open spec fn reopened<T>(s: CaptureView<T>) -> CaptureView<T> {
    CaptureView { utterance: s.pre_roll, continued: true, ..s }
}

/// How much more the chunk can hold.
pub open spec fn room<T>(s: CaptureView<T>) -> int {
    if s.utterance.len() >= s.utterance_cap {
        0
    } else {
        s.utterance_cap - s.utterance.len()
    }
}

/// One for a chunk that can hold nothing more, none for one that can.
pub open spec fn fullness<T>(s: CaptureView<T>) -> nat {
    if room(s) == 0 {
        1
    } else {
        0
    }
}

/// Live audio while the key is down: the state after it, and the chunks that
/// reached the cap. A chunk is closed exactly at the cap, and the next one
/// opens at once with the pre-roll.
pub open spec fn recorded<T>(s: CaptureView<T>, samples: Seq<T>) -> (
    CaptureView<T>,
    Seq<ChunkView<T>>,
)
    decreases samples.len(), fullness(s),
{
    if s.utterance_cap == 0 || room(s) >= samples.len() {
        (taken(s, samples), Seq::empty())
    } else {
        let at = room(s);
        let full = taken(s, samples.take(at));
        let next = reopened(full);
        let rest = samples.skip(at);
        if next.utterance.len() >= s.utterance_cap {
            (taken(next, rest), seq![current_chunk(full, true)])
        } else {
            let (end, more) = recorded(next, rest);
            (end, seq![current_chunk(full, true)] + more)
        }
    }
}

/// Audio after a release: the state after it, and the chunk, once its post-roll
/// is complete.
pub open spec fn trailed<T>(s: CaptureView<T>, samples: Seq<T>) -> (
    CaptureView<T>,
    Seq<ChunkView<T>>,
) {
    let take = if s.post_roll_left <= samples.len() {
        s.post_roll_left
    } else {
        samples.len()
    };
    let fed = CaptureView {
        utterance: s.utterance + samples.take(take as int),
        post_roll_left: (s.post_roll_left - take) as nat,
        ..s
    };
    if fed.post_roll_left == 0 {
        (
            remembered(
                CaptureView { phase: Phase::Idle, utterance: Seq::empty(), ..fed },
                samples,
            ),
            seq![current_chunk(fed, false)],
        )
    } else {
        (remembered(fed, samples), Seq::empty())
    }
}

/// Audio, whatever the phase: the state after it, and the chunks it completed.
pub open spec fn pushed<T>(s: CaptureView<T>, samples: Seq<T>) -> (
    CaptureView<T>,
    Seq<ChunkView<T>>,
) {
    match s.phase {
        Phase::Idle => (remembered(s, samples), Seq::empty()),
        Phase::Recording => recorded(s, samples),
        Phase::PostRoll => trailed(s, samples),
    }
}

/// A press: the state after it, and the chunk it closed. A press while
/// recording is ignored; one inside a post-roll closes that chunk early.
pub open spec fn begun<T>(s: CaptureView<T>) -> (CaptureView<T>, Option<ChunkView<T>>) {
    match s.phase {
        Phase::Recording => (s, None),
        Phase::Idle => (
            CaptureView {
                utterance: s.pre_roll,
                phase: Phase::Recording,
                continued: false,
                ..s
            },
            None,
        ),
        Phase::PostRoll => (
            CaptureView {
                utterance: s.pre_roll,
                phase: Phase::Recording,
                continued: false,
                post_roll_left: 0,
                ..s
            },
            Some(current_chunk(s, false)),
        ),
    }
}

/// A release: the state after it, and the chunk, when no post-roll is wanted.
pub open spec fn ended<T>(s: CaptureView<T>) -> (CaptureView<T>, Option<ChunkView<T>>) {
    if s.phase != Phase::Recording {
        (s, None)
    } else if s.post_roll_len == 0 {
        (
            CaptureView { phase: Phase::Idle, utterance: Seq::empty(), ..s },
            Some(current_chunk(s, false)),
        )
    } else {
        (CaptureView { phase: Phase::PostRoll, post_roll_left: s.post_roll_len, ..s }, None)
    }
}

/// Giving up: the state after it, and what was captured so far, if anything.
pub open spec fn abandoned<T>(s: CaptureView<T>) -> (CaptureView<T>, Option<ChunkView<T>>) {
    if s.phase == Phase::Idle {
        (s, None)
    } else {
        (
            CaptureView {
                phase: Phase::Idle,
                post_roll_left: 0,
                utterance: Seq::empty(),
                ..s
            },
            if s.utterance.len() == 0 {
                None
            } else {
                Some(current_chunk(s, false))
            },
        )
    }
}

/// True when the pre-roll is within its size, as every step keeps it.
pub open spec fn pre_roll_fits<T>(s: CaptureView<T>) -> bool {
    s.pre_roll.len() <= s.pre_roll_cap
}

// ---------------------------------------------------------------------------
// Doing it
// ---------------------------------------------------------------------------

/// Puts the items from `from` up to `to` at the end of a list.
fn push_range<T: Copy>(out: &mut Vec<T>, items: &[T], from: usize, to: usize)
    requires
        from <= to <= items@.len(),
    ensures
        final(out)@ == old(out)@ + items@.subrange(from as int, to as int),
{
    let ghost start = out@;
    let mut i: usize = from;
    proof {
        assert(start + items@.subrange(from as int, from as int) =~= start);
    }
    while i < to
        invariant
            from <= i <= to <= items@.len(),
            out@ == start + items@.subrange(from as int, i as int),
        decreases to - i,
    {
        out.push(items[i]);
        proof {
            assert(out@ =~= start + items@.subrange(from as int, i + 1));
        }
        i = i + 1;
    }
}

/// Whole frames in that many milliseconds at that rate, to the nearest frame.
pub open spec fn frames_in(ms: int, sample_rate: int) -> int {
    (ms * sample_rate + 500) / 1000
}

/// Whole frames in that many milliseconds at that rate, to the nearest frame.
pub fn frames_for(ms: u64, sample_rate: u32) -> (r: u64)
    requires
        ms <= 0xffff_ffff,
    ensures
        r == frames_in(ms as int, sample_rate as int),
{
    proof {
        assert(ms * sample_rate <= 0xffff_ffff * 0xffff_ffff) by (nonlinear_arith)
            requires
                0 <= ms <= 0xffff_ffff,
                0 <= sample_rate <= 0xffff_ffff,
        ;
    }
    (ms * sample_rate as u64 + 500) / 1000
}

/// The channel count an engine works with: at least one.
pub open spec fn at_least_one(channels: nat) -> nat {
    if channels == 0 {
        1
    } else {
        channels
    }
}

impl<T: Copy> CaptureState<T> {
    /// A state with limits in frames.
    pub fn with_frame_limits(
        channels: usize,
        pre_roll_frames: usize,
        post_roll_frames: usize,
        max_frames: usize,
    ) -> (r: CaptureState<T>)
        requires
            pre_roll_frames * at_least_one(channels as nat) <= usize::MAX,
            post_roll_frames * at_least_one(channels as nat) <= usize::MAX,
            max_frames * at_least_one(channels as nat) <= usize::MAX,
        ensures
            r@ == fresh::<T>(
                pre_roll_frames as nat * at_least_one(channels as nat),
                post_roll_frames as nat * at_least_one(channels as nat),
                max_frames as nat * at_least_one(channels as nat),
            ),
    {
        let channels: usize = if channels == 0 {
            1
        } else {
            channels
        };
        CaptureState {
            pre_roll: VecDeque::with_capacity(pre_roll_frames * channels),
            pre_roll_cap: pre_roll_frames * channels,
            post_roll_len: post_roll_frames * channels,
            post_roll_left: 0,
            utterance: Vec::new(),
            utterance_cap: max_frames * channels,
            phase: Phase::Idle,
            continued: false,
        }
    }

    /// A state for a device: 400 ms of pre-roll, 200 ms of post-roll, a cap of
    /// two minutes.
    pub fn new(sample_rate: u32, channels: usize) -> (r: CaptureState<T>)
        requires
            frames_in(MAX_UTTERANCE_MS as int, sample_rate as int) * at_least_one(channels as nat)
                <= usize::MAX,
        ensures
            r@ == device_state::<T>(sample_rate, channels as nat),
    {
        let pre: u64 = frames_for(PRE_ROLL_MS, sample_rate);
        let post: u64 = frames_for(POST_ROLL_MS, sample_rate);
        let max: u64 = frames_for(MAX_UTTERANCE_MS, sample_rate);
        proof {
            let c = at_least_one(channels as nat) as int;
            assert(pre <= max && post <= max);
            assert(pre * c <= max * c) by (nonlinear_arith)
                requires
                    0 <= pre <= max,
                    c >= 1,
            ;
            assert(post * c <= max * c) by (nonlinear_arith)
                requires
                    0 <= post <= max,
                    c >= 1,
            ;
            assert(max <= max * c) by (nonlinear_arith)
                requires
                    max >= 0,
                    c >= 1,
            ;
        }
        CaptureState::with_frame_limits(channels, pre as usize, post as usize, max as usize)
    }

    /// Takes the samples from `from` up to `to` into the pre-roll.
    fn remember(&mut self, samples: &[T], from: usize, to: usize)
        requires
            from <= to <= samples@.len(),
            pre_roll_fits(old(self)@),
        ensures
            final(self)@ == remembered(old(self)@, samples@.subrange(from as int, to as int)),
            pre_roll_fits(final(self)@),
    {
        let ghost start = self@;
        let ghost run = samples@.subrange(from as int, to as int);
        let cap: usize = self.pre_roll_cap;
        if cap == 0 {
            proof {
                assert(last_of(start.pre_roll + run, 0) =~= Seq::<T>::empty());
                assert(start.pre_roll =~= Seq::<T>::empty());
            }
            return ;
        }
        let mut i: usize = from;
        proof {
            assert(start.pre_roll + samples@.subrange(from as int, from as int)
                =~= start.pre_roll);
        }
        while i < to
            invariant
                from <= i <= to <= samples@.len(),
                cap > 0,
                cap == start.pre_roll_cap,
                self@ == (CaptureView {
                    pre_roll: last_of(
                        start.pre_roll + samples@.subrange(from as int, i as int),
                        cap as nat,
                    ),
                    ..start
                }),
            decreases to - i,
        {
            let ghost all = start.pre_roll + samples@.subrange(from as int, i as int);
            let ghost more = start.pre_roll + samples@.subrange(from as int, i + 1);
            proof {
                assert(more =~= all.push(samples@[i as int]));
            }
            if self.pre_roll.len() == cap {
                let _ = self.pre_roll.pop_front();
            }
            self.pre_roll.push_back(samples[i]);
            proof {
                assert(self.pre_roll@ =~= last_of(more, cap as nat));
            }
            i = i + 1;
        }
    }

    /// Appends the pre-roll to the chunk being assembled.
    fn seed(&mut self)
        ensures
            final(self)@ == (CaptureView {
                utterance: old(self)@.utterance + old(self)@.pre_roll,
                ..old(self)@
            }),
    {
        let ghost start = self@;
        let mut i: usize = 0;
        proof {
            assert(start.utterance + start.pre_roll.take(0) =~= start.utterance);
        }
        while i < self.pre_roll.len()
            invariant
                i <= self.pre_roll@.len(),
                self@ == (CaptureView {
                    utterance: start.utterance + start.pre_roll.take(i as int),
                    ..start
                }),
            decreases self.pre_roll@.len() - i,
        {
            let sample = self.pre_roll[i];
            self.utterance.push(sample);
            proof {
                assert(self.utterance@ =~= start.utterance + start.pre_roll.take(i + 1));
            }
            i = i + 1;
        }
        proof {
            assert(start.pre_roll.take(start.pre_roll.len() as int) =~= start.pre_roll);
        }
    }

    /// Takes the chunk being assembled.
    fn take_chunk(&mut self, capped: bool) -> (r: Chunk<T>)
        ensures
            r@ == current_chunk(old(self)@, capped),
            final(self)@ == (CaptureView { utterance: Seq::empty(), ..old(self)@ }),
    {
        let mut raw: Vec<T> = Vec::new();
        std::mem::swap(&mut raw, &mut self.utterance);
        Chunk { raw, capped, continued: self.continued }
    }

    /// Closes the chunk at the cap and opens the next one, still recording.
    fn split(&mut self, finished: &mut Vec<Chunk<T>>)
        ensures
            final(self)@ == reopened(old(self)@),
            chunks_view(final(finished)@) == chunks_view(old(finished)@).push(
                current_chunk(old(self)@, true),
            ),
    {
        let ghost before = finished@;
        let chunk = self.take_chunk(true);
        let ghost view = chunk@;
        finished.push(chunk);
        self.seed();
        self.continued = true;
        proof {
            assert(chunks_view(finished@) =~= chunks_view(before).push(view));
            assert(self.utterance@ =~= old(self)@.pre_roll);
        }
    }

    /// Appends the samples from `from` up to `to` to the chunk and to the
    /// pre-roll.
    fn take_samples(&mut self, samples: &[T], from: usize, to: usize)
        requires
            from <= to <= samples@.len(),
            pre_roll_fits(old(self)@),
        ensures
            final(self)@ == taken(old(self)@, samples@.subrange(from as int, to as int)),
            pre_roll_fits(final(self)@),
    {
        push_range(&mut self.utterance, samples, from, to);
        self.remember(samples, from, to);
    }

    /// Live audio while the key is down: append, and split rather than drop
    /// when the cap is reached.
    fn record(&mut self, samples: &[T], finished: &mut Vec<Chunk<T>>)
        requires
            pre_roll_fits(old(self)@),
        ensures
            final(self)@ == recorded(old(self)@, samples@).0,
            chunks_view(final(finished)@) == chunks_view(old(finished)@) + recorded(
                old(self)@,
                samples@,
            ).1,
            pre_roll_fits(final(self)@),
    {
        let ghost s0 = self@;
        let ghost f0 = chunks_view(finished@);
        let n: usize = samples.len();
        let cap: usize = self.utterance_cap;
        let mut at: usize = 0;
        proof {
            assert(samples@.skip(0) =~= samples@);
            assert(samples@.subrange(0, n as int) =~= samples@);
        }
        if cap == 0 {
            self.take_samples(samples, 0, n);
            proof {
                assert(f0 + Seq::<ChunkView<T>>::empty() =~= f0);
            }
            return ;
        }
        let ghost mut done: Seq<ChunkView<T>> = Seq::empty();
        proof {
            assert(f0 + done =~= f0);
            assert(done + recorded(s0, samples@).1 =~= recorded(s0, samples@).1);
        }
        loop
            invariant
                s0 == old(self)@,
                f0 == chunks_view(old(finished)@),
                at <= n,
                n == samples@.len(),
                cap > 0,
                cap == self.utterance_cap,
                pre_roll_fits(self@),
                chunks_view(finished@) == f0 + done,
                recorded(s0, samples@).0 == recorded(self@, samples@.skip(at as int)).0,
                recorded(s0, samples@).1 == done + recorded(self@, samples@.skip(at as int)).1,
            decreases n - at, fullness(self@),
        {
            let ghost here = self@;
            let ghost rest = samples@.skip(at as int);
            let len: usize = self.utterance.len();
            let space: usize = if len >= cap {
                0
            } else {
                cap - len
            };
            if space >= n - at {
                self.take_samples(samples, at, n);
                proof {
                    assert(samples@.subrange(at as int, n as int) =~= rest);
                    assert(done + Seq::<ChunkView<T>>::empty() =~= done);
                }
                return ;
            }
            let edge: usize = at + space;
            self.take_samples(samples, at, edge);
            proof {
                assert(samples@.subrange(at as int, edge as int) =~= rest.take(space as int));
                assert(rest.skip(space as int) =~= samples@.skip(edge as int));
            }
            let ghost full = self@;
            self.split(finished);
            proof {
                let shut = current_chunk(full, true);
                assert(f0 + done.push(shut) =~= (f0 + done).push(shut));
                if self@.utterance.len() < cap {
                    let more = recorded(self@, samples@.skip(edge as int)).1;
                    assert(recorded(here, rest).1 == seq![shut] + more);
                    assert(done + (seq![shut] + more) =~= done.push(shut) + more);
                }
                done = done.push(shut);
            }
            at = edge;
            if self.utterance.len() >= cap {
                self.take_samples(samples, at, n);
                proof {
                    assert(samples@.subrange(at as int, n as int) =~= samples@.skip(at as int));
                    let before = done.drop_last();
                    assert(before + seq![done.last()] =~= done);
                }
                return ;
            }
        }
    }

    /// Feeds a frame-aligned run of native samples, and appends every chunk it
    /// completed to `finished`.
    pub fn push(&mut self, samples: &[T], finished: &mut Vec<Chunk<T>>)
        requires
            pre_roll_fits(old(self)@),
        ensures
            final(self)@ == pushed(old(self)@, samples@).0,
            chunks_view(final(finished)@) == chunks_view(old(finished)@) + pushed(
                old(self)@,
                samples@,
            ).1,
            pre_roll_fits(final(self)@),
    {
        let n: usize = samples.len();
        let ghost s0 = self@;
        let ghost f0 = chunks_view(finished@);
        proof {
            assert(samples@.subrange(0, n as int) =~= samples@);
            assert(f0 + Seq::<ChunkView<T>>::empty() =~= f0);
        }
        match self.phase {
            Phase::Idle => self.remember(samples, 0, n),
            Phase::Recording => self.record(samples, finished),
            Phase::PostRoll => {
                let take: usize = if self.post_roll_left <= n {
                    self.post_roll_left
                } else {
                    n
                };
                push_range(&mut self.utterance, samples, 0, take);
                self.post_roll_left = self.post_roll_left - take;
                proof {
                    assert(samples@.subrange(0, take as int) =~= samples@.take(take as int));
                }
                if self.post_roll_left == 0 {
                    self.phase = Phase::Idle;
                    let ghost before = finished@;
                    let chunk = self.take_chunk(false);
                    let ghost view = chunk@;
                    finished.push(chunk);
                    proof {
                        assert(chunks_view(finished@) =~= chunks_view(before) + seq![view]);
                    }
                }
                self.remember(samples, 0, n);
            },
        }
    }

    /// Is the user speaking into this chunk right now? The post-roll does not
    /// count: the key is already up.
    pub fn is_recording(&self) -> (r: bool)
        ensures
            r == (self@.phase == Phase::Recording),
    {
        self.phase == Phase::Recording
    }

    /// Opens a new utterance, and hands back the chunk this press closed.
    pub fn begin(&mut self) -> (r: Option<Chunk<T>>)
        ensures
            final(self)@ == begun(old(self)@).0,
            opt_chunk(r) == begun(old(self)@).1,
    {
        let early = match self.phase {
            Phase::Idle => None,
            Phase::Recording => {
                return None;
            },
            Phase::PostRoll => {
                self.post_roll_left = 0;
                Some(self.take_chunk(false))
            },
        };
        self.utterance = Vec::new();
        self.seed();
        self.phase = Phase::Recording;
        self.continued = false;
        proof {
            assert(self.utterance@ =~= old(self)@.pre_roll);
        }
        early
    }

    /// Begins the post-roll. Hands the chunk back at once when there is none.
    pub fn end(&mut self) -> (r: Option<Chunk<T>>)
        ensures
            final(self)@ == ended(old(self)@).0,
            opt_chunk(r) == ended(old(self)@).1,
    {
        if self.phase != Phase::Recording {
            return None;
        }
        if self.post_roll_len == 0 {
            self.phase = Phase::Idle;
            return Some(self.take_chunk(false));
        }
        self.phase = Phase::PostRoll;
        self.post_roll_left = self.post_roll_len;
        None
    }

    /// Gives up on an utterance in flight, and hands back whatever was captured.
    pub fn abandon(&mut self) -> (r: Option<Chunk<T>>)
        ensures
            final(self)@ == abandoned(old(self)@).0,
            opt_chunk(r) == abandoned(old(self)@).1,
    {
        if self.phase == Phase::Idle {
            return None;
        }
        self.phase = Phase::Idle;
        self.post_roll_left = 0;
        let chunk = self.take_chunk(false);
        if chunk.raw.len() == 0 {
            None
        } else {
            Some(chunk)
        }
    }

    /// How much audio the pre-roll holds.
    pub fn pre_roll_len(&self) -> (r: usize)
        ensures
            r == self@.pre_roll.len(),
    {
        self.pre_roll.len()
    }
}

/// The state an engine starts with on a device.
pub open spec fn device_state<T>(sample_rate: u32, channels: nat) -> CaptureView<T> {
    let c = at_least_one(channels);
    fresh(
        frames_in(PRE_ROLL_MS as int, sample_rate as int) as nat * c,
        frames_in(POST_ROLL_MS as int, sample_rate as int) as nat * c,
        frames_in(MAX_UTTERANCE_MS as int, sample_rate as int) as nat * c,
    )
}

} // verus!
