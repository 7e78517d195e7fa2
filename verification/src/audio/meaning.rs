//! What the decisions around the microphone come to: durations, channels, names,
//! readings and passes, in plain numbers.

use crate::audio::assembly::{abandoned, begun, ended, pushed, CaptureView, ChunkView, Phase};
use crate::audio::assembly_laws::the_limits_last_as_long_as_they_say;
use crate::audio::channels::{is_overlap, whole_frames, Overlap};
use crate::audio::device::{first_match, matched, name_matches};
use crate::audio::engine::{lasting, reconnects_to, reported_channels, Reconnect, ReconnectState};
use crate::audio::error::AudioError;
use crate::audio::level::{metered, LevelMeter, MeterStep};
use crate::audio::ring::{readable, ring_size};
use crate::audio::worker::{
    commanded, config_for, heard, listed, passed, scratch_size, swapped, tagged, worker_for,
    Command, StreamShape, WorkerConfig, WorkerView,
};
use crate::text::{is_white, lowercase, occurs_at, occurs_in, trimmed};
use vstd::arithmetic::div_mod::{
    lemma_fundamental_div_mod, lemma_mod_bound, lemma_mod_multiples_basic,
};
use vstd::prelude::*;

verus! {

// ---------------------------------------------------------------------------
// Durations
// ---------------------------------------------------------------------------

/// An utterance lasts as long as its samples do at their rate: off by half a
/// nanosecond at most, and where two nanoseconds are equally near, an even
/// number of them.
pub proof fn a_duration_is_the_nearest(samples: int, sample_rate: int)
    requires
        samples >= 0,
        sample_rate > 0,
    ensures
        ({
            let off = lasting(samples, sample_rate) * sample_rate - samples * 1_000_000_000;
            &&& -sample_rate <= 2 * off <= sample_rate
            &&& 2 * off == sample_rate || 2 * off == -sample_rate ==> lasting(samples, sample_rate)
                % 2 == 0
        }),
        lasting(samples, 0) == 0,
{
    let x = samples * 1_000_000_000;
    lemma_fundamental_div_mod(x, sample_rate);
    lemma_mod_bound(x, sample_rate);
    let (q, r) = (x / sample_rate, x % sample_rate);
    assert(q * sample_rate == sample_rate * q) by (nonlinear_arith);
    assert((q + 1) * sample_rate == q * sample_rate + sample_rate) by (nonlinear_arith);
}

// ---------------------------------------------------------------------------
// Channels
// ---------------------------------------------------------------------------

/// A buffer holds as many whole frames as fit, and none without channels.
pub proof fn a_partial_frame_is_left_out(len: int, channels: int)
    requires
        len >= 0,
        channels > 0,
    ensures
        whole_frames(len, channels) * channels <= len,
        len < (whole_frames(len, channels) + 1) * channels,
        whole_frames(len, channels) >= 0,
        whole_frames(len, 0) == 0,
{
    lemma_fundamental_div_mod(len, channels);
    lemma_mod_bound(len, channels);
    let q = len / channels;
    assert(q * channels == channels * q) by (nonlinear_arith);
    assert((q + 1) * channels == q * channels + channels) by (nonlinear_arith);
    assert(q >= 0) by (nonlinear_arith)
        requires
            len >= 0,
            channels > 0,
            q == len / channels,
    ;
}

/// Two channels seen at an offset: the overlap reads the right channel that much
/// later than the left one, stays inside both, and each channel gives up as many
/// samples as the offset is wide.
pub proof fn an_overlap_is_read_at_its_offset(
    o: Overlap,
    left_len: int,
    right_len: int,
    lag: int,
)
    requires
        left_len >= 0,
        right_len >= 0,
        is_overlap(o, left_len, right_len, lag),
    ensures
        o.right - o.left == lag,
        o.left == 0 || o.right == 0,
        o.len > 0 ==> o.left + o.len <= left_len && o.right + o.len <= right_len,
        o.len > 0 ==> o.len + o.left + o.right == (if left_len < right_len {
            left_len
        } else {
            right_len
        }),
        left_len > o.left + o.right && right_len > o.left + o.right ==> o.len > 0,
{
}

// ---------------------------------------------------------------------------
// Devices
// ---------------------------------------------------------------------------

/// A device is found by any part of its name, whatever the case and the white
/// space around what was asked for: the characters stand one behind the other in
/// the name.
pub proof fn a_device_is_found_by_a_part_of_its_name(name: Seq<char>, wanted: Seq<char>)
    ensures
        ({
            let (hay, needle) = (lowercase(name), lowercase(trimmed(wanted)));
            name_matches(name, wanted) <==> exists|at: int|
                #![trigger needle.len() + at]
                0 <= at && needle.len() + at <= hay.len() && forall|i: int|
                    0 <= i < needle.len() ==> #[trigger] hay[at + i] == needle[i]
        }),
{
    let (hay, needle) = (lowercase(name), lowercase(trimmed(wanted)));
    if occurs_in(needle, hay) {
        let at = choose|at: int| #[trigger] occurs_at(needle, hay, at);
        assert(needle.len() + at <= hay.len());
        assert forall|i: int| 0 <= i < needle.len() implies #[trigger] hay[at + i] == needle[i] by {
            assert(hay.subrange(at, at + needle.len())[i] == hay[at + i]);
        }
    }
    if exists|at: int|
        #![trigger needle.len() + at]
        0 <= at && needle.len() + at <= hay.len() && forall|i: int|
            0 <= i < needle.len() ==> #[trigger] hay[at + i] == needle[i] {
        let at = choose|at: int|
            #![trigger needle.len() + at]
            0 <= at && needle.len() + at <= hay.len() && forall|i: int|
                0 <= i < needle.len() ==> #[trigger] hay[at + i] == needle[i];
        let here = hay.subrange(at, at + needle.len());
        assert forall|i: int| 0 <= i < needle.len() implies #[trigger] here[i] == needle[i] by {
            assert(here[i] == hay[at + i]);
        }
        assert(here =~= needle);
        assert(occurs_at(needle, hay, at));
    }
}

/// Of the devices that match, the first in the list is taken; none where none
/// matches or nothing but white space was asked for.
pub proof fn the_first_device_that_matches_is_taken(names: Seq<Seq<char>>, wanted: Seq<char>)
    ensures
        ({
            let asked = exists|i: int| 0 <= i < wanted.len() && !is_white(#[trigger] wanted[i]);
            match matched(names, wanted) {
                Some(k) => {
                    &&& asked
                    &&& 0 <= k < names.len()
                    &&& name_matches(names[k], wanted)
                    &&& forall|j: int|
                        0 <= j < k ==> !name_matches(#[trigger] names[j], wanted)
                },
                None => !asked || forall|j: int|
                    0 <= j < names.len() ==> !name_matches(#[trigger] names[j], wanted),
            }
        }),
{
    lemma_first_match(names, wanted, names.len() as int);
}

proof fn lemma_first_match(names: Seq<Seq<char>>, wanted: Seq<char>, n: int)
    requires
        0 <= n <= names.len(),
    ensures
        match first_match(names, wanted, n) {
            Some(k) => 0 <= k < n && name_matches(names[k], wanted) && forall|j: int|
                0 <= j < k ==> !name_matches(#[trigger] names[j], wanted),
            None => forall|j: int| 0 <= j < n ==> !name_matches(#[trigger] names[j], wanted),
        },
    decreases n,
{
    if n > 0 {
        lemma_first_match(names, wanted, n - 1);
    }
}

/// A change of device ends in one of three ways: the new device is open; it is
/// not and the old one is again, with the reason why; or neither is, with both
/// reasons. What has ended stays as it ended.
pub proof fn a_failed_request_puts_the_old_device_back(
    first: Result<String, AudioError>,
    second: Result<String, AudioError>,
    mid: ReconnectState,
    end: ReconnectState,
)
    requires
        reconnects_to(ReconnectState::Opening, first, mid),
        reconnects_to(mid, second, end),
    ensures
        match (first, second) {
            (Ok(name), _) => end == mid && (end matches ReconnectState::Done {
                outcome: Reconnect::Switched { device },
            } && device@ == name@),
            (Err(why), Ok(name)) => end matches ReconnectState::Done {
                outcome: Reconnect::Reverted { device, error },
            } && device@ == name@ && error@ == why@,
            (Err(why), Err(again)) => end matches ReconnectState::Done {
                outcome: Reconnect::Lost { error, revert_error },
            } && error@ == why@ && revert_error@ == again@,
        },
{
}

/// A channel count that a device can have is reported as it is.
pub proof fn channels_are_reported_as_they_are(channels: usize)
    ensures
        channels <= 65535 ==> reported_channels(channels) == channels,
        channels > 65535 ==> reported_channels(channels) == 1,
{
}

// ---------------------------------------------------------------------------
// The meter
// ---------------------------------------------------------------------------

/// While a recording is live every sample is counted into one reading and no
/// other: a buffer is added to those that wait, and a reading is over all of
/// them. It is made as soon as 33 ms have passed since the last one.
pub proof fn a_reading_is_over_everything_since_the_last(
    m: LevelMeter,
    len: u64,
    now: u64,
)
    requires
        m.samples + len <= u64::MAX,
    ensures
        ({
            let (after, step) = metered(m, len, true, now);
            let due = m.samples + len > 0 && now >= m.last_sent + 33_000_000;
            &&& due ==> step == (MeterStep::Report { samples: (m.samples + len) as u64 })
                && after.samples == 0 && after.last_sent == now
            &&& !due ==> step == MeterStep::Hold && after.samples == m.samples + len
                && after.last_sent == m.last_sent
        }),
        metered(m, len, false, now).0.last_sent == m.last_sent,
{
}

// ---------------------------------------------------------------------------
// The ring
// ---------------------------------------------------------------------------

/// The ring holds two seconds of a device's audio, and one place at least.
pub proof fn the_ring_holds_two_seconds(sample_rate: u32, channels: u16)
    ensures
        sample_rate * channels > 0 ==> ring_size(sample_rate, channels) == 2 * (sample_rate
            * channels),
        ring_size(sample_rate, channels) >= 1,
{
    assert(sample_rate * channels >= 0) by (nonlinear_arith)
        requires
            0 <= sample_rate,
            0 <= channels,
    ;
}

/// A pass reads whole frames, no more than are waiting or than the buffer takes,
/// and leaves less than one frame of what it could have read.
pub proof fn a_pass_reads_all_the_whole_frames(waiting: int, buffer: int, channels: int)
    requires
        waiting >= 0,
        buffer >= 0,
        channels > 0,
    ensures
        ({
            let r = readable(waiting, buffer, channels);
            &&& 0 <= r <= waiting
            &&& r <= buffer
            &&& r % channels == 0
            &&& r + channels > waiting || r + channels > buffer
        }),
{
    let n = if waiting <= buffer {
        waiting
    } else {
        buffer
    };
    lemma_fundamental_div_mod(n, channels);
    lemma_mod_bound(n, channels);
    lemma_mod_multiples_basic(n / channels, channels);
    assert(n - n % channels == (n / channels) * channels) by (nonlinear_arith)
        requires
            n == channels * (n / channels) + n % channels,
    ;
    assert((n / channels) * channels >= 0) by (nonlinear_arith)
        requires
            n >= 0,
            channels > 0,
    ;
}

// ---------------------------------------------------------------------------
// The worker
// ---------------------------------------------------------------------------

/// Commands are run in the order they came: running some and then others is
/// running all of them, and a single one is a press or a release.
pub proof fn commands_run_in_order<T>(s: CaptureView<T>, a: Seq<Command>, b: Seq<Command>)
    ensures
        commanded(s, a + b).0 == commanded(commanded(s, a).0, b).0,
        commanded(s, a + b).1 == commanded(s, a).1 + commanded(commanded(s, a).0, b).1,
        commanded(s, Seq::empty()).0 == s,
        commanded(s, Seq::empty()).1.len() == 0,
        commanded(s, seq![Command::Begin]).0 == begun(s).0,
        commanded(s, seq![Command::End]).0 == ended(s).0,
        begun(s).1 matches Some(c) ==> commanded(s, seq![Command::Begin]).1 == seq![c],
        begun(s).1 is None ==> commanded(s, seq![Command::Begin]).1.len() == 0,
        ended(s).1 matches Some(c) ==> commanded(s, seq![Command::End]).1 == seq![c],
        ended(s).1 is None ==> commanded(s, seq![Command::End]).1.len() == 0,
    decreases b.len(),
{
    assert(seq![Command::Begin].drop_last() =~= Seq::<Command>::empty());
    assert(seq![Command::End].drop_last() =~= Seq::<Command>::empty());
    assert(seq![Command::Begin].last() == Command::Begin);
    assert(seq![Command::End].last() == Command::End);
    let none = Seq::<ChunkView<T>>::empty();
    assert(commanded(s, Seq::<Command>::empty()).1 =~= none);
    assert(none + listed(begun(s).1) =~= listed(begun(s).1));
    assert(none + listed(ended(s).1) =~= listed(ended(s).1));
    if b.len() == 0 {
        assert(a + b =~= a);
        assert(commanded(s, a).1 + commanded(commanded(s, a).0, b).1 =~= commanded(s, a).1);
    } else {
        commands_run_in_order(s, a, b.drop_last());
        assert((a + b).drop_last() =~= a + b.drop_last());
        assert((a + b).last() == b.last());
        assert(commanded(s, a + b).1 =~= commanded(s, a).1 + commanded(commanded(s, a).0, b).1);
    }
}

/// Buffers are taken in the order they came, and cutting audio into buffers in
/// another way changes nothing but where it is cut: each buffer is pushed.
pub proof fn buffers_are_taken_in_order<T>(s: CaptureView<T>, a: Seq<Seq<T>>, b: Seq<T>)
    ensures
        heard(s, a.push(b)).0 == pushed(heard(s, a).0, b).0,
        heard(s, a.push(b)).1 == heard(s, a).1 + pushed(heard(s, a).0, b).1,
        heard(s, Seq::empty()).0 == s,
        heard(s, Seq::empty()).1.len() == 0,
{
    assert(a.push(b).drop_last() =~= a);
    assert(a.push(b).last() == b);
}

/// Chunks are handed over one by one, in order, each with the configuration it
/// was captured under.
pub proof fn chunks_are_handed_over_in_order<T>(chunks: Seq<ChunkView<T>>, config: WorkerConfig)
    ensures
        tagged(chunks, config).len() == chunks.len(),
        forall|i: int|
            0 <= i < chunks.len() ==> (#[trigger] tagged(chunks, config)[i]).chunk == chunks[i]
                && tagged(chunks, config)[i].config == config,
{
}

/// A new stream sets the rate and the channels, one at least, keeps the options,
/// and starts with nothing heard and nothing being recorded.
pub proof fn a_new_stream_starts_afresh<T>(
    w: WorkerView<T>,
    finished: Seq<ChunkView<T>>,
    shape: StreamShape,
)
    ensures
        ({
            let after = swapped(w, finished, seq![shape]).0;
            &&& after.config.sample_rate == shape.sample_rate
            &&& after.config.channels == (if shape.channels == 0 {
                1
            } else {
                shape.channels as int
            })
            &&& after.config.options == w.config.options
            &&& after.state.phase == Phase::Idle
            &&& after.state.pre_roll.len() == 0
            &&& after.state.utterance.len() == 0
            &&& -500 * after.config.channels <= after.state.post_roll_len * 1000 - 200 * (
            shape.sample_rate as int * after.config.channels as int) <= 500 * after.config.channels
        }),
{
    assert(seq![shape].drop_last() =~= Seq::<StreamShape>::empty());
    assert(seq![shape].last() == shape);
    assert(swapped(w, finished, Seq::<StreamShape>::empty()).0 == w);
    let c = config_for(w.config, shape);
    assert(swapped(w, finished, seq![shape]).0 == worker_for::<T>(c));
    the_limits_last_as_long_as_they_say::<T>(shape.sample_rate, c.channels as nat);
}

/// A stream that dies strands nothing: what was being recorded is handed over as
/// far as it was captured, under the configuration it was captured with, and the
/// audio that still comes is only remembered.
pub proof fn a_stream_that_dies_strands_nothing<T>(w: WorkerView<T>, audio: Seq<T>)
    requires
        w.state.phase != Phase::Idle,
        w.state.utterance.len() > 0,
    ensures
        ({
            let (after, out) = passed(w, Seq::empty(), Seq::empty(), true, seq![audio]);
            &&& out.len() == 1
            &&& out[0].chunk.raw == w.state.utterance
            &&& !out[0].chunk.capped
            &&& out[0].chunk.continued == w.state.continued
            &&& out[0].config == w.config
            &&& after.config == w.config
            &&& after.state.phase == Phase::Idle
        }),
{
    let none = Seq::<ChunkView<T>>::empty();
    let s1 = commanded(w.state, Seq::<Command>::empty()).0;
    assert(s1 == w.state);
    assert(commanded(w.state, Seq::<Command>::empty()).1 =~= none);
    let (w2, f2, out2) = swapped(
        WorkerView { state: s1, ..w },
        commanded(w.state, Seq::<Command>::empty()).1,
        Seq::<StreamShape>::empty(),
    );
    assert(w2 == w);
    let s3 = abandoned(w.state).0;
    let gone = abandoned(w.state).1.unwrap();
    assert(f2 + listed(abandoned(w.state).1) =~= seq![gone]);
    buffers_are_taken_in_order(s3, Seq::empty(), audio);
    assert(Seq::<Seq<T>>::empty().push(audio) =~= seq![audio]);
    assert(heard(s3, seq![audio]).1 =~= none);
    assert(seq![gone] + none =~= seq![gone]);
    let out = passed(w, Seq::<Command>::empty(), Seq::<StreamShape>::empty(), true, seq![audio]).1;
    assert(out =~= tagged(seq![gone], w.config));
}

/// A release is in effect before the audio of the same pass: that audio is the
/// post-roll, and what goes beyond it is not in the utterance.
pub proof fn a_release_comes_before_the_audio_behind_it<T>(w: WorkerView<T>, buffer: Seq<T>)
    requires
        w.state.phase == Phase::Recording,
        0 < w.state.post_roll_len <= buffer.len(),
    ensures
        ({
            let (after, out) = passed(w, seq![Command::End], Seq::empty(), false, seq![buffer]);
            let n = w.state.utterance.len() as int;
            &&& out.len() == 1
            &&& out[0].config == w.config
            &&& !out[0].chunk.capped
            &&& out[0].chunk.raw.len() == n + w.state.post_roll_len
            &&& forall|i: int|
                0 <= i < n ==> #[trigger] out[0].chunk.raw[i] == w.state.utterance[i]
            &&& forall|i: int|
                n <= i < out[0].chunk.raw.len() ==> #[trigger] out[0].chunk.raw[i] == buffer[i - n]
            &&& after.state.phase == Phase::Idle
        }),
{
    let none = Seq::<ChunkView<T>>::empty();
    commands_run_in_order(w.state, Seq::empty(), Seq::empty());
    let (s1, f1) = commanded(w.state, seq![Command::End]);
    assert(f1 =~= none);
    let (w2, f2, out2) = swapped(
        WorkerView { state: s1, ..w },
        f1,
        Seq::<StreamShape>::empty(),
    );
    buffers_are_taken_in_order(s1, Seq::empty(), buffer);
    assert(Seq::<Seq<T>>::empty().push(buffer) =~= seq![buffer]);
    let more = pushed(s1, buffer).1;
    assert(heard(s1, seq![buffer]).1 =~= more);
    assert(f2 + more =~= more);
    let out = passed(w, seq![Command::End], Seq::<StreamShape>::empty(), false, seq![buffer]).1;
    assert(out =~= tagged(more, w.config));
}

/// One read of the ring takes a tenth of a second, in whole frames, and one frame
/// at least.
pub proof fn a_read_takes_a_tenth_of_a_second(sample_rate: u32, channels: nat)
    requires
        channels > 0,
    ensures
        scratch_size(sample_rate, channels) >= channels,
        scratch_size(sample_rate, channels) as int % channels as int == 0,
        sample_rate >= 10 ==> scratch_size(sample_rate, channels) * 10 <= sample_rate * channels,
        sample_rate >= 10 ==> sample_rate * channels < scratch_size(sample_rate, channels) * 10
            + 10 * channels,
{
    let frames = sample_rate as nat / 10;
    let n = if frames == 0 {
        1int
    } else {
        frames as int
    };
    lemma_mod_multiples_basic(n, channels as int);
    assert(n * channels >= channels) by (nonlinear_arith)
        requires
            n >= 1,
            channels > 0,
    ;
    if sample_rate >= 10 {
        assert((n * channels) * 10 <= sample_rate * channels) by (nonlinear_arith)
            requires
                n * 10 <= sample_rate,
                channels > 0,
        ;
        assert(sample_rate * channels < (n * channels) * 10 + 10 * channels) by (nonlinear_arith)
            requires
                sample_rate < n * 10 + 10,
                channels > 0,
        ;
    }
}

/// A press is in effect before a change of device of the same pass: what it opened
/// is handed over as the old device heard it, and the new one starts idle.
pub proof fn a_press_comes_before_a_change_of_device<T>(w: WorkerView<T>, shape: StreamShape)
    requires
        w.state.phase == Phase::Idle,
        w.state.pre_roll.len() > 0,
    ensures
        ({
            let (after, out) = passed(
                w,
                seq![Command::Begin],
                seq![shape],
                false,
                Seq::<Seq<T>>::empty(),
            );
            &&& out.len() == 1
            &&& out[0].chunk.raw == w.state.pre_roll
            &&& out[0].config == w.config
            &&& after.state.phase == Phase::Idle
            &&& after.config.sample_rate == shape.sample_rate
        }),
{
    let none = Seq::<ChunkView<T>>::empty();
    commands_run_in_order(w.state, Seq::empty(), Seq::empty());
    let (s1, f1) = commanded(w.state, seq![Command::Begin]);
    assert(f1 =~= none);
    let w1 = WorkerView { state: s1, ..w };
    crate::audio::worker::a_swap_hands_over_what_was_recorded(w1, f1, shape);
    a_new_stream_starts_afresh(w1, f1, shape);
    let (w2, f2, out) = swapped(w1, f1, seq![shape]);
    let gone = abandoned(s1).1.unwrap();
    assert(f1 + listed(abandoned(s1).1) =~= seq![gone]);
    assert(out =~= tagged(seq![gone], w.config));
    buffers_are_taken_in_order(w2.state, Seq::empty(), Seq::empty());
    assert(f2 =~= none);
    assert(heard(w2.state, Seq::<Seq<T>>::empty()).1 =~= none);
    assert(none + none =~= none);
    assert(tagged(none, w2.config) =~= Seq::empty());
    let all = passed(w, seq![Command::Begin], seq![shape], false, Seq::<Seq<T>>::empty()).1;
    assert(all =~= out);
}

} // verus!
