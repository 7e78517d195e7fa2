//! What assembly promises of the audio: no gap, no loss, whole frames.

use crate::audio::assembly::{
    abandoned, begun, current_chunk, device_state, ended, frames_in, fullness, last_of, pushed,
    recorded, remembered, reopened, room, taken, trailed, CaptureView, ChunkView, Phase,
};
use vstd::arithmetic::div_mod::{lemma_mod_adds, lemma_mod_multiples_basic, lemma_sub_mod_noop};
use vstd::prelude::*;

verus! {

// ---------------------------------------------------------------------------
// Everything the device delivered
// ---------------------------------------------------------------------------

/// `s` is where assembly stands after the device has delivered `heard`: the
/// pre-roll is the most recent audio, and a chunk being assembled is an
/// unbroken run of audio up to now.
pub open spec fn follows<T>(s: CaptureView<T>, heard: Seq<T>) -> bool {
    &&& s.pre_roll == last_of(heard, s.pre_roll_cap)
    &&& s.phase != Phase::Idle ==> s.utterance.len() <= heard.len() && s.utterance == last_of(
        heard,
        s.utterance.len(),
    )
}

/// Where the chunk being assembled begins in what was heard.
pub open spec fn opened_at<T>(s: CaptureView<T>, heard: Seq<T>) -> int {
    heard.len() - s.utterance.len()
}

/// True when the chunk is the audio from `place.0` up to `place.1`.
pub open spec fn is_run<T>(c: ChunkView<T>, heard: Seq<T>, place: (int, int)) -> bool {
    &&& 0 <= place.0 <= place.1 <= heard.len()
    &&& c.raw == heard.subrange(place.0, place.1)
}

proof fn lemma_remember<T>(s: CaptureView<T>, heard: Seq<T>, x: Seq<T>)
    requires
        s.pre_roll == last_of(heard, s.pre_roll_cap),
    ensures
        remembered(s, x).pre_roll == last_of(heard + x, s.pre_roll_cap),
{
    assert(remembered(s, x).pre_roll =~= last_of(heard + x, s.pre_roll_cap));
}

proof fn lemma_taken<T>(s: CaptureView<T>, heard: Seq<T>, x: Seq<T>)
    requires
        follows(s, heard),
        s.phase != Phase::Idle,
    ensures
        follows(taken(s, x), heard + x),
        opened_at(taken(s, x), heard + x) == opened_at(s, heard),
{
    lemma_remember(CaptureView { utterance: s.utterance + x, ..s }, heard, x);
    let t = taken(s, x);
    assert(t.utterance =~= last_of(heard + x, t.utterance.len()));
}

proof fn lemma_reopened<T>(s: CaptureView<T>, heard: Seq<T>)
    requires
        follows(s, heard),
        s.phase != Phase::Idle,
    ensures
        follows(reopened(s), heard),
        opened_at(reopened(s), heard) <= heard.len(),
{
    let t = reopened(s);
    assert(t.utterance =~= last_of(heard, t.utterance.len()));
}

/// Recording loses nothing across a cap.
///
/// Every chunk that reached the cap is an unbroken run of what the device
/// delivered; the first continues where the recording stood, each next one
/// begins no later than the one before it ended, and the chunk still open runs
/// up to now. So no sample falls between two chunks.
pub proof fn recording_loses_nothing<T>(s: CaptureView<T>, heard: Seq<T>, x: Seq<T>) -> (places: Seq<
    (int, int),
>)
    requires
        follows(s, heard),
        s.phase == Phase::Recording,
    ensures
        ({
            let (end, out) = recorded(s, x);
            let all = heard + x;
            &&& follows(end, all)
            &&& end.phase == Phase::Recording
            &&& places.len() == out.len() + 1
            &&& places[0].0 == opened_at(s, heard)
            &&& forall|i: int|
                0 <= i < out.len() ==> is_run(#[trigger] out[i], all, places[i]) && out[i].capped
            &&& forall|i: int|
                0 <= i < out.len() ==> (#[trigger] places[i + 1]).0 <= places[i].1
            &&& places.last() == (opened_at(end, all), all.len() as int)
        }),
    decreases x.len(), fullness(s),
{
    let all = heard + x;
    if s.utterance_cap == 0 || room(s) >= x.len() {
        lemma_taken(s, heard, x);
        let places = seq![(opened_at(s, heard), all.len() as int)];
        places
    } else {
        let at = room(s);
        let head = x.take(at);
        let rest = x.skip(at);
        let full = taken(s, head);
        let upto = heard + head;
        lemma_taken(s, heard, head);
        let next = reopened(full);
        lemma_reopened(full, upto);
        assert(upto + rest =~= all);
        let first = (opened_at(s, heard), upto.len() as int);
        assert(current_chunk(full, true).raw =~= all.subrange(first.0, first.1)) by {
            assert(full.utterance == last_of(upto, full.utterance.len()));
            assert(upto =~= all.subrange(0, upto.len() as int));
        }
        if next.utterance.len() >= s.utterance_cap {
            lemma_taken(next, upto, rest);
            let places = seq![first, (opened_at(next, upto), all.len() as int)];
            places
        } else {
            let more = recording_loses_nothing(next, upto, rest);
            let places = seq![first] + more;
            let (end, tail) = recorded(next, rest);
            let out = recorded(s, x).1;
            assert(out =~= seq![current_chunk(full, true)] + tail);
            assert forall|i: int| 0 <= i < out.len() implies is_run(
                #[trigger] out[i],
                all,
                places[i],
            ) && out[i].capped by {
                if i > 0 {
                    assert(out[i] == tail[i - 1]);
                    assert(places[i] == more[i - 1]);
                }
            }
            assert forall|i: int| 0 <= i < out.len() implies (#[trigger] places[i + 1]).0
                <= places[i].1 by {
                if i == 0 {
                    assert(places[1] == more[0]);
                } else {
                    assert(places[i] == more[i - 1]);
                    assert(places[i + 1] == more[i - 1 + 1]);
                }
            }
            assert(places.last() == more.last());
            places
        }
    }
}

/// A chunk is split exactly at the cap, and only the first chunk of a recording
/// is not a continuation.
pub proof fn a_split_is_exact<T>(s: CaptureView<T>, x: Seq<T>)
    requires
        s.phase == Phase::Recording,
        s.utterance.len() <= s.utterance_cap,
    ensures
        ({
            let (end, out) = recorded(s, x);
            &&& forall|i: int| 0 <= i < out.len() ==> (#[trigger] out[i]).raw.len() == s.utterance_cap
            &&& out.len() > 0 ==> out[0].continued == s.continued && end.continued
            &&& forall|i: int| 1 <= i < out.len() ==> (#[trigger] out[i]).continued
            &&& out.len() == 0 ==> end.continued == s.continued
        }),
    decreases x.len(), fullness(s),
{
    if s.utterance_cap != 0 && room(s) < x.len() {
        let at = room(s);
        let full = taken(s, x.take(at));
        let next = reopened(full);
        let rest = x.skip(at);
        if next.utterance.len() < s.utterance_cap {
            a_split_is_exact(next, rest);
            let tail = recorded(next, rest).1;
            let out = recorded(s, x).1;
            assert(out =~= seq![current_chunk(full, true)] + tail);
            assert forall|i: int| 0 <= i < out.len() implies (#[trigger] out[i]).raw.len()
                == s.utterance_cap by {
                if i > 0 {
                    assert(out[i] == tail[i - 1]);
                }
            }
            assert forall|i: int| 1 <= i < out.len() implies (#[trigger] out[i]).continued by {
                assert(out[i] == tail[i - 1]);
            }
        }
    }
}

/// The post-roll is the audio right after the release: the chunk it completes
/// is an unbroken run that starts where the recording did.
pub proof fn the_post_roll_follows_the_release<T>(s: CaptureView<T>, heard: Seq<T>, x: Seq<T>)
    requires
        follows(s, heard),
        s.phase == Phase::PostRoll,
    ensures
        ({
            let (end, out) = trailed(s, x);
            &&& follows(end, heard + x)
            &&& s.post_roll_left <= x.len() ==> out.len() == 1 && end.phase == Phase::Idle && is_run(
                out[0],
                heard + x,
                (opened_at(s, heard), (heard.len() + s.post_roll_left) as int),
            )
            &&& s.post_roll_left > x.len() ==> out.len() == 0 && opened_at(end, heard + x)
                == opened_at(s, heard)
        }),
{
    let (end, out) = trailed(s, x);
    let all = heard + x;
    let take = if s.post_roll_left <= x.len() {
        s.post_roll_left
    } else {
        x.len()
    };
    let fed = s.utterance + x.take(take as int);
    lemma_remember(s, heard, x);
    assert(end.pre_roll == remembered(s, x).pre_roll);
    if s.post_roll_left <= x.len() {
        assert(fed =~= all.subrange(opened_at(s, heard), (heard.len() + s.post_roll_left) as int));
    } else {
        assert(x.take(take as int) =~= x);
        assert(end.utterance =~= last_of(all, end.utterance.len()));
    }
}

/// A press loses nothing: the chunk it closes runs up to now, and the one it
/// opens begins with the most recent audio, no later than that.
pub proof fn a_press_loses_nothing<T>(s: CaptureView<T>, heard: Seq<T>)
    requires
        follows(s, heard),
    ensures
        ({
            let (end, early) = begun(s);
            &&& follows(end, heard)
            &&& end.phase == Phase::Recording
            &&& s.phase == Phase::PostRoll ==> early is Some && is_run(
                early.unwrap(),
                heard,
                (opened_at(s, heard), heard.len() as int),
            ) && opened_at(end, heard) <= heard.len()
            &&& s.phase != Phase::PostRoll ==> early is None
            &&& s.phase != Phase::Recording ==> end.utterance == s.pre_roll
        }),
{
    let (end, early) = begun(s);
    assert(s.pre_roll =~= last_of(heard, s.pre_roll.len()));
    if s.phase == Phase::PostRoll {
        assert(early.unwrap().raw =~= heard.subrange(opened_at(s, heard), heard.len() as int));
    }
}

/// A release and a giving-up keep the audio that was captured: what they hand
/// back runs up to now, and only an empty chunk is dropped.
pub proof fn a_stop_loses_nothing<T>(s: CaptureView<T>, heard: Seq<T>)
    requires
        follows(s, heard),
    ensures
        follows(ended(s).0, heard),
        follows(abandoned(s).0, heard),
        ended(s).1 matches Some(c) ==> is_run(
            c,
            heard,
            (opened_at(s, heard), heard.len() as int),
        ),
        abandoned(s).1 matches Some(c) ==> is_run(
            c,
            heard,
            (opened_at(s, heard), heard.len() as int),
        ),
        s.phase != Phase::Idle && abandoned(s).1 is None ==> s.utterance.len() == 0,
{
    if s.phase != Phase::Idle {
        assert(s.utterance =~= heard.subrange(opened_at(s, heard), heard.len() as int));
    }
}

/// Whatever the phase, feeding audio keeps the assembly in step with the
/// device.
pub proof fn pushing_keeps_in_step<T>(s: CaptureView<T>, heard: Seq<T>, x: Seq<T>)
    requires
        follows(s, heard),
    ensures
        follows(pushed(s, x).0, heard + x),
{
    match s.phase {
        Phase::Idle => {
            lemma_remember(s, heard, x);
        },
        Phase::Recording => {
            let _ = recording_loses_nothing(s, heard, x);
        },
        Phase::PostRoll => {
            the_post_roll_follows_the_release(s, heard, x);
        },
    }
}

// ---------------------------------------------------------------------------
// Whole frames
// ---------------------------------------------------------------------------

/// True when that many samples are whole frames of `c` channels.
pub open spec fn whole(n: nat, c: int) -> bool {
    n as int % c == 0
}

/// True when everything is measured in whole frames of `c` channels.
pub open spec fn aligned<T>(s: CaptureView<T>, c: int) -> bool {
    &&& c > 0
    &&& whole(s.pre_roll.len(), c)
    &&& whole(s.pre_roll_cap, c)
    &&& whole(s.post_roll_len, c)
    &&& whole(s.post_roll_left, c)
    &&& whole(s.utterance.len(), c)
    &&& whole(s.utterance_cap, c)
}

proof fn lemma_whole_sum(a: int, b: int, c: int)
    requires
        c > 0,
        a % c == 0,
        b % c == 0,
    ensures
        (a + b) % c == 0,
{
    lemma_mod_adds(a, b, c);
}

proof fn lemma_whole_difference(a: int, b: int, c: int)
    requires
        c > 0,
        a % c == 0,
        b % c == 0,
    ensures
        (a - b) % c == 0,
{
    lemma_sub_mod_noop(a, b, c);
    assert(0int % c == 0) by (nonlinear_arith)
        requires
            c > 0,
    ;
}

proof fn lemma_aligned_taken<T>(s: CaptureView<T>, x: Seq<T>, c: int)
    requires
        aligned(s, c),
        whole(x.len(), c),
    ensures
        aligned(taken(s, x), c),
        aligned(remembered(s, x), c),
{
    lemma_whole_sum(s.utterance.len() as int, x.len() as int, c);
    lemma_whole_sum(s.pre_roll.len() as int, x.len() as int, c);
}

proof fn lemma_aligned_recorded<T>(s: CaptureView<T>, x: Seq<T>, c: int)
    requires
        aligned(s, c),
        whole(x.len(), c),
    ensures
        aligned(recorded(s, x).0, c),
        forall|i: int|
            0 <= i < recorded(s, x).1.len() ==> whole((#[trigger] recorded(s, x).1[i]).raw.len(), c),
    decreases x.len(), fullness(s),
{
    if s.utterance_cap == 0 || room(s) >= x.len() {
        lemma_aligned_taken(s, x, c);
    } else {
        let at = room(s);
        lemma_whole_difference(s.utterance_cap as int, s.utterance.len() as int, c);
        assert(0int % c == 0) by (nonlinear_arith)
            requires
                c > 0,
        ;
        assert(at % c == 0);
        let head = x.take(at);
        let rest = x.skip(at);
        lemma_whole_difference(x.len() as int, at, c);
        lemma_aligned_taken(s, head, c);
        let full = taken(s, head);
        let next = reopened(full);
        if next.utterance.len() >= s.utterance_cap {
            lemma_aligned_taken(next, rest, c);
        } else {
            lemma_aligned_recorded(next, rest, c);
            let tail = recorded(next, rest).1;
            let out = recorded(s, x).1;
            assert(out =~= seq![current_chunk(full, true)] + tail);
            assert forall|i: int| 0 <= i < out.len() implies whole(
                (#[trigger] out[i]).raw.len(),
                c,
            ) by {
                if i > 0 {
                    assert(out[i] == tail[i - 1]);
                }
            }
        }
    }
}

/// Fed whole frames, assembly keeps to whole frames, and so does every chunk it
/// hands over: channels never swap.
pub proof fn frames_stay_whole<T>(s: CaptureView<T>, x: Seq<T>, c: int)
    requires
        aligned(s, c),
        whole(x.len(), c),
    ensures
        aligned(pushed(s, x).0, c),
        forall|i: int|
            0 <= i < pushed(s, x).1.len() ==> whole((#[trigger] pushed(s, x).1[i]).raw.len(), c),
        aligned(begun(s).0, c),
        aligned(ended(s).0, c),
        aligned(abandoned(s).0, c),
{
    assert(0int % c == 0) by (nonlinear_arith)
        requires
            c > 0,
    ;
    lemma_aligned_taken(s, x, c);
    match s.phase {
        Phase::Idle => {},
        Phase::Recording => {
            lemma_aligned_recorded(s, x, c);
        },
        Phase::PostRoll => {
            let take = if s.post_roll_left <= x.len() {
                s.post_roll_left
            } else {
                x.len()
            };
            lemma_whole_sum(s.utterance.len() as int, take as int, c);
            lemma_whole_difference(s.post_roll_left as int, take as int, c);
        },
    }
}

// ---------------------------------------------------------------------------
// How long things last
// ---------------------------------------------------------------------------

/// A number of frames is the nearest to the time it stands for: off by half a
/// frame at most.
pub proof fn frames_are_the_nearest(ms: int, sample_rate: int)
    requires
        ms >= 0,
        sample_rate >= 0,
    ensures
        frames_in(ms, sample_rate) >= 0,
        -500 <= frames_in(ms, sample_rate) * 1000 - ms * sample_rate <= 500,
{
    assert(ms * sample_rate >= 0) by (nonlinear_arith)
        requires
            ms >= 0,
            sample_rate >= 0,
    ;
}

proof fn lemma_limit(ms: int, sample_rate: int, c: int)
    requires
        ms >= 0,
        sample_rate >= 0,
        c > 0,
    ensures
        -500 * c <= frames_in(ms, sample_rate) * c * 1000 - ms * sample_rate * c <= 500 * c,
        (frames_in(ms, sample_rate) * c) % c == 0,
        frames_in(ms, sample_rate) * c >= 0,
{
    frames_are_the_nearest(ms, sample_rate);
    let f = frames_in(ms, sample_rate);
    let d = f * 1000 - ms * sample_rate;
    assert(f * c * 1000 - ms * sample_rate * c == d * c) by (nonlinear_arith)
        requires
            d == f * 1000 - ms * sample_rate,
    ;
    assert(-500 * c <= d * c <= 500 * c) by (nonlinear_arith)
        requires
            -500 <= d <= 500,
            c > 0,
    ;
    assert(f * c >= 0) by (nonlinear_arith)
        requires
            f >= 0,
            c > 0,
    ;
    lemma_mod_multiples_basic(f, c);
}

/// On any device the pre-roll is 400 ms long, the post-roll 200 ms and a chunk
/// two minutes at most, to the nearest frame and in whole frames, and nothing has
/// been heard yet. A device without channels counts as one with a single one.
pub proof fn the_limits_last_as_long_as_they_say<T>(sample_rate: u32, channels: nat)
    requires
        channels > 0,
    ensures
        ({
            let s = device_state::<T>(sample_rate, channels);
            let second = sample_rate as int * channels as int;
            &&& -500 * channels <= s.pre_roll_cap * 1000 - 400 * second <= 500 * channels
            &&& -500 * channels <= s.post_roll_len * 1000 - 200 * second <= 500 * channels
            &&& -500 * channels <= s.utterance_cap * 1000 - 120_000 * second <= 500 * channels
            &&& s.pre_roll_cap % channels == 0
            &&& s.post_roll_len % channels == 0
            &&& s.utterance_cap % channels == 0
            &&& s.pre_roll.len() == 0
            &&& s.utterance.len() == 0
            &&& s.post_roll_left == 0
            &&& s.phase == Phase::Idle
            &&& !s.continued
        }),
        device_state::<T>(sample_rate, 0) == device_state::<T>(sample_rate, 1),
{
    let (r, c) = (sample_rate as int, channels as int);
    lemma_limit(400, r, c);
    lemma_limit(200, r, c);
    lemma_limit(120_000, r, c);
    frames_are_the_nearest(400, r);
    frames_are_the_nearest(200, r);
    frames_are_the_nearest(120_000, r);
    assert(400 * (r * c) == 400 * r * c) by (nonlinear_arith);
    assert(200 * (r * c) == 200 * r * c) by (nonlinear_arith);
    assert(120_000 * (r * c) == 120_000 * r * c) by (nonlinear_arith);
}

// ---------------------------------------------------------------------------
// One utterance
// ---------------------------------------------------------------------------

/// The end of a run is its latest part: as long as is asked for, or all of it,
/// item by item what the run ends in.
pub proof fn the_end_of_a_run_is_its_latest_part<T>(s: Seq<T>, n: nat)
    ensures
        last_of(s, n).len() == (if s.len() < n {
            s.len()
        } else {
            n
        }),
        forall|i: int|
            0 <= i < last_of(s, n).len() ==> #[trigger] last_of(s, n)[i] == s[s.len() - last_of(
                s,
                n,
            ).len() + i],
{
}

/// What is heard while no key is down is remembered, the latest of it, and opens
/// the next utterance.
pub proof fn a_press_starts_with_what_was_just_heard<T>(s: CaptureView<T>, x: Seq<T>)
    requires
        s.phase == Phase::Idle,
        s.pre_roll.len() <= s.pre_roll_cap,
    ensures
        ({
            let (idle, none) = pushed(s, x);
            let (live, early) = begun(idle);
            let all = s.pre_roll + x;
            &&& none.len() == 0
            &&& early is None
            &&& idle.phase == Phase::Idle
            &&& live.phase == Phase::Recording
            &&& !live.continued
            &&& live.utterance.len() == (if all.len() < s.pre_roll_cap {
                all.len()
            } else {
                s.pre_roll_cap
            })
            &&& forall|i: int|
                0 <= i < live.utterance.len() ==> #[trigger] live.utterance[i] == all[all.len()
                    - live.utterance.len() + i]
        }),
{
}

/// An utterance is what was heard just before the press, everything up to the
/// release, and exactly the post-roll behind it: nothing is missing, nothing is
/// there twice, and nothing that came later is in it.
pub proof fn an_utterance_holds_what_was_said<T>(s: CaptureView<T>, live: Seq<T>, after: Seq<T>)
    requires
        s.phase == Phase::Idle,
        s.utterance_cap == 0 || s.pre_roll.len() + live.len() <= s.utterance_cap,
        0 < s.post_roll_len <= after.len(),
    ensures
        ({
            let (a, early) = begun(s);
            let (b, capped) = pushed(a, live);
            let (c, at_once) = ended(b);
            let (d, out) = pushed(c, after);
            let (p, l) = (s.pre_roll.len() as int, live.len() as int);
            &&& early is None && at_once is None && capped.len() == 0
            &&& out.len() == 1
            &&& !out[0].capped && !out[0].continued
            &&& out[0].raw.len() == p + l + s.post_roll_len
            &&& forall|i: int| 0 <= i < p ==> #[trigger] out[0].raw[i] == s.pre_roll[i]
            &&& forall|i: int| p <= i < p + l ==> #[trigger] out[0].raw[i] == live[i - p]
            &&& forall|i: int|
                p + l <= i < out[0].raw.len() ==> #[trigger] out[0].raw[i] == after[i - p - l]
            &&& d.phase == Phase::Idle
        }),
{
    let a = begun(s).0;
    assert(room(a) >= live.len() || a.utterance_cap == 0);
    let b = pushed(a, live).0;
    assert(b.utterance =~= s.pre_roll + live);
}

/// Without a post-roll the release closes the utterance at once, with everything
/// up to it.
pub proof fn a_release_without_post_roll_closes_at_once<T>(s: CaptureView<T>)
    requires
        s.phase == Phase::Recording,
        s.post_roll_len == 0,
    ensures
        ended(s).1 matches Some(c) && c.raw == s.utterance && !c.capped && c.continued
            == s.continued,
        ended(s).0.phase == Phase::Idle,
{
}

/// A press while a recording is live, a release while none is, and giving up on
/// nothing change nothing.
pub proof fn what_does_not_apply_is_ignored<T>(s: CaptureView<T>)
    ensures
        s.phase == Phase::Recording ==> begun(s) == (s, None::<ChunkView<T>>),
        s.phase != Phase::Recording ==> ended(s) == (s, None::<ChunkView<T>>),
        s.phase == Phase::Idle ==> abandoned(s) == (s, None::<ChunkView<T>>),
{
}

/// What is given up on is handed over as far as it was captured, and the next
/// press starts afresh.
pub proof fn giving_up_hands_over_what_there_is<T>(s: CaptureView<T>)
    requires
        s.phase != Phase::Idle,
        s.utterance.len() > 0,
    ensures
        abandoned(s).1 matches Some(c) && c.raw == s.utterance && !c.capped && c.continued
            == s.continued,
        abandoned(s).0.phase == Phase::Idle,
        abandoned(s).0.post_roll_left == 0,
        abandoned(s).0.pre_roll == s.pre_roll,
        begun(abandoned(s).0).0.utterance == s.pre_roll,
{
}

/// A chunk that reaches its cap is closed there, and the next one opens with the
/// pre-roll: the latest audio up to the cut, as much of it as the pre-roll holds.
/// What follows goes behind it.
pub proof fn a_split_opens_with_the_pre_roll<T>(s: CaptureView<T>, heard: Seq<T>, x: Seq<T>)
    requires
        follows(s, heard),
        s.phase == Phase::Recording,
        s.utterance.len() <= s.utterance_cap,
        s.pre_roll_cap < s.utterance_cap,
        s.utterance.len() + x.len() > s.utterance_cap,
        s.utterance.len() + x.len() <= 2 * s.utterance_cap - s.pre_roll_cap,
    ensures
        ({
            let (end, out) = recorded(s, x);
            let cut = s.utterance_cap - s.utterance.len();
            let upto = heard + x.take(cut);
            let kept = if upto.len() < s.pre_roll_cap {
                upto.len()
            } else {
                s.pre_roll_cap
            };
            &&& out.len() == 1
            &&& out[0].raw == s.utterance + x.take(cut)
            &&& out[0].capped && out[0].continued == s.continued
            &&& end.phase == Phase::Recording
            &&& end.continued
            &&& end.utterance.len() == kept + x.len() - cut
            &&& forall|i: int|
                0 <= i < kept ==> #[trigger] end.utterance[i] == upto[upto.len() - kept + i]
            &&& forall|i: int|
                kept <= i < end.utterance.len() ==> #[trigger] end.utterance[i] == x[cut + i
                    - kept]
        }),
{
    let cut = s.utterance_cap - s.utterance.len();
    assert(room(s) == cut);
    let head = x.take(cut);
    let rest = x.skip(cut);
    let full = taken(s, head);
    lemma_taken(s, heard, head);
    let next = reopened(full);
    assert(next.utterance == last_of(heard + head, s.pre_roll_cap));
    assert(recorded(next, rest) == (taken(next, rest), Seq::<ChunkView<T>>::empty()));
    assert(recorded(s, x).1 =~= seq![current_chunk(full, true)]);
}

/// A press inside a post-roll closes the chunk as it stands, and opens the next
/// one with what was just heard. What came after the release is in both.
pub proof fn a_press_in_the_post_roll_closes_the_chunk_early<T>(s: CaptureView<T>)
    requires
        s.phase == Phase::PostRoll,
    ensures
        begun(s).1 matches Some(c) && c.raw == s.utterance && !c.capped && c.continued
            == s.continued,
        begun(s).0.phase == Phase::Recording,
        begun(s).0.utterance == s.pre_roll,
        begun(s).0.post_roll_left == 0,
        !begun(s).0.continued,
{
}

proof fn lemma_remember_twice<T>(s: CaptureView<T>, a: Seq<T>, b: Seq<T>)
    ensures
        remembered(remembered(s, a), b) == remembered(s, a + b),
{
    let (p, n) = (s.pre_roll, s.pre_roll_cap);
    assert(last_of(last_of(p + a, n) + b, n) =~= last_of(p + (a + b), n));
}

proof fn lemma_take_twice<T>(s: CaptureView<T>, a: Seq<T>, b: Seq<T>)
    ensures
        taken(taken(s, a), b) == taken(s, a + b),
{
    let both = CaptureView { utterance: s.utterance + a + b, ..s };
    assert(s.utterance + a + b =~= s.utterance + (a + b));
    lemma_remember_twice(both, a, b);
}

proof fn lemma_record_twice<T>(s: CaptureView<T>, a: Seq<T>, b: Seq<T>)
    requires
        s.phase == Phase::Recording,
        s.pre_roll.len() <= s.pre_roll_cap,
        s.utterance_cap == 0 || s.pre_roll_cap < s.utterance_cap,
        s.utterance_cap == 0 || s.utterance.len() <= s.utterance_cap,
    ensures
        recorded(recorded(s, a).0, b).0 == recorded(s, a + b).0,
        recorded(s, a).1 + recorded(recorded(s, a).0, b).1 == recorded(s, a + b).1,
        recorded(s, a).0.phase == Phase::Recording,
    decreases a.len(), fullness(s),
{
    let none = Seq::<ChunkView<T>>::empty();
    if s.utterance_cap == 0 {
        lemma_take_twice(s, a, b);
        assert(recorded(s, a).1 =~= none);
        assert(none + none =~= none);
    } else if room(s) >= a.len() {
        let full = taken(s, a);
        assert(none + recorded(full, b).1 =~= recorded(full, b).1);
        if room(s) >= a.len() + b.len() {
            lemma_take_twice(s, a, b);
        } else {
            let at = room(s);
            let left = at - a.len();
            assert(room(full) == left);
            assert((a + b).take(at) =~= a + b.take(left));
            assert((a + b).skip(at) =~= b.skip(left));
            lemma_take_twice(s, a, b.take(left));
        }
    } else {
        let at = room(s);
        let head = a.take(at);
        let rest = a.skip(at);
        assert((a + b).take(at) =~= head);
        assert((a + b).skip(at) =~= rest + b);
        let full = taken(s, head);
        let next = reopened(full);
        assert(next.utterance.len() <= s.pre_roll_cap);
        lemma_record_twice(next, rest, b);
        let shut = seq![current_chunk(full, true)];
        let (mid, more) = recorded(next, rest);
        assert((shut + more) + recorded(mid, b).1 =~= shut + (more + recorded(mid, b).1));
    }
}

/// How the audio is cut into buffers makes no difference: two buffers one after
/// the other come to the same as both in one.
pub proof fn cutting_the_audio_changes_nothing<T>(s: CaptureView<T>, a: Seq<T>, b: Seq<T>)
    requires
        s.pre_roll.len() <= s.pre_roll_cap,
        s.utterance_cap == 0 || s.pre_roll_cap < s.utterance_cap,
        s.utterance_cap == 0 || s.utterance.len() <= s.utterance_cap,
        s.phase == Phase::PostRoll ==> s.post_roll_left > 0,
    ensures
        pushed(pushed(s, a).0, b).0 == pushed(s, a + b).0,
        pushed(s, a).1 + pushed(pushed(s, a).0, b).1 == pushed(s, a + b).1,
{
    let none = Seq::<ChunkView<T>>::empty();
    match s.phase {
        Phase::Idle => {
            lemma_remember_twice(s, a, b);
            assert(none + none =~= none);
        },
        Phase::Recording => {
            lemma_record_twice(s, a, b);
        },
        Phase::PostRoll => {
            let left = s.post_roll_left as int;
            if left <= a.len() {
                assert((a + b).take(left) =~= a.take(left));
                let idle = CaptureView {
                    phase: Phase::Idle,
                    utterance: Seq::<T>::empty(),
                    post_roll_left: 0,
                    ..s
                };
                lemma_remember_twice(idle, a, b);
                assert(pushed(s, a).1 + none =~= pushed(s, a).1);
                assert(pushed(s, a + b).1 =~= pushed(s, a).1);
            } else {
                assert(a.take(a.len() as int) =~= a);
                let fed = CaptureView {
                    utterance: s.utterance + a,
                    post_roll_left: (left - a.len()) as nat,
                    ..s
                };
                assert(pushed(s, a).0 == remembered(fed, a));
                let more = left - a.len();
                if more <= b.len() {
                    assert((a + b).take(left) =~= a + b.take(more));
                    assert(s.utterance + a + b.take(more) =~= s.utterance + (a + b.take(more)));
                    let idle = CaptureView {
                        phase: Phase::Idle,
                        utterance: Seq::<T>::empty(),
                        post_roll_left: 0,
                        ..s
                    };
                    lemma_remember_twice(idle, a, b);
                    assert(none + pushed(pushed(s, a).0, b).1 =~= pushed(pushed(s, a).0, b).1);
                } else {
                    assert(b.take(b.len() as int) =~= b);
                    assert((a + b).take((a + b).len() as int) =~= a + b);
                    assert(s.utterance + a + b =~= s.utterance + (a + b));
                    let both = CaptureView {
                        utterance: s.utterance + a + b,
                        post_roll_left: (more - b.len()) as nat,
                        ..s
                    };
                    lemma_remember_twice(both, a, b);
                    assert(none + none =~= none);
                }
            }
        },
    }
}

} // verus!
