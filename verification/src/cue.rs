//! Audio cues: a fixed vocabulary of short tones.
//!
//! The waveforms are sines and are rendered where they are played. What is
//! here is everything around them: how long each cue is, where its notes and
//! gaps fall, and how playback walks through a rendered table.

use crate::audio::engine::SampleKind;
use crate::text::{a_part_occurs_in_the_whole, glue, occurs_in, opt_text, owned};
use crate::time::Duration;
use vstd::prelude::*;

verus! {

/// Which cue to play.
#[derive(Debug, Clone, Copy, PartialEq, Eq, Hash, Structural)]
pub enum Cue {
    /// Recording started. Rising.
    Begin,
    /// A line was appended to the draft. A short double blip.
    Saved,
    /// Something failed. Low and longer.
    Error,
    /// The length cap split the recording. Two falling notes.
    Capped,
}

/// How many cues there are.
pub const CUE_COUNT: usize = 4;

/// Every cue, in table order.
pub fn all_cues() -> (r: [Cue; 4])
    ensures
        forall|i: int| 0 <= i < 4 ==> cue_index(#[trigger] r@[i]) == i,
{
    [Cue::Begin, Cue::Saved, Cue::Error, Cue::Capped]
}

/// Position in the table of rendered tones.
pub open spec fn cue_index(c: Cue) -> int {
    match c {
        Cue::Begin => 0,
        Cue::Saved => 1,
        Cue::Error => 2,
        Cue::Capped => 3,
    }
}

/// How long a cue lasts, in milliseconds.
pub open spec fn cue_ms(c: Cue) -> int {
    match c {
        Cue::Begin => 150,
        Cue::Saved => 130,
        Cue::Error => 250,
        Cue::Capped => 350,
    }
}

impl Cue {
    /// Position in the table of rendered tones.
    pub fn index(self) -> (r: usize)
        ensures
            r == cue_index(self),
    {
        match self {
            Cue::Begin => 0,
            Cue::Saved => 1,
            Cue::Error => 2,
            Cue::Capped => 3,
        }
    }

    /// How long the whole cue lasts.
    pub fn duration(self) -> (r: Duration)
        ensures
            r.nanos == cue_ms(self) * 1_000_000,
    {
        match self {
            Cue::Begin => Duration::from_millis(150),
            Cue::Saved => Duration::from_millis(130),
            Cue::Error => Duration::from_millis(250),
            Cue::Capped => Duration::from_millis(350),
        }
    }

    /// The byte that asks for this cue: its index and one, so that zero is free
    /// to mean that nothing is asked for.
    pub fn request(self) -> (r: u8)
        ensures
            r == cue_index(self) + 1,
    {
        match self {
            Cue::Begin => 1,
            Cue::Saved => 2,
            Cue::Error => 3,
            Cue::Capped => 4,
        }
    }
}

// ---------------------------------------------------------------------------
// Where the notes fall
// ---------------------------------------------------------------------------

/// Whole samples in that many nanoseconds at that rate, to the nearest sample.
pub open spec fn samples_in(nanos: int, sample_rate: int) -> int {
    (nanos * sample_rate + 500_000_000) / 1_000_000_000
}

/// Samples second by second: the whole seconds, and the nearest sample in what is
/// left of the last.
proof fn lemma_samples_in(secs: int, rest: int, rate: int)
    ensures
        samples_in(secs * 1_000_000_000 + rest, rate) == secs * rate + (rest * rate + 500_000_000)
            / 1_000_000_000,
{
    assert((secs * 1_000_000_000 + rest) * rate == (secs * rate) * 1_000_000_000 + rest * rate)
        by (nonlinear_arith);
    vstd::arithmetic::div_mod::lemma_hoist_over_denominator(
        rest * rate + 500_000_000,
        secs * rate,
        1_000_000_000,
    );
}

/// Whole samples in `duration` at `sample_rate`, to the nearest sample; as many
/// as can be counted where there are more.
pub fn samples_for(duration: Duration, sample_rate: u32) -> (r: usize)
    ensures
        r == if samples_in(duration.nanos as int, sample_rate as int) <= usize::MAX {
            samples_in(duration.nanos as int, sample_rate as int)
        } else {
            usize::MAX as int
        },
{
    let secs: u128 = duration.nanos / 1_000_000_000;
    let rest: u128 = duration.nanos % 1_000_000_000;
    let rate: u128 = sample_rate as u128;
    proof {
        lemma_samples_in(secs as int, rest as int, rate as int);
        assert(rest * rate <= 1_000_000_000 * 0xffff_ffff) by (nonlinear_arith)
            requires
                0 <= rest < 1_000_000_000,
                0 <= rate <= 0xffff_ffff,
        ;
    }
    if rate == 0 {
        proof {
            assert(secs * rate == 0 && rest * rate == 0) by (nonlinear_arith)
                requires
                    rate == 0,
            ;
        }
        return 0;
    }
    if secs > 0xffff_ffff_ffff_ffff {
        proof {
            assert(secs * rate >= secs) by (nonlinear_arith)
                requires
                    rate >= 1,
                    secs >= 0,
            ;
        }
        return usize::MAX;
    }
    proof {
        assert(secs * rate <= 0xffff_ffff_ffff_ffff * 0xffff_ffff) by (nonlinear_arith)
            requires
                0 <= secs <= 0xffff_ffff_ffff_ffff,
                0 <= rate <= 0xffff_ffff,
        ;
    }
    let n: u128 = secs * rate + (rest * rate + 500_000_000) / 1_000_000_000;
    if n > usize::MAX as u128 {
        usize::MAX
    } else {
        n as usize
    }
}

/// One note of a cue: a run of its samples, and the frequency it sweeps over.
#[derive(Debug, Clone, Copy, PartialEq, Eq, Structural)]
pub struct Segment {
    /// The first sample.
    pub start: usize,
    /// One past the last sample.
    pub end: usize,
    /// The frequency at the start, in hertz.
    pub start_hz: u32,
    /// The frequency the note ends on, in hertz.
    pub end_hz: u32,
}

/// The notes of a cue, and how many samples it has in all. Everything outside
/// the notes is silence.
#[derive(Debug)]
pub struct CueLayout {
    /// How many samples the cue has.
    pub total: usize,
    /// Its notes, in order.
    pub segments: Vec<Segment>,
}

/// Samples in that many milliseconds.
pub open spec fn ms_samples(ms: int, sample_rate: u32) -> int {
    samples_in(ms * 1_000_000, sample_rate as int)
}

/// One note over the whole cue.
pub open spec fn one_note(total: int, start_hz: u32, end_hz: u32) -> Seq<Segment> {
    seq![Segment { start: 0, end: total as usize, start_hz, end_hz }]
}

/// Two notes with a gap between them; the second runs to the end of the cue.
pub open spec fn two_notes(total: int, note: int, gap: int, first_hz: u32, second_hz: u32) -> Seq<
    Segment,
> {
    seq![
        Segment { start: 0, end: note as usize, start_hz: first_hz, end_hz: first_hz },
        Segment {
            start: (note + gap) as usize,
            end: total as usize,
            start_hz: second_hz,
            end_hz: second_hz,
        },
    ]
}

/// The notes of a cue at a rate: a rising fifth to begin, a double blip for a
/// save, a slightly falling buzz for an error, and a drop of two notes for the
/// cap.
pub open spec fn notes_of(c: Cue, rate: u32) -> Seq<Segment> {
    let total = ms_samples(cue_ms(c), rate);
    match c {
        Cue::Begin => one_note(total, 660, 990),
        Cue::Saved => two_notes(total, ms_samples(45, rate), ms_samples(40, rate), 880, 880),
        Cue::Error => one_note(total, 220, 196),
        Cue::Capped => two_notes(total, ms_samples(150, rate), ms_samples(50, rate), 659, 440),
    }
}

fn ms_samples_for(ms: u64, sample_rate: u32) -> (r: usize)
    requires
        ms <= 1000,
    ensures
        r == ms_samples(ms as int, sample_rate),
        r <= sample_rate,
{
    proof {
        lemma_ms_bound(ms as int, sample_rate);
    }
    samples_for(Duration::from_millis(ms), sample_rate)
}

proof fn lemma_ms_bound(ms: int, rate: u32)
    requires
        0 <= ms <= 1000,
    ensures
        0 <= ms_samples(ms, rate) <= rate,
{
    assert(0 <= ms * 1_000_000 * rate <= 1_000_000_000 * rate) by (nonlinear_arith)
        requires
            0 <= ms <= 1000,
            0 <= rate,
    ;
}

/// The notes of a cue at a rate.
pub fn cue_layout(cue: Cue, sample_rate: u32) -> (r: CueLayout)
    ensures
        r.total == ms_samples(cue_ms(cue), sample_rate),
        r.segments@ == notes_of(cue, sample_rate),
{
    let total: usize = ms_samples_for(
        match cue {
            Cue::Begin => 150,
            Cue::Saved => 130,
            Cue::Error => 250,
            Cue::Capped => 350,
        },
        sample_rate,
    );
    let mut segments: Vec<Segment> = Vec::new();
    match cue {
        Cue::Begin => {
            segments.push(Segment { start: 0, end: total, start_hz: 660, end_hz: 990 });
        },
        Cue::Saved => {
            let blip: usize = ms_samples_for(45, sample_rate);
            let gap: usize = ms_samples_for(40, sample_rate);
            proof {
                lemma_saved_fits(sample_rate);
            }
            segments.push(Segment { start: 0, end: blip, start_hz: 880, end_hz: 880 });
            segments.push(Segment { start: blip + gap, end: total, start_hz: 880, end_hz: 880 });
        },
        Cue::Error => {
            segments.push(Segment { start: 0, end: total, start_hz: 220, end_hz: 196 });
        },
        Cue::Capped => {
            let note: usize = ms_samples_for(150, sample_rate);
            let gap: usize = ms_samples_for(50, sample_rate);
            proof {
                lemma_capped_fits(sample_rate);
            }
            segments.push(Segment { start: 0, end: note, start_hz: 659, end_hz: 659 });
            segments.push(Segment { start: note + gap, end: total, start_hz: 440, end_hz: 440 });
        },
    }
    proof {
        assert(segments@ =~= notes_of(cue, sample_rate));
    }
    CueLayout { total, segments }
}

proof fn lemma_saved_fits(rate: u32)
    ensures
        ms_samples(45, rate) + ms_samples(40, rate) <= ms_samples(130, rate),
{
}

proof fn lemma_capped_fits(rate: u32)
    ensures
        ms_samples(150, rate) + ms_samples(50, rate) <= ms_samples(350, rate),
{
}

// ---------------------------------------------------------------------------
// The envelope
// ---------------------------------------------------------------------------

/// The smaller of two numbers.
pub open spec fn smaller(a: int, b: int) -> int {
    if a <= b {
        a
    } else {
        b
    }
}

/// How many steps of `fade` the tone stands at: a linear rise from the start
/// and a linear fall to the end, whichever is lower.
pub open spec fn envelope_step(index: int, len: int, fade: int) -> int {
    let from_end = if len >= index {
        len - index
    } else {
        0
    };
    smaller(smaller(index + 1, fade), smaller(from_end, fade))
}

/// How many steps of `fade` the tone stands at, out of `fade`.
pub fn envelope(index: usize, len: usize, fade: usize) -> (r: usize)
    requires
        index < usize::MAX,
    ensures
        r == envelope_step(index as int, len as int, fade as int),
        r <= fade,
{
    let from_start: usize = index + 1;
    let from_end: usize = if len >= index {
        len - index
    } else {
        0
    };
    let rise: usize = if from_start <= fade {
        from_start
    } else {
        fade
    };
    let fall: usize = if from_end <= fade {
        from_end
    } else {
        fade
    };
    if rise <= fall {
        rise
    } else {
        fall
    }
}

/// How many samples a note fades over at each end: five milliseconds, but never
/// more than half the note, and at least one.
pub open spec fn fade_len(len: int, sample_rate: u32) -> int {
    let half = smaller(ms_samples(5, sample_rate), len / 2);
    if half < 1 {
        1
    } else {
        half
    }
}

/// How many samples a note fades over at each end.
pub fn fade_for(len: usize, sample_rate: u32) -> (r: usize)
    ensures
        r == fade_len(len as int, sample_rate),
        r >= 1,
{
    let fade: usize = ms_samples_for(5, sample_rate);
    let half: usize = len / 2;
    let fade: usize = if fade <= half {
        fade
    } else {
        half
    };
    if fade < 1 {
        1
    } else {
        fade
    }
}

// ---------------------------------------------------------------------------
// Playback
// ---------------------------------------------------------------------------

/// The rendered cues, in table order.
#[derive(Debug)]
pub struct Tones<T> {
    pub tables: Vec<Vec<T>>,
}

/// One sample of the tables, or `None` past the end of that cue.
pub open spec fn tone_at<T>(tables: Seq<Vec<T>>, index: int, position: int) -> Option<T> {
    if 0 <= index < tables.len() && 0 <= position < tables[index]@.len() {
        Some(tables[index]@[position])
    } else {
        None
    }
}

impl<T: Copy> Tones<T> {
    /// One sample, or `None` past the end of that cue.
    pub fn sample(&self, index: usize, position: usize) -> (r: Option<T>)
        ensures
            r == tone_at(self.tables@, index as int, position as int),
            r is Some ==> position < usize::MAX,
    {
        if index < self.tables.len() {
            let table = &self.tables[index];
            if position < table.len() {
                return Some(table[position]);
            }
        }
        None
    }
}

/// Where playback stands.
#[derive(Debug, Clone, Copy, PartialEq, Eq, Structural)]
pub struct Playhead {
    /// The cue being played, if one is.
    pub active: Option<usize>,
    /// How far into it.
    pub position: usize,
}

/// Playback after a request byte: a cue that is asked for starts at once, in
/// place of whatever was playing.
pub open spec fn requested(p: Playhead, request: u8) -> Playhead {
    if request == 0 {
        p
    } else {
        Playhead { active: Some((request - 1) as usize), position: 0 }
    }
}

/// One frame: playback after it, and its sample, or `None` for silence.
pub open spec fn played<T>(p: Playhead, tables: Seq<Vec<T>>) -> (Playhead, Option<T>) {
    match p.active {
        None => (p, None),
        Some(index) => match tone_at(tables, index as int, p.position as int) {
            Some(sample) => (
                Playhead { position: (p.position + 1) as usize, ..p },
                Some(sample),
            ),
            None => (Playhead { active: None, ..p }, None),
        },
    }
}

impl Playhead {
    /// Feeding silence.
    pub fn new() -> (r: Playhead)
        ensures
            r == (Playhead { active: None, position: 0 }),
    {
        Playhead { active: None, position: 0 }
    }

    /// Takes a request byte in.
    pub fn request(&mut self, request: u8)
        ensures
            *final(self) == requested(*old(self), request),
    {
        if request != 0 {
            self.active = Some((request - 1) as usize);
            self.position = 0;
        }
    }

    /// The sample of the next frame, or `None` for silence.
    pub fn next<T: Copy>(&mut self, tones: &Tones<T>) -> (r: Option<T>)
        ensures
            *final(self) == played(*old(self), tones.tables@).0,
            r == played(*old(self), tones.tables@).1,
    {
        match self.active {
            Some(index) => match tones.sample(index, self.position) {
                Some(sample) => {
                    self.position = self.position + 1;
                    Some(sample)
                },
                None => {
                    self.active = None;
                    None
                },
            },
            None => None,
        }
    }
}

/// Playback after `n` frames, and their samples.
pub open spec fn played_frames<T>(p: Playhead, tables: Seq<Vec<T>>, n: nat) -> (
    Playhead,
    Seq<Option<T>>,
)
    decreases n,
{
    if n == 0 {
        (p, Seq::empty())
    } else {
        let (mid, out) = played_frames(p, tables, (n - 1) as nat);
        let (end, sample) = played(mid, tables);
        (end, out.push(sample))
    }
}

// ---------------------------------------------------------------------------
// Failure
// ---------------------------------------------------------------------------

/// Why the cue player could not start. Every one of these is survivable.
#[derive(Debug, PartialEq, Eq)]
pub enum CueError {
    /// The system reports no usable output device.
    NoOutputDevice,
    /// The device has no default output configuration.
    DefaultConfig { device: String, reason: String },
    /// The device wants a sample format that is not written.
    UnsupportedSampleFormat { device: String, format: String },
    /// The stream could not be created.
    BuildStream { device: String, reason: String },
    /// The stream was created but refused to start.
    PlayStream { device: String, reason: String },
    /// The stream thread could not be spawned.
    ThreadSpawn { reason: String },
    /// The stream thread went away before it reported success or failure.
    StreamThreadDied,
}

/// The sentence that tells the user what happened.
pub open spec fn cue_error_text(e: CueError) -> Seq<char> {
    match e {
        CueError::NoOutputDevice =>
            "no audio output device is available, so Sotone will run without cues"@,
        CueError::DefaultConfig { device, .. } =>
            "could not read the default output configuration of '"@ + device@ + "'"@,
        CueError::UnsupportedSampleFormat { device, format } => "output device '"@ + device@
            + "' wants samples as "@ + format@ + ", which Sotone cannot write"@,
        CueError::BuildStream { device, .. } => "could not open an output stream on '"@ + device@
            + "'"@,
        CueError::PlayStream { device, .. } => "could not start the output stream on '"@ + device@
            + "'"@,
        CueError::ThreadSpawn { .. } => "could not start the audio cue thread"@,
        CueError::StreamThreadDied => "the audio cue thread stopped before the stream was ready"@,
    }
}

impl CueError {
    /// The sentence that tells the user what happened.
    pub fn message(&self) -> (r: String)
        ensures
            r@ == cue_error_text(*self),
    {
        match self {
            CueError::NoOutputDevice => owned(
                "no audio output device is available, so Sotone will run without cues",
            ),
            CueError::DefaultConfig { device, .. } => glue(
                "could not read the default output configuration of '",
                device,
                "'",
            ),
            CueError::UnsupportedSampleFormat { device, format } => {
                let head = glue("output device '", device, "' wants samples as ");
                glue(&head, format, ", which Sotone cannot write")
            },
            CueError::BuildStream { device, .. } => glue(
                "could not open an output stream on '",
                device,
                "'",
            ),
            CueError::PlayStream { device, .. } => glue(
                "could not start the output stream on '",
                device,
                "'",
            ),
            CueError::ThreadSpawn { .. } => owned("could not start the audio cue thread"),
            CueError::StreamThreadDied => owned(
                "the audio cue thread stopped before the stream was ready",
            ),
        }
    }
}

/// Refuses a device that wants its samples in a format that is not written.
/// `format` is what the device calls its format.
pub fn check_output(device: &str, kind: SampleKind, format: &str) -> (r: Result<(), CueError>)
    ensures
        match r {
            Ok(_) => kind != SampleKind::Other,
            Err(CueError::UnsupportedSampleFormat { device: d, format: f }) => kind
                == SampleKind::Other && d@ == device@ && f@ == format@,
            Err(_) => false,
        },
{
    match kind {
        SampleKind::Other => Err(
            CueError::UnsupportedSampleFormat { device: owned(device), format: owned(format) },
        ),
        _ => Ok(()),
    }
}

/// What the player says of a failed stream: nothing while all is well, and the
/// reason once it is known.
pub fn failure(failed: bool, reason: &Option<String>) -> (r: Option<String>)
    ensures
        match r {
            None => !failed,
            Some(said) => failed && said@ == (match opt_text(*reason) {
                Some(why) => why,
                None => "the audio output device stopped"@,
            }),
        },
{
    if !failed {
        return None;
    }
    match reason {
        Some(why) => Some(why.clone()),
        None => Some(owned("the audio output device stopped")),
    }
}

// ---------------------------------------------------------------------------
// Laws
// ---------------------------------------------------------------------------

/// Asking for a cue plays exactly that cue: after its request byte, the next
/// frames are its table, sample by sample, whatever was playing before, and
/// then there is silence.
pub proof fn a_request_plays_its_cue<T>(p: Playhead, tables: Seq<Vec<T>>, cue: Cue, n: nat)
    requires
        tables.len() == CUE_COUNT,
        n <= tables[cue_index(cue)]@.len() + 1,
        tables[cue_index(cue)]@.len() <= usize::MAX,
    ensures
        ({
            let table = tables[cue_index(cue)]@;
            let start = requested(p, (cue_index(cue) + 1) as u8);
            let (end, out) = played_frames(start, tables, n);
            &&& out.len() == n
            &&& forall|i: int|
                0 <= i < n && i < table.len() ==> #[trigger] out[i] == Some(table[i])
            &&& n == table.len() + 1 ==> out.last() is None && end.active is None
            &&& n <= table.len() ==> end.active == Some(cue_index(cue) as usize) && end.position
                == n
        }),
    decreases n,
{
    if n > 0 {
        a_request_plays_its_cue(p, tables, cue, (n - 1) as nat);
    }
}

/// A note starts and ends one step from silence, and never stands higher than
/// the fade allows.
pub proof fn the_envelope_is_symmetric(index: int, len: int, fade: int)
    requires
        0 <= index < len,
        fade >= 1,
    ensures
        envelope_step(index, len, fade) == envelope_step(len - 1 - index, len, fade),
        1 <= envelope_step(index, len, fade) <= fade,
        envelope_step(0, len, fade) == 1,
{
}

/// The notes of a cue fall inside it and in order, at any rate, and the last one
/// runs to the end of the cue.
pub proof fn the_notes_fall_inside_the_cue(c: Cue, rate: u32)
    ensures
        ({
            let notes = notes_of(c, rate);
            let total = ms_samples(cue_ms(c), rate);
            &&& notes.last().end == total
            &&& forall|i: int|
                0 <= i < notes.len() ==> (#[trigger] notes[i]).start <= notes[i].end <= total
            &&& notes.len() == 2 ==> notes[0].end <= notes[1].start
        }),
{
    lemma_ms_bound(cue_ms(c), rate);
    lemma_ms_bound(45, rate);
    lemma_ms_bound(40, rate);
    lemma_ms_bound(150, rate);
    lemma_ms_bound(50, rate);
    lemma_saved_fits(rate);
    lemma_capped_fits(rate);
    let notes = notes_of(c, rate);
    assert forall|i: int| 0 <= i < notes.len() implies (#[trigger] notes[i]).start <= notes[i].end
        <= ms_samples(cue_ms(c), rate) by {
        assert(i == 0 || i == 1);
    }
}

/// The save cue and the cap cue are heard as two notes: at any rate of at least
/// a kilohertz there is silence between them.
pub proof fn two_notes_have_a_gap(c: Cue, rate: u32)
    requires
        c == Cue::Saved || c == Cue::Capped,
        rate >= 1000,
    ensures
        notes_of(c, rate).len() == 2,
        notes_of(c, rate)[0].start < notes_of(c, rate)[0].end,
        notes_of(c, rate)[0].end < notes_of(c, rate)[1].start,
        notes_of(c, rate)[1].start < notes_of(c, rate)[1].end,
{
    lemma_ms_bound(cue_ms(c), rate);
    lemma_ms_bound(45, rate);
    lemma_ms_bound(40, rate);
    lemma_ms_bound(150, rate);
    lemma_ms_bound(50, rate);
    lemma_saved_fits(rate);
    lemma_capped_fits(rate);
}

/// A number of samples is the nearest to the time it stands for: off by half a
/// sample at most.
pub proof fn samples_are_the_nearest(nanos: int, sample_rate: int)
    requires
        nanos >= 0,
        sample_rate >= 0,
    ensures
        samples_in(nanos, sample_rate) >= 0,
        -500_000_000 <= samples_in(nanos, sample_rate) * 1_000_000_000 - nanos * sample_rate
            <= 500_000_000,
{
    assert(nanos * sample_rate >= 0) by (nonlinear_arith)
        requires
            nanos >= 0,
            sample_rate >= 0,
    ;
}

/// That many samples are that many milliseconds long at that rate, to the
/// nearest sample.
pub open spec fn lasts_ms(samples: int, ms: int, rate: u32) -> bool {
    -500 <= samples * 1000 - ms * rate <= 500
}

proof fn lemma_lasts(ms: int, rate: u32)
    requires
        0 <= ms <= 1000,
    ensures
        lasts_ms(ms_samples(ms, rate), ms, rate),
        0 <= ms_samples(ms, rate) <= rate,
{
    lemma_ms_bound(ms, rate);
    samples_are_the_nearest(ms * 1_000_000, rate as int);
    assert(ms * 1_000_000 * rate == (ms * rate) * 1_000_000) by (nonlinear_arith);
}

/// The beginning of a recording is a note that rises by a fifth over 150 ms, an
/// error is one that falls a little over 250 ms, a save is two equal blips in 130
/// ms and the cap two falling notes in 350 ms.
pub proof fn the_cues_sound_as_they_should(rate: u32)
    ensures
        ({
            let (begin, saved) = (notes_of(Cue::Begin, rate), notes_of(Cue::Saved, rate));
            let (error, capped) = (notes_of(Cue::Error, rate), notes_of(Cue::Capped, rate));
            &&& begin.len() == 1 && begin[0].start == 0 && lasts_ms(begin[0].end as int, 150, rate)
            &&& 2 * begin[0].end_hz == 3 * begin[0].start_hz && begin[0].start_hz == 660
            &&& error.len() == 1 && error[0].start == 0 && lasts_ms(error[0].end as int, 250, rate)
            &&& error[0].start_hz == 220 && error[0].end_hz == 196
            &&& saved.len() == 2 && saved[0].start == 0 && lasts_ms(saved[0].end as int, 45, rate)
            &&& lasts_ms(saved[1].start - saved[0].end, 40, rate)
            &&& lasts_ms(saved[1].end as int, 130, rate)
            &&& saved[0].start_hz == 880 && saved[0].end_hz == 880
            &&& saved[1].start_hz == 880 && saved[1].end_hz == 880
            &&& capped.len() == 2 && capped[0].start == 0
            &&& lasts_ms(capped[0].end as int, 150, rate)
            &&& lasts_ms(capped[1].start - capped[0].end, 50, rate)
            &&& lasts_ms(capped[1].end as int, 350, rate)
            &&& capped[0].start_hz == 659 && capped[0].end_hz == 659
            &&& capped[1].start_hz == 440 && capped[1].end_hz == 440
        }),
        cue_ms(Cue::Begin) == 150 && cue_ms(Cue::Saved) == 130,
        cue_ms(Cue::Error) == 250 && cue_ms(Cue::Capped) == 350,
{
    lemma_lasts(150, rate);
    lemma_lasts(130, rate);
    lemma_lasts(250, rate);
    lemma_lasts(350, rate);
    lemma_lasts(45, rate);
    lemma_lasts(40, rate);
    lemma_lasts(50, rate);
    lemma_saved_fits(rate);
    lemma_capped_fits(rate);
}

/// A tone stands no higher than the way from its start and to its end, nor than
/// the fade, and as high as one of the three: it rises step by step, holds, and
/// falls step by step.
pub proof fn the_envelope_rises_and_falls(index: int, len: int, fade: int)
    requires
        0 <= index < len,
        fade >= 1,
    ensures
        ({
            let step = envelope_step(index, len, fade);
            &&& step <= index + 1 && step <= len - index && step <= fade
            &&& step == index + 1 || step == len - index || step == fade
        }),
{
}

/// A note fades over five milliseconds at each end, over half of itself where it
/// is shorter than two fades, and over one sample at least.
pub proof fn a_fade_is_five_milliseconds_long(len: int, rate: u32)
    requires
        len >= 0,
    ensures
        fade_len(len, rate) >= 1,
        fade_len(len, rate) > 1 ==> 2 * fade_len(len, rate) <= len,
        lasts_ms(fade_len(len, rate), 5, rate) || fade_len(len, rate) == len / 2 || fade_len(
            len,
            rate,
        ) == 1,
        len >= rate && rate >= 200 ==> lasts_ms(fade_len(len, rate), 5, rate),
{
    lemma_lasts(5, rate);
}

/// Each cue has a place of its own in the table.
pub proof fn cues_have_places_of_their_own(a: Cue, b: Cue)
    ensures
        0 <= cue_index(a) < 4,
        cue_index(a) == cue_index(b) ==> a == b,
{
}

/// Silence stays silence until a cue is asked for, and a byte that asks for none
/// changes nothing.
pub proof fn silence_stays_until_a_request<T>(p: Playhead, tables: Seq<Vec<T>>)
    ensures
        requested(p, 0) == p,
        p.active is None ==> played(p, tables) == (p, None::<T>),
{
}

/// The sentence of an error names the device it is about, and the format it wants
/// where that is what is wrong.
pub proof fn a_cue_error_names_its_device(e: CueError)
    ensures
        e matches CueError::DefaultConfig { device, .. } ==> occurs_in(device@, cue_error_text(e)),
        e matches CueError::UnsupportedSampleFormat { device, format } ==> occurs_in(
            device@,
            cue_error_text(e),
        ) && occurs_in(format@, cue_error_text(e)),
        e matches CueError::BuildStream { device, .. } ==> occurs_in(device@, cue_error_text(e)),
        e matches CueError::PlayStream { device, .. } ==> occurs_in(device@, cue_error_text(e)),
{
    let text = cue_error_text(e);
    match e {
        CueError::DefaultConfig { device, .. } => {
            a_part_occurs_in_the_whole(
                "could not read the default output configuration of '"@,
                device@,
                "'"@,
            );
        },
        CueError::UnsupportedSampleFormat { device, format } => {
            let (x, y, z) = (
                "output device '"@,
                "' wants samples as "@,
                ", which Sotone cannot write"@,
            );
            a_part_occurs_in_the_whole(x, device@, y + format@ + z);
            assert(text =~= x + device@ + (y + format@ + z));
            a_part_occurs_in_the_whole(x + device@ + y, format@, z);
        },
        CueError::BuildStream { device, .. } => {
            a_part_occurs_in_the_whole("could not open an output stream on '"@, device@, "'"@);
        },
        CueError::PlayStream { device, .. } => {
            a_part_occurs_in_the_whole("could not start the output stream on '"@, device@, "'"@);
        },
        _ => {},
    }
}

} // verus!
