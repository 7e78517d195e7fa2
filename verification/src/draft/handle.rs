//! A writable handle on one draft.
//!
//! Every operation is a plan: the list of writes to perform, in order. The
//! caller performs them one at a time and reports each success with
//! [`Draft::after`]; at the first failure it stops, and the handle then says
//! exactly what reached the disk.

use crate::draft::error::{DraftError, ErrorView};
use crate::draft::log::{opt_place, ParsedView};
use crate::draft::record::{lines_view, EntryView, LineRecord, LineView, LogEntry};
use crate::path::{below, is_just, names_just, opt_path, NotePath, PathView};
use crate::stamp::Stamp;
use crate::text::{copy_opt, opt_text, owned, same_text};
use vstd::prelude::*;
use vstd::string::*;

verus! {

/// The append-only record of what was spoken.
pub const LINES_FILE: &'static str = "lines.jsonl";

/// Draft-level state.
pub const META_FILE: &'static str = "meta.json";

/// Per-line audio, named by line id.
pub const AUDIO_DIR: &'static str = "audio";

/// Schema version written into the metadata.
pub const META_VERSION: u32 = 1;

/// The rate every line's audio is stored at.
pub const TARGET_SAMPLE_RATE: u32 = 16000;

/// How many samples one audio file can hold: its lengths are 32-bit byte
/// counts.
pub const MAX_WAV_SAMPLES: usize = 2147483629;

// ---------------------------------------------------------------------------
// State
// ---------------------------------------------------------------------------

/// Contents of the draft's metadata file.
#[derive(Debug, PartialEq, Eq)]
pub struct DraftMeta {
    /// Schema version.
    pub version: u32,
    /// Draft id, matching the directory name.
    pub id: String,
    /// When the draft was created.
    pub created_at: Stamp,
    /// Project this draft belongs to, if any.
    pub project: Option<String>,
    /// The markdown file this draft is bound to. `None` until the first save.
    pub saved_path: Option<NotePath>,
    /// Whether there are changes not yet rendered to `saved_path`.
    pub dirty: bool,
    /// Hash of the last bytes written to `saved_path`.
    pub last_save_hash: Option<String>,
}

/// What a [`DraftMeta`] holds.
pub struct MetaView {
    pub version: u32,
    pub id: Seq<char>,
    pub created_at: Stamp,
    pub project: Option<Seq<char>>,
    pub saved_path: Option<PathView>,
    pub dirty: bool,
    pub last_save_hash: Option<Seq<char>>,
}

/// A copy of an optional path.
pub fn copy_opt_path(p: &Option<NotePath>) -> (r: Option<NotePath>)
    ensures
        opt_path(r) == opt_path(*p),
{
    match p {
        Some(p) => Some(p.clone()),
        None => None,
    }
}

impl View for DraftMeta {
    type V = MetaView;

    open spec fn view(&self) -> MetaView {
        MetaView {
            version: self.version,
            id: self.id@,
            created_at: self.created_at,
            project: opt_text(self.project),
            saved_path: opt_path(self.saved_path),
            dirty: self.dirty,
            last_save_hash: opt_text(self.last_save_hash),
        }
    }
}

impl Clone for DraftMeta {
    fn clone(&self) -> (r: Self)
        ensures
            r@ == self@,
    {
        DraftMeta {
            version: self.version,
            id: self.id.clone(),
            created_at: self.created_at,
            project: copy_opt(&self.project),
            saved_path: copy_opt_path(&self.saved_path),
            dirty: self.dirty,
            last_save_hash: copy_opt(&self.last_save_hash),
        }
    }
}

/// A handle on one draft directory.
#[derive(Debug, PartialEq, Eq)]
pub struct Draft {
    /// The draft directory.
    pub dir: NotePath,
    /// Draft metadata, as on disk once the pending writes are done.
    pub meta: DraftMeta,
    /// The record of the most recent append.
    pub last: Option<LineRecord>,
    /// The log ends in the middle of a record: the next append puts a newline
    /// in front.
    pub needs_newline: bool,
    /// How many lines would be rendered into the note.
    pub lines: usize,
}

/// What a [`Draft`] holds.
pub struct DraftView {
    pub dir: PathView,
    pub meta: MetaView,
    pub last: Option<LineView>,
    pub needs_newline: bool,
    pub lines: nat,
}

/// What an optional line holds.
pub open spec fn opt_line(l: Option<LineRecord>) -> Option<LineView> {
    match l {
        Some(l) => Some(l@),
        None => None,
    }
}

impl View for Draft {
    type V = DraftView;

    open spec fn view(&self) -> DraftView {
        DraftView {
            dir: self.dir@,
            meta: self.meta@,
            last: opt_line(self.last),
            needs_newline: self.needs_newline,
            lines: self.lines as nat,
        }
    }
}

// ---------------------------------------------------------------------------
// Plans
// ---------------------------------------------------------------------------

/// What an append does to the number of rendered lines.
#[derive(Debug, Clone, Copy, PartialEq, Eq, Structural)]
pub enum LiveChange {
    Same,
    Up,
    Down,
}

/// One write of a plan.
#[derive(Debug, PartialEq, Eq)]
pub enum DraftStep {
    /// Create a file that is not there yet, with exactly these bytes.
    NewFile { path: NotePath, bytes: Vec<u8> },
    /// Append one record to the log. A record that completes its operation
    /// settles the line count and marks the draft dirty.
    Append { record: LogEntry, settles: Option<LiveChange> },
    /// Rewrite the metadata, as the handle then holds it.
    Meta,
}

/// What a [`DraftStep`] holds.
pub enum StepView {
    NewFile { path: PathView, bytes: Seq<u8> },
    Append { record: EntryView, settles: Option<LiveChange> },
    Meta,
}

impl View for DraftStep {
    type V = StepView;

    open spec fn view(&self) -> StepView {
        match self {
            DraftStep::NewFile { path, bytes } => StepView::NewFile { path: path@, bytes: bytes@ },
            DraftStep::Append { record, settles } => StepView::Append {
                record: record@,
                settles: *settles,
            },
            DraftStep::Meta => StepView::Meta,
        }
    }
}

/// The contents of a list of steps.
pub open spec fn steps_view(steps: Seq<DraftStep>) -> Seq<StepView> {
    steps.map_values(|s: DraftStep| s@)
}

/// The writes of an operation on one line, and how the line reads once they are
/// done.
#[derive(Debug, PartialEq, Eq)]
pub struct LinePlan {
    /// What to write, in order.
    pub steps: Vec<DraftStep>,
    /// The line as a fresh read of the log will report it.
    pub record: LineRecord,
}

/// What a [`LinePlan`] holds.
pub struct PlanView {
    pub steps: Seq<StepView>,
    pub record: LineView,
}

impl View for LinePlan {
    type V = PlanView;

    open spec fn view(&self) -> PlanView {
        PlanView { steps: steps_view(self.steps@), record: self.record@ }
    }
}

/// The writes of a move, and the transcript in its new order.
#[derive(Debug, PartialEq, Eq)]
pub struct MovePlan {
    /// What to write, in order.
    pub steps: Vec<DraftStep>,
    /// Every line, in the order a fresh read of the log will report.
    pub lines: Vec<LineRecord>,
}

/// The number of rendered lines after a change.
pub open spec fn counted(lines: nat, change: LiveChange) -> nat {
    match change {
        LiveChange::Same => lines,
        LiveChange::Up => lines + 1,
        LiveChange::Down => if lines == 0 {
            0
        } else {
            (lines - 1) as nat
        },
    }
}

/// The write adds a line to those that would be rendered.
pub open spec fn adds_a_line(s: StepView) -> bool {
    match s {
        StepView::Append { settles: Some(change), .. } => change == LiveChange::Up,
        _ => false,
    }
}

/// The handle after one write of a plan has succeeded.
pub open spec fn state_after(d: DraftView, s: StepView) -> DraftView {
    match s {
        StepView::NewFile { .. } => d,
        StepView::Append { settles: None, .. } => DraftView { needs_newline: false, ..d },
        StepView::Append { settles: Some(change), .. } => DraftView {
            needs_newline: false,
            lines: counted(d.lines, change),
            meta: MetaView { dirty: true, ..d.meta },
            ..d
        },
        StepView::Meta => d,
    }
}

/// The handle after all the writes of a plan have succeeded.
pub open spec fn state_after_all(d: DraftView, steps: Seq<StepView>) -> DraftView
    decreases steps.len(),
{
    if steps.len() == 0 {
        d
    } else {
        state_after(state_after_all(d, steps.drop_last()), steps.last())
    }
}

/// The metadata write an operation ends with: none when the draft was already
/// marked.
pub open spec fn dirty_steps(dirty: bool) -> Seq<StepView> {
    if dirty {
        Seq::empty()
    } else {
        seq![StepView::Meta]
    }
}

/// How a line's being rendered changed.
pub open spec fn live_change(before: bool, after: bool) -> LiveChange {
    if before && !after {
        LiveChange::Down
    } else if !before && after {
        LiveChange::Up
    } else {
        LiveChange::Same
    }
}

pub(crate) fn change_of(before: bool, after: bool) -> (r: LiveChange)
    ensures
        r == live_change(before, after),
{
    if before && !after {
        LiveChange::Down
    } else if !before && after {
        LiveChange::Up
    } else {
        LiveChange::Same
    }
}

/// Puts the closing metadata write at the end of a plan, where it is needed.
pub(crate) fn close(steps: &mut Vec<DraftStep>, dirty: bool)
    ensures
        steps_view(final(steps)@) == steps_view(old(steps)@) + dirty_steps(dirty),
{
    if !dirty {
        let ghost before = steps@;
        steps.push(DraftStep::Meta);
        proof {
            assert(steps_view(steps@) =~= steps_view(before) + seq![StepView::Meta]);
        }
    } else {
        proof {
            assert(steps_view(steps@) =~= steps_view(steps@) + Seq::<StepView>::empty());
        }
    }
}

/// The first line with that id.
pub open spec fn first_place(lines: Seq<LineView>, id: Seq<char>) -> Option<int>
    decreases lines.len(),
{
    if lines.len() == 0 {
        None
    } else {
        match first_place(lines.drop_last(), id) {
            Some(p) => Some(p),
            None => if lines.last().id == id {
                Some(lines.len() - 1)
            } else {
                None
            },
        }
    }
}

/// The first line with that id.
pub fn find_line(lines: &Vec<LineRecord>, id: &str) -> (r: Option<usize>)
    ensures
        opt_place(r) == first_place(lines_view(lines@), id@),
{
    let mut i: usize = 0;
    proof {
        assert(lines_view(lines@).take(0) =~= Seq::<LineView>::empty());
    }
    while i < lines.len()
        invariant
            i <= lines@.len(),
            first_place(lines_view(lines@).take(i as int), id@) is None,
        decreases lines@.len() - i,
    {
        let ghost front = lines_view(lines@).take(i + 1);
        proof {
            assert(front.drop_last() =~= lines_view(lines@).take(i as int));
            assert(front.last() == lines@[i as int]@);
        }
        if same_text(&lines[i].id, id) {
            proof {
                lemma_first_place_grows(lines_view(lines@), id@, i + 1);
            }
            return Some(i);
        }
        i = i + 1;
    }
    proof {
        assert(lines_view(lines@).take(lines@.len() as int) =~= lines_view(lines@));
    }
    None
}

pub proof fn lemma_first_place_grows(lines: Seq<LineView>, id: Seq<char>, n: int)
    requires
        0 <= n <= lines.len(),
        first_place(lines.take(n), id) is Some,
    ensures
        first_place(lines, id) == first_place(lines.take(n), id),
    decreases lines.len() - n,
{
    if n == lines.len() {
        assert(lines.take(n) =~= lines);
    } else {
        assert(lines.take(n + 1).drop_last() =~= lines.take(n));
        lemma_first_place_grows(lines, id, n + 1);
    }
}

pub proof fn lemma_first_place(lines: Seq<LineView>, id: Seq<char>)
    ensures
        match first_place(lines, id) {
            Some(p) => 0 <= p < lines.len() && lines[p].id == id && forall|j: int|
                0 <= j < p ==> (#[trigger] lines[j]).id != id,
            None => forall|j: int| 0 <= j < lines.len() ==> (#[trigger] lines[j]).id != id,
        },
    decreases lines.len(),
{
    if lines.len() > 0 {
        lemma_first_place(lines.drop_last(), id);
        assert forall|j: int| 0 <= j < lines.len() - 1 implies lines.drop_last()[j] == #[trigger]
            lines[j] by {}
    }
}

/// True when the lists of a read log run side by side.
pub open spec fn parallel(p: ParsedView) -> bool {
    &&& p.sessions.len() == p.lines.len()
    &&& p.base_failed.len() == p.lines.len()
    &&& p.base_texts.len() == p.lines.len()
}

// ---------------------------------------------------------------------------
// Where things are
// ---------------------------------------------------------------------------

/// The audio directory of a draft.
pub open spec fn audio_dir_of(dir: PathView) -> PathView {
    below(dir, AUDIO_DIR@)
}

/// The name of a line's audio file.
pub open spec fn wav_name(id: Seq<char>) -> Seq<char> {
    id + ".wav"@
}

/// The audio file of a line, as its record names it: relative to the draft.
pub open spec fn audio_field(id: Seq<char>) -> Seq<char> {
    AUDIO_DIR@ + "/"@ + wav_name(id)
}

/// The character does not occur in the text.
pub open spec fn free_of(text: Seq<char>, c: char) -> bool {
    forall|i: int| 0 <= i < text.len() ==> #[trigger] text[i] != c
}

/// True when the text names exactly one file or directory: a single plain
/// component, with no leading dot and nothing that parts components anywhere.
/// `p` is what the platform reads it as.
pub open spec fn plain_component(id: Seq<char>, p: PathView) -> bool {
    id.len() > 0 && id[0] != '.' && free_of(id, '/') && is_just(p, id)
}

/// True when the id may name an audio file: a plain component without any dot.
pub open spec fn plain_line_id(id: Seq<char>, p: PathView) -> bool {
    plain_component(id, p) && free_of(id, '.')
}

/// Is the id, read as `p`, a plain component?
pub fn is_plain_component_as(id: &str, p: &NotePath) -> (r: bool)
    ensures
        r == plain_component(id@, p@),
{
    if id.unicode_len() == 0 {
        return false;
    }
    id.get_char(0) != '.' && is_free_of(id, '/') && names_just(p, id)
}

/// Is the id a plain component?
pub fn is_plain_component(id: &str) -> (r: bool)
    ensures
        exists|p: PathView| #[trigger]
            crate::path::reads_as(id@, p) && r == plain_component(id@, p),
        r ==> free_of(id@, '/'),
{
    let p = NotePath::new(id);
    is_plain_component_as(id, &p)
}

fn is_free_of(text: &str, c: char) -> (r: bool)
    ensures
        r == free_of(text@, c),
{
    let chars = crate::text::chars_of(text);
    let mut i: usize = 0;
    while i < chars.len()
        invariant
            i <= chars@.len(),
            chars@ == text@,
            forall|j: int| 0 <= j < i ==> #[trigger] chars@[j] != c,
        decreases chars@.len() - i,
    {
        if chars[i] == c {
            proof {
                assert(text@[i as int] == c);
            }
            return false;
        }
        i = i + 1;
    }
    true
}

/// Where a line's audio lives under `dir`, for an id read as `p`.
pub fn line_audio_path_as(dir: &NotePath, id: &str, p: &NotePath) -> (r: Result<
    NotePath,
    DraftError,
>)
    ensures
        match r {
            Ok(path) => plain_line_id(id@, p@) && path@ == below(audio_dir_of(dir@), wav_name(id@)),
            Err(e) => !plain_line_id(id@, p@) && e@ == (ErrorView::BadId {
                id: id@,
                path: audio_dir_of(dir@),
            }),
        },
{
    let audio = dir.child(AUDIO_DIR);
    if !is_plain_component_as(id, p) || !is_free_of(id, '.') {
        return Err(DraftError::BadId { id: owned(id), path: audio });
    }
    let mut name = owned(id);
    name.push_str(".wav");
    Ok(audio.child(&name))
}

/// Where a line's audio lives under `dir`, with the id validated first.
pub fn line_audio_path_in(dir: &NotePath, id: &str) -> (r: Result<NotePath, DraftError>)
    ensures
        exists|p: PathView| #[trigger]
            crate::path::reads_as(id@, p) && match r {
                Ok(path) => plain_line_id(id@, p) && path@ == below(
                    audio_dir_of(dir@),
                    wav_name(id@),
                ),
                Err(e) => !plain_line_id(id@, p) && e@ == (ErrorView::BadId {
                    id: id@,
                    path: audio_dir_of(dir@),
                }),
            },
        r is Ok ==> free_of(id@, '/'),
{
    let p = NotePath::new(id);
    line_audio_path_as(dir, id, &p)
}

// ---------------------------------------------------------------------------
// Audio
// ---------------------------------------------------------------------------

/// The error type of the audio encoder.
#[verifier::external_type_specification]
#[verifier::external_body]
pub struct ExHoundError(hound::Error);

/// The bytes `hound` writes for these 16-bit mono samples at that rate.
pub uninterp spec fn wav_file(samples: Seq<i16>, sample_rate: u32) -> Seq<u8>;

/// How many bytes of a mono file stand in front of its samples.
pub const WAV_HEADER_LEN: usize = 44;

/// The samples stand behind the header, each as two bytes with the low one
/// first, and nothing comes after them.
pub open spec fn holds_samples(file: Seq<u8>, samples: Seq<i16>) -> bool {
    &&& file.len() == WAV_HEADER_LEN + 2 * samples.len()
    &&& forall|i: int|
        0 <= i < samples.len() ==> file[WAV_HEADER_LEN + 2 * i] + 256 * file[WAV_HEADER_LEN + 2 * i
            + 1] == pattern_of(#[trigger] samples[i])
}

/// The 16-bit pattern of a sample, as a number.
pub open spec fn pattern_of(sample: i16) -> int {
    if sample < 0 {
        sample + 65536
    } else {
        sample as int
    }
}

/// `hound::WavWriter` over a buffer in memory: `new`, `write_sample` for each
/// sample in turn, `finalize`. One channel, 16 bits per sample, integers. The
/// bytes are a function of the samples and the rate, and hold the samples behind
/// a header; a buffer in memory takes everything that is written to it. The
/// samples must be few enough for the file's 32-bit lengths, and the rate for its
/// 32-bit byte rate: the encoder overflows otherwise.
#[verifier::external_body]
pub(crate) fn encode_mono_wav(samples: &[i16], sample_rate: u32) -> (r: Result<Vec<u8>, hound::Error>)
    requires
        samples@.len() <= MAX_WAV_SAMPLES,
        0 < sample_rate < 0x8000_0000,
    ensures
        r is Ok,
        r.unwrap()@ == wav_file(samples@, sample_rate),
        holds_samples(r.unwrap()@, samples@),
{
    let sample_format = hound::SampleFormat::Int;
    let spec = hound::WavSpec { channels: 1, sample_rate, bits_per_sample: 16, sample_format };
    let mut buffer = std::io::Cursor::new(Vec::new());
    let mut writer = hound::WavWriter::new(&mut buffer, spec)?;
    samples.iter().try_for_each(|s| writer.write_sample(*s))?;
    writer.finalize()?;
    Ok(buffer.into_inner())
}

/// `Display` of a `hound::Error`, for the message of an error: nothing is
/// promised of the text.
#[verifier::external_body]
pub(crate) fn hound_reason(e: &hound::Error) -> (r: String) {
    e.to_string()
}

/// A stored file gives back exactly the samples it was made of: no two lists of
/// samples are stored as the same bytes.
pub proof fn stored_audio_gives_back_its_samples(file: Seq<u8>, a: Seq<i16>, b: Seq<i16>)
    requires
        holds_samples(file, a),
        holds_samples(file, b),
    ensures
        a == b,
{
    assert forall|i: int| 0 <= i < a.len() implies a[i] == b[i] by {
        assert(pattern_of(a[i]) == pattern_of(b[i]));
    }
    assert(a =~= b);
}

} // verus!
