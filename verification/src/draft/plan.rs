//! Appending, correcting and moving lines, and carrying one from a draft into
//! another.

use crate::draft::error::{DraftError, ErrorView};
use crate::draft::handle::{
    adds_a_line, audio_dir_of, audio_field, change_of, close, dirty_steps, encode_mono_wav, find_line,
    first_place, free_of, holds_samples, hound_reason, lemma_first_place, line_audio_path_as,
    line_audio_path_in, live_change, parallel, plain_line_id, state_after, steps_view, wav_file,
    wav_name, AUDIO_DIR, LINES_FILE, MAX_WAV_SAMPLES, META_FILE, TARGET_SAMPLE_RATE, Draft,
    DraftStep, DraftView, LinePlan, LiveChange, MovePlan, PlanView, StepView,
};
use crate::draft::log::{
    apply_edit, edited, is_settled, opt_place, reposition, repositioned, settled, LogTail,
    ParsedLines, ParsedView,
};
use crate::draft::record::{
    is_live, lines_view, EditRecord, EditView, EntryView, LineRecord, LineView, LogEntry,
    MoveRecord, MoveView, SessionRecord,
};
use crate::ids::{fresh_id, is_fresh_id};
use crate::path::{below, reads_as, NotePath, PathView};
use crate::stamp::{now, Stamp};
use crate::text::{opt_str, opt_text, owned, same_text};
use vstd::prelude::*;
use vstd::string::*;

verus! {

// ---------------------------------------------------------------------------
// Appending
// ---------------------------------------------------------------------------

/// What the caller hands over to be appended.
#[derive(Debug, PartialEq, Eq)]
pub struct NewLine {
    /// The transcribed text.
    pub text: String,
    /// Key-release time, from the caller.
    pub spoken_at: Stamp,
    /// The 16 kHz mono audio the transcriber consumed. May be empty.
    pub samples: Vec<i16>,
    /// Transcription duration, if measured.
    pub transcribe_ms: Option<u64>,
    /// The model refused this utterance.
    pub failed: bool,
}

/// The record a new line is written as.
pub open spec fn new_record(new: NewLine, id: Seq<char>) -> LineView {
    LineView {
        id,
        spoken_at: new.spoken_at,
        text: new.text@,
        original: None,
        deleted: false,
        audio: audio_field(id),
        transcribe_ms: new.transcribe_ms,
        failed: new.failed,
    }
}

/// What appending a new line writes: the audio, then the record, then the
/// metadata. A refused line without words is not counted.
pub open spec fn append_plan(d: DraftView, new: NewLine, id: Seq<char>, wav: Seq<u8>) -> PlanView {
    let record = new_record(new, id);
    let change = if new.failed && new.text@.len() == 0 {
        LiveChange::Same
    } else {
        LiveChange::Up
    };
    PlanView {
        steps: seq![
            StepView::NewFile { path: below(audio_dir_of(d.dir), wav_name(id)), bytes: wav },
            StepView::Append { record: EntryView::Line(record), settles: Some(change) },
        ] + dirty_steps(d.meta.dirty),
        record,
    }
}

/// The text of a record's audio field.
fn audio_field_of(id: &str) -> (r: String)
    ensures
        r@ == audio_field(id@),
{
    let mut out = owned(AUDIO_DIR);
    out.push_str("/");
    out.push_str(id);
    out.push_str(".wav");
    proof {
        assert(out@ =~= audio_field(id@));
    }
    out
}

/// The path of a line's audio file, for an id the store made itself.
fn own_audio_path(dir: &NotePath, id: &str) -> (r: NotePath)
    ensures
        r@ == below(audio_dir_of(dir@), wav_name(id@)),
{
    let mut name = owned(id);
    name.push_str(".wav");
    dir.child(AUDIO_DIR).child(&name)
}

impl Draft {
    /// The draft directory.
    pub fn dir(&self) -> (r: &NotePath)
        ensures
            r@ == self@.dir,
    {
        &self.dir
    }

    /// How many live lines this draft holds right now.
    pub fn line_count(&self) -> (r: usize)
        ensures
            r == self@.lines,
    {
        self.lines
    }

    /// The draft id.
    pub fn id(&self) -> (r: &str)
        ensures
            r@ == self@.meta.id,
    {
        &self.meta.id
    }

    /// Whether there are lines not yet written to the saved file.
    pub fn dirty(&self) -> (r: bool)
        ensures
            r == self@.meta.dirty,
    {
        self.meta.dirty
    }

    /// Path of the append-only line log.
    pub fn lines_path(&self) -> (r: NotePath)
        ensures
            r@ == below(self@.dir, LINES_FILE@),
    {
        self.dir.child(LINES_FILE)
    }

    /// Path of the metadata file.
    pub fn meta_path(&self) -> (r: NotePath)
        ensures
            r@ == below(self@.dir, META_FILE@),
    {
        self.dir.child(META_FILE)
    }

    /// Directory holding the per-line audio.
    pub fn audio_dir(&self) -> (r: NotePath)
        ensures
            r@ == audio_dir_of(self@.dir),
    {
        self.dir.child(AUDIO_DIR)
    }

    /// Where one line's audio lives, with the id validated first.
    pub fn line_audio_path(&self, id: &str) -> (r: Result<NotePath, DraftError>)
        ensures
            exists|p: PathView| #[trigger]
                reads_as(id@, p) && match r {
                    Ok(path) => plain_line_id(id@, p) && path@ == below(
                        audio_dir_of(self@.dir),
                        wav_name(id@),
                    ),
                    Err(e) => !plain_line_id(id@, p) && e@ == (ErrorView::BadId {
                        id: id@,
                        path: audio_dir_of(self@.dir),
                    }),
                },
            r is Ok ==> free_of(id@, '/'),
    {
        line_audio_path_in(&self.dir, id)
    }

    /// Takes note of one write of a plan that has succeeded. The count of lines
    /// must have room for one more where the write adds one.
    pub fn after(&mut self, step: &DraftStep)
        requires
            adds_a_line(step@) ==> old(self)@.lines < usize::MAX,
        ensures
            final(self)@ == state_after(old(self)@, step@),
    {
        match step {
            DraftStep::NewFile { .. } => {},
            DraftStep::Append { settles, .. } => {
                self.needs_newline = false;
                if let Some(change) = settles {
                    match change {
                        LiveChange::Same => {},
                        LiveChange::Up => {
                            self.lines = self.lines + 1;
                        },
                        LiveChange::Down => {
                            if self.lines > 0 {
                                self.lines = self.lines - 1;
                            }
                        },
                    }
                    self.meta.dirty = true;
                }
            },
            DraftStep::Meta => {},
        }
    }

    /// Keeps the record of an append whose writes are all done.
    pub fn appended(&mut self, record: LineRecord)
        ensures
            final(self)@ == (DraftView { last: Some(record@), ..old(self)@ }),
    {
        self.last = Some(record);
    }

    /// Plans the append of one utterance, under a given id and with its audio
    /// already encoded.
    pub fn append_line_as(&self, new: NewLine, id: String, wav: Vec<u8>) -> (r: LinePlan)
        ensures
            r@ == append_plan(self@, new, id@, wav@),
    {
        let audio = audio_field_of(&id);
        let path = own_audio_path(&self.dir, &id);
        let silent = new.failed && same_text(&new.text, "");
        proof {
            reveal_strlit("");
            assert(new.text@ =~= ""@ <==> new.text@.len() == 0);
        }
        let record = LineRecord {
            id,
            spoken_at: new.spoken_at,
            text: new.text,
            original: None,
            deleted: false,
            audio,
            transcribe_ms: new.transcribe_ms,
            failed: new.failed,
        };
        let change = if silent {
            LiveChange::Same
        } else {
            LiveChange::Up
        };
        let mut steps: Vec<DraftStep> = Vec::new();
        steps.push(DraftStep::NewFile { path, bytes: wav });
        let line = record.clone();
        steps.push(DraftStep::Append { record: LogEntry::Line(line), settles: Some(change) });
        let ghost before = steps_view(steps@);
        close(&mut steps, self.meta.dirty);
        let r = LinePlan { steps, record };
        proof {
            let want = append_plan(self@, new, id@, wav@);
            assert(before =~= seq![want.steps[0], want.steps[1]]);
            assert(r@.steps =~= want.steps);
        }
        r
    }

    /// Plans the append of one utterance: audio, then record, then metadata.
    ///
    /// The order is deliberate: the audio is there before the record that names
    /// it, so a crash can orphan audio but can never produce a record that
    /// points at a missing file. The id is fresh.
    pub fn append_line(&self, new: NewLine) -> (r: Result<LinePlan, DraftError>)
        requires
            new.samples@.len() <= MAX_WAV_SAMPLES,
        ensures
            exists|id: Seq<char>| #[trigger]
                is_fresh_id(id) && (r matches Ok(plan) && plan@ == append_plan(
                    self@,
                    new,
                    id,
                    wav_file(new.samples@, TARGET_SAMPLE_RATE),
                )),
            holds_samples(wav_file(new.samples@, TARGET_SAMPLE_RATE), new.samples@),
    {
        let id = fresh_id();
        match encode_mono_wav(&new.samples, TARGET_SAMPLE_RATE) {
            Ok(wav) => Ok(self.append_line_as(new, id, wav)),
            Err(e) => Err(
                DraftError::Wav { path: own_audio_path(&self.dir, &id), reason: hound_reason(&e) },
            ),
        }
    }

    /// Plans a marker that says a later sitting follows.
    pub fn mark_session_at(&self, at: Stamp) -> (r: Vec<DraftStep>)
        ensures
            steps_view(r@) == session_steps(self@, at),
    {
        let mut steps: Vec<DraftStep> = Vec::new();
        steps.push(
            DraftStep::Append {
                record: LogEntry::Session(SessionRecord { session_at: at }),
                settles: Some(LiveChange::Same),
            },
        );
        let ghost before = steps_view(steps@);
        close(&mut steps, self.meta.dirty);
        proof {
            assert(before =~= seq![session_steps(self@, at)[0]]);
            assert(steps_view(steps@) =~= session_steps(self@, at));
        }
        steps
    }

    /// Plans a marker that says a later sitting follows, starting now.
    pub fn mark_session(&self) -> (r: Vec<DraftStep>)
        ensures
            exists|at: Stamp| steps_view(r@) == #[trigger] session_steps(self@, at),
    {
        self.mark_session_at(now())
    }
}

/// What marking a new sitting writes.
pub open spec fn session_steps(d: DraftView, at: Stamp) -> Seq<StepView> {
    seq![
        StepView::Append {
            record: EntryView::Session(SessionRecord { session_at: at }),
            settles: Some(LiveChange::Same),
        },
    ] + dirty_steps(d.meta.dirty)
}

// ---------------------------------------------------------------------------
// Correcting
// ---------------------------------------------------------------------------

/// The words a line was written with, as far as a folded line can tell.
pub open spec fn spoken_text(line: LineView) -> Seq<char> {
    match line.original {
        Some(t) => t,
        None => line.text,
    }
}

/// How a folded line reads after one more correction.
pub open spec fn corrected(line: LineView, failed_at_birth: bool, edit: EditView) -> LineView {
    let changed = edited(line, edit);
    LineView {
        original: if !failed_at_birth && changed.text != spoken_text(line) {
            Some(spoken_text(line))
        } else {
            None
        },
        failed: failed_at_birth && changed.text.len() == 0,
        ..changed
    }
}

/// A requested change, where it would change anything.
pub open spec fn if_new<T>(wanted: Option<T>, current: T) -> Option<T> {
    match wanted {
        Some(w) => if w == current {
            None
        } else {
            Some(w)
        },
        None => None,
    }
}

/// The correction record a request comes down to: the fields that already read
/// that way are left out.
pub open spec fn edit_for(
    line: LineView,
    id: Seq<char>,
    text: Option<Seq<char>>,
    deleted: Option<bool>,
    transcribe_ms: Option<u64>,
    at: Stamp,
) -> EditView {
    EditView {
        edit_of: id,
        at,
        text: if_new(text, line.text),
        deleted: if_new(deleted, line.deleted),
        transcribe_ms,
    }
}

/// What correcting a line writes. A request that changes neither the text nor
/// the deletion writes nothing.
pub open spec fn correct_plan(
    d: DraftView,
    parsed: ParsedView,
    id: Seq<char>,
    text: Option<Seq<char>>,
    deleted: Option<bool>,
    transcribe_ms: Option<u64>,
    at: Stamp,
) -> Result<PlanView, ErrorView> {
    match first_place(parsed.lines, id) {
        None => Err(ErrorView::NoSuchLine { id, path: d.dir }),
        Some(p) => {
            let line = parsed.lines[p];
            let edit = edit_for(line, id, text, deleted, transcribe_ms, at);
            if edit.text is None && edit.deleted is None {
                Ok(PlanView { steps: Seq::empty(), record: line })
            } else {
                let record = corrected(line, parsed.base_failed[p], edit);
                Ok(
                    PlanView {
                        steps: seq![
                            StepView::Append {
                                record: EntryView::Edit(edit),
                                settles: Some(live_change(is_live(line), is_live(record))),
                            },
                        ] + dirty_steps(d.meta.dirty),
                        record,
                    },
                )
            }
        },
    }
}

/// `r` is the outcome `want` describes.
pub open spec fn is_outcome(r: Result<LinePlan, DraftError>, want: Result<PlanView, ErrorView>) -> bool {
    match (r, want) {
        (Ok(plan), Ok(w)) => plan@ == w,
        (Err(e), Err(w)) => e@ == w,
        _ => false,
    }
}

impl Draft {
    /// Plans a correction, made at a given moment.
    ///
    /// `parsed` is the log as it stands. A field that already reads as asked is
    /// no change, and a request without a change writes nothing; the duration
    /// of a transcription alone is none either.
    pub fn correct(
        &self,
        parsed: &ParsedLines,
        id: &str,
        text: Option<String>,
        deleted: Option<bool>,
        transcribe_ms: Option<u64>,
        at: Stamp,
    ) -> (r: Result<LinePlan, DraftError>)
        requires
            parallel(parsed@),
        ensures
            is_outcome(
                r,
                correct_plan(self@, parsed@, id@, opt_text(text), deleted, transcribe_ms, at),
            ),
    {
        proof {
            lemma_first_place(parsed@.lines, id@);
        }
        let p: usize = match find_line(&parsed.lines, id) {
            Some(p) => p,
            None => {
                return Err(DraftError::NoSuchLine { id: owned(id), path: self.dir.clone() });
            },
        };
        proof {
            assert(parsed@.lines[p as int] == parsed.lines@[p as int]@);
        }
        let failed_at_birth: bool = parsed.base_failed[p];
        let mut record = parsed.lines[p].clone();
        let ghost line = record@;
        let text = match text {
            Some(t) => if same_text(&t, &record.text) {
                None
            } else {
                Some(t)
            },
            None => None,
        };
        let deleted: Option<bool> = match deleted {
            Some(d) => if d == record.deleted {
                None
            } else {
                Some(d)
            },
            None => None,
        };
        if text.is_none() && deleted.is_none() {
            let steps: Vec<DraftStep> = Vec::new();
            proof {
                assert(steps_view(steps@) =~= Seq::<StepView>::empty());
            }
            return Ok(LinePlan { steps, record });
        }
        let edit = EditRecord { edit_of: owned(id), at, text, deleted, transcribe_ms };
        let written = edit.clone();
        let ghost change = edit@;
        let was_live = !record.deleted && !record.failed;
        let base = match &record.original {
            Some(t) => t.clone(),
            None => record.text.clone(),
        };
        apply_edit(&mut record, edit);
        let differs = !same_text(&record.text, &base);
        record.original = if !failed_at_birth && differs {
            Some(base)
        } else {
            None
        };
        record.failed = failed_at_birth && same_text(&record.text, "");
        proof {
            reveal_strlit("");
            assert(record.text@ =~= ""@ <==> record.text@.len() == 0);
            assert(record@ == corrected(line, failed_at_birth, change));
        }
        let now_live = !record.deleted && !record.failed;
        let settles = change_of(was_live, now_live);
        let mut steps: Vec<DraftStep> = Vec::new();
        steps.push(DraftStep::Append { record: LogEntry::Edit(written), settles: Some(settles) });
        let ghost before = steps_view(steps@);
        close(&mut steps, self.meta.dirty);
        proof {
            assert(before =~= seq![
                StepView::Append { record: EntryView::Edit(change), settles: Some(settles) },
            ]);
        }
        Ok(LinePlan { steps, record })
    }

    /// Plans a change of a line's text.
    pub fn edit_line(&self, parsed: &ParsedLines, id: &str, text: &str) -> (r: Result<
        LinePlan,
        DraftError,
    >)
        requires
            parallel(parsed@),
        ensures
            exists|at: Stamp|
                is_outcome(
                    r,
                    #[trigger] correct_plan(self@, parsed@, id@, Some(text@), None, None, at),
                ),
    {
        self.correct(parsed, id, Some(owned(text)), None, None, now())
    }

    /// Plans a change of a line's text by a second transcription, which also
    /// has a duration worth recording.
    pub fn retranscribed_line(
        &self,
        parsed: &ParsedLines,
        id: &str,
        text: &str,
        transcribe_ms: Option<u64>,
    ) -> (r: Result<LinePlan, DraftError>)
        requires
            parallel(parsed@),
        ensures
            exists|at: Stamp|
                is_outcome(
                    r,
                    #[trigger] correct_plan(
                        self@,
                        parsed@,
                        id@,
                        Some(text@),
                        None,
                        transcribe_ms,
                        at,
                    ),
                ),
    {
        self.correct(parsed, id, Some(owned(text)), None, transcribe_ms, now())
    }

    /// Plans the soft delete of a line, or its return.
    pub fn set_deleted(&self, parsed: &ParsedLines, id: &str, deleted: bool) -> (r: Result<
        LinePlan,
        DraftError,
    >)
        requires
            parallel(parsed@),
        ensures
            exists|at: Stamp|
                is_outcome(
                    r,
                    #[trigger] correct_plan(self@, parsed@, id@, None, Some(deleted), None, at),
                ),
    {
        self.correct(parsed, id, None, Some(deleted), None, now())
    }
}

// ---------------------------------------------------------------------------
// Moving
// ---------------------------------------------------------------------------

/// What moving a line writes, and the order of the lines after it. A move to
/// where the line already is writes nothing.
pub open spec fn move_plan(
    d: DraftView,
    lines: Seq<LineView>,
    id: Seq<char>,
    after: Option<Seq<char>>,
    at: Stamp,
) -> Result<(Seq<StepView>, Seq<LineView>), ErrorView> {
    match first_place(lines, id) {
        None => Err(ErrorView::NoSuchLine { id, path: d.dir }),
        Some(from) => {
            let anchor = match after {
                None => None,
                Some(a) => first_place(lines, a),
            };
            if after is Some && anchor is None {
                Err(ErrorView::NoSuchLine { id: after.unwrap(), path: d.dir })
            } else if settled(from, anchor) {
                Ok((Seq::empty(), lines))
            } else {
                Ok(
                    (
                        seq![
                            StepView::Append {
                                record: EntryView::Move(MoveView { move_of: id, at, after }),
                                settles: Some(LiveChange::Same),
                            },
                        ] + dirty_steps(d.meta.dirty),
                        repositioned(lines, from, anchor),
                    ),
                )
            }
        },
    }
}

/// `r` is the outcome `want` describes.
pub open spec fn is_move_outcome(
    r: Result<MovePlan, DraftError>,
    want: Result<(Seq<StepView>, Seq<LineView>), ErrorView>,
) -> bool {
    match (r, want) {
        (Ok(plan), Ok(w)) => steps_view(plan.steps@) == w.0 && lines_view(plan.lines@) == w.1,
        (Err(e), Err(w)) => e@ == w,
        _ => false,
    }
}

impl Draft {
    /// Plans a move of a line to just after `after`, or to the top, made at a
    /// given moment. `lines` is the transcript as it stands.
    pub fn move_line_at(
        &self,
        lines: Vec<LineRecord>,
        id: &str,
        after: Option<&str>,
        at: Stamp,
    ) -> (r: Result<MovePlan, DraftError>)
        ensures
            is_move_outcome(r, move_plan(self@, lines_view(lines@), id@, opt_str(after), at)),
    {
        let mut lines = lines;
        let ghost start = lines_view(lines@);
        proof {
            lemma_first_place(start, id@);
        }
        let from: usize = match find_line(&lines, id) {
            Some(p) => p,
            None => {
                return Err(DraftError::NoSuchLine { id: owned(id), path: self.dir.clone() });
            },
        };
        let anchor: Option<usize> = match after {
            None => None,
            Some(a) => {
                proof {
                    lemma_first_place(start, a@);
                }
                match find_line(&lines, a) {
                    Some(p) => Some(p),
                    None => {
                        return Err(
                            DraftError::NoSuchLine { id: owned(a), path: self.dir.clone() },
                        );
                    },
                }
            },
        };
        let mut steps: Vec<DraftStep> = Vec::new();
        if is_settled(from, anchor) {
            proof {
                assert(steps_view(steps@) =~= Seq::<StepView>::empty());
            }
            return Ok(MovePlan { steps, lines });
        }
        let after_text = match after {
            Some(a) => Some(owned(a)),
            None => None,
        };
        let moved = MoveRecord { move_of: owned(id), at, after: after_text };
        let ghost written = moved@;
        steps.push(
            DraftStep::Append { record: LogEntry::Move(moved), settles: Some(LiveChange::Same) },
        );
        let ghost before = steps_view(steps@);
        close(&mut steps, self.meta.dirty);
        let ghost old_lines = lines@;
        reposition(&mut lines, from, anchor);
        proof {
            assert(before =~= seq![
                StepView::Append {
                    record: EntryView::Move(written),
                    settles: Some(LiveChange::Same),
                },
            ]);
            assert(lines_view(lines@) =~= repositioned(start, from as int, opt_place(anchor)));
        }
        Ok(MovePlan { steps, lines })
    }

    /// Plans a move of a line to just after `after`, or to the top.
    pub fn move_line(&self, lines: Vec<LineRecord>, id: &str, after: Option<&str>) -> (r: Result<
        MovePlan,
        DraftError,
    >)
        ensures
            exists|at: Stamp|
                is_move_outcome(
                    r,
                    #[trigger] move_plan(self@, lines_view(lines@), id@, opt_str(after), at),
                ),
    {
        self.move_line_at(lines, id, after, now())
    }
}

// ---------------------------------------------------------------------------
// From one draft into another
// ---------------------------------------------------------------------------

/// One line lifted out of a draft, on its way into another: what has to be
/// written again for the line to fold the same way in its new home.
#[derive(Debug, PartialEq, Eq)]
pub struct MovedLine {
    /// The draft id this came out of.
    pub source: String,
    /// The line id it came from.
    pub line: String,
    /// The words the line's own record was written with.
    pub base_text: String,
    /// The folded text.
    pub text: String,
    /// The source's key-release stamp, carried untouched.
    pub spoken_at: Stamp,
    /// How long the model took.
    pub transcribe_ms: Option<u64>,
    /// Whether the line's own record was written as a failure.
    pub failed_at_birth: bool,
    /// The audio's bytes, or `None` when the source's file is not there.
    pub audio: Option<Vec<u8>>,
}

/// What a [`MovedLine`] holds.
pub struct MovedView {
    pub source: Seq<char>,
    pub line: Seq<char>,
    pub base_text: Seq<char>,
    pub text: Seq<char>,
    pub spoken_at: Stamp,
    pub transcribe_ms: Option<u64>,
    pub failed_at_birth: bool,
    pub audio: Option<Seq<u8>>,
}

/// What optional bytes hold.
pub open spec fn opt_bytes(b: Option<Vec<u8>>) -> Option<Seq<u8>> {
    match b {
        Some(b) => Some(b@),
        None => None,
    }
}

impl View for MovedLine {
    type V = MovedView;

    open spec fn view(&self) -> MovedView {
        MovedView {
            source: self.source@,
            line: self.line@,
            base_text: self.base_text@,
            text: self.text@,
            spoken_at: self.spoken_at,
            transcribe_ms: self.transcribe_ms,
            failed_at_birth: self.failed_at_birth,
            audio: opt_bytes(self.audio),
        }
    }
}

impl MovedLine {
    /// The draft this line came out of.
    pub fn source(&self) -> (r: &str)
        ensures
            r@ == self@.source,
    {
        &self.source
    }

    /// The line it came from.
    pub fn line(&self) -> (r: &str)
        ensures
            r@ == self@.line,
    {
        &self.line
    }

    /// The words as the note renders them.
    pub fn text(&self) -> (r: &str)
        ensures
            r@ == self@.text,
    {
        &self.text
    }

    /// Whether the source's audio was there to copy.
    pub fn has_audio(&self) -> (r: bool)
        ensures
            r == self@.audio is Some,
    {
        self.audio.is_some()
    }
}

/// The line at place `p` of a read log, lifted out.
pub open spec fn lifted(
    d: DraftView,
    parsed: ParsedView,
    p: int,
    id: Seq<char>,
    audio: Option<Seq<u8>>,
) -> MovedView {
    MovedView {
        source: d.meta.id,
        line: id,
        base_text: parsed.base_texts[p],
        text: parsed.lines[p].text,
        spoken_at: parsed.lines[p].spoken_at,
        transcribe_ms: parsed.lines[p].transcribe_ms,
        failed_at_birth: parsed.base_failed[p],
        audio,
    }
}

/// What taking a line in writes, after the divider, where there is one: the
/// audio, the line as it was first spoken, one correction where it reads
/// differently now, and the metadata.
pub open spec fn import_steps(
    dir: PathView,
    dirty: bool,
    moved: MovedView,
    id: Seq<char>,
    at: Stamp,
) -> Seq<StepView> {
    let base = import_record(moved, id);
    let change = live_change(false, is_live(import_folded(moved, id)));
    let audio = match moved.audio {
        Some(bytes) => seq![
            StepView::NewFile { path: below(audio_dir_of(dir), wav_name(id)), bytes },
        ],
        None => Seq::empty(),
    };
    let records = if moved.text != moved.base_text {
        seq![
            StepView::Append { record: EntryView::Line(base), settles: None },
            StepView::Append {
                record: EntryView::Edit(import_edit(moved, id, at)),
                settles: Some(change),
            },
        ]
    } else {
        seq![StepView::Append { record: EntryView::Line(base), settles: Some(change) }]
    };
    audio + records + dirty_steps(dirty)
}

/// The record an arriving line is written as.
pub open spec fn import_record(moved: MovedView, id: Seq<char>) -> LineView {
    LineView {
        id,
        spoken_at: moved.spoken_at,
        text: moved.base_text,
        original: None,
        deleted: false,
        audio: audio_field(id),
        transcribe_ms: moved.transcribe_ms,
        failed: moved.failed_at_birth,
    }
}

/// The correction that brings an arriving line to how it reads.
pub open spec fn import_edit(moved: MovedView, id: Seq<char>, at: Stamp) -> EditView {
    EditView { edit_of: id, at, text: Some(moved.text), deleted: None, transcribe_ms: None }
}

/// How an arriving line reads.
pub open spec fn import_folded(moved: MovedView, id: Seq<char>) -> LineView {
    LineView {
        text: moved.text,
        original: if !moved.failed_at_birth && moved.text != moved.base_text {
            Some(moved.base_text)
        } else {
            None
        },
        failed: moved.failed_at_birth && moved.text.len() == 0,
        ..import_record(moved, id)
    }
}

/// What taking a line in writes. A batch is set off by one divider, written
/// with its first line, unless the log is empty or ends in one already.
pub open spec fn import_plan(
    d: DraftView,
    moved: MovedView,
    divide: bool,
    tail: LogTail,
    id: Seq<char>,
    divided_at: Stamp,
    at: Stamp,
) -> Result<PlanView, ErrorView> {
    if d.meta.id == moved.source {
        Err(ErrorView::SameDraft { path: d.dir })
    } else {
        let record = import_folded(moved, id);
        if divide && tail == LogTail::Record {
            Ok(
                PlanView {
                    steps: session_steps(d, divided_at) + import_steps(d.dir, true, moved, id, at),
                    record,
                },
            )
        } else {
            Ok(PlanView { steps: import_steps(d.dir, d.meta.dirty, moved, id, at), record })
        }
    }
}

proof fn lemma_steps_push(a: Seq<DraftStep>, s: DraftStep)
    ensures
        steps_view(a.push(s)) == steps_view(a).push(s@),
{
    assert(steps_view(a.push(s)) =~= steps_view(a).push(s@));
}

/// A copy of some bytes.
pub fn copy_bytes(bytes: &Vec<u8>) -> (r: Vec<u8>)
    ensures
        r@ == bytes@,
{
    let mut out: Vec<u8> = Vec::new();
    out.extend_from_slice(bytes);
    proof {
        assert(out@ =~= bytes@);
    }
    out
}

impl Draft {
    /// Lifts one line out of this draft, for an id read as `name`, with the
    /// audio that was found for it. `parsed` is the log as it stands.
    pub fn export_line_as(
        &self,
        parsed: &ParsedLines,
        id: &str,
        name: &NotePath,
        audio: Option<Vec<u8>>,
    ) -> (r: Result<MovedLine, DraftError>)
        requires
            parallel(parsed@),
        ensures
            match r {
                Ok(moved) => {
                    let p = first_place(parsed@.lines, id@);
                    &&& p is Some
                    &&& plain_line_id(id@, name@)
                    &&& moved@ == lifted(self@, parsed@, p.unwrap(), id@, opt_bytes(audio))
                },
                Err(e) => if first_place(parsed@.lines, id@) is None {
                    e@ == (ErrorView::NoSuchLine { id: id@, path: self@.dir })
                } else {
                    !plain_line_id(id@, name@) && e@ == (ErrorView::BadId {
                        id: id@,
                        path: audio_dir_of(self@.dir),
                    })
                },
            },
    {
        proof {
            lemma_first_place(parsed@.lines, id@);
        }
        let p: usize = match find_line(&parsed.lines, id) {
            Some(p) => p,
            None => {
                return Err(DraftError::NoSuchLine { id: owned(id), path: self.dir.clone() });
            },
        };
        match line_audio_path_as(&self.dir, id, name) {
            Ok(_) => {},
            Err(e) => {
                return Err(e);
            },
        }
        let line = &parsed.lines[p];
        proof {
            assert(parsed@.lines[p as int] == parsed.lines@[p as int]@);
            assert(parsed@.base_texts.len() == parsed.base_texts@.len());
            assert(parsed@.base_texts[p as int] == parsed.base_texts@[p as int]@);
        }
        Ok(
            MovedLine {
                source: self.meta.id.clone(),
                line: owned(id),
                base_text: parsed.base_texts[p].clone(),
                text: line.text.clone(),
                spoken_at: line.spoken_at,
                transcribe_ms: line.transcribe_ms,
                failed_at_birth: parsed.base_failed[p],
                audio,
            },
        )
    }

    /// Lifts one line out of this draft, ready for another draft to take it.
    /// Nothing is written. The audio is the file named by the line's id, or
    /// `None` where that file is not there.
    pub fn export_line(&self, parsed: &ParsedLines, id: &str, audio: Option<Vec<u8>>) -> (r: Result<
        MovedLine,
        DraftError,
    >)
        requires
            parallel(parsed@),
        ensures
            exists|name: PathView| #[trigger]
                reads_as(id@, name) && match r {
                    Ok(moved) => {
                        let p = first_place(parsed@.lines, id@);
                        &&& p is Some
                        &&& plain_line_id(id@, name)
                        &&& moved@ == lifted(self@, parsed@, p.unwrap(), id@, opt_bytes(audio))
                    },
                    Err(e) => if first_place(parsed@.lines, id@) is None {
                        e@ == (ErrorView::NoSuchLine { id: id@, path: self@.dir })
                    } else {
                        !plain_line_id(id@, name) && e@ == (ErrorView::BadId {
                            id: id@,
                            path: audio_dir_of(self@.dir),
                        })
                    },
                },
            r is Ok ==> free_of(id@, '/'),
    {
        let name = NotePath::new(id);
        self.export_line_as(parsed, id, &name, audio)
    }

    /// Plans a divider above what is about to arrive, if the note needs one: a
    /// marker exactly when the last complete record of the log is something to
    /// set the arrivals off from.
    pub fn divide_arrivals(&self, tail: LogTail, at: Stamp) -> (r: Vec<DraftStep>)
        ensures
            steps_view(r@) == (if tail == LogTail::Record {
                session_steps(self@, at)
            } else {
                Seq::empty()
            }),
    {
        if tail == LogTail::Record {
            self.mark_session_at(at)
        } else {
            let steps: Vec<DraftStep> = Vec::new();
            proof {
                assert(steps_view(steps@) =~= Seq::<StepView>::empty());
            }
            steps
        }
    }

    /// Plans the arrival of a line another draft lifted out, under a given id,
    /// with the moments to stamp on the divider and on the correction.
    pub fn import_line_as(
        &self,
        moved: &MovedLine,
        divide: bool,
        tail: LogTail,
        id: String,
        divided_at: Stamp,
        at: Stamp,
    ) -> (r: Result<LinePlan, DraftError>)
        ensures
            is_outcome(r, import_plan(self@, moved@, divide, tail, id@, divided_at, at)),
    {
        if same_text(&self.meta.id, &moved.source) {
            return Err(DraftError::SameDraft { path: self.dir.clone() });
        }
        let ghost id_text = id@;
        let divides = divide && tail == LogTail::Record;
        let mut steps: Vec<DraftStep> = if divide {
            self.divide_arrivals(tail, divided_at)
        } else {
            Vec::new()
        };
        let dirty = self.meta.dirty || divides;
        let ghost head = steps_view(steps@);
        proof {
            if !divides {
                assert(head =~= Seq::<StepView>::empty());
            }
        }
        if let Some(bytes) = &moved.audio {
            let step = DraftStep::NewFile {
                path: own_audio_path(&self.dir, &id),
                bytes: copy_bytes(bytes),
            };
            let ghost before = steps@;
            steps.push(step);
            proof {
                lemma_steps_push(before, step);
            }
        }
        let ghost with_audio = steps_view(steps@);
        let record = LineRecord {
            id: id.clone(),
            spoken_at: moved.spoken_at,
            text: moved.base_text.clone(),
            original: None,
            deleted: false,
            audio: audio_field_of(&id),
            transcribe_ms: moved.transcribe_ms,
            failed: moved.failed_at_birth,
        };
        proof {
            assert(record@ == import_record(moved@, id_text));
        }
        let differs = !same_text(&moved.text, &moved.base_text);
        let mut folded = record.clone();
        if differs {
            folded.text = moved.text.clone();
        }
        folded.original = if !moved.failed_at_birth && differs {
            Some(moved.base_text.clone())
        } else {
            None
        };
        folded.failed = moved.failed_at_birth && same_text(&moved.text, "");
        proof {
            reveal_strlit("");
            assert(moved.text@ =~= ""@ <==> moved.text@.len() == 0);
            assert(folded@ == import_folded(moved@, id_text));
        }
        let change = change_of(false, !folded.deleted && !folded.failed);
        if differs {
            let edit = EditRecord {
                edit_of: id,
                at,
                text: Some(moved.text.clone()),
                deleted: None,
                transcribe_ms: None,
            };
            let ghost written = edit@;
            let first = DraftStep::Append { record: LogEntry::Line(record), settles: None };
            let second = DraftStep::Append { record: LogEntry::Edit(edit), settles: Some(change) };
            let ghost before = steps@;
            steps.push(first);
            steps.push(second);
            proof {
                lemma_steps_push(before, first);
                lemma_steps_push(before.push(first), second);
                assert(written == import_edit(moved@, id_text, at));
                assert(steps_view(steps@) =~= with_audio + seq![first@, second@]);
            }
        } else {
            let only = DraftStep::Append { record: LogEntry::Line(record), settles: Some(change) };
            let ghost before = steps@;
            steps.push(only);
            proof {
                lemma_steps_push(before, only);
                assert(steps_view(steps@) =~= with_audio + seq![only@]);
            }
        }
        close(&mut steps, dirty);
        proof {
            let rest = import_steps(self@.dir, dirty, moved@, id_text, at);
            assert(steps_view(steps@) =~= head + rest);
            assert(Seq::<StepView>::empty() + rest =~= rest);
        }
        Ok(LinePlan { steps, record: folded })
    }

    /// Plans the arrival of a line another draft lifted out. Its id is fresh;
    /// its words, its stamp and its failure are the source's.
    pub fn import_line(&self, moved: &MovedLine, divide: bool, tail: LogTail) -> (r: Result<
        LinePlan,
        DraftError,
    >)
        ensures
            exists|id: Seq<char>, divided_at: Stamp, at: Stamp|
                is_fresh_id(id) && is_outcome(
                    r,
                    #[trigger] import_plan(self@, moved@, divide, tail, id, divided_at, at),
                ),
    {
        let divided_at = now();
        let id = fresh_id();
        self.import_line_as(moved, divide, tail, id, divided_at, now())
    }
}

} // verus!
