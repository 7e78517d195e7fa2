//! The records a draft is made of.

use crate::stamp::Stamp;
use crate::text::{copy_opt, opt_text, same_opt, same_text};
use vstd::prelude::*;

verus! {

/// One utterance: a line of the log.
#[derive(Debug, PartialEq, Eq)]
pub struct LineRecord {
    /// Line id. Lexically sortable, so file order and creation order agree.
    pub id: String,
    /// When the key was released. The store never reads a clock for this.
    pub spoken_at: Stamp,
    /// The text as it will be rendered to markdown.
    pub text: String,
    /// What the model first produced, kept when the user edits `text`.
    pub original: Option<String>,
    /// Soft delete.
    pub deleted: bool,
    /// Relative path to the audio, always `audio/<id>.wav`.
    pub audio: String,
    /// How long the transcription took, in milliseconds.
    pub transcribe_ms: Option<u64>,
    /// The model could not transcribe this utterance: the line has no text and
    /// its audio is kept. On a record that was read back this is the folded
    /// state: the base record failed and the text is still empty.
    pub failed: bool,
}

/// What a [`LineRecord`] holds.
pub struct LineView {
    pub id: Seq<char>,
    pub spoken_at: Stamp,
    pub text: Seq<char>,
    pub original: Option<Seq<char>>,
    pub deleted: bool,
    pub audio: Seq<char>,
    pub transcribe_ms: Option<u64>,
    pub failed: bool,
}

impl View for LineRecord {
    type V = LineView;

    open spec fn view(&self) -> LineView {
        LineView {
            id: self.id@,
            spoken_at: self.spoken_at,
            text: self.text@,
            original: opt_text(self.original),
            deleted: self.deleted,
            audio: self.audio@,
            transcribe_ms: self.transcribe_ms,
            failed: self.failed,
        }
    }
}

impl Clone for LineRecord {
    fn clone(&self) -> (r: Self)
        ensures
            r@ == self@,
    {
        LineRecord {
            id: self.id.clone(),
            spoken_at: self.spoken_at,
            text: self.text.clone(),
            original: copy_opt(&self.original),
            deleted: self.deleted,
            audio: self.audio.clone(),
            transcribe_ms: self.transcribe_ms,
            failed: self.failed,
        }
    }
}

impl LineRecord {
    /// True when the two records hold the same.
    pub fn same(&self, other: &LineRecord) -> (r: bool)
        ensures
            r == (self@ == other@),
    {
        same_text(&self.id, &other.id) && self.spoken_at == other.spoken_at && same_text(
            &self.text,
            &other.text,
        ) && same_opt(&self.original, &other.original) && self.deleted == other.deleted
            && same_text(&self.audio, &other.audio) && same_ms(
            self.transcribe_ms,
            other.transcribe_ms,
        ) && self.failed == other.failed
    }
}

fn same_ms(a: Option<u64>, b: Option<u64>) -> (r: bool)
    ensures
        r == (a == b),
{
    match (a, b) {
        (Some(a), Some(b)) => a == b,
        (None, None) => true,
        _ => false,
    }
}

/// The contents of a list of lines.
pub open spec fn lines_view(lines: Seq<LineRecord>) -> Seq<LineView> {
    lines.map_values(|l: LineRecord| l@)
}

/// True when the line would be rendered into the note: it is not deleted, and
/// it is not a failure that still has no words.
pub open spec fn is_live(line: LineView) -> bool {
    !line.deleted && !line.failed
}

/// How many of the lines would be rendered.
pub open spec fn live_count(lines: Seq<LineView>) -> nat
    decreases lines.len(),
{
    if lines.len() == 0 {
        0
    } else {
        live_count(lines.drop_last()) + if is_live(lines.last()) {
            1nat
        } else {
            0nat
        }
    }
}

/// A correction to a line that is already in the log. A field that is absent
/// is a field the correction does not touch.
#[derive(Debug, PartialEq, Eq)]
pub struct EditRecord {
    /// The id of the line this corrects.
    pub edit_of: String,
    /// When the edit was made.
    pub at: Stamp,
    /// New text.
    pub text: Option<String>,
    /// New soft-delete state.
    pub deleted: Option<bool>,
    /// How long a second transcription took, in milliseconds.
    pub transcribe_ms: Option<u64>,
}

/// What an [`EditRecord`] holds.
pub struct EditView {
    pub edit_of: Seq<char>,
    pub at: Stamp,
    pub text: Option<Seq<char>>,
    pub deleted: Option<bool>,
    pub transcribe_ms: Option<u64>,
}

impl View for EditRecord {
    type V = EditView;

    open spec fn view(&self) -> EditView {
        EditView {
            edit_of: self.edit_of@,
            at: self.at,
            text: opt_text(self.text),
            deleted: self.deleted,
            transcribe_ms: self.transcribe_ms,
        }
    }
}

impl Clone for EditRecord {
    fn clone(&self) -> (r: Self)
        ensures
            r@ == self@,
    {
        EditRecord {
            edit_of: self.edit_of.clone(),
            at: self.at,
            text: copy_opt(&self.text),
            deleted: self.deleted,
            transcribe_ms: self.transcribe_ms,
        }
    }
}

/// A change to where a line sits in the transcript.
#[derive(Debug, PartialEq, Eq)]
pub struct MoveRecord {
    /// The id of the line that moved.
    pub move_of: String,
    /// When it was moved.
    pub at: Stamp,
    /// The line this one now sits immediately after; `None` means "to the top".
    pub after: Option<String>,
}

/// What a [`MoveRecord`] holds.
pub struct MoveView {
    pub move_of: Seq<char>,
    pub at: Stamp,
    pub after: Option<Seq<char>>,
}

impl View for MoveRecord {
    type V = MoveView;

    open spec fn view(&self) -> MoveView {
        MoveView { move_of: self.move_of@, at: self.at, after: opt_text(self.after) }
    }
}

impl Clone for MoveRecord {
    fn clone(&self) -> (r: Self)
        ensures
            r@ == self@,
    {
        MoveRecord { move_of: self.move_of.clone(), at: self.at, after: copy_opt(&self.after) }
    }
}

/// A marker saying that everything after it was dictated in a later sitting.
#[derive(Debug, Clone, Copy, PartialEq, Eq, Structural)]
pub struct SessionRecord {
    /// When the sitting that follows it started.
    pub session_at: Stamp,
}

/// Anything the log can hold a record of.
#[derive(Debug, PartialEq, Eq)]
pub enum LogEntry {
    Line(LineRecord),
    Edit(EditRecord),
    Move(MoveRecord),
    Session(SessionRecord),
    /// Bytes that are none of the four record shapes.
    Malformed,
}

/// What a piece of the log holds.
pub enum EntryView {
    /// Nothing but whitespace.
    Blank,
    Line(LineView),
    Edit(EditView),
    Move(MoveView),
    Session(SessionRecord),
    Malformed,
}

impl View for LogEntry {
    type V = EntryView;

    open spec fn view(&self) -> EntryView {
        match self {
            LogEntry::Line(l) => EntryView::Line(l@),
            LogEntry::Edit(e) => EntryView::Edit(e@),
            LogEntry::Move(m) => EntryView::Move(m@),
            LogEntry::Session(s) => EntryView::Session(*s),
            LogEntry::Malformed => EntryView::Malformed,
        }
    }
}

/// What a piece of the log is, given which of the four shapes it can be read
/// as: the first that fits, in the order line, edit, move, session.
pub fn classify(
    line: Option<LineRecord>,
    edit: Option<EditRecord>,
    moved: Option<MoveRecord>,
    session: Option<SessionRecord>,
) -> (r: LogEntry)
    ensures
        r@ == match (line, edit, moved, session) {
            (Some(l), _, _, _) => EntryView::Line(l@),
            (None, Some(e), _, _) => EntryView::Edit(e@),
            (None, None, Some(m), _) => EntryView::Move(m@),
            (None, None, None, Some(s)) => EntryView::Session(s),
            (None, None, None, None) => EntryView::Malformed,
        },
{
    match line {
        Some(line) => LogEntry::Line(line),
        None => match edit {
            Some(edit) => LogEntry::Edit(edit),
            None => match moved {
                Some(moved) => LogEntry::Move(moved),
                None => match session {
                    Some(session) => LogEntry::Session(session),
                    None => LogEntry::Malformed,
                },
            },
        },
    }
}

/// True when the flag need not be written: a line that did not fail is written
/// without it.
pub fn not_failed(failed: &bool) -> (r: bool)
    ensures
        r == !*failed,
{
    !*failed
}

} // verus!
