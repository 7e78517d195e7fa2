//! Saving a draft to its markdown file, and the binding between the two.

use crate::draft::error::{DraftError, ErrorView};
use crate::draft::handle::{Draft, DraftMeta, DraftView, MetaView};
use crate::draft::log::{
    counts_view, fold, is_decoding, is_torn, parse_lines, read_off, segments_of, ParsedLines,
};
use crate::draft::record::{lines_view, live_count, EntryView, LineRecord, LineView, LogEntry};
use crate::path::{
    joined, joining_undoes_stripping, opt_path, opt_ref, read_alike, reads_as, same_places,
    stripped, text_below, text_from, well_formed, NotePath, PathView,
};
use crate::path_laws::{is_spelled, what_is_left_is_spelled};
use crate::render::{markdown, render_markdown_with};
use crate::text::{opt_str, owned, same_text};
use vstd::prelude::*;
use vstd::string::*;

verus! {

// ---------------------------------------------------------------------------
// Bindings
// ---------------------------------------------------------------------------

/// A stored path as the file it names: itself when it is absolute, and seen
/// from the notes folder otherwise. Without a folder a relative path names
/// nothing.
pub open spec fn resolved(stored: PathView, root: Option<PathView>) -> Option<PathView> {
    if stored.absolute {
        Some(stored)
    } else {
        match root {
            Some(root) => Some(joined(root, stored)),
            None => None,
        }
    }
}

/// How a path is stored: relative when it lies below the notes folder, as it is
/// otherwise.
pub open spec fn binding(path: PathView, root: Option<PathView>) -> PathView {
    match root {
        Some(root) => match stripped(path, root) {
            Some(rel) => if rel.parts.len() > 0 {
                rel
            } else {
                path
            },
            None => path,
        },
        None => path,
    }
}

/// A stored `saved_path` as a path to a file, or `None` when it cannot be one.
///
/// The whole of the relative-binding rule: an absolute path is itself, whatever
/// the root says; a relative one is joined onto the root; a relative one
/// without a root cannot be resolved.
pub fn resolve_binding(stored: &NotePath, notes_root: Option<&NotePath>) -> (r: Option<NotePath>)
    ensures
        opt_path(r) == resolved(stored@, opt_ref(notes_root)),
{
    if stored.absolute {
        return Some(stored.clone());
    }
    match notes_root {
        Some(root) => Some(root.join(stored)),
        None => None,
    }
}

/// How a just-written path is stored: relative when it lies under the project's
/// notes folder, unchanged otherwise. The folder itself is not a note.
pub fn binding_for(path: &NotePath, notes_root: Option<&NotePath>) -> (r: NotePath)
    ensures
        r@ == binding(path@, opt_ref(notes_root)),
{
    match notes_root {
        Some(root) => match path.strip_prefix(root) {
            Some(rel) => {
                proof {
                    assert(rel@.parts.len() == rel.parts@.len());
                }
                if rel.parts.len() > 0 {
                    rel
                } else {
                    path.clone()
                }
            },
            None => path.clone(),
        },
        None => path.clone(),
    }
}

/// What was stored is found again: whatever the notes folder, the binding made
/// under it resolves under it to the very file it was made from. It is relative
/// exactly when the folder is a proper ancestor of the file, and never blank.
pub proof fn a_binding_resolves_to_its_path(path: PathView, root: Option<PathView>)
    requires
        well_formed(path),
        path.absolute,
        path.parts.len() > 0,
        root matches Some(root) ==> read_alike(path, root),
    ensures
        same_places(resolved(binding(path, root), root), Some(path)),
        binding(path, root).absolute == !(root matches Some(root) && root.parts.len() > 0
            && root.parts.is_prefix_of(path.parts) && root.parts.len() < path.parts.len()),
        binding(path, root).parts.len() > 0,
{
    if let Some(root) = root {
        if let Some(rel) = stripped(path, root) {
            if rel.parts.len() > 0 {
                joining_undoes_stripping(path, root);
            }
            if root.parts.len() == 0 {
                assert(rel.parts =~= path.parts);
            }
        }
    }
}

/// A binding is stored as its text, and read again it is the same: what a text
/// that every platform reads alike is stored as, is read as what was stored.
pub proof fn a_stored_binding_reads_back(path: PathView, root: Option<PathView>, again: PathView)
    requires
        is_spelled(path),
        reads_as(binding(path, root).text, again),
    ensures
        again.parts == binding(path, root).parts,
        again.text == binding(path, root).text,
{
    if let Some(root) = root {
        if stripped(path, root) is Some {
            what_is_left_is_spelled(path, root);
        }
    }
}

/// A binding made under a notes folder follows the folder: re-pointing the
/// project at another folder carries the note to the same place below it.
pub proof fn a_relative_binding_follows_its_folder(
    path: PathView,
    root: PathView,
    new_root: PathView,
)
    requires
        well_formed(path),
        root.parts.len() > 0,
        stripped(path, root) matches Some(rel) && rel.parts.len() > 0 && !(rel.parts[0] is Root),
    ensures
        resolved(binding(path, Some(root)), Some(new_root)) == Some(
            PathView {
                absolute: new_root.absolute,
                parts: new_root.parts + path.parts.skip(root.parts.len() as int),
                text: text_below(new_root, text_from(path, root.parts.len() as int)),
            },
        ),
{
    let n = root.parts.len() as int;
    let rel = stripped(path, root).unwrap();
    assert(rel.parts[0] == path.parts[n]);
}

/// An absolute binding is itself, whatever the notes folder is.
pub proof fn an_absolute_binding_ignores_the_folder(stored: PathView, root: Option<PathView>)
    requires
        stored.absolute,
    ensures
        resolved(stored, root) == Some(stored),
{
}

// ---------------------------------------------------------------------------
// The guard
// ---------------------------------------------------------------------------

/// `blake3`'s hash of the bytes, in lower-case hexadecimal.
pub uninterp spec fn blake3_hex(bytes: Seq<u8>) -> Seq<char>;

/// `blake3::hash` of the bytes, and `to_hex` of that: a function of the bytes
/// alone.
#[verifier::external_body]
pub(crate) fn hash_hex(bytes: &[u8]) -> (r: String)
    ensures
        r@ == blake3_hex(bytes@),
{
    blake3::hash(bytes).to_hex().to_string()
}

/// Whether a save may overwrite a file that changed underneath it.
#[derive(Debug, Clone, Copy, PartialEq, Eq, Structural)]
pub enum SaveMode {
    /// Stop if the file on disk is not the one that was last written.
    Guarded,
    /// Write regardless: the answer to a conflict the user was shown.
    Overwrite,
}

impl Default for SaveMode {
    fn default() -> (r: SaveMode)
        ensures
            r == SaveMode::Guarded,
    {
        SaveMode::Guarded
    }
}

/// Whether a resumed sitting shows as a rule in the rendered markdown.
#[derive(Debug, Clone, Copy, PartialEq, Eq, Structural)]
pub enum SessionDividers {
    /// A rule between consecutive rendered lines from different sittings.
    Shown,
    /// One continuous list.
    Hidden,
}

impl Default for SessionDividers {
    fn default() -> (r: SessionDividers)
        ensures
            r == SessionDividers::Shown,
    {
        SessionDividers::Shown
    }
}

impl SessionDividers {
    /// The setting as the enum.
    pub fn when(shown: bool) -> (r: SessionDividers)
        ensures
            r == if shown {
                SessionDividers::Shown
            } else {
                SessionDividers::Hidden
            },
    {
        if shown {
            SessionDividers::Shown
        } else {
            SessionDividers::Hidden
        }
    }
}

/// Everything a save needs beyond the file it is writing.
#[derive(Debug, Clone, Copy)]
pub struct SaveOptions<'a> {
    /// Written verbatim at the top of the markdown.
    pub header: Option<&'a str>,
    /// Guarded, or the explicit answer to a conflict.
    pub mode: SaveMode,
    /// Whether resumed sittings get a rule.
    pub dividers: SessionDividers,
    /// The owning project's notes folder, when there is one.
    pub notes_root: Option<&'a NotePath>,
    /// Project to file the draft under if it has none.
    pub adopt_project: Option<&'a str>,
}

impl<'a> Default for SaveOptions<'a> {
    fn default() -> (r: SaveOptions<'a>)
        ensures
            r.header is None,
            r.mode == SaveMode::Guarded,
            r.dividers == SessionDividers::Shown,
            r.notes_root is None,
            r.adopt_project is None,
    {
        SaveOptions {
            header: None,
            mode: SaveMode::Guarded,
            dividers: SessionDividers::Shown,
            notes_root: None,
            adopt_project: None,
        }
    }
}

/// A draft's lines plus which sitting each of them belongs to.
#[derive(Debug, PartialEq, Eq)]
pub struct Transcript {
    /// Every line, folded, in rendered order.
    pub lines: Vec<LineRecord>,
    /// Session ordinal per line, parallel to `lines`.
    pub sessions: Vec<usize>,
}

/// The part of a read log that is rendered.
pub fn transcript_of(parsed: ParsedLines) -> (r: Transcript)
    ensures
        r.lines@ == parsed.lines@,
        r.sessions@ == parsed.sessions@,
{
    Transcript { lines: parsed.lines, sessions: parsed.sessions }
}

/// A draft, and what its log held when it was opened.
#[derive(Debug, PartialEq, Eq)]
pub struct LoadedDraft {
    /// The handle.
    pub draft: Draft,
    /// Every line, folded, in the order it reads in.
    pub lines: Vec<LineRecord>,
    /// Pieces of the log that could not be used.
    pub skipped_lines: usize,
}

/// What one successful save did.
#[derive(Debug, PartialEq, Eq)]
pub struct SaveReport {
    /// The file that was written.
    pub path: NotePath,
    /// Bytes written.
    pub bytes: usize,
    /// Bullets rendered.
    pub lines: usize,
}

/// A save that may proceed: what to write, and what to report once it is
/// written.
#[derive(Debug, PartialEq, Eq)]
pub struct SavePlan {
    /// The text to write, whole.
    pub markdown: String,
    /// What the save will have done.
    pub report: SaveReport,
}

/// The markdown of a transcript under these settings.
pub open spec fn note_text(
    header: Option<Seq<char>>,
    dividers: SessionDividers,
    t: Transcript,
) -> Seq<char> {
    markdown(
        header,
        lines_view(t.lines@),
        if dividers == SessionDividers::Shown {
            Some(counts_view(t.sessions@))
        } else {
            None
        },
    )
}

/// The bytes of a text.
pub open spec fn text_bytes(s: Seq<char>) -> Seq<u8> {
    vstd::utf8::encode_utf8(s)
}

/// True when nothing stands in the way of a guarded write: there is no file, or
/// it is byte for byte the file that was last written.
pub open spec fn is_unchanged(meta: MetaView, existing: Option<Seq<u8>>) -> bool {
    match existing {
        None => true,
        Some(bytes) => meta.last_save_hash == Some(blake3_hex(bytes)),
    }
}

/// What optional borrowed bytes hold.
pub open spec fn opt_slice(b: Option<&[u8]>) -> Option<Seq<u8>> {
    match b {
        Some(b) => Some(b@),
        None => None,
    }
}

/// The metadata after a save: bound to the file, clean, with the hash of what
/// was written. A draft that had no project is adopted; one that had keeps it.
pub open spec fn saved_meta(
    meta: MetaView,
    path: PathView,
    root: Option<PathView>,
    adopt: Option<Seq<char>>,
    written: Seq<u8>,
) -> MetaView {
    MetaView {
        saved_path: Some(binding(path, root)),
        last_save_hash: Some(blake3_hex(written)),
        dirty: false,
        project: if meta.project is None {
            adopt
        } else {
            meta.project
        },
        ..meta
    }
}

fn count_live(lines: &Vec<LineRecord>) -> (r: usize)
    ensures
        r == live_count(lines_view(lines@)),
{
    let mut n: usize = 0;
    let mut i: usize = 0;
    let ghost view = lines_view(lines@);
    proof {
        assert(view.take(0) =~= Seq::<LineView>::empty());
    }
    while i < lines.len()
        invariant
            i <= lines@.len(),
            n <= i,
            view == lines_view(lines@),
            n == live_count(view.take(i as int)),
        decreases lines@.len() - i,
    {
        proof {
            assert(view.take(i + 1).drop_last() =~= view.take(i as int));
            assert(view.take(i + 1).last() == lines@[i as int]@);
        }
        if !lines[i].deleted && !lines[i].failed {
            n = n + 1;
        }
        i = i + 1;
    }
    proof {
        assert(view.take(lines@.len() as int) =~= view);
    }
    n
}

impl Draft {
    /// The markdown file this draft is bound to, if it has ever been saved.
    pub fn saved_path(&self) -> (r: Option<&NotePath>)
        ensures
            opt_ref(r) == self@.meta.saved_path,
    {
        self.meta.saved_path.as_ref()
    }

    /// Draft metadata, as on disk once the pending writes are done.
    pub fn meta(&self) -> (r: &DraftMeta)
        ensures
            r@ == self@.meta,
    {
        &self.meta
    }

    /// Opens a draft whose metadata and log have been read. The count starts at
    /// the number of lines that would be rendered.
    pub fn open(dir: NotePath, meta: DraftMeta, parsed: ParsedLines) -> (r: LoadedDraft)
        ensures
            r.draft@ == (DraftView {
                dir: dir@,
                meta: meta@,
                last: None,
                needs_newline: parsed@.torn_tail,
                lines: live_count(parsed@.lines),
            }),
            r.lines@ == parsed.lines@,
            r.skipped_lines == parsed.skipped,
    {
        let lines: usize = count_live(&parsed.lines);
        let draft = Draft { dir, meta, last: None, needs_newline: parsed.torn_tail, lines };
        LoadedDraft { draft, lines: parsed.lines, skipped_lines: parsed.skipped }
    }

    /// Every line of the log, folded, in the order it reads in. `raw` is the log
    /// as it is on disk, and `decode` turns the text of one piece into a record.
    pub fn read_lines<F: Fn(&str) -> LogEntry>(&self, raw: &[u8], decode: F) -> (r: Vec<
        LineRecord,
    >)
        requires
            raw@.len() < usize::MAX,
            forall|text: &str| #[trigger] decode.requires((text,)),
        ensures
            exists|entries: Seq<EntryView>|
                #[trigger] is_decoding(decode, segments_of(raw@), entries) && lines_view(r@)
                    == read_off(fold(entries), is_torn(raw@)).lines,
    {
        parse_lines(raw, decode).lines
    }

    /// The lines of the log and the sitting each of them belongs to.
    pub fn read_transcript<F: Fn(&str) -> LogEntry>(&self, raw: &[u8], decode: F) -> (r: Transcript)
        requires
            raw@.len() < usize::MAX,
            forall|text: &str| #[trigger] decode.requires((text,)),
        ensures
            exists|entries: Seq<EntryView>|
                #[trigger] is_decoding(decode, segments_of(raw@), entries) && lines_view(r.lines@)
                    == read_off(fold(entries), is_torn(raw@)).lines && counts_view(r.sessions@)
                    == read_off(fold(entries), is_torn(raw@)).sessions,
    {
        transcript_of(parse_lines(raw, decode))
    }

    /// The markdown of a transcript, and the number of bullets in it.
    pub fn render(&self, header: Option<&str>, dividers: SessionDividers, t: &Transcript) -> (r: (
        String,
        usize,
    ))
        requires
            t.sessions@.len() == t.lines@.len(),
        ensures
            r.0@ == note_text(opt_str(header), dividers, *t),
            r.1 == live_count(lines_view(t.lines@)),
    {
        let sessions: Option<&[usize]> = match dividers {
            SessionDividers::Shown => Some(t.sessions.as_slice()),
            SessionDividers::Hidden => None,
        };
        let text = render_markdown_with(header, t.lines.as_slice(), sessions);
        let count: usize = count_live(&t.lines);
        (text, count)
    }

    /// Exactly the text a save would write.
    pub fn preview_markdown(
        &self,
        header: Option<&str>,
        dividers: SessionDividers,
        t: &Transcript,
    ) -> (r: String)
        requires
            t.sessions@.len() == t.lines@.len(),
        ensures
            r@ == note_text(opt_str(header), dividers, *t),
    {
        self.render(header, dividers, t).0
    }

    /// Where a save would write: the bound path, resolved, or `first_save` when
    /// there is none.
    pub fn save_target(&self, first_save: &NotePath, notes_root: Option<&NotePath>) -> (r: Result<
        NotePath,
        DraftError,
    >)
        ensures
            match (r, self@.meta.saved_path) {
                (Ok(path), None) => path@ == first_save@,
                (Ok(path), Some(stored)) => resolved(stored, opt_ref(notes_root)) == Some(path@),
                (Err(e), Some(stored)) => resolved(stored, opt_ref(notes_root)) is None && e@ == (
                ErrorView::UnresolvedPath { path: self@.dir, relative: stored }),
                (Err(_), None) => false,
            },
    {
        match &self.meta.saved_path {
            None => Ok(first_save.clone()),
            Some(stored) => match resolve_binding(stored, notes_root) {
                Some(path) => Ok(path),
                None => Err(
                    DraftError::UnresolvedPath { path: self.dir.clone(), relative: stored.clone() },
                ),
            },
        }
    }

    /// The saved path resolved against a notes folder: `None` for a draft that
    /// was never saved or whose binding cannot be resolved.
    pub fn resolved_saved_path(&self, notes_root: Option<&NotePath>) -> (r: Option<NotePath>)
        ensures
            opt_path(r) == (match self@.meta.saved_path {
                Some(stored) => resolved(stored, opt_ref(notes_root)),
                None => None,
            }),
    {
        match &self.meta.saved_path {
            Some(stored) => resolve_binding(stored, notes_root),
            None => None,
        }
    }

    /// Refuses a write if the file at `path` is not the one that was last
    /// written. `existing` is what is there now; a missing file is no conflict.
    pub fn check_unchanged(&self, path: &NotePath, existing: Option<&[u8]>) -> (r: Result<
        (),
        DraftError,
    >)
        ensures
            match r {
                Ok(_) => is_unchanged(self@.meta, opt_slice(existing)),
                Err(e) => !is_unchanged(self@.meta, opt_slice(existing)) && e@ == (
                ErrorView::SaveConflict { path: path@ }),
            },
    {
        match existing {
            None => Ok(()),
            Some(bytes) => {
                let same = match &self.meta.last_save_hash {
                    Some(hash) => {
                        let found = hash_hex(bytes);
                        same_text(hash, &found)
                    },
                    None => false,
                };
                if same {
                    Ok(())
                } else {
                    Err(DraftError::SaveConflict { path: path.clone() })
                }
            },
        }
    }

    /// Plans a save to `path`: renders the transcript, and refuses if the guard
    /// is on and the file that is there is not the one that was last written.
    /// Nothing is written on a refusal.
    pub fn save_to(
        &self,
        path: &NotePath,
        opts: SaveOptions<'_>,
        t: &Transcript,
        existing: Option<&[u8]>,
    ) -> (r: Result<SavePlan, DraftError>)
        requires
            t.sessions@.len() == t.lines@.len(),
        ensures
            match r {
                Ok(plan) => {
                    &&& opts.mode == SaveMode::Guarded ==> is_unchanged(
                        self@.meta,
                        opt_slice(existing),
                    )
                    &&& plan.markdown@ == note_text(opt_str(opts.header), opts.dividers, *t)
                    &&& plan.report.path@ == path@
                    &&& plan.report.bytes == text_bytes(plan.markdown@).len()
                    &&& plan.report.lines == live_count(lines_view(t.lines@))
                },
                Err(e) => {
                    &&& opts.mode == SaveMode::Guarded
                    &&& !is_unchanged(self@.meta, opt_slice(existing))
                    &&& e@ == (ErrorView::SaveConflict { path: path@ })
                },
            },
    {
        let (text, lines) = self.render(opts.header, opts.dividers, t);
        if opts.mode == SaveMode::Guarded {
            match self.check_unchanged(path, existing) {
                Ok(_) => {},
                Err(e) => {
                    return Err(e);
                },
            }
        }
        let bytes: usize = text.as_str().as_bytes().len();
        Ok(SavePlan { markdown: text, report: SaveReport { path: path.clone(), bytes, lines } })
    }

    /// Plans a guarded save to `path`.
    pub fn save_as(
        &self,
        path: &NotePath,
        header: Option<&str>,
        t: &Transcript,
        existing: Option<&[u8]>,
    ) -> (r: Result<SavePlan, DraftError>)
        requires
            t.sessions@.len() == t.lines@.len(),
        ensures
            match r {
                Ok(plan) => {
                    &&& is_unchanged(self@.meta, opt_slice(existing))
                    &&& plan.markdown@ == note_text(opt_str(header), SessionDividers::Shown, *t)
                    &&& plan.report.path@ == path@
                    &&& plan.report.bytes == text_bytes(plan.markdown@).len()
                    &&& plan.report.lines == live_count(lines_view(t.lines@))
                },
                Err(e) => !is_unchanged(self@.meta, opt_slice(existing)) && e@ == (
                ErrorView::SaveConflict { path: path@ }),
            },
    {
        self.save_as_with(path, header, SaveMode::Guarded, SessionDividers::Shown, t, existing)
    }

    /// [`Draft::save_as`] with an explicit mode and divider setting.
    pub fn save_as_with(
        &self,
        path: &NotePath,
        header: Option<&str>,
        mode: SaveMode,
        dividers: SessionDividers,
        t: &Transcript,
        existing: Option<&[u8]>,
    ) -> (r: Result<SavePlan, DraftError>)
        requires
            t.sessions@.len() == t.lines@.len(),
        ensures
            match r {
                Ok(plan) => {
                    &&& mode == SaveMode::Guarded ==> is_unchanged(self@.meta, opt_slice(existing))
                    &&& plan.markdown@ == note_text(opt_str(header), dividers, *t)
                    &&& plan.report.path@ == path@
                    &&& plan.report.bytes == text_bytes(plan.markdown@).len()
                    &&& plan.report.lines == live_count(lines_view(t.lines@))
                },
                Err(e) => {
                    &&& mode == SaveMode::Guarded
                    &&& !is_unchanged(self@.meta, opt_slice(existing))
                    &&& e@ == (ErrorView::SaveConflict { path: path@ })
                },
            },
    {
        self.save_to(
            path,
            SaveOptions { header, mode, dividers, notes_root: None, adopt_project: None },
            t,
            existing,
        )
    }

    /// The file a plain re-save writes: the one the draft is bound to.
    pub fn save_path(&self) -> (r: Result<NotePath, DraftError>)
        ensures
            match (r, self@.meta.saved_path) {
                (Ok(path), Some(stored)) => stored.absolute && path@ == stored,
                (Err(e), Some(stored)) => !stored.absolute && e@ == (ErrorView::UnresolvedPath {
                    path: self@.dir,
                    relative: stored,
                }),
                (Err(e), None) => e@ == (ErrorView::NeverSaved { path: self@.dir }),
                (Ok(_), None) => false,
            },
    {
        if self.meta.saved_path.is_none() {
            return Err(DraftError::NeverSaved { path: self.dir.clone() });
        }
        let nowhere = NotePath::empty();
        self.save_target(&nowhere, None)
    }

    /// Plans a guarded re-save to the file this draft is already bound to.
    pub fn save(&self, header: Option<&str>, t: &Transcript, existing: Option<&[u8]>) -> (r: Result<
        SavePlan,
        DraftError,
    >)
        requires
            t.sessions@.len() == t.lines@.len(),
        ensures
            is_resave(
                r,
                self@,
                opt_str(header),
                SaveMode::Guarded,
                SessionDividers::Shown,
                *t,
                opt_slice(existing),
            ),
    {
        self.save_with(header, SaveMode::Guarded, SessionDividers::Shown, t, existing)
    }

    /// [`Draft::save`] with an explicit mode and divider setting. `existing` is
    /// what [`Draft::save_path`] holds now.
    pub fn save_with(
        &self,
        header: Option<&str>,
        mode: SaveMode,
        dividers: SessionDividers,
        t: &Transcript,
        existing: Option<&[u8]>,
    ) -> (r: Result<SavePlan, DraftError>)
        requires
            t.sessions@.len() == t.lines@.len(),
        ensures
            is_resave(r, self@, opt_str(header), mode, dividers, *t, opt_slice(existing)),
    {
        match self.save_path() {
            Ok(path) => self.save_as_with(&path, header, mode, dividers, t, existing),
            Err(e) => Err(e),
        }
    }

    /// Takes note that a save's text has been written: binds the draft to the
    /// file, records the hash, clears the dirty flag, and adopts the draft if it
    /// had no project. The metadata is to be rewritten next.
    pub fn saved(
        &mut self,
        path: &NotePath,
        notes_root: Option<&NotePath>,
        adopt_project: Option<&str>,
        written: &str,
    )
        ensures
            final(self)@ == (DraftView {
                meta: saved_meta(
                    old(self)@.meta,
                    path@,
                    opt_ref(notes_root),
                    opt_str(adopt_project),
                    text_bytes(written@),
                ),
                ..old(self)@
            }),
    {
        self.meta.saved_path = Some(binding_for(path, notes_root));
        self.meta.last_save_hash = Some(hash_hex(written.as_bytes()));
        self.meta.dirty = false;
        if self.meta.project.is_none() {
            self.meta.project = match adopt_project {
                Some(p) => Some(owned(p)),
                None => None,
            };
        }
    }
}

/// `r` is the outcome of a re-save to the bound file.
pub open spec fn is_resave(
    r: Result<SavePlan, DraftError>,
    d: DraftView,
    header: Option<Seq<char>>,
    mode: SaveMode,
    dividers: SessionDividers,
    t: Transcript,
    existing: Option<Seq<u8>>,
) -> bool {
    let refused = mode == SaveMode::Guarded && !is_unchanged(d.meta, existing);
    match d.meta.saved_path {
        None => r matches Err(e) && e@ == (ErrorView::NeverSaved { path: d.dir }),
        Some(stored) => if !stored.absolute {
            r matches Err(e) && e@ == (ErrorView::UnresolvedPath {
                path: d.dir,
                relative: stored,
            })
        } else if refused {
            r matches Err(e) && e@ == (ErrorView::SaveConflict { path: stored })
        } else {
            r matches Ok(plan) && {
                &&& plan.markdown@ == note_text(header, dividers, t)
                &&& plan.report.path@ == stored
                &&& plan.report.bytes == text_bytes(plan.markdown@).len()
                &&& plan.report.lines == live_count(lines_view(t.lines@))
            }
        },
    }
}

// ---------------------------------------------------------------------------
// Laws
// ---------------------------------------------------------------------------

/// A save that nobody interfered with can be repeated: right after a save, the
/// file that was written passes the guard.
pub proof fn a_saved_file_passes_the_guard(
    meta: MetaView,
    path: PathView,
    root: Option<PathView>,
    adopt: Option<Seq<char>>,
    written: Seq<u8>,
)
    ensures
        is_unchanged(saved_meta(meta, path, root, adopt, written), Some(written)),
{
}

/// A draft that has never been saved never passes the guard on a file that is
/// there already.
pub proof fn an_unrelated_file_is_never_clobbered(meta: MetaView, existing: Seq<u8>)
    requires
        meta.last_save_hash is None,
    ensures
        !is_unchanged(meta, Some(existing)),
{
}

/// A save never moves a draft between projects.
pub proof fn a_save_never_reassigns(
    meta: MetaView,
    path: PathView,
    root: Option<PathView>,
    adopt: Option<Seq<char>>,
    written: Seq<u8>,
)
    requires
        meta.project is Some,
    ensures
        saved_meta(meta, path, root, adopt, written).project == meta.project,
{
}

} // verus!
