//! Renaming a note's file, and moving a note between projects.

use crate::draft::error::{DraftError, ErrorView};
use crate::draft::handle::{Draft, DraftView, MetaView};
use crate::draft::save::{
    binding, binding_for, blake3_hex, hash_hex, resolve_binding, resolved, SessionDividers,
};
use crate::path::{
    below, file_name_of, opt_path, opt_ref, parent_of, read_alike, renamed, same_place, same_places,
    well_formed, NotePath, PathView,
};
use crate::template::{file_safe, note_file_name};
use crate::text::{lowercase, opt_str, opt_text, owned, same_text};
use vstd::prelude::*;

verus! {

/// True when the two optional paths are the same.
fn same_opt_path(a: &Option<NotePath>, b: &Option<NotePath>) -> (r: bool)
    ensures
        r == same_places(opt_path(*a), opt_path(*b)),
{
    match (a, b) {
        (Some(a), Some(b)) => a.same(b),
        (None, None) => true,
        _ => false,
    }
}

/// A copy of an optional borrowed text.
fn owned_opt(t: Option<&str>) -> (r: Option<String>)
    ensures
        opt_text(r) == opt_str(t),
{
    match t {
        Some(t) => Some(owned(t)),
        None => None,
    }
}

/// True when the draft is filed under exactly this project, or under none when
/// none is given.
fn filed_under(project: &Option<String>, wanted: Option<&str>) -> (r: bool)
    ensures
        r == (opt_text(*project) == opt_str(wanted)),
{
    match (project, wanted) {
        (Some(a), Some(b)) => same_text(a, b),
        (None, None) => true,
        _ => false,
    }
}

// ---------------------------------------------------------------------------
// Renaming
// ---------------------------------------------------------------------------

/// True when `to` is the file `from` already is, spelled with other letters'
/// case: the same directory, names equal but for case, and one file on disk.
pub open spec fn case_only(from: PathView, to: PathView, same_file: bool) -> bool {
    &&& same_places(parent_of(from), parent_of(to))
    &&& file_name_of(from) matches Some(a) && file_name_of(to) matches Some(b) && lowercase(a)
        == lowercase(b)
    &&& same_file
}

/// Is `to` the file `from` already is, spelled with different capitalization?
/// `same_file` says whether the two names were found to be one file on disk.
pub fn is_case_only_rename(from: &NotePath, to: &NotePath, same_file: bool) -> (r: bool)
    ensures
        r == case_only(from@, to@, same_file),
{
    let here = from.parent();
    let there = to.parent();
    if !same_opt_path(&here, &there) {
        return false;
    }
    match (from.file_name(), to.file_name()) {
        (Some(a), Some(b)) => {
            let a = a.as_str().to_lowercase();
            let b = b.as_str().to_lowercase();
            same_text(&a, &b) && same_file
        },
        _ => false,
    }
}

/// What one rename did.
#[derive(Debug, PartialEq, Eq)]
pub struct RenameReport {
    /// Where the note was.
    pub from: NotePath,
    /// Where it is now.
    pub to: NotePath,
    /// Whether anything on disk moves: not when the name is the one the file
    /// already had.
    pub moved: bool,
}

/// Where a rename starts and ends: the bound file, and its sibling of the new
/// name.
pub open spec fn rename_paths(d: DraftView, name: Seq<char>, root: Option<PathView>) -> Result<
    (PathView, PathView),
    ErrorView,
> {
    match d.meta.saved_path {
        None => Err(ErrorView::NeverSaved { path: d.dir }),
        Some(stored) => match resolved(stored, root) {
            None => Err(ErrorView::UnresolvedPath { path: d.dir, relative: stored }),
            Some(from) => Ok((from, renamed(from, note_file_name(name)))),
        },
    }
}

impl Draft {
    /// Where a rename of this note would start and end. The target is always a
    /// sibling of the file.
    pub fn rename_target(&self, name: &str, notes_root: Option<&NotePath>) -> (r: Result<
        (NotePath, NotePath),
        DraftError,
    >)
        ensures
            match (r, rename_paths(self@, name@, opt_ref(notes_root))) {
                (Ok(p), Ok(w)) => p.0@ == w.0 && p.1@ == w.1,
                (Err(e), Err(w)) => e@ == w,
                _ => false,
            },
    {
        match &self.meta.saved_path {
            None => Err(DraftError::NeverSaved { path: self.dir.clone() }),
            Some(stored) => match resolve_binding(stored, notes_root) {
                None => Err(
                    DraftError::UnresolvedPath { path: self.dir.clone(), relative: stored.clone() },
                ),
                Some(from) => {
                    let file = file_safe(name);
                    let to = from.with_file_name(&file);
                    Ok((from, to))
                },
            },
        }
    }

    /// Decides a rename of this note's file. `target_exists` and `same_file` are
    /// what was found on disk: whether the target is there, and whether it is
    /// the very file that is being renamed.
    ///
    /// An occupied target is refused, never overwritten; a target that is this
    /// file under another capitalization is not occupied; the name the file
    /// already has is no move.
    pub fn rename_note(
        &self,
        name: &str,
        notes_root: Option<&NotePath>,
        target_exists: bool,
        same_file: bool,
    ) -> (r: Result<RenameReport, DraftError>)
        ensures
            match (r, rename_paths(self@, name@, opt_ref(notes_root))) {
                (Ok(report), Ok((from, to))) => {
                    &&& report.from@ == from
                    &&& report.to@ == to
                    &&& report.moved == !same_place(to, from)
                    &&& report.moved && target_exists ==> case_only(from, to, same_file)
                },
                (Err(e), Ok((from, to))) => {
                    &&& !same_place(to, from)
                    &&& target_exists
                    &&& !case_only(from, to, same_file)
                    &&& e@ == (ErrorView::NameTaken { path: to })
                },
                (Err(e), Err(w)) => e@ == w,
                (Ok(_), Err(_)) => false,
            },
    {
        match self.rename_target(name, notes_root) {
            Err(e) => Err(e),
            Ok((from, to)) => {
                if to.same(&from) {
                    return Ok(RenameReport { from, to, moved: false });
                }
                if target_exists && !is_case_only_rename(&from, &to, same_file) {
                    return Err(DraftError::NameTaken { path: to });
                }
                Ok(RenameReport { from, to, moved: true })
            },
        }
    }

    /// Takes note that the note's file now is `to`. Only the binding changes: a
    /// rename moves bytes and never changes them, so the hash and the dirty flag
    /// stay.
    pub fn renamed_to(&mut self, to: &NotePath, notes_root: Option<&NotePath>)
        ensures
            final(self)@ == (DraftView {
                meta: MetaView {
                    saved_path: Some(binding(to@, opt_ref(notes_root))),
                    ..old(self)@.meta
                },
                ..old(self)@
            }),
    {
        self.meta.saved_path = Some(binding_for(to, notes_root));
    }
}

// ---------------------------------------------------------------------------
// Projects
// ---------------------------------------------------------------------------

/// The stored path after a change of project: the same file, stored the way the
/// new folder calls for. A path that cannot be resolved is carried as it is.
pub open spec fn rebound(
    stored: Option<PathView>,
    old_root: Option<PathView>,
    new_root: Option<PathView>,
) -> Option<PathView> {
    match stored {
        None => None,
        Some(stored) => match resolved(stored, old_root) {
            Some(at) => Some(binding(at, new_root)),
            None => Some(stored),
        },
    }
}

impl Draft {
    /// The project this draft belongs to, if any.
    pub fn project(&self) -> (r: Option<&str>)
        ensures
            opt_str(r) == self@.meta.project,
    {
        match &self.meta.project {
            Some(p) => Some(p.as_str()),
            None => None,
        }
    }

    /// Files this draft under another project name, and nothing else. Returns
    /// whether the metadata is to be rewritten.
    pub fn set_project(&mut self, project: Option<&str>) -> (r: bool)
        ensures
            r == (old(self)@.meta.project != opt_str(project)),
            final(self)@ == (DraftView {
                meta: MetaView { project: opt_str(project), ..old(self)@.meta },
                ..old(self)@
            }),
    {
        if filed_under(&self.meta.project, project) {
            return false;
        }
        self.meta.project = owned_opt(project);
        true
    }

    /// Files this draft under another project without touching a file: the
    /// project and the binding change together, and the binding still names the
    /// same file. Returns whether the metadata is to be rewritten.
    pub fn reassign_project(
        &mut self,
        project: Option<&str>,
        old_root: Option<&NotePath>,
        new_root: Option<&NotePath>,
    ) -> (r: bool)
        ensures
            r == (old(self)@.meta.project != opt_str(project)),
            final(self)@ == if r {
                DraftView {
                    meta: MetaView {
                        project: opt_str(project),
                        saved_path: rebound(
                            old(self)@.meta.saved_path,
                            opt_ref(old_root),
                            opt_ref(new_root),
                        ),
                        ..old(self)@.meta
                    },
                    ..old(self)@
                }
            } else {
                old(self)@
            },
    {
        if filed_under(&self.meta.project, project) {
            return false;
        }
        let next = match &self.meta.saved_path {
            None => None,
            Some(stored) => match resolve_binding(stored, old_root) {
                Some(at) => Some(binding_for(&at, new_root)),
                None => Some(stored.clone()),
            },
        };
        self.meta.project = owned_opt(project);
        self.meta.saved_path = next;
        true
    }
}

/// What to do when the target folder already holds a note of that name.
#[derive(Debug, Clone, Copy, PartialEq, Eq, Structural)]
pub enum ClashChoice {
    /// Stop and let the window ask.
    Ask,
    /// Move it under the first free numbered name.
    KeepBoth,
}

impl Default for ClashChoice {
    fn default() -> (r: ClashChoice)
        ensures
            r == ClashChoice::Ask,
    {
        ClashChoice::Ask
    }
}

/// Everything a cross-project move needs beyond the draft itself.
#[derive(Debug, Clone, Copy)]
pub struct MoveOptions<'a> {
    /// The project the note joins, or `None`.
    pub project: Option<&'a str>,
    /// The notes folder the binding is currently relative to.
    pub old_root: Option<&'a NotePath>,
    /// The notes folder the note is moving into.
    pub new_root: Option<&'a NotePath>,
    /// What to do about a name already taken in `new_root`.
    pub clash: ClashChoice,
    /// The new project's header, when the note has to be rendered again.
    pub header: Option<&'a str>,
    /// The new project's divider setting, on the same terms.
    pub dividers: SessionDividers,
}

impl<'a> Default for MoveOptions<'a> {
    fn default() -> (r: MoveOptions<'a>)
        ensures
            r.project is None,
            r.old_root is None,
            r.new_root is None,
            r.clash == ClashChoice::Ask,
            r.header is None,
            r.dividers == SessionDividers::Shown,
    {
        MoveOptions {
            project: None,
            old_root: None,
            new_root: None,
            clash: ClashChoice::Ask,
            header: None,
            dividers: SessionDividers::Shown,
        }
    }
}

/// What a move did to the note's file.
#[derive(Debug, PartialEq, Eq)]
pub enum NoteMove {
    /// The note is already in that project.
    Unchanged,
    /// Only the metadata changed.
    Retagged,
    /// The file was relocated into the new project's folder.
    Moved { from: NotePath, to: NotePath, copied: bool },
    /// There was no file to move, so a fresh one was rendered into the new
    /// folder.
    Recreated { to: NotePath },
    /// A note of that name is already in the target folder, and nothing at all
    /// happened.
    Clash { at: NotePath, free: Option<NotePath> },
}

/// What is to be looked up on disk before a move can be decided.
#[derive(Debug, PartialEq, Eq)]
pub struct MoveProbe {
    /// The file as the binding names it, if it can be resolved.
    pub source: Option<NotePath>,
    /// Where the note would land.
    pub to: NotePath,
    /// The name it would land under.
    pub file: String,
}

/// What was found on disk.
#[derive(Debug, PartialEq, Eq)]
pub struct MoveFacts {
    /// The source is there.
    pub source_exists: bool,
    /// The source and the target are one file on disk.
    pub same_file: bool,
    /// The target is there.
    pub target_exists: bool,
    /// The first free numbered name in the target folder, if there is one.
    pub free: Option<NotePath>,
}

/// What a move comes down to.
#[derive(Debug, PartialEq, Eq)]
pub enum MoveDecision {
    /// The note is already in that project: nothing to do.
    Unchanged,
    /// Change the project and the binding; no file moves.
    Retag,
    /// Ask: the target is taken. Nothing happens.
    Clash { at: NotePath, free: Option<NotePath> },
    /// Move the file.
    Move { from: NotePath, to: NotePath },
    /// Render the note into the new folder.
    Recreate { to: NotePath },
}

/// What a [`MoveDecision`] holds.
pub enum DecisionView {
    Unchanged,
    Retag,
    Clash { at: PathView, free: Option<PathView> },
    Move { from: PathView, to: PathView },
    Recreate { to: PathView },
}

impl View for MoveDecision {
    type V = DecisionView;

    open spec fn view(&self) -> DecisionView {
        match self {
            MoveDecision::Unchanged => DecisionView::Unchanged,
            MoveDecision::Retag => DecisionView::Retag,
            MoveDecision::Clash { at, free } => DecisionView::Clash {
                at: at@,
                free: opt_path(*free),
            },
            MoveDecision::Move { from, to } => DecisionView::Move { from: from@, to: to@ },
            MoveDecision::Recreate { to } => DecisionView::Recreate { to: to@ },
        }
    }
}

/// The file a move starts from, where it ends, and the file's name: `None` when
/// there is no file to move or nowhere to move it to.
pub open spec fn move_ends(meta: MetaView, old_root: Option<PathView>, new_root: Option<PathView>) -> Option<
    (Option<PathView>, PathView, Seq<char>),
> {
    match (meta.saved_path, new_root) {
        (Some(stored), Some(root)) => match file_name_of(stored) {
            Some(file) => Some((resolved(stored, old_root), below(root, file), file)),
            None => None,
        },
        _ => None,
    }
}

/// What a move comes down to, given what is on disk.
///
/// Nothing is done for a draft that is in the project already. Without a file,
/// a folder or a file name only the tag moves; the same when the file is where
/// it would land. A taken name is asked about, or numbered around. A file that
/// is there is moved; one that is gone is rendered afresh.
pub open spec fn move_decision(
    meta: MetaView,
    project: Option<Seq<char>>,
    old_root: Option<PathView>,
    new_root: Option<PathView>,
    clash: ClashChoice,
    source_exists: bool,
    same_file: bool,
    target_exists: bool,
    free: Option<PathView>,
) -> Result<DecisionView, ErrorView> {
    if meta.project == project {
        Ok(DecisionView::Unchanged)
    } else {
        match move_ends(meta, old_root, new_root) {
            None => Ok(DecisionView::Retag),
            Some((named, to, _)) => {
                let source = if source_exists {
                    named
                } else {
                    None
                };
                if source matches Some(at) && (same_place(at, to) || case_only(at, to, same_file)) {
                    Ok(DecisionView::Retag)
                } else if target_exists && clash == ClashChoice::Ask {
                    Ok(DecisionView::Clash { at: to, free })
                } else if target_exists && free is None {
                    Err(ErrorView::NameTaken { path: to })
                } else {
                    let end = if target_exists {
                        free.unwrap()
                    } else {
                        to
                    };
                    match source {
                        Some(at) => Ok(DecisionView::Move { from: at, to: end }),
                        None => Ok(DecisionView::Recreate { to: end }),
                    }
                }
            },
        }
    }
}

impl Draft {
    /// What is to be looked up on disk before a move can be decided: `None` when
    /// no file is involved.
    pub fn move_probe(&self, opts: &MoveOptions<'_>) -> (r: Option<MoveProbe>)
        ensures
            match (r, move_ends(self@.meta, opt_ref(opts.old_root), opt_ref(opts.new_root))) {
                (Some(p), Some((named, to, file))) => opt_path(p.source) == named && p.to@ == to
                    && p.file@ == file,
                (None, None) => true,
                _ => false,
            },
    {
        match (&self.meta.saved_path, opts.new_root) {
            (Some(stored), Some(root)) => match stored.file_name() {
                Some(file) => {
                    let source = resolve_binding(stored, opts.old_root);
                    let to = root.child(&file);
                    Some(MoveProbe { source, to, file })
                },
                None => None,
            },
            _ => None,
        }
    }

    /// Decides a move into another project. Nothing changes here: a clash, in
    /// particular, leaves the draft and the disk exactly as they are.
    pub fn move_to_project(&self, opts: &MoveOptions<'_>, facts: MoveFacts) -> (r: Result<
        MoveDecision,
        DraftError,
    >)
        ensures
            match (
                r,
                move_decision(
                    self@.meta,
                    opt_str(opts.project),
                    opt_ref(opts.old_root),
                    opt_ref(opts.new_root),
                    opts.clash,
                    facts.source_exists,
                    facts.same_file,
                    facts.target_exists,
                    opt_path(facts.free),
                ),
            ) {
                (Ok(d), Ok(w)) => d@ == w,
                (Err(e), Err(w)) => e@ == w,
                _ => false,
            },
    {
        if filed_under(&self.meta.project, opts.project) {
            return Ok(MoveDecision::Unchanged);
        }
        let probe = match self.move_probe(opts) {
            Some(p) => p,
            None => {
                return Ok(MoveDecision::Retag);
            },
        };
        let source = if facts.source_exists {
            probe.source
        } else {
            None
        };
        let to = probe.to;
        if let Some(at) = &source {
            if at.same(&to) || is_case_only_rename(at, &to, facts.same_file) {
                return Ok(MoveDecision::Retag);
            }
        }
        let end = if facts.target_exists {
            match opts.clash {
                ClashChoice::Ask => {
                    return Ok(MoveDecision::Clash { at: to, free: facts.free });
                },
                ClashChoice::KeepBoth => match facts.free {
                    Some(free) => free,
                    None => {
                        return Err(DraftError::NameTaken { path: to });
                    },
                },
            }
        } else {
            to
        };
        match source {
            Some(from) => Ok(MoveDecision::Move { from, to: end }),
            None => Ok(MoveDecision::Recreate { to: end }),
        }
    }

    /// Takes note that the note's file has been moved to `to`, in the folder of
    /// its new project. The project and the binding change together; the hash
    /// and the dirty flag stay, because the bytes did.
    pub fn moved_to(&mut self, project: Option<&str>, to: &NotePath, new_root: &NotePath)
        ensures
            final(self)@ == (DraftView {
                meta: MetaView {
                    project: opt_str(project),
                    saved_path: Some(binding(to@, Some(new_root@))),
                    ..old(self)@.meta
                },
                ..old(self)@
            }),
    {
        self.meta.project = owned_opt(project);
        self.meta.saved_path = Some(binding_for(to, Some(new_root)));
    }

    /// Puts the new project on the draft before its note is rendered again, so
    /// that one metadata write carries both. Returns the project it had, to be
    /// put back with [`Draft::set_project`] if the save fails.
    pub fn begin_recreate(&mut self, project: Option<&str>) -> (r: Option<String>)
        ensures
            opt_text(r) == old(self)@.meta.project,
            final(self)@ == (DraftView {
                meta: MetaView { project: opt_str(project), ..old(self)@.meta },
                ..old(self)@
            }),
    {
        let previous = crate::text::copy_opt(&self.meta.project);
        self.meta.project = owned_opt(project);
        previous
    }
}

// ---------------------------------------------------------------------------
// Across a volume boundary
// ---------------------------------------------------------------------------

/// The operating system's code for a rename between two volumes.
pub open spec fn cross_device_code(windows: bool) -> i32 {
    if windows {
        17
    } else {
        18
    }
}

/// Is this the error code a rename gives for two different volumes?
pub fn is_cross_device(raw_os_error: Option<i32>, windows: bool) -> (r: bool)
    ensures
        r == (raw_os_error == Some(cross_device_code(windows))),
{
    match raw_os_error {
        Some(code) => if windows {
            code == 17
        } else {
            code == 18
        },
        None => false,
    }
}

/// True when the copy was read back as the original: the same length and the
/// same hash.
pub open spec fn copy_is_faithful(original: Seq<u8>, copy: Seq<u8>) -> bool {
    original.len() == copy.len() && blake3_hex(original) == blake3_hex(copy)
}

/// Was the copy read back as the original?
pub fn copy_matches(original: &[u8], copy: &[u8]) -> (r: bool)
    ensures
        r == copy_is_faithful(original@, copy@),
{
    if original.len() != copy.len() {
        return false;
    }
    let a = hash_hex(original);
    let b = hash_hex(copy);
    same_text(&a, &b)
}

/// Where a move between two volumes stands. Each state names the one thing to
/// do next.
#[derive(Debug, PartialEq, Eq)]
pub enum VolumeMove {
    /// Read the original.
    ReadSource,
    /// Write these bytes to the target.
    WriteCopy { bytes: Vec<u8> },
    /// Read the target back.
    ReadBack { bytes: Vec<u8> },
    /// The copy is verified: remove the original.
    RemoveSource,
    /// The copy is not the original: remove the copy, and report.
    RemoveCopy,
    /// The note has moved.
    Done,
    /// Nothing more is done; the original is where it was.
    Stopped,
}

/// What a [`VolumeMove`] holds.
pub enum VolumeView {
    ReadSource,
    WriteCopy { bytes: Seq<u8> },
    ReadBack { bytes: Seq<u8> },
    RemoveSource,
    RemoveCopy,
    Done,
    Stopped,
}

impl View for VolumeMove {
    type V = VolumeView;

    open spec fn view(&self) -> VolumeView {
        match self {
            VolumeMove::ReadSource => VolumeView::ReadSource,
            VolumeMove::WriteCopy { bytes } => VolumeView::WriteCopy { bytes: bytes@ },
            VolumeMove::ReadBack { bytes } => VolumeView::ReadBack { bytes: bytes@ },
            VolumeMove::RemoveSource => VolumeView::RemoveSource,
            VolumeMove::RemoveCopy => VolumeView::RemoveCopy,
            VolumeMove::Done => VolumeView::Done,
            VolumeMove::Stopped => VolumeView::Stopped,
        }
    }
}

/// How the last thing went.
#[derive(Debug, PartialEq, Eq)]
pub enum VolumeEvent {
    /// A read gave these bytes.
    Read { bytes: Vec<u8> },
    /// A write or a removal succeeded.
    Finished,
    /// It failed.
    Failed,
}

/// The next state. Every failure before the copy is verified stops with the
/// original untouched.
pub open spec fn volume_next(s: VolumeView, e: VolumeEvent) -> VolumeView {
    match (s, e) {
        (VolumeView::ReadSource, VolumeEvent::Read { bytes }) => VolumeView::WriteCopy {
            bytes: bytes@,
        },
        (VolumeView::WriteCopy { bytes }, VolumeEvent::Finished) => VolumeView::ReadBack { bytes },
        (VolumeView::ReadBack { bytes }, VolumeEvent::Read { bytes: copy }) => if copy_is_faithful(
            bytes,
            copy@,
        ) {
            VolumeView::RemoveSource
        } else {
            VolumeView::RemoveCopy
        },
        (VolumeView::RemoveSource, VolumeEvent::Finished) => VolumeView::Done,
        (VolumeView::Done, _) => VolumeView::Done,
        _ => VolumeView::Stopped,
    }
}

/// The next state of a move between two volumes.
pub fn move_across_volumes(state: VolumeMove, event: VolumeEvent) -> (r: VolumeMove)
    ensures
        r@ == volume_next(state@, event),
{
    match (state, event) {
        (VolumeMove::ReadSource, VolumeEvent::Read { bytes }) => VolumeMove::WriteCopy { bytes },
        (VolumeMove::WriteCopy { bytes }, VolumeEvent::Finished) => VolumeMove::ReadBack { bytes },
        (VolumeMove::ReadBack { bytes }, VolumeEvent::Read { bytes: copy }) => if copy_matches(
            &bytes,
            &copy,
        ) {
            VolumeMove::RemoveSource
        } else {
            VolumeMove::RemoveCopy
        },
        (VolumeMove::RemoveSource, VolumeEvent::Finished) => VolumeMove::Done,
        (VolumeMove::Done, _) => VolumeMove::Done,
        _ => VolumeMove::Stopped,
    }
}

// ---------------------------------------------------------------------------
// Laws
// ---------------------------------------------------------------------------

/// The original is only ever removed after its copy was read back and found
/// faithful to the bytes that were written.
pub proof fn the_original_outlives_an_unverified_copy(s: VolumeView, e: VolumeEvent)
    ensures
        volume_next(s, e) is RemoveSource ==> match (s, e) {
            (VolumeView::ReadBack { bytes }, VolumeEvent::Read { bytes: copy }) => copy_is_faithful(
                bytes,
                copy@,
            ),
            _ => false,
        },
{
}

/// A move never writes over a note: the file is moved, or rendered, only to a
/// place that was found empty, or to the free name that was found instead.
pub proof fn a_move_never_overwrites(
    meta: MetaView,
    project: Option<Seq<char>>,
    old_root: Option<PathView>,
    new_root: Option<PathView>,
    clash: ClashChoice,
    source_exists: bool,
    same_file: bool,
    target_exists: bool,
    free: Option<PathView>,
)
    ensures
        ({
            let decision = move_decision(
                meta,
                project,
                old_root,
                new_root,
                clash,
                source_exists,
                same_file,
                target_exists,
                free,
            );
            let landed = match decision {
                Ok(DecisionView::Move { to, .. }) => Some(to),
                Ok(DecisionView::Recreate { to }) => Some(to),
                _ => None,
            };
            landed matches Some(to) ==> if target_exists {
                clash == ClashChoice::KeepBoth && free == Some(to)
            } else {
                move_ends(meta, old_root, new_root).unwrap().1 == to
            }
        }),
{
}

/// Re-filing a draft keeps its file: whatever file the binding named before, it
/// names after, whatever the new project's folder. It is stored relative exactly
/// when the file lies strictly inside that folder; a binding that named nothing
/// is kept as it was.
pub proof fn reassigning_keeps_the_file(
    stored: Option<PathView>,
    old_root: Option<PathView>,
    new_root: Option<PathView>,
)
    requires
        stored matches Some(stored) ==> (resolved(stored, old_root) matches Some(at) ==> {
            &&& well_formed(at)
            &&& at.absolute
            &&& at.parts.len() > 0
            &&& new_root matches Some(root) ==> read_alike(at, root)
        }),
    ensures
        match stored {
            None => rebound(stored, old_root, new_root) is None,
            Some(path) => match resolved(path, old_root) {
                Some(at) => {
                    let next = rebound(stored, old_root, new_root);
                    &&& next is Some
                    &&& same_places(resolved(next.unwrap(), new_root), Some(at))
                    &&& next.unwrap().absolute == !(new_root matches Some(root)
                        && root.parts.len() > 0 && root.parts.is_prefix_of(at.parts)
                        && root.parts.len() < at.parts.len())
                },
                None => rebound(stored, old_root, new_root) == stored,
            },
        },
{
    if let Some(path) = stored {
        if let Some(at) = resolved(path, old_root) {
            crate::draft::save::a_binding_resolves_to_its_path(at, new_root);
        }
    }
}

/// A rename stays in its folder: the new path has the old one's parent.
pub proof fn a_rename_never_leaves_the_folder(d: DraftView, name: Seq<char>, root: Option<PathView>)
    ensures
        rename_paths(d, name, root) matches Ok((from, to)) ==> file_name_of(from) is Some
            ==> same_places(parent_of(to), parent_of(from)),
{
    if let Ok((from, to)) = rename_paths(d, name, root) {
        if file_name_of(from) is Some {
            assert(to.parts.drop_last() =~= from.parts.drop_last());
        }
    }
}

} // verus!
