//! What the store keeps, lists, sweeps, saves and moves, in plain terms.

use crate::draft::error::{DraftError, ErrorView};
use crate::draft::handle::{
    plain_component, plain_line_id, steps_view, AUDIO_DIR, LINES_FILE, META_FILE, META_VERSION,
    TARGET_SAMPLE_RATE, DraftView, LinePlan, MetaView, MovePlan, PlanView, StepView,
};
use crate::draft::log::{counts_view, is_torn, segments_of, tail_of, NEWLINE};
use crate::draft::meaning::the_count_is_of_the_lines_that_are_rendered;
use crate::draft::plan::{is_move_outcome, is_outcome};
use crate::draft::record::{lines_view, LineView};
use crate::draft::relocate::{
    case_only, copy_is_faithful, cross_device_code, move_decision, move_ends, rename_paths,
    volume_next, ClashChoice, DecisionView, VolumeEvent, VolumeView,
};
use crate::draft::save::{
    blake3_hex, is_resave, is_unchanged, note_text, resolved, saved_meta, text_bytes, SaveMode,
    SavePlan, SessionDividers, Transcript,
};
use crate::draft::store::{
    age_of, by_id, by_name, drafts_dir_in, elapsed, is_draft_path, is_listed_name, is_swept,
    kept_count, nanos_of, new_draft, readable_among, summary_of, swept_among, text_le, trash_path,
    unreadable_among, DISCARDED_MARKER, TRASH_DIR, TRASH_RETENTION_SECS, DraftSummary, FoundView,
    RejectedDraft, RejectedView, SummaryView, TrashEntry,
};
use crate::path::{
    below, file_name_of, joined, lemma_split_len, parent_of, renamed, same_place, same_places,
    split_on, NotePath, PartView, PathView,
};
use crate::render::markdown;
use crate::stamp::{rfc3339, Stamp};
use crate::template::note_file_name;
use crate::text::{lowercase, opt_text, trimmed};
use crate::time::Duration;
use vstd::prelude::*;

verus! {

// ---------------------------------------------------------------------------
// The bytes of a log
// ---------------------------------------------------------------------------

/// The pieces, one behind the other, with a separator between two of them.
pub open spec fn joined_with<T>(pieces: Seq<Seq<T>>, sep: T) -> Seq<T>
    decreases pieces.len(),
{
    if pieces.len() == 0 {
        Seq::empty()
    } else if pieces.len() == 1 {
        pieces[0]
    } else {
        joined_with(pieces.drop_last(), sep).push(sep) + pieces.last()
    }
}

/// Cut at its separators, a run is in its pieces and nowhere else: put together
/// again they are the run, and no piece holds a separator.
pub proof fn the_pieces_make_up_the_run<T>(s: Seq<T>, sep: T)
    ensures
        joined_with(split_on(s, sep), sep) == s,
        forall|i: int, j: int|
            0 <= i < split_on(s, sep).len() && 0 <= j < split_on(s, sep)[i].len()
                ==> #[trigger] split_on(s, sep)[i][j] != sep,
    decreases s.len(),
{
    lemma_split_len(s, sep);
    let pieces = split_on(s, sep);
    if s.len() == 0 {
        assert(s =~= Seq::<T>::empty());
    } else {
        let front = s.drop_last();
        let before = split_on(front, sep);
        lemma_split_len(front, sep);
        the_pieces_make_up_the_run(front, sep);
        assert(s =~= front.push(s.last()));
        if s.last() == sep {
            assert(pieces.drop_last() =~= before);
            assert(joined_with(pieces, sep) =~= s);
            assert forall|i: int, j: int|
                0 <= i < pieces.len() && 0 <= j < pieces[i].len() implies #[trigger] pieces[i][j]
                != sep by {
                assert(pieces[i] == before[i]);
            }
        } else {
            assert(pieces.drop_last() =~= before.drop_last());
            assert(pieces.last() == before.last().push(s.last()));
            assert(joined_with(pieces, sep) =~= s);
            assert forall|i: int, j: int|
                0 <= i < pieces.len() && 0 <= j < pieces[i].len() implies #[trigger] pieces[i][j]
                != sep by {
                if i < pieces.len() - 1 {
                    assert(pieces[i] == before[i]);
                } else if j < before.last().len() {
                    assert(pieces[i][j] == before[i][j]);
                }
            }
        }
    }
}

/// A log is torn exactly when it does not end in a newline, and is not empty.
pub proof fn a_log_is_torn_where_it_does_not_end_in_a_newline(raw: Seq<u8>)
    ensures
        is_torn(raw) <==> raw.len() > 0 && raw.last() != 10,
        joined_with(segments_of(raw).push(tail_of(raw)), 10u8) == raw,
{
    lemma_split_len(raw, NEWLINE);
    the_pieces_make_up_the_run(raw, NEWLINE);
    let pieces = split_on(raw, NEWLINE);
    assert(segments_of(raw).push(tail_of(raw)) =~= pieces);
    if raw.len() > 0 && raw.last() != NEWLINE {
        lemma_split_len(raw.drop_last(), NEWLINE);
    }
}

// ---------------------------------------------------------------------------
// Names and lists
// ---------------------------------------------------------------------------

/// The order of names is that of a dictionary: at the first place where two names
/// differ the lower character comes first, and a name comes before its
/// continuations.
pub proof fn names_are_ordered_as_in_a_dictionary(a: Seq<char>, b: Seq<char>)
    ensures
        text_le(a, b) <==> exists|k: int| #![trigger a.take(k)]
            0 <= k <= a.len() && k <= b.len() && a.take(k) == b.take(k) && (k == a.len() || (k
                < b.len() && a[k] < b[k])),
    decreases a.len(),
{
    if a.len() == 0 {
        assert(a.take(0) =~= b.take(0));
    } else if b.len() > 0 && a[0] == b[0] {
        let (x, y) = (a.skip(1), b.skip(1));
        names_are_ordered_as_in_a_dictionary(x, y);
        if text_le(a, b) {
            let k = choose|k: int| #![trigger x.take(k)]
                0 <= k <= x.len() && k <= y.len() && x.take(k) == y.take(k) && (k == x.len() || (k
                    < y.len() && x[k] < y[k]));
            assert(a.take(k + 1) =~= b.take(k + 1)) by {
                assert forall|i: int| 0 <= i < k + 1 implies a[i] == b[i] by {
                    if i > 0 {
                        assert(x.take(k)[i - 1] == y.take(k)[i - 1]);
                    }
                }
            }
        }
        if exists|k: int| #![trigger a.take(k)]
            0 <= k <= a.len() && k <= b.len() && a.take(k) == b.take(k) && (k == a.len() || (k
                < b.len() && a[k] < b[k])) {
            let k = choose|k: int| #![trigger a.take(k)]
                0 <= k <= a.len() && k <= b.len() && a.take(k) == b.take(k) && (k == a.len() || (k
                    < b.len() && a[k] < b[k]));
            assert(k > 0);
            assert(x.take(k - 1) =~= y.take(k - 1)) by {
                assert forall|i: int| 0 <= i < k - 1 implies x[i] == y[i] by {
                    assert(a.take(k)[i + 1] == b.take(k)[i + 1]);
                }
            }
        }
    } else {
        if text_le(a, b) {
            assert(a.take(0) =~= b.take(0));
        }
        if exists|k: int| #![trigger a.take(k)]
            0 <= k <= a.len() && k <= b.len() && a.take(k) == b.take(k) && (k == a.len() || (k
                < b.len() && a[k] < b[k])) {
            let k = choose|k: int| #![trigger a.take(k)]
                0 <= k <= a.len() && k <= b.len() && a.take(k) == b.take(k) && (k == a.len() || (k
                    < b.len() && a[k] < b[k]));
            if k > 0 {
                assert(a.take(k)[0] == b.take(k)[0]);
            }
        }
    }
}

/// A directory is one of the user's drafts unless its name starts with a dot.
pub proof fn only_dot_directories_are_hidden(name: Seq<char>)
    ensures
        is_listed_name(name) <==> name.len() == 0 || name[0] != '.',
{
}

/// Every draft that was found and could be opened is listed, every other
/// directory of the user's is reported, and nothing else is in either list.
pub proof fn what_was_found_is_listed_or_reported(found: Seq<FoundView>)
    ensures
        forall|s: SummaryView| #[trigger]
            readable_among(found).count(s) > 0 <==> exists|i: int|
                0 <= i < found.len() && shows_as(#[trigger] found[i], s),
        forall|r: RejectedView| #[trigger]
            unreadable_among(found).count(r) > 0 <==> exists|i: int|
                0 <= i < found.len() && is_reported(#[trigger] found[i], r),
        readable_among(found).len() + unreadable_among(found).len() == found.filter(
            |f: FoundView| f.name.len() == 0 || f.name[0] != '.',
        ).len(),
    decreases found.len(),
{
    reveal(Seq::filter);
    if found.len() > 0 {
        let rest = found.skip(1);
        let first = found[0];
        what_was_found_is_listed_or_reported(rest);
        assert(found =~= seq![first] + rest);
        let keeps = |f: FoundView| f.name.len() == 0 || f.name[0] != '.';
        lemma_filter_first(found, keeps);
        assert forall|s: SummaryView| #[trigger] readable_among(found).count(s) > 0 <==> exists|
            i: int,
        |
            0 <= i < found.len() && shows_as(#[trigger] found[i], s) by {
            if exists|i: int| 0 <= i < rest.len() && shows_as(#[trigger] rest[i], s) {
                let i = choose|i: int| 0 <= i < rest.len() && shows_as(#[trigger] rest[i], s);
                assert(found[i + 1] == rest[i]);
            }
            if exists|i: int| 0 <= i < found.len() && shows_as(#[trigger] found[i], s) {
                let i = choose|i: int| 0 <= i < found.len() && shows_as(#[trigger] found[i], s);
                if i > 0 {
                    assert(rest[i - 1] == found[i]);
                }
            }
            if shows_as(first, s) {
                assert(shows_as(found[0], s));
            }
            assert(readable_among(rest).count(s) > 0 <==> exists|i: int|
                0 <= i < rest.len() && shows_as(#[trigger] rest[i], s));
        }
        assert forall|r: RejectedView| #[trigger] unreadable_among(found).count(r) > 0 <==> exists|
            i: int,
        |
            0 <= i < found.len() && is_reported(#[trigger] found[i], r) by {
            if exists|i: int| 0 <= i < rest.len() && is_reported(#[trigger] rest[i], r) {
                let i = choose|i: int| 0 <= i < rest.len() && is_reported(#[trigger] rest[i], r);
                assert(found[i + 1] == rest[i]);
            }
            if exists|i: int| 0 <= i < found.len() && is_reported(#[trigger] found[i], r) {
                let i = choose|i: int| 0 <= i < found.len() && is_reported(#[trigger] found[i], r);
                if i > 0 {
                    assert(rest[i - 1] == found[i]);
                }
            }
            if is_reported(first, r) {
                assert(is_reported(found[0], r));
            }
            assert(unreadable_among(rest).count(r) > 0 <==> exists|i: int|
                0 <= i < rest.len() && is_reported(#[trigger] rest[i], r));
        }
    }
}

/// The directory was opened as a draft of the user's, and this is its entry.
pub open spec fn shows_as(f: FoundView, s: SummaryView) -> bool {
    (f.name.len() == 0 || f.name[0] != '.') && (f.opened matches Ok((draft, lines)) && s
        == summary_of(draft, lines, f.dir))
}

/// The directory should have been a draft of the user's, and this is what is said
/// of it.
pub open spec fn is_reported(f: FoundView, r: RejectedView) -> bool {
    (f.name.len() == 0 || f.name[0] != '.') && (f.opened matches Err(error) && r.error == error)
        && r.name == f.name && r.dir == f.dir
}

proof fn lemma_filter_first(found: Seq<FoundView>, keeps: spec_fn(FoundView) -> bool)
    requires
        found.len() > 0,
    ensures
        found.filter(keeps).len() == found.skip(1).filter(keeps).len() + if keeps(found[0]) {
            1nat
        } else {
            0nat
        },
    decreases found.len(),
{
    reveal(Seq::filter);
    if found.len() > 1 {
        let front = found.drop_last();
        lemma_filter_first(front, keeps);
        assert(front.skip(1) =~= found.skip(1).drop_last());
        assert(found.skip(1).last() == found.last());
    } else {
        assert(found.drop_last() =~= Seq::<FoundView>::empty());
        assert(found.skip(1) =~= Seq::<FoundView>::empty());
    }
}

/// An entry of the list says what the draft says of itself, where it lies, and
/// how many of its lines are not deleted.
pub proof fn an_entry_says_what_the_draft_says(
    d: DraftView,
    lines: Seq<LineView>,
    dir: PathView,
)
    ensures
        ({
            let s = summary_of(d, lines, dir);
            &&& s.id == d.meta.id
            &&& s.created_at == d.meta.created_at
            &&& s.project == d.meta.project
            &&& s.dirty == d.meta.dirty
            &&& s.saved_path == d.meta.saved_path
            &&& s.dir == dir
            &&& s.line_count == lines.filter(|l: LineView| !l.deleted).len()
        }),
{
    lemma_kept(lines, lines.len() as int);
    assert(lines.take(lines.len() as int) =~= lines);
}

proof fn lemma_kept(lines: Seq<LineView>, n: int)
    requires
        0 <= n <= lines.len(),
    ensures
        kept_count(lines, n) == lines.take(n).filter(|l: LineView| !l.deleted).len(),
    decreases n,
{
    reveal(Seq::filter);
    if n > 0 {
        lemma_kept(lines, n - 1);
        assert(lines.take(n).drop_last() =~= lines.take(n - 1));
    }
}

/// A new draft lies in a directory of its id under the root. It belongs to the
/// project it was made for, holds nothing, has nothing to save and is bound to no
/// file.
pub proof fn a_new_draft_is_empty_and_clean(
    root: PathView,
    id: Seq<char>,
    project: Option<Seq<char>>,
    at: Stamp,
)
    ensures
        ({
            let d = new_draft(root, id, project, at);
            &&& d.dir.parts == root.parts.push(PartView::Name(id))
            &&& d.meta.id == id
            &&& d.meta.created_at == at
            &&& d.meta.project == project
            &&& d.meta.saved_path is None
            &&& d.meta.last_save_hash is None
            &&& !d.meta.dirty
            &&& d.meta.version == META_VERSION
            &&& d.lines == 0
            &&& !d.needs_newline
            &&& d.last is None
        }),
        trash_path(root, id).parts == root.parts.push(PartView::Name(".trash"@)).push(
            PartView::Name(id),
        ),
        drafts_dir_in(Some(root)).parts == root.parts.push(PartView::Name("sotone"@)).push(
            PartView::Name("drafts"@),
        ),
        drafts_dir_in(None).parts == seq![PartView::Name("drafts"@)],
{
    assert(drafts_dir_in(None).parts =~= seq![PartView::Name("drafts"@)]);
}

/// An id names something only where it is one plain name: not empty, without a
/// dot in front and without a separator; a line's without any dot.
pub proof fn an_id_is_one_plain_name(id: Seq<char>, p: PathView)
    ensures
        plain_component(id, p) ==> id.len() > 0 && id[0] != '.' && p.parts == seq![
            PartView::Name(id),
        ] && forall|i: int| 0 <= i < id.len() ==> #[trigger] id[i] != '/',
        plain_line_id(id, p) ==> plain_component(id, p) && forall|i: int|
            0 <= i < id.len() ==> #[trigger] id[i] != '.',
        id.len() > 0 && p.parts == seq![PartView::Name(id)] && (forall|i: int|
            0 <= i < id.len() ==> #[trigger] id[i] != '/' && id[i] != '.') ==> plain_line_id(id, p),
{
    if id.len() > 0 && p.parts == seq![PartView::Name(id)] && (forall|i: int|
        0 <= i < id.len() ==> #[trigger] id[i] != '/' && id[i] != '.') {
        assert(id[0] != '.');
    }
}

// ---------------------------------------------------------------------------
// The trash
// ---------------------------------------------------------------------------

/// When an entry of the trash was discarded: what its marker says, where it can be
/// read, else when it was last modified, else nobody knows.
pub open spec fn discarded_at(entry: TrashEntry) -> Option<Stamp> {
    let marked = match opt_text(entry.marker) {
        Some(text) => rfc3339(trimmed(text)),
        None => None,
    };
    if marked is Some {
        marked
    } else {
        entry.modified
    }
}

/// The entry has been in the trash for as long as entries are kept, or longer.
pub open spec fn is_due(entry: TrashEntry, now: Stamp, retention: Duration) -> bool {
    match discarded_at(entry) {
        Some(at) => retention.nanos == 0 || (now.secs - at.secs) * 1_000_000_000 + now.nanos
            - at.nanos >= retention.nanos,
        None => false,
    }
}

/// A sweep removes exactly the entries that are known to have been in the trash
/// for as long as entries are kept, in their order. Entries are kept for thirty
/// days.
pub proof fn a_sweep_removes_what_is_due(entries: Seq<TrashEntry>, now: Stamp, retention: Duration)
    ensures
        swept_among(entries, now, retention, entries.len() as int) == entries.filter(
            |e: TrashEntry| is_due(e, now, retention),
        ).map_values(|e: TrashEntry| e.dir@),
        TRASH_RETENTION_SECS == 30 * 24 * 60 * 60,
{
    lemma_swept(entries, now, retention, entries.len() as int);
    assert(entries.take(entries.len() as int) =~= entries);
}

proof fn lemma_swept(entries: Seq<TrashEntry>, now: Stamp, retention: Duration, n: int)
    requires
        0 <= n <= entries.len(),
    ensures
        swept_among(entries, now, retention, n) == entries.take(n).filter(
            |e: TrashEntry| is_due(e, now, retention),
        ).map_values(|e: TrashEntry| e.dir@),
    decreases n,
{
    reveal(Seq::filter);
    let due = |e: TrashEntry| is_due(e, now, retention);
    let place = |e: TrashEntry| e.dir@;
    if n > 0 {
        lemma_swept(entries, now, retention, n - 1);
        assert(entries.take(n).drop_last() =~= entries.take(n - 1));
        let e = entries[n - 1];
        assert(entries.take(n).last() == e);
        let before = entries.take(n - 1).filter(due);
        assert(is_swept(age_of(opt_text(e.marker), e.modified, now), retention) == due(e));
        if due(e) {
            assert(before.push(e).map_values(place) =~= before.map_values(place).push(e.dir@));
        }
    } else {
        assert(entries.take(0).filter(due).map_values(place) =~= Seq::<PathView>::empty());
    }
}

/// How long ago something was is what has to pass for it to be now, and nothing
/// where it is still to come.
pub proof fn an_age_is_the_time_in_between(at: Stamp, now: Stamp)
    ensures
        elapsed(at, now) >= 0,
        nanos_of(now) >= nanos_of(at) ==> at.secs * 1_000_000_000 + at.nanos + elapsed(at, now)
            == now.secs * 1_000_000_000 + now.nanos,
        nanos_of(now) <= nanos_of(at) ==> elapsed(at, now) == 0,
{
}

// ---------------------------------------------------------------------------
// Saving
// ---------------------------------------------------------------------------

/// A save binds the draft to its file, marks it clean and remembers what was
/// written. A draft without a project gets the one it is adopted by; everything
/// else of it stays.
pub proof fn a_save_changes_nothing_else(
    meta: MetaView,
    path: PathView,
    adopt: Option<Seq<char>>,
    written: Seq<u8>,
)
    ensures
        ({
            let after = saved_meta(meta, path, None, adopt, written);
            &&& after.saved_path == Some(path)
            &&& !after.dirty
            &&& after.last_save_hash == Some(blake3_hex(written))
            &&& meta.project is Some ==> after.project == meta.project
            &&& meta.project is None ==> after.project == adopt
            &&& after.id == meta.id
            &&& after.created_at == meta.created_at
            &&& after.version == meta.version
        }),
{
}

/// A guarded save goes ahead exactly when there is no file, or the file holds what
/// was last written, by its hash.
pub proof fn a_guarded_save_writes_over_its_own_work_only(
    meta: MetaView,
    existing: Option<Seq<u8>>,
)
    ensures
        is_unchanged(meta, existing) <==> (existing matches Some(bytes) ==> (
        meta.last_save_hash matches Some(hash) && hash == blake3_hex(bytes))),
{
}

/// The rules between sittings are in the note exactly when they are wanted.
pub proof fn dividers_are_shown_where_they_are_wanted(header: Option<Seq<char>>, t: Transcript)
    ensures
        note_text(header, SessionDividers::Shown, t) == markdown(
            header,
            lines_view(t.lines@),
            Some(counts_view(t.sessions@)),
        ),
        note_text(header, SessionDividers::Hidden, t) == markdown(
            header,
            lines_view(t.lines@),
            None,
        ),
{
}

/// A stored path names a file: itself where it is absolute, the place below the
/// notes folder where it is not, and nothing where it is not and there is no
/// folder.
pub proof fn a_stored_path_names_its_file(stored: PathView, root: PathView)
    ensures
        stored.absolute ==> resolved(stored, Some(root)) == Some(stored) && resolved(stored, None)
            == Some(stored),
        !stored.absolute ==> resolved(stored, Some(root)) == Some(joined(root, stored))
            && resolved(stored, None) is None,
{
}

// ---------------------------------------------------------------------------
// Renaming and moving
// ---------------------------------------------------------------------------

/// A rename starts at the file the draft is bound to and ends next to it, under
/// the name that was typed. A draft that was never saved, or whose file cannot be
/// told, is not renamed.
pub proof fn a_rename_ends_next_to_the_file(
    d: DraftView,
    name: Seq<char>,
    root: Option<PathView>,
)
    ensures
        match d.meta.saved_path {
            None => rename_paths(d, name, root) == Err::<(PathView, PathView), ErrorView>(
                ErrorView::NeverSaved { path: d.dir },
            ),
            Some(stored) => match resolved(stored, root) {
                None => rename_paths(d, name, root) == Err::<(PathView, PathView), ErrorView>(
                    ErrorView::UnresolvedPath { path: d.dir, relative: stored },
                ),
                Some(file) => rename_paths(d, name, root) matches Ok((from, to)) && from == file
                    && to == renamed(file, note_file_name(name)),
            },
        },
{
}

/// Two names are the same file in another spelling exactly when they are in the
/// same folder, differ in case alone, and were found to be one file.
pub proof fn a_case_only_rename_is_of_one_file(from: PathView, to: PathView, same_file: bool)
    ensures
        case_only(from, to, same_file) <==> {
            &&& same_file
            &&& same_places(parent_of(from), parent_of(to))
            &&& file_name_of(from) is Some && file_name_of(to) is Some
            &&& lowercase(file_name_of(from).unwrap()) == lowercase(file_name_of(to).unwrap())
        },
{
}

/// What a move into another project comes down to. The note keeps its file name
/// and goes into the folder of the new project, where there is a file and a
/// folder; it is asked about a name that is taken, or goes by the free one.
pub proof fn a_move_goes_into_the_new_folder(
    meta: MetaView,
    project: Option<Seq<char>>,
    old_root: Option<PathView>,
    root: PathView,
    clash: ClashChoice,
    source_exists: bool,
    same_file: bool,
    target_exists: bool,
    free: Option<PathView>,
    stored: PathView,
    file: Seq<char>,
)
    requires
        meta.saved_path == Some(stored),
        file_name_of(stored) == Some(file),
        meta.project != project,
    ensures
        ({
            let decision = move_decision(
                meta,
                project,
                old_root,
                Some(root),
                clash,
                source_exists,
                same_file,
                target_exists,
                free,
            );
            let to = below(root, file);
            let source = if source_exists {
                resolved(stored, old_root)
            } else {
                None
            };
            let there = source matches Some(at) && (same_place(at, to) || case_only(
                at,
                to,
                same_file,
            ));
            &&& there ==> decision == Ok::<DecisionView, ErrorView>(DecisionView::Retag)
            &&& !there && target_exists && clash == ClashChoice::Ask ==> decision == Ok::<
                DecisionView,
                ErrorView,
            >(DecisionView::Clash { at: to, free })
            &&& !there && target_exists && clash == ClashChoice::KeepBoth && free is None
                ==> decision == Err::<DecisionView, ErrorView>(ErrorView::NameTaken { path: to })
            &&& !there && !target_exists && source is Some ==> decision == Ok::<
                DecisionView,
                ErrorView,
            >(DecisionView::Move { from: source.unwrap(), to })
            &&& !there && !target_exists && source is None ==> decision == Ok::<
                DecisionView,
                ErrorView,
            >(DecisionView::Recreate { to })
            &&& !there && target_exists && clash == ClashChoice::KeepBoth && free is Some
                && source is Some ==> decision == Ok::<DecisionView, ErrorView>(
                DecisionView::Move { from: source.unwrap(), to: free.unwrap() },
            )
            &&& !there && target_exists && clash == ClashChoice::KeepBoth && free is Some
                && source is None ==> decision == Ok::<DecisionView, ErrorView>(
                DecisionView::Recreate { to: free.unwrap() },
            )
        }),
{
}

/// A draft that is in the project already is left alone; one that was never saved,
/// or that goes where there is no folder, only changes its project.
pub proof fn a_move_without_a_file_only_changes_the_project(
    meta: MetaView,
    project: Option<Seq<char>>,
    old_root: Option<PathView>,
    new_root: Option<PathView>,
    clash: ClashChoice,
    source_exists: bool,
    same_file: bool,
    target_exists: bool,
    free: Option<PathView>,
)
    ensures
        ({
            let decision = move_decision(
                meta,
                project,
                old_root,
                new_root,
                clash,
                source_exists,
                same_file,
                target_exists,
                free,
            );
            &&& decision == Ok::<DecisionView, ErrorView>(DecisionView::Unchanged) <==> meta.project
                == project
            &&& meta.project != project && (meta.saved_path is None || new_root is None)
                ==> decision == Ok::<DecisionView, ErrorView>(DecisionView::Retag)
        }),
        move_ends(meta, old_root, new_root) is Some ==> meta.saved_path is Some && new_root is Some,
{
}

/// Between two volumes a note is read, written, read back and only then removed;
/// what is written is what was read. Whatever fails before stops the move with the
/// note where it was.
pub proof fn a_note_moves_between_volumes_step_by_step(bytes: Vec<u8>, copy: Vec<u8>)
    ensures
        volume_next(VolumeView::ReadSource, VolumeEvent::Read { bytes }) == (VolumeView::WriteCopy {
            bytes: bytes@,
        }),
        volume_next(VolumeView::WriteCopy { bytes: bytes@ }, VolumeEvent::Finished) == (
        VolumeView::ReadBack { bytes: bytes@ }),
        bytes@ == copy@ ==> volume_next(
            VolumeView::ReadBack { bytes: bytes@ },
            VolumeEvent::Read { bytes: copy },
        ) is RemoveSource,
        bytes@.len() != copy@.len() || blake3_hex(bytes@) != blake3_hex(copy@) ==> volume_next(
            VolumeView::ReadBack { bytes: bytes@ },
            VolumeEvent::Read { bytes: copy },
        ) is RemoveCopy,
        volume_next(VolumeView::RemoveSource, VolumeEvent::Finished) is Done,
        volume_next(VolumeView::ReadSource, VolumeEvent::Failed) is Stopped,
        volume_next(VolumeView::WriteCopy { bytes: bytes@ }, VolumeEvent::Failed) is Stopped,
        volume_next(VolumeView::ReadBack { bytes: bytes@ }, VolumeEvent::Failed) is Stopped,
        volume_next(VolumeView::RemoveSource, VolumeEvent::Failed) is Stopped,
        volume_next(VolumeView::RemoveCopy, VolumeEvent::Finished) is Stopped,
        copy_is_faithful(bytes@, copy@) ==> bytes@.len() == copy@.len(),
        cross_device_code(true) == 17 && cross_device_code(false) == 18,
{
}

// ---------------------------------------------------------------------------
// Outcomes
// ---------------------------------------------------------------------------

/// Drafts are listed by their ids and unreadable ones by their names, the lowest
/// first.
pub proof fn lists_are_in_ascending_order(
    drafts: Seq<DraftSummary>,
    rejected: Seq<RejectedDraft>,
    i: int,
    j: int,
)
    requires
        by_id(drafts),
        by_name(rejected),
        0 <= i < j,
    ensures
        j < drafts.len() ==> text_le(drafts[i].id@, drafts[j].id@),
        j < rejected.len() ==> text_le(rejected[i].name@, rejected[j].name@),
{
}

/// An id that is a plain name leads to the directory of that name under the root,
/// and any other is refused with itself and the root.
pub proof fn an_id_leads_under_the_root_or_is_refused(
    r: Result<NotePath, DraftError>,
    root: PathView,
    id: Seq<char>,
    name: PathView,
)
    requires
        is_draft_path(r, root, id, name),
    ensures
        match r {
            Ok(path) => plain_component(id, name) && path@.parts == root.parts.push(
                PartView::Name(id),
            ) && path@.absolute == root.absolute,
            Err(e) => !plain_component(id, name) && e@ == (ErrorView::BadId { id, path: root }),
        },
{
}

/// An outcome is what it was planned to be: the same writes and the same line, or
/// the same error.
pub proof fn an_outcome_is_as_planned(
    r: Result<LinePlan, DraftError>,
    want: Result<PlanView, ErrorView>,
    m: Result<MovePlan, DraftError>,
    order: Result<(Seq<StepView>, Seq<LineView>), ErrorView>,
)
    requires
        is_outcome(r, want),
        is_move_outcome(m, order),
    ensures
        r is Ok <==> want is Ok,
        r matches Ok(plan) ==> steps_view(plan.steps@) == want->Ok_0.steps && plan.record@
            == want->Ok_0.record,
        r matches Err(e) ==> e@ == want->Err_0,
        m is Ok <==> order is Ok,
        m matches Ok(plan) ==> steps_view(plan.steps@) == order->Ok_0.0 && lines_view(plan.lines@)
            == order->Ok_0.1,
        m matches Err(e) ==> e@ == order->Err_0,
{
}

/// A re-save writes the note to the file the draft is bound to. It is refused
/// where there is none, where it cannot be told, and, if it is guarded, where the
/// file is not what was last written.
pub proof fn a_resave_writes_to_the_bound_file(
    r: Result<SavePlan, DraftError>,
    d: DraftView,
    header: Option<Seq<char>>,
    mode: SaveMode,
    dividers: SessionDividers,
    t: Transcript,
    existing: Option<Seq<u8>>,
)
    requires
        is_resave(r, d, header, mode, dividers, t, existing),
    ensures
        match r {
            Ok(plan) => {
                &&& d.meta.saved_path == Some(plan.report.path@)
                &&& plan.report.path@.absolute
                &&& mode == SaveMode::Guarded ==> is_unchanged(d.meta, existing)
                &&& plan.markdown@ == note_text(header, dividers, t)
                &&& plan.report.bytes == text_bytes(plan.markdown@).len()
                &&& plan.report.lines == lines_view(t.lines@).filter(
                    |l: LineView| !l.deleted && !l.failed,
                ).len()
            },
            Err(e) => match d.meta.saved_path {
                None => e@ == (ErrorView::NeverSaved { path: d.dir }),
                Some(stored) => if !stored.absolute {
                    e@ == (ErrorView::UnresolvedPath { path: d.dir, relative: stored })
                } else {
                    mode == SaveMode::Guarded && !is_unchanged(d.meta, existing) && e@ == (
                    ErrorView::SaveConflict { path: stored })
                },
            },
        },
{
    the_count_is_of_the_lines_that_are_rendered(lines_view(t.lines@));
}

/// What a draft is kept in, and how: the names of its files and its audio, which
/// is sixteen thousand samples a second.
pub proof fn a_draft_is_kept_in_these_files()
    ensures
        META_FILE@ == "meta.json"@,
        LINES_FILE@ == "lines.jsonl"@,
        AUDIO_DIR@ == "audio"@,
        TRASH_DIR@ == ".trash"@,
        DISCARDED_MARKER@ == "discarded_at"@,
        TARGET_SAMPLE_RATE == 16000,
        META_VERSION == 1,
{
}

} // verus!
