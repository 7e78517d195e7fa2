//! What the log means, record by record, and what each operation does to a
//! transcript, in terms of its lines.

use crate::draft::handle::{
    audio_field, first_place, lemma_first_place, live_change, state_after, AUDIO_DIR, DraftView,
    LiveChange, StepView,
};
use crate::draft::laws::{
    distinct_ids, lemma_fold_one_more, lemma_found, lemma_one_more_line, lemma_reposition_map,
    plain_births,
};
use crate::draft::log::{
    can_reposition, decodes, finished, fold, landing, lemma_index_of, lemma_place_of, lossy_text,
    place_of, read_off, repositioned, settled, step, the_fold_keeps_every_line, Fold, LogTail,
    ParsedView,
};
use crate::draft::plan::{
    append_plan, correct_plan, import_plan, import_record, import_steps, lifted, move_plan,
    session_steps, MovedView, NewLine,
};
use crate::draft::record::{live_count, EditView, EntryView, LineView, LogEntry, MoveView};
use crate::path::below;
use crate::stamp::Stamp;
use crate::text::is_white;
use vstd::prelude::*;

verus! {

// ---------------------------------------------------------------------------
// Moving an item
// ---------------------------------------------------------------------------

/// The result is the list with the item at `from` taken out and put back at
/// `to`, and nothing else changed.
pub open spec fn moved_item<T>(items: Seq<T>, out: Seq<T>, from: int, to: int) -> bool {
    &&& out.len() == items.len()
    &&& 0 <= to < out.len()
    &&& out[to] == items[from]
    &&& out.remove(to) == items.remove(from)
}

/// A moved item stands immediately behind its anchor, or in front of everything
/// where there is none; all the others stay in their order.
pub proof fn a_moved_item_stands_behind_its_anchor<T>(
    items: Seq<T>,
    from: int,
    anchor: Option<int>,
) -> (to: int)
    requires
        can_reposition(items.len() as int, from, anchor),
        anchor != Some(from),
    ensures
        moved_item(items, repositioned(items, from, anchor), from, to),
        anchor is None ==> to == 0 && repositioned(items, from, anchor)[0] == items[from],
        anchor matches Some(a) ==> to > 0 && repositioned(items, from, anchor)[to - 1] == items[a]
            && repositioned(items, from, anchor)[to] == items[from],
        anchor matches Some(a) ==> a < from ==> to == a + 1,
        anchor matches Some(a) ==> a > from ==> to == a,
{
    let to = landing(from, anchor);
    let out = repositioned(items, from, anchor);
    assert(out.remove(to) =~= items.remove(from));
    to
}

/// A move is settled exactly when it would leave a list of different items as it
/// is.
pub proof fn a_settled_move_changes_nothing<T>(items: Seq<T>, from: int, anchor: Option<int>)
    requires
        can_reposition(items.len() as int, from, anchor),
        anchor != Some(from),
        items.no_duplicates(),
    ensures
        settled(from, anchor) <==> repositioned(items, from, anchor) == items,
{
    let out = repositioned(items, from, anchor);
    let to = landing(from, anchor);
    assert(out[to] == items[from]);
    if settled(from, anchor) {
        assert(out =~= items);
    } else {
        assert(to != from);
        assert(out[to] != items[to]);
    }
}

// ---------------------------------------------------------------------------
// Counting
// ---------------------------------------------------------------------------

/// The lines that count are those that are neither deleted nor failed.
pub proof fn the_count_is_of_the_lines_that_are_rendered(lines: Seq<LineView>)
    ensures
        live_count(lines) == lines.filter(|l: LineView| !l.deleted && !l.failed).len(),
    decreases lines.len(),
{
    reveal(Seq::filter);
    if lines.len() > 0 {
        the_count_is_of_the_lines_that_are_rendered(lines.drop_last());
    }
}

// ---------------------------------------------------------------------------
// The log, record by record
// ---------------------------------------------------------------------------

/// A line record adds a line at the end, which reads as it was written, in the
/// sitting that is open. It counts as failed only while it has no words.
pub proof fn a_line_record_adds_its_line(entries: Seq<EntryView>, torn: bool, l: LineView)
    ensures
        ({
            let before = read_off(fold(entries), torn);
            let after = read_off(fold(entries.push(EntryView::Line(l))), torn);
            let new = after.lines.last();
            &&& after.lines.len() == before.lines.len() + 1
            &&& after.lines.drop_last() == before.lines
            &&& new.id == l.id && new.spoken_at == l.spoken_at && new.text == l.text
            &&& new.audio == l.audio && new.deleted == l.deleted
            &&& new.transcribe_ms == l.transcribe_ms && new.original == l.original
            &&& new.failed <==> l.failed && l.text.len() == 0
            &&& after.sessions == before.sessions.push(fold(entries).session)
            &&& after.base_texts == before.base_texts.push(l.text)
            &&& after.base_failed == before.base_failed.push(l.failed)
            &&& after.skipped == before.skipped
            &&& after.tail == LogTail::Record
        }),
{
    the_fold_keeps_every_line(entries);
    lemma_fold_one_more(entries, EntryView::Line(l));
    lemma_one_more_line(fold(entries), torn, l);
    let before = read_off(fold(entries), torn);
    assert(before.lines.push(finished(l, l)).drop_last() =~= before.lines);
}

/// A correction changes the line it names and no other, and of that line only
/// what it carries. The words the line was spoken with are its original as soon
/// as it reads differently, unless it had failed; and a line that had failed
/// counts as failed as long as it has no words.
pub proof fn a_correction_changes_only_what_it_carries(
    entries: Seq<EntryView>,
    torn: bool,
    e: EditView,
    p: int,
)
    requires
        distinct_ids(fold(entries)),
        plain_births(fold(entries)),
        0 <= p < read_off(fold(entries), torn).lines.len(),
        read_off(fold(entries), torn).lines[p].id == e.edit_of,
    ensures
        ({
            let before = read_off(fold(entries), torn);
            let after = read_off(fold(entries.push(EntryView::Edit(e))), torn);
            let (was, line) = (before.lines[p], after.lines[p]);
            let (spoken, failed) = (before.base_texts[p], before.base_failed[p]);
            &&& after.lines.len() == before.lines.len()
            &&& forall|i: int|
                0 <= i < before.lines.len() && i != p ==> #[trigger] after.lines[i]
                    == before.lines[i]
            &&& line.id == was.id && line.spoken_at == was.spoken_at && line.audio == was.audio
            &&& e.text matches Some(t) ==> line.text == t
            &&& e.text is None ==> line.text == was.text
            &&& e.deleted matches Some(d) ==> line.deleted == d
            &&& e.deleted is None ==> line.deleted == was.deleted
            &&& e.transcribe_ms is Some ==> line.transcribe_ms == e.transcribe_ms
            &&& e.transcribe_ms is None ==> line.transcribe_ms == was.transcribe_ms
            &&& line.failed <==> failed && line.text.len() == 0
            &&& !failed && line.text != spoken ==> line.original == Some(spoken)
            &&& failed || line.text == spoken ==> line.original is None
            &&& after.sessions == before.sessions
            &&& after.base_texts == before.base_texts
            &&& after.base_failed == before.base_failed
            &&& after.skipped == before.skipped
            &&& after.tail == LogTail::Record
        }),
{
    let f = fold(entries);
    the_fold_keeps_every_line(entries);
    lemma_fold_one_more(entries, EntryView::Edit(e));
    lemma_found(f, torn, e.edit_of);
    let before = read_off(f, torn);
    let g = step(f, EntryView::Edit(e));
    let after = read_off(g, torn);
    lemma_first_place(before.lines, e.edit_of);
    lemma_reads_apart(f, torn);
    let k = f.order[p];
    assert(place_of(f.births, e.edit_of) == Some(k));
    assert(f.now[k].id == f.births[k].id);
    assert forall|i: int| 0 <= i < before.lines.len() && i != p implies #[trigger] after.lines[i]
        == before.lines[i] by {
        assert(f.order[i] != f.order[p]);
    }
    assert(after.sessions =~= before.sessions);
    assert(after.base_texts =~= before.base_texts);
    assert(after.base_failed =~= before.base_failed);
}

/// No two lines of a read log share an id, where no two records do.
proof fn lemma_reads_apart(f: Fold, torn: bool)
    requires
        crate::draft::log::fold_ok(f),
        distinct_ids(f),
    ensures
        forall|i: int, j: int|
            0 <= i < j < read_off(f, torn).lines.len() ==> (#[trigger] read_off(
                f,
                torn,
            ).lines[i]).id != (#[trigger] read_off(f, torn).lines[j]).id,
{
    let lines = read_off(f, torn).lines;
    assert forall|i: int, j: int| 0 <= i < j < lines.len() implies (#[trigger] lines[i]).id != (
    #[trigger] lines[j]).id by {
        let (a, b) = (f.order[i], f.order[j]);
        assert(a != b);
        assert(f.now[a].id == f.births[a].id);
        assert(f.now[b].id == f.births[b].id);
        if a < b {
            assert(f.births[a].id != f.births[b].id);
        } else {
            assert(f.births[b].id != f.births[a].id);
        }
    }
}

/// A correction or a move of a line that the log does not hold, or to behind one
/// that it does not hold, is counted and changes nothing.
pub proof fn a_record_of_a_line_that_is_not_there_is_counted(
    entries: Seq<EntryView>,
    torn: bool,
    id: Seq<char>,
    e: EditView,
    m: MoveView,
)
    requires
        forall|i: int|
            0 <= i < read_off(fold(entries), torn).lines.len() ==> (#[trigger] read_off(
                fold(entries),
                torn,
            ).lines[i]).id != id,
        e.edit_of == id,
        m.move_of == id || m.after == Some(id),
    ensures
        ({
            let before = read_off(fold(entries), torn);
            let edit = read_off(fold(entries.push(EntryView::Edit(e))), torn);
            let move_ = read_off(fold(entries.push(EntryView::Move(m))), torn);
            &&& edit.lines == before.lines && move_.lines == before.lines
            &&& edit.sessions == before.sessions && move_.sessions == before.sessions
            &&& edit.skipped == before.skipped + 1 && move_.skipped == before.skipped + 1
            &&& edit.tail == LogTail::Record && move_.tail == LogTail::Record
        }),
{
    let f = fold(entries);
    the_fold_keeps_every_line(entries);
    lemma_fold_one_more(entries, EntryView::Edit(e));
    lemma_fold_one_more(entries, EntryView::Move(m));
    lemma_place_of(f.births, id);
    let before = read_off(f, torn);
    assert(place_of(f.births, id) is None) by {
        if let Some(k) = place_of(f.births, id) {
            assert(f.order.contains(k));
            lemma_index_of(f.order, k);
            let i = f.order.index_of(k);
            assert(f.now[k].id == f.births[k].id);
            assert(before.lines[i].id == id);
        }
    }
    let edit = read_off(fold(entries.push(EntryView::Edit(e))), torn);
    let move_ = read_off(fold(entries.push(EntryView::Move(m))), torn);
    assert(edit.lines =~= before.lines);
    assert(move_.lines =~= before.lines);
    assert(edit.sessions =~= before.sessions);
    assert(move_.sessions =~= before.sessions);
}

/// A move puts its line immediately behind the line it names, or in front of all
/// the others where it names none. The line keeps its words and its sitting, and
/// the others keep their order.
#[verifier::rlimit(60)]
#[verifier::spinoff_prover]
pub proof fn a_move_record_puts_its_line_behind_another(
    entries: Seq<EntryView>,
    torn: bool,
    m: MoveView,
    p: int,
    q: int,
) -> (to: int)
    requires
        distinct_ids(fold(entries)),
        0 <= p < read_off(fold(entries), torn).lines.len(),
        read_off(fold(entries), torn).lines[p].id == m.move_of,
        m.after matches Some(after) ==> 0 <= q < read_off(fold(entries), torn).lines.len()
            && read_off(fold(entries), torn).lines[q].id == after && q != p,
    ensures
        ({
            let before = read_off(fold(entries), torn);
            let after = read_off(fold(entries.push(EntryView::Move(m))), torn);
            &&& moved_item(before.lines, after.lines, p, to)
            &&& moved_item(before.sessions, after.sessions, p, to)
            &&& m.after is None ==> to == 0
            &&& m.after is Some ==> to > 0 && after.lines[to - 1] == before.lines[q]
            &&& after.skipped == before.skipped
            &&& after.tail == LogTail::Record
        }),
{
    let f = fold(entries);
    the_fold_keeps_every_line(entries);
    lemma_fold_one_more(entries, EntryView::Move(m));
    lemma_reads_apart(f, torn);
    let before = read_off(f, torn);
    lemma_found(f, torn, m.move_of);
    lemma_first_place(before.lines, m.move_of);
    assert(f.order.index_of(f.order[p]) == p);
    let anchor = match m.after {
        Some(after) => {
            lemma_found(f, torn, after);
            lemma_first_place(before.lines, after);
            assert(f.order.index_of(f.order[q]) == q);
            Some(q)
        },
        None => None,
    };
    let g = step(f, EntryView::Move(m));
    let after = read_off(g, torn);
    let show = |k: int| finished(f.births[k], f.now[k]);
    let sit = |k: int| f.sittings[k];
    let to = a_moved_item_stands_behind_its_anchor(before.lines, p, anchor);
    let same = a_moved_item_stands_behind_its_anchor(before.sessions, p, anchor);
    lemma_reposition_map(f.order, show, p, anchor);
    lemma_reposition_map(f.order, sit, p, anchor);
    assert(f.order.map_values(show) =~= before.lines);
    assert(f.order.map_values(sit) =~= before.sessions);
    if settled(p, anchor) {
        assert(repositioned(before.lines, p, anchor) =~= before.lines);
        assert(repositioned(before.sessions, p, anchor) =~= before.sessions);
        assert(after.lines =~= before.lines);
        assert(after.sessions =~= before.sessions);
    } else {
        assert(after.lines =~= repositioned(before.lines, p, anchor));
        assert(after.sessions =~= repositioned(before.sessions, p, anchor));
    }
    assert(same == to) by {
        if let Some(a) = anchor {
            assert(a != p);
        }
    }
    to
}

/// A marker changes no line; the lines written after it are of the next sitting.
pub proof fn a_marker_opens_the_next_sitting(
    entries: Seq<EntryView>,
    torn: bool,
    at: crate::draft::record::SessionRecord,
    l: LineView,
)
    ensures
        ({
            let before = read_off(fold(entries), torn);
            let marked = entries.push(EntryView::Session(at));
            let after = read_off(fold(marked), torn);
            &&& after.lines == before.lines
            &&& after.sessions == before.sessions
            &&& after.skipped == before.skipped
            &&& after.tail == LogTail::Session
            &&& read_off(fold(marked.push(EntryView::Line(l))), torn).sessions.last() == read_off(
                fold(entries.push(EntryView::Line(l))),
                torn,
            ).sessions.last() + 1
        }),
{
    let e = EntryView::Session(at);
    lemma_fold_one_more(entries, e);
    let marked = entries.push(e);
    a_line_record_adds_its_line(entries, torn, l);
    a_line_record_adds_its_line(marked, torn, l);
    let (before, after) = (read_off(fold(entries), torn), read_off(fold(marked), torn));
    assert(after.lines =~= before.lines);
    assert(after.sessions =~= before.sessions);
}

/// In a log without markers every line is of one and the same sitting, the first.
pub proof fn sittings_are_counted_from_none(entries: Seq<EntryView>)
    requires
        forall|i: int| 0 <= i < entries.len() ==> !(#[trigger] entries[i] is Session),
    ensures
        fold(entries).session == 0,
        forall|i: int| 0 <= i < fold(entries).sittings.len() ==> fold(entries).sittings[i] == 0,
    decreases entries.len(),
{
    if entries.len() > 0 {
        let front = entries.drop_last();
        assert forall|i: int| 0 <= i < front.len() implies !(#[trigger] front[i] is Session) by {
            assert(front[i] == entries[i]);
        }
        sittings_are_counted_from_none(front);
    }
}

/// What is no record changes no line; it is counted unless it is blank. Bytes
/// behind the last newline are counted once more and change nothing else. An
/// empty log has no lines and nothing to count.
pub proof fn what_is_no_record_is_counted(entries: Seq<EntryView>, torn: bool)
    ensures
        ({
            let before = read_off(fold(entries), torn);
            let blank = read_off(fold(entries.push(EntryView::Blank)), torn);
            let other = read_off(fold(entries.push(EntryView::Malformed)), torn);
            &&& blank.lines == before.lines && other.lines == before.lines
            &&& blank.sessions == before.sessions && other.sessions == before.sessions
            &&& blank.tail == before.tail && other.tail == before.tail
            &&& blank.skipped == before.skipped && other.skipped == before.skipped + 1
        }),
        read_off(fold(entries), true).lines == read_off(fold(entries), false).lines,
        read_off(fold(entries), true).sessions == read_off(fold(entries), false).sessions,
        read_off(fold(entries), true).tail == read_off(fold(entries), false).tail,
        read_off(fold(entries), true).skipped == read_off(fold(entries), false).skipped + 1,
        read_off(fold(entries), true).torn_tail && !read_off(fold(entries), false).torn_tail,
        read_off(fold(Seq::empty()), false).lines.len() == 0,
        read_off(fold(Seq::empty()), false).skipped == 0,
        read_off(fold(Seq::empty()), false).tail == LogTail::Empty,
{
    lemma_fold_one_more(entries, EntryView::Blank);
    lemma_fold_one_more(entries, EntryView::Malformed);
    let before = read_off(fold(entries), torn);
    let other = read_off(fold(entries.push(EntryView::Malformed)), torn);
    assert(other.lines =~= before.lines);
    assert(other.sessions =~= before.sessions);
}

// ---------------------------------------------------------------------------
// What operations plan
// ---------------------------------------------------------------------------

/// A new line is written as it was spoken: its words, its moment, how long it
/// took and whether it failed, undeleted, with its audio under its id.
pub proof fn a_new_line_is_written_as_it_was_spoken(
    d: DraftView,
    new: NewLine,
    id: Seq<char>,
    wav: Seq<u8>,
)
    ensures
        ({
            let plan = append_plan(d, new, id, wav);
            let line = plan.record;
            let file = "audio/"@ + id + ".wav"@;
            &&& line.id == id
            &&& line.text == new.text@
            &&& line.spoken_at == new.spoken_at
            &&& line.transcribe_ms == new.transcribe_ms
            &&& line.failed == new.failed
            &&& !line.deleted
            &&& line.original is None
            &&& line.audio == file
            &&& plan.steps.len() == (if d.meta.dirty {
                2nat
            } else {
                3nat
            })
            &&& plan.steps[0] matches StepView::NewFile { path, bytes } && bytes == wav && path
                == below(below(d.dir, "audio"@), id + ".wav"@)
            &&& plan.steps[1] matches StepView::Append { record, settles } && record
                == EntryView::Line(line) && settles == Some(
                if new.failed && new.text@.len() == 0 {
                    LiveChange::Same
                } else {
                    LiveChange::Up
                },
            )
            &&& !d.meta.dirty ==> plan.steps[2] is Meta
        }),
{
    reveal_strlit("audio/");
    reveal_strlit("audio");
    reveal_strlit("/");
    assert("audio/"@ =~= "audio"@ + "/"@);
    assert(AUDIO_DIR@ == "audio"@);
    assert(audio_field(id) =~= "audio/"@ + id + ".wav"@);
}

/// A write that adds a line counts one more, one that takes a line away counts
/// one less, and any other counts the same.
pub proof fn a_write_counts_what_it_settles(d: DraftView, record: EntryView)
    ensures
        state_after(
            d,
            StepView::Append { record, settles: Some(LiveChange::Up) },
        ).lines == d.lines + 1,
        d.lines > 0 ==> state_after(
            d,
            StepView::Append { record, settles: Some(LiveChange::Down) },
        ).lines == d.lines - 1,
        state_after(
            d,
            StepView::Append { record, settles: Some(LiveChange::Same) },
        ).lines == d.lines,
        state_after(d, StepView::Append { record, settles: None }).lines == d.lines,
        live_change(false, true) == LiveChange::Up,
        live_change(true, false) == LiveChange::Down,
        live_change(true, true) == LiveChange::Same,
        live_change(false, false) == LiveChange::Same,
        state_after(
            d,
            StepView::Append { record, settles: Some(LiveChange::Same) },
        ).meta.dirty,
        !state_after(d, StepView::Append { record, settles: None }).needs_newline,
{
}

/// A correction is planned for a line that is there, reports the line with what
/// was asked for and nothing else changed, and writes nothing where the line
/// already reads and stands that way.
pub proof fn a_correction_reports_what_was_asked_for(
    d: DraftView,
    parsed: ParsedView,
    p: int,
    text: Option<Seq<char>>,
    deleted: Option<bool>,
    transcribe_ms: Option<u64>,
    at: Stamp,
)
    requires
        0 <= p < parsed.lines.len(),
        forall|j: int| 0 <= j < p ==> (#[trigger] parsed.lines[j]).id != parsed.lines[p].id,
    ensures
        ({
            let was = parsed.lines[p];
            let plan = correct_plan(d, parsed, was.id, text, deleted, transcribe_ms, at);
            let new_text = match text {
                Some(t) => t,
                None => was.text,
            };
            let new_deleted = match deleted {
                Some(x) => x,
                None => was.deleted,
            };
            let idle = new_text == was.text && new_deleted == was.deleted;
            &&& plan is Ok
            &&& plan->Ok_0.record.text == new_text
            &&& plan->Ok_0.record.deleted == new_deleted
            &&& plan->Ok_0.record.id == was.id
            &&& plan->Ok_0.record.spoken_at == was.spoken_at
            &&& plan->Ok_0.record.audio == was.audio
            &&& idle ==> plan->Ok_0.steps.len() == 0 && plan->Ok_0.record == was
            &&& !idle ==> plan->Ok_0.steps.len() > 0 && (plan->Ok_0.steps[0] matches
                StepView::Append { record: EntryView::Edit(edit), .. } && edit.edit_of == was.id
                && edit.at == at && edit.text == (if new_text == was.text {
                None
            } else {
                Some(new_text)
            }) && edit.deleted == (if new_deleted == was.deleted {
                None
            } else {
                Some(new_deleted)
            }) && edit.transcribe_ms == transcribe_ms)
            &&& !idle ==> plan->Ok_0.record.transcribe_ms == (if transcribe_ms is Some {
                transcribe_ms
            } else {
                was.transcribe_ms
            })
        }),
{
    lemma_first_place(parsed.lines, parsed.lines[p].id);
}

/// Only a line that is there can be corrected or moved, and only behind a line
/// that is there.
pub proof fn a_line_that_is_not_there_is_refused(
    d: DraftView,
    parsed: ParsedView,
    id: Seq<char>,
    text: Option<Seq<char>>,
    deleted: Option<bool>,
    ms: Option<u64>,
    after: Option<Seq<char>>,
    at: Stamp,
)
    ensures
        ({
            let there = |id: Seq<char>|
                exists|i: int| 0 <= i < parsed.lines.len() && (#[trigger] parsed.lines[i]).id == id;
            &&& correct_plan(d, parsed, id, text, deleted, ms, at) is Ok <==> there(id)
            &&& move_plan(d, parsed.lines, id, after, at) is Ok <==> there(id) && (after matches Some(
                a,
            ) ==> there(a))
        }),
{
    lemma_first_place(parsed.lines, id);
    if let Some(a) = after {
        lemma_first_place(parsed.lines, a);
    }
}

/// A move reports the transcript with the line immediately behind the one it was
/// moved to, or in front, and all the others in their order. A move to where the
/// line already stands writes nothing; any other writes one record of itself.
pub proof fn a_move_reports_the_line_behind_the_other(
    d: DraftView,
    lines: Seq<LineView>,
    p: int,
    q: int,
    after: Option<Seq<char>>,
    at: Stamp,
) -> (to: int)
    requires
        forall|i: int, j: int|
            0 <= i < j < lines.len() ==> (#[trigger] lines[i]).id != (#[trigger] lines[j]).id,
        0 <= p < lines.len(),
        after matches Some(a) ==> 0 <= q < lines.len() && lines[q].id == a && q != p,
    ensures
        ({
            let plan = move_plan(d, lines, lines[p].id, after, at);
            &&& plan is Ok
            &&& moved_item(lines, plan->Ok_0.1, p, to)
            &&& after is None ==> to == 0
            &&& after is Some ==> to > 0 && plan->Ok_0.1[to - 1] == lines[q]
            &&& plan->Ok_0.1 == lines ==> plan->Ok_0.0.len() == 0
            &&& plan->Ok_0.1 != lines ==> plan->Ok_0.0.len() > 0 && (plan->Ok_0.0[0] matches
                StepView::Append { record: EntryView::Move(m), settles } && m.move_of
                == lines[p].id && m.after == after && m.at == at && settles == Some(
                LiveChange::Same,
            ))
        }),
{
    let id = lines[p].id;
    lemma_first_place(lines, id);
    let from = first_place(lines, id).unwrap();
    assert(from == p) by {
        if from < p {
            assert(lines[from].id != lines[p].id);
        } else if p < from {
            assert(lines[p].id != lines[from].id);
        }
    }
    let anchor = match after {
        Some(a) => {
            lemma_first_place(lines, a);
            let found = first_place(lines, a).unwrap();
            assert(found == q) by {
                if found < q {
                    assert(lines[found].id != lines[q].id);
                } else if q < found {
                    assert(lines[q].id != lines[found].id);
                }
            }
            Some(q)
        },
        None => None,
    };
    assert(lines.no_duplicates()) by {
        assert forall|i: int, j: int|
            0 <= i < lines.len() && 0 <= j < lines.len() && i != j implies lines[i] != lines[j] by {
            if i < j {
                assert(lines[i].id != lines[j].id);
            } else {
                assert(lines[j].id != lines[i].id);
            }
        }
    }
    let to = a_moved_item_stands_behind_its_anchor(lines, p, anchor);
    a_settled_move_changes_nothing(lines, p, anchor);
    to
}

/// A line that is carried over takes with it the words it was spoken with, the
/// words it reads with, its moment, how long it took, whether it had failed, its
/// audio, and where it came from.
pub proof fn a_lifted_line_takes_everything_along(
    d: DraftView,
    parsed: ParsedView,
    p: int,
    id: Seq<char>,
    audio: Option<Seq<u8>>,
)
    requires
        0 <= p < parsed.lines.len(),
    ensures
        ({
            let moved = lifted(d, parsed, p, id, audio);
            &&& moved.source == d.meta.id
            &&& moved.line == id
            &&& moved.base_text == parsed.base_texts[p]
            &&& moved.text == parsed.lines[p].text
            &&& moved.spoken_at == parsed.lines[p].spoken_at
            &&& moved.transcribe_ms == parsed.lines[p].transcribe_ms
            &&& moved.failed_at_birth == parsed.base_failed[p]
            &&& moved.audio == audio
        }),
{
}

/// A line is taken in unless it is the draft's own. It arrives with the words it
/// reads with and those it was spoken with, its moment, and a byte for byte copy
/// of its audio where there was any; the record of its own is written first.
pub proof fn an_import_writes_the_line_and_its_audio(
    d: DraftView,
    moved: MovedView,
    divide: bool,
    tail: LogTail,
    id: Seq<char>,
    divided_at: Stamp,
    at: Stamp,
)
    ensures
        import_plan(d, moved, divide, tail, id, divided_at, at) is Err <==> d.meta.id
            == moved.source,
        d.meta.id != moved.source ==> {
            let plan = import_plan(d, moved, divide, tail, id, divided_at, at)->Ok_0;
            let line = plan.record;
            let first = import_record(moved, id);
            let files = plan.steps.filter(|s: StepView| s is NewFile);
            &&& line.id == id && line.text == moved.text && line.spoken_at == moved.spoken_at
            &&& line.transcribe_ms == moved.transcribe_ms && !line.deleted
            &&& line.audio == "audio/"@ + id + ".wav"@
            &&& line.failed <==> moved.failed_at_birth && moved.text.len() == 0
            &&& line.original == (if !moved.failed_at_birth && moved.text != moved.base_text {
                Some(moved.base_text)
            } else {
                None
            })
            &&& first.id == id && first.text == moved.base_text && first.failed
                == moved.failed_at_birth && first.original is None
            &&& exists|k: int|
                0 <= k < plan.steps.len() && (#[trigger] plan.steps[k] matches StepView::Append {
                    record,
                    ..
                } && record == EntryView::Line(first))
            &&& moved.audio matches Some(bytes) ==> exists|k: int|
                0 <= k < plan.steps.len() && #[trigger] plan.steps[k] == (StepView::NewFile {
                    path: below(below(d.dir, "audio"@), id + ".wav"@),
                    bytes,
                })
            &&& moved.audio is None ==> forall|k: int|
                0 <= k < plan.steps.len() ==> !(#[trigger] plan.steps[k] is NewFile)
        },
{
    reveal_strlit("audio/");
    reveal_strlit("audio");
    reveal_strlit("/");
    assert("audio/"@ =~= "audio"@ + "/"@);
    assert(audio_field(id) =~= "audio/"@ + id + ".wav"@);
    if d.meta.id != moved.source {
        let plan = import_plan(d, moved, divide, tail, id, divided_at, at)->Ok_0;
        let divides = divide && tail == LogTail::Record;
        let head = crate::draft::plan::session_steps(d, divided_at);
        let start = if divides {
            head.len() as int
        } else {
            0
        };
        let dirty = if divides {
            true
        } else {
            d.meta.dirty
        };
        let rest = import_steps(d.dir, dirty, moved, id, at);
        assert(forall|k: int| 0 <= k < rest.len() ==> plan.steps[start + k] == #[trigger] rest[k]);
        let own = if moved.audio is Some {
            1int
        } else {
            0int
        };
        assert(rest[own] matches StepView::Append { record, .. } && record == EntryView::Line(
            import_record(moved, id),
        ));
        assert(plan.steps[start + own] == rest[own]);
        if moved.audio is Some {
            assert(plan.steps[start] == rest[0]);
        }
    }
}

/// A marker of a new sitting is one record of its moment, which counts nothing,
/// and marks the draft where it was clean.
pub proof fn a_marker_is_one_record(d: DraftView, at: Stamp)
    ensures
        ({
            let steps = session_steps(d, at);
            &&& steps.len() == (if d.meta.dirty {
                1nat
            } else {
                2nat
            })
            &&& steps[0] matches StepView::Append { record: EntryView::Session(s), settles }
                && s.session_at == at && settles == Some(LiveChange::Same)
            &&& !d.meta.dirty ==> steps[1] is Meta
        }),
{
}

/// A piece of the log is read as what decoding its text gives; only one that is
/// nothing but white space is left out.
pub proof fn a_piece_is_read_as_it_decodes<F: Fn(&str) -> LogEntry>(
    decode: F,
    piece: Seq<u8>,
    e: EntryView,
)
    requires
        decodes(decode, piece, e),
    ensures
        (exists|i: int|
            0 <= i < lossy_text(piece).len() && !is_white(#[trigger] lossy_text(piece)[i]))
            ==> exists|text: &str, entry: LogEntry| #[trigger]
            decode.ensures((text,), entry) && text@ == lossy_text(piece) && e == entry@,
        (forall|i: int|
            0 <= i < lossy_text(piece).len() ==> is_white(#[trigger] lossy_text(piece)[i]))
            ==> e is Blank,
{
}

} // verus!
