//! What holds of a draft across operations: what is appended is read back, and
//! what the handle reports is what the log says.

use crate::draft::error::ErrorView;
use crate::draft::handle::{
    audio_dir_of, dirty_steps, first_place, lemma_first_place, live_change, state_after,
    state_after_all, wav_name, DraftView, LiveChange, StepView,
};
use crate::draft::log::{
    edited, finished, fold, fold_ok, framed, is_torn, landing, lemma_index_of, lemma_place_of,
    place_of, read_off, repositioned, segments_of, settled, step, tail_of,
    the_fold_keeps_every_line, NEWLINE, Fold, LogTail, ParsedView,
};
use crate::draft::plan::{
    append_plan, correct_plan, corrected, edit_for, import_edit, import_folded, import_plan,
    import_record, import_steps, lifted, move_plan, new_record, session_steps, MovedView, NewLine,
};
use crate::draft::record::{is_live, live_count, EditView, EntryView, LineView, MoveView};
use crate::path::{below, lemma_split_len, split_on, splitting_a_sum};
use crate::stamp::Stamp;
use vstd::prelude::*;

verus! {

// ---------------------------------------------------------------------------
// Bytes
// ---------------------------------------------------------------------------

proof fn lemma_split_one(json: Seq<u8>)
    requires
        forall|i: int| 0 <= i < json.len() ==> #[trigger] json[i] != NEWLINE,
    ensures
        split_on(json, NEWLINE) == seq![json],
    decreases json.len(),
{
    if json.len() > 0 {
        let front = json.drop_last();
        assert forall|i: int| 0 <= i < front.len() implies #[trigger] front[i] != NEWLINE by {
            assert(front[i] == json[i]);
        }
        lemma_split_one(front);
        assert(front.push(json.last()) =~= json);
        assert(split_on(json, NEWLINE) =~= seq![json]);
    } else {
        assert(json =~= Seq::<u8>::empty());
        assert(split_on(json, NEWLINE) =~= seq![json]);
    }
}

/// Appending a record keeps every byte and every piece that was there, and adds
/// the record as a piece of its own. Bytes of a write that was cut short become
/// a piece of their own too: they are neither removed nor joined to what comes
/// after them.
pub proof fn an_append_adds_one_piece_and_removes_none(raw: Seq<u8>, json: Seq<u8>)
    requires
        forall|i: int| 0 <= i < json.len() ==> #[trigger] json[i] != NEWLINE,
    ensures
        raw.is_prefix_of(raw + framed(is_torn(raw), json)),
        !is_torn(raw + framed(is_torn(raw), json)),
        segments_of(raw + framed(is_torn(raw), json)) == if is_torn(raw) {
            segments_of(raw).push(tail_of(raw)).push(json)
        } else {
            segments_of(raw).push(json)
        },
{
    let torn = is_torn(raw);
    let added = framed(torn, json);
    let pr = split_on(raw, NEWLINE);
    lemma_split_len(raw, NEWLINE);
    lemma_split_one(json);
    // The record and the newline behind it.
    let body = json + seq![NEWLINE];
    assert(body.drop_last() =~= json);
    let pb = split_on(body, NEWLINE);
    assert(pb =~= seq![json, Seq::<u8>::empty()]);
    if torn {
        assert(added =~= seq![NEWLINE] + body);
        let nl = seq![NEWLINE];
        assert(nl.drop_last() =~= Seq::<u8>::empty());
        let pn = split_on(nl, NEWLINE);
        assert(split_on(Seq::<u8>::empty(), NEWLINE) =~= seq![Seq::<u8>::empty()]);
        assert(pn =~= seq![Seq::<u8>::empty(), Seq::<u8>::empty()]);
        splitting_a_sum(nl, body, NEWLINE);
        let pa = split_on(added, NEWLINE);
        assert(Seq::<u8>::empty() + json =~= json);
        assert(pa =~= seq![Seq::<u8>::empty(), json, Seq::<u8>::empty()]);
        splitting_a_sum(raw, added, NEWLINE);
        assert(pr.last() + Seq::<u8>::empty() =~= pr.last());
        assert(split_on(raw + added, NEWLINE) =~= pr.drop_last() + seq![
            pr.last(),
            json,
            Seq::<u8>::empty(),
        ]);
        assert(segments_of(raw + added) =~= segments_of(raw).push(tail_of(raw)).push(json));
    } else {
        assert(added =~= body);
        splitting_a_sum(raw, added, NEWLINE);
        assert(pr.last() =~= Seq::<u8>::empty());
        assert(pr.last() + json =~= json);
        assert(split_on(raw + added, NEWLINE) =~= pr.drop_last() + seq![json, Seq::<u8>::empty()]);
        assert(segments_of(raw + added) =~= segments_of(raw).push(json));
    }
    assert((raw + added).subrange(0, raw.len() as int) =~= raw);
}

// ---------------------------------------------------------------------------
// Counting
// ---------------------------------------------------------------------------

/// One for a line that would be rendered, none for one that would not.
pub open spec fn weight(line: LineView) -> nat {
    if is_live(line) {
        1
    } else {
        0
    }
}

pub proof fn lemma_live_add(a: Seq<LineView>, b: Seq<LineView>)
    ensures
        live_count(a + b) == live_count(a) + live_count(b),
    decreases b.len(),
{
    if b.len() == 0 {
        assert(a + b =~= a);
    } else {
        lemma_live_add(a, b.drop_last());
        assert((a + b).drop_last() =~= a + b.drop_last());
        assert((a + b).last() == b.last());
    }
}

pub proof fn lemma_live_one(l: LineView)
    ensures
        live_count(seq![l]) == weight(l),
{
    assert(seq![l].drop_last() =~= Seq::<LineView>::empty());
    assert(seq![l].last() == l);
    assert(live_count(Seq::<LineView>::empty()) == 0);
}

proof fn lemma_live_cut(s: Seq<LineView>, p: int)
    requires
        0 <= p < s.len(),
    ensures
        live_count(s) == live_count(s.take(p)) + weight(s[p]) + live_count(s.skip(p + 1)),
{
    lemma_live_one(s[p]);
    lemma_live_add(s.take(p), seq![s[p]]);
    lemma_live_add(s.take(p) + seq![s[p]], s.skip(p + 1));
    assert(s =~= s.take(p) + seq![s[p]] + s.skip(p + 1));
}

/// Changing one line changes the count by that line alone.
pub proof fn the_count_follows_the_changed_line(s: Seq<LineView>, p: int, l: LineView)
    requires
        0 <= p < s.len(),
    ensures
        live_count(s.update(p, l)) + weight(s[p]) == live_count(s) + weight(l),
{
    lemma_live_cut(s, p);
    let t = s.update(p, l);
    lemma_live_cut(t, p);
    assert(t.take(p) =~= s.take(p));
    assert(t.skip(p + 1) =~= s.skip(p + 1));
}

proof fn lemma_live_remove(s: Seq<LineView>, p: int)
    requires
        0 <= p < s.len(),
    ensures
        live_count(s.remove(p)) + weight(s[p]) == live_count(s),
{
    lemma_live_cut(s, p);
    lemma_live_add(s.take(p), s.skip(p + 1));
    assert(s.remove(p) =~= s.take(p) + s.skip(p + 1));
}

proof fn lemma_live_insert(s: Seq<LineView>, p: int, l: LineView)
    requires
        0 <= p <= s.len(),
    ensures
        live_count(s.insert(p, l)) == live_count(s) + weight(l),
{
    let t = s.insert(p, l);
    lemma_live_cut(t, p);
    assert(t.take(p) =~= s.take(p));
    assert(t.skip(p + 1) =~= s.skip(p));
    lemma_live_add(s.take(p), s.skip(p));
    assert(s =~= s.take(p) + s.skip(p));
}

// ---------------------------------------------------------------------------
// What is reported is what is read back
// ---------------------------------------------------------------------------

/// True when no two lines of the log share an id, which is what fresh ids give.
pub open spec fn distinct_ids(f: Fold) -> bool {
    forall|i: int, j: int|
        0 <= i < j < f.births.len() ==> (#[trigger] f.births[i]).id != (#[trigger] f.births[j]).id
}

/// True when no line record carries an original of its own: the store never
/// writes one.
pub open spec fn plain_births(f: Fold) -> bool {
    forall|i: int| 0 <= i < f.births.len() ==> (#[trigger] f.births[i]).original is None
}

/// The records a list of writes appends to the log, in order.
pub open spec fn records_of(steps: Seq<StepView>) -> Seq<EntryView>
    decreases steps.len(),
{
    if steps.len() == 0 {
        Seq::empty()
    } else {
        let before = records_of(steps.drop_last());
        match steps.last() {
            StepView::Append { record, .. } => before.push(record),
            _ => before,
        }
    }
}

proof fn lemma_records_add(a: Seq<StepView>, b: Seq<StepView>)
    ensures
        records_of(a + b) == records_of(a) + records_of(b),
    decreases b.len(),
{
    if b.len() == 0 {
        assert(a + b =~= a);
        assert(records_of(a) + records_of(b) =~= records_of(a));
    } else {
        lemma_records_add(a, b.drop_last());
        assert((a + b).drop_last() =~= a + b.drop_last());
        assert((a + b).last() == b.last());
        assert(records_of(a + b) =~= records_of(a) + records_of(b));
    }
}

proof fn lemma_state_add(d: DraftView, a: Seq<StepView>, b: Seq<StepView>)
    ensures
        state_after_all(d, a + b) == state_after_all(state_after_all(d, a), b),
    decreases b.len(),
{
    if b.len() == 0 {
        assert(a + b =~= a);
    } else {
        lemma_state_add(d, a, b.drop_last());
        assert((a + b).drop_last() =~= a + b.drop_last());
        assert((a + b).last() == b.last());
    }
}

/// One write alone.
proof fn lemma_one_step(d: DraftView, s: StepView)
    ensures
        state_after_all(d, seq![s]) == state_after(d, s),
        records_of(seq![s]) == match s {
            StepView::Append { record, .. } => seq![record],
            _ => Seq::empty(),
        },
{
    assert(seq![s].drop_last() =~= Seq::<StepView>::empty());
    assert(seq![s].last() == s);
    assert(state_after_all(d, Seq::<StepView>::empty()) == d);
    assert(records_of(Seq::<StepView>::empty()) =~= Seq::<EntryView>::empty());
    assert(Seq::<EntryView>::empty().push(match s {
        StepView::Append { record, .. } => record,
        _ => EntryView::Blank,
    }) =~= seq![
        match s {
            StepView::Append { record, .. } => record,
            _ => EntryView::Blank,
        },
    ]);
}

/// The closing metadata write changes neither the records nor the handle.
proof fn lemma_closing(d: DraftView, steps: Seq<StepView>, dirty: bool)
    ensures
        records_of(steps + dirty_steps(dirty)) == records_of(steps),
        state_after_all(d, steps + dirty_steps(dirty)) == state_after_all(d, steps),
{
    lemma_records_add(steps, dirty_steps(dirty));
    lemma_state_add(d, steps, dirty_steps(dirty));
    if dirty {
        assert(steps + dirty_steps(dirty) =~= steps);
    } else {
        lemma_one_step(state_after_all(d, steps), StepView::Meta);
        assert(records_of(steps) + Seq::<EntryView>::empty() =~= records_of(steps));
    }
}

pub proof fn lemma_fold_one_more(entries: Seq<EntryView>, e: EntryView)
    ensures
        fold(entries + seq![e]) == step(fold(entries), e),
        fold(entries.push(e)) == step(fold(entries), e),
{
    assert((entries + seq![e]).drop_last() =~= entries);
    assert((entries + seq![e]).last() == e);
    assert(entries.push(e) =~= entries + seq![e]);
}

/// Where ids are distinct, the line found in reading order is the line the fold
/// finds.
pub proof fn lemma_found(f: Fold, torn: bool, id: Seq<char>)
    requires
        fold_ok(f),
        distinct_ids(f),
    ensures
        match first_place(read_off(f, torn).lines, id) {
            Some(p) => {
                &&& 0 <= p < f.order.len()
                &&& place_of(f.births, id) == Some(f.order[p])
                &&& f.order.index_of(f.order[p]) == p
                &&& f.births[f.order[p]].id == id
            },
            None => place_of(f.births, id) is None,
        },
{
    let lines = read_off(f, torn).lines;
    lemma_first_place(lines, id);
    lemma_place_of(f.births, id);
    match first_place(lines, id) {
        Some(p) => {
            let k = f.order[p];
            assert(lines[p] == finished(f.births[k], f.now[k]));
            assert(f.now[k].id == f.births[k].id);
            assert(f.births[k].id == id);
            match place_of(f.births, id) {
                Some(j) => {
                    if j != k {
                        if j < k {
                            assert(f.births[j].id != f.births[k].id);
                        } else {
                            assert(f.births[k].id != f.births[j].id);
                        }
                    }
                },
                None => {},
            }
            assert(f.order.contains(k));
            lemma_index_of(f.order, k);
        },
        None => {
            match place_of(f.births, id) {
                Some(k) => {
                    assert(f.order.contains(k));
                    let p = f.order.index_of(k);
                    lemma_index_of(f.order, k);
                    assert(f.now[k].id == f.births[k].id);
                    assert(lines[p].id == id);
                },
                None => {},
            }
        },
    }
}

proof fn lemma_correction_read_back(
    entries: Seq<EntryView>,
    torn: bool,
    d: DraftView,
    id: Seq<char>,
    text: Option<Seq<char>>,
    deleted: Option<bool>,
    transcribe_ms: Option<u64>,
    at: Stamp,
)
    requires
        distinct_ids(fold(entries)),
        plain_births(fold(entries)),
    ensures
        ({
            let before = read_off(fold(entries), torn);
            match correct_plan(d, before, id, text, deleted, transcribe_ms, at) {
                Ok(plan) => {
                    let after = read_off(fold(entries + records_of(plan.steps)), torn);
                    let p = first_place(before.lines, id).unwrap();
                    &&& after.lines == before.lines.update(p, plan.record)
                    &&& after.sessions == before.sessions
                    &&& after.base_failed == before.base_failed
                    &&& after.base_texts == before.base_texts
                    &&& after.skipped == before.skipped
                    &&& d.lines == live_count(before.lines) ==> state_after_all(
                        d,
                        plan.steps,
                    ).lines == live_count(after.lines)
                },
                Err(e) => place_of(fold(entries).births, id) is None,
            }
        }),
{
    let f = fold(entries);
    the_fold_keeps_every_line(entries);
    lemma_found(f, torn, id);
    let before = read_off(f, torn);
    lemma_first_place(before.lines, id);
    match correct_plan(d, before, id, text, deleted, transcribe_ms, at) {
        Err(_) => {},
        Ok(plan) => {
            let p = first_place(before.lines, id).unwrap();
            let k = f.order[p];
            let line = before.lines[p];
            assert(line == finished(f.births[k], f.now[k]));
            assert(f.now[k].id == f.births[k].id);
            let edit = edit_for(line, id, text, deleted, transcribe_ms, at);
            if edit.text is None && edit.deleted is None {
                assert(entries + records_of(plan.steps) =~= entries);
                assert(before.lines.update(p, line) =~= before.lines);
                assert(state_after_all(d, plan.steps) == d);
            } else {
                let change = live_change(is_live(line), is_live(plan.record));
                let write = StepView::Append {
                    record: EntryView::Edit(edit),
                    settles: Some(change),
                };
                lemma_closing(d, seq![write], d.meta.dirty);
                lemma_one_step(d, write);
                assert(records_of(plan.steps) == seq![EntryView::Edit(edit)]);
                lemma_fold_one_more(entries, EntryView::Edit(edit));
                let g = step(f, EntryView::Edit(edit));
                let after = read_off(g, torn);
                assert(f.births[k].original is None);
                assert(finished(g.births[k], g.now[k]) == plan.record);
                assert(after.lines =~= before.lines.update(p, plan.record)) by {
                    assert forall|i: int| 0 <= i < f.order.len() implies #[trigger] after.lines[i]
                        == before.lines.update(p, plan.record)[i] by {
                        if i != p {
                            assert(f.order[i] != f.order[p]);
                        }
                    }
                }
                assert(after.sessions =~= before.sessions);
                assert(after.base_failed =~= before.base_failed);
                assert(after.base_texts =~= before.base_texts);
                the_count_follows_the_changed_line(before.lines, p, plan.record);
                lemma_live_cut(before.lines, p);
            }
        },
    }
}

/// Taking out and putting back commutes with looking each item up.
pub proof fn lemma_reposition_map<A, B>(items: Seq<A>, g: spec_fn(A) -> B, from: int, anchor: Option<int>)
    requires
        0 <= from < items.len(),
        0 <= landing(from, anchor) < items.len(),
    ensures
        repositioned(items, from, anchor).map_values(g) == repositioned(
            items.map_values(g),
            from,
            anchor,
        ),
{
    assert(repositioned(items, from, anchor).map_values(g) =~= repositioned(
        items.map_values(g),
        from,
        anchor,
    ));
}

proof fn lemma_move_read_back(
    entries: Seq<EntryView>,
    torn: bool,
    d: DraftView,
    id: Seq<char>,
    after: Option<Seq<char>>,
    at: Stamp,
)
    requires
        distinct_ids(fold(entries)),
    ensures
        ({
            let before = read_off(fold(entries), torn);
            match move_plan(d, before.lines, id, after, at) {
                Ok((steps, lines)) => {
                    let read = read_off(fold(entries + records_of(steps)), torn);
                    let from = first_place(before.lines, id).unwrap();
                    let anchor = match after {
                        Some(a) => first_place(before.lines, a),
                        None => None,
                    };
                    &&& read.lines == lines
                    &&& !settled(from, anchor) ==> read.sessions == repositioned(
                        before.sessions,
                        from,
                        anchor,
                    )
                    &&& settled(from, anchor) ==> read == before
                    &&& read.skipped == before.skipped
                    &&& live_count(read.lines) == live_count(before.lines)
                    &&& state_after_all(d, steps).lines == d.lines
                },
                Err(_) => true,
            }
        }),
{
    let f = fold(entries);
    the_fold_keeps_every_line(entries);
    lemma_found(f, torn, id);
    let before = read_off(f, torn);
    lemma_first_place(before.lines, id);
    match move_plan(d, before.lines, id, after, at) {
        Err(_) => {},
        Ok((steps, lines)) => {
            let from = first_place(before.lines, id).unwrap();
            let anchor = match after {
                Some(a) => first_place(before.lines, a),
                None => None,
            };
            match after {
                Some(a) => {
                    lemma_found(f, torn, a);
                    lemma_first_place(before.lines, a);
                },
                None => {},
            }
            if settled(from, anchor) {
                assert(entries + records_of(steps) =~= entries);
                assert(state_after_all(d, steps) == d);
            } else {
                let moved = MoveView { move_of: id, at, after };
                let write = StepView::Append {
                    record: EntryView::Move(moved),
                    settles: Some(LiveChange::Same),
                };
                lemma_closing(d, seq![write], d.meta.dirty);
                lemma_one_step(d, write);
                assert(records_of(steps) == seq![EntryView::Move(moved)]);
                lemma_fold_one_more(entries, EntryView::Move(moved));
                let g = step(f, EntryView::Move(moved));
                assert(g.order == repositioned(f.order, from, anchor));
                lemma_reposition_map(
                    f.order,
                    |k: int| finished(f.births[k], f.now[k]),
                    from,
                    anchor,
                );
                lemma_reposition_map(f.order, |k: int| f.sittings[k], from, anchor);
                assert(read_off(g, torn).lines == lines);
                assert(read_off(g, torn).sessions == repositioned(before.sessions, from, anchor));
                lemma_live_remove(before.lines, from);
                lemma_live_insert(
                    before.lines.remove(from),
                    landing(from, anchor),
                    before.lines[from],
                );
            }
        },
    }
}

/// A fold with one more line record, and nothing else.
pub proof fn lemma_one_more_line(f: Fold, torn: bool, l: LineView)
    requires
        fold_ok(f),
    ensures
        ({
            let g = step(f, EntryView::Line(l));
            let (old_read, new_read) = (read_off(f, torn), read_off(g, torn));
            &&& new_read.lines == old_read.lines.push(finished(l, l))
            &&& new_read.sessions == old_read.sessions.push(f.session)
            &&& new_read.base_failed == old_read.base_failed.push(l.failed)
            &&& new_read.base_texts == old_read.base_texts.push(l.text)
            &&& new_read.skipped == old_read.skipped
        }),
{
    let g = step(f, EntryView::Line(l));
    let n = f.births.len() as int;
    let (old_read, new_read) = (read_off(f, torn), read_off(g, torn));
    assert forall|i: int| 0 <= i < n implies g.births[#[trigger] f.order[i]]
        == f.births[f.order[i]] && g.now[f.order[i]] == f.now[f.order[i]]
        && g.sittings[f.order[i]] == f.sittings[f.order[i]] by {}
    assert(new_read.lines =~= old_read.lines.push(finished(l, l)));
    assert(new_read.sessions =~= old_read.sessions.push(f.session));
    assert(new_read.base_failed =~= old_read.base_failed.push(l.failed));
    assert(new_read.base_texts =~= old_read.base_texts.push(l.text));
}

proof fn lemma_append_read_back(
    entries: Seq<EntryView>,
    torn: bool,
    d: DraftView,
    new: NewLine,
    id: Seq<char>,
    wav: Seq<u8>,
)
    requires
        new.failed ==> new.text@.len() == 0,
    ensures
        ({
            let before = read_off(fold(entries), torn);
            let plan = append_plan(d, new, id, wav);
            let after = read_off(fold(entries + records_of(plan.steps)), torn);
            &&& after.lines == before.lines.push(plan.record)
            &&& after.sessions == before.sessions.push(fold(entries).session)
            &&& after.skipped == before.skipped
            &&& d.lines == live_count(before.lines) ==> state_after_all(d, plan.steps).lines
                == live_count(after.lines)
        }),
{
    let f = fold(entries);
    the_fold_keeps_every_line(entries);
    let plan = append_plan(d, new, id, wav);
    let record = new_record(new, id);
    let audio = plan.steps[0];
    let write = plan.steps[1];
    let steps = seq![audio, write];
    assert(plan.steps =~= steps + dirty_steps(d.meta.dirty));
    lemma_closing(d, steps, d.meta.dirty);
    assert(steps =~= seq![audio] + seq![write]);
    lemma_records_add(seq![audio], seq![write]);
    lemma_state_add(d, seq![audio], seq![write]);
    lemma_one_step(d, audio);
    lemma_one_step(d, write);
    assert(records_of(plan.steps) =~= seq![EntryView::Line(record)]);
    lemma_fold_one_more(entries, EntryView::Line(record));
    lemma_one_more_line(f, torn, record);
    assert(finished(record, record) == record);
    let before = read_off(f, torn).lines;
    lemma_live_one(record);
    lemma_live_add(before, seq![record]);
    assert(before.push(record) =~= before + seq![record]);
}

/// A fold with one more line record and one correction of it.
proof fn lemma_one_more_edited_line(f: Fold, torn: bool, l: LineView, e: EditView)
    requires
        fold_ok(f),
        e.edit_of == l.id,
    ensures
        ({
            let g = step(step(f, EntryView::Line(l)), EntryView::Edit(e));
            let (old_read, new_read) = (read_off(f, torn), read_off(g, torn));
            &&& new_read.lines == old_read.lines.push(finished(l, edited(l, e)))
            &&& new_read.sessions == old_read.sessions.push(f.session)
            &&& new_read.skipped == old_read.skipped
        }),
{
    let m = step(f, EntryView::Line(l));
    let n = f.births.len() as int;
    assert(m.births.last().id == l.id);
    assert(place_of(m.births, e.edit_of) == Some(n));
    let g = step(m, EntryView::Edit(e));
    let (old_read, new_read) = (read_off(f, torn), read_off(g, torn));
    assert forall|i: int| 0 <= i < n implies g.births[#[trigger] f.order[i]]
        == f.births[f.order[i]] && g.now[f.order[i]] == f.now[f.order[i]]
        && g.sittings[f.order[i]] == f.sittings[f.order[i]] by {}
    assert(new_read.lines =~= old_read.lines.push(finished(l, edited(l, e))));
    assert(new_read.sessions =~= old_read.sessions.push(f.session));
}

/// What taking a line in does to the log and to the handle, without a divider.
proof fn lemma_import_steps(
    entries: Seq<EntryView>,
    torn: bool,
    d: DraftView,
    dirty: bool,
    moved: MovedView,
    id: Seq<char>,
    at: Stamp,
)
    ensures
        ({
            let before = read_off(fold(entries), torn);
            let steps = import_steps(d.dir, dirty, moved, id, at);
            let after = read_off(fold(entries + records_of(steps)), torn);
            let record = import_folded(moved, id);
            &&& after.lines == before.lines.push(record)
            &&& after.sessions == before.sessions.push(fold(entries).session)
            &&& after.skipped == before.skipped
            &&& state_after_all(d, steps).lines == d.lines + weight(record)
            &&& live_count(after.lines) == live_count(before.lines) + weight(record)
        }),
{
    let f = fold(entries);
    the_fold_keeps_every_line(entries);
    let steps = import_steps(d.dir, dirty, moved, id, at);
    let record = import_folded(moved, id);
    let base = import_record(moved, id);
    let change = live_change(false, is_live(record));
    let audio = match moved.audio {
        Some(bytes) => seq![
            StepView::NewFile {
                path: crate::path::below(
                    crate::draft::handle::audio_dir_of(d.dir),
                    crate::draft::handle::wav_name(id),
                ),
                bytes,
            },
        ],
        None => Seq::empty(),
    };
    assert(records_of(audio) =~= Seq::<EntryView>::empty() && state_after_all(d, audio) == d) by {
        if moved.audio is Some {
            lemma_one_step(d, audio[0]);
            assert(audio =~= seq![audio[0]]);
        }
    }
    let lines_before = read_off(f, torn).lines;
    if moved.text != moved.base_text {
        let edit = import_edit(moved, id, at);
        let w1 = StepView::Append { record: EntryView::Line(base), settles: None };
        let w2 = StepView::Append { record: EntryView::Edit(edit), settles: Some(change) };
        let body = audio + seq![w1, w2];
        assert(steps =~= body + dirty_steps(dirty));
        lemma_closing(d, body, dirty);
        assert(body =~= audio + seq![w1] + seq![w2]);
        lemma_records_add(audio, seq![w1]);
        lemma_records_add(audio + seq![w1], seq![w2]);
        lemma_state_add(d, audio, seq![w1]);
        lemma_state_add(d, audio + seq![w1], seq![w2]);
        lemma_one_step(d, w1);
        lemma_one_step(state_after(d, w1), w2);
        let l = EntryView::Line(base);
        let e = EntryView::Edit(edit);
        assert(records_of(steps) =~= seq![l, e]);
        assert(entries + seq![l, e] =~= entries.push(l).push(e));
        lemma_fold_one_more(entries, l);
        lemma_fold_one_more(entries.push(l), e);
        lemma_one_more_edited_line(f, torn, base, edit);
        assert(finished(base, edited(base, edit)) == record);
    } else {
        let w = StepView::Append { record: EntryView::Line(base), settles: Some(change) };
        let body = audio + seq![w];
        assert(steps =~= body + dirty_steps(dirty));
        lemma_closing(d, body, dirty);
        lemma_records_add(audio, seq![w]);
        lemma_state_add(d, audio, seq![w]);
        lemma_one_step(d, w);
        assert(records_of(steps) =~= seq![EntryView::Line(base)]);
        lemma_fold_one_more(entries, EntryView::Line(base));
        lemma_one_more_line(f, torn, base);
        assert(finished(base, base) == record);
    }
    lemma_live_one(record);
    lemma_live_add(lines_before, seq![record]);
    assert(lines_before.push(record) =~= lines_before + seq![record]);
}

proof fn lemma_import_read_back(
    entries: Seq<EntryView>,
    torn: bool,
    d: DraftView,
    moved: MovedView,
    divide: bool,
    id: Seq<char>,
    divided_at: Stamp,
    at: Stamp,
)
    ensures
        ({
            let before = read_off(fold(entries), torn);
            match import_plan(d, moved, divide, before.tail, id, divided_at, at) {
                Ok(plan) => {
                    let after = read_off(fold(entries + records_of(plan.steps)), torn);
                    let divides = divide && before.tail == LogTail::Record;
                    &&& after.lines == before.lines.push(plan.record)
                    &&& after.sessions == before.sessions.push(
                        fold(entries).session + if divides {
                            1nat
                        } else {
                            0nat
                        },
                    )
                    &&& after.skipped == before.skipped
                    &&& d.lines == live_count(before.lines) ==> state_after_all(
                        d,
                        plan.steps,
                    ).lines == live_count(after.lines)
                },
                Err(e) => e == (ErrorView::SameDraft { path: d.dir }) && d.meta.id
                    == moved.source,
            }
        }),
{
    let f = fold(entries);
    let before = read_off(f, torn);
    match import_plan(d, moved, divide, before.tail, id, divided_at, at) {
        Err(_) => {},
        Ok(plan) => {
            if divide && before.tail == LogTail::Record {
                let head = session_steps(d, divided_at);
                let rest = import_steps(d.dir, true, moved, id, at);
                let mark = head[0];
                let marker = mark->Append_record;
                lemma_closing(d, seq![mark], d.meta.dirty);
                lemma_one_step(d, mark);
                assert(head =~= seq![mark] + dirty_steps(d.meta.dirty));
                lemma_records_add(head, rest);
                lemma_state_add(d, head, rest);
                let entries2 = entries.push(marker);
                lemma_fold_one_more(entries, marker);
                assert(entries + records_of(plan.steps) =~= entries2 + records_of(rest));
                let d2 = state_after_all(d, head);
                lemma_import_steps(entries2, torn, d2, true, moved, id, at);
                let f2 = fold(entries2);
                assert(read_off(f2, torn).lines =~= before.lines);
                assert(read_off(f2, torn).sessions =~= before.sessions);
            } else {
                lemma_import_steps(entries, torn, d, d.meta.dirty, moved, id, at);
            }
        },
    }
}

// ---------------------------------------------------------------------------
// Through a write that was cut short
// ---------------------------------------------------------------------------

/// The pieces of a log once the bytes behind its last newline are closed off:
/// they become a piece of their own, in front of what is appended.
pub open spec fn closed_entries(entries: Seq<EntryView>, torn: Option<EntryView>) -> Seq<EntryView> {
    match torn {
        Some(piece) => entries.push(piece),
        None => entries,
    }
}

/// How the log reads. `torn` is what the bytes behind its last newline would
/// decode to, where there are any.
pub open spec fn read_before(entries: Seq<EntryView>, torn: Option<EntryView>) -> ParsedView {
    read_off(fold(entries), torn is Some)
}

/// How the log reads with these bytes closed off.
pub open spec fn read_closed(entries: Seq<EntryView>, torn: Option<EntryView>) -> ParsedView {
    read_off(fold(closed_entries(entries, torn)), false)
}

/// How the log reads once these records are appended. Without any, it is as it
/// was.
pub open spec fn read_after(
    entries: Seq<EntryView>,
    torn: Option<EntryView>,
    records: Seq<EntryView>,
) -> ParsedView {
    if records.len() == 0 {
        read_before(entries, torn)
    } else {
        read_off(fold(closed_entries(entries, torn) + records), false)
    }
}

/// What a write that was cut short leaves behind: nothing that is a record.
pub open spec fn is_remnant(torn: Option<EntryView>) -> bool {
    torn matches Some(piece) ==> piece is Malformed || piece is Blank
}

/// What is left of a write that was cut short changes nothing of what the log
/// reads, before it is closed off and after.
pub proof fn a_remnant_changes_no_line(entries: Seq<EntryView>, torn: Option<EntryView>)
    requires
        is_remnant(torn),
    ensures
        ({
            let before = read_before(entries, torn);
            let closed = read_closed(entries, torn);
            &&& closed.lines == before.lines
            &&& closed.sessions == before.sessions
            &&& closed.base_failed == before.base_failed
            &&& closed.base_texts == before.base_texts
            &&& closed.tail == before.tail
            &&& closed.skipped == before.skipped || torn == Some(EntryView::Blank)
            &&& fold(closed_entries(entries, torn)).session == fold(entries).session
        }),
{
    if let Some(piece) = torn {
        lemma_fold_one_more(entries, piece);
        let (f, g) = (fold(entries), fold(entries.push(piece)));
        assert(read_off(g, false).lines =~= read_off(f, true).lines);
        assert(read_off(g, false).sessions =~= read_off(f, true).sessions);
        assert(read_off(g, false).base_failed =~= read_off(f, true).base_failed);
        assert(read_off(g, false).base_texts =~= read_off(f, true).base_texts);
    }
}

/// A correction is read back as it was reported.
///
/// Once the writes of a correction are done, a fresh read of the log shows the
/// corrected line exactly as the plan reported it, in its place, with every
/// other line as it was; and a handle whose count was right is right again. A
/// write that was cut short before does not change that. Only bytes that turn
/// out to be a whole record, and one that the correction would have been planned
/// otherwise by, are left out.
pub proof fn a_correction_is_read_back_as_reported(
    entries: Seq<EntryView>,
    torn: Option<EntryView>,
    d: DraftView,
    id: Seq<char>,
    text: Option<Seq<char>>,
    deleted: Option<bool>,
    transcribe_ms: Option<u64>,
    at: Stamp,
)
    requires
        distinct_ids(fold(closed_entries(entries, torn))),
        plain_births(fold(closed_entries(entries, torn))),
    ensures
        ({
            let before = read_before(entries, torn);
            let closed = read_closed(entries, torn);
            let planned = correct_plan(d, before, id, text, deleted, transcribe_ms, at);
            let same = correct_plan(d, closed, id, text, deleted, transcribe_ms, at) == planned;
            &&& is_remnant(torn) ==> same
            &&& same ==> match planned {
                Ok(plan) => {
                    let after = read_after(entries, torn, records_of(plan.steps));
                    let p = first_place(closed.lines, id).unwrap();
                    &&& records_of(plan.steps).len() == 0 ==> after == before
                    &&& records_of(plan.steps).len() > 0 ==> {
                        &&& after.lines == closed.lines.update(p, plan.record)
                        &&& after.sessions == closed.sessions
                        &&& after.base_failed == closed.base_failed
                        &&& after.base_texts == closed.base_texts
                        &&& after.skipped == closed.skipped
                        &&& !after.torn_tail
                    }
                    &&& closed.lines[p].id == id
                    &&& records_of(plan.steps).len() == 0 ==> plan.record == closed.lines[p]
                    &&& d.lines == live_count(closed.lines) ==> state_after_all(
                        d,
                        plan.steps,
                    ).lines == live_count(closed.lines.update(p, plan.record))
                },
                Err(_) => place_of(fold(closed_entries(entries, torn)).births, id) is None,
            }
        }),
{
    let whole = closed_entries(entries, torn);
    let closed = read_closed(entries, torn);
    if is_remnant(torn) {
        a_remnant_changes_no_line(entries, torn);
    }
    lemma_correction_read_back(whole, false, d, id, text, deleted, transcribe_ms, at);
    if let Ok(plan) = correct_plan(d, closed, id, text, deleted, transcribe_ms, at) {
        lemma_first_place(closed.lines, id);
        let p = first_place(closed.lines, id).unwrap();
        if records_of(plan.steps).len() == 0 {
            assert(whole + records_of(plan.steps) =~= whole);
            assert(closed.lines.update(p, plan.record)[p] == plan.record);
        }
    }
}

/// A move is read back as it was reported.
///
/// Once the writes of a move are done, a fresh read of the log shows the lines
/// in exactly the order the plan reported. Each line keeps the sitting it was
/// spoken in, and no line is lost, changed or counted differently. A write that
/// was cut short before does not change that, unless its bytes turn out to be a
/// whole record that the move would have been planned otherwise by.
pub proof fn a_move_is_read_back_as_reported(
    entries: Seq<EntryView>,
    torn: Option<EntryView>,
    d: DraftView,
    id: Seq<char>,
    after: Option<Seq<char>>,
    at: Stamp,
)
    requires
        distinct_ids(fold(closed_entries(entries, torn))),
    ensures
        ({
            let before = read_before(entries, torn);
            let closed = read_closed(entries, torn);
            let planned = move_plan(d, before.lines, id, after, at);
            let same = move_plan(d, closed.lines, id, after, at) == planned;
            &&& is_remnant(torn) ==> same
            &&& same ==> match planned {
                Ok((steps, lines)) => {
                    let read = read_after(entries, torn, records_of(steps));
                    let from = first_place(closed.lines, id).unwrap();
                    let anchor = match after {
                        Some(a) => first_place(closed.lines, a),
                        None => None,
                    };
                    &&& records_of(steps).len() == 0 ==> read == before && lines == closed.lines
                    &&& records_of(steps).len() > 0 ==> {
                        &&& read.lines == lines
                        &&& read.sessions == repositioned(closed.sessions, from, anchor)
                        &&& read.skipped == closed.skipped
                        &&& !read.torn_tail
                    }
                    &&& live_count(lines) == live_count(closed.lines)
                    &&& state_after_all(d, steps).lines == d.lines
                },
                Err(_) => true,
            }
        }),
{
    let whole = closed_entries(entries, torn);
    let closed = read_closed(entries, torn);
    if is_remnant(torn) {
        a_remnant_changes_no_line(entries, torn);
    }
    lemma_move_read_back(whole, false, d, id, after, at);
    if let Ok((steps, lines)) = move_plan(d, closed.lines, id, after, at) {
        if records_of(steps).len() == 0 {
            assert(whole + records_of(steps) =~= whole);
        } else {
            let from = first_place(closed.lines, id).unwrap();
            let anchor = match after {
                Some(a) => first_place(closed.lines, a),
                None => None,
            };
            if settled(from, anchor) {
                assert(records_of(steps) =~= Seq::<EntryView>::empty());
            }
        }
    }
}

/// An appended line is read back as it was reported.
///
/// Once the writes of an append are done, a fresh read of the log shows the
/// lines that were there, unchanged, and behind them the new line exactly as
/// the plan reported it; and a handle whose count was right is right again. The
/// bytes of a write that was cut short before stand in front of it as a piece of
/// their own, and count for what they decode to. A refused line that comes with
/// words is the one exception: it is read back as a line that did not fail.
pub proof fn an_append_is_read_back_as_reported(
    entries: Seq<EntryView>,
    torn: Option<EntryView>,
    d: DraftView,
    new: NewLine,
    id: Seq<char>,
    wav: Seq<u8>,
)
    requires
        new.failed ==> new.text@.len() == 0,
    ensures
        ({
            let closed = read_closed(entries, torn);
            let plan = append_plan(d, new, id, wav);
            let after = read_after(entries, torn, records_of(plan.steps));
            &&& after.lines == closed.lines.push(plan.record)
            &&& after.sessions == closed.sessions.push(
                fold(closed_entries(entries, torn)).session,
            )
            &&& after.skipped == closed.skipped
            &&& !after.torn_tail
            &&& d.lines == live_count(closed.lines) ==> state_after_all(d, plan.steps).lines
                == live_count(after.lines)
        }),
{
    let whole = closed_entries(entries, torn);
    let plan = append_plan(d, new, id, wav);
    lemma_append_read_back(whole, false, d, new, id, wav);
    assert(plan.steps[1] is Append);
    lemma_some_record(plan.steps, 1);
}

/// An arriving line is read back as it was reported.
///
/// Once the writes of an import are done, a fresh read of the destination shows
/// its lines, unchanged, and behind them the arrival exactly as the plan
/// reported it, in a sitting of its own when a divider was written; and a
/// handle whose count was right is right again. A write that was cut short
/// before does not change that, unless its bytes turn out to be a whole record
/// that the import would have been planned otherwise by.
pub proof fn an_import_is_read_back_as_reported(
    entries: Seq<EntryView>,
    torn: Option<EntryView>,
    d: DraftView,
    moved: MovedView,
    divide: bool,
    id: Seq<char>,
    divided_at: Stamp,
    at: Stamp,
)
    ensures
        ({
            let before = read_before(entries, torn);
            let closed = read_closed(entries, torn);
            let planned = import_plan(d, moved, divide, before.tail, id, divided_at, at);
            let same = import_plan(d, moved, divide, closed.tail, id, divided_at, at) == planned;
            &&& is_remnant(torn) ==> same
            &&& same ==> match planned {
                Ok(plan) => {
                    let after = read_after(entries, torn, records_of(plan.steps));
                    let divides = divide && closed.tail == LogTail::Record;
                    &&& after.lines == closed.lines.push(plan.record)
                    &&& after.sessions == closed.sessions.push(
                        fold(closed_entries(entries, torn)).session + if divides {
                            1nat
                        } else {
                            0nat
                        },
                    )
                    &&& after.skipped == closed.skipped
                    &&& !after.torn_tail
                    &&& d.lines == live_count(closed.lines) ==> state_after_all(
                        d,
                        plan.steps,
                    ).lines == live_count(after.lines)
                },
                Err(e) => e == (ErrorView::SameDraft { path: d.dir }) && d.meta.id
                    == moved.source,
            }
        }),
{
    let whole = closed_entries(entries, torn);
    let closed = read_closed(entries, torn);
    if is_remnant(torn) {
        a_remnant_changes_no_line(entries, torn);
    }
    lemma_import_read_back(whole, false, d, moved, divide, id, divided_at, at);
    if d.meta.id != moved.source {
        a_divider_is_never_doubled(d, moved, divide, closed.tail, id, divided_at, at);
    }
}

/// A line that is moved into another draft arrives as it read in its own: the
/// same words, the same original, the same stamp, the same failure. It arrives
/// undeleted, under its new id.
pub proof fn a_moved_line_reads_the_same(
    entries: Seq<EntryView>,
    torn: bool,
    d: DraftView,
    p: int,
    audio: Option<Seq<u8>>,
    id: Seq<char>,
)
    requires
        plain_births(fold(entries)),
        0 <= p < read_off(fold(entries), torn).lines.len(),
    ensures
        ({
            let source = read_off(fold(entries), torn);
            let line = source.lines[p];
            let arrival = import_folded(lifted(d, source, p, line.id, audio), id);
            &&& arrival.text == line.text
            &&& arrival.original == line.original
            &&& arrival.failed == line.failed
            &&& arrival.spoken_at == line.spoken_at
            &&& arrival.transcribe_ms == line.transcribe_ms
            &&& !arrival.deleted
            &&& arrival.id == id
        }),
{
    let f = fold(entries);
    the_fold_keeps_every_line(entries);
    let k = f.order[p];
    assert(f.now[k].id == f.births[k].id);
    assert(f.births[k].original is None);
}

/// A divider is never doubled, and never written for nothing: an import writes
/// a marker exactly when it is the first of its batch and the last record of
/// the log is a line, an edit or a move.
pub proof fn a_divider_is_never_doubled(
    d: DraftView,
    moved: MovedView,
    divide: bool,
    tail: LogTail,
    id: Seq<char>,
    divided_at: Stamp,
    at: Stamp,
)
    requires
        d.meta.id != moved.source,
    ensures
        ({
            let records = records_of(
                import_plan(d, moved, divide, tail, id, divided_at, at)->Ok_0.steps,
            );
            &&& records.len() > 0
            &&& records[0] is Session <==> divide && tail == LogTail::Record
            &&& forall|i: int| 1 <= i < records.len() ==> !(#[trigger] records[i] is Session)
        }),
{
    let rest = import_steps(
        d.dir,
        d.meta.dirty || divide && tail == LogTail::Record,
        moved,
        id,
        at,
    );
    lemma_import_records(d, d.meta.dirty || divide && tail == LogTail::Record, moved, id, at);
    if divide && tail == LogTail::Record {
        let head = session_steps(d, divided_at);
        let mark = head[0];
        lemma_closing(d, seq![mark], d.meta.dirty);
        lemma_one_step(d, mark);
        assert(head =~= seq![mark] + dirty_steps(d.meta.dirty));
        lemma_records_add(head, rest);
        let records = records_of(head + rest);
        assert(records[0] is Session);
        assert forall|i: int| 1 <= i < records.len() implies !(#[trigger] records[i] is Session) by {
            assert(records[i] == records_of(rest)[i - 1]);
        }
    }
}

proof fn lemma_import_records(d: DraftView, dirty: bool, moved: MovedView, id: Seq<char>, at: Stamp)
    ensures
        ({
            let records = records_of(import_steps(d.dir, dirty, moved, id, at));
            &&& records.len() > 0
            &&& forall|i: int| 0 <= i < records.len() ==> !(#[trigger] records[i] is Session)
        }),
{
    let steps = import_steps(d.dir, dirty, moved, id, at);
    lemma_no_marker(steps);
    let change = live_change(false, is_live(import_folded(moved, id)));
    let at_line = if moved.audio is Some {
        1int
    } else {
        0int
    };
    assert(steps[at_line] is Append);
    assert(0 <= at_line < steps.len());
    lemma_some_record(steps, at_line);
}

proof fn lemma_some_record(steps: Seq<StepView>, i: int)
    requires
        0 <= i < steps.len(),
        steps[i] is Append,
    ensures
        records_of(steps).len() > 0,
    decreases steps.len(),
{
    if i < steps.len() - 1 {
        assert(steps.drop_last()[i] == steps[i]);
        lemma_some_record(steps.drop_last(), i);
    }
}

proof fn lemma_no_marker(steps: Seq<StepView>)
    requires
        forall|i: int|
            0 <= i < steps.len() && #[trigger] steps[i] is Append ==> !(
            steps[i]->Append_record is Session),
    ensures
        forall|i: int|
            0 <= i < records_of(steps).len() ==> !(#[trigger] records_of(steps)[i] is Session),
    decreases steps.len(),
{
    if steps.len() > 0 {
        let front = steps.drop_last();
        assert forall|i: int| 0 <= i < front.len() && #[trigger] front[i] is Append implies !(
        front[i]->Append_record is Session) by {
            assert(front[i] == steps[i]);
        }
        lemma_no_marker(front);
        assert(steps[steps.len() - 1] == steps.last());
    }
}

/// Editing a line back to the words it was spoken with leaves it without an
/// original, as if it had never been touched.
pub proof fn editing_back_clears_the_original(
    entries: Seq<EntryView>,
    torn: bool,
    p: int,
    edit: EditView,
)
    requires
        plain_births(fold(entries)),
        0 <= p < read_off(fold(entries), torn).lines.len(),
        edit.text == Some(read_off(fold(entries), torn).base_texts[p]),
    ensures
        corrected(
            read_off(fold(entries), torn).lines[p],
            read_off(fold(entries), torn).base_failed[p],
            edit,
        ).original is None,
{
    let f = fold(entries);
    the_fold_keeps_every_line(entries);
    let k = f.order[p];
    assert(f.now[k].id == f.births[k].id);
    assert(f.births[k].original is None);
}

/// A line is on disk after its audio: in every plan that writes a line's own
/// record together with its audio, the file comes first, so a crash can leave
/// audio without a record and never a record without its audio.
pub proof fn audio_comes_before_its_record(
    d: DraftView,
    new: NewLine,
    moved: MovedView,
    wav: Seq<u8>,
    divide: bool,
    tail: LogTail,
    id: Seq<char>,
    divided_at: Stamp,
    at: Stamp,
    k: int,
)
    ensures
        ({
            let steps = append_plan(d, new, id, wav).steps;
            0 <= k < steps.len() && writes_a_line(steps[k]) ==> exists|j: int|
                0 <= j < k && #[trigger] steps[j] == (StepView::NewFile {
                    path: below(audio_dir_of(d.dir), wav_name(id)),
                    bytes: wav,
                })
        }),
        match import_plan(d, moved, divide, tail, id, divided_at, at) {
            Ok(plan) => moved.audio is Some && 0 <= k < plan.steps.len()
                && writes_a_line(plan.steps[k]) ==> exists|j: int|
                0 <= j < k && #[trigger] plan.steps[j] == (StepView::NewFile {
                    path: below(audio_dir_of(d.dir), wav_name(id)),
                    bytes: moved.audio.unwrap(),
                }),
            Err(_) => true,
        },
{
    let steps = append_plan(d, new, id, wav).steps;
    assert(steps[0] == (StepView::NewFile {
        path: below(audio_dir_of(d.dir), wav_name(id)),
        bytes: wav,
    }));
    if let Ok(plan) = import_plan(d, moved, divide, tail, id, divided_at, at) {
        if moved.audio is Some && 0 <= k < plan.steps.len() && writes_a_line(plan.steps[k]) {
            let divider = session_steps(d, divided_at);
            let divides = divide && tail == LogTail::Record;
            let start = if divides {
                divider.len() as int
            } else {
                0
            };
            let rest = import_steps(
                d.dir,
                if divides {
                    true
                } else {
                    d.meta.dirty
                },
                moved,
                id,
                at,
            );
            assert(plan.steps[start] == rest[0]);
            if k < start {
                assert(plan.steps[k] == divider[k]);
            }
        }
    }
}

/// The step writes a line's own record.
pub open spec fn writes_a_line(step: StepView) -> bool {
    match step {
        StepView::Append { record, .. } => record is Line,
        _ => false,
    }
}

} // verus!
