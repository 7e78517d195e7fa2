//! Reading the line log.
//!
//! The log is append-only: lines, corrections, moves and sitting markers, one
//! record per line of bytes. Reading it is cutting the bytes into pieces,
//! decoding each piece, and folding the records in file order.

use crate::draft::record::{
    lines_view, EditRecord, EditView, EntryView, LineRecord, LineView, LogEntry, MoveRecord,
    MoveView,
};
use crate::path::{lemma_split_len, split_on};
use crate::text::{blank, is_blank, same_text};
use vstd::prelude::*;

verus! {

// ---------------------------------------------------------------------------
// Cutting the bytes
// ---------------------------------------------------------------------------

/// The newline byte.
pub const NEWLINE: u8 = 10;

/// The complete pieces of the log: everything in front of a newline.
pub open spec fn segments_of(raw: Seq<u8>) -> Seq<Seq<u8>> {
    split_on(raw, NEWLINE).drop_last()
}

/// What stands behind the last newline: nothing, unless a write was cut short.
pub open spec fn tail_of(raw: Seq<u8>) -> Seq<u8> {
    split_on(raw, NEWLINE).last()
}

/// True when the log ends in the middle of a record.
pub open spec fn is_torn(raw: Seq<u8>) -> bool {
    tail_of(raw).len() > 0
}

/// The contents of a list of byte strings.
pub open spec fn bytes_view(pieces: Seq<Vec<u8>>) -> Seq<Seq<u8>> {
    pieces.map_values(|p: Vec<u8>| p@)
}

/// A log cut at its newlines.
#[derive(Debug, PartialEq, Eq)]
pub struct FramedLog {
    /// The complete pieces, in file order.
    pub segments: Vec<Vec<u8>>,
    /// The bytes behind the last newline.
    pub tail: Vec<u8>,
}

/// Cuts the log at its newlines.
pub fn frame_log(raw: &[u8]) -> (r: FramedLog)
    ensures
        bytes_view(r.segments@) == segments_of(raw@),
        r.tail@ == tail_of(raw@),
{
    let mut segments: Vec<Vec<u8>> = Vec::new();
    let mut tail: Vec<u8> = Vec::new();
    let mut i: usize = 0;
    proof {
        assert(raw@.take(0) =~= Seq::<u8>::empty());
        assert(bytes_view(segments@) =~= segments_of(raw@.take(0)));
    }
    while i < raw.len()
        invariant
            i <= raw@.len(),
            bytes_view(segments@) == segments_of(raw@.take(i as int)),
            tail@ == tail_of(raw@.take(i as int)),
        decreases raw@.len() - i,
    {
        let byte: u8 = raw[i];
        let ghost before = raw@.take(i as int);
        let ghost after = raw@.take(i + 1);
        proof {
            assert(after.drop_last() =~= before);
            assert(after.last() == byte);
            lemma_split_len(before, NEWLINE);
            let pieces = split_on(before, NEWLINE);
            assert(pieces =~= pieces.drop_last().push(pieces.last()));
        }
        if byte == NEWLINE {
            let ghost old_segments = segments@;
            let ghost old_tail = tail;
            segments.push(tail);
            tail = Vec::new();
            proof {
                assert(bytes_view(segments@) =~= bytes_view(old_segments).push(old_tail@));
                assert(segments_of(after) =~= split_on(before, NEWLINE));
            }
        } else {
            tail.push(byte);
            proof {
                assert(segments_of(after) =~= segments_of(before));
            }
        }
        i = i + 1;
    }
    proof {
        assert(raw@.take(raw@.len() as int) =~= raw@);
    }
    FramedLog { segments, tail }
}

/// The bytes that add one encoded record to the log. When the log ends in the
/// middle of a record, a newline in front turns those bytes into a piece of
/// their own.
pub open spec fn framed(needs_newline: bool, json: Seq<u8>) -> Seq<u8> {
    if needs_newline {
        seq![NEWLINE] + json + seq![NEWLINE]
    } else {
        json + seq![NEWLINE]
    }
}

/// The bytes that add one encoded record to the log.
pub fn frame_record(needs_newline: bool, json: &[u8]) -> (r: Vec<u8>)
    ensures
        r@ == framed(needs_newline, json@),
{
    let mut buf: Vec<u8> = Vec::new();
    if needs_newline {
        buf.push(NEWLINE);
    }
    buf.extend_from_slice(json);
    buf.push(NEWLINE);
    proof {
        assert(buf@ =~= framed(needs_newline, json@));
    }
    buf
}

/// `String::from_utf8_lossy` of the bytes.
pub uninterp spec fn lossy_text(bytes: Seq<u8>) -> Seq<char>;

/// `std`'s `String::from_utf8_lossy`: what does not decode is replaced, so the
/// result is a function of the bytes alone.
#[verifier::external_body]
fn read_lossy(bytes: &[u8]) -> (r: String)
    ensures
        r@ == lossy_text(bytes@),
{
    String::from_utf8_lossy(bytes).into_owned()
}

// ---------------------------------------------------------------------------
// Moving an item in a list
// ---------------------------------------------------------------------------

/// True when a move from `from` to just after `anchor` (or to the top, for
/// `None`) leaves a list as it is.
pub open spec fn settled(from: int, anchor: Option<int>) -> bool {
    match anchor {
        None => from == 0,
        Some(a) => a == from || a + 1 == from,
    }
}

/// Where the item at `from` lands, once it is out of the list.
pub open spec fn landing(from: int, anchor: Option<int>) -> int {
    match anchor {
        None => 0,
        Some(a) => if a > from {
            a
        } else {
            a + 1
        },
    }
}

/// The list with the item at `from` moved to just behind the item at `anchor`,
/// or to the front. Both places are counted before the item is taken out.
pub open spec fn repositioned<T>(items: Seq<T>, from: int, anchor: Option<int>) -> Seq<T> {
    items.remove(from).insert(landing(from, anchor), items[from])
}

/// True when there is an item at `from`, and room to put it behind `anchor`.
pub open spec fn can_reposition(len: int, from: int, anchor: Option<int>) -> bool {
    &&& 0 <= from < len
    &&& anchor matches Some(a) ==> 0 <= a < len && (a == from ==> from + 1 < len)
}

/// An optional place in a list, as a number.
pub open spec fn opt_place(at: Option<usize>) -> Option<int> {
    match at {
        Some(at) => Some(at as int),
        None => None,
    }
}

/// Is a move from `from` to just after `anchor` (or to the top, for `None`) a
/// no-op?
pub fn is_settled(from: usize, anchor: Option<usize>) -> (r: bool)
    ensures
        r == settled(from as int, opt_place(anchor)),
{
    match anchor {
        None => from == 0,
        Some(anchor) => anchor == from || (from > 0 && anchor == from - 1),
    }
}

/// Moves the item at `from` so it sits immediately after the item at `anchor`,
/// or at the front when `anchor` is `None`.
pub fn reposition<T>(items: &mut Vec<T>, from: usize, anchor: Option<usize>)
    requires
        can_reposition(old(items)@.len() as int, from as int, opt_place(anchor)),
    ensures
        final(items)@ == repositioned(old(items)@, from as int, opt_place(anchor)),
{
    let count: usize = items.len();
    let item = items.remove(from);
    proof {
        assert(from < count);
    }
    let at: usize = match anchor {
        None => 0,
        Some(anchor) => if anchor > from {
            anchor
        } else {
            anchor + 1
        },
    };
    items.insert(at, item);
}

// ---------------------------------------------------------------------------
// The fold
// ---------------------------------------------------------------------------

/// The shape of the last complete record in a log.
#[derive(Debug, Clone, Copy, PartialEq, Eq, Structural)]
pub enum LogTail {
    /// No complete record of any shape.
    Empty,
    /// The log ends in a sitting marker.
    Session,
    /// A line, an edit or a move.
    Record,
}

/// The records of a log, applied one after the other.
pub struct Fold {
    /// The line records as they were written, in file order.
    pub births: Seq<LineView>,
    /// The same lines with every correction so far applied.
    pub now: Seq<LineView>,
    /// For each line, how many markers stand in front of its record.
    pub sittings: Seq<nat>,
    /// The order the lines read in, as places in `births`.
    pub order: Seq<int>,
    /// How many markers have been seen.
    pub session: nat,
    /// How many pieces could not be used.
    pub skipped: nat,
    /// The last record that was seen.
    pub tail: LogTail,
}

/// The fold of a log with nothing in it.
pub open spec fn no_records() -> Fold {
    Fold {
        births: Seq::empty(),
        now: Seq::empty(),
        sittings: Seq::empty(),
        order: Seq::empty(),
        session: 0,
        skipped: 0,
        tail: LogTail::Empty,
    }
}

/// The place of the last line with that id.
pub open spec fn place_of(lines: Seq<LineView>, id: Seq<char>) -> Option<int>
    decreases lines.len(),
{
    if lines.len() == 0 {
        None
    } else if lines.last().id == id {
        Some(lines.len() - 1)
    } else {
        place_of(lines.drop_last(), id)
    }
}

/// The line with a correction applied: each field the correction carries
/// replaces the line's, and no other field changes.
pub open spec fn edited(line: LineView, edit: EditView) -> LineView {
    LineView {
        text: match edit.text {
            Some(t) => t,
            None => line.text,
        },
        deleted: match edit.deleted {
            Some(d) => d,
            None => line.deleted,
        },
        transcribe_ms: match edit.transcribe_ms {
            Some(ms) => Some(ms),
            None => line.transcribe_ms,
        },
        ..line
    }
}

/// The fold after a move. A move whose line or anchor is not in the log is
/// counted and changes nothing.
pub open spec fn fold_moved(f: Fold, m: MoveView) -> Fold {
    match place_of(f.births, m.move_of) {
        None => Fold { skipped: f.skipped + 1, tail: LogTail::Record, ..f },
        Some(line) => {
            let from = f.order.index_of(line);
            match m.after {
                None => Fold { order: moved_order(f.order, from, None), tail: LogTail::Record, ..f },
                Some(after) => match place_of(f.births, after) {
                    None => Fold { skipped: f.skipped + 1, tail: LogTail::Record, ..f },
                    Some(anchor) => Fold {
                        order: moved_order(f.order, from, Some(f.order.index_of(anchor))),
                        tail: LogTail::Record,
                        ..f
                    },
                },
            }
        },
    }
}

/// The order after a move, which is the same order when the line is there
/// already.
pub open spec fn moved_order(order: Seq<int>, from: int, anchor: Option<int>) -> Seq<int> {
    if settled(from, anchor) {
        order
    } else {
        repositioned(order, from, anchor)
    }
}

/// The fold after one more piece of the log.
pub open spec fn step(f: Fold, e: EntryView) -> Fold {
    match e {
        EntryView::Blank => f,
        EntryView::Malformed => Fold { skipped: f.skipped + 1, ..f },
        EntryView::Line(l) => Fold {
            births: f.births.push(l),
            now: f.now.push(l),
            sittings: f.sittings.push(f.session),
            order: f.order.push(f.births.len() as int),
            tail: LogTail::Record,
            ..f
        },
        EntryView::Edit(e) => match place_of(f.births, e.edit_of) {
            Some(k) => Fold {
                now: f.now.update(k, edited(f.now[k], e)),
                tail: LogTail::Record,
                ..f
            },
            None => Fold { skipped: f.skipped + 1, tail: LogTail::Record, ..f },
        },
        EntryView::Move(m) => fold_moved(f, m),
        EntryView::Session(_) => Fold { session: f.session + 1, tail: LogTail::Session, ..f },
    }
}

/// The fold of a whole log, piece by piece in file order.
pub open spec fn fold(entries: Seq<EntryView>) -> Fold
    decreases entries.len(),
{
    if entries.len() == 0 {
        no_records()
    } else {
        step(fold(entries.drop_last()), entries.last())
    }
}

/// How a line reads, from its record and its corrected state: the words it was
/// written with are its original once it reads differently, unless the model
/// had refused it; and it counts as failed exactly while a refused line has no
/// words.
pub open spec fn finished(birth: LineView, now: LineView) -> LineView {
    LineView {
        original: if now.text != birth.text && !birth.failed {
            Some(birth.text)
        } else {
            now.original
        },
        failed: birth.failed && now.text.len() == 0,
        ..now
    }
}

/// What reading a log gives.
pub struct ParsedView {
    pub lines: Seq<LineView>,
    pub sessions: Seq<nat>,
    pub base_failed: Seq<bool>,
    pub base_texts: Seq<Seq<char>>,
    pub skipped: nat,
    pub torn_tail: bool,
    pub tail: LogTail,
}

/// What a folded log reads as. A torn tail counts as one more piece that could
/// not be used.
pub open spec fn read_off(f: Fold, torn: bool) -> ParsedView {
    ParsedView {
        lines: f.order.map_values(|k: int| finished(f.births[k], f.now[k])),
        sessions: f.order.map_values(|k: int| f.sittings[k]),
        base_failed: f.order.map_values(|k: int| f.births[k].failed),
        base_texts: f.order.map_values(|k: int| f.births[k].text),
        skipped: f.skipped + if torn {
            1nat
        } else {
            0nat
        },
        torn_tail: torn,
        tail: f.tail,
    }
}

/// Result of reading a log.
#[derive(Debug, PartialEq, Eq)]
pub struct ParsedLines {
    /// Every line, folded, in the order it reads in.
    pub lines: Vec<LineRecord>,
    /// Session ordinal per line, parallel to `lines`.
    pub sessions: Vec<usize>,
    /// Whether each line's own record was written as a failure, parallel to
    /// `lines`.
    pub base_failed: Vec<bool>,
    /// The text each line's own record was written with, parallel to `lines`.
    pub base_texts: Vec<String>,
    /// Pieces that could not be used and were left where they are.
    pub skipped: usize,
    /// The log ends in the middle of a record.
    pub torn_tail: bool,
    /// What the last complete record was.
    pub tail: LogTail,
}

/// The contents of a list of texts.
pub open spec fn texts_view(texts: Seq<String>) -> Seq<Seq<char>> {
    texts.map_values(|t: String| t@)
}

/// A list of counts, as numbers.
pub open spec fn counts_view(counts: Seq<usize>) -> Seq<nat> {
    counts.map_values(|n: usize| n as nat)
}

impl View for ParsedLines {
    type V = ParsedView;

    open spec fn view(&self) -> ParsedView {
        ParsedView {
            lines: lines_view(self.lines@),
            sessions: counts_view(self.sessions@),
            base_failed: self.base_failed@,
            base_texts: texts_view(self.base_texts@),
            skipped: self.skipped as nat,
            torn_tail: self.torn_tail,
            tail: self.tail,
        }
    }
}

/// True when the order names every line exactly once, and the lists of the fold
/// run side by side.
pub open spec fn fold_ok(f: Fold) -> bool {
    &&& f.now.len() == f.births.len()
    &&& f.sittings.len() == f.births.len()
    &&& f.order.len() == f.births.len()
    &&& f.order.no_duplicates()
    &&& forall|i: int| 0 <= i < f.order.len() ==> 0 <= #[trigger] f.order[i] < f.births.len()
    &&& forall|k: int| 0 <= k < f.births.len() ==> #[trigger] f.order.contains(k)
    &&& forall|k: int|
        0 <= k < f.births.len() ==> {
            &&& (#[trigger] f.now[k]).id == f.births[k].id
            &&& f.now[k].original == f.births[k].original
            &&& f.now[k].failed == f.births[k].failed
            &&& f.now[k].spoken_at == f.births[k].spoken_at
            &&& f.now[k].audio == f.births[k].audio
        }
}

pub proof fn lemma_place_of(lines: Seq<LineView>, id: Seq<char>)
    ensures
        match place_of(lines, id) {
            Some(k) => 0 <= k < lines.len() && lines[k].id == id && forall|j: int|
                k < j < lines.len() ==> (#[trigger] lines[j]).id != id,
            None => forall|j: int| 0 <= j < lines.len() ==> (#[trigger] lines[j]).id != id,
        },
    decreases lines.len(),
{
    if lines.len() > 0 && lines.last().id != id {
        lemma_place_of(lines.drop_last(), id);
        assert forall|j: int| 0 <= j < lines.len() - 1 implies lines.drop_last()[j] == #[trigger]
            lines[j] by {}
    }
}

/// Moving an item keeps every item: each still stands somewhere, and none
/// stands twice.
pub proof fn repositioning_keeps_every_item(order: Seq<int>, from: int, anchor: Option<int>)
    requires
        can_reposition(order.len() as int, from, anchor),
        order.no_duplicates(),
    ensures
        repositioned(order, from, anchor).len() == order.len(),
        repositioned(order, from, anchor).no_duplicates(),
        forall|k: int|
            repositioned(order, from, anchor).contains(k) <==> #[trigger] order.contains(k),
{
    let out = repositioned(order, from, anchor);
    let at = landing(from, anchor);
    let rest = order.remove(from);
    // Where the item at `i` of the result stood before.
    let source = |i: int|
        if i == at {
            from
        } else {
            let j = if i < at {
                i
            } else {
                i - 1
            };
            if j < from {
                j
            } else {
                j + 1
            }
        };
    assert forall|i: int| 0 <= i < out.len() implies #[trigger] out[i] == order[source(i)] && 0
        <= source(i) < order.len() by {
        if i != at {
            let j = if i < at {
                i
            } else {
                i - 1
            };
            assert(out[i] == rest[j]);
        }
    }
    assert forall|i: int, j: int| 0 <= i < out.len() && 0 <= j < out.len() && i != j implies out[i]
        != out[j] by {
        assert(source(i) != source(j));
        assert(out[i] == order[source(i)]);
        assert(out[j] == order[source(j)]);
    }
    assert forall|k: int| out.contains(k) <==> #[trigger] order.contains(k) by {
        if out.contains(k) {
            let i = choose|i: int| 0 <= i < out.len() && out[i] == k;
            assert(out[i] == order[source(i)]);
        }
        if order.contains(k) {
            let p = choose|p: int| 0 <= p < order.len() && order[p] == k;
            let j = if p < from {
                p
            } else {
                p - 1
            };
            let i = if p == from {
                at
            } else if j < at {
                j
            } else {
                j + 1
            };
            assert(source(i) == p);
            assert(out[i] == order[source(i)]);
        }
    }
}

pub proof fn lemma_index_of(order: Seq<int>, k: int)
    requires
        order.contains(k),
    ensures
        0 <= order.index_of(k) < order.len(),
        order[order.index_of(k)] == k,
{
}

/// One more piece of the log keeps the fold in order.
pub proof fn lemma_step_ok(f: Fold, e: EntryView)
    requires
        fold_ok(f),
    ensures
        fold_ok(step(f, e)),
{
    let g = step(f, e);
    match e {
        EntryView::Line(l) => {
            let n = f.births.len() as int;
            assert(!f.order.contains(n)) by {
                if f.order.contains(n) {
                    let i = choose|i: int| 0 <= i < f.order.len() && f.order[i] == n;
                    assert(f.order[i] < n);
                }
            }
            assert(g.order.last() == n);
            assert forall|i: int, j: int|
                0 <= i < g.order.len() && 0 <= j < g.order.len() && i != j implies g.order[i]
                != g.order[j] by {
                if i < n && j < n {
                    assert(f.order[i] != f.order[j]);
                } else if i < n {
                    assert(f.order.contains(f.order[i]));
                } else {
                    assert(f.order.contains(f.order[j]));
                }
            }
            assert forall|k: int| 0 <= k < g.births.len() implies #[trigger] g.order.contains(
                k,
            ) by {
                if k < n {
                    assert(f.order.contains(k));
                    let i = choose|i: int| 0 <= i < f.order.len() && f.order[i] == k;
                    assert(g.order[i] == k);
                } else {
                    assert(g.order[n] == k);
                }
            }
        },
        EntryView::Edit(e) => {
            lemma_place_of(f.births, e.edit_of);
        },
        EntryView::Move(m) => {
            lemma_place_of(f.births, m.move_of);
            match place_of(f.births, m.move_of) {
                None => {},
                Some(line) => {
                    assert(f.order.contains(line));
                    lemma_index_of(f.order, line);
                    let from = f.order.index_of(line);
                    let anchor = match m.after {
                        None => None,
                        Some(after) => {
                            lemma_place_of(f.births, after);
                            match place_of(f.births, after) {
                                None => None,
                                Some(a) => {
                                    assert(f.order.contains(a));
                                    lemma_index_of(f.order, a);
                                    Some(f.order.index_of(a))
                                },
                            }
                        },
                    };
                    if !settled(from, anchor) {
                        repositioning_keeps_every_item(f.order, from, anchor);
                        let moved = repositioned(f.order, from, anchor);
                        assert forall|i: int| 0 <= i < moved.len() implies 0 <= #[trigger] moved[i]
                            < f.births.len() by {
                            assert(moved.contains(moved[i]));
                            assert(f.order.contains(moved[i]));
                            let p = choose|p: int|
                                0 <= p < f.order.len() && f.order[p] == moved[i];
                            assert(0 <= f.order[p] < f.births.len());
                        }
                        assert forall|k: int| 0 <= k < f.births.len() implies
                            #[trigger] moved.contains(k) by {
                            assert(f.order.contains(k));
                        }
                    }
                },
            }
        },
        _ => {},
    }
}

/// The fold never loses a line: whatever the log holds, the order names every
/// line record exactly once.
pub proof fn the_fold_keeps_every_line(entries: Seq<EntryView>)
    ensures
        fold_ok(fold(entries)),
    decreases entries.len(),
{
    if entries.len() > 0 {
        the_fold_keeps_every_line(entries.drop_last());
        lemma_step_ok(fold(entries.drop_last()), entries.last());
    }
}

// ---------------------------------------------------------------------------
// Folding for real
// ---------------------------------------------------------------------------

/// A list of places, as numbers.
pub open spec fn places_view(order: Seq<usize>) -> Seq<int> {
    order.map_values(|k: usize| k as int)
}

/// The fold, as it is carried through the log.
struct Folding {
    lines: Vec<LineRecord>,
    base_texts: Vec<String>,
    base_failed: Vec<bool>,
    base_sessions: Vec<usize>,
    order: Vec<usize>,
    session: usize,
    skipped: usize,
    tail: LogTail,
}

/// `s` is the fold `f`.
spec fn folding_is(s: Folding, f: Fold) -> bool {
    &&& lines_view(s.lines@) == f.now
    &&& texts_view(s.base_texts@) == f.births.map_values(|l: LineView| l.text)
    &&& s.base_failed@ == f.births.map_values(|l: LineView| l.failed)
    &&& counts_view(s.base_sessions@) == f.sittings
    &&& places_view(s.order@) == f.order
    &&& s.session == f.session
    &&& s.skipped == f.skipped
    &&& s.tail == f.tail
}

/// Folds one correction into the line it corrects.
pub fn apply_edit(line: &mut LineRecord, edit: EditRecord)
    ensures
        final(line)@ == edited(old(line)@, edit@),
{
    if let Some(text) = edit.text {
        line.text = text;
    }
    if let Some(deleted) = edit.deleted {
        line.deleted = deleted;
    }
    if let Some(ms) = edit.transcribe_ms {
        line.transcribe_ms = Some(ms);
    }
}

/// The place of the last line with that id.
fn find_last(lines: &Vec<LineRecord>, id: &str) -> (r: Option<usize>)
    ensures
        opt_place(r) == place_of(lines_view(lines@), id@),
{
    let mut n: usize = lines.len();
    proof {
        assert(lines_view(lines@).take(n as int) =~= lines_view(lines@));
    }
    while n > 0
        invariant
            n <= lines@.len(),
            place_of(lines_view(lines@), id@) == place_of(
                lines_view(lines@).take(n as int),
                id@,
            ),
        decreases n,
    {
        let ghost front = lines_view(lines@).take(n as int);
        proof {
            assert(front.last() == lines@[n - 1]@);
            assert(front.drop_last() =~= lines_view(lines@).take(n - 1));
        }
        if same_text(&lines[n - 1].id, id) {
            return Some(n - 1);
        }
        n = n - 1;
    }
    None
}

proof fn lemma_place_same_ids(a: Seq<LineView>, b: Seq<LineView>, id: Seq<char>)
    requires
        a.len() == b.len(),
        forall|k: int| 0 <= k < a.len() ==> (#[trigger] a[k]).id == b[k].id,
    ensures
        place_of(a, id) == place_of(b, id),
    decreases a.len(),
{
    if a.len() > 0 {
        let (x, y) = (a.drop_last(), b.drop_last());
        assert forall|k: int| 0 <= k < x.len() implies (#[trigger] x[k]).id == y[k].id by {
            assert(x[k] == a[k]);
        }
        lemma_place_same_ids(x, y, id);
        assert(a[a.len() - 1].id == b[b.len() - 1].id);
    }
}

/// Where `k` stands in the order.
fn find_place(order: &Vec<usize>, k: usize) -> (r: usize)
    requires
        places_view(order@).contains(k as int),
        places_view(order@).no_duplicates(),
    ensures
        r < order@.len(),
        r == places_view(order@).index_of(k as int),
{
    let ghost places = places_view(order@);
    proof {
        lemma_index_of(places, k as int);
    }
    let mut i: usize = 0;
    while i < order.len()
        invariant
            i <= order@.len(),
            places == places_view(order@),
            places.no_duplicates(),
            i <= places.index_of(k as int) < places.len(),
            places[places.index_of(k as int)] == k,
        decreases order@.len() - i,
    {
        proof {
            assert(places[i as int] == order@[i as int]);
        }
        if order[i] == k {
            return i;
        }
        i = i + 1;
    }
    0
}

/// Folds one move into the order, or counts it and leaves the order alone.
fn fold_move(
    moved: &MoveRecord,
    lines: &Vec<LineRecord>,
    order: &mut Vec<usize>,
    skipped: &mut usize,
    Ghost(f): Ghost<Fold>,
)
    requires
        fold_ok(f),
        lines_view(lines@) == f.now,
        places_view(old(order)@) == f.order,
        *old(skipped) == f.skipped,
        f.skipped < usize::MAX,
    ensures
        places_view(final(order)@) == fold_moved(f, moved@).order,
        *final(skipped) == fold_moved(f, moved@).skipped,
{
    let ghost now = lines_view(lines@);
    proof {
        lemma_place_same_ids(now, f.births, moved.move_of@);
        lemma_place_of(f.births, moved.move_of@);
    }
    let target: usize = match find_last(lines, &moved.move_of) {
        Some(at) => at,
        None => {
            *skipped = *skipped + 1;
            return ;
        },
    };
    let anchor_line: Option<usize> = match &moved.after {
        None => None,
        Some(after) => {
            proof {
                lemma_place_same_ids(now, f.births, after@);
                lemma_place_of(f.births, after@);
            }
            match find_last(lines, after) {
                Some(at) => Some(at),
                None => {
                    *skipped = *skipped + 1;
                    return ;
                },
            }
        },
    };
    proof {
        assert(f.order.contains(target as int));
        lemma_index_of(f.order, target as int);
    }
    let from: usize = find_place(order, target);
    let anchor: Option<usize> = match anchor_line {
        None => None,
        Some(line) => {
            proof {
                assert(f.order.contains(line as int));
                lemma_index_of(f.order, line as int);
            }
            Some(find_place(order, line))
        },
    };
    if is_settled(from, anchor) {
        return ;
    }
    let ghost before = order@;
    reposition(order, from, anchor);
    proof {
        assert(places_view(order@) =~= repositioned(
            places_view(before),
            from as int,
            opt_place(anchor),
        ));
    }
}

impl Folding {
    fn start() -> (r: Folding)
        ensures
            folding_is(r, no_records()),
    {
        let r = Folding {
            lines: Vec::new(),
            base_texts: Vec::new(),
            base_failed: Vec::new(),
            base_sessions: Vec::new(),
            order: Vec::new(),
            session: 0,
            skipped: 0,
            tail: LogTail::Empty,
        };
        proof {
            let f = no_records();
            assert(lines_view(r.lines@) =~= f.now);
            assert(texts_view(r.base_texts@) =~= f.births.map_values(|l: LineView| l.text));
            assert(r.base_failed@ =~= f.births.map_values(|l: LineView| l.failed));
            assert(counts_view(r.base_sessions@) =~= f.sittings);
            assert(places_view(r.order@) =~= f.order);
        }
        r
    }

    /// Takes a line record in.
    fn take_line(&mut self, record: LineRecord, Ghost(f): Ghost<Fold>)
        requires
            folding_is(*old(self), f),
            fold_ok(f),
        ensures
            folding_is(*final(self), step(f, EntryView::Line(record@))),
    {
        let ghost before = *self;
        let ghost view = record@;
        self.order.push(self.lines.len());
        let base_text = record.text.clone();
        self.base_texts.push(base_text);
        self.base_failed.push(record.failed);
        self.base_sessions.push(self.session);
        self.lines.push(record);
        self.tail = LogTail::Record;
        proof {
            let g = step(f, EntryView::Line(view));
            assert(lines_view(self.lines@) =~= lines_view(before.lines@).push(view));
            assert(texts_view(self.base_texts@) =~= texts_view(before.base_texts@).push(
                view.text,
            ));
            assert(texts_view(self.base_texts@) =~= g.births.map_values(|l: LineView| l.text));
            assert(self.base_failed@ =~= g.births.map_values(|l: LineView| l.failed));
            assert(counts_view(self.base_sessions@) =~= counts_view(before.base_sessions@).push(
                f.session,
            ));
            assert(places_view(self.order@) =~= places_view(before.order@).push(
                f.births.len() as int,
            ));
        }
    }

    /// Takes a correction in.
    fn take_edit(&mut self, edit: EditRecord, Ghost(f): Ghost<Fold>)
        requires
            folding_is(*old(self), f),
            fold_ok(f),
            f.skipped < usize::MAX,
        ensures
            folding_is(*final(self), step(f, EntryView::Edit(edit@))),
    {
        self.tail = LogTail::Record;
        proof {
            lemma_place_same_ids(f.now, f.births, edit.edit_of@);
            lemma_place_of(f.births, edit.edit_of@);
        }
        match find_last(&self.lines, &edit.edit_of) {
            Some(at) => {
                let ghost before = self.lines@;
                let ghost change = edit@;
                apply_edit(&mut self.lines[at], edit);
                proof {
                    assert(lines_view(self.lines@) =~= lines_view(before).update(
                        at as int,
                        edited(f.now[at as int], change),
                    ));
                }
            },
            None => {
                self.skipped = self.skipped + 1;
            },
        }
    }

    /// Takes one more piece of the log in.
    fn take(&mut self, entry: LogEntry, Ghost(f): Ghost<Fold>)
        requires
            folding_is(*old(self), f),
            fold_ok(f),
            f.skipped < usize::MAX,
            f.session < usize::MAX,
        ensures
            folding_is(*final(self), step(f, entry@)),
    {
        match entry {
            LogEntry::Line(record) => self.take_line(record, Ghost(f)),
            LogEntry::Edit(edit) => self.take_edit(edit, Ghost(f)),
            LogEntry::Move(moved) => {
                self.tail = LogTail::Record;
                fold_move(&moved, &self.lines, &mut self.order, &mut self.skipped, Ghost(f));
            },
            LogEntry::Session(_) => {
                self.session = self.session + 1;
                self.tail = LogTail::Session;
            },
            LogEntry::Malformed => {
                self.skipped = self.skipped + 1;
            },
        }
    }
}

proof fn lemma_fold_counts(entries: Seq<EntryView>)
    ensures
        fold(entries).skipped <= entries.len(),
        fold(entries).session <= entries.len(),
    decreases entries.len(),
{
    if entries.len() > 0 {
        lemma_fold_counts(entries.drop_last());
    }
}

impl Folding {
    /// Settles each line's original and failed state.
    fn settle_lines(&mut self, Ghost(f): Ghost<Fold>)
        requires
            folding_is(*old(self), f),
            fold_ok(f),
        ensures
            final(self).lines@.len() == f.births.len(),
            forall|k: int|
                0 <= k < f.births.len() ==> (#[trigger] final(self).lines@[k])@ == finished(
                    f.births[k],
                    f.now[k],
                ),
            final(self).base_texts@ == old(self).base_texts@,
            final(self).base_failed@ == old(self).base_failed@,
            final(self).base_sessions@ == old(self).base_sessions@,
            final(self).order@ == old(self).order@,
            final(self).skipped == old(self).skipped,
            final(self).tail == old(self).tail,
    {
        let ghost start = *self;
        let mut i: usize = 0;
        while i < self.lines.len()
            invariant
                i <= self.lines@.len(),
                fold_ok(f),
                folding_is(start, f),
                self.lines@.len() == f.births.len(),
                self.base_texts@ == start.base_texts@,
                self.base_failed@ == start.base_failed@,
                self.base_sessions@ == start.base_sessions@,
                self.order@ == start.order@,
                self.skipped == start.skipped,
                self.tail == start.tail,
                forall|k: int|
                    0 <= k < i ==> (#[trigger] self.lines@[k])@ == finished(
                        f.births[k],
                        f.now[k],
                    ),
                forall|k: int| i <= k < f.births.len() ==> (#[trigger] self.lines@[k])@ == f.now[k],
            decreases self.lines@.len() - i,
        {
            proof {
                assert(texts_view(start.base_texts@).len() == start.base_texts@.len());
                assert(f.births.map_values(|l: LineView| l.text).len() == f.births.len());
                assert(texts_view(start.base_texts@)[i as int] == f.births[i as int].text);
                assert(start.base_texts@[i as int]@ == f.births[i as int].text);
                assert(start.base_failed@[i as int] == f.births[i as int].failed);
                assert(f.now[i as int].id == f.births[i as int].id);
            }
            let mut line = self.lines[i].clone();
            let differs = !same_text(&line.text, &self.base_texts[i]);
            if differs && !self.base_failed[i] {
                line.original = Some(self.base_texts[i].clone());
            }
            line.failed = self.base_failed[i] && same_text(&line.text, "");
            proof {
                reveal_strlit("");
                assert(""@ =~= Seq::<char>::empty());
                assert(line.text@.len() == 0 <==> line.text@ =~= Seq::<char>::empty());
                assert(line@ == finished(f.births[i as int], f.now[i as int]));
            }
            self.lines.set(i, line);
            i = i + 1;
        }
    }

    /// Puts the lines, and what goes with them, in the order they read in.
    fn in_order(&self, torn_tail: bool, Ghost(f): Ghost<Fold>) -> (r: ParsedLines)
        requires
            fold_ok(f),
            self.lines@.len() == f.births.len(),
            forall|k: int|
                0 <= k < f.births.len() ==> (#[trigger] self.lines@[k])@ == finished(
                    f.births[k],
                    f.now[k],
                ),
            texts_view(self.base_texts@) == f.births.map_values(|l: LineView| l.text),
            self.base_failed@ == f.births.map_values(|l: LineView| l.failed),
            counts_view(self.base_sessions@) == f.sittings,
            places_view(self.order@) == f.order,
            self.skipped == f.skipped,
            self.tail == f.tail,
            f.skipped < usize::MAX,
        ensures
            r@ == read_off(f, torn_tail),
    {
        let mut lines: Vec<LineRecord> = Vec::new();
        let mut sessions: Vec<usize> = Vec::new();
        let mut base_failed: Vec<bool> = Vec::new();
        let mut base_texts: Vec<String> = Vec::new();
        let ghost want = read_off(f, torn_tail);
        let mut i: usize = 0;
        while i < self.order.len()
            invariant
                i <= self.order@.len(),
                fold_ok(f),
                want == read_off(f, torn_tail),
                self.lines@.len() == f.births.len(),
                forall|k: int|
                    0 <= k < f.births.len() ==> (#[trigger] self.lines@[k])@ == finished(
                        f.births[k],
                        f.now[k],
                    ),
                texts_view(self.base_texts@) == f.births.map_values(|l: LineView| l.text),
                self.base_failed@ == f.births.map_values(|l: LineView| l.failed),
                counts_view(self.base_sessions@) == f.sittings,
                places_view(self.order@) == f.order,
                lines@.len() == i,
                sessions@.len() == i,
                base_failed@.len() == i,
                base_texts@.len() == i,
                forall|j: int| 0 <= j < i ==> (#[trigger] lines@[j])@ == want.lines[j],
                forall|j: int| 0 <= j < i ==> (#[trigger] sessions@[j]) == want.sessions[j],
                forall|j: int| 0 <= j < i ==> (#[trigger] base_failed@[j]) == want.base_failed[j],
                forall|j: int| 0 <= j < i ==> (#[trigger] base_texts@[j])@ == want.base_texts[j],
            decreases self.order@.len() - i,
        {
            let at: usize = self.order[i];
            proof {
                assert(f.order[i as int] == at);
                assert(texts_view(self.base_texts@).len() == self.base_texts@.len());
                assert(f.births.map_values(|l: LineView| l.text).len() == f.births.len());
                assert(counts_view(self.base_sessions@).len() == self.base_sessions@.len());
                assert(texts_view(self.base_texts@)[at as int] == f.births[at as int].text);
                assert(counts_view(self.base_sessions@)[at as int] == f.sittings[at as int]);
                assert(self.base_texts@.len() == f.births.len());
                assert(self.base_sessions@.len() == f.births.len());
            }
            lines.push(self.lines[at].clone());
            sessions.push(self.base_sessions[at]);
            base_failed.push(self.base_failed[at]);
            base_texts.push(self.base_texts[at].clone());
            i = i + 1;
        }
        let skipped: usize = if torn_tail {
            self.skipped + 1
        } else {
            self.skipped
        };
        let r = ParsedLines {
            lines,
            sessions,
            base_failed,
            base_texts,
            skipped,
            torn_tail,
            tail: self.tail,
        };
        proof {
            assert(r@.lines =~= want.lines);
            assert(r@.sessions =~= want.sessions);
            assert(r@.base_failed =~= want.base_failed);
            assert(r@.base_texts =~= want.base_texts);
        }
        r
    }
}

/// `e` is what `decode` made of the text of one piece. A blank piece is never
/// decoded.
pub open spec fn decodes<F: Fn(&str) -> LogEntry>(
    decode: F,
    segment: Seq<u8>,
    e: EntryView,
) -> bool {
    if is_blank(lossy_text(segment)) {
        e is Blank
    } else {
        exists|text: &str, entry: LogEntry| #[trigger]
            decode.ensures((text,), entry) && text@ == lossy_text(segment) && e == entry@
    }
}

/// The entries are what `decode` made of the pieces, one for one.
pub open spec fn is_decoding<F: Fn(&str) -> LogEntry>(
    decode: F,
    segments: Seq<Seq<u8>>,
    entries: Seq<EntryView>,
) -> bool {
    &&& entries.len() == segments.len()
    &&& forall|i: int|
        0 <= i < entries.len() ==> decodes(decode, segments[i], #[trigger] entries[i])
}

/// Reads the line log, without ever changing it.
///
/// `decode` turns the text of one piece into a record. Records are applied in
/// file order, the last writer winning per field; a piece that is no record, a
/// correction or a move that names a line the log does not hold, and a torn
/// tail are counted and otherwise left alone.
pub fn parse_lines<F: Fn(&str) -> LogEntry>(raw: &[u8], decode: F) -> (r: ParsedLines)
    requires
        raw@.len() < usize::MAX,
        forall|text: &str| #[trigger] decode.requires((text,)),
    ensures
        exists|entries: Seq<EntryView>|
            #[trigger] is_decoding(decode, segments_of(raw@), entries) && r@ == read_off(
                fold(entries),
                is_torn(raw@),
            ),
{
    let log = frame_log(raw);
    let mut state = Folding::start();
    let ghost mut entries: Seq<EntryView> = Seq::empty();
    let ghost segments = segments_of(raw@);
    proof {
        lemma_split_len(raw@, NEWLINE);
        assert(bytes_view(log.segments@).len() == log.segments@.len());
    }
    let mut i: usize = 0;
    while i < log.segments.len()
        invariant
            i <= log.segments@.len(),
            log.segments@.len() < usize::MAX,
            segments == bytes_view(log.segments@),
            entries.len() == i,
            forall|text: &str| #[trigger] decode.requires((text,)),
            forall|j: int| 0 <= j < i ==> decodes(decode, segments[j], #[trigger] entries[j]),
            folding_is(state, fold(entries)),
        decreases log.segments@.len() - i,
    {
        let text = read_lossy(&log.segments[i]);
        proof {
            assert(segments[i as int] == log.segments@[i as int]@);
            the_fold_keeps_every_line(entries);
            lemma_fold_counts(entries);
        }
        let ghost before = entries;
        if blank(&text) {
            proof {
                entries = entries.push(EntryView::Blank);
                assert(entries.drop_last() =~= before);
            }
        } else {
            let entry = decode(&text);
            let ghost view = entry@;
            proof {
                assert(decodes(decode, segments[i as int], view));
            }
            state.take(entry, Ghost(fold(before)));
            proof {
                entries = entries.push(view);
                assert(entries.drop_last() =~= before);
            }
        }
        i = i + 1;
    }
    let torn: bool = log.tail.len() > 0;
    proof {
        the_fold_keeps_every_line(entries);
        lemma_fold_counts(entries);
    }
    state.settle_lines(Ghost(fold(entries)));
    let r = state.in_order(torn, Ghost(fold(entries)));
    proof {
        assert(is_decoding(decode, segments, entries));
    }
    r
}

} // verus!
