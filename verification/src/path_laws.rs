//! The text of a path and its components stay in step: what is cut off a path,
//! or put behind it, reads as what it says.

use crate::path::{
    below, between, end_of, file_name_of, found_from, has_prefix_part, is_portable, joined,
    lemma_split_len, lemma_split_without, parent_of, part_text, renamed, same_place, same_places, slash_part,
    slash_parts, slash_parts_of, split_on, splitting_a_sum, start_of, starts_at_root, stripped,
    text_below, PartView, PathView,
};
use vstd::prelude::*;

verus! {

/// The text is one that every platform reads the same way, and the components
/// are what it is read as.
pub open spec fn is_spelled(p: PathView) -> bool {
    is_portable(p.text) && p.parts == slash_parts(p.text)
}

// ---------------------------------------------------------------------------
// Pieces
// ---------------------------------------------------------------------------

/// The components of pieces of which none is the first of its path.
spec fn later_parts(pieces: Seq<Seq<char>>, n: int) -> Seq<PartView>
    decreases n,
{
    if n <= 0 {
        Seq::empty()
    } else {
        let before = later_parts(pieces, n - 1);
        match slash_part(pieces[n - 1], false) {
            Some(part) => before.push(part),
            None => before,
        }
    }
}

/// The components of a text that stands behind a slash.
spec fn tail_parts(text: Seq<char>) -> Seq<PartView> {
    let pieces = split_on(text, '/');
    later_parts(pieces, pieces.len() as int)
}

/// A text, a slash, and another text.
spec fn slashed(a: Seq<char>, b: Seq<char>) -> Seq<char> {
    a.push('/') + b
}

proof fn lemma_pieces_joined(pa: Seq<Seq<char>>, pb: Seq<Seq<char>>, m: int)
    requires
        0 <= m <= pb.len(),
        pa.len() > 0,
    ensures
        slash_parts_of(pa + pb, pa.len() + m) == slash_parts_of(pa, pa.len() as int) + later_parts(
            pb,
            m,
        ),
        later_parts(pa + pb, pa.len() + m) == later_parts(pa, pa.len() as int) + later_parts(pb, m),
    decreases m,
{
    let n = pa.len() as int;
    if m == 0 {
        lemma_pieces_prefix(pa, pb, n);
        assert(slash_parts_of(pa, n) + later_parts(pb, 0) =~= slash_parts_of(pa, n));
        assert(later_parts(pa, n) + later_parts(pb, 0) =~= later_parts(pa, n));
    } else {
        lemma_pieces_joined(pa, pb, m - 1);
        assert((pa + pb)[n + m - 1] == pb[m - 1]);
        assert(slash_parts_of(pa + pb, n + m) =~= slash_parts_of(pa, n) + later_parts(pb, m));
        assert(later_parts(pa + pb, n + m) =~= later_parts(pa, n) + later_parts(pb, m));
    }
}

proof fn lemma_pieces_prefix(pa: Seq<Seq<char>>, pb: Seq<Seq<char>>, n: int)
    requires
        0 <= n <= pa.len(),
    ensures
        slash_parts_of(pa + pb, n) == slash_parts_of(pa, n),
        later_parts(pa + pb, n) == later_parts(pa, n),
    decreases n,
{
    if n > 0 {
        lemma_pieces_prefix(pa, pb, n - 1);
        assert((pa + pb)[n - 1] == pa[n - 1]);
    }
}

proof fn lemma_split_slashed(a: Seq<char>, b: Seq<char>)
    ensures
        split_on(slashed(a, b), '/') == split_on(a, '/') + split_on(b, '/'),
{
    let (pa, pb) = (split_on(a, '/'), split_on(b, '/'));
    lemma_split_len(a, '/');
    lemma_split_len(b, '/');
    let head = a.push('/');
    assert(head.drop_last() =~= a);
    assert(split_on(head, '/') == pa.push(Seq::empty()));
    splitting_a_sum(head, b, '/');
    assert(pa.push(Seq::<char>::empty()).drop_last() =~= pa);
    assert(Seq::<char>::empty() + pb[0] =~= pb[0]);
    assert(split_on(slashed(a, b), '/') =~= pa + pb);
}

/// The components of two texts with a slash between them.
proof fn lemma_slashed(a: Seq<char>, b: Seq<char>)
    ensures
        a.len() > 0 ==> slash_parts(slashed(a, b)) == slash_parts(a) + tail_parts(b),
        a.len() == 0 ==> slash_parts(slashed(a, b)) == seq![PartView::Root] + tail_parts(b),
        tail_parts(slashed(a, b)) == tail_parts(a) + tail_parts(b),
{
    let (pa, pb) = (split_on(a, '/'), split_on(b, '/'));
    lemma_split_len(a, '/');
    lemma_split_len(b, '/');
    lemma_split_slashed(a, b);
    lemma_pieces_joined(pa, pb, pb.len() as int);
    let names = slash_parts_of(pa, pa.len() as int);
    if a.len() > 0 {
        assert(slashed(a, b)[0] == a[0]);
        assert(seq![PartView::Root] + (names + tail_parts(b)) =~= (seq![PartView::Root] + names)
            + tail_parts(b));
    } else {
        assert(slashed(a, b)[0] == '/');
        assert(pa =~= seq![Seq::<char>::empty()]);
        assert(slash_parts_of(pa, 0) =~= Seq::<PartView>::empty());
        assert(names =~= Seq::<PartView>::empty());
        assert(names + tail_parts(b) =~= tail_parts(b));
    }
}

/// The components of a text without a slash.
proof fn lemma_one_piece(x: Seq<char>)
    requires
        forall|i: int| 0 <= i < x.len() ==> #[trigger] x[i] != '/',
    ensures
        slash_parts(x) == (match slash_part(x, true) {
            Some(part) => seq![part],
            None => Seq::empty(),
        }),
        tail_parts(x) == (match slash_part(x, false) {
            Some(part) => seq![part],
            None => Seq::empty(),
        }),
        x.len() > 0 ==> slash_part(x, true) is Some,
        slash_part(x, true) matches Some(part) ==> part_text(part) == x,
        slash_part(x, false) matches Some(part) ==> part_text(part) == x && x != seq!['.'],
{
    lemma_split_without(x);
    let pieces = split_on(x, '/');
    assert(pieces.len() == 1 && pieces[0] == x);
    assert(slash_parts_of(pieces, 0) =~= Seq::<PartView>::empty());
    assert(later_parts(pieces, 0) =~= Seq::<PartView>::empty());
    assert(slash_parts(x) =~= (match slash_part(x, true) {
        Some(part) => seq![part],
        None => Seq::empty(),
    }));
    assert(tail_parts(x) =~= (match slash_part(x, false) {
        Some(part) => seq![part],
        None => Seq::empty(),
    }));
}

// ---------------------------------------------------------------------------
// Places in the text
// ---------------------------------------------------------------------------

proof fn lemma_first_slash(w: Seq<char>, from: int) -> (i: int)
    requires
        0 <= from <= w.len(),
        forall|k: int| 0 <= k < from ==> #[trigger] w[k] != '/',
    ensures
        from <= i <= w.len(),
        forall|k: int| 0 <= k < i ==> #[trigger] w[k] != '/',
        i < w.len() ==> w[i] == '/',
    decreases w.len() - from,
{
    if from == w.len() || w[from] == '/' {
        from
    } else {
        lemma_first_slash(w, from + 1)
    }
}

/// What is found in a text is found in it behind another.
proof fn lemma_found_behind(head: Seq<char>, w: Seq<char>, piece: Seq<char>, from: int)
    requires
        0 <= from <= w.len(),
    ensures
        found_from(head + w, piece, head.len() + from) == head.len() + found_from(w, piece, from),
    decreases w.len() - from,
{
    let (n, t) = (head.len() as int, head + w);
    if from < w.len() && from + piece.len() <= w.len() {
        assert(t.subrange(n + from, n + from + piece.len()) =~= w.subrange(
            from,
            from + piece.len(),
        ));
        if w.subrange(from, from + piece.len()) != piece {
            lemma_found_behind(head, w, piece, from + 1);
        }
    }
}

/// The piece starts with another character than the text does there.
proof fn lemma_not_here(t: Seq<char>, piece: Seq<char>, at: int)
    requires
        0 <= at < t.len(),
        piece.len() > 0,
        piece[0] != t[at] || (piece.len() > 1 && at + 1 < t.len() && piece[1] != t[at + 1]),
    ensures
        found_from(t, piece, at) == found_from(t, piece, at + 1),
{
    if at + piece.len() <= t.len() {
        let here = t.subrange(at, at + piece.len());
        assert(here[0] == t[at]);
        if piece.len() > 1 {
            assert(here[1] == t[at + 1]);
        }
        assert(here != piece);
    }
}

/// The next component behind a slash: where it is found, and what is left behind
/// it.
proof fn lemma_next(w: Seq<char>) -> (at: int)
    requires
        tail_parts(w).len() > 0,
    ensures
        ({
            let c = tail_parts(w)[0];
            let x = part_text(c);
            let end = at + x.len();
            &&& c is Name || c is Up
            &&& x.len() > 0
            &&& x != seq!['.']
            &&& forall|i: int| 0 <= i < x.len() ==> #[trigger] x[i] != '/'
            &&& slash_part(x, true) == Some(c)
            &&& 0 <= at
            &&& end <= w.len()
            &&& found_from(w, x, 0) == at
            &&& w.subrange(at, end) == x
            &&& tail_parts(w.take(end)) == seq![c]
            &&& end < w.len() ==> w[end] == '/' && tail_parts(w) == seq![c] + tail_parts(
                w.skip(end + 1),
            )
            &&& end == w.len() ==> tail_parts(w) == seq![c]
        }),
    decreases w.len(),
{
    let i = lemma_first_slash(w, 0);
    let x = w.take(i);
    assert forall|k: int| 0 <= k < x.len() implies #[trigger] x[k] != '/' by {
        assert(x[k] == w[k]);
    }
    lemma_one_piece(x);
    assert(seq!['.'].len() == 1 && seq!['.', '.'].len() == 2);
    if i < w.len() {
        let y = w.skip(i + 1);
        assert(w =~= slashed(x, y));
        lemma_slashed(x, y);
        if slash_part(x, false) is Some {
            let c = slash_part(x, false).unwrap();
            assert(tail_parts(w)[0] == c);
            assert(w.subrange(0, i) =~= x);
            0
        } else {
            assert(tail_parts(x) + tail_parts(y) =~= tail_parts(y));
            let inner = lemma_next(y);
            let c = tail_parts(y)[0];
            let piece = part_text(c);
            let head = x.push('/');
            assert(w =~= head + y);
            lemma_found_behind(head, y, piece, 0);
            // Nothing in front of the next piece looks like it.
            assert(piece[0] != '/');
            assert(w[i] == '/');
            lemma_not_here(w, piece, i);
            if x.len() > 0 {
                assert(x == seq!['.']);
                assert(i == 1);
                assert(w[0] == x[0]);
                assert(w[0] == '.');
                if piece.len() == 1 {
                    if piece[0] == '.' {
                        assert(piece =~= seq!['.']);
                    }
                } else {
                    assert(piece[1] != '/');
                }
                lemma_not_here(w, piece, 0);
            } else {
                assert(i == 0);
            }
            let at = i + 1 + inner;
            let end = at + piece.len();
            assert(w.subrange(at, end) =~= y.subrange(inner, inner + piece.len()));
            let cut = y.take(inner + piece.len());
            assert(w.take(end) =~= slashed(x, cut));
            lemma_slashed(x, cut);
            assert(tail_parts(x) + tail_parts(cut) =~= tail_parts(cut));
            if end < w.len() {
                assert(w[end] == y[inner + piece.len()]);
                assert(w.skip(end + 1) =~= y.skip(inner + piece.len() + 1));
            }
            at
        }
    } else {
        assert(x =~= w);
        assert(w.subrange(0, i) =~= w);
        assert(w.take(i) =~= w);
        0
    }
}

/// What is left of a text behind its first `n` components.
spec fn left_behind(t: Seq<char>, n: int) -> Seq<PartView> {
    let parts = slash_parts(t);
    let end = end_of(t, parts, n);
    if n == 0 {
        parts
    } else if parts[n - 1] is Root {
        tail_parts(t.skip(end))
    } else if end < t.len() {
        tail_parts(t.skip(end + 1))
    } else {
        Seq::empty()
    }
}

/// The first `n` components of a text end where a piece of it does, and what
/// stands up to there reads as they do.
#[verifier::rlimit(60)]
#[verifier::spinoff_prover]
proof fn lemma_end(t: Seq<char>, n: int)
    requires
        0 <= n <= slash_parts(t).len(),
    ensures
        ({
            let parts = slash_parts(t);
            let end = end_of(t, parts, n);
            &&& 0 <= end <= t.len()
            &&& n > 0 ==> end > end_of(t, parts, n - 1)
            &&& slash_parts(t.take(end)) == parts.take(n)
            &&& parts == parts.take(n) + left_behind(t, n)
            &&& n > 0 && !(parts[n - 1] is Root) && end < t.len() ==> t[end] == '/'
            &&& n > 1 ==> parts[n - 1] is Name || parts[n - 1] is Up
            &&& n == 1 && t[0] == '/' ==> end == 1 && parts[0] is Root
            &&& n > 0 && t[0] != '/' ==> !(parts[0] is Root)
            &&& n > 0 && !(parts[n - 1] is Root) ==> {
                let x = part_text(parts[n - 1]);
                &&& x.len() > 0
                &&& forall|i: int| 0 <= i < x.len() ==> #[trigger] x[i] != '/'
                &&& x.len() <= end
                &&& found_from(t, x, end_of(t, parts, n - 1)) == end - x.len()
                &&& t.subrange(end - x.len(), end) == x
                &&& slash_part(x, true) == Some(parts[n - 1])
            }
        }),
    decreases n,
{
    let parts = slash_parts(t);
    let end = end_of(t, parts, n);
    if n == 0 {
        assert(t.take(0) =~= Seq::<char>::empty());
        lemma_one_piece(Seq::empty());
        assert(parts.take(0) =~= Seq::<PartView>::empty());
        assert(parts =~= parts.take(0) + parts);
    } else if n == 1 {
        lemma_first_end(t);
        assert(end_of(t, parts, 0) == 0);
    } else {
        lemma_end(t, n - 1);
        let before = end_of(t, parts, n - 1);
        let root = parts[n - 2] is Root;
        let start = if root {
            before
        } else {
            before + 1
        };
        assert(left_behind(t, n - 1).len() > 0) by {
            assert(parts.len() == parts.take(n - 1).len() + left_behind(t, n - 1).len());
        }
        let w = t.skip(start);
        assert(left_behind(t, n - 1) == tail_parts(w));
        let at = lemma_next(w);
        let c = tail_parts(w)[0];
        let x = part_text(c);
        assert(parts[n - 1] == c) by {
            assert((parts.take(n - 1) + tail_parts(w))[n - 1] == tail_parts(w)[0]);
        }
        let head = t.take(start);
        assert(t =~= head + w);
        lemma_found_behind(head, w, x, 0);
        if !root {
            assert(t[before] == '/');
            lemma_not_here(t, x, before);
        }
        assert(found_from(t, x, before) == start + at);
        assert(end == start + at + x.len());
        assert(t.subrange(end - x.len(), end) =~= w.subrange(at, at + x.len()));
        let cut = w.take(at + x.len());
        if root {
            lemma_root_first(t, n - 2);
            assert(t.take(end) =~= slashed(Seq::empty(), cut));
            lemma_slashed(Seq::empty(), cut);
            assert(parts.take(n) =~= seq![PartView::Root] + seq![c]);
        } else {
            assert(t.take(end) =~= slashed(t.take(before), cut));
            lemma_slashed(t.take(before), cut);
            assert(parts.take(n) =~= parts.take(n - 1) + seq![c]);
        }
        if end < t.len() {
            assert(t[end] == w[at + x.len()]);
            assert(t.skip(end + 1) =~= w.skip(at + x.len() + 1));
        }
        assert(parts =~= parts.take(n) + left_behind(t, n));
    }
}

/// Only the first component is a root, and it is one exactly when the text
/// starts with a slash.
proof fn lemma_root_first(t: Seq<char>, i: int)
    requires
        0 <= i < slash_parts(t).len(),
        slash_parts(t)[i] is Root,
    ensures
        i == 0,
        t.len() > 0,
        t[0] == '/',
        end_of(t, slash_parts(t), 1) == 1,
{
    let pieces = split_on(t, '/');
    let names = slash_parts_of(pieces, pieces.len() as int);
    lemma_plain_parts(pieces, pieces.len() as int);
    if t.len() > 0 && t[0] == '/' {
        if i > 0 {
            assert(slash_parts(t)[i] == names[i - 1]);
        }
        assert(end_of(t, slash_parts(t), 0) == 0);
        assert(slash_parts(t)[0] is Root);
    }
}

proof fn lemma_plain_parts(pieces: Seq<Seq<char>>, n: int)
    requires
        0 <= n <= pieces.len(),
    ensures
        forall|i: int|
            0 <= i < slash_parts_of(pieces, n).len() ==> !(#[trigger] slash_parts_of(
                pieces,
                n,
            )[i] is Root) && !(slash_parts_of(pieces, n)[i] is Prefix),
    decreases n,
{
    if n > 0 {
        lemma_plain_parts(pieces, n - 1);
    }
}

proof fn lemma_first_end(t: Seq<char>)
    requires
        slash_parts(t).len() > 0,
    ensures
        ({
            let parts = slash_parts(t);
            let end = end_of(t, parts, 1);
            &&& 0 < end <= t.len()
            &&& slash_parts(t.take(end)) == parts.take(1)
            &&& parts == parts.take(1) + left_behind(t, 1)
            &&& !(parts[0] is Root) && end < t.len() ==> t[end] == '/'
            &&& t[0] == '/' ==> end == 1 && parts[0] is Root
            &&& t[0] != '/' ==> !(parts[0] is Root)
            &&& !(parts[0] is Root) ==> {
                let x = part_text(parts[0]);
                &&& x.len() > 0
                &&& forall|i: int| 0 <= i < x.len() ==> #[trigger] x[i] != '/'
                &&& x.len() <= end
                &&& found_from(t, x, 0) == end - x.len()
                &&& t.subrange(end - x.len(), end) == x
                &&& slash_part(x, true) == Some(parts[0])
            }
        }),
{
    let parts = slash_parts(t);
    assert(end_of(t, parts, 0) == 0);
    lemma_one_piece(Seq::empty());
    if t.len() == 0 {
        assert(t =~= Seq::<char>::empty());
    } else if t[0] == '/' {
        let w = t.skip(1);
        assert(t =~= slashed(Seq::empty(), w));
        lemma_slashed(Seq::empty(), w);
        assert(parts[0] is Root);
        assert(t.take(1) =~= slashed(Seq::empty(), Seq::empty()));
        lemma_slashed(Seq::empty(), Seq::empty());
        assert(parts.take(1) =~= seq![PartView::Root] + tail_parts(Seq::empty()));
        assert(parts =~= parts.take(1) + tail_parts(w));
    } else {
        let i = lemma_first_slash(t, 0);
        let x = t.take(i);
        assert forall|k: int| 0 <= k < x.len() implies #[trigger] x[k] != '/' by {
            assert(x[k] == t[k]);
        }
        lemma_one_piece(x);
        let c = slash_part(x, true).unwrap();
        assert(t.subrange(0, i) =~= x);
        if i < t.len() {
            let y = t.skip(i + 1);
            assert(t =~= slashed(x, y));
            lemma_slashed(x, y);
            assert(parts[0] == c);
            assert(parts.take(1) =~= seq![c]);
            assert(parts =~= parts.take(1) + tail_parts(y));
        } else {
            assert(x =~= t);
            assert(parts.take(1) =~= parts);
            assert(parts =~= parts.take(1) + Seq::empty());
        }
    }
}

proof fn lemma_no_prefix(p: PathView)
    requires
        is_spelled(p),
    ensures
        !has_prefix_part(p),
        starts_at_root(p) <==> p.text.len() > 0 && p.text[0] == '/',
        p.text.len() > 0 ==> p.parts.len() > 0,
{
    let t = p.text;
    let pieces = split_on(t, '/');
    let names = slash_parts_of(pieces, pieces.len() as int);
    lemma_plain_parts(pieces, pieces.len() as int);
    if t.len() > 0 && t[0] == '/' {
        assert(p.parts[0] is Root);
    } else if t.len() > 0 {
        let i = lemma_first_slash(t, 0);
        let x = t.take(i);
        assert forall|k: int| 0 <= k < x.len() implies #[trigger] x[k] != '/' by {
            assert(x[k] == t[k]);
        }
        lemma_one_piece(x);
        if i < t.len() {
            assert(t =~= slashed(x, t.skip(i + 1)));
            lemma_slashed(x, t.skip(i + 1));
        } else {
            assert(x =~= t);
        }
        if p.parts.len() > 0 {
            assert(p.parts[0] == names[0]);
        }
    } else {
        assert(t =~= Seq::<char>::empty());
        lemma_one_piece(t);
    }
}

// ---------------------------------------------------------------------------
// Laws
// ---------------------------------------------------------------------------

/// The text of a parent directory reads as the parent directory.
pub proof fn a_parent_is_spelled(p: PathView)
    requires
        is_spelled(p),
        parent_of(p) is Some,
    ensures
        is_spelled(parent_of(p).unwrap()),
{
    let n = p.parts.len() - 1;
    lemma_end(p.text, n);
    let text = p.text.take(end_of(p.text, p.parts, n));
    assert(p.parts.take(n) =~= p.parts.drop_last());
    assert forall|i: int| 0 <= i < text.len() implies #[trigger] text[i] != '\\' && text[i]
        != ':' by {
        assert(text[i] == p.text[i]);
    }
}

proof fn lemma_ends_grow(t: Seq<char>, n: int, m: int)
    requires
        0 <= n <= m <= slash_parts(t).len(),
    ensures
        end_of(t, slash_parts(t), n) <= end_of(t, slash_parts(t), m),
        n < m ==> end_of(t, slash_parts(t), n) < end_of(t, slash_parts(t), m),
    decreases m - n,
{
    if n < m {
        lemma_end(t, m);
        lemma_ends_grow(t, n, m - 1);
    }
}

/// What is left of a path below another is written as it reads.
pub proof fn what_is_left_is_spelled(p: PathView, base: PathView)
    requires
        is_spelled(p),
        stripped(p, base) is Some,
    ensures
        is_spelled(stripped(p, base).unwrap()),
{
    let (t, parts) = (p.text, p.parts);
    let n = base.parts.len() as int;
    let all = parts.len() as int;
    let rest = stripped(p, base).unwrap();
    lemma_one_piece(Seq::empty());
    if n == all {
        assert(rest.parts =~= Seq::<PartView>::empty());
        assert(rest.text =~= Seq::<char>::empty());
    } else {
        lemma_end(t, all);
        lemma_end(t, n + 1);
        lemma_ends_grow(t, n + 1, all);
        let end = end_of(t, parts, all);
        let start = start_of(t, parts, n);
        if n == 0 {
            assert(end_of(t, parts, 0) == 0);
            assert(start == 0) by {
                if !(parts[0] is Root) {
                    lemma_first_start(t);
                }
            }
            assert(t.subrange(0, end) =~= t.take(end));
            assert(parts.take(all) =~= parts);
            assert(rest.parts =~= parts);
        } else {
            lemma_later_start(t, n);
            let x = part_text(parts[n]);
            let mid = end_of(t, parts, n + 1);
            assert(start == mid - x.len());
            lemma_one_piece(x);
            if n + 1 == all {
                assert(rest.text == x);
                assert(rest.parts =~= seq![parts[n]]);
            } else {
                let z = t.subrange(mid + 1, end);
                assert(mid < end);
                assert(t[mid] == '/');
                assert(t.take(end) =~= slashed(t.take(mid), z));
                lemma_slashed(t.take(mid), z);
                assert(parts.take(all) =~= parts);
                assert(tail_parts(z) =~= parts.skip(n + 1)) by {
                    assert(parts == parts.take(n + 1) + tail_parts(z));
                    assert(parts.skip(n + 1) =~= tail_parts(z));
                }
                assert(rest.text =~= slashed(x, z)) by {
                    assert(t.subrange(start, mid) == x);
                    assert forall|k: int| 0 <= k < x.len() implies t[start + k] == #[trigger]
                        x[k] by {
                        assert(t.subrange(start, mid)[k] == t[start + k]);
                    }
                }
                lemma_slashed(x, z);
                assert(rest.parts =~= seq![parts[n]] + parts.skip(n + 1));
            }
        }
        assert forall|i: int| 0 <= i < rest.text.len() implies #[trigger] rest.text[i] != '\\'
            && rest.text[i] != ':' by {
            assert(rest.text[i] == t[start + i]);
        }
        if n > 0 {
            assert(rest.text[0] == part_text(parts[n])[0]) by {
                assert(t.subrange(start, end_of(t, parts, n + 1))[0] == t[start]);
            }
        }
    }
}

/// A first component that is no root starts the text.
proof fn lemma_first_start(t: Seq<char>)
    requires
        slash_parts(t).len() > 0,
        !(slash_parts(t)[0] is Root),
    ensures
        found_from(t, part_text(slash_parts(t)[0]), 0) == 0,
{
    lemma_first_end(t);
    let parts = slash_parts(t);
    let x = part_text(parts[0]);
    let i = lemma_first_slash(t, 0);
    let y = t.take(i);
    assert forall|k: int| 0 <= k < y.len() implies #[trigger] y[k] != '/' by {
        assert(y[k] == t[k]);
    }
    lemma_one_piece(y);
    if i < t.len() {
        assert(t =~= slashed(y, t.skip(i + 1)));
        lemma_slashed(y, t.skip(i + 1));
    } else {
        assert(y =~= t);
    }
    assert(y == x);
    assert(t.subrange(0, i) =~= y);
}

proof fn lemma_later_start(t: Seq<char>, n: int)
    requires
        0 < n < slash_parts(t).len(),
    ensures
        !(slash_parts(t)[n] is Root),
{
    if slash_parts(t)[n] is Root {
        lemma_root_first(t, n);
    }
}

/// Behind a slash, a text reads as it does alone, but for a dot in front.
proof fn lemma_tail_of_relative(r: Seq<char>)
    requires
        r.len() == 0 || r[0] != '/',
    ensures
        tail_parts(r) == (if slash_parts(r).len() > 0 && slash_parts(r)[0] is Here {
            slash_parts(r).skip(1)
        } else {
            slash_parts(r)
        }),
{
    let i = lemma_first_slash(r, 0);
    let x = r.take(i);
    assert forall|k: int| 0 <= k < x.len() implies #[trigger] x[k] != '/' by {
        assert(x[k] == r[k]);
    }
    lemma_one_piece(x);
    if i < r.len() {
        let y = r.skip(i + 1);
        assert(r =~= slashed(x, y));
        lemma_slashed(x, y);
        assert(tail_parts(r) =~= (if slash_parts(r)[0] is Here {
            slash_parts(r).skip(1)
        } else {
            slash_parts(r)
        }));
    } else {
        assert(x =~= r);
        assert(tail_parts(r) =~= (if slash_parts(r).len() > 0 && slash_parts(r)[0] is Here {
            slash_parts(r).skip(1)
        } else {
            slash_parts(r)
        }));
    }
}

/// The components of a text put behind a path.
proof fn lemma_text_below(base: PathView, name: Seq<char>)
    requires
        is_spelled(base),
        is_portable(name),
        name.len() == 0 || name[0] != '/',
    ensures
        is_portable(text_below(base, name)),
        base.text.len() == 0 ==> text_below(base, name) == name,
        base.text.len() > 0 ==> slash_parts(text_below(base, name)) == base.parts + tail_parts(
            name,
        ),
{
    lemma_no_prefix(base);
    let t = base.text;
    let text = text_below(base, name);
    lemma_one_piece(Seq::empty());
    if t.len() == 0 {
        assert(text =~= name);
    } else if t.last() == '/' {
        let a = t.drop_last();
        assert(text =~= slashed(a, name));
        assert(t =~= slashed(a, Seq::empty()));
        lemma_slashed(a, name);
        lemma_slashed(a, Seq::empty());
        assert(slash_parts(t) + tail_parts(name) =~= slash_parts(text)) by {
            assert(tail_parts(Seq::<char>::empty()) =~= Seq::<PartView>::empty());
            if a.len() > 0 {
                assert(slash_parts(a) + tail_parts(Seq::<char>::empty()) =~= slash_parts(a));
            } else {
                assert(seq![PartView::Root] + tail_parts(Seq::<char>::empty()) =~= seq![
                    PartView::Root,
                ]);
            }
        }
    } else {
        assert(between(base) =~= seq!['/']);
        assert(text =~= slashed(t, name));
        lemma_slashed(t, name);
    }
    assert forall|i: int| 0 <= i < text.len() implies #[trigger] text[i] != '\\' && text[i]
        != ':' by {
        let head = t + between(base);
        if i < t.len() {
            assert(text[i] == t[i]);
        } else if i < head.len() {
            assert(text[i] == '/');
        } else {
            assert(text[i] == name[i - head.len()]);
        }
    }
    if text.len() >= 2 && text[0] == '/' && text[1] == '/' {
        if t.len() >= 2 {
            assert(text[0] == t[0] && text[1] == t[1]);
        } else if t.len() == 1 {
            assert(text[0] == t[0]);
            assert(t.last() == '/');
            assert(text[1] == name[0]);
        } else {
            assert(text[0] == name[0]);
        }
    }
}

/// A name that stands for itself wherever it is put.
pub open spec fn is_plain_name(name: Seq<char>) -> bool {
    &&& name.len() > 0
    &&& name != seq!['.']
    &&& name != seq!['.', '.']
    &&& forall|i: int|
        0 <= i < name.len() ==> #[trigger] name[i] != '/' && name[i] != '\\' && name[i] != ':'
}

/// The text of a path one name below another reads as that path.
pub proof fn a_child_is_spelled(base: PathView, name: Seq<char>)
    requires
        is_spelled(base),
        is_plain_name(name),
    ensures
        is_spelled(below(base, name)),
{
    lemma_text_below(base, name);
    lemma_one_piece(name);
    assert(slash_part(name, true) == Some(PartView::Name(name)));
    assert(slash_part(name, false) == Some(PartView::Name(name)));
    lemma_one_piece(Seq::empty());
    if base.text.len() == 0 {
        assert(base.text =~= Seq::<char>::empty());
        assert(base.parts.push(PartView::Name(name)) =~= seq![PartView::Name(name)]);
    } else {
        assert(base.parts.push(PartView::Name(name)) =~= base.parts + seq![PartView::Name(name)]);
    }
}

/// The text of a relative path seen from another reads as that path.
pub proof fn a_joined_path_is_spelled(base: PathView, rel: PathView)
    requires
        is_spelled(base),
        is_spelled(rel),
        !rel.absolute,
        !starts_at_root(rel),
    ensures
        is_spelled(joined(base, rel)),
{
    lemma_no_prefix(base);
    lemma_no_prefix(rel);
    lemma_text_below(base, rel.text);
    lemma_tail_of_relative(rel.text);
    lemma_one_piece(Seq::empty());
    if base.text.len() == 0 {
        assert(base.text =~= Seq::<char>::empty());
        assert(base.parts + rel.parts =~= rel.parts);
    }
}

/// The directory of a path one name below another is the other, and the name is
/// its file name.
pub proof fn a_child_is_in_its_parent(base: PathView, name: Seq<char>)
    requires
        base.parts.len() > 0 || !base.absolute,
    ensures
        same_places(parent_of(below(base, name)), Some(base)),
        file_name_of(below(base, name)) == Some(name),
        below(base, name).parts.len() == base.parts.len() + 1,
        below(base, name).absolute == base.absolute,
        forall|i: int|
            0 <= i < base.parts.len() ==> #[trigger] below(base, name).parts[i] == base.parts[i],
        base.text.is_prefix_of(below(base, name).text),
        name.is_suffix_of(below(base, name).text),
{
    let p = below(base, name);
    assert(p.parts.drop_last() =~= base.parts);
    assert(p.text.subrange(0, base.text.len() as int) =~= base.text);
    assert(p.text.subrange(p.text.len() - name.len(), p.text.len() as int) =~= name);
}

/// An absolute path stands for itself wherever it is seen from; a relative one is
/// put behind, component by component, a dot in front left out.
pub proof fn a_relative_path_is_put_behind(base: PathView, rel: PathView)
    requires
        !has_prefix_part(rel),
        !starts_at_root(rel) || rel.absolute,
    ensures
        rel.absolute ==> joined(base, rel) == rel,
        !rel.absolute ==> {
            let out = joined(base, rel);
            let dot = base.parts.len() > 0 && rel.parts.len() > 0 && rel.parts[0] is Here;
            let skipped = if dot {
                1int
            } else {
                0int
            };
            &&& out.absolute == base.absolute
            &&& out.parts.len() == base.parts.len() + rel.parts.len() - skipped
            &&& forall|i: int|
                0 <= i < base.parts.len() ==> #[trigger] out.parts[i] == base.parts[i]
            &&& forall|i: int|
                base.parts.len() <= i < out.parts.len() ==> #[trigger] out.parts[i]
                    == rel.parts[i - base.parts.len() + skipped]
            &&& rel.text.is_suffix_of(out.text)
            &&& base.text.is_prefix_of(out.text)
        },
{
    if !rel.absolute {
        let out = joined(base, rel);
        assert(out.text.subrange(0, base.text.len() as int) =~= base.text);
        assert(out.text.subrange(out.text.len() - rel.text.len(), out.text.len() as int)
            =~= rel.text);
    }
}

/// The parent of a path has all its components but the last, which is neither a
/// root nor a drive; a path that ends in one of these, or has no components, has
/// none. Its text is where the text of the path begins.
pub proof fn a_parent_has_all_but_the_last_component(p: PathView)
    ensures
        parent_of(p) is None <==> p.parts.len() == 0 || p.parts.last() is Root || p.parts.last()
            is Prefix,
        parent_of(p) matches Some(dir) ==> dir.parts.len() == p.parts.len() - 1 && forall|i: int|
            0 <= i < dir.parts.len() ==> #[trigger] dir.parts[i] == p.parts[i],
{
}

/// A path lies below another exactly when it begins with all its components, and
/// what is left is the rest of them.
pub proof fn what_is_left_is_the_rest(p: PathView, base: PathView)
    ensures
        stripped(p, base) is Some <==> base.parts.len() <= p.parts.len() && forall|i: int|
            0 <= i < base.parts.len() ==> #[trigger] base.parts[i] == p.parts[i],
        stripped(p, base) matches Some(rest) ==> rest.parts.len() == p.parts.len()
            - base.parts.len() && forall|i: int|
            0 <= i < rest.parts.len() ==> #[trigger] rest.parts[i] == p.parts[i
                + base.parts.len()],
{
    if base.parts.len() <= p.parts.len() {
        let cut = p.parts.subrange(0, base.parts.len() as int);
        assert(forall|i: int| 0 <= i < cut.len() ==> #[trigger] cut[i] == p.parts[i]);
        if forall|i: int| 0 <= i < base.parts.len() ==> #[trigger] base.parts[i] == p.parts[i] {
            assert(cut =~= base.parts);
        }
        if base.parts.is_prefix_of(p.parts) {
            assert forall|i: int| 0 <= i < base.parts.len() implies #[trigger] base.parts[i]
                == p.parts[i] by {
                assert(base.parts[i] == cut[i]);
            }
        }
    }
}

/// A path renamed keeps its folder and gets the name, where it had one.
pub proof fn a_renamed_path_keeps_its_folder(p: PathView, name: Seq<char>)
    requires
        file_name_of(p) is Some,
    ensures
        file_name_of(renamed(p, name)) == Some(name),
        renamed(p, name).parts.len() == p.parts.len(),
        forall|i: int|
            0 <= i < p.parts.len() - 1 ==> #[trigger] renamed(p, name).parts[i] == p.parts[i],
{
}

/// Two paths name the same place when they have the same components and agree on
/// whether they are absolute; how they are written does not matter.
pub proof fn the_same_place_has_the_same_components(a: PathView, b: PathView)
    ensures
        same_place(a, b) <==> a.absolute == b.absolute && a.parts.len() == b.parts.len()
            && forall|i: int| 0 <= i < a.parts.len() ==> #[trigger] a.parts[i] == b.parts[i],
        same_place(a, PathView { text: b.text, ..a }),
{
    if a.parts.len() == b.parts.len() && forall|i: int|
        0 <= i < a.parts.len() ==> #[trigger] a.parts[i] == b.parts[i] {
        assert(a.parts =~= b.parts);
    }
}

/// A name is put behind a path with one separator between them, and with none
/// where there is one already or nothing stands in front. A path on a drive has
/// separators of its own.
pub proof fn one_separator_stands_between(base: PathView, name: Seq<char>, rel: PathView)
    requires
        !rel.absolute,
        !has_prefix_part(rel),
        !starts_at_root(rel),
    ensures
        base.text.len() == 0 ==> below(base, name).text == name,
        base.text.len() > 0 && base.text.last() == '/' ==> below(base, name).text == base.text
            + name,
        base.text.len() > 0 && base.text.last() != '/' && !has_prefix_part(base) ==> below(
            base,
            name,
        ).text == base.text.push('/') + name,
        base.parts.len() > 1 && base.text.len() > 0 && base.text.last() != '/' && base.text.last()
            != '\\' && has_prefix_part(base) ==> below(base, name).text == base.text.push('\\')
            + name,
        joined(base, rel).text == below(base, rel.text).text,
{
    assert(Seq::<char>::empty() + Seq::<char>::empty() + name =~= name);
    assert(base.text + Seq::<char>::empty() + name =~= base.text + name);
    assert(base.text + seq!['/'] + name =~= base.text.push('/') + name);
    assert(base.text + seq!['\\'] + name =~= base.text.push('\\') + name);
    if base.text.len() == 0 {
        assert(base.text =~= Seq::<char>::empty());
        assert(base.text + between(base) + name =~= name);
    }
}

/// The text of a parent ends with the name of the parent, not with a separator,
/// unless it is the root; and what is left of a path below another neither starts
/// nor ends with one.
pub proof fn a_cut_text_has_no_loose_separator(p: PathView, base: PathView)
    requires
        is_spelled(p),
    ensures
        parent_of(p) matches Some(dir) ==> {
            &&& dir.text.is_prefix_of(p.text)
            &&& dir.parts.len() == 0 ==> dir.text.len() == 0
            &&& dir.parts.len() > 0 && !(dir.parts.last() is Root) ==> dir.text.len() > 0
                && dir.text.last() != '/'
            &&& dir.parts.len() == 1 && dir.parts[0] is Root ==> dir.text == seq!['/']
        },
        stripped(p, base) matches Some(rest) ==> rest.parts.len() > 0 && base.parts.len() > 0 ==> {
            &&& rest.text.len() > 0
            &&& rest.text[0] != '/'
            &&& rest.text.last() != '/'
        },
{
    let (t, parts) = (p.text, p.parts);
    if let Some(dir) = parent_of(p) {
        let n = parts.len() - 1;
        lemma_end(t, n);
        let end = end_of(t, parts, n);
        assert(dir.text == t.take(end));
        assert(t.subrange(0, end) =~= t.take(end));
        if n > 0 && !(parts[n - 1] is Root) {
            let x = part_text(parts[n - 1]);
            assert(t.subrange(end - x.len(), end)[x.len() - 1] == t[end - 1]);
            assert(x[x.len() - 1] != '/');
        } else if n > 0 {
            lemma_root_first(t, n - 1);
            assert(dir.text =~= seq!['/']);
        }
    }
    if let Some(rest) = stripped(p, base) {
        let n = base.parts.len() as int;
        let all = parts.len() as int;
        if rest.parts.len() > 0 && n > 0 {
            lemma_end(t, all);
            lemma_end(t, n + 1);
            lemma_ends_grow(t, n + 1, all);
            lemma_later_start(t, n);
            lemma_later_start(t, all - 1);
            let end = end_of(t, parts, all);
            let mid = end_of(t, parts, n + 1);
            let start = start_of(t, parts, n);
            let x = part_text(parts[n]);
            let y = part_text(parts[all - 1]);
            assert(start == mid - x.len());
            assert(rest.text == t.subrange(start, end));
            assert(t.subrange(mid - x.len(), mid)[0] == t[start]);
            assert(x[0] != '/');
            assert(t.subrange(end - y.len(), end)[y.len() - 1] == t[end - 1]);
            assert(y[y.len() - 1] != '/');
            assert(rest.text[0] == t[start]);
            assert(rest.text.last() == t[end - 1]);
        }
    }
}

/// A path on a drive of its own stands for itself; one that only starts at a root
/// is taken on the drive it is seen from, and loses nothing else.
pub proof fn a_rooted_path_keeps_the_drive(base: PathView, rel: PathView)
    ensures
        has_prefix_part(rel) ==> joined(base, rel) == rel,
        starts_at_root(rel) && !rel.absolute && has_prefix_part(base) ==> {
            let out = joined(base, rel);
            &&& out.absolute
            &&& out.parts.len() == rel.parts.len() + 1
            &&& out.parts[0] == base.parts[0]
            &&& forall|i: int| 0 <= i < rel.parts.len() ==> out.parts[i + 1] == #[trigger]
                rel.parts[i]
            &&& rel.text.is_suffix_of(out.text)
            &&& out.text.len() == rel.text.len() + part_text(base.parts[0]).len()
        },
        starts_at_root(rel) && !rel.absolute && !has_prefix_part(base) ==> joined(base, rel).parts
            == rel.parts && joined(base, rel).text == rel.text,
{
    if starts_at_root(rel) && !rel.absolute && has_prefix_part(base) {
        let out = joined(base, rel);
        assert(out.text.subrange(out.text.len() - rel.text.len(), out.text.len() as int)
            =~= rel.text);
    }
}

} // verus!
