//! Searching a transcript.

use crate::draft::record::{is_live, lines_view, LineRecord, LineView};
use crate::stamp::{is_before, Stamp};
use crate::text::{
    contains_text, is_blank, lowercase, occurs_at, occurs_in, trimmed, trimmed_is_empty_for_blank_text,
};
use vstd::prelude::*;
use vstd::string::*;

verus! {

/// A search term that is worth running: trimmed and lower-cased, once.
#[derive(Debug, PartialEq, Eq)]
pub struct SearchTerm {
    /// Trimmed and lower-cased.
    pub needle: String,
}

impl View for SearchTerm {
    type V = Seq<char>;

    open spec fn view(&self) -> Seq<char> {
        self.needle@
    }
}

impl Clone for SearchTerm {
    fn clone(&self) -> (r: Self)
        ensures
            r@ == self@,
    {
        SearchTerm { needle: self.needle.clone() }
    }
}

/// True when the text holds the needle, whatever the case of its letters.
pub open spec fn text_matches(needle: Seq<char>, text: Seq<char>) -> bool {
    occurs_in(needle, lowercase(text))
}

/// True when the line would be rendered and its text matches.
pub open spec fn line_matches(needle: Seq<char>, line: LineView) -> bool {
    is_live(line) && text_matches(needle, line.text)
}

/// The places of the matching lines among the first `n`, in order.
pub open spec fn matches_up_to(needle: Seq<char>, lines: Seq<LineView>, n: int) -> Seq<int>
    decreases n,
{
    if n <= 0 {
        Seq::empty()
    } else if line_matches(needle, lines[n - 1]) {
        matches_up_to(needle, lines, n - 1).push(n - 1)
    } else {
        matches_up_to(needle, lines, n - 1)
    }
}

impl SearchTerm {
    /// Normalises a raw term, or `None` if it is search-off: an empty or blank
    /// term is the off switch and there is no other one.
    pub fn parse(raw: &str) -> (r: Option<SearchTerm>)
        ensures
            r is None <==> is_blank(raw@),
            r is Some ==> r.unwrap()@ == lowercase(trimmed(raw@)) && r.unwrap()@.len() > 0,
    {
        let trimmed_raw = raw.trim();
        proof {
            trimmed_is_empty_for_blank_text(raw@);
        }
        if trimmed_raw.unicode_len() == 0 {
            return None;
        }
        Some(SearchTerm { needle: trimmed_raw.to_lowercase() })
    }

    /// The normalised needle.
    pub fn as_str(&self) -> (r: &str)
        ensures
            r@ == self@,
    {
        &self.needle
    }

    /// Case-insensitive literal substring.
    pub fn matches_text(&self, text: &str) -> (r: bool)
        ensures
            r == text_matches(self@, text@),
    {
        let lowered = text.to_lowercase();
        contains_text(&lowered, &self.needle)
    }

    /// Whether this line matches: it has to be live first.
    pub fn matches_line(&self, line: &LineRecord) -> (r: bool)
        ensures
            r == line_matches(self@, line@),
    {
        if line.deleted || line.failed {
            return false;
        }
        self.matches_text(&line.text)
    }
}

/// A list of places, as numbers.
pub open spec fn indices_view(v: Seq<usize>) -> Seq<int> {
    v.map_values(|i: usize| i as int)
}

/// The places of the matching lines: one per line, however often the term
/// occurs in it, in order.
pub fn matching_lines(term: &SearchTerm, lines: &[LineRecord]) -> (r: Vec<usize>)
    ensures
        indices_view(r@) == matches_up_to(term@, lines_view(lines@), lines@.len() as int),
{
    let mut out: Vec<usize> = Vec::new();
    let mut i: usize = 0;
    proof {
        assert(indices_view(out@) =~= Seq::<int>::empty());
    }
    while i < lines.len()
        invariant
            i <= lines@.len(),
            indices_view(out@) == matches_up_to(term@, lines_view(lines@), i as int),
        decreases lines@.len() - i,
    {
        proof {
            assert(lines_view(lines@)[i as int] == lines@[i as int]@);
        }
        if term.matches_line(&lines[i]) {
            let ghost before = out@;
            out.push(i);
            proof {
                assert(indices_view(out@) =~= indices_view(before).push(i as int));
            }
        }
        i = i + 1;
    }
    out
}

/// The latest stamp among the rendered lines of the first `n`.
pub open spec fn latest_live(lines: Seq<LineView>, n: int) -> Option<Stamp>
    decreases n,
{
    if n <= 0 {
        None
    } else {
        let before = latest_live(lines, n - 1);
        let line = lines[n - 1];
        if !is_live(line) {
            before
        } else {
            match before {
                Some(at) => if is_before(line.spoken_at, at) {
                    Some(at)
                } else {
                    Some(line.spoken_at)
                },
                None => Some(line.spoken_at),
            }
        }
    }
}

/// When a draft was last written to: the newest live line's stamp, or `None`
/// when nothing in it is live.
pub fn last_written(lines: &[LineRecord]) -> (r: Option<Stamp>)
    ensures
        r == latest_live(lines_view(lines@), lines@.len() as int),
{
    let mut latest: Option<Stamp> = None;
    let mut i: usize = 0;
    while i < lines.len()
        invariant
            i <= lines@.len(),
            latest == latest_live(lines_view(lines@), i as int),
        decreases lines@.len() - i,
    {
        proof {
            assert(lines_view(lines@)[i as int] == lines@[i as int]@);
        }
        if !lines[i].deleted && !lines[i].failed {
            let at = lines[i].spoken_at;
            latest = match latest {
                Some(best) => if at.before(&best) {
                    Some(best)
                } else {
                    Some(at)
                },
                None => Some(at),
            };
        }
        i = i + 1;
    }
    latest
}

// ---------------------------------------------------------------------------
// Laws
// ---------------------------------------------------------------------------

/// A search finds exactly the lines that match and would be rendered, each
/// once, in ascending order.
pub proof fn a_search_finds_every_live_match_once(needle: Seq<char>, lines: Seq<LineView>, n: int)
    requires
        0 <= n <= lines.len(),
    ensures
        ({
            let found = matches_up_to(needle, lines, n);
            &&& forall|i: int, j: int|
                0 <= i < j < found.len() ==> #[trigger] found[i] < #[trigger] found[j]
            &&& forall|i: int|
                0 <= i < found.len() ==> 0 <= #[trigger] found[i] < n && line_matches(
                    needle,
                    lines[found[i]],
                )
            &&& forall|k: int|
                0 <= k < n && line_matches(needle, #[trigger] lines[k]) ==> found.contains(k)
        }),
    decreases n,
{
    if n > 0 {
        a_search_finds_every_live_match_once(needle, lines, n - 1);
        let before = matches_up_to(needle, lines, n - 1);
        let found = matches_up_to(needle, lines, n);
        assert forall|k: int| 0 <= k < n && line_matches(needle, #[trigger] lines[k]) implies
            found.contains(k) by {
            if k < n - 1 {
                assert(before.contains(k));
                let i = choose|i: int| 0 <= i < before.len() && before[i] == k;
                assert(found[i] == k);
            } else {
                assert(found.last() == k);
            }
        }
    }
}

/// The last-written stamp is the stamp of a live line, and no live line is
/// later; there is none exactly when no line is live.
pub proof fn the_last_written_stamp_is_the_newest(lines: Seq<LineView>, n: int)
    requires
        0 <= n <= lines.len(),
    ensures
        match latest_live(lines, n) {
            Some(at) => {
                &&& exists|k: int| 0 <= k < n && is_live(#[trigger] lines[k]) && lines[k].spoken_at
                    == at
                &&& forall|k: int|
                    0 <= k < n && is_live(#[trigger] lines[k]) ==> !is_before(
                        at,
                        lines[k].spoken_at,
                    )
            },
            None => forall|k: int| 0 <= k < n ==> !is_live(#[trigger] lines[k]),
        },
    decreases n,
{
    if n > 0 {
        the_last_written_stamp_is_the_newest(lines, n - 1);
    }
}

/// A term is found wherever its characters stand one behind the other in the
/// lower-cased text, whatever stands in front of them or behind them, and nowhere
/// else.
pub proof fn a_term_is_found_wherever_it_stands(needle: Seq<char>, text: Seq<char>)
    ensures
        text_matches(needle, text) <==> exists|at: int|
            #![trigger needle.len() + at]
            0 <= at && needle.len() + at <= lowercase(text).len() && forall|i: int|
                0 <= i < needle.len() ==> #[trigger] lowercase(text)[at + i] == needle[i],
{
    let hay = lowercase(text);
    if text_matches(needle, text) {
        let at = choose|at: int| #[trigger] occurs_at(needle, hay, at);
        assert(needle.len() + at <= hay.len());
        assert forall|i: int| 0 <= i < needle.len() implies #[trigger] hay[at + i] == needle[i] by {
            assert(hay.subrange(at, at + needle.len())[i] == hay[at + i]);
        }
    }
    if exists|at: int|
        #![trigger needle.len() + at]
        0 <= at && needle.len() + at <= hay.len() && forall|i: int|
            0 <= i < needle.len() ==> #[trigger] hay[at + i] == needle[i] {
        let at = choose|at: int|
            #![trigger needle.len() + at]
            0 <= at && needle.len() + at <= hay.len() && forall|i: int|
                0 <= i < needle.len() ==> #[trigger] hay[at + i] == needle[i];
        let here = hay.subrange(at, at + needle.len());
        assert forall|i: int| 0 <= i < needle.len() implies #[trigger] here[i] == needle[i] by {
            assert(here[i] == hay[at + i]);
        }
        assert(here =~= needle);
        assert(occurs_at(needle, hay, at));
    }
}

/// A line is found exactly when it is neither deleted nor failed and the term is
/// in its text.
pub proof fn a_dead_line_is_never_found(needle: Seq<char>, line: LineView)
    ensures
        line_matches(needle, line) <==> !line.deleted && !line.failed && text_matches(
            needle,
            line.text,
        ),
{
}

} // verus!
