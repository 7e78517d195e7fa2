//! The markdown of a note: one bullet per line, stamped with the time of day.

use crate::draft::record::{is_live, lines_view, LineRecord, LineView};
use crate::stamp::Stamp;
use crate::text::{
    all_digits, number_in, opt_str, push_two_digits, two_digits, two_digits_read_as_their_number,
};
use vstd::prelude::*;

verus! {

/// The second of the day the clock showed.
pub open spec fn second_of_day(at: Stamp) -> int {
    (at.secs + at.offset) % 86400
}

/// The time of day the clock showed, as `hh:mm:ss`. A leap second is second 60.
pub open spec fn clock_text(at: Stamp) -> Seq<char> {
    let s = second_of_day(at);
    let leap: int = if at.nanos >= 1_000_000_000 {
        1
    } else {
        0
    };
    two_digits(s / 3600) + ":"@ + two_digits((s / 60) % 60) + ":"@ + two_digits(s % 60 + leap)
}

/// The bullet of one line.
pub open spec fn bullet(line: LineView) -> Seq<char> {
    "- "@ + clock_text(line.spoken_at) + " — "@ + line.text + "\n"@
}

/// The rule between two sittings.
pub open spec fn divider() -> Seq<char> {
    "\n---\n\n"@
}

/// The last rendered line among the first `n`.
pub open spec fn last_rendered(lines: Seq<LineView>, n: int) -> Option<int>
    decreases n,
{
    if n <= 0 {
        None
    } else if is_live(lines[n - 1]) {
        Some(n - 1)
    } else {
        last_rendered(lines, n - 1)
    }
}

/// True when line `k` opens a new sitting: a line is rendered in front of it,
/// and that one belongs to another sitting.
pub open spec fn opens_sitting(lines: Seq<LineView>, sessions: Option<Seq<nat>>, k: int) -> bool {
    match (sessions, last_rendered(lines, k)) {
        (Some(s), Some(before)) => s[before] != s[k],
        _ => false,
    }
}

/// The bullets of the first `n` lines. Lines that are deleted, or failed with
/// no words, are left out; a rule stands between two rendered lines of
/// different sittings.
pub open spec fn bullets(lines: Seq<LineView>, sessions: Option<Seq<nat>>, n: int) -> Seq<char>
    decreases n,
{
    if n <= 0 {
        Seq::empty()
    } else {
        let before = bullets(lines, sessions, n - 1);
        if !is_live(lines[n - 1]) {
            before
        } else if opens_sitting(lines, sessions, n - 1) {
            before + divider() + bullet(lines[n - 1])
        } else {
            before + bullet(lines[n - 1])
        }
    }
}

/// The markdown of a note: the header and an empty line, where there is a
/// header, and the bullets.
pub open spec fn markdown(
    header: Option<Seq<char>>,
    lines: Seq<LineView>,
    sessions: Option<Seq<nat>>,
) -> Seq<char> {
    let body = bullets(lines, sessions, lines.len() as int);
    match header {
        Some(h) => h + "\n\n"@ + body,
        None => body,
    }
}

/// Puts the time of day at the end of a text.
fn push_clock(out: &mut String, at: Stamp)
    ensures
        final(out)@ == old(out)@ + clock_text(at),
{
    let ghost start = out@;
    let total: i128 = at.secs as i128 + at.offset as i128;
    let rem: i128 = total % 86400;
    let day: i128 = if rem < 0 {
        rem + 86400
    } else {
        rem
    };
    proof {
        lemma_day(total as int, rem as int, day as int);
    }
    let s: u64 = day as u64;
    let leap: u64 = if at.nanos >= 1_000_000_000 {
        1
    } else {
        0
    };
    push_two_digits(out, s / 3600);
    out.push_str(":");
    push_two_digits(out, (s / 60) % 60);
    out.push_str(":");
    push_two_digits(out, s % 60 + leap);
    proof {
        assert(out@ =~= start + clock_text(at));
    }
}

/// Truncating division leaves a remainder that is at most one day off.
proof fn lemma_day(total: int, rem: int, day: int)
    requires
        rem == if total >= 0 {
            total % 86400
        } else {
            -((-total) % 86400)
        },
        day == if rem < 0 {
            rem + 86400
        } else {
            rem
        },
    ensures
        day == total % 86400,
        0 <= day < 86400,
{
}

/// A list of counts, as numbers.
pub open spec fn ordinals(s: Option<&[usize]>) -> Option<Seq<nat>> {
    match s {
        Some(s) => Some(s@.map_values(|n: usize| n as nat)),
        None => None,
    }
}

/// The markdown of a note.
pub fn render_markdown_with(
    header: Option<&str>,
    lines: &[LineRecord],
    sessions: Option<&[usize]>,
) -> (r: String)
    requires
        sessions matches Some(s) ==> s@.len() == lines@.len(),
    ensures
        r@ == markdown(opt_str(header), lines_view(lines@), ordinals(sessions)),
{
    let mut out = String::new();
    if let Some(h) = header {
        out.push_str(h);
        out.push_str("\n\n");
    }
    let ghost head = out@;
    let ghost view = lines_view(lines@);
    let ghost sits = ordinals(sessions);
    let mut last: Option<usize> = None;
    let mut i: usize = 0;
    proof {
        assert(out@ =~= head + bullets(view, sits, 0));
    }
    while i < lines.len()
        invariant
            i <= lines@.len(),
            view == lines_view(lines@),
            sits == ordinals(sessions),
            sessions matches Some(s) ==> s@.len() == lines@.len(),
            out@ == head + bullets(view, sits, i as int),
            match (last, last_rendered(view, i as int)) {
                (Some(a), Some(b)) => a == b && a < i,
                (None, None) => true,
                _ => false,
            },
        decreases lines@.len() - i,
    {
        let line = &lines[i];
        proof {
            assert(view[i as int] == line@);
        }
        if !line.deleted && !line.failed {
            let opens = match (sessions, last) {
                (Some(s), Some(before)) => s[before] != s[i],
                _ => false,
            };
            let ghost before = out@;
            if opens {
                out.push_str("\n---\n\n");
            }
            out.push_str("- ");
            push_clock(&mut out, line.spoken_at);
            out.push_str(" — ");
            out.push_str(&line.text);
            out.push_str("\n");
            proof {
                if opens {
                    assert(out@ =~= before + divider() + bullet(view[i as int]));
                } else {
                    assert(out@ =~= before + bullet(view[i as int]));
                }
                assert(out@ =~= head + bullets(view, sits, i + 1));
            }
            last = Some(i);
        }
        i = i + 1;
    }
    proof {
        match header {
            Some(h) => {
                assert(head =~= h@ + "\n\n"@);
            },
            None => {
                assert(head =~= Seq::<char>::empty());
                assert(out@ =~= bullets(view, sits, lines@.len() as int));
            },
        }
        assert(out@ =~= markdown(opt_str(header), view, sits));
    }
    out
}

// ---------------------------------------------------------------------------
// Laws
// ---------------------------------------------------------------------------

/// With one sitting, or with the rules turned off, the note is the same.
pub proof fn one_sitting_renders_without_a_rule(
    header: Option<Seq<char>>,
    lines: Seq<LineView>,
    sessions: Seq<nat>,
)
    requires
        sessions.len() == lines.len(),
        forall|i: int, j: int|
            0 <= i < lines.len() && 0 <= j < lines.len() ==> #[trigger] sessions[i]
                == #[trigger] sessions[j],
    ensures
        markdown(header, lines, Some(sessions)) == markdown(header, lines, None),
{
    lemma_no_rule(lines, sessions, lines.len() as int);
}

proof fn lemma_last_rendered(lines: Seq<LineView>, n: int)
    requires
        0 <= n <= lines.len(),
    ensures
        last_rendered(lines, n) matches Some(k) ==> 0 <= k < n,
    decreases n,
{
    if n > 0 {
        lemma_last_rendered(lines, n - 1);
    }
}

proof fn lemma_no_rule(lines: Seq<LineView>, sessions: Seq<nat>, n: int)
    requires
        sessions.len() == lines.len(),
        0 <= n <= lines.len(),
        forall|i: int, j: int|
            0 <= i < lines.len() && 0 <= j < lines.len() ==> #[trigger] sessions[i]
                == #[trigger] sessions[j],
    ensures
        bullets(lines, Some(sessions), n) == bullets(lines, None, n),
    decreases n,
{
    if n > 0 {
        lemma_no_rule(lines, sessions, n - 1);
        lemma_last_rendered(lines, n - 1);
    }
}

/// The time on a bullet is the time of day the line's own clock showed, east or
/// west of UTC: hours, minutes and seconds that are whole days away from the
/// stamp's seconds and its offset. In a leap second the seconds go one further.
pub proof fn the_clock_shows_the_local_time_of_day(at: Stamp)
    ensures
        ({
            let text = clock_text(at);
            let h = number_in(text.subrange(0, 2));
            let m = number_in(text.subrange(3, 5));
            let shown = number_in(text.subrange(6, 8));
            let s = if at.nanos >= 1_000_000_000 {
                shown - 1
            } else {
                shown
            };
            &&& text.len() == 8
            &&& text[2] == ':' && text[5] == ':'
            &&& all_digits(text.subrange(0, 2)) && all_digits(text.subrange(3, 5)) && all_digits(
                text.subrange(6, 8),
            )
            &&& 0 <= h < 24 && 0 <= m < 60 && 0 <= s < 60
            &&& (at.secs + at.offset - (3600 * h + 60 * m + s)) % 86400 == 0
        }),
{
    let total = at.secs + at.offset;
    let day = second_of_day(at);
    let leap: int = if at.nanos >= 1_000_000_000 {
        1
    } else {
        0
    };
    reveal_strlit(":");
    two_digits_read_as_their_number(day / 3600);
    two_digits_read_as_their_number((day / 60) % 60);
    two_digits_read_as_their_number(day % 60 + leap);
    let text = clock_text(at);
    assert(text.subrange(0, 2) =~= two_digits(day / 3600));
    assert(text.subrange(3, 5) =~= two_digits((day / 60) % 60));
    assert(text.subrange(6, 8) =~= two_digits(day % 60 + leap));
    let d = total / 86400;
    assert(total - (3600 * (day / 3600) + 60 * ((day / 60) % 60) + day % 60) == 86400 * d);
}

/// Two clocks that show the same moment differ by the distance between them, and
/// the moment alone decides nothing: an hour further east is an hour later.
pub proof fn a_clock_further_east_is_later(at: Stamp, other: Stamp)
    requires
        other.secs == at.secs,
        other.offset == at.offset + 3600,
    ensures
        second_of_day(other) == second_of_day(at) + 3600 || second_of_day(other) == second_of_day(
            at,
        ) + 3600 - 86400,
{
}

/// A bullet is a dash, the time, a long dash, the line's words as they are, and
/// the end of the line.
pub proof fn a_bullet_holds_the_time_and_the_words(line: LineView)
    ensures
        ({
            let b = bullet(line);
            let n = line.text.len() as int;
            &&& b.len() == n + 14
            &&& b[0] == '-' && b[1] == ' '
            &&& b.subrange(2, 10) == clock_text(line.spoken_at)
            &&& b[10] == ' ' && b[11] == '\u{2014}' && b[12] == ' '
            &&& b.subrange(13, 13 + n) == line.text
            &&& b.last() == '\n'
        }),
{
    the_clock_shows_the_local_time_of_day(line.spoken_at);
    reveal_strlit("- ");
    reveal_strlit(" — ");
    reveal_strlit("\n");
    let b = bullet(line);
    assert(b.subrange(2, 10) =~= clock_text(line.spoken_at));
    assert(b.subrange(13, 13 + line.text.len() as int) =~= line.text);
}

/// A note without lines is its header and an empty line, or nothing at all.
pub proof fn a_note_starts_with_its_header(header: Seq<char>, sessions: Option<Seq<nat>>)
    ensures
        markdown(None, Seq::empty(), sessions).len() == 0,
        markdown(Some(header), Seq::empty(), sessions).len() == header.len() + 2,
        markdown(Some(header), Seq::empty(), sessions).take(header.len() as int) == header,
        markdown(Some(header), Seq::empty(), sessions)[header.len() as int] == '\n',
        markdown(Some(header), Seq::empty(), sessions)[header.len() as int + 1] == '\n',
{
    reveal_strlit("\n\n");
    let m = markdown(Some(header), Seq::empty(), sessions);
    assert(m.take(header.len() as int) =~= header);
}

/// A line at the end of a note adds its bullet behind everything that was there,
/// if it is neither deleted nor failed, and nothing otherwise. A rule stands
/// between the two exactly when the last bullet before it is of another sitting.
pub proof fn a_line_adds_its_bullet(
    header: Option<Seq<char>>,
    lines: Seq<LineView>,
    sessions: Option<Seq<nat>>,
    line: LineView,
    sitting: nat,
)
    requires
        sessions matches Some(s) ==> s.len() == lines.len(),
    ensures
        ({
            let more = match sessions {
                Some(s) => Some(s.push(sitting)),
                None => None,
            };
            let before = markdown(header, lines, sessions);
            let after = markdown(header, lines.push(line), more);
            let parted = sessions matches Some(s) && exists|j: int|
                #![trigger lines[j]]
                0 <= j < lines.len() && !lines[j].deleted && !lines[j].failed && s[j] != sitting
                    && forall|k: int|
                    j < k < lines.len() ==> (#[trigger] lines[k]).deleted || lines[k].failed;
            &&& line.deleted || line.failed ==> after == before
            &&& !line.deleted && !line.failed && !parted ==> after == before + bullet(line)
            &&& !line.deleted && !line.failed && parted ==> after == before + "\n---\n\n"@ + bullet(
                line,
            )
        }),
{
    let n = lines.len() as int;
    let all = lines.push(line);
    let more = match sessions {
        Some(s) => Some(s.push(sitting)),
        None => None,
    };
    lemma_bullets_prefix(lines, sessions, line, sitting, n);
    lemma_last_rendered_is_last(lines, n);
    lemma_last_rendered_prefix(lines, line, n);
    assert(all[n] == line);
    let body = bullets(lines, sessions, n);
    assert(bullets(all, more, n + 1) == (if !is_live(line) {
        body
    } else if opens_sitting(all, more, n) {
        body + divider() + bullet(line)
    } else {
        body + bullet(line)
    }));
    if let Some(h) = header {
        let head = h + "\n\n"@;
        assert(head + (body + bullet(line)) =~= (head + body) + bullet(line));
        assert(head + (body + divider() + bullet(line)) =~= (head + body) + divider() + bullet(
            line,
        ));
    }
}

proof fn lemma_last_rendered_is_last(lines: Seq<LineView>, n: int)
    requires
        0 <= n <= lines.len(),
    ensures
        match last_rendered(lines, n) {
            Some(j) => 0 <= j < n && !lines[j].deleted && !lines[j].failed && forall|k: int|
                j < k < n ==> (#[trigger] lines[k]).deleted || lines[k].failed,
            None => forall|k: int| 0 <= k < n ==> (#[trigger] lines[k]).deleted || lines[k].failed,
        },
    decreases n,
{
    if n > 0 {
        lemma_last_rendered_is_last(lines, n - 1);
    }
}

proof fn lemma_last_rendered_prefix(lines: Seq<LineView>, line: LineView, n: int)
    requires
        0 <= n <= lines.len(),
    ensures
        last_rendered(lines.push(line), n) == last_rendered(lines, n),
    decreases n,
{
    if n > 0 {
        lemma_last_rendered_prefix(lines, line, n - 1);
        assert(lines.push(line)[n - 1] == lines[n - 1]);
    }
}

proof fn lemma_bullets_prefix(
    lines: Seq<LineView>,
    sessions: Option<Seq<nat>>,
    line: LineView,
    sitting: nat,
    n: int,
)
    requires
        0 <= n <= lines.len(),
        sessions matches Some(s) ==> s.len() == lines.len(),
    ensures
        bullets(
            lines.push(line),
            match sessions {
                Some(s) => Some(s.push(sitting)),
                None => None,
            },
            n,
        ) == bullets(lines, sessions, n),
    decreases n,
{
    if n > 0 {
        lemma_bullets_prefix(lines, sessions, line, sitting, n - 1);
        lemma_last_rendered_prefix(lines, line, n - 1);
        lemma_last_rendered(lines, n - 1);
        assert(lines.push(line)[n - 1] == lines[n - 1]);
    }
}

} // verus!
