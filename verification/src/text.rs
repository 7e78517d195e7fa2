//! Text the way the rest of the library speaks of it: as a sequence of
//! characters. The handful of `std` string functions the library leans on are
//! described here, once.

use vstd::prelude::*;
use vstd::string::*;

verus! {

/// The characters with Unicode's `White_Space` property.
pub open spec fn is_white(c: char) -> bool {
    ||| '\u{9}' <= c <= '\u{d}'
    ||| c == ' '
    ||| c == '\u{85}'
    ||| c == '\u{a0}'
    ||| c == '\u{1680}'
    ||| '\u{2000}' <= c <= '\u{200a}'
    ||| c == '\u{2028}'
    ||| c == '\u{2029}'
    ||| c == '\u{202f}'
    ||| c == '\u{205f}'
    ||| c == '\u{3000}'
}

/// `s` without its leading whitespace.
pub open spec fn trim_front(s: Seq<char>) -> Seq<char>
    decreases s.len(),
{
    if s.len() > 0 && is_white(s[0]) {
        trim_front(s.subrange(1, s.len() as int))
    } else {
        s
    }
}

/// `s` without its trailing whitespace.
pub open spec fn trim_back(s: Seq<char>) -> Seq<char>
    decreases s.len(),
{
    if s.len() > 0 && is_white(s.last()) {
        trim_back(s.drop_last())
    } else {
        s
    }
}

/// `s` without the whitespace around it.
pub open spec fn trimmed(s: Seq<char>) -> Seq<char> {
    trim_back(trim_front(s))
}

/// True when `s` is empty or whitespace all the way through.
pub open spec fn is_blank(s: Seq<char>) -> bool {
    forall|i: int| 0 <= i < s.len() ==> is_white(#[trigger] s[i])
}

/// `c` with an ASCII capital turned into its small letter.
pub open spec fn ascii_lower(c: char) -> char {
    if 'A' <= c <= 'Z' {
        (c as u32 + 32) as char
    } else {
        c
    }
}

/// `s` with every ASCII capital turned into its small letter.
pub open spec fn ascii_lowered(s: Seq<char>) -> Seq<char> {
    s.map_values(|c: char| ascii_lower(c))
}

/// True when `needle` stands somewhere inside `hay`, in one piece.
pub open spec fn occurs_in(needle: Seq<char>, hay: Seq<char>) -> bool {
    exists|at: int| #[trigger] occurs_at(needle, hay, at)
}

/// True when `needle` stands inside `hay` starting at `at`.
pub open spec fn occurs_at(needle: Seq<char>, hay: Seq<char>, at: int) -> bool {
    0 <= at && at + needle.len() <= hay.len() && hay.subrange(at, at + needle.len()) == needle
}

/// `str::to_lowercase` of a text: Unicode's lower-casing, which is a table.
pub uninterp spec fn lowercase(s: Seq<char>) -> Seq<char>;

/// `std`'s `String::push` puts the character at the end.
pub assume_specification[ String::push ](s: &mut String, c: char)
    ensures
        final(s)@ == old(s)@.push(c),
;

/// `std`'s `String::push_str` puts the text at the end.
pub assume_specification[ String::push_str ](s: &mut String, text: &str)
    ensures
        final(s)@ == old(s)@ + text@,
;

/// `std`'s `str::trim` drops the leading and the trailing characters that have
/// the `White_Space` property, and nothing else.
pub assume_specification[ str::trim ](s: &str) -> (r: &str)
    ensures
        r@ == trimmed(s@),
;

/// `std`'s `str::to_lowercase`: the result is a function of the text alone, and
/// every character becomes at least one.
pub assume_specification[ str::to_lowercase ](s: &str) -> (r: String)
    ensures
        r@ == lowercase(s@),
        r@.len() >= s@.len(),
        s@.len() == 0 ==> r@.len() == 0,
;

/// `std`'s `str::to_ascii_lowercase` maps the letters A to Z to a to z and
/// leaves every other character as it is.
pub assume_specification[ str::to_ascii_lowercase ](s: &str) -> (r: String)
    ensures
        r@ == ascii_lowered(s@),
;

/// `std`'s `str::contains` with a text as the pattern: true exactly when the
/// pattern is a piece of the text.
#[verifier::external_body]
pub(crate) fn contains_text(hay: &str, needle: &str) -> (r: bool)
    ensures
        r == occurs_in(needle@, hay@),
{
    hay.contains(needle)
}

/// `std`'s `==` on two texts: true exactly when they hold the same characters.
pub assume_specification[ <str as PartialEq>::eq ](a: &str, b: &str) -> (r: bool)
    ensures
        r == (a@ == b@),
;

/// True when the two texts hold the same characters.
pub fn same_text(a: &str, b: &str) -> (r: bool)
    ensures
        r == (a@ == b@),
{
    *a == *b
}

/// An owned copy of `s`.
pub fn owned(s: &str) -> (r: String)
    ensures
        r@ == s@,
{
    s.to_owned()
}

/// `s` as a list of characters.
pub fn chars_of(s: &str) -> (r: Vec<char>)
    ensures
        r@ == s@,
{
    let mut out: Vec<char> = Vec::new();
    for c in iter: s.chars()
        invariant
            out@ == iter.seq().take(iter.index()),
            iter.seq() == s@,
    {
        out.push(c);
    }
    out
}

proof fn lemma_trim_back_blank(s: Seq<char>)
    ensures
        trim_back(s).len() == 0 <==> is_blank(s),
    decreases s.len(),
{
    if s.len() > 0 && is_white(s.last()) {
        lemma_trim_back_blank(s.drop_last());
        assert forall|i: int| is_blank(s.drop_last()) && 0 <= i < s.len() implies is_white(
            #[trigger] s[i],
        ) by {
            if i < s.len() - 1 {
                assert(s.drop_last()[i] == s[i]);
            }
        }
        if is_blank(s) {
            assert forall|i: int| 0 <= i < s.len() - 1 implies is_white(
                #[trigger] s.drop_last()[i],
            ) by {
                assert(s.drop_last()[i] == s[i]);
            }
        }
    }
}

proof fn lemma_trim_front_blank(s: Seq<char>)
    ensures
        is_blank(trim_front(s)) <==> is_blank(s),
    decreases s.len(),
{
    if s.len() > 0 && is_white(s[0]) {
        let rest = s.subrange(1, s.len() as int);
        lemma_trim_front_blank(rest);
        if is_blank(rest) {
            assert forall|i: int| 0 <= i < s.len() implies is_white(#[trigger] s[i]) by {
                if i > 0 {
                    assert(rest[i - 1] == s[i]);
                }
            }
        }
        if is_blank(s) {
            assert forall|i: int| 0 <= i < rest.len() implies is_white(#[trigger] rest[i]) by {
                assert(rest[i] == s[i + 1]);
            }
        }
    }
}

/// Trimming leaves nothing exactly where there was nothing but whitespace.
pub proof fn trimmed_is_empty_for_blank_text(s: Seq<char>)
    ensures
        trimmed(s).len() == 0 <==> is_blank(s),
{
    lemma_trim_front_blank(s);
    lemma_trim_back_blank(trim_front(s));
}

/// True when `s` is empty or whitespace all the way through.
pub fn blank(s: &str) -> (r: bool)
    ensures
        r == is_blank(s@),
{
    let t = s.trim();
    proof {
        trimmed_is_empty_for_blank_text(s@);
    }
    t.unicode_len() == 0
}

// ---------------------------------------------------------------------------
// Numbers
// ---------------------------------------------------------------------------

/// The character of one decimal digit.
pub open spec fn digit(d: int) -> char {
    if d == 0 {
        '0'
    } else if d == 1 {
        '1'
    } else if d == 2 {
        '2'
    } else if d == 3 {
        '3'
    } else if d == 4 {
        '4'
    } else if d == 5 {
        '5'
    } else if d == 6 {
        '6'
    } else if d == 7 {
        '7'
    } else if d == 8 {
        '8'
    } else {
        '9'
    }
}

/// A number in decimal, without leading zeros.
pub open spec fn decimal(n: nat) -> Seq<char>
    decreases n,
{
    if n < 10 {
        seq![digit(n as int)]
    } else {
        decimal(n / 10).push(digit((n % 10) as int))
    }
}

/// A number below a hundred, as two digits.
pub open spec fn two_digits(n: int) -> Seq<char> {
    seq![digit(n / 10), digit(n % 10)]
}

fn digit_char(d: u64) -> (r: char)
    requires
        d < 10,
    ensures
        r == digit(d as int),
{
    match d {
        0 => '0',
        1 => '1',
        2 => '2',
        3 => '3',
        4 => '4',
        5 => '5',
        6 => '6',
        7 => '7',
        8 => '8',
        _ => '9',
    }
}

/// Puts a number at the end of a text, in decimal.
pub fn push_decimal(out: &mut String, n: u64)
    ensures
        final(out)@ == old(out)@ + decimal(n as nat),
    decreases n,
{
    if n >= 10 {
        let ghost before = out@;
        push_decimal(out, n / 10);
        out.push(digit_char(n % 10));
        proof {
            assert(out@ =~= before + decimal(n as nat));
        }
    } else {
        let ghost before = out@;
        out.push(digit_char(n));
        proof {
            assert(out@ =~= before + decimal(n as nat));
        }
    }
}

/// Puts a number below a hundred at the end of a text, as two digits.
pub fn push_two_digits(out: &mut String, n: u64)
    requires
        n < 100,
    ensures
        final(out)@ == old(out)@ + two_digits(n as int),
{
    let ghost before = out@;
    out.push(digit_char(n / 10));
    out.push(digit_char(n % 10));
    proof {
        assert(out@ =~= before + two_digits(n as int));
    }
}

// ---------------------------------------------------------------------------
// Optional texts
// ---------------------------------------------------------------------------

/// What an optional text holds.
pub open spec fn opt_text(t: Option<String>) -> Option<Seq<char>> {
    match t {
        Some(t) => Some(t@),
        None => None,
    }
}

/// What an optional borrowed text holds.
pub open spec fn opt_str(t: Option<&str>) -> Option<Seq<char>> {
    match t {
        Some(t) => Some(t@),
        None => None,
    }
}

/// A copy of an optional text.
pub fn copy_opt(t: &Option<String>) -> (r: Option<String>)
    ensures
        opt_text(r) == opt_text(*t),
{
    match t {
        Some(t) => Some(t.clone()),
        None => None,
    }
}

/// True when the two optional texts hold the same.
pub fn same_opt(a: &Option<String>, b: &Option<String>) -> (r: bool)
    ensures
        r == (opt_text(*a) == opt_text(*b)),
{
    match (a, b) {
        (Some(a), Some(b)) => same_text(a, b),
        (None, None) => true,
        _ => false,
    }
}

// ---------------------------------------------------------------------------
// Sentences
// ---------------------------------------------------------------------------

/// The pieces, one after the other.
pub fn glue(a: &str, b: &str, c: &str) -> (r: String)
    ensures
        r@ == a@ + b@ + c@,
{
    let mut out = String::new();
    out.push_str(a);
    out.push_str(b);
    out.push_str(c);
    proof {
        assert(out@ =~= a@ + b@ + c@);
    }
    out
}

// ---------------------------------------------------------------------------
// Laws
// ---------------------------------------------------------------------------

/// The number a text of decimal digits stands for.
pub open spec fn number_in(s: Seq<char>) -> int
    decreases s.len(),
{
    if s.len() == 0 {
        0
    } else {
        number_in(s.drop_last()) * 10 + (s.last() as int - '0' as int)
    }
}

/// Every character of the text is a decimal digit.
pub open spec fn all_digits(s: Seq<char>) -> bool {
    forall|i: int| 0 <= i < s.len() ==> '0' <= #[trigger] s[i] <= '9'
}

/// A number written in decimal reads as that number, is written in digits, and
/// has no leading zero.
pub proof fn a_decimal_reads_as_its_number(n: nat)
    ensures
        number_in(decimal(n)) == n,
        all_digits(decimal(n)),
        decimal(n).len() > 0,
        decimal(n).len() > 1 ==> decimal(n)[0] != '0',
    decreases n,
{
    if n >= 10 {
        a_decimal_reads_as_its_number(n / 10);
        let front = decimal(n / 10);
        assert(decimal(n).drop_last() =~= front);
        assert(decimal(n)[0] == front[0]);
        if front.len() == 1 {
            assert(front.drop_last() =~= Seq::<char>::empty());
            assert(number_in(Seq::<char>::empty()) == 0);
        }
    } else {
        assert(decimal(n).drop_last() =~= Seq::<char>::empty());
        assert(number_in(Seq::<char>::empty()) == 0);
    }
}

/// A number below a hundred takes two digits, and reads as that number.
pub proof fn two_digits_read_as_their_number(n: int)
    requires
        0 <= n < 100,
    ensures
        two_digits(n).len() == 2,
        all_digits(two_digits(n)),
        number_in(two_digits(n)) == n,
        two_digits(n)[0] as int - '0' as int == n / 10,
        two_digits(n)[1] as int - '0' as int == n % 10,
{
    let s = two_digits(n);
    assert(s.drop_last().drop_last() =~= Seq::<char>::empty());
    assert(number_in(Seq::<char>::empty()) == 0);
    assert(s.drop_last().last() == s[0]);
    assert(number_in(s.drop_last()) == s[0] as int - '0' as int);
}

proof fn lemma_trim_front(s: Seq<char>)
    ensures
        exists|k: int| #![trigger s.skip(k)]
            0 <= k <= s.len() && trim_front(s) == s.skip(k) && forall|i: int|
                0 <= i < k ==> is_white(#[trigger] s[i]),
        trim_front(s).len() > 0 ==> !is_white(trim_front(s)[0]),
    decreases s.len(),
{
    if s.len() > 0 && is_white(s[0]) {
        let rest = s.subrange(1, s.len() as int);
        lemma_trim_front(rest);
        let k = choose|k: int| #![trigger rest.skip(k)]
            0 <= k <= rest.len() && trim_front(rest) == rest.skip(k) && forall|i: int|
                0 <= i < k ==> is_white(#[trigger] rest[i]);
        assert(rest.skip(k) =~= s.skip(k + 1));
        assert forall|i: int| 0 <= i < k + 1 implies is_white(#[trigger] s[i]) by {
            if i > 0 {
                assert(rest[i - 1] == s[i]);
            }
        }
    } else {
        assert(s.skip(0) =~= s);
    }
}

proof fn lemma_trim_back(s: Seq<char>)
    ensures
        exists|k: int| #![trigger s.take(k)]
            0 <= k <= s.len() && trim_back(s) == s.take(k) && forall|i: int|
                k <= i < s.len() ==> is_white(#[trigger] s[i]),
        trim_back(s).len() > 0 ==> !is_white(trim_back(s).last()),
    decreases s.len(),
{
    if s.len() > 0 && is_white(s.last()) {
        let front = s.drop_last();
        lemma_trim_back(front);
        let k = choose|k: int| #![trigger front.take(k)]
            0 <= k <= front.len() && trim_back(front) == front.take(k) && forall|i: int|
                k <= i < front.len() ==> is_white(#[trigger] front[i]);
        assert(front.take(k) =~= s.take(k));
        assert forall|i: int| k <= i < s.len() implies is_white(#[trigger] s[i]) by {
            if i < front.len() {
                assert(front[i] == s[i]);
            }
        }
    } else {
        assert(s.take(s.len() as int) =~= s);
    }
}

/// Trimming cuts white space off both ends and nothing else: what is left stands
/// in the text in one piece, starts and ends with something else than white
/// space, and only white space was around it.
pub proof fn trimming_cuts_only_white_space(s: Seq<char>)
    ensures
        exists|a: int, b: int| #![trigger s.subrange(a, b)]
            0 <= a <= b <= s.len() && trimmed(s) == s.subrange(a, b) && (forall|i: int|
                0 <= i < a ==> is_white(#[trigger] s[i])) && (forall|i: int|
                b <= i < s.len() ==> is_white(#[trigger] s[i])),
        trimmed(s).len() > 0 ==> !is_white(trimmed(s)[0]) && !is_white(trimmed(s).last()),
{
    lemma_trim_front(s);
    let f = trim_front(s);
    let k = choose|k: int| #![trigger s.skip(k)]
        0 <= k <= s.len() && f == s.skip(k) && forall|i: int|
            0 <= i < k ==> is_white(#[trigger] s[i]);
    lemma_trim_back(f);
    let m = choose|m: int| #![trigger f.take(m)]
        0 <= m <= f.len() && trim_back(f) == f.take(m) && forall|i: int|
            m <= i < f.len() ==> is_white(#[trigger] f[i]);
    assert(f.take(m) =~= s.subrange(k, k + m));
    assert forall|i: int| k + m <= i < s.len() implies is_white(#[trigger] s[i]) by {
        assert(f[i - k] == s[i]);
    }
    if m > 0 {
        assert(trimmed(s)[0] == f[0]);
    }
}

/// Lower-casing ASCII letters changes the capitals A to Z, each into its small
/// letter, and nothing else.
pub proof fn only_capitals_are_lowered(s: Seq<char>)
    ensures
        ascii_lowered(s).len() == s.len(),
        forall|i: int|
            0 <= i < s.len() && 'A' <= #[trigger] s[i] <= 'Z' ==> ascii_lowered(s)[i] as int
                == s[i] as int + ('a' as int - 'A' as int),
        forall|i: int|
            0 <= i < s.len() && !('A' <= #[trigger] s[i] <= 'Z') ==> ascii_lowered(s)[i] == s[i],
{
}

/// What stands between two texts stands in all three of them together.
pub proof fn a_part_occurs_in_the_whole(a: Seq<char>, part: Seq<char>, c: Seq<char>)
    ensures
        occurs_in(part, a + part + c),
        occurs_in(part, a + part),
        occurs_in(part, part + c),
{
    let n = part.len();
    assert((a + part + c).subrange(a.len() as int, (a.len() + n) as int) =~= part);
    assert(occurs_at(part, a + part + c, a.len() as int));
    assert((a + part).subrange(a.len() as int, (a.len() + n) as int) =~= part);
    assert(occurs_at(part, a + part, a.len() as int));
    assert((part + c).subrange(0, n as int) =~= part);
    assert(occurs_at(part, part + c, 0));
}

} // verus!
