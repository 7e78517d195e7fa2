//! Names that are still free in a folder.

use crate::path::{below, NotePath, PartView, PathView};
use crate::text::{
    a_decimal_reads_as_its_number, all_digits, chars_of, decimal, number_in, push_decimal,
};
use vstd::prelude::*;

verus! {

/// The first number a name is given.
pub const FIRST_NUMBER: u64 = 2;

/// The last number a name is given.
pub const LAST_NUMBER: u64 = 999;

/// Where the extension of a file name begins: at its last dot, unless that is
/// in front, and at the end when there is none.
pub open spec fn extension_start(file: Seq<char>) -> int {
    extension_start_in(file, file.len() as int)
}

/// The last dot among the first `n` characters, not counting one in front; the
/// end of the name when there is none.
pub open spec fn extension_start_in(file: Seq<char>, n: int) -> int
    decreases n,
{
    if n <= 1 {
        file.len() as int
    } else if file[n - 1] == '.' {
        n - 1
    } else {
        extension_start_in(file, n - 1)
    }
}

/// The name with a number in brackets in front of its extension.
pub open spec fn numbered(file: Seq<char>, n: nat) -> Seq<char> {
    let at = extension_start(file);
    file.take(at) + " ("@ + decimal(n) + ")"@ + file.skip(at)
}


/// The name with a number in brackets in front of its extension.
pub fn numbered_name(file: &str, n: u64) -> (r: String)
    ensures
        r@ == numbered(file@, n as nat),
{
    let chars = chars_of(file);
    let len: usize = chars.len();
    let mut at: usize = len;
    let mut i: usize = len;
    while i > 1
        invariant_except_break
            at == len,
        invariant
            i <= len,
            len == chars@.len(),
            chars@ == file@,
            extension_start(file@) == extension_start_in(file@, i as int),
        ensures
            at == extension_start(file@),
            at <= len,
        decreases i,
    {
        if chars[i - 1] == '.' {
            at = i - 1;
            break;
        }
        i = i - 1;
    }
    let mut out = String::new();
    let mut k: usize = 0;
    while k < at
        invariant
            k <= at <= chars@.len(),
            chars@ == file@,
            out@ == file@.take(k as int),
        decreases at - k,
    {
        out.push(chars[k]);
        proof {
            assert(out@ =~= file@.take(k + 1));
        }
        k = k + 1;
    }
    out.push_str(" (");
    push_decimal(&mut out, n);
    out.push_str(")");
    let ghost head = out@;
    proof {
        assert(head =~= file@.take(at as int) + " ("@ + decimal(n as nat) + ")"@);
        assert(head + file@.subrange(at as int, at as int) =~= head);
    }
    while k < chars.len()
        invariant
            at <= k <= chars@.len(),
            chars@ == file@,
            out@ == head + file@.subrange(at as int, k as int),
        decreases chars@.len() - k,
    {
        out.push(chars[k]);
        proof {
            assert(out@ =~= head + file@.subrange(at as int, k + 1));
        }
        k = k + 1;
    }
    proof {
        assert(file@.subrange(at as int, file@.len() as int) =~= file@.skip(at as int));
    }
    out
}

/// The place of the name with that number.
pub open spec fn numbered_path(dir: PathView, file: Seq<char>, n: int) -> PathView {
    below(dir, numbered(file, n as nat))
}

/// `occupied` answered `answer` about the place of the name with that number.
pub open spec fn answered<F: Fn(&NotePath) -> bool>(
    occupied: F,
    dir: PathView,
    file: Seq<char>,
    n: int,
    answer: bool,
) -> bool {
    exists|p: &NotePath| #[trigger]
        occupied.ensures((p,), answer) && p@ == numbered_path(dir, file, n)
}

/// The first numbered name in `dir` that nothing has yet, or `None` when every
/// number is taken. `occupied` says whether a place is taken.
pub fn first_free<F: Fn(&NotePath) -> bool>(dir: &NotePath, file: &str, occupied: F) -> (r: Option<
    NotePath,
>)
    requires
        forall|p: &NotePath| #[trigger] occupied.requires((p,)),
    ensures
        match r {
            Some(path) => exists|n: int|
                FIRST_NUMBER <= n <= LAST_NUMBER && path@ == #[trigger] numbered_path(
                    dir@,
                    file@,
                    n,
                ) && answered(occupied, dir@, file@, n, false) && forall|m: int|
                    FIRST_NUMBER <= m < n ==> #[trigger] answered(occupied, dir@, file@, m, true),
            None => forall|m: int|
                FIRST_NUMBER <= m <= LAST_NUMBER ==> #[trigger] answered(
                    occupied,
                    dir@,
                    file@,
                    m,
                    true,
                ),
        },
{
    let mut n: u64 = FIRST_NUMBER;
    while n <= LAST_NUMBER
        invariant
            FIRST_NUMBER <= n <= LAST_NUMBER + 1,
            forall|p: &NotePath| #[trigger] occupied.requires((p,)),
            forall|m: int|
                FIRST_NUMBER <= m < n ==> #[trigger] answered(occupied, dir@, file@, m, true),
        decreases LAST_NUMBER + 1 - n,
    {
        let name = numbered_name(file, n);
        let path = dir.child(&name);
        proof {
            assert(path@ == numbered_path(dir@, file@, n as int));
        }
        let taken = occupied(&path);
        if !taken {
            proof {
                assert(answered(occupied, dir@, file@, n as int, false));
            }
            return Some(path);
        }
        proof {
            assert(answered(occupied, dir@, file@, n as int, true));
        }
        n = n + 1;
    }
    None
}

// ---------------------------------------------------------------------------
// Laws
// ---------------------------------------------------------------------------

proof fn lemma_extension(file: Seq<char>, n: int)
    requires
        0 <= n <= file.len(),
        forall|i: int| n <= i < file.len() && i > 0 ==> #[trigger] file[i] != '.',
    ensures
        ({
            let at = extension_start_in(file, n);
            &&& 0 <= at <= file.len()
            &&& at < file.len() ==> at > 0 && file[at] == '.'
            &&& forall|i: int| at < i < file.len() ==> #[trigger] file[i] != '.'
            &&& at == file.len() ==> forall|i: int|
                0 < i < file.len() ==> #[trigger] file[i] != '.'
        }),
    decreases n,
{
    if n > 1 && file[n - 1] != '.' {
        lemma_extension(file, n - 1);
    }
}

/// A numbered name is the name with a space and the number in brackets in front
/// of its extension: its last dot and what follows, unless that dot is in front.
/// The number reads as it is.
pub proof fn a_number_goes_in_front_of_the_extension(file: Seq<char>, n: nat) -> (at: int)
    ensures
        ({
            let out = numbered(file, n);
            let digits = out.len() - file.len() - 3;
            &&& 0 <= at <= file.len()
            &&& at < file.len() ==> at > 0 && file[at] == '.'
            &&& forall|i: int| at < i < file.len() ==> #[trigger] file[i] != '.'
            &&& at == file.len() ==> forall|i: int|
                0 < i < file.len() ==> #[trigger] file[i] != '.'
            &&& digits > 0
            &&& out.take(at) == file.take(at)
            &&& out[at] == ' ' && out[at + 1] == '('
            &&& number_in(out.subrange(at + 2, at + 2 + digits)) == n
            &&& all_digits(out.subrange(at + 2, at + 2 + digits))
            &&& out[at + 2 + digits] == ')'
            &&& out.skip(at + 3 + digits) == file.skip(at)
        }),
{
    let at = extension_start(file);
    lemma_extension(file, file.len() as int);
    a_decimal_reads_as_its_number(n);
    reveal_strlit(" (");
    reveal_strlit(")");
    let out = numbered(file, n);
    let digits = decimal(n).len() as int;
    assert(out.take(at) =~= file.take(at));
    assert(out.subrange(at + 2, at + 2 + digits) =~= decimal(n));
    assert(out.skip(at + 3 + digits) =~= file.skip(at));
    at
}

/// Two numbers never give the same name.
pub proof fn numbers_give_names_of_their_own(file: Seq<char>, n: nat, m: nat)
    requires
        numbered(file, n) == numbered(file, m),
    ensures
        n == m,
{
    let a = a_number_goes_in_front_of_the_extension(file, n);
    let b = a_number_goes_in_front_of_the_extension(file, m);
    assert(a == b) by {
        if a < b {
            if b < file.len() {
                assert(file[b] != '.');
            } else {
                assert(file[a] != '.');
            }
        } else if b < a {
            if a < file.len() {
                assert(file[a] != '.');
            } else {
                assert(file[b] != '.');
            }
        }
    }
}

/// A numbered name is in the folder it is for, and numbers go from two up to 999.
pub proof fn a_numbered_path_is_in_its_folder(dir: PathView, file: Seq<char>, n: int)
    requires
        FIRST_NUMBER <= n <= LAST_NUMBER,
    ensures
        2 <= n <= 999,
        numbered_path(dir, file, n).parts.len() == dir.parts.len() + 1,
        numbered_path(dir, file, n).parts.drop_last() == dir.parts,
        numbered_path(dir, file, n).parts.last() == PartView::Name(numbered(file, n as nat)),
        FIRST_NUMBER == 2 && LAST_NUMBER == 999,
{
    assert(numbered_path(dir, file, n).parts.drop_last() =~= dir.parts);
}

} // verus!
