//! File names made from what the user typed.

use crate::text::chars_of;
use vstd::prelude::*;

verus! {

/// True for a character no file name may hold on every platform the app ships
/// to: a separator, one of the reserved marks, or a control character.
pub open spec fn is_unsafe_char(c: char) -> bool {
    ||| c < ' '
    ||| '\u{7f}' <= c <= '\u{9f}'
    ||| c == '<'
    ||| c == '>'
    ||| c == ':'
    ||| c == '"'
    ||| c == '/'
    ||| c == '\\'
    ||| c == '|'
    ||| c == '?'
    ||| c == '*'
}

/// True when the text can be the name of a file or folder as it is: not empty,
/// no unsafe character, and no dot or space at the end.
pub open spec fn file_safe_name(name: Seq<char>) -> bool {
    &&& name.len() > 0
    &&& forall|i: int| 0 <= i < name.len() ==> !is_unsafe_char(#[trigger] name[i])
    &&& name.last() != '.'
    &&& name.last() != ' '
}

/// The character, or a dash in place of an unsafe one.
pub open spec fn dashed(c: char) -> char {
    if is_unsafe_char(c) {
        '-'
    } else {
        c
    }
}

/// The text without the dots and spaces at its end.
pub open spec fn without_trailing(name: Seq<char>) -> Seq<char>
    decreases name.len(),
{
    if name.len() > 0 && (name.last() == '.' || name.last() == ' ') {
        without_trailing(name.drop_last())
    } else {
        name
    }
}

/// The extension of a note.
pub open spec fn md() -> Seq<char> {
    seq!['.', 'm', 'd']
}

/// The text as the name of a note's file: unsafe characters become dashes, dots
/// and spaces at the end go, and the extension is added unless it is there.
pub open spec fn note_file_name(name: Seq<char>) -> Seq<char> {
    let stem = without_trailing(name.map_values(|c: char| dashed(c)));
    if md().is_suffix_of(stem) {
        stem
    } else {
        stem + md()
    }
}

fn unsafe_char(c: char) -> (r: bool)
    ensures
        r == is_unsafe_char(c),
{
    c < ' ' || ('\u{7f}' <= c && c <= '\u{9f}') || c == '<' || c == '>' || c == ':' || c == '"' || c
        == '/' || c == '\\' || c == '|' || c == '?' || c == '*'
}

/// Can the text be the name of a file or folder as it is?
pub fn is_file_safe(name: &str) -> (r: bool)
    ensures
        r == file_safe_name(name@),
{
    let chars = chars_of(name);
    let n: usize = chars.len();
    if n == 0 {
        return false;
    }
    let mut i: usize = 0;
    while i < n
        invariant
            i <= n,
            n == chars@.len(),
            chars@ == name@,
            forall|j: int| 0 <= j < i ==> !is_unsafe_char(#[trigger] name@[j]),
        decreases n - i,
    {
        if unsafe_char(chars[i]) {
            proof {
                assert(is_unsafe_char(name@[i as int]));
            }
            return false;
        }
        i = i + 1;
    }
    chars[n - 1] != '.' && chars[n - 1] != ' '
}

/// A list of characters, as a text.
fn text_from(chars: &Vec<char>) -> (r: String)
    ensures
        r@ == chars@,
{
    let mut out = String::new();
    let mut i: usize = 0;
    while i < chars.len()
        invariant
            i <= chars@.len(),
            out@ == chars@.take(i as int),
        decreases chars@.len() - i,
    {
        out.push(chars[i]);
        proof {
            assert(out@ =~= chars@.take(i + 1));
        }
        i = i + 1;
    }
    proof {
        assert(chars@.take(chars@.len() as int) =~= chars@);
    }
    out
}

/// The text as the name of a note's file.
pub fn file_safe(name: &str) -> (r: String)
    ensures
        r@ == note_file_name(name@),
{
    let typed = chars_of(name);
    let mut stem: Vec<char> = Vec::new();
    let mut i: usize = 0;
    while i < typed.len()
        invariant
            i <= typed@.len(),
            typed@ == name@,
            stem@ == typed@.map_values(|c: char| dashed(c)).take(i as int),
        decreases typed@.len() - i,
    {
        let c: char = typed[i];
        if unsafe_char(c) {
            stem.push('-');
        } else {
            stem.push(c);
        }
        proof {
            assert(stem@ =~= typed@.map_values(|c: char| dashed(c)).take(i + 1));
        }
        i = i + 1;
    }
    let ghost mapped = name@.map_values(|c: char| dashed(c));
    proof {
        assert(stem@ =~= mapped);
    }
    while stem.len() > 0 && (stem[stem.len() - 1] == '.' || stem[stem.len() - 1] == ' ')
        invariant
            without_trailing(stem@) == without_trailing(mapped),
        decreases stem@.len(),
    {
        let ghost before = stem@;
        let _ = stem.pop();
        proof {
            assert(stem@ =~= before.drop_last());
        }
    }
    let n: usize = stem.len();
    let ends = n >= 3 && stem[n - 3] == '.' && stem[n - 2] == 'm' && stem[n - 1] == 'd';
    proof {
        if ends {
            assert(stem@.subrange(n - 3, n as int) =~= md());
        } else if md().is_suffix_of(stem@) {
            let end = stem@.subrange(n - 3, n as int);
            assert(end[0] == stem@[n - 3]);
            assert(end[1] == stem@[n - 2]);
            assert(end[2] == stem@[n - 1]);
        }
    }
    if !ends {
        let ghost before = stem@;
        stem.push('.');
        stem.push('m');
        stem.push('d');
        proof {
            assert(stem@ =~= before + md());
        }
    }
    text_from(&stem)
}

proof fn lemma_without_trailing(name: Seq<char>)
    ensures
        without_trailing(name).is_prefix_of(name),
    decreases name.len(),
{
    if name.len() > 0 && (name.last() == '.' || name.last() == ' ') {
        lemma_without_trailing(name.drop_last());
        let out = without_trailing(name);
        assert(name.drop_last().subrange(0, out.len() as int) =~= name.subrange(
            0,
            out.len() as int,
        ));
    } else {
        assert(name.subrange(0, name.len() as int) =~= name);
    }
}

/// Whatever was typed, the name of the note's file is safe: it holds no
/// separator, so a rename can never leave the folder.
pub proof fn a_note_file_name_is_safe(name: Seq<char>)
    ensures
        file_safe_name(note_file_name(name)),
{
    let mapped = name.map_values(|c: char| dashed(c));
    let stem = without_trailing(mapped);
    lemma_without_trailing(mapped);
    let out = note_file_name(name);
    assert forall|i: int| 0 <= i < stem.len() implies !is_unsafe_char(#[trigger] stem[i]) by {
        assert(stem[i] == mapped.subrange(0, stem.len() as int)[i]);
        assert(mapped[i] == dashed(name[i]));
    }
    if md().is_suffix_of(stem) {
        assert(stem.subrange(stem.len() - 3, stem.len() as int)[2] == stem[stem.len() - 1]);
        assert(stem.last() == 'd');
    } else {
        assert(out.last() == 'd');
        assert forall|i: int| 0 <= i < out.len() implies !is_unsafe_char(#[trigger] out[i]) by {
            if i < stem.len() {
                assert(out[i] == stem[i]);
            } else {
                assert(out[i] == md()[i - stem.len()]);
            }
        }
    }
}

/// No file name may hold a separator, a reserved mark or a control character, be
/// empty, or end in a dot or a space; every other text may be one.
pub proof fn a_safe_name_is_told_by_its_characters(name: Seq<char>)
    ensures
        file_safe_name(name) <==> {
            &&& name.len() > 0
            &&& name.last() != '.' && name.last() != ' '
            &&& forall|i: int| #![trigger name[i]]
                0 <= i < name.len() ==> name[i] != '/' && name[i] != '\\' && name[i] != ':'
                    && name[i] != '<' && name[i] != '>' && name[i] != '"' && name[i] != '|'
                    && name[i] != '?' && name[i] != '*' && !(name[i] < '\u{20}') && !('\u{7f}'
                    <= name[i] <= '\u{9f}')
        },
{
    let banned = |c: char|
        c == '/' || c == '\\' || c == ':' || c == '<' || c == '>' || c == '"' || c == '|' || c
            == '?' || c == '*' || c < '\u{20}' || '\u{7f}' <= c <= '\u{9f}';
    assert forall|c: char| #[trigger] is_unsafe_char(c) == banned(c) by {}
    if file_safe_name(name) {
        assert forall|i: int| #![trigger name[i]] 0 <= i < name.len() implies !banned(name[i]) by {
            assert(!is_unsafe_char(name[i]));
        }
    }
    if forall|i: int| #![trigger name[i]] 0 <= i < name.len() ==> !banned(name[i]) {
        assert forall|i: int| 0 <= i < name.len() implies !is_unsafe_char(#[trigger] name[i]) by {
            assert(!banned(name[i]));
        }
    }
}

/// The name of a note's file is what was typed, character by character, with a
/// dash for every unsafe one, up to the dots and spaces at the end, and with the
/// extension behind it unless it was there.
pub proof fn a_note_file_name_is_what_was_typed(name: Seq<char>) -> (k: int)
    ensures
        ({
            let out = note_file_name(name);
            &&& 0 <= k <= name.len()
            &&& forall|i: int|
                k <= i < name.len() ==> #[trigger] name[i] == '.' || name[i] == ' '
            &&& k > 0 ==> name[k - 1] != '.' && name[k - 1] != ' '
            &&& out.len() == k || out.len() == k + 3
            &&& forall|i: int|
                0 <= i < k ==> #[trigger] out[i] == (if is_unsafe_char(name[i]) {
                    '-'
                } else {
                    name[i]
                })
            &&& out.len() >= 3 && out[out.len() - 3] == '.' && out[out.len() - 2] == 'm'
                && out[out.len() - 1] == 'd'
            &&& out.len() == k <==> k >= 3 && name[k - 3] == '.' && name[k - 2] == 'm' && name[k
                - 1] == 'd'
        }),
{
    let mapped = name.map_values(|c: char| dashed(c));
    let stem = without_trailing(mapped);
    let k = lemma_trailing_cut(mapped);
    let out = note_file_name(name);
    assert forall|i: int| k <= i < name.len() implies #[trigger] name[i] == '.' || name[i]
        == ' ' by {
        assert(mapped[i] == dashed(name[i]));
    }
    if k > 0 {
        assert(mapped[k - 1] == dashed(name[k - 1]));
    }
    assert forall|i: int| 0 <= i < k implies #[trigger] stem[i] == dashed(name[i]) by {
        assert(stem[i] == mapped[i]);
    }
    if md().is_suffix_of(stem) {
        let end = stem.subrange(stem.len() - 3, stem.len() as int);
        assert(end[0] == stem[k - 3] && end[1] == stem[k - 2] && end[2] == stem[k - 1]);
    } else if k >= 3 && name[k - 3] == '.' && name[k - 2] == 'm' && name[k - 1] == 'd' {
        assert(stem.subrange(stem.len() - 3, stem.len() as int) =~= md());
    } else {
        assert(out[k] == '.' && out[k + 1] == 'm' && out[k + 2] == 'd');
    }
    k
}

proof fn lemma_trailing_cut(name: Seq<char>) -> (k: int)
    ensures
        0 <= k <= name.len(),
        without_trailing(name) == name.take(k),
        forall|i: int| k <= i < name.len() ==> #[trigger] name[i] == '.' || name[i] == ' ',
        k > 0 ==> name[k - 1] != '.' && name[k - 1] != ' ',
    decreases name.len(),
{
    if name.len() > 0 && (name.last() == '.' || name.last() == ' ') {
        let front = name.drop_last();
        let k = lemma_trailing_cut(front);
        assert(front.take(k) =~= name.take(k));
        assert forall|i: int| k <= i < name.len() implies #[trigger] name[i] == '.' || name[i]
            == ' ' by {
            if i < front.len() {
                assert(front[i] == name[i]);
            }
        }
        k
    } else {
        assert(name.take(name.len() as int) =~= name);
        name.len() as int
    }
}

} // verus!
