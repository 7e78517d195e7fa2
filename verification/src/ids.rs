//! Ids that name drafts and lines.

use crate::path::{is_just, plain_text_is_a_single_name, reads_as, PathView};
use vstd::prelude::*;

verus! {

/// How many characters an id has.
pub const ID_LEN: usize = 26;

/// The characters an id is written with: digits and capitals, without the four
/// letters that read like something else.
pub open spec fn is_id_char(c: char) -> bool {
    ||| '0' <= c <= '9'
    ||| 'A' <= c <= 'Z' && c != 'I' && c != 'L' && c != 'O' && c != 'U'
}

/// True for the text of a fresh id.
pub open spec fn is_fresh_id(id: Seq<char>) -> bool {
    id.len() == ID_LEN && forall|i: int| 0 <= i < id.len() ==> is_id_char(#[trigger] id[i])
}

/// `ulid::Ulid::new().to_string()`: 26 characters of Crockford's base 32, made
/// of the time and of random bits. Which ones is left open.
#[verifier::external_body]
pub(crate) fn fresh_id() -> (r: String)
    ensures
        is_fresh_id(r@),
{
    ulid::Ulid::new().to_string()
}

/// A fresh id is read as a single file name on every platform.
pub proof fn a_fresh_id_is_a_file_name(id: Seq<char>, p: PathView)
    requires
        is_fresh_id(id),
        reads_as(id, p),
    ensures
        is_just(p, id),
        forall|i: int| 0 <= i < id.len() ==> #[trigger] id[i] != '.',
{
    assert(is_id_char(id[0]));
    assert forall|i: int| 0 <= i < id.len() implies #[trigger] id[i] != '/' && id[i] != '\\'
        && id[i] != ':' && id[i] != '.' by {
        assert(is_id_char(id[i]));
    }
    plain_text_is_a_single_name(id, p);
}

} // verus!
