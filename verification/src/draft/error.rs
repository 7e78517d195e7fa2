//! Why a draft could not be created, appended to, saved or loaded.

use crate::path::{NotePath, PathView};
use crate::text::{a_part_occurs_in_the_whole, glue, occurs_in};
use vstd::prelude::*;

verus! {

/// Why a draft operation stopped.
///
/// Every variant names the path it is about: a draft is the user's unsaved
/// work, and a failure without a location is unactionable.
#[derive(Debug, PartialEq, Eq)]
pub enum DraftError {
    /// A filesystem operation failed. `action` completes the sentence
    /// "could not ...".
    Io { action: String, path: NotePath, reason: String },
    /// The draft's metadata is not valid.
    BadMeta { path: NotePath, reason: String },
    /// A record could not be encoded.
    Encode { path: NotePath, reason: String },
    /// The caller named something that is not a draft directly under the root.
    BadId { id: String, path: NotePath },
    /// The id is well-formed but there is no such draft directory.
    Missing { path: NotePath },
    /// The draft has no line of that id.
    NoSuchLine { id: String, path: NotePath },
    /// The trash already holds an entry of that name.
    TrashCollision { path: NotePath },
    /// The file on disk is not the file that was last written there.
    SaveConflict { path: NotePath },
    /// The draft has never been bound to a file.
    NeverSaved { path: NotePath },
    /// A rename would land on a file that already exists.
    NameTaken { path: NotePath },
    /// The binding is relative and there is no folder to resolve it against.
    UnresolvedPath { path: NotePath, relative: NotePath },
    /// The per-line audio could not be encoded.
    Wav { path: NotePath, reason: String },
    /// A line was asked to be moved into the draft it came out of.
    SameDraft { path: NotePath },
}

/// What a [`DraftError`] holds.
pub enum ErrorView {
    Io { action: Seq<char>, path: PathView, reason: Seq<char> },
    BadMeta { path: PathView, reason: Seq<char> },
    Encode { path: PathView, reason: Seq<char> },
    BadId { id: Seq<char>, path: PathView },
    Missing { path: PathView },
    NoSuchLine { id: Seq<char>, path: PathView },
    TrashCollision { path: PathView },
    SaveConflict { path: PathView },
    NeverSaved { path: PathView },
    NameTaken { path: PathView },
    UnresolvedPath { path: PathView, relative: PathView },
    Wav { path: PathView, reason: Seq<char> },
    SameDraft { path: PathView },
}

impl View for DraftError {
    type V = ErrorView;

    open spec fn view(&self) -> ErrorView {
        match self {
            DraftError::Io { action, path, reason } => ErrorView::Io {
                action: action@,
                path: path@,
                reason: reason@,
            },
            DraftError::BadMeta { path, reason } => ErrorView::BadMeta {
                path: path@,
                reason: reason@,
            },
            DraftError::Encode { path, reason } => ErrorView::Encode {
                path: path@,
                reason: reason@,
            },
            DraftError::BadId { id, path } => ErrorView::BadId { id: id@, path: path@ },
            DraftError::Missing { path } => ErrorView::Missing { path: path@ },
            DraftError::NoSuchLine { id, path } => ErrorView::NoSuchLine { id: id@, path: path@ },
            DraftError::TrashCollision { path } => ErrorView::TrashCollision { path: path@ },
            DraftError::SaveConflict { path } => ErrorView::SaveConflict { path: path@ },
            DraftError::NeverSaved { path } => ErrorView::NeverSaved { path: path@ },
            DraftError::NameTaken { path } => ErrorView::NameTaken { path: path@ },
            DraftError::UnresolvedPath { path, relative } => ErrorView::UnresolvedPath {
                path: path@,
                relative: relative@,
            },
            DraftError::Wav { path, reason } => ErrorView::Wav { path: path@, reason: reason@ },
            DraftError::SameDraft { path } => ErrorView::SameDraft { path: path@ },
        }
    }
}

/// The path an error is about.
pub open spec fn path_of_error(e: ErrorView) -> PathView {
    match e {
        ErrorView::Io { path, .. } => path,
        ErrorView::BadMeta { path, .. } => path,
        ErrorView::Encode { path, .. } => path,
        ErrorView::BadId { path, .. } => path,
        ErrorView::Missing { path } => path,
        ErrorView::NoSuchLine { path, .. } => path,
        ErrorView::TrashCollision { path } => path,
        ErrorView::SaveConflict { path } => path,
        ErrorView::NeverSaved { path } => path,
        ErrorView::NameTaken { path } => path,
        ErrorView::UnresolvedPath { path, .. } => path,
        ErrorView::Wav { path, .. } => path,
        ErrorView::SameDraft { path } => path,
    }
}

/// The text of a string in `std`'s debug form: quoted, with its quotes and
/// control characters escaped.
pub uninterp spec fn debug_text(s: Seq<char>) -> Seq<char>;

/// `std`'s `{:?}` of a text, which quotes it so that an empty or blank one is
/// visible.
#[verifier::external_body]
pub(crate) fn quoted(s: &str) -> (r: String)
    ensures
        r@ == debug_text(s@),
{
    format!("{s:?}")
}

/// The sentence that tells the user what happened.
pub open spec fn error_text(e: ErrorView) -> Seq<char> {
    let at = path_of_error(e).text;
    match e {
        ErrorView::Io { action, reason, .. } => "could not "@ + action + " "@ + at + ": "@
            + reason,
        ErrorView::BadMeta { reason, .. } => "the draft metadata at "@ + at
            + " is not readable as JSON ("@ + reason
            + ") — the draft directory is damaged; its lines.jsonl and audio are untouched"@,
        ErrorView::Encode { reason, .. } => "could not encode a draft record for "@ + at + ": "@
            + reason,
        ErrorView::BadId { id, .. } => debug_text(id) + " does not name a draft in "@ + at,
        ErrorView::Missing { .. } => "there is no draft at "@ + at,
        ErrorView::NoSuchLine { id, .. } => "there is no line "@ + debug_text(id)
            + " in the draft at "@ + at,
        ErrorView::TrashCollision { .. } => "a discarded draft is already at "@ + at
            + " — nothing was moved"@,
        ErrorView::SaveConflict { .. } => at
            + " has been edited since Sotone last wrote it — nothing was saved"@,
        ErrorView::NeverSaved { .. } => "this draft has not been saved to a file yet ("@ + at
            + ")"@,
        ErrorView::NameTaken { .. } => at + " already exists — nothing was renamed"@,
        ErrorView::UnresolvedPath { relative, .. } => "the note for the draft at "@ + at
            + " is stored as "@ + relative.text
            + " inside its project's notes folder, and that project is no longer in the configuration — nothing was saved"@,
        ErrorView::Wav { reason, .. } => "could not encode the audio for a draft line at "@ + at
            + ": "@ + reason,
        ErrorView::SameDraft { .. } => "that line is already in the draft at "@ + at
            + " — nothing was moved"@,
    }
}

impl DraftError {
    /// The path the failure is about.
    pub fn path(&self) -> (r: &NotePath)
        ensures
            r@ == path_of_error(self@),
    {
        match self {
            DraftError::Io { path, .. } => path,
            DraftError::BadMeta { path, .. } => path,
            DraftError::Encode { path, .. } => path,
            DraftError::BadId { path, .. } => path,
            DraftError::Missing { path } => path,
            DraftError::NoSuchLine { path, .. } => path,
            DraftError::TrashCollision { path } => path,
            DraftError::SaveConflict { path } => path,
            DraftError::NeverSaved { path } => path,
            DraftError::NameTaken { path } => path,
            DraftError::UnresolvedPath { path, .. } => path,
            DraftError::Wav { path, .. } => path,
            DraftError::SameDraft { path } => path,
        }
    }

    /// The sentence that tells the user what happened.
    pub fn message(&self) -> (r: String)
        ensures
            r@ == error_text(self@),
    {
        let at = self.path().text();
        let r = match self {
            DraftError::Io { action, reason, .. } => {
                let head = glue("could not ", action, " ");
                let head = glue(&head, &at, ": ");
                glue(&head, reason, "")
            },
            DraftError::BadMeta { reason, .. } => {
                let head = glue("the draft metadata at ", &at, " is not readable as JSON (");
                glue(
                    &head,
                    reason,
                    ") — the draft directory is damaged; its lines.jsonl and audio are untouched",
                )
            },
            DraftError::Encode { reason, .. } => {
                let head = glue("could not encode a draft record for ", &at, ": ");
                glue(&head, reason, "")
            },
            DraftError::BadId { id, .. } => {
                let id = quoted(id);
                glue(&id, " does not name a draft in ", &at)
            },
            DraftError::Missing { .. } => glue("there is no draft at ", &at, ""),
            DraftError::NoSuchLine { id, .. } => {
                let id = quoted(id);
                let head = glue("there is no line ", &id, " in the draft at ");
                glue(&head, &at, "")
            },
            DraftError::TrashCollision { .. } => glue(
                "a discarded draft is already at ",
                &at,
                " — nothing was moved",
            ),
            DraftError::SaveConflict { .. } => glue(
                &at,
                " has been edited since Sotone last wrote it — nothing was saved",
                "",
            ),
            DraftError::NeverSaved { .. } => glue(
                "this draft has not been saved to a file yet (",
                &at,
                ")",
            ),
            DraftError::NameTaken { .. } => glue(
                &at,
                " already exists — nothing was renamed",
                "",
            ),
            DraftError::UnresolvedPath { relative, .. } => {
                let head = glue("the note for the draft at ", &at, " is stored as ");
                let relative = relative.text();
                glue(
                    &head,
                    &relative,
                    " inside its project's notes folder, and that project is no longer in the configuration — nothing was saved",
                )
            },
            DraftError::Wav { reason, .. } => {
                let head = glue("could not encode the audio for a draft line at ", &at, ": ");
                glue(&head, reason, "")
            },
            DraftError::SameDraft { .. } => glue(
                "that line is already in the draft at ",
                &at,
                " — nothing was moved",
            ),
        };
        proof {
            reveal_strlit("");
            assert(r@ =~= error_text(self@));
        }
        r
    }
}

/// The sentence of an error names the path it is about, and says why where a
/// reason is known: what was being done, which id, and what went wrong.
pub proof fn an_error_names_its_path_and_its_reason(e: ErrorView)
    ensures
        occurs_in(path_of_error(e).text, error_text(e)),
        e matches ErrorView::Io { action, path, reason } ==> occurs_in(action, error_text(e))
            && occurs_in(reason, error_text(e)) && path_of_error(e) == path,
        e matches ErrorView::BadMeta { path, reason } ==> occurs_in(reason, error_text(e))
            && path_of_error(e) == path,
        e matches ErrorView::Encode { path, reason } ==> occurs_in(reason, error_text(e))
            && path_of_error(e) == path,
        e matches ErrorView::Wav { path, reason } ==> occurs_in(reason, error_text(e))
            && path_of_error(e) == path,
        e matches ErrorView::BadId { id, path } ==> occurs_in(debug_text(id), error_text(e))
            && path_of_error(e) == path,
        e matches ErrorView::NoSuchLine { id, path } ==> occurs_in(debug_text(id), error_text(e))
            && path_of_error(e) == path,
        e matches ErrorView::UnresolvedPath { path, relative } ==> occurs_in(
            relative.text,
            error_text(e),
        ) && path_of_error(e) == path,
        e matches ErrorView::Missing { path } ==> path_of_error(e) == path,
        e matches ErrorView::TrashCollision { path } ==> path_of_error(e) == path,
        e matches ErrorView::SaveConflict { path } ==> path_of_error(e) == path,
        e matches ErrorView::NeverSaved { path } ==> path_of_error(e) == path,
        e matches ErrorView::NameTaken { path } ==> path_of_error(e) == path,
        e matches ErrorView::SameDraft { path } ==> path_of_error(e) == path,
{
    let at = path_of_error(e).text;
    let text = error_text(e);
    match e {
        ErrorView::Io { action, reason, .. } => {
            a_part_occurs_in_the_whole("could not "@, action, " "@ + at + ": "@ + reason);
            assert(text =~= "could not "@ + action + (" "@ + at + ": "@ + reason));
            a_part_occurs_in_the_whole("could not "@ + action + " "@, at, ": "@ + reason);
            assert(text =~= "could not "@ + action + " "@ + at + (": "@ + reason));
            a_part_occurs_in_the_whole(
                "could not "@ + action + " "@ + at + ": "@,
                reason,
                Seq::empty(),
            );
        },
        ErrorView::BadMeta { reason, .. } => {
            let (x, y, z) = (
                "the draft metadata at "@,
                " is not readable as JSON ("@,
                ") — the draft directory is damaged; its lines.jsonl and audio are untouched"@,
            );
            a_part_occurs_in_the_whole(x, at, y + reason + z);
            assert(text =~= x + at + (y + reason + z));
            a_part_occurs_in_the_whole(x + at + y, reason, z);
        },
        ErrorView::Encode { reason, .. } => {
            let (x, y) = ("could not encode a draft record for "@, ": "@);
            a_part_occurs_in_the_whole(x, at, y + reason);
            assert(text =~= x + at + (y + reason));
            a_part_occurs_in_the_whole(x + at + y, reason, Seq::empty());
        },
        ErrorView::BadId { id, .. } => {
            let x = " does not name a draft in "@;
            a_part_occurs_in_the_whole(debug_text(id) + x, at, Seq::empty());
            a_part_occurs_in_the_whole(Seq::empty(), debug_text(id), x + at);
            assert(text =~= debug_text(id) + (x + at));
        },
        ErrorView::Missing { .. } => {
            a_part_occurs_in_the_whole("there is no draft at "@, at, Seq::empty());
        },
        ErrorView::NoSuchLine { id, .. } => {
            let (x, y) = ("there is no line "@, " in the draft at "@);
            a_part_occurs_in_the_whole(x, debug_text(id), y + at);
            assert(text =~= x + debug_text(id) + (y + at));
            a_part_occurs_in_the_whole(x + debug_text(id) + y, at, Seq::empty());
        },
        ErrorView::TrashCollision { .. } => {
            a_part_occurs_in_the_whole(
                "a discarded draft is already at "@,
                at,
                " — nothing was moved"@,
            );
        },
        ErrorView::SaveConflict { .. } => {
            a_part_occurs_in_the_whole(
                Seq::empty(),
                at,
                " has been edited since Sotone last wrote it — nothing was saved"@,
            );
        },
        ErrorView::NeverSaved { .. } => {
            a_part_occurs_in_the_whole(
                "this draft has not been saved to a file yet ("@,
                at,
                ")"@,
            );
        },
        ErrorView::NameTaken { .. } => {
            a_part_occurs_in_the_whole(
                Seq::empty(),
                at,
                " already exists — nothing was renamed"@,
            );
        },
        ErrorView::UnresolvedPath { relative, .. } => {
            let (x, y, z) = (
                "the note for the draft at "@,
                " is stored as "@,
                " inside its project's notes folder, and that project is no longer in the configuration — nothing was saved"@,
            );
            a_part_occurs_in_the_whole(x, at, y + relative.text + z);
            assert(text =~= x + at + (y + relative.text + z));
            a_part_occurs_in_the_whole(x + at + y, relative.text, z);
        },
        ErrorView::Wav { reason, .. } => {
            let (x, y) = ("could not encode the audio for a draft line at "@, ": "@);
            a_part_occurs_in_the_whole(x, at, y + reason);
            assert(text =~= x + at + (y + reason));
            a_part_occurs_in_the_whole(x + at + y, reason, Seq::empty());
        },
        ErrorView::SameDraft { .. } => {
            a_part_occurs_in_the_whole(
                "that line is already in the draft at "@,
                at,
                " — nothing was moved"@,
            );
        },
    }
}

} // verus!
