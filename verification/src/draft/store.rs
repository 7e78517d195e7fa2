//! The directory drafts live in, and the trash next to them.

use crate::draft::error::{DraftError, ErrorView};
use crate::draft::handle::{
    audio_dir_of, free_of, is_plain_component_as, line_audio_path_as, plain_component, plain_line_id,
    wav_name, META_VERSION, Draft, DraftMeta, DraftView, MetaView,
};
use crate::draft::record::{lines_view, LineRecord, LineView};
use crate::draft::save::LoadedDraft;
use crate::ids::{fresh_id, is_fresh_id};
use crate::path::{below, opt_path, paths_view, reads_as, NotePath, PathView};
use crate::places::{data_dir_text, no_path, APP_DIR};
use crate::stamp::{is_plain, now, parse_rfc3339, rfc3339, rfc3339_text, to_rfc3339, Stamp};
use crate::text::{chars_of, copy_opt, opt_str, opt_text, owned, trimmed};
use crate::time::Duration;
use vstd::multiset::Multiset;
use vstd::prelude::*;
use vstd::seq_lib::to_multiset_insert;
use vstd::string::*;

verus! {

/// Where discarded drafts go, directly under the drafts root.
pub const TRASH_DIR: &'static str = ".trash";

/// How long a discarded draft is kept before a sweep removes it, in seconds:
/// thirty days.
pub const TRASH_RETENTION_SECS: u64 = 2592000;

/// How long a discarded draft is kept before a sweep removes it.
pub fn trash_retention() -> (r: Duration)
    ensures
        r.nanos == TRASH_RETENTION_SECS * 1_000_000_000,
{
    Duration::from_secs(TRASH_RETENTION_SECS)
}

/// Marker file inside a trashed draft, holding the moment it was discarded.
pub const DISCARDED_MARKER: &'static str = "discarded_at";

// ---------------------------------------------------------------------------
// Order of names
// ---------------------------------------------------------------------------

/// True when `a` comes no later than `b`, character by character.
pub open spec fn text_le(a: Seq<char>, b: Seq<char>) -> bool
    decreases a.len(),
{
    if a.len() == 0 {
        true
    } else if b.len() == 0 {
        false
    } else if a[0] != b[0] {
        a[0] < b[0]
    } else {
        text_le(a.skip(1), b.skip(1))
    }
}

/// Does `a` come no later than `b`, character by character?
fn no_later(a: &str, b: &str) -> (r: bool)
    ensures
        r == text_le(a@, b@),
{
    let x = chars_of(a);
    let y = chars_of(b);
    let mut i: usize = 0;
    proof {
        assert(a@.skip(0) =~= a@);
        assert(b@.skip(0) =~= b@);
    }
    while i < x.len() && i < y.len()
        invariant
            i <= x@.len(),
            i <= y@.len(),
            x@ == a@,
            y@ == b@,
            text_le(a@, b@) == text_le(a@.skip(i as int), b@.skip(i as int)),
        decreases x@.len() - i,
    {
        proof {
            assert(a@.skip(i as int)[0] == a@[i as int]);
            assert(b@.skip(i as int)[0] == b@[i as int]);
            assert(a@.skip(i as int).skip(1) =~= a@.skip(i + 1));
            assert(b@.skip(i as int).skip(1) =~= b@.skip(i + 1));
        }
        let c: char = x[i];
        let d: char = y[i];
        if c != d {
            return c < d;
        }
        i = i + 1;
    }
    i == x.len()
}

proof fn lemma_text_le_total(a: Seq<char>, b: Seq<char>)
    ensures
        text_le(a, b) || text_le(b, a),
    decreases a.len(),
{
    if a.len() > 0 && b.len() > 0 && a[0] == b[0] {
        lemma_text_le_total(a.skip(1), b.skip(1));
    } else if a.len() > 0 && b.len() > 0 {
        assert(text_le(a, b) == (a[0] < b[0]));
        assert(text_le(b, a) == (b[0] < a[0]));
    } else if a.len() > 0 {
        assert(text_le(b, a));
    }
}

proof fn lemma_text_le_trans(a: Seq<char>, b: Seq<char>, c: Seq<char>)
    requires
        text_le(a, b),
        text_le(b, c),
    ensures
        text_le(a, c),
    decreases a.len(),
{
    if a.len() > 0 && b.len() > 0 && c.len() > 0 && a[0] == b[0] && b[0] == c[0] {
        lemma_text_le_trans(a.skip(1), b.skip(1), c.skip(1));
    }
}

// ---------------------------------------------------------------------------
// Listing
// ---------------------------------------------------------------------------

/// One line of the list of outstanding drafts.
#[derive(Debug, PartialEq, Eq)]
pub struct DraftSummary {
    /// Draft id.
    pub id: String,
    /// Creation time.
    pub created_at: Stamp,
    /// Owning project, if any.
    pub project: Option<String>,
    /// Whether there are changes not yet saved.
    pub dirty: bool,
    /// The markdown file this draft is bound to, once saved.
    pub saved_path: Option<NotePath>,
    /// Readable, non-deleted lines.
    pub line_count: usize,
    /// The draft directory.
    pub dir: NotePath,
}

/// What a [`DraftSummary`] holds.
pub struct SummaryView {
    pub id: Seq<char>,
    pub created_at: Stamp,
    pub project: Option<Seq<char>>,
    pub dirty: bool,
    pub saved_path: Option<PathView>,
    pub line_count: nat,
    pub dir: PathView,
}

impl View for DraftSummary {
    type V = SummaryView;

    open spec fn view(&self) -> SummaryView {
        SummaryView {
            id: self.id@,
            created_at: self.created_at,
            project: opt_text(self.project),
            dirty: self.dirty,
            saved_path: opt_path(self.saved_path),
            line_count: self.line_count as nat,
            dir: self.dir@,
        }
    }
}

/// A directory that looks like a draft but could not be read, and why.
#[derive(Debug, PartialEq, Eq)]
pub struct RejectedDraft {
    /// The directory's name.
    pub name: String,
    /// The directory.
    pub dir: NotePath,
    /// The reason to show the user.
    pub error: DraftError,
}

/// What a [`RejectedDraft`] holds.
pub struct RejectedView {
    pub name: Seq<char>,
    pub dir: PathView,
    pub error: ErrorView,
}

impl View for RejectedDraft {
    type V = RejectedView;

    open spec fn view(&self) -> RejectedView {
        RejectedView { name: self.name@, dir: self.dir@, error: self.error@ }
    }
}

/// The result of scanning the drafts root: what loaded, and what did not.
#[derive(Debug, PartialEq, Eq)]
pub struct DraftScan {
    /// Loadable drafts, sorted by id, which is creation order.
    pub drafts: Vec<DraftSummary>,
    /// Directories that could not be read, sorted by name.
    pub rejected: Vec<RejectedDraft>,
}

impl Default for DraftScan {
    fn default() -> (r: DraftScan)
        ensures
            r.drafts@.len() == 0,
            r.rejected@.len() == 0,
    {
        DraftScan { drafts: Vec::new(), rejected: Vec::new() }
    }
}

/// True when the list is in order of its ids.
pub open spec fn by_id(drafts: Seq<DraftSummary>) -> bool {
    forall|i: int, j: int|
        0 <= i <= j < drafts.len() ==> text_le(#[trigger] drafts[i].id@, #[trigger] drafts[j].id@)
}

/// True when the list is in order of its names.
pub open spec fn by_name(rejected: Seq<RejectedDraft>) -> bool {
    forall|i: int, j: int|
        0 <= i <= j < rejected.len() ==> text_le(
            #[trigger] rejected[i].name@,
            #[trigger] rejected[j].name@,
        )
}

/// How many of the first `n` lines are not deleted.
pub open spec fn kept_count(lines: Seq<LineView>, n: int) -> nat
    decreases n,
{
    if n <= 0 {
        0
    } else {
        kept_count(lines, n - 1) + if lines[n - 1].deleted {
            0nat
        } else {
            1nat
        }
    }
}

/// Is a directory of that name one of the user's drafts? Dot-directories are
/// the store's own.
pub fn is_listed(name: &str) -> (r: bool)
    ensures
        r == is_listed_name(name@),
{
    if name.unicode_len() == 0 {
        return true;
    }
    name.get_char(0) != '.'
}

/// Is a directory of that name one of the user's drafts?
pub open spec fn is_listed_name(name: Seq<char>) -> bool {
    !(name.len() > 0 && name[0] == '.')
}

/// The list entry of a draft that was opened.
pub open spec fn summary_of(d: DraftView, lines: Seq<LineView>, dir: PathView) -> SummaryView {
    SummaryView {
        id: d.meta.id,
        created_at: d.meta.created_at,
        project: d.meta.project,
        dirty: d.meta.dirty,
        saved_path: d.meta.saved_path,
        line_count: kept_count(lines, lines.len() as int),
        dir,
    }
}

/// The list entry of a draft that was opened.
pub fn summarize(draft: &Draft, lines: &Vec<LineRecord>, dir: NotePath) -> (r: DraftSummary)
    ensures
        r@ == summary_of(draft@, lines_view(lines@), dir@),
{
    let mut count: usize = 0;
    let mut i: usize = 0;
    while i < lines.len()
        invariant
            i <= lines@.len(),
            count <= i,
            count == kept_count(lines_view(lines@), i as int),
        decreases lines@.len() - i,
    {
        proof {
            assert(lines_view(lines@)[i as int] == lines@[i as int]@);
        }
        if !lines[i].deleted {
            count = count + 1;
        }
        i = i + 1;
    }
    DraftSummary {
        id: draft.meta.id.clone(),
        created_at: draft.meta.created_at,
        project: copy_opt(&draft.meta.project),
        dirty: draft.meta.dirty,
        saved_path: crate::draft::handle::copy_opt_path(&draft.meta.saved_path),
        line_count: count,
        dir,
    }
}

impl DraftScan {
    /// Puts a draft in its place in the list: behind every draft whose id comes
    /// no later than its own.
    pub fn add(&mut self, summary: DraftSummary)
        requires
            by_id(old(self).drafts@),
            by_name(old(self).rejected@),
        ensures
            by_id(final(self).drafts@),
            exists|k: int|
                0 <= k <= old(self).drafts@.len() && final(self).drafts@ == #[trigger] old(
                    self,
                ).drafts@.insert(k, summary) && forall|j: int|
                    k <= j < old(self).drafts@.len() ==> !text_le(
                        #[trigger] old(self).drafts@[j].id@,
                        summary.id@,
                    ),
            final(self).rejected@ == old(self).rejected@,
    {
        let mut k: usize = self.drafts.len();
        while k > 0 && !no_later(&self.drafts[k - 1].id, &summary.id)
            invariant
                k <= self.drafts@.len(),
                self.drafts@ == old(self).drafts@,
                self.rejected@ == old(self).rejected@,
                forall|j: int|
                    k <= j < self.drafts@.len() ==> !text_le(
                        #[trigger] self.drafts@[j].id@,
                        summary.id@,
                    ),
            decreases k,
        {
            k = k - 1;
        }
        let ghost before = self.drafts@;
        self.drafts.insert(k, summary);
        proof {
            let after = self.drafts@;
            assert(after == before.insert(k as int, summary));
            assert forall|i: int, j: int| 0 <= i <= j < after.len() implies text_le(
                #[trigger] after[i].id@,
                #[trigger] after[j].id@,
            ) by {
                let src = |m: int|
                    if m < k {
                        m
                    } else {
                        m - 1
                    };
                if i != k && j != k {
                    assert(after[i] == before[src(i)]);
                    assert(after[j] == before[src(j)]);
                } else if i == k && j == k {
                    lemma_text_le_total(summary.id@, summary.id@);
                } else if i == k {
                    assert(after[j] == before[j - 1]);
                    lemma_text_le_total(before[j - 1].id@, summary.id@);
                } else {
                    assert(after[i] == before[i]);
                    assert(text_le(before[i].id@, before[k - 1].id@));
                    lemma_text_le_trans(before[i].id@, before[k - 1].id@, summary.id@);
                }
            }
        }
    }

    /// Puts an unreadable directory in its place in the list.
    pub fn reject(&mut self, rejected: RejectedDraft)
        requires
            by_id(old(self).drafts@),
            by_name(old(self).rejected@),
        ensures
            by_name(final(self).rejected@),
            exists|k: int|
                0 <= k <= old(self).rejected@.len() && final(self).rejected@ == #[trigger] old(
                    self,
                ).rejected@.insert(k, rejected) && forall|j: int|
                    k <= j < old(self).rejected@.len() ==> !text_le(
                        #[trigger] old(self).rejected@[j].name@,
                        rejected.name@,
                    ),
            final(self).drafts@ == old(self).drafts@,
    {
        let mut k: usize = self.rejected.len();
        while k > 0 && !no_later(&self.rejected[k - 1].name, &rejected.name)
            invariant
                k <= self.rejected@.len(),
                self.rejected@ == old(self).rejected@,
                self.drafts@ == old(self).drafts@,
                forall|j: int|
                    k <= j < self.rejected@.len() ==> !text_le(
                        #[trigger] self.rejected@[j].name@,
                        rejected.name@,
                    ),
            decreases k,
        {
            k = k - 1;
        }
        let ghost before = self.rejected@;
        self.rejected.insert(k, rejected);
        proof {
            let after = self.rejected@;
            assert(after == before.insert(k as int, rejected));
            assert forall|i: int, j: int| 0 <= i <= j < after.len() implies text_le(
                #[trigger] after[i].name@,
                #[trigger] after[j].name@,
            ) by {
                let src = |m: int|
                    if m < k {
                        m
                    } else {
                        m - 1
                    };
                if i != k && j != k {
                    assert(after[i] == before[src(i)]);
                    assert(after[j] == before[src(j)]);
                } else if i == k && j == k {
                    lemma_text_le_total(rejected.name@, rejected.name@);
                } else if i == k {
                    assert(after[j] == before[j - 1]);
                    lemma_text_le_total(before[j - 1].name@, rejected.name@);
                } else {
                    assert(after[i] == before[i]);
                    assert(text_le(before[i].name@, before[k - 1].name@));
                    lemma_text_le_trans(before[i].name@, before[k - 1].name@, rejected.name@);
                }
            }
        }
    }
}

/// A directory under the drafts root, and what came of opening it.
#[derive(Debug)]
pub struct FoundDraft {
    /// The directory's name.
    pub name: String,
    /// The directory.
    pub dir: NotePath,
    /// The draft in it, or why there is none.
    pub opened: Result<LoadedDraft, DraftError>,
}

/// What a [`FoundDraft`] holds.
pub struct FoundView {
    pub name: Seq<char>,
    pub dir: PathView,
    pub opened: Result<(DraftView, Seq<LineView>), ErrorView>,
}

impl View for FoundDraft {
    type V = FoundView;

    open spec fn view(&self) -> FoundView {
        FoundView {
            name: self.name@,
            dir: self.dir@,
            opened: match self.opened {
                Ok(loaded) => Ok((loaded.draft@, lines_view(loaded.lines@))),
                Err(error) => Err(error@),
            },
        }
    }
}

/// The contents of a list of found directories.
pub open spec fn found_view(found: Seq<FoundDraft>) -> Seq<FoundView> {
    found.map_values(|f: FoundDraft| f@)
}

/// The contents of a list of summaries.
pub open spec fn summaries_view(drafts: Seq<DraftSummary>) -> Seq<SummaryView> {
    drafts.map_values(|d: DraftSummary| d@)
}

/// The contents of a list of unreadable directories.
pub open spec fn rejected_view(rejected: Seq<RejectedDraft>) -> Seq<RejectedView> {
    rejected.map_values(|r: RejectedDraft| r@)
}

/// The drafts among what was found.
pub open spec fn readable_among(found: Seq<FoundView>) -> Multiset<SummaryView>
    decreases found.len(),
{
    if found.len() == 0 {
        Multiset::empty()
    } else {
        let rest = readable_among(found.skip(1));
        match found[0].opened {
            Ok((draft, lines)) => if is_listed_name(found[0].name) {
                rest.insert(summary_of(draft, lines, found[0].dir))
            } else {
                rest
            },
            Err(_) => rest,
        }
    }
}

/// The directories among what was found that look like drafts and are none.
pub open spec fn unreadable_among(found: Seq<FoundView>) -> Multiset<RejectedView>
    decreases found.len(),
{
    if found.len() == 0 {
        Multiset::empty()
    } else {
        let rest = unreadable_among(found.skip(1));
        match found[0].opened {
            Ok(_) => rest,
            Err(error) => if is_listed_name(found[0].name) {
                rest.insert(RejectedView { name: found[0].name, dir: found[0].dir, error })
            } else {
                rest
            },
        }
    }
}

proof fn lemma_summaries_insert(drafts: Seq<DraftSummary>, k: int, d: DraftSummary)
    requires
        0 <= k <= drafts.len(),
    ensures
        summaries_view(drafts.insert(k, d)).to_multiset() == summaries_view(
            drafts,
        ).to_multiset().insert(d@),
{
    assert(summaries_view(drafts.insert(k, d)) =~= summaries_view(drafts).insert(k, d@));
    to_multiset_insert(summaries_view(drafts), k, d@);
}

proof fn lemma_rejected_insert(rejected: Seq<RejectedDraft>, k: int, r: RejectedDraft)
    requires
        0 <= k <= rejected.len(),
    ensures
        rejected_view(rejected.insert(k, r)).to_multiset() == rejected_view(
            rejected,
        ).to_multiset().insert(r@),
{
    assert(rejected_view(rejected.insert(k, r)) =~= rejected_view(rejected).insert(k, r@));
    to_multiset_insert(rejected_view(rejected), k, r@);
}

// ---------------------------------------------------------------------------
// The store
// ---------------------------------------------------------------------------

/// A drafts root directory.
#[derive(Debug, PartialEq, Eq)]
pub struct DraftStore {
    /// The root directory.
    pub root: NotePath,
}

impl Clone for DraftStore {
    fn clone(&self) -> (r: Self)
        ensures
            r.root@ == self.root@,
    {
        DraftStore { root: self.root.clone() }
    }
}

/// The metadata of a new draft.
pub open spec fn new_meta(id: Seq<char>, project: Option<Seq<char>>, at: Stamp) -> MetaView {
    MetaView {
        version: META_VERSION,
        id,
        created_at: at,
        project,
        saved_path: None,
        dirty: false,
        last_save_hash: None,
    }
}

/// A draft that has just been created.
pub open spec fn new_draft(root: PathView, id: Seq<char>, project: Option<Seq<char>>, at: Stamp) -> DraftView {
    DraftView {
        dir: below(root, id),
        meta: new_meta(id, project, at),
        last: None,
        needs_newline: false,
        lines: 0,
    }
}

/// The outcome of naming a draft directory.
pub open spec fn is_draft_path(
    r: Result<NotePath, DraftError>,
    root: PathView,
    id: Seq<char>,
    name: PathView,
) -> bool {
    match r {
        Ok(path) => plain_component(id, name) && path@ == below(root, id),
        Err(e) => !plain_component(id, name) && e@ == (ErrorView::BadId { id, path: root }),
    }
}

/// Where a discarded draft goes.
pub open spec fn trash_path(root: PathView, id: Seq<char>) -> PathView {
    below(below(root, TRASH_DIR@), id)
}

impl DraftStore {
    /// Takes a root.
    pub fn new(root: NotePath) -> (r: DraftStore)
        ensures
            r.root@ == root@,
    {
        DraftStore { root }
    }

    /// The root directory.
    pub fn root(&self) -> (r: &NotePath)
        ensures
            r@ == self.root@,
    {
        &self.root
    }

    /// A new draft under a given id, created at a given moment. Its directory,
    /// its metadata and its empty log are to be created next, in that order.
    pub fn create_draft_as(&self, project: Option<&str>, id: String, at: Stamp) -> (r: Draft)
        ensures
            r@ == new_draft(self.root@, id@, opt_str(project), at),
    {
        let dir = self.root.child(&id);
        let project = match project {
            Some(p) => Some(owned(p)),
            None => None,
        };
        Draft {
            dir,
            meta: DraftMeta {
                version: META_VERSION,
                id,
                created_at: at,
                project,
                saved_path: None,
                dirty: false,
                last_save_hash: None,
            },
            last: None,
            needs_newline: false,
            lines: 0,
        }
    }

    /// A new draft, under a fresh id.
    pub fn create_draft(&self, project: Option<&str>) -> (r: Draft)
        ensures
            exists|id: Seq<char>, at: Stamp|
                is_fresh_id(id) && r@ == #[trigger] new_draft(
                    self.root@,
                    id,
                    opt_str(project),
                    at,
                ),
    {
        let id = fresh_id();
        self.create_draft_as(project, id, now())
    }

    /// The list of outstanding drafts, from what was found under the root: every
    /// directory that is one of the user's is either a draft or reported.
    pub fn list_drafts(&self, found: Vec<FoundDraft>) -> (r: DraftScan)
        ensures
            by_id(r.drafts@),
            by_name(r.rejected@),
            summaries_view(r.drafts@).to_multiset() == readable_among(found_view(found@)),
            rejected_view(r.rejected@).to_multiset() == unreadable_among(found_view(found@)),
    {
        let ghost all = found_view(found@);
        let mut scan = DraftScan::default();
        let mut left = found;
        proof {
            assert(all.skip(all.len() as int) =~= Seq::<FoundView>::empty());
            assert(summaries_view(scan.drafts@) =~= Seq::<SummaryView>::empty());
            assert(rejected_view(scan.rejected@) =~= Seq::<RejectedView>::empty());
            summaries_view(scan.drafts@).to_multiset_ensures();
            rejected_view(scan.rejected@).to_multiset_ensures();
            assert(summaries_view(scan.drafts@).to_multiset() =~= Multiset::empty());
            assert(rejected_view(scan.rejected@).to_multiset() =~= Multiset::empty());
        }
        while left.len() > 0
            invariant
                by_id(scan.drafts@),
                by_name(scan.rejected@),
                left@.len() <= all.len(),
                found_view(left@) == all.take(left@.len() as int),
                summaries_view(scan.drafts@).to_multiset() == readable_among(
                    all.skip(left@.len() as int),
                ),
                rejected_view(scan.rejected@).to_multiset() == unreadable_among(
                    all.skip(left@.len() as int),
                ),
            decreases left@.len(),
        {
            let ghost n = left@.len() as int;
            let ghost before = left@;
            if let Some(entry) = left.pop() {
                let ghost view = entry@;
                let ghost drafts = scan.drafts@;
                let ghost rejected = scan.rejected@;
                proof {
                    assert(found_view(before)[n - 1] == view);
                    assert(all[n - 1] == view);
                    assert(all.skip(n - 1)[0] == view);
                    assert(all.skip(n - 1).skip(1) =~= all.skip(n));
                    assert(found_view(left@) =~= all.take(n - 1));
                }
                if is_listed(&entry.name) {
                    match entry.opened {
                        Ok(loaded) => {
                            let summary = summarize(&loaded.draft, &loaded.lines, entry.dir);
                            let ghost added = summary;
                            scan.add(summary);
                            proof {
                                let k = choose|k: int|
                                    0 <= k <= drafts.len() && scan.drafts@
                                        == #[trigger] drafts.insert(k, added);
                                lemma_summaries_insert(drafts, k, added);
                            }
                        },
                        Err(error) => {
                            let refused = RejectedDraft {
                                name: entry.name,
                                dir: entry.dir,
                                error,
                            };
                            let ghost added = refused;
                            scan.reject(refused);
                            proof {
                                let k = choose|k: int|
                                    0 <= k <= rejected.len() && scan.rejected@
                                        == #[trigger] rejected.insert(k, added);
                                lemma_rejected_insert(rejected, k, added);
                            }
                        },
                    }
                }
            }
        }
        proof {
            assert(all.skip(0) =~= all);
        }
        scan
    }

    /// Where the trash lives.
    pub fn trash_dir(&self) -> (r: NotePath)
        ensures
            r@ == below(self.root@, TRASH_DIR@),
    {
        self.root.child(TRASH_DIR)
    }

    /// The directory an id names, for an id read as `name`.
    pub fn draft_path_as(&self, id: &str, name: &NotePath) -> (r: Result<NotePath, DraftError>)
        ensures
            is_draft_path(r, self.root@, id@, name@),
    {
        if !is_plain_component_as(id, name) {
            return Err(DraftError::BadId { id: owned(id), path: self.root.clone() });
        }
        Ok(self.root.child(id))
    }

    /// The directory an id names, with the id validated first.
    pub fn draft_path(&self, id: &str) -> (r: Result<NotePath, DraftError>)
        ensures
            exists|name: PathView| #[trigger]
                reads_as(id@, name) && is_draft_path(r, self.root@, id@, name),
            r is Ok ==> free_of(id@, '/'),
    {
        let name = NotePath::new(id);
        self.draft_path_as(id, &name)
    }

    /// The audio of one line of one draft, for ids read as `draft_name` and
    /// `line_name`.
    pub fn line_audio_path_as(
        &self,
        draft_id: &str,
        draft_name: &NotePath,
        line_id: &str,
        line_name: &NotePath,
    ) -> (r: Result<NotePath, DraftError>)
        ensures
            match r {
                Ok(path) => {
                    &&& plain_component(draft_id@, draft_name@)
                    &&& plain_line_id(line_id@, line_name@)
                    &&& path@ == below(
                        audio_dir_of(below(self.root@, draft_id@)),
                        wav_name(line_id@),
                    )
                },
                Err(e) => if !plain_component(draft_id@, draft_name@) {
                    e@ == (ErrorView::BadId { id: draft_id@, path: self.root@ })
                } else {
                    !plain_line_id(line_id@, line_name@) && e@ == (ErrorView::BadId {
                        id: line_id@,
                        path: audio_dir_of(below(self.root@, draft_id@)),
                    })
                },
            },
    {
        match self.draft_path_as(draft_id, draft_name) {
            Ok(dir) => line_audio_path_as(&dir, line_id, line_name),
            Err(e) => Err(e),
        }
    }

    /// The audio of one line of one draft, with both ids validated.
    pub fn line_audio_path(&self, draft_id: &str, line_id: &str) -> (r: Result<
        NotePath,
        DraftError,
    >)
        ensures
            exists|d: PathView, l: PathView| #[trigger]
                reads_as(draft_id@, d) && #[trigger] reads_as(line_id@, l) && match r {
                    Ok(path) => {
                        &&& plain_component(draft_id@, d)
                        &&& plain_line_id(line_id@, l)
                        &&& path@ == below(
                            audio_dir_of(below(self.root@, draft_id@)),
                            wav_name(line_id@),
                        )
                    },
                    Err(e) => if !plain_component(draft_id@, d) {
                        e@ == (ErrorView::BadId { id: draft_id@, path: self.root@ })
                    } else {
                        !plain_line_id(line_id@, l) && e@ == (ErrorView::BadId {
                            id: line_id@,
                            path: audio_dir_of(below(self.root@, draft_id@)),
                        })
                    },
                },
            r is Ok ==> free_of(draft_id@, '/') && free_of(line_id@, '/'),
    {
        let d = NotePath::new(draft_id);
        let l = NotePath::new(line_id);
        self.line_audio_path_as(draft_id, &d, line_id, &l)
    }

    /// Where a draft goes when it is discarded.
    pub fn discard_target(&self, id: &str) -> (r: NotePath)
        ensures
            r@ == trash_path(self.root@, id@),
    {
        self.trash_dir().child(id)
    }

    /// Decides a discard, for an id read as `name`: the draft's directory is
    /// moved to the returned place, and nothing else happens. `dir_exists` and
    /// `target_exists` are what was found on disk.
    pub fn discard_as(&self, id: &str, name: &NotePath, dir_exists: bool, target_exists: bool) -> (r:
        Result<NotePath, DraftError>)
        ensures
            match r {
                Ok(target) => plain_component(id@, name@) && dir_exists && !target_exists && target@
                    == trash_path(self.root@, id@),
                Err(e) => if !plain_component(id@, name@) {
                    e@ == (ErrorView::BadId { id: id@, path: self.root@ })
                } else if !dir_exists {
                    e@ == (ErrorView::Missing { path: below(self.root@, id@) })
                } else {
                    target_exists && e@ == (ErrorView::TrashCollision {
                        path: trash_path(self.root@, id@),
                    })
                },
            },
    {
        let dir = match self.draft_path_as(id, name) {
            Ok(dir) => dir,
            Err(e) => {
                return Err(e);
            },
        };
        if !dir_exists {
            return Err(DraftError::Missing { path: dir });
        }
        let target = self.discard_target(id);
        if target_exists {
            return Err(DraftError::TrashCollision { path: target });
        }
        Ok(target)
    }

    /// Decides a discard, with the id validated first.
    pub fn discard(&self, id: &str, dir_exists: bool, target_exists: bool) -> (r: Result<
        NotePath,
        DraftError,
    >)
        ensures
            exists|name: PathView| #[trigger]
                reads_as(id@, name) && match r {
                    Ok(target) => plain_component(id@, name) && dir_exists && !target_exists
                        && target@ == trash_path(self.root@, id@),
                    Err(e) => if !plain_component(id@, name) {
                        e@ == (ErrorView::BadId { id: id@, path: self.root@ })
                    } else if !dir_exists {
                        e@ == (ErrorView::Missing { path: below(self.root@, id@) })
                    } else {
                        target_exists && e@ == (ErrorView::TrashCollision {
                            path: trash_path(self.root@, id@),
                        })
                    },
                },
            r is Ok ==> free_of(id@, '/'),
    {
        let name = NotePath::new(id);
        self.discard_as(id, &name, dir_exists, target_exists)
    }
}

// ---------------------------------------------------------------------------
// The sweep
// ---------------------------------------------------------------------------

/// What one sweep of the trash did.
#[derive(Debug, Clone, Copy, PartialEq, Eq, Structural)]
pub struct TrashSweep {
    /// Entries permanently deleted because they were past the retention.
    pub removed: usize,
    /// Entries left alone: still young, or of an unknown age.
    pub kept: usize,
    /// Entries that were old enough but could not be deleted.
    pub failed: usize,
}

impl Default for TrashSweep {
    fn default() -> (r: TrashSweep)
        ensures
            r == (TrashSweep { removed: 0, kept: 0, failed: 0 }),
    {
        TrashSweep { removed: 0, kept: 0, failed: 0 }
    }
}

/// A moment in nanoseconds since the start of 1970.
pub open spec fn nanos_of(at: Stamp) -> int {
    at.secs * 1_000_000_000 + at.nanos
}

/// The nanoseconds from `at` to `now`; none when `at` is still to come.
pub open spec fn elapsed(at: Stamp, now: Stamp) -> int {
    if nanos_of(now) > nanos_of(at) {
        nanos_of(now) - nanos_of(at)
    } else {
        0
    }
}

/// How long ago an entry was discarded, in nanoseconds: from its marker where
/// that can be read, else from when it was last modified, else unknown.
pub open spec fn age_of(marker: Option<Seq<char>>, modified: Option<Stamp>, now: Stamp) -> Option<int> {
    let stamped = match marker {
        Some(text) => rfc3339(trimmed(text)),
        None => None,
    };
    match (stamped, modified) {
        (Some(at), _) => Some(elapsed(at, now)),
        (None, Some(at)) => Some(elapsed(at, now)),
        (None, None) => None,
    }
}

/// True when an entry of that age is removed: the age is known and has reached
/// the retention.
pub open spec fn is_swept(age: Option<int>, retention: Duration) -> bool {
    age matches Some(a) && a >= retention.nanos
}

fn elapsed_time(at: Stamp, now: Stamp) -> (r: Duration)
    ensures
        r.nanos == elapsed(at, now),
{
    let a: i128 = at.secs as i128 * 1_000_000_000 + at.nanos as i128;
    let b: i128 = now.secs as i128 * 1_000_000_000 + now.nanos as i128;
    if b > a {
        Duration { nanos: (b - a) as u128 }
    } else {
        Duration::zero()
    }
}

/// An optional age, in nanoseconds.
pub open spec fn opt_age(age: Option<Duration>) -> Option<int> {
    match age {
        Some(a) => Some(a.nanos as int),
        None => None,
    }
}

/// How long ago a trashed draft was discarded, given what its marker was read
/// as.
pub fn discard_age_from(stamped: Option<Stamp>, modified: Option<Stamp>, now: Stamp) -> (r: Option<
    Duration,
>)
    ensures
        opt_age(r) == (match (stamped, modified) {
            (Some(at), _) => Some(elapsed(at, now)),
            (None, Some(at)) => Some(elapsed(at, now)),
            (None, None) => None,
        }),
{
    match stamped {
        Some(at) => Some(elapsed_time(at, now)),
        None => match modified {
            Some(at) => Some(elapsed_time(at, now)),
            None => None,
        },
    }
}

/// How long ago a trashed draft was discarded, from the two things that might
/// know.
pub fn discard_age(marker: Option<&str>, modified: Option<Stamp>, now: Stamp) -> (r: Option<Duration>)
    ensures
        opt_age(r) == age_of(opt_str(marker), modified, now),
{
    let stamped = match marker {
        Some(text) => parse_rfc3339(text.trim()),
        None => None,
    };
    discard_age_from(stamped, modified, now)
}

/// Is an entry of that age to be removed, with that retention?
pub fn is_past_retention(age: Option<Duration>, retention: Duration) -> (r: bool)
    ensures
        r == is_swept(opt_age(age), retention),
{
    match age {
        Some(age) => age.nanos >= retention.nanos,
        None => false,
    }
}

/// One entry of the trash, with the two things that might know its age.
#[derive(Debug)]
pub struct TrashEntry {
    /// The entry's directory.
    pub dir: NotePath,
    /// The text of its marker, if that could be read.
    pub marker: Option<String>,
    /// When the directory was last modified, if that is known.
    pub modified: Option<Stamp>,
}

/// The entries among the first `n` that are past the retention, in order.
pub open spec fn swept_among(
    entries: Seq<TrashEntry>,
    now: Stamp,
    retention: Duration,
    n: int,
) -> Seq<PathView>
    decreases n,
{
    if n <= 0 {
        Seq::empty()
    } else {
        let before = swept_among(entries, now, retention, n - 1);
        let entry = entries[n - 1];
        if is_swept(age_of(opt_text(entry.marker), entry.modified, now), retention) {
            before.push(entry.dir@)
        } else {
            before
        }
    }
}

/// What a sweep of the trash comes to: what is to be deleted, and how many
/// entries are left alone.
#[derive(Debug, PartialEq, Eq)]
pub struct SweepPlan {
    /// The directories to delete, in order.
    pub remove: Vec<NotePath>,
    /// Entries that are still young, or of an unknown age.
    pub kept: usize,
}

impl DraftStore {
    /// Decides a sweep of the trash: an entry goes when it is known to be past
    /// the retention, and stays otherwise.
    pub fn sweep_trash(&self, entries: &Vec<TrashEntry>, now: Stamp, retention: Duration) -> (r:
        SweepPlan)
        ensures
            paths_view(r.remove@) == swept_among(
                entries@,
                now,
                retention,
                entries@.len() as int,
            ),
            r.kept + r.remove@.len() == entries@.len(),
    {
        let mut remove: Vec<NotePath> = Vec::new();
        let mut kept: usize = 0;
        let mut i: usize = 0;
        proof {
            assert(paths_view(remove@) =~= Seq::<PathView>::empty());
        }
        while i < entries.len()
            invariant
                i <= entries@.len(),
                kept + remove@.len() == i,
                paths_view(remove@) == swept_among(entries@, now, retention, i as int),
            decreases entries@.len() - i,
        {
            let entry = &entries[i];
            let marker = match &entry.marker {
                Some(text) => Some(text.as_str()),
                None => None,
            };
            let age = discard_age(marker, entry.modified, now);
            if is_past_retention(age, retention) {
                let ghost before = remove@;
                let dir = entry.dir.clone();
                let ghost view = dir@;
                remove.push(dir);
                proof {
                    assert(paths_view(remove@) =~= paths_view(before).push(view));
                }
            } else {
                kept = kept + 1;
            }
            i = i + 1;
        }
        SweepPlan { remove, kept }
    }
}

impl SweepPlan {
    /// What the sweep did, when that many of its deletions succeeded.
    pub fn done(&self, removed: usize) -> (r: TrashSweep)
        requires
            removed <= self.remove@.len(),
        ensures
            r == (TrashSweep {
                removed,
                kept: self.kept,
                failed: (self.remove@.len() - removed) as usize,
            }),
    {
        TrashSweep { removed, kept: self.kept, failed: self.remove.len() - removed }
    }
}

/// The text of the marker for a discard at a given moment. A sweep that reads
/// it measures from that moment, whatever the directory's modified time is.
pub fn discard_marker_at(at: Stamp) -> (r: Option<String>)
    ensures
        r is Some <==> rfc3339_text(at) is Some,
        r is Some ==> r.unwrap()@ == rfc3339_text(at).unwrap(),
        is_plain(at) ==> r is Some && forall|modified: Option<Stamp>, now: Stamp|
            #[trigger] age_of(Some(r.unwrap()@), modified, now) == Some(elapsed(at, now)),
{
    to_rfc3339(at)
}

/// The text of the marker for a discard now.
pub fn discard_marker() -> (r: Option<String>)
    ensures
        exists|at: Stamp|
            match r {
                Some(text) => #[trigger] rfc3339_text(at) == Some(text@),
                None => rfc3339_text(at) is None,
            },
{
    let at = now();
    discard_marker_at(at)
}

// ---------------------------------------------------------------------------
// The default place
// ---------------------------------------------------------------------------

/// The drafts directory under a data directory, or a relative folder when there
/// is none.
pub open spec fn drafts_dir_in(data: Option<PathView>) -> PathView {
    match data {
        Some(dir) => below(below(dir, APP_DIR@), "drafts"@),
        None => below(no_path(), "drafts"@),
    }
}

/// The drafts directory under a data directory, or a relative folder when there
/// is none.
pub fn drafts_dir_under(data: Option<NotePath>) -> (r: NotePath)
    ensures
        r@ == drafts_dir_in(opt_path(data)),
{
    match data {
        Some(dir) => dir.child(APP_DIR).child("drafts"),
        None => NotePath::empty().child("drafts"),
    }
}

/// The drafts directory on this machine.
pub fn default_drafts_dir() -> (r: NotePath)
    ensures
        exists|data: Option<PathView>| r@ == #[trigger] drafts_dir_in(data),
{
    let data = match data_dir_text() {
        Some(text) => Some(NotePath::new(&text)),
        None => None,
    };
    drafts_dir_under(data)
}

// ---------------------------------------------------------------------------
// Laws
// ---------------------------------------------------------------------------

/// An entry of unknown age is never swept.
pub proof fn an_unknown_age_is_never_swept(
    marker: Option<Seq<char>>,
    modified: Option<Stamp>,
    now: Stamp,
    retention: Duration,
)
    requires
        marker matches Some(text) ==> rfc3339(trimmed(text)) is None,
        modified is None,
    ensures
        !is_swept(age_of(marker, modified, now), retention),
{
}

/// A stamp in the future is an age of zero, so it is only swept when nothing is
/// kept at all.
pub proof fn a_future_stamp_is_not_old(at: Stamp, now: Stamp, retention: Duration)
    requires
        nanos_of(at) >= nanos_of(now),
        retention.nanos > 0,
    ensures
        !is_swept(Some(elapsed(at, now)), retention),
{
}

/// An id that names a draft names a directory directly under the root: one
/// component more than the root, and nothing that leads out of it.
pub proof fn a_draft_path_stays_under_the_root(root: PathView, id: Seq<char>)
    ensures
        below(root, id).parts.len() == root.parts.len() + 1,
        root.parts.is_prefix_of(below(root, id).parts),
        below(root, id).parts.last() == crate::path::PartView::Name(id),
{
    let p = below(root, id);
    assert(p.parts.subrange(0, root.parts.len() as int) =~= root.parts);
}

} // verus!
