//! Projects: a notes folder and the overrides that apply while it is active.

use crate::config::document::list_view;
use crate::config::words::DEFAULT_FILENAME_TEMPLATE;
use crate::path::{below, paths_view, parent_of, reads_as, same_place, NotePath, PathView};
use crate::template::{file_safe_name, is_file_safe};
use crate::text::{copy_opt, opt_text, owned, same_text};
use vstd::prelude::*;

verus! {

/// One project.
#[derive(Debug, PartialEq, Eq)]
pub struct Project {
    /// Unique key, and the `{project}` filename token.
    pub name: String,
    /// The folder rendered notes are saved into, as it is written in the file.
    pub notes_dir: String,
    /// Filename template, tokens unrendered.
    pub filename_template: String,
    /// Header put in front of a rendered note, tokens unrendered.
    pub header_template: Option<String>,
    /// Model override.
    pub model: Option<String>,
    /// Language override.
    pub language: Option<String>,
    /// Words the model keeps getting wrong for this project.
    pub vocabulary: Vec<String>,
    /// Whether a resumed session gets a divider in the markdown.
    pub session_dividers: bool,
}

/// What a [`Project`] holds.
pub struct ProjectView {
    pub name: Seq<char>,
    pub notes_dir: Seq<char>,
    pub filename_template: Seq<char>,
    pub header_template: Option<Seq<char>>,
    pub model: Option<Seq<char>>,
    pub language: Option<Seq<char>>,
    pub vocabulary: Seq<Seq<char>>,
    pub session_dividers: bool,
}

impl View for Project {
    type V = ProjectView;

    open spec fn view(&self) -> ProjectView {
        ProjectView {
            name: self.name@,
            notes_dir: self.notes_dir@,
            filename_template: self.filename_template@,
            header_template: opt_text(self.header_template),
            model: opt_text(self.model),
            language: opt_text(self.language),
            vocabulary: list_view(self.vocabulary@),
            session_dividers: self.session_dividers,
        }
    }
}

/// A copy of a list of texts.
pub fn copy_list(values: &Vec<String>) -> (r: Vec<String>)
    ensures
        list_view(r@) == list_view(values@),
{
    let mut out: Vec<String> = Vec::new();
    let mut i: usize = 0;
    while i < values.len()
        invariant
            i <= values@.len(),
            out@.len() == i,
            forall|k: int| 0 <= k < i ==> (#[trigger] out@[k])@ == values@[k]@,
        decreases values@.len() - i,
    {
        out.push(values[i].clone());
        i = i + 1;
    }
    proof {
        assert(list_view(out@) =~= list_view(values@));
    }
    out
}

impl Clone for Project {
    fn clone(&self) -> (r: Self)
        ensures
            r@ == self@,
    {
        Project {
            name: self.name.clone(),
            notes_dir: self.notes_dir.clone(),
            filename_template: self.filename_template.clone(),
            header_template: copy_opt(&self.header_template),
            model: copy_opt(&self.model),
            language: copy_opt(&self.language),
            vocabulary: copy_list(&self.vocabulary),
            session_dividers: self.session_dividers,
        }
    }
}

/// A project with everything but its name and folder left as it comes.
pub open spec fn plain_project(name: Seq<char>, notes_dir: Seq<char>) -> ProjectView {
    ProjectView {
        name,
        notes_dir,
        filename_template: DEFAULT_FILENAME_TEMPLATE@,
        header_template: None,
        model: None,
        language: None,
        vocabulary: Seq::empty(),
        session_dividers: true,
    }
}

impl Project {
    /// A project with the given name and notes folder, everything else default.
    pub fn new(name: &str, notes_dir: &str) -> (r: Project)
        ensures
            r@ == plain_project(name@, notes_dir@),
    {
        let r = Project {
            name: owned(name),
            notes_dir: owned(notes_dir),
            filename_template: owned(DEFAULT_FILENAME_TEMPLATE),
            header_template: None,
            model: None,
            language: None,
            vocabulary: Vec::new(),
            session_dividers: true,
        };
        proof {
            assert(r@.vocabulary =~= Seq::<Seq<char>>::empty());
        }
        r
    }
}

// ---------------------------------------------------------------------------
// Finding a project
// ---------------------------------------------------------------------------

/// What a list of projects holds.
pub open spec fn projects_view(projects: Seq<Project>) -> Seq<ProjectView> {
    projects.map_values(|p: Project| p@)
}

/// A project is called that.
pub open spec fn has_named(ps: Seq<ProjectView>, name: Seq<char>) -> bool {
    exists|i: int| 0 <= i < ps.len() && (#[trigger] ps[i]).name == name
}

/// The project there is the first that is called that.
pub open spec fn is_first_named(ps: Seq<ProjectView>, name: Seq<char>, i: int) -> bool {
    &&& 0 <= i < ps.len()
    &&& ps[i].name == name
    &&& forall|j: int| 0 <= j < i ==> (#[trigger] ps[j]).name != name
}

/// The place of the first project that is called that.
pub open spec fn place_of(ps: Seq<ProjectView>, name: Seq<char>) -> int {
    choose|i: int| is_first_named(ps, name, i)
}

/// No two projects share a name.
pub open spec fn names_differ(ps: Seq<ProjectView>) -> bool {
    forall|i: int, j: int| 0 <= i < j < ps.len() ==> (#[trigger] ps[i]).name != (#[trigger] ps[j]).name
}

/// The place of the first project that is called that, if any is.
pub fn find_project(projects: &Vec<Project>, name: &str) -> (r: Option<usize>)
    ensures
        match r {
            Some(i) => is_first_named(projects_view(projects@), name@, i as int) && i == place_of(
                projects_view(projects@),
                name@,
            ) && has_named(projects_view(projects@), name@),
            None => !has_named(projects_view(projects@), name@),
        },
{
    let ghost ps = projects_view(projects@);
    let mut i: usize = 0;
    while i < projects.len()
        invariant
            i <= projects@.len(),
            ps == projects_view(projects@),
            forall|j: int| 0 <= j < i ==> (#[trigger] ps[j]).name != name@,
        decreases projects@.len() - i,
    {
        proof {
            assert(ps[i as int] == projects@[i as int]@);
        }
        if same_text(&projects[i].name, name) {
            proof {
                assert(is_first_named(ps, name@, i as int));
                let k = place_of(ps, name@);
                assert(is_first_named(ps, name@, k));
                assert(k == i) by {
                    if k < i {
                        assert(ps[k].name != name@);
                    } else if i < k {
                        assert(ps[i as int].name != name@);
                    }
                }
            }
            return Some(i);
        }
        i = i + 1;
    }
    None
}

// ---------------------------------------------------------------------------
// Renaming
// ---------------------------------------------------------------------------

/// Why a project could not be renamed.
#[derive(Debug, Clone, Copy, PartialEq, Eq, Structural)]
pub enum ProjectRenameError {
    /// The name was empty or all white space.
    Blank,
    /// Nothing in the configuration is called that any more.
    NoSuchProject,
    /// Another project already has the new name. A rename never merges two
    /// projects.
    NameTaken,
}

impl ProjectRenameError {
    /// The sentence that tells the user what happened.
    pub fn message(self) -> (r: &'static str)
        ensures
            r@ == (match self {
                ProjectRenameError::Blank => "a project needs a name"@,
                ProjectRenameError::NoSuchProject => "there is no project by that name any more"@,
                ProjectRenameError::NameTaken => "there is already a project with that name"@,
            }),
    {
        match self {
            ProjectRenameError::Blank => "a project needs a name",
            ProjectRenameError::NoSuchProject => "there is no project by that name any more",
            ProjectRenameError::NameTaken => "there is already a project with that name",
        }
    }
}

/// Why a rename of a project left its folder alone.
#[derive(Debug, Clone, Copy, PartialEq, Eq, Structural)]
pub enum FolderKept {
    /// The project is not in the configuration, or its folder is blank or a
    /// filesystem root.
    NoFolder,
    /// Another project points at the same folder.
    Shared,
    /// A folder of the new name is already there.
    Occupied,
    /// The new name cannot be the name of a folder.
    UnsafeName,
}

/// What the user is told of a folder that stayed.
pub open spec fn kept_note(kept: FolderKept) -> Seq<char> {
    match kept {
        FolderKept::NoFolder => "folder kept \u{2014} there is no folder of its own to rename"@,
        FolderKept::Shared => "folder kept \u{2014} another project uses it"@,
        FolderKept::Occupied => "folder kept \u{2014} a folder of that name is already there"@,
        FolderKept::UnsafeName => "folder kept \u{2014} that name cannot be a folder name"@,
    }
}

impl FolderKept {
    /// What the user is told.
    pub fn note(self) -> (r: &'static str)
        ensures
            r@ == kept_note(self),
    {
        match self {
            FolderKept::NoFolder => "folder kept \u{2014} there is no folder of its own to rename",
            FolderKept::Shared => "folder kept \u{2014} another project uses it",
            FolderKept::Occupied => "folder kept \u{2014} a folder of that name is already there",
            FolderKept::UnsafeName => "folder kept \u{2014} that name cannot be a folder name",
        }
    }
}

/// What a rename of a project does about the folder on disk.
#[derive(Debug, PartialEq, Eq)]
pub enum FolderPlan {
    /// The folder is this project's own and moves with the name.
    Rename { from: NotePath, to: NotePath },
    /// The configuration changes and the folder stays where it is.
    Keep(FolderKept),
}

/// What a [`FolderPlan`] holds.
pub enum FolderPlanView {
    Rename { from: PathView, to: PathView },
    Keep(FolderKept),
}

impl View for FolderPlan {
    type V = FolderPlanView;

    open spec fn view(&self) -> FolderPlanView {
        match self {
            FolderPlan::Rename { from, to } => FolderPlanView::Rename { from: from@, to: to@ },
            FolderPlan::Keep(kept) => FolderPlanView::Keep(*kept),
        }
    }
}

/// Another project, by name, points at that folder.
pub open spec fn is_shared(
    ps: Seq<ProjectView>,
    dirs: Seq<PathView>,
    from: Seq<char>,
    dir: PathView,
) -> bool {
    exists|j: int| 0 <= j < ps.len() && (#[trigger] ps[j]).name != from && same_place(dirs[j], dir)
}

/// What a rename does about the folder, from the projects and what their folders
/// are read as. The folder follows the name unless there is none, another
/// project shares it, or the new name cannot be the name of a folder.
pub open spec fn planned_folder(
    ps: Seq<ProjectView>,
    dirs: Seq<PathView>,
    from: Seq<char>,
    to: Seq<char>,
) -> FolderPlanView {
    if !has_named(ps, from) {
        FolderPlanView::Keep(FolderKept::NoFolder)
    } else {
        let dir = dirs[place_of(ps, from)];
        if is_shared(ps, dirs, from, dir) {
            FolderPlanView::Keep(FolderKept::Shared)
        } else {
            match parent_of(dir) {
                None => FolderPlanView::Keep(FolderKept::NoFolder),
                Some(parent) => if file_safe_name(to) {
                    FolderPlanView::Rename { from: dir, to: below(parent, to) }
                } else {
                    FolderPlanView::Keep(FolderKept::UnsafeName)
                },
            }
        }
    }
}

/// What a rename of a project does about its folder. `dirs` is what the
/// projects' folders are read as, one for each.
pub fn folder_plan_as(
    projects: &Vec<Project>,
    dirs: &Vec<NotePath>,
    from: &str,
    to: &str,
) -> (r: FolderPlan)
    requires
        dirs@.len() == projects@.len(),
    ensures
        r@ == planned_folder(projects_view(projects@), paths_view(dirs@), from@, to@),
{
    let ghost ps = projects_view(projects@);
    let ghost ds = paths_view(dirs@);
    let at: usize = match find_project(projects, from) {
        Some(at) => at,
        None => return FolderPlan::Keep(FolderKept::NoFolder),
    };
    let dir = &dirs[at];
    proof {
        assert(ds[at as int] == dir@);
    }
    let mut j: usize = 0;
    while j < projects.len()
        invariant
            j <= projects@.len(),
            dirs@.len() == projects@.len(),
            ps == projects_view(projects@),
            ds == paths_view(dirs@),
            has_named(ps, from@),
            dir@ == ds[place_of(ps, from@)],
            forall|k: int| 0 <= k < j ==> !((#[trigger] ps[k]).name != from@ && same_place(ds[k], dir@)),
        decreases projects@.len() - j,
    {
        proof {
            assert(ps[j as int] == projects@[j as int]@);
            assert(ds[j as int] == dirs@[j as int]@);
        }
        if !same_text(&projects[j].name, from) && dirs[j].same(dir) {
            proof {
                assert(ps[j as int].name != from@);
                assert(is_shared(ps, ds, from@, dir@));
            }
            return FolderPlan::Keep(FolderKept::Shared);
        }
        j = j + 1;
    }
    match dir.parent() {
        None => FolderPlan::Keep(FolderKept::NoFolder),
        Some(parent) => if is_file_safe(to) {
            FolderPlan::Rename { from: dir.clone(), to: parent.child(to) }
        } else {
            FolderPlan::Keep(FolderKept::UnsafeName)
        },
    }
}

/// `dirs` is something the projects' folders may be read as, the same text always
/// as the same folder.
pub open spec fn dirs_read(ps: Seq<ProjectView>, dirs: Seq<PathView>) -> bool {
    &&& dirs.len() == ps.len()
    &&& forall|i: int| 0 <= i < ps.len() ==> reads_as((#[trigger] ps[i]).notes_dir, dirs[i])
    &&& forall|i: int, j: int|
        0 <= i < ps.len() && 0 <= j < ps.len() && (#[trigger] ps[i]).notes_dir == (#[trigger]
        ps[j]).notes_dir ==> dirs[i] == dirs[j]
}

/// A project by another name has the same text for its folder as this one.
pub open spec fn shares_text(ps: Seq<ProjectView>, i: int) -> bool {
    exists|j: int|
        0 <= j < ps.len() && (#[trigger] ps[j]).name != ps[i].name && ps[j].notes_dir
            == ps[i].notes_dir
}

/// The first project with this folder, by its text.
fn first_with_dir(projects: &Vec<Project>, at: usize) -> (r: usize)
    requires
        at < projects@.len(),
    ensures
        r <= at,
        projects@[r as int].notes_dir@ == projects@[at as int].notes_dir@,
        forall|k: int|
            0 <= k < r ==> (#[trigger] projects@[k]).notes_dir@
                != projects@[at as int].notes_dir@,
{
    let mut i: usize = 0;
    while i < at
        invariant
            i <= at < projects@.len(),
            forall|k: int|
                0 <= k < i ==> (#[trigger] projects@[k]).notes_dir@
                    != projects@[at as int].notes_dir@,
        decreases at - i,
    {
        if same_text(&projects[i].notes_dir, &projects[at].notes_dir) {
            return i;
        }
        i = i + 1;
    }
    at
}

/// What a rename of a project does about its folder. Whether the target is free
/// on disk is for the caller to find out.
pub fn folder_plan(projects: &Vec<Project>, from: &str, to: &str) -> (r: FolderPlan)
    ensures
        exists|dirs: Seq<PathView>| #[trigger]
            dirs_read(projects_view(projects@), dirs) && r@ == planned_folder(
                projects_view(projects@),
                dirs,
                from@,
                to@,
            ),
        !has_named(projects_view(projects@), from@) ==> r@ == FolderPlanView::Keep(
            FolderKept::NoFolder,
        ),
        forall|i: int| #[trigger]
            is_first_named(projects_view(projects@), from@, i) && shares_text(
                projects_view(projects@),
                i,
            ) ==> r@ == FolderPlanView::Keep(FolderKept::Shared),
{
    let mut dirs: Vec<NotePath> = Vec::new();
    let mut i: usize = 0;
    while i < projects.len()
        invariant
            i <= projects@.len(),
            dirs@.len() == i,
            forall|k: int|
                0 <= k < i ==> reads_as(projects@[k].notes_dir@, (#[trigger] dirs@[k])@),
            forall|j: int, k: int|
                0 <= j < i && 0 <= k < i && (#[trigger] projects@[j]).notes_dir@ == (#[trigger]
                projects@[k]).notes_dir@ ==> dirs@[j]@ == dirs@[k]@,
        decreases projects@.len() - i,
    {
        let first: usize = first_with_dir(projects, i);
        let dir = if first < i {
            dirs[first].clone()
        } else {
            NotePath::new(&projects[i].notes_dir)
        };
        dirs.push(dir);
        i = i + 1;
    }
    let ghost ps = projects_view(projects@);
    let ghost ds = paths_view(dirs@);
    proof {
        assert forall|k: int| 0 <= k < ps.len() implies reads_as(
            (#[trigger] ps[k]).notes_dir,
            ds[k],
        ) by {
            assert(ds[k] == dirs@[k]@);
        }
        assert forall|j: int, k: int|
            0 <= j < ps.len() && 0 <= k < ps.len() && (#[trigger] ps[j]).notes_dir == (#[trigger]
            ps[k]).notes_dir implies ds[j] == ds[k] by {
            assert(ps[j] == projects@[j]@);
            assert(ps[k] == projects@[k]@);
        }
        assert(dirs_read(ps, ds));
        assert forall|k: int| #[trigger]
            is_first_named(ps, from@, k) && shares_text(ps, k) implies planned_folder(
            ps,
            ds,
            from@,
            to@,
        ) == FolderPlanView::Keep(FolderKept::Shared) by {
            lemma_text_shared(ps, ds, k, to@);
        }
    }
    folder_plan_as(projects, &dirs, from, to)
}

proof fn lemma_text_shared(ps: Seq<ProjectView>, dirs: Seq<PathView>, i: int, to: Seq<char>)
    requires
        dirs_read(ps, dirs),
        is_first_named(ps, ps[i].name, i),
        shares_text(ps, i),
    ensures
        planned_folder(ps, dirs, ps[i].name, to) == FolderPlanView::Keep(FolderKept::Shared),
{
    let from = ps[i].name;
    assert(is_first_named(ps, from, place_of(ps, from)));
    assert(place_of(ps, from) == i);
    let j = choose|j: int|
        0 <= j < ps.len() && (#[trigger] ps[j]).name != from && ps[j].notes_dir == ps[i].notes_dir;
    assert(dirs[j] == dirs[i]);
    assert(is_shared(ps, dirs, from, dirs[i]));
}

// ---------------------------------------------------------------------------
// Laws
// ---------------------------------------------------------------------------

/// A folder that another project uses is never moved.
pub proof fn a_shared_folder_stays(
    ps: Seq<ProjectView>,
    dirs: Seq<PathView>,
    from: Seq<char>,
    to: Seq<char>,
    other: int,
)
    requires
        has_named(ps, from),
        0 <= other < ps.len(),
        ps[other].name != from,
        same_place(dirs[other], dirs[place_of(ps, from)]),
    ensures
        planned_folder(ps, dirs, from, to) == FolderPlanView::Keep(FolderKept::Shared),
{
}

/// A folder that moves becomes a sibling of itself that is called what the
/// project is called.
pub proof fn a_renamed_folder_is_a_sibling(
    ps: Seq<ProjectView>,
    dirs: Seq<PathView>,
    from: Seq<char>,
    to: Seq<char>,
)
    ensures
        match planned_folder(ps, dirs, from, to) {
            FolderPlanView::Rename { from: dir, to: target } => {
                &&& has_named(ps, from)
                &&& dir == dirs[place_of(ps, from)]
                &&& target.parts.drop_last() == parent_of(dir).unwrap().parts
                &&& crate::path::file_name_of(target) == Some(to)
            },
            FolderPlanView::Keep(_) => true,
        },
{
    match planned_folder(ps, dirs, from, to) {
        FolderPlanView::Rename { from: dir, to: target } => {
            assert(target.parts.drop_last() =~= parent_of(dir).unwrap().parts);
        },
        FolderPlanView::Keep(_) => {},
    }
}

} // verus!
