//! The configuration as typed settings.

use crate::config::project::{
    find_project, has_named, is_first_named, names_differ, place_of, projects_view, Project,
    ProjectRenameError, ProjectView,
};
use crate::config::words::{Onboarded, OverlayCorner, Theme};
use crate::text::{blank, copy_opt, is_blank, is_white, opt_str, opt_text, owned, same_text};
use toml_edit::DocumentMut;
use vstd::prelude::*;

verus! {

/// A document that only loading and saving touch.
#[derive(Debug)]
pub struct Document {
    toml: DocumentMut,
}

impl View for Document {
    type V = DocumentMut;

    closed spec fn view(&self) -> DocumentMut {
        self.toml
    }
}

impl Document {
    pub(crate) fn new(toml: DocumentMut) -> (r: Document)
        ensures
            r@ == toml,
    {
        Document { toml }
    }

    pub(crate) fn toml(&self) -> (r: &DocumentMut)
        ensures
            *r == self@,
    {
        &self.toml
    }

    pub(crate) fn toml_mut(&mut self) -> (r: &mut DocumentMut)
        ensures
            *r == old(self)@,
            final(self)@ == *final(r),
            *final(r) == *r ==> *final(self) == *old(self),
    {
        &mut self.toml
    }
}

/// Global settings and the project list, over the document they came from.
///
/// Callers edit the typed fields. A save folds them back into the document, so
/// comments, order and keys that are not ours survive.
#[derive(Debug)]
pub struct Config {
    /// Directory scanned for models, as it is written in the file.
    pub models_dir: String,
    /// File name of the model in use, if one has been chosen.
    pub active_model: Option<String>,
    /// Global language.
    pub language: String,
    /// Push-to-talk token.
    pub hotkey: String,
    /// Toggle token.
    pub toggle_hotkey: String,
    /// Whether the hold-to-talk mode is bound at all.
    pub ptt_enabled: bool,
    /// Whether the press-once mode is bound at all.
    pub toggle_enabled: bool,
    /// Substring matched against input device names.
    pub mic_substring: Option<String>,
    /// Play the cues.
    pub audio_cues: bool,
    /// Show the overlay.
    pub overlay: bool,
    /// Which corner the overlay docks to.
    pub overlay_corner: OverlayCorner,
    /// How long a transcribed line stays on the overlay, in seconds.
    pub reveal_seconds: u32,
    /// Which palette the window draws in.
    pub theme: Theme,
    /// Whether the close button quits.
    pub close_quits: bool,
    /// Whether deleted lines are kept out of the transcript view.
    pub hide_deleted: bool,
    /// Whether the onboarding wizard still has to run.
    pub onboarded: Onboarded,
    /// Name of the selected project, if any.
    pub active_project: Option<String>,
    /// All known projects, in file order.
    pub projects: Vec<Project>,
    /// The file these settings came from.
    pub doc: Document,
}

/// What the typed settings hold.
pub struct ConfigView {
    pub models_dir: Seq<char>,
    pub active_model: Option<Seq<char>>,
    pub language: Seq<char>,
    pub hotkey: Seq<char>,
    pub toggle_hotkey: Seq<char>,
    pub ptt_enabled: bool,
    pub toggle_enabled: bool,
    pub mic_substring: Option<Seq<char>>,
    pub audio_cues: bool,
    pub overlay: bool,
    pub overlay_corner: OverlayCorner,
    pub reveal_seconds: u32,
    pub theme: Theme,
    pub close_quits: bool,
    pub hide_deleted: bool,
    pub onboarded: Onboarded,
    pub active_project: Option<Seq<char>>,
    pub projects: Seq<ProjectView>,
}

impl View for Config {
    type V = ConfigView;

    open spec fn view(&self) -> ConfigView {
        ConfigView {
            models_dir: self.models_dir@,
            active_model: opt_text(self.active_model),
            language: self.language@,
            hotkey: self.hotkey@,
            toggle_hotkey: self.toggle_hotkey@,
            ptt_enabled: self.ptt_enabled,
            toggle_enabled: self.toggle_enabled,
            mic_substring: opt_text(self.mic_substring),
            audio_cues: self.audio_cues,
            overlay: self.overlay,
            overlay_corner: self.overlay_corner,
            reveal_seconds: self.reveal_seconds,
            theme: self.theme,
            close_quits: self.close_quits,
            hide_deleted: self.hide_deleted,
            onboarded: self.onboarded,
            active_project: opt_text(self.active_project),
            projects: projects_view(self.projects@),
        }
    }
}

/// A copy of a list of projects.
pub fn copy_projects(projects: &Vec<Project>) -> (r: Vec<Project>)
    ensures
        projects_view(r@) == projects_view(projects@),
{
    let mut out: Vec<Project> = Vec::new();
    let mut i: usize = 0;
    while i < projects.len()
        invariant
            i <= projects@.len(),
            out@.len() == i,
            forall|k: int| 0 <= k < i ==> (#[trigger] out@[k])@ == projects@[k]@,
        decreases projects@.len() - i,
    {
        out.push(projects[i].clone());
        i = i + 1;
    }
    proof {
        assert(projects_view(out@) =~= projects_view(projects@));
    }
    out
}

impl Clone for Config {
    fn clone(&self) -> (r: Self)
        ensures
            r@ == self@,
            r.doc@ == self.doc@,
    {
        Config {
            models_dir: self.models_dir.clone(),
            active_model: copy_opt(&self.active_model),
            language: self.language.clone(),
            hotkey: self.hotkey.clone(),
            toggle_hotkey: self.toggle_hotkey.clone(),
            ptt_enabled: self.ptt_enabled,
            toggle_enabled: self.toggle_enabled,
            mic_substring: copy_opt(&self.mic_substring),
            audio_cues: self.audio_cues,
            overlay: self.overlay,
            overlay_corner: self.overlay_corner,
            reveal_seconds: self.reveal_seconds,
            theme: self.theme,
            close_quits: self.close_quits,
            hide_deleted: self.hide_deleted,
            onboarded: self.onboarded,
            active_project: copy_opt(&self.active_project),
            projects: copy_projects(&self.projects),
            doc: Document::new(self.doc.toml().clone()),
        }
    }
}

/// What a borrowed project holds.
pub open spec fn opt_project(p: Option<&Project>) -> Option<ProjectView> {
    match p {
        Some(p) => Some(p@),
        None => None,
    }
}

/// The first project that is called that.
pub open spec fn named_project(ps: Seq<ProjectView>, name: Seq<char>) -> Option<ProjectView> {
    if has_named(ps, name) {
        Some(ps[place_of(ps, name)])
    } else {
        None
    }
}

/// The project the settings have selected, if it still exists.
pub open spec fn selected_project(c: ConfigView) -> Option<ProjectView> {
    match c.active_project {
        Some(name) => named_project(c.projects, name),
        None => None,
    }
}

/// An override, where it says something.
pub open spec fn said_override(t: Option<Seq<char>>) -> Option<Seq<char>> {
    match t {
        Some(t) => if is_blank(t) {
            None
        } else {
            Some(t)
        },
        None => None,
    }
}

/// The language a note is transcribed in: the project's, where it names one, and
/// the global one otherwise.
pub open spec fn language_for(c: ConfigView, p: Option<ProjectView>) -> Seq<char> {
    match p {
        Some(p) => match said_override(p.language) {
            Some(language) => language,
            None => c.language,
        },
        None => c.language,
    }
}

/// The model a note is transcribed with, by the same rule. A global model that
/// is blank is none.
pub open spec fn model_for(c: ConfigView, p: Option<ProjectView>) -> Option<Seq<char>> {
    match p {
        Some(p) => match said_override(p.model) {
            Some(model) => Some(model),
            None => said_override(c.active_model),
        },
        None => said_override(c.active_model),
    }
}

fn said_of(t: &Option<String>) -> (r: Option<&str>)
    ensures
        opt_str(r) == said_override(opt_text(*t)),
{
    match t {
        Some(t) => if blank(t) {
            None
        } else {
            Some(t.as_str())
        },
        None => None,
    }
}

// ---------------------------------------------------------------------------
// Renaming and removing
// ---------------------------------------------------------------------------

/// Why a rename is refused, if it is.
pub open spec fn rename_problem(c: ConfigView, from: Seq<char>, to: Seq<char>) -> Option<
    ProjectRenameError,
> {
    if is_blank(to) {
        Some(ProjectRenameError::Blank)
    } else if !has_named(c.projects, from) {
        Some(ProjectRenameError::NoSuchProject)
    } else if to != from && has_named(c.projects, to) {
        Some(ProjectRenameError::NameTaken)
    } else {
        None
    }
}

/// The settings after a rename: the project's name, its folder where one is
/// given, and the selection where it was selected.
pub open spec fn with_renamed(
    c: ConfigView,
    from: Seq<char>,
    to: Seq<char>,
    notes_dir: Option<Seq<char>>,
) -> ConfigView {
    let at = place_of(c.projects, from);
    let old_project = c.projects[at];
    ConfigView {
        projects: c.projects.update(
            at,
            ProjectView {
                name: to,
                notes_dir: match notes_dir {
                    Some(dir) => dir,
                    None => old_project.notes_dir,
                },
                ..old_project
            },
        ),
        active_project: if c.active_project == Some(from) {
            Some(to)
        } else {
            c.active_project
        },
        ..c
    }
}

/// The projects that are not called that, in order.
pub open spec fn others(ps: Seq<ProjectView>, name: Seq<char>) -> Seq<ProjectView>
    decreases ps.len(),
{
    if ps.len() == 0 {
        Seq::empty()
    } else {
        let before = others(ps.drop_last(), name);
        if ps.last().name == name {
            before
        } else {
            before.push(ps.last())
        }
    }
}

/// The settings without the projects of that name, and without a selection that
/// named them.
pub open spec fn with_removed(c: ConfigView, name: Seq<char>) -> ConfigView {
    if has_named(c.projects, name) {
        ConfigView {
            projects: others(c.projects, name),
            active_project: if c.active_project == Some(name) {
                None
            } else {
                c.active_project
            },
            ..c
        }
    } else {
        c
    }
}

impl Config {
    /// The project of that name, if there is one.
    pub fn project(&self, name: &str) -> (r: Option<&Project>)
        ensures
            opt_project(r) == named_project(self@.projects, name@),
    {
        match find_project(&self.projects, name) {
            Some(at) => {
                proof {
                    assert(projects_view(self.projects@)[at as int] == self.projects@[at as int]@);
                }
                Some(&self.projects[at])
            },
            None => None,
        }
    }

    /// The project of that name, to be changed in place.
    pub fn project_mut(&mut self, name: &str) -> (r: Option<&mut Project>)
        ensures
            match r {
                Some(p) => {
                    &&& has_named(old(self)@.projects, name@)
                    &&& p@ == old(self)@.projects[place_of(old(self)@.projects, name@)]
                    &&& final(self)@ == (ConfigView {
                        projects: old(self)@.projects.update(
                            place_of(old(self)@.projects, name@),
                            final(p)@,
                        ),
                        ..old(self)@
                    })
                    &&& final(self).doc == old(self).doc
                },
                None => !has_named(old(self)@.projects, name@) && *final(self) == *old(self),
            },
    {
        match find_project(&self.projects, name) {
            Some(at) => {
                let ghost before = self.projects@;
                let p = &mut self.projects[at];
                proof {
                    assert(projects_view(before)[at as int] == before[at as int]@);
                    assert(projects_view(before.update(at as int, *final(p)))
                        =~= projects_view(before).update(at as int, final(p)@));
                }
                Some(p)
            },
            None => None,
        }
    }

    /// The selected project, if it still exists.
    pub fn active_project(&self) -> (r: Option<&Project>)
        ensures
            opt_project(r) == selected_project(self@),
    {
        match &self.active_project {
            Some(name) => self.project(name),
            None => None,
        }
    }

    /// The language a note of this project is transcribed in. An override that
    /// is blank is no override.
    pub fn effective_language<'a>(&'a self, project: Option<&'a Project>) -> (r: &'a str)
        ensures
            r@ == language_for(self@, opt_project(project)),
    {
        if let Some(p) = project {
            if let Some(language) = said_of(&p.language) {
                return language;
            }
        }
        self.language.as_str()
    }

    /// The model a note of this project is transcribed with, if any.
    pub fn effective_model<'a>(&'a self, project: Option<&'a Project>) -> (r: Option<&'a str>)
        ensures
            opt_str(r) == model_for(self@, opt_project(project)),
    {
        if let Some(p) = project {
            if let Some(model) = said_of(&p.model) {
                return Some(model);
            }
        }
        said_of(&self.active_model)
    }

    /// Renames a project, and everything in the settings that names it. A
    /// refused rename changes nothing.
    pub fn rename_project(&mut self, from: &str, to: &str, notes_dir: Option<String>) -> (r: Result<
        (),
        ProjectRenameError,
    >)
        ensures
            match r {
                Ok(_) => rename_problem(old(self)@, from@, to@) is None && final(self)@
                    == with_renamed(old(self)@, from@, to@, opt_text(notes_dir))
                    && final(self).doc == old(self).doc,
                Err(e) => rename_problem(old(self)@, from@, to@) == Some(e) && *final(self) == *old(
                    self,
                ),
            },
    {
        if blank(to) {
            return Err(ProjectRenameError::Blank);
        }
        let at: usize = match find_project(&self.projects, from) {
            Some(at) => at,
            None => return Err(ProjectRenameError::NoSuchProject),
        };
        if !same_text(to, from) {
            if let Some(_) = find_project(&self.projects, to) {
                return Err(ProjectRenameError::NameTaken);
            }
        }
        let ghost before = self.projects@;
        proof {
            assert(projects_view(before)[at as int] == before[at as int]@);
        }
        let mut project = self.projects[at].clone();
        project.name = owned(to);
        if let Some(dir) = notes_dir {
            project.notes_dir = dir;
        }
        let ghost renamed = project;
        self.projects.set(at, project);
        proof {
            assert(projects_view(self.projects@) =~= projects_view(before).update(
                at as int,
                renamed@,
            ));
        }
        let selected = match &self.active_project {
            Some(name) => same_text(name, from),
            None => false,
        };
        if selected {
            self.active_project = Some(owned(to));
        }
        Ok(())
    }

    /// Takes a project out of the configuration, and nothing else: its folder
    /// and its notes stay. True when there was one.
    pub fn remove_project(&mut self, name: &str) -> (r: bool)
        ensures
            r == has_named(old(self)@.projects, name@),
            final(self)@ == with_removed(old(self)@, name@),
            final(self).doc == old(self).doc,
    {
        if find_project(&self.projects, name).is_none() {
            return false;
        }
        let ghost before = self.projects@;
        let ghost all = projects_view(before);
        let mut kept: Vec<Project> = Vec::new();
        let mut i: usize = 0;
        while i < self.projects.len()
            invariant
                i <= self.projects@.len(),
                self.projects@ == before,
                all == projects_view(before),
                projects_view(kept@) == others(all.take(i as int), name@),
            decreases self.projects@.len() - i,
        {
            proof {
                assert(all[i as int] == before[i as int]@);
                assert(all.take(i + 1).drop_last() =~= all.take(i as int));
            }
            if !same_text(&self.projects[i].name, name) {
                let ghost had = kept@;
                let p = self.projects[i].clone();
                let ghost pv = p@;
                kept.push(p);
                proof {
                    assert(projects_view(kept@) =~= projects_view(had).push(pv));
                }
            }
            i = i + 1;
        }
        proof {
            assert(all.take(i as int) =~= all);
        }
        self.projects = kept;
        let selected = match &self.active_project {
            Some(active) => same_text(active, name),
            None => false,
        };
        if selected {
            self.active_project = None;
        }
        true
    }
}

// ---------------------------------------------------------------------------
// Laws
// ---------------------------------------------------------------------------

/// A rename never makes two projects share a name.
pub proof fn a_rename_never_merges(
    c: ConfigView,
    from: Seq<char>,
    to: Seq<char>,
    notes_dir: Option<Seq<char>>,
)
    requires
        names_differ(c.projects),
        rename_problem(c, from, to) is None,
    ensures
        names_differ(with_renamed(c, from, to, notes_dir).projects),
        with_renamed(c, from, to, notes_dir).projects.len() == c.projects.len(),
{
    let at = choose|i: int| 0 <= i < c.projects.len() && (#[trigger] c.projects[i]).name == from;
    assert(is_first_named(c.projects, from, at));
    assert(is_first_named(c.projects, from, place_of(c.projects, from)));
    let after = with_renamed(c, from, to, notes_dir).projects;
    assert forall|i: int, j: int| 0 <= i < j < after.len() implies (#[trigger] after[i]).name != (
    #[trigger] after[j]).name by {
        assert(c.projects[i].name != c.projects[j].name);
    }
}

/// A rename keeps the project selected that was: whatever was selected before is
/// selected after, under its new name if it has one.
pub proof fn a_rename_keeps_the_selection(
    c: ConfigView,
    from: Seq<char>,
    to: Seq<char>,
    notes_dir: Option<Seq<char>>,
)
    requires
        names_differ(c.projects),
        rename_problem(c, from, to) is None,
    ensures
        ({
            let after = with_renamed(c, from, to, notes_dir);
            match selected_project(c) {
                Some(p) => if p.name == from {
                    selected_project(after) == Some(after.projects[place_of(c.projects, from)])
                } else {
                    selected_project(after) == Some(p)
                },
                None => c.active_project == Some(to) || selected_project(after) is None,
            }
        }),
{
    a_rename_never_merges(c, from, to, notes_dir);
    let after = with_renamed(c, from, to, notes_dir);
    let at = choose|i: int| 0 <= i < c.projects.len() && (#[trigger] c.projects[i]).name == from;
    assert(is_first_named(c.projects, from, at));
    let place = place_of(c.projects, from);
    assert(is_first_named(c.projects, from, place));
    if let Some(name) = c.active_project {
        if has_named(c.projects, name) {
            let k = choose|i: int| 0 <= i < c.projects.len() && (#[trigger] c.projects[i]).name
                == name;
            assert(is_first_named(c.projects, name, k));
            let old_place = place_of(c.projects, name);
            assert(is_first_named(c.projects, name, old_place));
            let new_name = if name == from {
                to
            } else {
                name
            };
            assert(after.projects[old_place].name == new_name);
            assert(is_first_named(after.projects, new_name, old_place));
            let new_place = place_of(after.projects, new_name);
            assert(is_first_named(after.projects, new_name, new_place));
            assert(new_place == old_place);
        } else if name != to {
            assert(name != from);
            if has_named(after.projects, name) {
                let k = choose|i: int| 0 <= i < after.projects.len() && (
                #[trigger] after.projects[i]).name == name;
                assert(c.projects[k].name == name);
            }
        }
    }
}

/// What remains after a removal: every project of another name, in order, and
/// none of that name.
pub proof fn a_removal_takes_only_its_name(ps: Seq<ProjectView>, name: Seq<char>)
    ensures
        !has_named(others(ps, name), name),
        forall|other: Seq<char>|
            other != name ==> (#[trigger] has_named(others(ps, name), other) == has_named(ps, other)),
        others(ps, name).len() <= ps.len(),
        names_differ(ps) ==> names_differ(others(ps, name)),
    decreases ps.len(),
{
    if ps.len() > 0 {
        let front = ps.drop_last();
        a_removal_takes_only_its_name(front, name);
        let rest = others(ps, name);
        let before = others(front, name);
        assert forall|other: Seq<char>| other != name implies #[trigger] has_named(rest, other)
            == has_named(ps, other) by {
            assert(has_named(before, other) == has_named(front, other));
            if has_named(rest, other) {
                let k = choose|i: int| 0 <= i < rest.len() && (#[trigger] rest[i]).name == other;
                if k < before.len() {
                    assert(before[k].name == other);
                    let q = choose|i: int| 0 <= i < front.len() && (#[trigger] front[i]).name
                        == other;
                    assert(ps[q].name == other);
                } else {
                    assert(ps[ps.len() - 1].name == other);
                }
            }
            if has_named(ps, other) {
                let k = choose|i: int| 0 <= i < ps.len() && (#[trigger] ps[i]).name == other;
                if k < front.len() {
                    assert(front[k].name == other);
                    let q = choose|i: int| 0 <= i < before.len() && (#[trigger] before[i]).name
                        == other;
                    assert(rest[q].name == other);
                } else {
                    assert(rest[rest.len() - 1].name == other);
                }
            }
        }
        assert(!has_named(rest, name)) by {
            if has_named(rest, name) {
                let k = choose|i: int| 0 <= i < rest.len() && (#[trigger] rest[i]).name == name;
                if k < before.len() {
                    assert(before[k].name == name);
                }
            }
        }
        if names_differ(ps) {
            assert forall|i: int, j: int| 0 <= i < j < front.len() implies (
            #[trigger] front[i]).name != (#[trigger] front[j]).name by {
                assert(ps[i].name != ps[j].name);
            }
            assert forall|i: int, j: int| 0 <= i < j < rest.len() implies (
            #[trigger] rest[i]).name != (#[trigger] rest[j]).name by {
                if j < before.len() {
                    assert(before[i].name != before[j].name);
                } else {
                    let other = before[i].name;
                    assert(has_named(before, other));
                    assert(other != name);
                    let q = choose|m: int| 0 <= m < front.len() && (#[trigger] front[m]).name
                        == other;
                    assert(ps[q].name != ps[ps.len() - 1].name);
                }
            }
        }
    }
}

/// A rename that succeeds changes the project's name, its folder where one is
/// given, and nothing else of it; every other project stays as it was, and so
/// does every other setting but a selection of the renamed project.
pub proof fn a_rename_changes_nothing_else(
    c: ConfigView,
    from: Seq<char>,
    to: Seq<char>,
    notes_dir: Option<Seq<char>>,
    at: int,
)
    requires
        rename_problem(c, from, to) is None,
        0 <= at < c.projects.len(),
        c.projects[at].name == from,
        forall|i: int| 0 <= i < at ==> (#[trigger] c.projects[i]).name != from,
    ensures
        ({
            let after = with_renamed(c, from, to, notes_dir);
            let (old_project, new_project) = (c.projects[at], after.projects[at]);
            &&& after.projects.len() == c.projects.len()
            &&& new_project.name == to
            &&& notes_dir matches Some(dir) ==> new_project.notes_dir == dir
            &&& notes_dir is None ==> new_project.notes_dir == old_project.notes_dir
            &&& new_project.filename_template == old_project.filename_template
            &&& new_project.header_template == old_project.header_template
            &&& new_project.model == old_project.model
            &&& new_project.language == old_project.language
            &&& new_project.vocabulary == old_project.vocabulary
            &&& new_project.session_dividers == old_project.session_dividers
            &&& forall|i: int|
                0 <= i < c.projects.len() && i != at ==> #[trigger] after.projects[i]
                    == c.projects[i]
            &&& c.active_project == Some(from) ==> after.active_project == Some(to)
            &&& c.active_project != Some(from) ==> after.active_project == c.active_project
            &&& after.models_dir == c.models_dir
            &&& after.active_model == c.active_model
            &&& after.language == c.language
            &&& after.hotkey == c.hotkey
            &&& after.toggle_hotkey == c.toggle_hotkey
            &&& after.ptt_enabled == c.ptt_enabled
            &&& after.toggle_enabled == c.toggle_enabled
            &&& after.mic_substring == c.mic_substring
            &&& after.audio_cues == c.audio_cues
            &&& after.overlay == c.overlay
            &&& after.overlay_corner == c.overlay_corner
            &&& after.reveal_seconds == c.reveal_seconds
            &&& after.theme == c.theme
            &&& after.close_quits == c.close_quits
            &&& after.hide_deleted == c.hide_deleted
            &&& after.onboarded == c.onboarded
        }),
{
    assert(is_first_named(c.projects, from, at));
    assert(is_first_named(c.projects, from, place_of(c.projects, from)));
}

/// A rename is refused for three reasons, the first of them that holds: the new
/// name is nothing but white space, no project is called by the old one, or
/// another project is called by the new one.
pub proof fn a_rename_is_refused_for_a_reason(c: ConfigView, from: Seq<char>, to: Seq<char>)
    ensures
        ({
            let blank = forall|i: int| 0 <= i < to.len() ==> is_white(#[trigger] to[i]);
            let known = exists|i: int|
                0 <= i < c.projects.len() && (#[trigger] c.projects[i]).name == from;
            let taken = to != from && exists|i: int|
                0 <= i < c.projects.len() && (#[trigger] c.projects[i]).name == to;
            &&& rename_problem(c, from, to) == Some(ProjectRenameError::Blank) <==> blank
            &&& rename_problem(c, from, to) == Some(ProjectRenameError::NoSuchProject) <==> !blank
                && !known
            &&& rename_problem(c, from, to) == Some(ProjectRenameError::NameTaken) <==> !blank
                && known && taken
            &&& rename_problem(c, from, to) is None <==> !blank && known && !taken
        }),
{
}

/// A removal leaves every other project as it was and in its order, and every
/// other setting but a selection of the removed project.
pub proof fn a_removal_changes_nothing_else(c: ConfigView, name: Seq<char>)
    ensures
        ({
            let after = with_removed(c, name);
            &&& forall|i: int|
                0 <= i < after.projects.len() ==> (#[trigger] after.projects[i]).name != name
                    && c.projects.contains(after.projects[i])
            &&& forall|i: int|
                0 <= i < c.projects.len() && (#[trigger] c.projects[i]).name != name
                    ==> after.projects.contains(c.projects[i])
            &&& after.projects == c.projects.filter(|p: ProjectView| p.name != name)
            &&& c.active_project != Some(name) ==> after.active_project == c.active_project
            &&& c.active_project == Some(name) && (exists|i: int|
                0 <= i < c.projects.len() && (#[trigger] c.projects[i]).name == name)
                ==> after.active_project is None
            &&& after.models_dir == c.models_dir
            &&& after.active_model == c.active_model
            &&& after.language == c.language
            &&& after.hotkey == c.hotkey
            &&& after.toggle_hotkey == c.toggle_hotkey
            &&& after.ptt_enabled == c.ptt_enabled
            &&& after.toggle_enabled == c.toggle_enabled
            &&& after.mic_substring == c.mic_substring
            &&& after.audio_cues == c.audio_cues
            &&& after.overlay == c.overlay
            &&& after.overlay_corner == c.overlay_corner
            &&& after.reveal_seconds == c.reveal_seconds
            &&& after.theme == c.theme
            &&& after.close_quits == c.close_quits
            &&& after.hide_deleted == c.hide_deleted
            &&& after.onboarded == c.onboarded
        }),
{
    let keeps = |p: ProjectView| p.name != name;
    lemma_others_filter(c.projects, name);
    let after = with_removed(c, name);
    if !has_named(c.projects, name) {
        assert forall|i: int| 0 <= i < c.projects.len() implies keeps(#[trigger] c.projects[i]) by {}
        lemma_nothing_filtered(c.projects, name);
    }
    assert forall|i: int| 0 <= i < after.projects.len() implies (
    #[trigger] after.projects[i]).name != name && c.projects.contains(after.projects[i]) by {
        c.projects.lemma_filter_contains_rev(keeps, after.projects[i]);
        broadcast use vstd::seq_lib::group_filter_ensures;
    }
    assert forall|i: int|
        0 <= i < c.projects.len() && (#[trigger] c.projects[i]).name
            != name implies after.projects.contains(c.projects[i]) by {
        broadcast use vstd::seq_lib::group_filter_ensures;
    }
}

proof fn lemma_others_filter(ps: Seq<ProjectView>, name: Seq<char>)
    ensures
        others(ps, name) == ps.filter(|p: ProjectView| p.name != name),
    decreases ps.len(),
{
    reveal(Seq::filter);
    if ps.len() > 0 {
        lemma_others_filter(ps.drop_last(), name);
    } else {
        assert(others(ps, name) =~= ps.filter(|p: ProjectView| p.name != name));
    }
}

proof fn lemma_nothing_filtered(ps: Seq<ProjectView>, name: Seq<char>)
    requires
        !has_named(ps, name),
    ensures
        ps.filter(|p: ProjectView| p.name != name) == ps,
    decreases ps.len(),
{
    reveal(Seq::filter);
    if ps.len() > 0 {
        let front = ps.drop_last();
        assert(!has_named(front, name)) by {
            if has_named(front, name) {
                let k = choose|i: int| 0 <= i < front.len() && (#[trigger] front[i]).name == name;
                assert(ps[k].name == name);
            }
        }
        lemma_nothing_filtered(front, name);
        assert(ps[ps.len() - 1].name != name);
        assert(front.push(ps.last()) =~= ps);
    } else {
        assert(ps.filter(|p: ProjectView| p.name != name) =~= ps);
    }
}

/// The first project of a name is the one that is found by it.
pub proof fn a_project_is_found_by_its_name(ps: Seq<ProjectView>, name: Seq<char>)
    ensures
        match named_project(ps, name) {
            Some(p) => exists|i: int|
                0 <= i < ps.len() && #[trigger] ps[i] == p && ps[i].name == name && forall|j: int|
                    0 <= j < i ==> (#[trigger] ps[j]).name != name,
            None => forall|i: int| 0 <= i < ps.len() ==> (#[trigger] ps[i]).name != name,
        },
{
    if has_named(ps, name) {
        lemma_first_named(ps, name, ps.len() as int);
        let i = place_of(ps, name);
        assert(is_first_named(ps, name, i));
        assert(ps[i].name == name);
    }
}

proof fn lemma_first_named(ps: Seq<ProjectView>, name: Seq<char>, n: int)
    requires
        0 <= n <= ps.len(),
        exists|i: int| 0 <= i < n && (#[trigger] ps[i]).name == name,
    ensures
        exists|i: int| #[trigger] is_first_named(ps, name, i),
    decreases n,
{
    let k = choose|i: int| 0 <= i < n && (#[trigger] ps[i]).name == name;
    if exists|i: int| 0 <= i < k && (#[trigger] ps[i]).name == name {
        lemma_first_named(ps, name, k);
    } else {
        assert(is_first_named(ps, name, k));
    }
}

/// A project's own language and model come first where they say something, and
/// the global ones are used otherwise; white space says nothing.
pub proof fn an_override_wins_where_it_says_something(c: ConfigView, p: ProjectView)
    ensures
        match p.language {
            Some(t) => if exists|i: int| 0 <= i < t.len() && !is_white(#[trigger] t[i]) {
                language_for(c, Some(p)) == t
            } else {
                language_for(c, Some(p)) == c.language
            },
            None => language_for(c, Some(p)) == c.language,
        },
        language_for(c, None) == c.language,
        p.model matches Some(t) ==> (exists|i: int| 0 <= i < t.len() && !is_white(#[trigger] t[i]))
            ==> model_for(c, Some(p)) == Some(t),
        (p.model matches Some(t) ==> forall|i: int|
            0 <= i < t.len() ==> is_white(#[trigger] t[i])) ==> model_for(c, Some(p)) == model_for(
            c,
            None,
        ),
        match c.active_model {
            Some(t) => if exists|i: int| 0 <= i < t.len() && !is_white(#[trigger] t[i]) {
                model_for(c, None) == Some(t)
            } else {
                model_for(c, None) is None
            },
            None => model_for(c, None) is None,
        },
{
}

} // verus!
