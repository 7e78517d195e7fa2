//! What a file says, key by key, and when it is refused.

use crate::config::document::{
    fields, kind_name, root_of, tables_at, toml_error_text, toml_parsed, toml_text, FieldView,
};
use crate::config::error::{ConfigError, ConfigErrorView};
use crate::config::laws::{as_saved, savable};
use crate::config::load::{
    config_in, config_problem, default_settings, flag_in, is_first_twin, is_loaded, project_in,
    project_problem, tables_problem, text_in, texts_of, twin_problem, type_problem,
};
use crate::config::project::{
    is_first_named, is_shared, place_of, planned_folder, FolderKept, FolderPlanView, ProjectView,
};
use crate::config::save::{is_first_save, is_saved, Loaded};
use crate::config::settings::{a_project_is_found_by_its_name, selected_project, Config, ConfigView};
use crate::config::words::{
    clamped_reveal, corner_named, mode_problem, onboarded_named, plain_word, theme_named, Onboarded,
    OverlayCorner, Theme,
};
use crate::path::{below, parent_of, PathView};
use crate::template::file_safe_name;
use crate::text::{a_part_occurs_in_the_whole, ascii_lowered, occurs_in, trimmed};
use vstd::prelude::*;

verus! {

/// That flag stands under the key, or the key is not there and the flag is what
/// it then means.
pub open spec fn is_flag(
    m: Map<Seq<char>, FieldView>,
    key: Seq<char>,
    default: bool,
    flag: bool,
) -> bool {
    if m.contains_key(key) {
        m[key] == FieldView::Flag(flag)
    } else {
        flag == default
    }
}

/// That text stands under the key, or the key is not there and the text is what
/// it then means.
pub open spec fn is_text(
    m: Map<Seq<char>, FieldView>,
    key: Seq<char>,
    default: Seq<char>,
    text: Seq<char>,
) -> bool {
    if m.contains_key(key) {
        m[key] == FieldView::Text(text)
    } else {
        text == default
    }
}

/// That text stands under the key where there is one, and the key is not there
/// where there is none.
pub open spec fn is_optional(
    m: Map<Seq<char>, FieldView>,
    key: Seq<char>,
    text: Option<Seq<char>>,
) -> bool {
    match text {
        Some(t) => m.contains_key(key) && m[key] == FieldView::Text(t),
        None => !m.contains_key(key),
    }
}

/// In a file that loads, every setting is what stands under its own key, and what
/// an absent key means otherwise.
pub proof fn every_key_is_read_into_its_setting(
    m: Map<Seq<char>, FieldView>,
    models_default: Seq<char>,
)
    requires
        config_problem(m) is None,
    ensures
        ({
            let c = config_in(m, models_default);
            &&& is_text(m, "models_dir"@, models_default, c.models_dir)
            &&& is_optional(m, "active_model"@, c.active_model)
            &&& is_text(m, "language"@, "auto"@, c.language)
            &&& is_text(m, "hotkey"@, "F13"@, c.hotkey)
            &&& is_text(m, "toggle_hotkey"@, "F14"@, c.toggle_hotkey)
            &&& is_flag(m, "ptt_enabled"@, true, c.ptt_enabled)
            &&& is_flag(m, "toggle_enabled"@, true, c.toggle_enabled)
            &&& is_optional(m, "mic_substring"@, c.mic_substring)
            &&& is_flag(m, "audio_cues"@, true, c.audio_cues)
            &&& is_flag(m, "overlay"@, true, c.overlay)
            &&& is_flag(m, "close_quits"@, false, c.close_quits)
            &&& is_flag(m, "hide_deleted"@, false, c.hide_deleted)
            &&& is_optional(m, "active_project"@, c.active_project)
            &&& m.contains_key("reveal_seconds"@) ==> (m["reveal_seconds"@] matches
                FieldView::Number(n) && c.reveal_seconds == (if n < 3 {
                3
            } else if n > 60 {
                60
            } else {
                n as int
            }))
            &&& !m.contains_key("reveal_seconds"@) ==> c.reveal_seconds == 10
            &&& m.contains_key("theme"@) ==> (m["theme"@] matches FieldView::Text(t) && theme_named(
                t,
            ) == Ok::<Theme, Seq<char>>(c.theme))
            &&& !m.contains_key("theme"@) ==> c.theme == Theme::Dark
            &&& m.contains_key("overlay_corner"@) ==> (m["overlay_corner"@] matches FieldView::Text(
                t,
            ) && corner_named(t) == Ok::<OverlayCorner, Seq<char>>(c.overlay_corner))
            &&& !m.contains_key("overlay_corner"@) ==> c.overlay_corner
                == OverlayCorner::BottomLeft
            &&& m.contains_key("onboarded"@) ==> (m["onboarded"@] matches FieldView::Text(t)
                && onboarded_named(t) == Ok::<Onboarded, Seq<char>>(c.onboarded))
            &&& !m.contains_key("onboarded"@) ==> c.onboarded == Onboarded::Yes
            &&& m.contains_key("projects"@) ==> m["projects"@] is Tables
            &&& c.projects.len() == tables_at(m, "projects"@).len()
            &&& forall|i: int|
                0 <= i < c.projects.len() ==> #[trigger] c.projects[i] == project_in(
                    fields(tables_at(m, "projects"@)[i]),
                )
        }),
{
}

/// In a project's table that loads, everything is what stands under its own key,
/// and what an absent key means otherwise. The name is always there.
pub proof fn every_key_of_a_project_is_read(m: Map<Seq<char>, FieldView>)
    requires
        project_problem(m) is None,
    ensures
        ({
            let p = project_in(m);
            &&& m.contains_key("name"@) && m["name"@] == FieldView::Text(p.name)
            &&& is_text(m, "notes_dir"@, Seq::empty(), p.notes_dir)
            &&& is_text(
                m,
                "filename_template"@,
                "{project} {date} {time}.md"@,
                p.filename_template,
            )
            &&& is_optional(m, "header_template"@, p.header_template)
            &&& is_optional(m, "model"@, p.model)
            &&& is_optional(m, "language"@, p.language)
            &&& is_flag(m, "session_dividers"@, true, p.session_dividers)
            &&& !m.contains_key("vocabulary"@) ==> p.vocabulary.len() == 0
            &&& m.contains_key("vocabulary"@) ==> (m["vocabulary"@] matches FieldView::List(
                elements,
            ) && elements.len() == p.vocabulary.len() && forall|i: int|
                0 <= i < elements.len() ==> #[trigger] elements[i] == FieldView::Text(
                    p.vocabulary[i],
                ))
        }),
{
    if m.contains_key("vocabulary"@) {
        let elements = m["vocabulary"@]->List_0;
        let p = project_in(m);
        assert(p.vocabulary == texts_of(elements));
        assert forall|i: int| 0 <= i < elements.len() implies #[trigger] elements[i]
            == FieldView::Text(p.vocabulary[i]) by {
            assert(elements[i] is Text);
        }
    }
}

/// What a key may hold, where it is there.
pub open spec fn text_or_absent(m: Map<Seq<char>, FieldView>, key: Seq<char>) -> bool {
    m.contains_key(key) ==> m[key] is Text
}

/// What a key may hold, where it is there.
pub open spec fn flag_or_absent(m: Map<Seq<char>, FieldView>, key: Seq<char>) -> bool {
    m.contains_key(key) ==> m[key] is Flag
}

/// A project's table is refused exactly when it has no name or one of its keys
/// holds something of another kind.
pub proof fn a_project_is_refused_for_a_wrong_kind(m: Map<Seq<char>, FieldView>)
    ensures
        project_problem(m) is None <==> {
            &&& m.contains_key("name"@) && m["name"@] is Text
            &&& text_or_absent(m, "notes_dir"@)
            &&& text_or_absent(m, "filename_template"@)
            &&& text_or_absent(m, "header_template"@)
            &&& text_or_absent(m, "model"@)
            &&& text_or_absent(m, "language"@)
            &&& flag_or_absent(m, "session_dividers"@)
            &&& m.contains_key("vocabulary"@) ==> (m["vocabulary"@] matches FieldView::List(
                elements,
            ) && forall|i: int| 0 <= i < elements.len() ==> #[trigger] elements[i] is Text)
        },
{
}

/// A file is refused exactly when a key holds something of another kind, a word
/// is not known, a project's table is refused, two projects share a name, no
/// recording mode is on, or both are on and share a key.
pub proof fn a_file_is_refused_for_a_reason(m: Map<Seq<char>, FieldView>, models_default: Seq<char>)
    ensures
        config_problem(m) is None <==> {
            let c = config_in(m, models_default);
            &&& text_or_absent(m, "models_dir"@)
            &&& text_or_absent(m, "active_model"@)
            &&& text_or_absent(m, "language"@)
            &&& text_or_absent(m, "hotkey"@)
            &&& text_or_absent(m, "toggle_hotkey"@)
            &&& flag_or_absent(m, "ptt_enabled"@)
            &&& flag_or_absent(m, "toggle_enabled"@)
            &&& text_or_absent(m, "mic_substring"@)
            &&& flag_or_absent(m, "audio_cues"@)
            &&& flag_or_absent(m, "overlay"@)
            &&& flag_or_absent(m, "close_quits"@)
            &&& flag_or_absent(m, "hide_deleted"@)
            &&& text_or_absent(m, "active_project"@)
            &&& m.contains_key("reveal_seconds"@) ==> (m["reveal_seconds"@] matches
                FieldView::Number(n) && 0 <= n <= 0xffff_ffff)
            &&& m.contains_key("theme"@) ==> (m["theme"@] matches FieldView::Text(t) && theme_named(
                t,
            ) is Ok)
            &&& m.contains_key("overlay_corner"@) ==> (m["overlay_corner"@] matches FieldView::Text(
                t,
            ) && corner_named(t) is Ok)
            &&& m.contains_key("onboarded"@) ==> (m["onboarded"@] matches FieldView::Text(t)
                && onboarded_named(t) is Ok)
            &&& m.contains_key("projects"@) ==> m["projects"@] is Tables
            &&& forall|i: int|
                0 <= i < tables_at(m, "projects"@).len() ==> project_problem(
                    fields(#[trigger] tables_at(m, "projects"@)[i]),
                ) is None
            &&& forall|i: int, j: int|
                0 <= i < j < c.projects.len() ==> (#[trigger] c.projects[i]).name != (
                #[trigger] c.projects[j]).name
            &&& c.ptt_enabled || c.toggle_enabled
            &&& c.ptt_enabled && c.toggle_enabled ==> ascii_lowered(trimmed(c.hotkey))
                != ascii_lowered(trimmed(c.toggle_hotkey))
        },
{
    let c = config_in(m, models_default);
    let ts = tables_at(m, "projects"@);
    lemma_tables(ts, ts.len() as int);
    lemma_twins(c.projects);
    let texts = text_or_absent(m, "hotkey"@) && text_or_absent(m, "toggle_hotkey"@)
        && flag_or_absent(m, "ptt_enabled"@) && flag_or_absent(m, "toggle_enabled"@);
    a_combination_is_refused_for_a_reason(
        c.hotkey,
        c.toggle_hotkey,
        c.ptt_enabled,
        c.toggle_enabled,
    );
    assert(text_in(m, "models_dir"@) is Ok <==> text_or_absent(m, "models_dir"@));
    assert(text_in(m, "active_model"@) is Ok <==> text_or_absent(m, "active_model"@));
    assert(text_in(m, "language"@) is Ok <==> text_or_absent(m, "language"@));
    assert(text_in(m, "hotkey"@) is Ok <==> text_or_absent(m, "hotkey"@));
    assert(text_in(m, "toggle_hotkey"@) is Ok <==> text_or_absent(m, "toggle_hotkey"@));
    assert(flag_in(m, "ptt_enabled"@) is Ok <==> flag_or_absent(m, "ptt_enabled"@));
    assert(flag_in(m, "toggle_enabled"@) is Ok <==> flag_or_absent(m, "toggle_enabled"@));
    assert(text_in(m, "mic_substring"@) is Ok <==> text_or_absent(m, "mic_substring"@));
    assert(flag_in(m, "audio_cues"@) is Ok <==> flag_or_absent(m, "audio_cues"@));
    assert(flag_in(m, "overlay"@) is Ok <==> flag_or_absent(m, "overlay"@));
    assert(flag_in(m, "close_quits"@) is Ok <==> flag_or_absent(m, "close_quits"@));
    assert(flag_in(m, "hide_deleted"@) is Ok <==> flag_or_absent(m, "hide_deleted"@));
    assert(text_in(m, "active_project"@) is Ok <==> text_or_absent(m, "active_project"@));
}

proof fn lemma_tables(ts: Seq<toml_edit::Table>, n: int)
    requires
        0 <= n <= ts.len(),
    ensures
        tables_problem(ts, n) is None <==> forall|i: int|
            0 <= i < n ==> project_problem(fields(#[trigger] ts[i])) is None,
    decreases n,
{
    if n > 0 {
        lemma_tables(ts, n - 1);
    }
}

proof fn lemma_twins(ps: Seq<ProjectView>)
    ensures
        twin_problem(ps) is None <==> forall|i: int, j: int|
            0 <= i < j < ps.len() ==> (#[trigger] ps[i]).name != (#[trigger] ps[j]).name,
{
    if twin_problem(ps) is None {
        lemma_no_twins(ps, ps.len() as int);
    } else {
        let i = choose|i: int| is_first_twin(ps, i);
        let j = choose|j: int| 0 <= j < i && (#[trigger] ps[j]).name == ps[i].name;
        assert(ps[j].name == ps[i].name);
    }
}

proof fn lemma_no_twins(ps: Seq<ProjectView>, n: int)
    requires
        0 <= n <= ps.len(),
        forall|i: int| !is_first_twin(ps, i),
    ensures
        forall|i: int, j: int|
            0 <= i < j < n ==> (#[trigger] ps[i]).name != (#[trigger] ps[j]).name,
    decreases n,
{
    if n > 0 {
        lemma_no_twins(ps, n - 1);
        assert forall|i: int, j: int| 0 <= i < j < n implies (#[trigger] ps[i]).name != (
        #[trigger] ps[j]).name by {
            if j == n - 1 && ps[i].name == ps[j].name {
                assert(is_first_twin(ps, j));
            }
        }
    }
}

/// A combination of recording modes is refused exactly when none is on, or when
/// both are and their keys are the same but for case and white space around them.
pub proof fn a_combination_is_refused_for_a_reason(
    hotkey: Seq<char>,
    toggle_hotkey: Seq<char>,
    ptt_enabled: bool,
    toggle_enabled: bool,
)
    ensures
        mode_problem(hotkey, toggle_hotkey, ptt_enabled, toggle_enabled) is Some <==> {
            ||| !ptt_enabled && !toggle_enabled
            ||| ptt_enabled && toggle_enabled && ascii_lowered(trimmed(hotkey)) == ascii_lowered(
                trimmed(toggle_hotkey),
            )
        },
{
}

/// A word is known by its letters, whatever their case and the white space around
/// them, and each word by one meaning.
pub proof fn a_word_is_known_by_its_letters(text: Seq<char>)
    ensures
        ({
            let word = ascii_lowered(trimmed(text));
            &&& theme_named(text) == Ok::<Theme, Seq<char>>(Theme::Dark) <==> word == "dark"@
            &&& theme_named(text) == Ok::<Theme, Seq<char>>(Theme::Light) <==> word == "light"@
            &&& corner_named(text) == Ok::<OverlayCorner, Seq<char>>(OverlayCorner::BottomLeft)
                <==> word == "bottomleft"@
            &&& corner_named(text) == Ok::<OverlayCorner, Seq<char>>(OverlayCorner::BottomRight)
                <==> word == "bottomright"@
            &&& corner_named(text) == Ok::<OverlayCorner, Seq<char>>(OverlayCorner::TopLeft)
                <==> word == "topleft"@
            &&& corner_named(text) == Ok::<OverlayCorner, Seq<char>>(OverlayCorner::TopRight)
                <==> word == "topright"@
            &&& onboarded_named(text) == Ok::<Onboarded, Seq<char>>(Onboarded::No) <==> word
                == "no"@
            &&& onboarded_named(text) == Ok::<Onboarded, Seq<char>>(Onboarded::FirstLaunch)
                <==> word == "first-launch"@
            &&& onboarded_named(text) == Ok::<Onboarded, Seq<char>>(Onboarded::Yes) <==> word
                == "yes"@
        }),
{
    reveal_strlit("dark");
    reveal_strlit("light");
    reveal_strlit("bottomleft");
    reveal_strlit("bottomright");
    reveal_strlit("topleft");
    reveal_strlit("topright");
    reveal_strlit("no");
    reveal_strlit("first-launch");
    reveal_strlit("yes");
    assert("dark"@.len() == 4 && "light"@.len() == 5);
    assert("bottomleft"@.len() == 10 && "bottomright"@.len() == 11);
    assert("topleft"@.len() == 7 && "topright"@.len() == 8);
    assert("no"@.len() == 2 && "first-launch"@.len() == 12 && "yes"@.len() == 3);
}

/// A reveal is between three seconds and a minute, and the nearest there is to
/// what was asked for.
pub proof fn a_reveal_is_the_nearest_in_range(seconds: u32, other: u32)
    requires
        3 <= other <= 60,
    ensures
        3 <= clamped_reveal(seconds) <= 60,
        seconds <= clamped_reveal(seconds) ==> clamped_reveal(seconds) - seconds <= (if other
            >= seconds {
            other - seconds
        } else {
            seconds - other
        }),
        seconds >= clamped_reveal(seconds) ==> seconds - clamped_reveal(seconds) <= (if other
            >= seconds {
            other - seconds
        } else {
            seconds - other
        }),
{
}

/// A save loses no setting: what a file holds after it is what was set, the
/// reveal brought into its range.
pub proof fn a_save_loses_no_setting(c: ConfigView)
    ensures
        ({
            let saved = as_saved(c);
            &&& saved.models_dir == c.models_dir
            &&& saved.active_model == c.active_model
            &&& saved.language == c.language
            &&& saved.hotkey == c.hotkey
            &&& saved.toggle_hotkey == c.toggle_hotkey
            &&& saved.ptt_enabled == c.ptt_enabled
            &&& saved.toggle_enabled == c.toggle_enabled
            &&& saved.mic_substring == c.mic_substring
            &&& saved.audio_cues == c.audio_cues
            &&& saved.overlay == c.overlay
            &&& saved.overlay_corner == c.overlay_corner
            &&& 3 <= c.reveal_seconds <= 60 ==> saved.reveal_seconds == c.reveal_seconds
            &&& c.reveal_seconds < 3 ==> saved.reveal_seconds == 3
            &&& c.reveal_seconds > 60 ==> saved.reveal_seconds == 60
            &&& saved.theme == c.theme
            &&& saved.close_quits == c.close_quits
            &&& saved.hide_deleted == c.hide_deleted
            &&& saved.onboarded == c.onboarded
            &&& saved.active_project == c.active_project
            &&& saved.projects == c.projects
        }),
{
}

/// Settings can be saved and loaded again whenever no two projects share a name
/// and there is a way to record.
pub proof fn settings_can_be_saved_unless_they_could_not_be_loaded(c: ConfigView)
    ensures
        savable(c) <==> {
            &&& forall|i: int, j: int|
                0 <= i < j < c.projects.len() ==> (#[trigger] c.projects[i]).name != (
                #[trigger] c.projects[j]).name
            &&& c.ptt_enabled || c.toggle_enabled
            &&& c.ptt_enabled && c.toggle_enabled ==> ascii_lowered(trimmed(c.hotkey))
                != ascii_lowered(trimmed(c.toggle_hotkey))
        },
{
}

/// A fresh install starts with both ways to record on keys of their own, with
/// cues and overlay on, in the dark, without projects, and with the wizard still
/// to come.
pub proof fn a_fresh_install_starts_like_this(models_dir: Seq<char>)
    ensures
        ({
            let c = default_settings(models_dir);
            &&& c.models_dir == models_dir
            &&& c.active_model is None && c.mic_substring is None && c.active_project is None
            &&& c.language == "auto"@ && c.hotkey == "F13"@ && c.toggle_hotkey == "F14"@
            &&& c.ptt_enabled && c.toggle_enabled && c.audio_cues && c.overlay
            &&& !c.close_quits && !c.hide_deleted
            &&& c.overlay_corner == OverlayCorner::BottomLeft
            &&& c.reveal_seconds == 10
            &&& c.theme == Theme::Dark
            &&& c.onboarded == Onboarded::No
            &&& c.projects.len() == 0
        }),
{
}

/// A project's folder follows its name to a sibling of that name, unless there is
/// no such project, its folder has no parent, a project by another name has the
/// same folder, or the new name cannot be that of a folder.
pub proof fn a_folder_follows_the_name_unless(
    ps: Seq<ProjectView>,
    dirs: Seq<PathView>,
    from: Seq<char>,
    to: Seq<char>,
    at: int,
)
    requires
        dirs.len() == ps.len(),
        0 <= at < ps.len(),
        ps[at].name == from,
        forall|i: int| 0 <= i < at ==> (#[trigger] ps[i]).name != from,
    ensures
        ({
            let plan = planned_folder(ps, dirs, from, to);
            let shared = exists|j: int|
                0 <= j < ps.len() && (#[trigger] ps[j]).name != from && dirs[j].absolute
                    == dirs[at].absolute && dirs[j].parts == dirs[at].parts;
            let rootless = parent_of(dirs[at]) is None;
            &&& plan == FolderPlanView::Keep(FolderKept::Shared) <==> shared
            &&& plan == FolderPlanView::Keep(FolderKept::NoFolder) <==> !shared && rootless
            &&& plan == FolderPlanView::Keep(FolderKept::UnsafeName) <==> !shared && !rootless
                && !file_safe_name(to)
            &&& !shared && !rootless && file_safe_name(to) ==> plan == (FolderPlanView::Rename {
                from: dirs[at],
                to: below(parent_of(dirs[at]).unwrap(), to),
            })
        }),
        forall|name: Seq<char>|
            (forall|i: int| 0 <= i < ps.len() ==> (#[trigger] ps[i]).name != name)
                ==> #[trigger] planned_folder(ps, dirs, name, to) == FolderPlanView::Keep(
                FolderKept::NoFolder,
            ),
{
    assert(is_first_named(ps, from, at));
    assert(is_first_named(ps, from, place_of(ps, from)));
    assert(place_of(ps, from) == at);
    assert(is_shared(ps, dirs, from, dirs[at]) <==> exists|j: int|
        0 <= j < ps.len() && (#[trigger] ps[j]).name != from && dirs[j].absolute
            == dirs[at].absolute && dirs[j].parts == dirs[at].parts);
}

/// The selected project is the first of the name that is selected; none is where
/// none is selected or none has that name.
pub proof fn the_selected_project_is_the_one_named(c: ConfigView)
    ensures
        match (c.active_project, selected_project(c)) {
            (Some(name), Some(p)) => p.name == name && exists|i: int|
                0 <= i < c.projects.len() && #[trigger] c.projects[i] == p && forall|j: int|
                    0 <= j < i ==> (#[trigger] c.projects[j]).name != name,
            (Some(name), None) => forall|i: int|
                0 <= i < c.projects.len() ==> (#[trigger] c.projects[i]).name != name,
            (None, p) => p is None,
        },
{
    if let Some(name) = c.active_project {
        a_project_is_found_by_its_name(c.projects, name);
    }
}

/// What is loaded is what the file says, over the document it was read from; a
/// text that is no document is refused with the reason, and so is one that says
/// something wrong.
pub proof fn a_file_is_loaded_as_it_reads(
    r: Result<Config, ConfigError>,
    text: Seq<char>,
    path: Seq<char>,
    models_default: Seq<char>,
)
    requires
        is_loaded(r, text, path, models_default),
    ensures
        match r {
            Ok(config) => toml_parsed(text) matches Ok(doc) && config.doc@ == doc && config@
                == config_in(fields(root_of(doc)), models_default) && config_problem(
                fields(root_of(doc)),
            ) is None,
            Err(e) => match toml_parsed(text) {
                Ok(doc) => config_problem(fields(root_of(doc))) matches Some(detail) && e@ == (
                ConfigErrorView::Invalid { path, detail }),
                Err(why) => e@ == (ConfigErrorView::Parse { path, reason: toml_error_text(why) }),
            },
        },
{
}

/// A fresh install has the settings it starts with, and a first save writes them.
pub proof fn a_first_save_writes_a_fresh_install(loaded: Loaded, models_default: Seq<char>)
    requires
        is_first_save(loaded, models_default),
    ensures
        loaded.config@ == default_settings(models_default),
        loaded.write matches Some(text) && text@ == toml_text(loaded.config.doc@),
{
}

/// A save changes no setting, and writes the document it leaves behind.
pub proof fn a_save_changes_no_setting(
    before: Config,
    after: Config,
    text: Seq<char>,
    models_default: Seq<char>,
)
    requires
        is_saved(before, after, text, models_default),
    ensures
        after@ == before@,
        text == toml_text(after.doc@),
{
}

/// A sentence about what is wrong names it: the key and what stands there, the
/// word that is not known, the binding that is used twice, the name that is.
pub proof fn a_problem_names_what_is_wrong(
    key: Seq<char>,
    expected: Seq<char>,
    f: FieldView,
    text: Seq<char>,
    hotkey: Seq<char>,
)
    ensures
        occurs_in(key, type_problem(key, expected, f)),
        occurs_in(expected, type_problem(key, expected, f)),
        occurs_in(kind_name(f), type_problem(key, expected, f)),
        theme_named(text) matches Err(sentence) ==> occurs_in(plain_word(text), sentence),
        corner_named(text) matches Err(sentence) ==> occurs_in(plain_word(text), sentence),
        onboarded_named(text) matches Err(sentence) ==> occurs_in(plain_word(text), sentence),
        mode_problem(hotkey, hotkey, true, true) matches Some(sentence) && occurs_in(
            trimmed(hotkey),
            sentence,
        ),
{
    let (a, b, c) = ("`"@, "` should be "@, ", but it is "@);
    let sentence = type_problem(key, expected, f);
    a_part_occurs_in_the_whole(a, key, b + expected + c + kind_name(f));
    assert(sentence =~= a + key + (b + expected + c + kind_name(f)));
    a_part_occurs_in_the_whole(a + key + b, expected, c + kind_name(f));
    assert(sentence =~= a + key + b + expected + (c + kind_name(f)));
    a_part_occurs_in_the_whole(a + key + b + expected + c, kind_name(f), Seq::empty());
    let word = plain_word(text);
    a_part_occurs_in_the_whole(
        "`theme` should be \"dark\" or \"light\", but it is \""@,
        word,
        "\""@,
    );
    a_part_occurs_in_the_whole(
        "`overlay_corner` should be \"bottomLeft\", \"bottomRight\", \"topLeft\" or \"topRight\", but it is \""@,
        word,
        "\""@,
    );
    a_part_occurs_in_the_whole(
        "`onboarded` should be \"no\", \"first-launch\" or \"yes\", but it is \""@,
        word,
        "\""@,
    );
    a_part_occurs_in_the_whole(
        "`hotkey` and `toggle_hotkey` are both \""@,
        trimmed(hotkey),
        "\"; push-to-talk and toggle need different bindings while both are enabled"@,
    );
}

} // verus!
