//! Reading the typed settings out of a document.
//!
//! A key that is there with the wrong type is an error, never a silent
//! fallback: the next save would overwrite what the user typed.

use crate::config::document::{
    all_placed, element_at, elements_at, field_at, fields, is_kept, kind_name, list_view, nothing,
    parse_document, position_of, root_of, shows, table_at, table_count, tables_at, toml_error_text,
    toml_parsed, toml_reason, Field, FieldView,
};
use crate::config::error::{unusable, ConfigError, ConfigErrorView};
use crate::config::project::{plain_project, projects_view, Project, ProjectView};
use crate::config::settings::{Config, ConfigView, Document};
use crate::config::skeleton::DEFAULT_DOCUMENT;
use crate::config::words::{
    clamp_reveal_seconds, clamped_reveal, corner_named, mode_problem, onboarded_named,
    recording_mode_problem, said, theme_named, Onboarded, OverlayCorner, Theme,
    DEFAULT_FILENAME_TEMPLATE, DEFAULT_HOTKEY, DEFAULT_LANGUAGE, DEFAULT_REVEAL_SECONDS,
    DEFAULT_TOGGLE_HOTKEY, ONBOARDED_WHEN_ABSENT,
};
use crate::path::PathView;
use crate::places::{default_models_dir, models_dir_in, path_to_string};
use crate::text::{glue, opt_text, owned, same_text};
use toml_edit::{DocumentMut, Table};
use vstd::prelude::*;

verus! {

// ---------------------------------------------------------------------------
// One key
// ---------------------------------------------------------------------------

/// The sentence for a key that holds the wrong type.
pub open spec fn type_problem(key: Seq<char>, expected: Seq<char>, f: FieldView) -> Seq<char> {
    "`"@ + key + "` should be "@ + expected + ", but it is "@ + kind_name(f)
}

/// The text under a key: none where the key is absent, a sentence where it holds
/// something else.
pub open spec fn text_in(m: Map<Seq<char>, FieldView>, key: Seq<char>) -> Result<
    Option<Seq<char>>,
    Seq<char>,
> {
    if !m.contains_key(key) {
        Ok(None)
    } else {
        match m[key] {
            FieldView::Text(text) => Ok(Some(text)),
            f => Err(type_problem(key, "a string"@, f)),
        }
    }
}

/// The flag under a key, by the same rule.
pub open spec fn flag_in(m: Map<Seq<char>, FieldView>, key: Seq<char>) -> Result<
    Option<bool>,
    Seq<char>,
> {
    if !m.contains_key(key) {
        Ok(None)
    } else {
        match m[key] {
            FieldView::Flag(flag) => Ok(Some(flag)),
            f => Err(type_problem(key, "true or false"@, f)),
        }
    }
}

/// The number of seconds under a key, by the same rule. A number that is
/// negative or absurd counts as the wrong type.
pub open spec fn seconds_in(m: Map<Seq<char>, FieldView>, key: Seq<char>) -> Result<
    Option<u32>,
    Seq<char>,
> {
    if !m.contains_key(key) {
        Ok(None)
    } else {
        match m[key] {
            FieldView::Number(n) => if 0 <= n <= u32::MAX {
                Ok(Some(n as u32))
            } else {
                Err(type_problem(key, "a whole number of seconds"@, m[key]))
            },
            f => Err(type_problem(key, "a whole number of seconds"@, f)),
        }
    }
}

/// The texts of a list, up to the first element that is none.
pub open spec fn texts_of(elements: Seq<FieldView>) -> Seq<Seq<char>> {
    elements.map_values(
        |f: FieldView|
            match f {
                FieldView::Text(text) => text,
                _ => Seq::empty(),
            },
    )
}

/// The element there is the first of the list that is no text.
pub open spec fn is_first_stranger(elements: Seq<FieldView>, i: int) -> bool {
    &&& 0 <= i < elements.len()
    &&& !(elements[i] is Text)
    &&& forall|j: int| 0 <= j < i ==> #[trigger] elements[j] is Text
}

/// The list of texts under a key: empty where the key is absent, a sentence
/// where it holds something else or where an element does.
pub open spec fn list_in(m: Map<Seq<char>, FieldView>, key: Seq<char>) -> Result<
    Seq<Seq<char>>,
    Seq<char>,
> {
    if !m.contains_key(key) {
        Ok(Seq::empty())
    } else {
        match m[key] {
            FieldView::List(elements) => if forall|i: int|
                0 <= i < elements.len() ==> #[trigger] elements[i] is Text {
                Ok(texts_of(elements))
            } else {
                Err(
                    "`"@ + key + "` should contain only strings, but it has a "@ + kind_name(
                        elements[choose|i: int| is_first_stranger(elements, i)],
                    ),
                )
            },
            f => Err(type_problem(key, "a list of strings"@, f)),
        }
    }
}

/// A word under a key: none where the key is absent, a sentence where it holds
/// something else or a word that is not known.
pub open spec fn theme_in(m: Map<Seq<char>, FieldView>) -> Result<Option<Theme>, Seq<char>> {
    match text_in(m, "theme"@) {
        Ok(Some(text)) => match theme_named(text) {
            Ok(theme) => Ok(Some(theme)),
            Err(sentence) => Err(sentence),
        },
        Ok(None) => Ok(None),
        Err(sentence) => Err(sentence),
    }
}

/// The overlay's corner, by the same rule.
pub open spec fn corner_in(m: Map<Seq<char>, FieldView>) -> Result<
    Option<OverlayCorner>,
    Seq<char>,
> {
    match text_in(m, "overlay_corner"@) {
        Ok(Some(text)) => match corner_named(text) {
            Ok(corner) => Ok(Some(corner)),
            Err(sentence) => Err(sentence),
        },
        Ok(None) => Ok(None),
        Err(sentence) => Err(sentence),
    }
}

/// The onboarding state, by the same rule.
pub open spec fn onboarded_in(m: Map<Seq<char>, FieldView>) -> Result<
    Option<Onboarded>,
    Seq<char>,
> {
    match text_in(m, "onboarded"@) {
        Ok(Some(text)) => match onboarded_named(text) {
            Ok(state) => Ok(Some(state)),
            Err(sentence) => Err(sentence),
        },
        Ok(None) => Ok(None),
        Err(sentence) => Err(sentence),
    }
}

/// A read of a text, with characters for its strings.
pub open spec fn text_read(r: Result<Option<String>, String>) -> Result<
    Option<Seq<char>>,
    Seq<char>,
> {
    match r {
        Ok(text) => Ok(opt_text(text)),
        Err(sentence) => Err(sentence@),
    }
}

/// A read of a list, with characters for its strings.
pub open spec fn list_read(r: Result<Vec<String>, String>) -> Result<Seq<Seq<char>>, Seq<char>> {
    match r {
        Ok(values) => Ok(list_view(values@)),
        Err(sentence) => Err(sentence@),
    }
}

fn type_error(key: &str, expected: &str, look: &Field) -> (r: String)
    ensures
        forall|f: FieldView| #[trigger]
            shows(*look, f) ==> r@ == type_problem(key@, expected@, f),
{
    let head = glue("`", key, "` should be ");
    let mut out = glue(&head, expected, ", but it is ");
    out.push_str(look.kind());
    out
}

/// The text under a key.
pub fn read_string(table: &Table, key: &str) -> (r: Result<Option<String>, String>)
    ensures
        text_read(r) == text_in(fields(*table), key@),
{
    match field_at(table, key) {
        None => Ok(None),
        Some(Field::Text(text)) => Ok(Some(text)),
        Some(look) => {
            proof {
                assert(shows(look, fields(*table)[key@]));
            }
            Err(type_error(key, "a string", &look))
        },
    }
}

/// The flag under a key.
pub fn read_bool(table: &Table, key: &str) -> (r: Result<Option<bool>, String>)
    ensures
        said(r) == flag_in(fields(*table), key@),
{
    match field_at(table, key) {
        None => Ok(None),
        Some(Field::Flag(flag)) => Ok(Some(flag)),
        Some(look) => {
            proof {
                assert(shows(look, fields(*table)[key@]));
            }
            Err(type_error(key, "true or false", &look))
        },
    }
}

/// The number of seconds under a key.
pub fn read_u32(table: &Table, key: &str) -> (r: Result<Option<u32>, String>)
    ensures
        said(r) == seconds_in(fields(*table), key@),
{
    match field_at(table, key) {
        None => Ok(None),
        Some(look) => {
            proof {
                assert(shows(look, fields(*table)[key@]));
            }
            if let Field::Number(n) = look {
                if 0 <= n && n <= u32::MAX as i64 {
                    return Ok(Some(n as u32));
                }
            }
            Err(type_error(key, "a whole number of seconds", &look))
        },
    }
}

/// The list of texts under a key.
pub fn read_string_list(table: &Table, key: &str) -> (r: Result<Vec<String>, String>)
    ensures
        list_read(r) == list_in(fields(*table), key@),
{
    match field_at(table, key) {
        None => {
            let none: Vec<String> = Vec::new();
            proof {
                assert(list_view(none@) =~= Seq::<Seq<char>>::empty());
            }
            return Ok(none);
        },
        Some(Field::List) => {},
        Some(look) => {
            proof {
                assert(shows(look, fields(*table)[key@]));
            }
            return Err(type_error(key, "a list of strings", &look));
        },
    }
    let ghost elements = elements_at(fields(*table), key@).unwrap();
    let mut out: Vec<String> = Vec::new();
    let mut i: usize = 0;
    loop
        invariant
            fields(*table).contains_key(key@),
            fields(*table)[key@] == FieldView::List(elements),
            elements_at(fields(*table), key@) == Some(elements),
            i <= elements.len(),
            out@.len() == i,
            forall|k: int|
                0 <= k < i ==> #[trigger] elements[k] == FieldView::Text(out@[k]@),
        decreases elements.len() - i,
    {
        match element_at(table, key, i) {
            None => {
                proof {
                    assert forall|k: int| 0 <= k < elements.len() implies #[trigger] elements[k] is Text by {
                        assert(elements[k] == FieldView::Text(out@[k]@));
                    }
                    assert(list_view(out@) =~= texts_of(elements)) by {
                        assert forall|k: int| 0 <= k < elements.len() implies list_view(out@)[k]
                            == texts_of(elements)[k] by {
                            assert(elements[k] == FieldView::Text(out@[k]@));
                        }
                    }
                }
                return Ok(out);
            },
            Some(Field::Text(text)) => {
                out.push(text);
                i = i + 1;
            },
            Some(look) => {
                proof {
                    assert forall|k: int| 0 <= k < i implies #[trigger] elements[k] is Text by {
                        assert(elements[k] == FieldView::Text(out@[k]@));
                    }
                    assert(is_first_stranger(elements, i as int));
                    let first = choose|k: int| is_first_stranger(elements, k);
                    assert(is_first_stranger(elements, first));
                    assert(first == i) by {
                        if first < i {
                            assert(elements[first] is Text);
                        } else if i < first {
                            assert(elements[i as int] is Text);
                        }
                    }
                    assert(!(elements[i as int] is Text));
                }
                let mut sentence = glue(
                    "`",
                    key,
                    "` should contain only strings, but it has a ",
                );
                sentence.push_str(look.kind());
                return Err(sentence);
            },
        }
    }
}

/// The theme the file names, if it names one.
pub fn read_theme(table: &Table) -> (r: Result<Option<Theme>, String>)
    ensures
        said(r) == theme_in(fields(*table)),
{
    match read_string(table, "theme") {
        Ok(Some(text)) => match Theme::parse(&text) {
            Ok(theme) => Ok(Some(theme)),
            Err(sentence) => Err(sentence),
        },
        Ok(None) => Ok(None),
        Err(sentence) => Err(sentence),
    }
}

/// The corner the file names, if it names one.
pub fn read_overlay_corner(table: &Table) -> (r: Result<Option<OverlayCorner>, String>)
    ensures
        said(r) == corner_in(fields(*table)),
{
    match read_string(table, "overlay_corner") {
        Ok(Some(text)) => match OverlayCorner::parse(&text) {
            Ok(corner) => Ok(Some(corner)),
            Err(sentence) => Err(sentence),
        },
        Ok(None) => Ok(None),
        Err(sentence) => Err(sentence),
    }
}

/// The onboarding state the file names, if it names one.
pub fn read_onboarded(table: &Table) -> (r: Result<Option<Onboarded>, String>)
    ensures
        said(r) == onboarded_in(fields(*table)),
{
    match read_string(table, "onboarded") {
        Ok(Some(text)) => match Onboarded::parse(&text) {
            Ok(state) => Ok(Some(state)),
            Err(sentence) => Err(sentence),
        },
        Ok(None) => Ok(None),
        Err(sentence) => Err(sentence),
    }
}

// ---------------------------------------------------------------------------
// Projects
// ---------------------------------------------------------------------------

/// The first of two problems.
pub open spec fn or_else(first: Option<Seq<char>>, second: Option<Seq<char>>) -> Option<Seq<char>> {
    match first {
        Some(problem) => Some(problem),
        None => second,
    }
}

/// What is wrong with a read, if anything is.
pub open spec fn problem<T>(r: Result<T, Seq<char>>) -> Option<Seq<char>> {
    match r {
        Ok(_) => None,
        Err(sentence) => Some(sentence),
    }
}

/// What a read gives, or the default where the key is absent.
pub open spec fn or_default<T>(r: Result<Option<T>, Seq<char>>, default: T) -> T {
    match r {
        Ok(Some(value)) => value,
        _ => default,
    }
}

/// What a read of an optional key gives.
pub open spec fn optional<T>(r: Result<Option<T>, Seq<char>>) -> Option<T> {
    match r {
        Ok(value) => value,
        Err(_) => None,
    }
}

/// What is wrong with a project's name, if anything is.
pub open spec fn name_problem(m: Map<Seq<char>, FieldView>) -> Option<Seq<char>> {
    match text_in(m, "name"@) {
        Ok(Some(_)) => None,
        Ok(None) => Some("every [[projects]] table needs a `name`"@),
        Err(sentence) => Some(sentence),
    }
}

/// The first thing that is wrong with a project's table, in the order its keys
/// are read.
pub open spec fn project_problem(m: Map<Seq<char>, FieldView>) -> Option<Seq<char>> {
    or_else(
        name_problem(m),
        or_else(
            problem(text_in(m, "notes_dir"@)),
            or_else(
                problem(text_in(m, "filename_template"@)),
                or_else(
                    problem(text_in(m, "header_template"@)),
                    or_else(
                        problem(text_in(m, "model"@)),
                        or_else(
                            problem(text_in(m, "language"@)),
                            or_else(
                                problem(list_in(m, "vocabulary"@)),
                                problem(flag_in(m, "session_dividers"@)),
                            ),
                        ),
                    ),
                ),
            ),
        ),
    )
}

/// The project a table describes, where nothing is wrong with it.
pub open spec fn project_in(m: Map<Seq<char>, FieldView>) -> ProjectView {
    let default = plain_project(Seq::empty(), Seq::empty());
    ProjectView {
        name: or_default(text_in(m, "name"@), default.name),
        notes_dir: or_default(text_in(m, "notes_dir"@), default.notes_dir),
        filename_template: or_default(text_in(m, "filename_template"@), default.filename_template),
        header_template: optional(text_in(m, "header_template"@)),
        model: optional(text_in(m, "model"@)),
        language: optional(text_in(m, "language"@)),
        vocabulary: match list_in(m, "vocabulary"@) {
            Ok(values) => values,
            Err(_) => Seq::empty(),
        },
        session_dividers: or_default(
            flag_in(m, "session_dividers"@),
            default.session_dividers,
        ),
    }
}

/// The project a table describes, or what is wrong with it.
pub fn read_project(table: &Table) -> (r: Result<Project, String>)
    ensures
        match r {
            Ok(p) => project_problem(fields(*table)) is None && p@ == project_in(fields(*table)),
            Err(sentence) => project_problem(fields(*table)) == Some(sentence@),
        },
{
    let name = match read_string(table, "name") {
        Ok(Some(name)) => name,
        Ok(None) => return Err(owned("every [[projects]] table needs a `name`")),
        Err(sentence) => return Err(sentence),
    };
    let notes_dir = match read_string(table, "notes_dir") {
        Ok(Some(dir)) => dir,
        Ok(None) => String::new(),
        Err(sentence) => return Err(sentence),
    };
    let filename_template = match read_string(table, "filename_template") {
        Ok(Some(template)) => template,
        Ok(None) => owned(DEFAULT_FILENAME_TEMPLATE),
        Err(sentence) => return Err(sentence),
    };
    let header_template = match read_string(table, "header_template") {
        Ok(template) => template,
        Err(sentence) => return Err(sentence),
    };
    let model = match read_string(table, "model") {
        Ok(model) => model,
        Err(sentence) => return Err(sentence),
    };
    let language = match read_string(table, "language") {
        Ok(language) => language,
        Err(sentence) => return Err(sentence),
    };
    let vocabulary = match read_string_list(table, "vocabulary") {
        Ok(vocabulary) => vocabulary,
        Err(sentence) => return Err(sentence),
    };
    let session_dividers = match read_bool(table, "session_dividers") {
        Ok(Some(flag)) => flag,
        Ok(None) => true,
        Err(sentence) => return Err(sentence),
    };
    Ok(
        Project {
            name,
            notes_dir,
            filename_template,
            header_template,
            model,
            language,
            vocabulary,
            session_dividers,
        },
    )
}

/// The first thing that is wrong with the first `n` tables.
pub open spec fn tables_problem(ts: Seq<Table>, n: int) -> Option<Seq<char>>
    decreases n,
{
    if n <= 0 {
        None
    } else {
        or_else(tables_problem(ts, n - 1), project_problem(fields(ts[n - 1])))
    }
}

/// The first thing that is wrong with the list of projects.
pub open spec fn projects_problem(m: Map<Seq<char>, FieldView>) -> Option<Seq<char>> {
    if !m.contains_key("projects"@) {
        None
    } else {
        match m["projects"@] {
            FieldView::Tables(ts) => tables_problem(ts, ts.len() as int),
            f => Some(type_problem("projects"@, "a list of [[projects]] tables"@, f)),
        }
    }
}

/// The projects the tables describe.
pub open spec fn projects_in(m: Map<Seq<char>, FieldView>) -> Seq<ProjectView> {
    tables_at(m, "projects"@).map_values(|t: Table| project_in(fields(t)))
}

proof fn lemma_first_table_problem(ts: Seq<Table>, i: int, n: int)
    requires
        0 <= i < n,
        tables_problem(ts, i + 1) is Some,
    ensures
        tables_problem(ts, n) == tables_problem(ts, i + 1),
    decreases n,
{
    if n > i + 1 {
        lemma_first_table_problem(ts, i, n - 1);
    }
}

/// The projects of a document, or the first thing that is wrong with them.
pub fn read_projects(root: &Table) -> (r: Result<Vec<Project>, String>)
    ensures
        match r {
            Ok(projects) => projects_problem(fields(*root)) is None && projects_view(projects@)
                == projects_in(fields(*root)),
            Err(sentence) => projects_problem(fields(*root)) == Some(sentence@),
        },
{
    let mut projects: Vec<Project> = Vec::new();
    let count: usize = match field_at(root, "projects") {
        None => {
            proof {
                assert(projects_view(projects@) =~= projects_in(fields(*root)));
            }
            return Ok(projects);
        },
        Some(look) => match table_count(root, "projects") {
            Some(count) => count,
            None => {
                proof {
                    assert(shows(look, fields(*root)["projects"@]));
                }
                return Err(type_error("projects", "a list of [[projects]] tables", &look));
            },
        },
    };
    let ghost ts = tables_at(fields(*root), "projects"@);
    let mut i: usize = 0;
    while i < count
        invariant
            i <= count,
            count == ts.len(),
            ts == tables_at(fields(*root), "projects"@),
            fields(*root).contains_key("projects"@),
            fields(*root)["projects"@] == FieldView::Tables(ts),
            tables_problem(ts, i as int) is None,
            projects@.len() == i,
            forall|k: int|
                0 <= k < i ==> (#[trigger] projects@[k])@ == project_in(fields(ts[k])),
        decreases count - i,
    {
        match table_at(root, "projects", i) {
            Some(table) => match read_project(table) {
                Ok(project) => {
                    projects.push(project);
                },
                Err(sentence) => {
                    proof {
                        assert(tables_problem(ts, i + 1) == Some(sentence@));
                        lemma_first_table_problem(ts, i as int, ts.len() as int);
                    }
                    return Err(sentence);
                },
            },
            None => {},
        }
        i = i + 1;
    }
    proof {
        assert(projects_view(projects@) =~= projects_in(fields(*root)));
    }
    Ok(projects)
}

/// The project there is the first whose name an earlier one has.
pub open spec fn is_first_twin(ps: Seq<ProjectView>, i: int) -> bool {
    &&& 0 <= i < ps.len()
    &&& exists|j: int| 0 <= j < i && (#[trigger] ps[j]).name == ps[i].name
    &&& forall|a: int, b: int|
        0 <= a < b < i ==> (#[trigger] ps[a]).name != (#[trigger] ps[b]).name
}

/// The sentence for the first name that is used twice, if one is.
pub open spec fn twin_problem(ps: Seq<ProjectView>) -> Option<Seq<char>> {
    if exists|i: int| is_first_twin(ps, i) {
        let i = choose|i: int| is_first_twin(ps, i);
        Some(
            "two projects are named \""@ + ps[i].name
                + "\"; project names are the key Sotone uses"@,
        )
    } else {
        None
    }
}

/// The sentence for the first name that is used twice, if one is.
pub fn twin_name(projects: &Vec<Project>) -> (r: Option<String>)
    ensures
        opt_text(r) == twin_problem(projects_view(projects@)),
{
    let ghost ps = projects_view(projects@);
    let mut i: usize = 0;
    while i < projects.len()
        invariant
            i <= projects@.len(),
            ps == projects_view(projects@),
            forall|a: int, b: int|
                0 <= a < b < i ==> (#[trigger] ps[a]).name != (#[trigger] ps[b]).name,
        decreases projects@.len() - i,
    {
        let mut j: usize = 0;
        proof {
            assert(ps[i as int] == projects@[i as int]@);
        }
        while j < i
            invariant
                j <= i < projects@.len(),
                ps == projects_view(projects@),
                ps[i as int] == projects@[i as int]@,
                forall|a: int, b: int|
                    0 <= a < b < i ==> (#[trigger] ps[a]).name != (#[trigger] ps[b]).name,
                forall|a: int| 0 <= a < j ==> (#[trigger] ps[a]).name != ps[i as int].name,
            decreases i - j,
        {
            proof {
                assert(ps[j as int] == projects@[j as int]@);
            }
            if same_text(&projects[j].name, &projects[i].name) {
                proof {
                    assert(is_first_twin(ps, i as int));
                    let first = choose|k: int| is_first_twin(ps, k);
                    assert(is_first_twin(ps, first));
                    assert(first == i) by {
                        if first < i {
                            let k = choose|k: int|
                                0 <= k < first && (#[trigger] ps[k]).name == ps[first].name;
                            assert(ps[k].name != ps[first].name);
                        } else if i < first {
                            assert(ps[j as int].name != ps[i as int].name);
                        }
                    }
                }
                return Some(
                    glue(
                        "two projects are named \"",
                        &projects[i].name,
                        "\"; project names are the key Sotone uses",
                    ),
                );
            }
            j = j + 1;
        }
        i = i + 1;
    }
    proof {
        assert forall|k: int| !is_first_twin(ps, k) by {
            if is_first_twin(ps, k) {
                let j = choose|j: int| 0 <= j < k && (#[trigger] ps[j]).name == ps[k].name;
                assert(ps[j].name != ps[k].name);
            }
        }
    }
    None
}

// ---------------------------------------------------------------------------
// The whole file
// ---------------------------------------------------------------------------

/// The settings of a fresh install.
pub open spec fn default_settings(models_dir: Seq<char>) -> ConfigView {
    ConfigView {
        models_dir,
        active_model: None,
        language: DEFAULT_LANGUAGE@,
        hotkey: DEFAULT_HOTKEY@,
        toggle_hotkey: DEFAULT_TOGGLE_HOTKEY@,
        ptt_enabled: true,
        toggle_enabled: true,
        mic_substring: None,
        audio_cues: true,
        overlay: true,
        overlay_corner: OverlayCorner::BottomLeft,
        reveal_seconds: DEFAULT_REVEAL_SECONDS,
        theme: Theme::Dark,
        close_quits: false,
        hide_deleted: false,
        onboarded: Onboarded::No,
        active_project: None,
        projects: Seq::empty(),
    }
}

/// The settings a file describes, where nothing is wrong with it. A key that is
/// absent has its default, except that a file without a word on onboarding
/// belongs to a user who is past it.
pub open spec fn config_in(m: Map<Seq<char>, FieldView>, models_default: Seq<char>) -> ConfigView {
    let default = default_settings(models_default);
    ConfigView {
        models_dir: or_default(text_in(m, "models_dir"@), default.models_dir),
        active_model: optional(text_in(m, "active_model"@)),
        language: or_default(text_in(m, "language"@), default.language),
        hotkey: or_default(text_in(m, "hotkey"@), default.hotkey),
        toggle_hotkey: or_default(text_in(m, "toggle_hotkey"@), default.toggle_hotkey),
        ptt_enabled: or_default(flag_in(m, "ptt_enabled"@), default.ptt_enabled),
        toggle_enabled: or_default(flag_in(m, "toggle_enabled"@), default.toggle_enabled),
        mic_substring: optional(text_in(m, "mic_substring"@)),
        audio_cues: or_default(flag_in(m, "audio_cues"@), default.audio_cues),
        overlay: or_default(flag_in(m, "overlay"@), default.overlay),
        overlay_corner: or_default(corner_in(m), default.overlay_corner),
        reveal_seconds: match seconds_in(m, "reveal_seconds"@) {
            Ok(Some(seconds)) => clamped_reveal(seconds),
            _ => default.reveal_seconds,
        },
        theme: or_default(theme_in(m), default.theme),
        close_quits: or_default(flag_in(m, "close_quits"@), default.close_quits),
        hide_deleted: or_default(flag_in(m, "hide_deleted"@), default.hide_deleted),
        onboarded: or_default(onboarded_in(m), ONBOARDED_WHEN_ABSENT),
        active_project: optional(text_in(m, "active_project"@)),
        projects: projects_in(m),
    }
}

/// What is wrong with the recording modes of a file.
pub open spec fn modes_problem(m: Map<Seq<char>, FieldView>) -> Option<Seq<char>> {
    mode_problem(
        or_default(text_in(m, "hotkey"@), DEFAULT_HOTKEY@),
        or_default(text_in(m, "toggle_hotkey"@), DEFAULT_TOGGLE_HOTKEY@),
        or_default(flag_in(m, "ptt_enabled"@), true),
        or_default(flag_in(m, "toggle_enabled"@), true),
    )
}

/// The first thing that is wrong with the keys of the recording modes, or with
/// the modes themselves.
pub open spec fn recording_problem(m: Map<Seq<char>, FieldView>) -> Option<Seq<char>> {
    or_else(
        problem(text_in(m, "hotkey"@)),
        or_else(
            problem(text_in(m, "toggle_hotkey"@)),
            or_else(
                problem(flag_in(m, "ptt_enabled"@)),
                or_else(problem(flag_in(m, "toggle_enabled"@)), modes_problem(m)),
            ),
        ),
    )
}

/// The first thing that is wrong with the keys that come after those of the
/// recording modes, in the order they are read.
pub open spec fn middle_problem(m: Map<Seq<char>, FieldView>) -> Option<Seq<char>> {
    or_else(
        problem(text_in(m, "models_dir"@)),
        or_else(
            problem(text_in(m, "active_model"@)),
            or_else(
                problem(text_in(m, "language"@)),
                or_else(
                    problem(text_in(m, "mic_substring"@)),
                    or_else(
                        problem(flag_in(m, "audio_cues"@)),
                        or_else(
                            problem(flag_in(m, "overlay"@)),
                            or_else(
                                problem(corner_in(m)),
                                problem(seconds_in(m, "reveal_seconds"@)),
                            ),
                        ),
                    ),
                ),
            ),
        ),
    )
}

/// The first thing that is wrong with the keys that are read last.
pub open spec fn last_problem(m: Map<Seq<char>, FieldView>) -> Option<Seq<char>> {
    or_else(
        problem(theme_in(m)),
        or_else(
            problem(flag_in(m, "close_quits"@)),
            or_else(
                problem(flag_in(m, "hide_deleted"@)),
                or_else(problem(onboarded_in(m)), problem(text_in(m, "active_project"@))),
            ),
        ),
    )
}

/// The first thing that is wrong with a file, if anything is.
pub open spec fn config_problem(m: Map<Seq<char>, FieldView>) -> Option<Seq<char>> {
    or_else(
        projects_problem(m),
        or_else(
            twin_problem(projects_in(m)),
            or_else(recording_problem(m), or_else(middle_problem(m), last_problem(m))),
        ),
    )
}

/// The recording modes' rule, as the error of a file.
pub fn check_recording_modes(
    hotkey: &str,
    toggle_hotkey: &str,
    ptt_enabled: bool,
    toggle_enabled: bool,
    path: &str,
) -> (r: Result<(), ConfigError>)
    ensures
        match (r, mode_problem(hotkey@, toggle_hotkey@, ptt_enabled, toggle_enabled)) {
            (Ok(_), None) => true,
            (Err(e), Some(detail)) => e@ == (ConfigErrorView::Invalid { path: path@, detail }),
            _ => false,
        },
{
    match recording_mode_problem(hotkey, toggle_hotkey, ptt_enabled, toggle_enabled) {
        Some(detail) => Err(unusable(path, detail)),
        None => Ok(()),
    }
}

/// The keys of the recording modes.
struct Modes {
    hotkey: String,
    toggle_hotkey: String,
    ptt_enabled: bool,
    toggle_enabled: bool,
}

fn read_modes(root: &Table, path: &str) -> (r: Result<Modes, ConfigError>)
    ensures
        match (r, recording_problem(fields(*root))) {
            (Ok(modes), None) => {
                let m = fields(*root);
                &&& modes.hotkey@ == or_default(text_in(m, "hotkey"@), DEFAULT_HOTKEY@)
                &&& modes.toggle_hotkey@ == or_default(
                    text_in(m, "toggle_hotkey"@),
                    DEFAULT_TOGGLE_HOTKEY@,
                )
                &&& modes.ptt_enabled == or_default(flag_in(m, "ptt_enabled"@), true)
                &&& modes.toggle_enabled == or_default(flag_in(m, "toggle_enabled"@), true)
            },
            (Err(e), Some(detail)) => e@ == (ConfigErrorView::Invalid { path: path@, detail }),
            _ => false,
        },
{
    let hotkey = match read_string(root, "hotkey") {
        Ok(Some(hotkey)) => hotkey,
        Ok(None) => owned(DEFAULT_HOTKEY),
        Err(detail) => return Err(unusable(path, detail)),
    };
    let toggle_hotkey = match read_string(root, "toggle_hotkey") {
        Ok(Some(hotkey)) => hotkey,
        Ok(None) => owned(DEFAULT_TOGGLE_HOTKEY),
        Err(detail) => return Err(unusable(path, detail)),
    };
    let ptt_enabled = match read_bool(root, "ptt_enabled") {
        Ok(Some(flag)) => flag,
        Ok(None) => true,
        Err(detail) => return Err(unusable(path, detail)),
    };
    let toggle_enabled = match read_bool(root, "toggle_enabled") {
        Ok(Some(flag)) => flag,
        Ok(None) => true,
        Err(detail) => return Err(unusable(path, detail)),
    };
    match check_recording_modes(&hotkey, &toggle_hotkey, ptt_enabled, toggle_enabled, path) {
        Ok(_) => Ok(Modes { hotkey, toggle_hotkey, ptt_enabled, toggle_enabled }),
        Err(e) => Err(e),
    }
}

/// The keys that come after those of the recording modes.
struct Middle {
    models_dir: String,
    active_model: Option<String>,
    language: String,
    mic_substring: Option<String>,
    audio_cues: bool,
    overlay: bool,
    overlay_corner: OverlayCorner,
    reveal_seconds: u32,
}

fn read_middle(root: &Table, models_default: &str) -> (r: Result<Middle, String>)
    ensures
        match r {
            Ok(middle) => {
                let c = config_in(fields(*root), models_default@);
                &&& middle_problem(fields(*root)) is None
                &&& middle.models_dir@ == c.models_dir
                &&& opt_text(middle.active_model) == c.active_model
                &&& middle.language@ == c.language
                &&& opt_text(middle.mic_substring) == c.mic_substring
                &&& middle.audio_cues == c.audio_cues
                &&& middle.overlay == c.overlay
                &&& middle.overlay_corner == c.overlay_corner
                &&& middle.reveal_seconds == c.reveal_seconds
            },
            Err(detail) => middle_problem(fields(*root)) == Some(detail@),
        },
{
    let models_dir = match read_string(root, "models_dir") {
        Ok(Some(dir)) => dir,
        Ok(None) => owned(models_default),
        Err(detail) => return Err(detail),
    };
    let active_model = match read_string(root, "active_model") {
        Ok(model) => model,
        Err(detail) => return Err(detail),
    };
    let language = match read_string(root, "language") {
        Ok(Some(language)) => language,
        Ok(None) => owned(DEFAULT_LANGUAGE),
        Err(detail) => return Err(detail),
    };
    let mic_substring = match read_string(root, "mic_substring") {
        Ok(mic) => mic,
        Err(detail) => return Err(detail),
    };
    let audio_cues = match read_bool(root, "audio_cues") {
        Ok(Some(flag)) => flag,
        Ok(None) => true,
        Err(detail) => return Err(detail),
    };
    let overlay = match read_bool(root, "overlay") {
        Ok(Some(flag)) => flag,
        Ok(None) => true,
        Err(detail) => return Err(detail),
    };
    let overlay_corner = match read_overlay_corner(root) {
        Ok(Some(corner)) => corner,
        Ok(None) => OverlayCorner::BottomLeft,
        Err(detail) => return Err(detail),
    };
    let reveal_seconds: u32 = match read_u32(root, "reveal_seconds") {
        Ok(Some(seconds)) => clamp_reveal_seconds(seconds),
        Ok(None) => DEFAULT_REVEAL_SECONDS,
        Err(detail) => return Err(detail),
    };
    Ok(
        Middle {
            models_dir,
            active_model,
            language,
            mic_substring,
            audio_cues,
            overlay,
            overlay_corner,
            reveal_seconds,
        },
    )
}

/// The keys that are read last.
struct Last {
    theme: Theme,
    close_quits: bool,
    hide_deleted: bool,
    onboarded: Onboarded,
    active_project: Option<String>,
}

fn read_last(root: &Table) -> (r: Result<Last, String>)
    ensures
        match r {
            Ok(last) => {
                let c = config_in(fields(*root), Seq::empty());
                &&& last_problem(fields(*root)) is None
                &&& last.theme == c.theme
                &&& last.close_quits == c.close_quits
                &&& last.hide_deleted == c.hide_deleted
                &&& last.onboarded == c.onboarded
                &&& opt_text(last.active_project) == c.active_project
            },
            Err(detail) => last_problem(fields(*root)) == Some(detail@),
        },
{
    let theme = match read_theme(root) {
        Ok(Some(theme)) => theme,
        Ok(None) => Theme::Dark,
        Err(detail) => return Err(detail),
    };
    let close_quits = match read_bool(root, "close_quits") {
        Ok(Some(flag)) => flag,
        Ok(None) => false,
        Err(detail) => return Err(detail),
    };
    let hide_deleted = match read_bool(root, "hide_deleted") {
        Ok(Some(flag)) => flag,
        Ok(None) => false,
        Err(detail) => return Err(detail),
    };
    let onboarded = match read_onboarded(root) {
        Ok(Some(state)) => state,
        Ok(None) => ONBOARDED_WHEN_ABSENT,
        Err(detail) => return Err(detail),
    };
    let active_project = match read_string(root, "active_project") {
        Ok(name) => name,
        Err(detail) => return Err(detail),
    };
    Ok(Last { theme, close_quits, hide_deleted, onboarded, active_project })
}

/// What loading a text comes to.
pub open spec fn is_loaded(
    r: Result<Config, ConfigError>,
    text: Seq<char>,
    path: Seq<char>,
    models_default: Seq<char>,
) -> bool {
    match (toml_parsed(text), r) {
        (Err(e), Err(said)) => said@ == (ConfigErrorView::Parse {
            path,
            reason: toml_error_text(e),
        }),
        (Ok(doc), Err(said)) => config_problem(fields(root_of(doc))) matches Some(detail) && said@
            == (ConfigErrorView::Invalid { path, detail }),
        (Ok(doc), Ok(config)) => {
            &&& config_problem(fields(root_of(doc))) is None
            &&& config@ == config_in(fields(root_of(doc)), models_default)
            &&& config.doc@ == doc
            &&& is_kept(root_of(doc))
            &&& all_placed(fields(root_of(doc)))
            &&& position_of(root_of(doc)) is None
        },
        (Err(_), Ok(_)) => false,
    }
}

/// A configuration of a fresh install: its settings, over the document a fresh
/// install starts with.
pub open spec fn is_fresh(c: Config, models_dir: Seq<char>) -> bool {
    &&& c@ == default_settings(models_dir)
    &&& is_kept(root_of(c.doc@))
    &&& all_placed(fields(root_of(c.doc@)))
    &&& match toml_parsed(DEFAULT_DOCUMENT@) {
        Ok(doc) => c.doc@ == doc,
        Err(_) => fields(root_of(c.doc@)) == nothing(),
    }
}

impl Config {
    /// The settings of a fresh install, with the models directory of this
    /// machine.
    pub fn default_in(models_dir: &str) -> (r: Config)
        ensures
            is_fresh(r, models_dir@),
    {
        let toml = match parse_document(DEFAULT_DOCUMENT) {
            Ok(doc) => doc,
            Err(_) => DocumentMut::new(),
        };
        let projects: Vec<Project> = Vec::new();
        proof {
            assert(projects_view(projects@) =~= Seq::<ProjectView>::empty());
        }
        Config {
            models_dir: owned(models_dir),
            active_model: None,
            language: owned(DEFAULT_LANGUAGE),
            hotkey: owned(DEFAULT_HOTKEY),
            toggle_hotkey: owned(DEFAULT_TOGGLE_HOTKEY),
            ptt_enabled: true,
            toggle_enabled: true,
            mic_substring: None,
            audio_cues: true,
            overlay: true,
            overlay_corner: OverlayCorner::BottomLeft,
            reveal_seconds: DEFAULT_REVEAL_SECONDS,
            theme: Theme::Dark,
            close_quits: false,
            hide_deleted: false,
            onboarded: Onboarded::No,
            active_project: None,
            projects,
            doc: Document::new(toml),
        }
    }

    /// Reads a text as a configuration. `path` is only used for errors, and
    /// `models_default` is where models are looked for unless the file says
    /// otherwise.
    pub fn from_toml_with(text: &str, path: &str, models_default: &str) -> (r: Result<
        Config,
        ConfigError,
    >)
        ensures
            is_loaded(r, text@, path@, models_default@),
    {
        let toml = match parse_document(text) {
            Ok(doc) => doc,
            Err(e) => return Err(
                ConfigError::Parse { path: owned(path), reason: toml_reason(&e) },
            ),
        };
        let root = toml.as_table();
        let projects = match read_projects(root) {
            Ok(projects) => projects,
            Err(detail) => return Err(unusable(path, detail)),
        };
        if let Some(detail) = twin_name(&projects) {
            return Err(unusable(path, detail));
        }
        let modes = match read_modes(root, path) {
            Ok(modes) => modes,
            Err(e) => return Err(e),
        };
        let middle = match read_middle(root, models_default) {
            Ok(middle) => middle,
            Err(detail) => return Err(unusable(path, detail)),
        };
        let last = match read_last(root) {
            Ok(last) => last,
            Err(detail) => return Err(unusable(path, detail)),
        };
        Ok(
            Config {
                models_dir: middle.models_dir,
                active_model: middle.active_model,
                language: middle.language,
                hotkey: modes.hotkey,
                toggle_hotkey: modes.toggle_hotkey,
                ptt_enabled: modes.ptt_enabled,
                toggle_enabled: modes.toggle_enabled,
                mic_substring: middle.mic_substring,
                audio_cues: middle.audio_cues,
                overlay: middle.overlay,
                overlay_corner: middle.overlay_corner,
                reveal_seconds: middle.reveal_seconds,
                theme: last.theme,
                close_quits: last.close_quits,
                hide_deleted: last.hide_deleted,
                onboarded: last.onboarded,
                active_project: last.active_project,
                projects,
                doc: Document::new(toml),
            },
        )
    }

    /// Reads a text as a configuration. `path` is only used for errors.
    pub fn from_toml(text: &str, path: &str) -> (r: Result<Config, ConfigError>)
        ensures
            exists|data: Option<PathView>|
                is_loaded(r, text@, path@, (#[trigger] models_dir_in(data)).text),
    {
        let models_default = path_to_string(&default_models_dir());
        Config::from_toml_with(text, path, &models_default)
    }
}

impl Default for Config {
    fn default() -> (r: Config)
        ensures
            exists|data: Option<PathView>|
                is_fresh(r, (#[trigger] models_dir_in(data)).text),
    {
        let models_default = path_to_string(&default_models_dir());
        Config::default_in(&models_default)
    }
}

} // verus!
