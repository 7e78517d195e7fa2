//! What holds of loading and saving taken together.

use crate::config::document::{
    agree_on, decors, fields, is_value, key_decors, keys_of, others_among, position_of, reads_back,
    root_of, tables_at, texts, toml_parsed, toml_text, values_agree, written_alike, FieldView,
};
use crate::config::error::ConfigError;
use crate::config::load::{
    config_in, config_problem, corner_in, default_settings, flag_in, is_loaded, last_problem, list_in,
    onboarded_in, project_in, project_problem, projects_in, recording_problem, seconds_in,
    tables_problem, text_in, texts_of, theme_in, twin_problem,
};
use crate::config::project::{names_differ, plain_project, ProjectView};
use crate::config::save::{
    base_fields, comment_stays, first_keys, is_saved, is_settled, is_sound, is_synced,
    lemma_project_keys, lemma_root_keys, loads_as, places_stay, project_keys, project_settled,
    projects_synced, put_list, put_optional, put_unless, root_keys, second_keys, touched,
    with_first, with_project, with_second,
};
use crate::config::settings::{Config, ConfigView};
use crate::config::words::{
    a_corner_is_read_back, a_theme_is_read_back, clamped_reveal, corner_word, mode_problem,
    onboarded_word, onboarding_is_read_back, the_default_bindings_differ, theme_word,
    DEFAULT_HOTKEY, DEFAULT_LANGUAGE, DEFAULT_REVEAL_SECONDS, DEFAULT_TOGGLE_HOTKEY,
    MAX_REVEAL_SECONDS, MIN_REVEAL_SECONDS, ONBOARDED_WHEN_ABSENT, OverlayCorner, Theme,
};
use toml_edit::Table;
use vstd::prelude::*;

verus! {

/// Where the key is there at all, a value stands under it.
pub open spec fn value_or_absent(m: Map<Seq<char>, FieldView>, key: Seq<char>) -> bool {
    m.contains_key(key) ==> is_value(m[key])
}

/// Every key of ours in a project's table holds a value.
pub open spec fn project_editable(m: Map<Seq<char>, FieldView>) -> bool {
    forall|key: Seq<char>| project_keys().contains(key) ==> #[trigger] value_or_absent(m, key)
}

/// A document settings can be written into and read back from: what we may have
/// to remove is ours to remove.
pub open spec fn editable(m: Map<Seq<char>, FieldView>) -> bool {
    &&& value_or_absent(m, "active_model"@)
    &&& value_or_absent(m, "mic_substring"@)
    &&& value_or_absent(m, "active_project"@)
    &&& m.contains_key("projects"@) ==> m["projects"@] is Tables
    &&& forall|i: int|
        0 <= i < tables_at(m, "projects"@).len() ==> project_editable(
            fields(#[trigger] tables_at(m, "projects"@)[i]),
        )
}

/// Settings a file may hold: projects by different names, and a way to record.
pub open spec fn savable(c: ConfigView) -> bool {
    &&& names_differ(c.projects)
    &&& mode_problem(c.hotkey, c.toggle_hotkey, c.ptt_enabled, c.toggle_enabled) is None
}

/// The settings as a file holds them.
pub open spec fn as_saved(c: ConfigView) -> ConfigView {
    ConfigView { reveal_seconds: clamped_reveal(c.reveal_seconds), ..c }
}

// ---------------------------------------------------------------------------
// One project
// ---------------------------------------------------------------------------

proof fn lemma_texts_read_back(values: Seq<Seq<char>>, m: Map<Seq<char>, FieldView>, key: Seq<char>)
    requires
        m.contains_key(key),
        m[key] == texts(values),
    ensures
        list_in(m, key) == Ok::<Seq<Seq<char>>, Seq<char>>(values),
{
    let elements = values.map_values(|v: Seq<char>| FieldView::Text(v));
    assert(m[key] == FieldView::List(elements));
    assert forall|i: int| 0 <= i < elements.len() implies #[trigger] elements[i] is Text by {
        assert(elements[i] == FieldView::Text(values[i]));
    }
    assert(texts_of(elements) =~= values);
}

/// A project is read back from the table it was written into.
pub proof fn a_saved_project_loads_as_it_was(m: Map<Seq<char>, FieldView>, p: ProjectView)
    requires
        project_editable(m),
    ensures
        project_problem(with_project(m, p)) is None,
        project_in(with_project(m, p)) == p,
{
    lemma_project_keys();
    let after = with_project(m, p);
    assert(value_or_absent(m, "header_template"@));
    assert(value_or_absent(m, "model"@));
    assert(value_or_absent(m, "language"@));
    if after.contains_key("vocabulary"@) {
        lemma_texts_read_back(p.vocabulary, after, "vocabulary"@);
    } else {
        assert(p.vocabulary =~= Seq::<Seq<char>>::empty());
    }
    let read = project_in(after);
    assert(read.name == p.name);
    assert(read.notes_dir == p.notes_dir);
    assert(read.filename_template == p.filename_template);
    assert(read.header_template == p.header_template);
    assert(read.model == p.model);
    assert(read.language == p.language);
    assert(read.vocabulary == p.vocabulary);
    assert(read.session_dividers == p.session_dividers);
}

/// A project's table that was written is as a save would leave it.
pub proof fn a_saved_project_is_settled(m: Map<Seq<char>, FieldView>, p: ProjectView)
    ensures
        project_settled(with_project(m, p), p),
{
    lemma_project_keys();
    let after = with_project(m, p);
    let default = plain_project(Seq::empty(), Seq::empty());
    assert(after.insert("name"@, FieldView::Text(p.name)) =~= after);
    assert(put_unless(
        after,
        "notes_dir"@,
        FieldView::Text(p.notes_dir),
        FieldView::Text(default.notes_dir),
    ) =~= after);
    assert(put_unless(
        after,
        "filename_template"@,
        FieldView::Text(p.filename_template),
        FieldView::Text(default.filename_template),
    ) =~= after);
    assert(put_optional(after, "header_template"@, p.header_template) =~= after);
    assert(put_optional(after, "model"@, p.model) =~= after);
    assert(put_optional(after, "language"@, p.language) =~= after);
    assert(put_list(after, "vocabulary"@, p.vocabulary) =~= after);
    assert(put_unless(
        after,
        "session_dividers"@,
        FieldView::Flag(p.session_dividers),
        FieldView::Flag(default.session_dividers),
    ) =~= after);
}

/// A project's table that loads is as a save would leave it.
pub proof fn a_loaded_project_is_settled(m: Map<Seq<char>, FieldView>)
    requires
        project_problem(m) is None,
    ensures
        project_settled(m, project_in(m)),
{
    let p = project_in(m);
    let default = plain_project(Seq::empty(), Seq::empty());
    assert(m.insert("name"@, FieldView::Text(p.name)) =~= m);
    assert(put_unless(
        m,
        "notes_dir"@,
        FieldView::Text(p.notes_dir),
        FieldView::Text(default.notes_dir),
    ) =~= m);
    assert(put_unless(
        m,
        "filename_template"@,
        FieldView::Text(p.filename_template),
        FieldView::Text(default.filename_template),
    ) =~= m);
    assert(put_optional(m, "header_template"@, p.header_template) =~= m);
    assert(put_optional(m, "model"@, p.model) =~= m);
    assert(put_optional(m, "language"@, p.language) =~= m);
    if m.contains_key("vocabulary"@) {
        let elements = match m["vocabulary"@] {
            FieldView::List(elements) => elements,
            _ => Seq::empty(),
        };
        assert(m["vocabulary"@] == FieldView::List(elements));
        assert(p.vocabulary == texts_of(elements));
        let written = p.vocabulary.map_values(|v: Seq<char>| FieldView::Text(v));
        assert(written =~= elements) by {
            assert forall|i: int| 0 <= i < elements.len() implies written[i] == elements[i] by {
                assert(elements[i] is Text);
            }
        }
        assert(texts(p.vocabulary) == m["vocabulary"@]);
    }
    assert(put_list(m, "vocabulary"@, p.vocabulary) =~= m);
    assert(put_unless(
        m,
        "session_dividers"@,
        FieldView::Flag(p.session_dividers),
        FieldView::Flag(default.session_dividers),
    ) =~= m);
}

// ---------------------------------------------------------------------------
// The settings
// ---------------------------------------------------------------------------

/// The document holds the first half of the settings: under each key what a save
/// puts there, or nothing where that is the default.
spec fn holds_first(
    m: Map<Seq<char>, FieldView>,
    c: ConfigView,
    models_default: Seq<char>,
) -> bool {
    &&& holds_unless(
        m,
        "models_dir"@,
        FieldView::Text(c.models_dir),
        FieldView::Text(models_default),
    )
    &&& holds_optional(m, "active_model"@, c.active_model)
    &&& holds_unless(
        m,
        "language"@,
        FieldView::Text(c.language),
        FieldView::Text(DEFAULT_LANGUAGE@),
    )
    &&& holds_unless(m, "hotkey"@, FieldView::Text(c.hotkey), FieldView::Text(DEFAULT_HOTKEY@))
    &&& holds_unless(
        m,
        "toggle_hotkey"@,
        FieldView::Text(c.toggle_hotkey),
        FieldView::Text(DEFAULT_TOGGLE_HOTKEY@),
    )
    &&& holds_unless(m, "ptt_enabled"@, FieldView::Flag(c.ptt_enabled), FieldView::Flag(true))
    &&& holds_unless(m, "toggle_enabled"@, FieldView::Flag(c.toggle_enabled), FieldView::Flag(true))
    &&& holds_optional(m, "mic_substring"@, c.mic_substring)
    &&& holds_unless(m, "audio_cues"@, FieldView::Flag(c.audio_cues), FieldView::Flag(true))
}

/// The document holds the second half of the settings.
spec fn holds_second(
    m: Map<Seq<char>, FieldView>,
    c: ConfigView,
    models_default: Seq<char>,
) -> bool {
    &&& holds_unless(m, "overlay"@, FieldView::Flag(c.overlay), FieldView::Flag(true))
    &&& holds_unless(
        m,
        "overlay_corner"@,
        FieldView::Text(corner_word(c.overlay_corner)),
        FieldView::Text(corner_word(OverlayCorner::BottomLeft)),
    )
    &&& holds_unless(
        m,
        "reveal_seconds"@,
        FieldView::Number(clamped_reveal(c.reveal_seconds) as i64),
        FieldView::Number(DEFAULT_REVEAL_SECONDS as i64),
    )
    &&& holds_unless(
        m,
        "theme"@,
        FieldView::Text(theme_word(c.theme)),
        FieldView::Text(theme_word(Theme::Dark)),
    )
    &&& holds_unless(m, "close_quits"@, FieldView::Flag(c.close_quits), FieldView::Flag(false))
    &&& holds_unless(m, "hide_deleted"@, FieldView::Flag(c.hide_deleted), FieldView::Flag(false))
    &&& holds_unless(
        m,
        "onboarded"@,
        FieldView::Text(onboarded_word(c.onboarded)),
        FieldView::Text(onboarded_word(ONBOARDED_WHEN_ABSENT)),
    )
    &&& holds_optional(m, "active_project"@, c.active_project)
}

spec fn holds_unless(
    m: Map<Seq<char>, FieldView>,
    key: Seq<char>,
    value: FieldView,
    default: FieldView,
) -> bool {
    if m.contains_key(key) {
        m[key] == value
    } else {
        value == default
    }
}

spec fn holds_optional(
    m: Map<Seq<char>, FieldView>,
    key: Seq<char>,
    value: Option<Seq<char>>,
) -> bool {
    match value {
        Some(text) => m.contains_key(key) && m[key] == FieldView::Text(text),
        None => m.contains_key(key) ==> !is_value(m[key]),
    }
}

proof fn lemma_first_saved(m: Map<Seq<char>, FieldView>, c: ConfigView, models_default: Seq<char>)
    ensures
        holds_first(with_first(m, c, models_default), c, models_default),
        value_or_absent(m, "active_model"@) ==> value_or_absent(
            with_first(m, c, models_default),
            "active_model"@,
        ),
        value_or_absent(m, "mic_substring"@) ==> value_or_absent(
            with_first(m, c, models_default),
            "mic_substring"@,
        ),
        forall|k: Seq<char>|
            !first_keys().contains(k) ==> #[trigger] agree_on(
                m,
                with_first(m, c, models_default),
                k,
            ),
{
    lemma_root_keys();
}

proof fn lemma_second_saved(m: Map<Seq<char>, FieldView>, c: ConfigView, models_default: Seq<char>)
    ensures
        holds_second(with_second(m, c), c, models_default),
        value_or_absent(m, "active_project"@) ==> value_or_absent(
            with_second(m, c),
            "active_project"@,
        ),
        forall|k: Seq<char>|
            !second_keys().contains(k) ==> #[trigger] agree_on(m, with_second(m, c), k),
{
    lemma_root_keys();
}

/// What the document holds once the settings are written into it.
proof fn lemma_settings_saved(
    m: Map<Seq<char>, FieldView>,
    c: ConfigView,
    models_default: Seq<char>,
    after: Map<Seq<char>, FieldView>,
)
    requires
        is_synced(m, after, c, models_default),
    ensures
        holds_first(after, c, models_default),
        holds_second(after, c, models_default),
        editable(m) ==> value_or_absent(after, "active_model"@) && value_or_absent(
            after,
            "mic_substring"@,
        ) && value_or_absent(after, "active_project"@),
        agree_on(m, with_second(with_first(m, c, models_default), c), "projects"@),
{
    let mid = with_first(m, c, models_default);
    let last = with_second(mid, c);
    lemma_first_saved(m, c, models_default);
    lemma_second_saved(mid, c, models_default);
    lemma_root_keys();
    assert(agree_on(m, mid, "projects"@));
    assert(agree_on(mid, last, "projects"@));
    assert(agree_on(m, mid, "active_project"@));
    lemma_carried(mid, last, after, "models_dir"@, c.projects);
    lemma_carried(mid, last, after, "active_model"@, c.projects);
    lemma_carried(mid, last, after, "language"@, c.projects);
    lemma_carried(mid, last, after, "hotkey"@, c.projects);
    lemma_carried(mid, last, after, "toggle_hotkey"@, c.projects);
    lemma_carried(mid, last, after, "ptt_enabled"@, c.projects);
    lemma_carried(mid, last, after, "toggle_enabled"@, c.projects);
    lemma_carried(mid, last, after, "mic_substring"@, c.projects);
    lemma_carried(mid, last, after, "audio_cues"@, c.projects);
    lemma_kept_apart(last, after, "overlay"@, c.projects);
    lemma_kept_apart(last, after, "overlay_corner"@, c.projects);
    lemma_kept_apart(last, after, "reveal_seconds"@, c.projects);
    lemma_kept_apart(last, after, "theme"@, c.projects);
    lemma_kept_apart(last, after, "close_quits"@, c.projects);
    lemma_kept_apart(last, after, "hide_deleted"@, c.projects);
    lemma_kept_apart(last, after, "onboarded"@, c.projects);
    lemma_kept_apart(last, after, "active_project"@, c.projects);
}

proof fn lemma_carried(
    mid: Map<Seq<char>, FieldView>,
    last: Map<Seq<char>, FieldView>,
    after: Map<Seq<char>, FieldView>,
    key: Seq<char>,
    ps: Seq<ProjectView>,
)
    requires
        agree_on(mid, last, key),
        projects_synced(last, after, ps),
        key != "projects"@,
    ensures
        agree_on(mid, after, key),
{
}

proof fn lemma_kept_apart(
    last: Map<Seq<char>, FieldView>,
    after: Map<Seq<char>, FieldView>,
    key: Seq<char>,
    ps: Seq<ProjectView>,
)
    requires
        projects_synced(last, after, ps),
        key != "projects"@,
    ensures
        agree_on(last, after, key),
{
}

/// What a save wrote is as a save would leave it: saving twice in a row changes
/// nothing the second time.
pub proof fn a_save_is_settled(
    m: Map<Seq<char>, FieldView>,
    after: Map<Seq<char>, FieldView>,
    c: ConfigView,
    models_default: Seq<char>,
)
    requires
        is_synced(m, after, c, models_default),
    ensures
        is_settled(after, c, models_default),
{
    lemma_settings_saved(m, c, models_default, after);
    assert(put_unless(
        after,
        "models_dir"@,
        FieldView::Text(c.models_dir),
        FieldView::Text(models_default),
    ) =~= after);
    assert(put_optional(after, "active_model"@, c.active_model) =~= after);
    assert(put_unless(
        after,
        "language"@,
        FieldView::Text(c.language),
        FieldView::Text(DEFAULT_LANGUAGE@),
    ) =~= after);
    assert(put_unless(
        after,
        "hotkey"@,
        FieldView::Text(c.hotkey),
        FieldView::Text(DEFAULT_HOTKEY@),
    ) =~= after);
    assert(put_unless(
        after,
        "toggle_hotkey"@,
        FieldView::Text(c.toggle_hotkey),
        FieldView::Text(DEFAULT_TOGGLE_HOTKEY@),
    ) =~= after);
    assert(put_unless(
        after,
        "ptt_enabled"@,
        FieldView::Flag(c.ptt_enabled),
        FieldView::Flag(true),
    ) =~= after);
    assert(put_unless(
        after,
        "toggle_enabled"@,
        FieldView::Flag(c.toggle_enabled),
        FieldView::Flag(true),
    ) =~= after);
    assert(put_optional(after, "mic_substring"@, c.mic_substring) =~= after);
    assert(put_unless(
        after,
        "audio_cues"@,
        FieldView::Flag(c.audio_cues),
        FieldView::Flag(true),
    ) =~= after);
    assert(put_unless(
        after,
        "overlay"@,
        FieldView::Flag(c.overlay),
        FieldView::Flag(true),
    ) =~= after);
    assert(put_unless(
        after,
        "overlay_corner"@,
        FieldView::Text(corner_word(c.overlay_corner)),
        FieldView::Text(corner_word(OverlayCorner::BottomLeft)),
    ) =~= after);
    assert(put_unless(
        after,
        "reveal_seconds"@,
        FieldView::Number(clamped_reveal(c.reveal_seconds) as i64),
        FieldView::Number(DEFAULT_REVEAL_SECONDS as i64),
    ) =~= after);
    assert(put_unless(
        after,
        "theme"@,
        FieldView::Text(theme_word(c.theme)),
        FieldView::Text(theme_word(Theme::Dark)),
    ) =~= after);
    assert(put_unless(
        after,
        "close_quits"@,
        FieldView::Flag(c.close_quits),
        FieldView::Flag(false),
    ) =~= after);
    assert(put_unless(
        after,
        "hide_deleted"@,
        FieldView::Flag(c.hide_deleted),
        FieldView::Flag(false),
    ) =~= after);
    assert(put_unless(
        after,
        "onboarded"@,
        FieldView::Text(onboarded_word(c.onboarded)),
        FieldView::Text(onboarded_word(ONBOARDED_WHEN_ABSENT)),
    ) =~= after);
    assert(put_optional(after, "active_project"@, c.active_project) =~= after);
    let base = tables_at(with_second(with_first(m, c, models_default), c), "projects"@);
    if c.projects.len() > 0 {
        let ts = tables_at(after, "projects"@);
        assert forall|i: int| 0 <= i < c.projects.len() implies project_settled(
            fields(#[trigger] ts[i]),
            c.projects[i],
        ) by {
            a_saved_project_is_settled(base_fields(base, i), c.projects[i]);
        }
    }
}

proof fn lemma_tables_problem_none(ts: Seq<Table>, n: int)
    requires
        tables_problem(ts, n) is None,
        n <= ts.len(),
    ensures
        forall|i: int| 0 <= i < n ==> project_problem(fields(#[trigger] ts[i])) is None,
    decreases n,
{
    if n > 0 {
        lemma_tables_problem_none(ts, n - 1);
    }
}

proof fn lemma_tables_without_problem(ts: Seq<Table>, n: int)
    requires
        n <= ts.len(),
        forall|i: int| 0 <= i < n ==> project_problem(fields(#[trigger] ts[i])) is None,
    ensures
        tables_problem(ts, n) is None,
    decreases n,
{
    if n > 0 {
        lemma_tables_without_problem(ts, n - 1);
    }
}

proof fn lemma_loaded_project_editable(m: Map<Seq<char>, FieldView>)
    requires
        project_problem(m) is None,
    ensures
        project_editable(m),
{
    assert forall|key: Seq<char>| project_keys().contains(key) implies #[trigger] value_or_absent(
        m,
        key,
    ) by {
        assert(key == "name"@ || key == "notes_dir"@ || key == "filename_template"@ || key
            == "header_template"@ || key == "model"@ || key == "language"@ || key == "vocabulary"@
            || key == "session_dividers"@);
    }
}

/// A document that loads is one that settings can be written into.
pub proof fn a_loaded_document_is_editable(m: Map<Seq<char>, FieldView>)
    requires
        config_problem(m) is None,
    ensures
        editable(m),
{
    let ts = tables_at(m, "projects"@);
    if m.contains_key("projects"@) {
        lemma_tables_problem_none(ts, ts.len() as int);
        assert forall|i: int| 0 <= i < ts.len() implies project_editable(
            fields(#[trigger] ts[i]),
        ) by {
            lemma_loaded_project_editable(fields(ts[i]));
        }
    }
}

proof fn lemma_base_editable(
    m: Map<Seq<char>, FieldView>,
    last: Map<Seq<char>, FieldView>,
    i: int,
)
    requires
        editable(m),
        agree_on(m, last, "projects"@),
        i >= 0,
    ensures
        project_editable(base_fields(tables_at(last, "projects"@), i)),
{
    assert(tables_at(last, "projects"@) == tables_at(m, "projects"@));
}

/// A document that was saved is one that settings can be written into.
pub proof fn a_saved_document_stays_editable(
    m: Map<Seq<char>, FieldView>,
    after: Map<Seq<char>, FieldView>,
    c: ConfigView,
    models_default: Seq<char>,
)
    requires
        editable(m),
        is_synced(m, after, c, models_default),
    ensures
        editable(after),
{
    lemma_settings_saved(m, c, models_default, after);
    let last = with_second(with_first(m, c, models_default), c);
    let base = tables_at(last, "projects"@);
    let ts = tables_at(after, "projects"@);
    if c.projects.len() > 0 {
        assert forall|i: int| 0 <= i < ts.len() implies project_editable(
            fields(#[trigger] ts[i]),
        ) by {
            lemma_base_editable(m, last, i);
            a_saved_project_loads_as_it_was(base_fields(base, i), c.projects[i]);
            lemma_loaded_project_editable(fields(ts[i]));
        }
    }
}

/// The settings that were written into a document are read back from it, with
/// the reveal brought into its range.
pub proof fn a_saved_configuration_loads_as_it_was(
    m: Map<Seq<char>, FieldView>,
    after: Map<Seq<char>, FieldView>,
    c: ConfigView,
    models_default: Seq<char>,
)
    requires
        editable(m),
        savable(c),
        is_synced(m, after, c, models_default),
    ensures
        config_problem(after) is None,
        config_in(after, models_default) == as_saved(c),
{
    lemma_settings_saved(m, c, models_default, after);
    let last = with_second(with_first(m, c, models_default), c);
    let base = tables_at(last, "projects"@);
    let ts = tables_at(after, "projects"@);
    if c.projects.len() > 0 {
        assert forall|i: int| 0 <= i < ts.len() implies project_problem(
            fields(#[trigger] ts[i]),
        ) is None && project_in(fields(ts[i])) == c.projects[i] by {
            lemma_base_editable(m, last, i);
            a_saved_project_loads_as_it_was(base_fields(base, i), c.projects[i]);
        }
        lemma_tables_without_problem(ts, ts.len() as int);
    }
    assert(projects_in(after) =~= c.projects);
    assert(twin_problem(c.projects) is None) by {
        assert forall|i: int| !crate::config::load::is_first_twin(c.projects, i) by {
            if crate::config::load::is_first_twin(c.projects, i) {
                let j = choose|j: int|
                    0 <= j < i && (#[trigger] c.projects[j]).name == c.projects[i].name;
                assert(c.projects[j].name != c.projects[i].name);
            }
        }
    }
    lemma_loaded_first(after, c, models_default);
    lemma_loaded_second(after, c, models_default);
}

proof fn lemma_loaded_first(m: Map<Seq<char>, FieldView>, c: ConfigView, models_default: Seq<char>)
    requires
        holds_first(m, c, models_default),
        value_or_absent(m, "active_model"@),
        value_or_absent(m, "mic_substring"@),
        mode_problem(c.hotkey, c.toggle_hotkey, c.ptt_enabled, c.toggle_enabled) is None,
    ensures
        recording_problem(m) is None,
        ({
            let read = config_in(m, models_default);
            &&& read.models_dir == c.models_dir
            &&& read.active_model == c.active_model
            &&& read.language == c.language
            &&& read.hotkey == c.hotkey
            &&& read.toggle_hotkey == c.toggle_hotkey
            &&& read.ptt_enabled == c.ptt_enabled
            &&& read.toggle_enabled == c.toggle_enabled
            &&& read.mic_substring == c.mic_substring
            &&& read.audio_cues == c.audio_cues
        }),
        text_in(m, "models_dir"@) is Ok,
        text_in(m, "active_model"@) is Ok,
        text_in(m, "language"@) is Ok,
        text_in(m, "mic_substring"@) is Ok,
        flag_in(m, "audio_cues"@) is Ok,
{
}

proof fn lemma_loaded_second(m: Map<Seq<char>, FieldView>, c: ConfigView, models_default: Seq<char>)
    requires
        holds_second(m, c, models_default),
        value_or_absent(m, "active_project"@),
    ensures
        last_problem(m) is None,
        ({
            let read = config_in(m, models_default);
            &&& read.overlay == c.overlay
            &&& read.overlay_corner == c.overlay_corner
            &&& read.reveal_seconds == clamped_reveal(c.reveal_seconds)
            &&& read.theme == c.theme
            &&& read.close_quits == c.close_quits
            &&& read.hide_deleted == c.hide_deleted
            &&& read.onboarded == c.onboarded
            &&& read.active_project == c.active_project
        }),
        flag_in(m, "overlay"@) is Ok,
        corner_in(m) is Ok,
        seconds_in(m, "reveal_seconds"@) is Ok,
{
    a_theme_is_read_back(c.theme);
    a_theme_is_read_back(Theme::Dark);
    a_corner_is_read_back(c.overlay_corner);
    a_corner_is_read_back(OverlayCorner::BottomLeft);
    onboarding_is_read_back(c.onboarded);
    onboarding_is_read_back(ONBOARDED_WHEN_ABSENT);
}

// ---------------------------------------------------------------------------
// Through the text
// ---------------------------------------------------------------------------

proof fn lemma_project_agrees(a: Map<Seq<char>, FieldView>, b: Map<Seq<char>, FieldView>)
    requires
        forall|key: Seq<char>| project_keys().contains(key) ==> #[trigger] agree_on(a, b, key),
    ensures
        project_problem(a) == project_problem(b),
        project_in(a) == project_in(b),
{
    assert(agree_on(a, b, "name"@));
    assert(agree_on(a, b, "notes_dir"@));
    assert(agree_on(a, b, "filename_template"@));
    assert(agree_on(a, b, "header_template"@));
    assert(agree_on(a, b, "model"@));
    assert(agree_on(a, b, "language"@));
    assert(agree_on(a, b, "vocabulary"@));
    assert(agree_on(a, b, "session_dividers"@));
}

/// A table that reads back as another was written loads the same settings.
pub proof fn what_reads_back_loads_the_same(a: Table, b: Table, models_default: Seq<char>)
    requires
        config_problem(fields(a)) is None,
        reads_back(a, b),
    ensures
        config_problem(fields(b)) is None,
        config_in(fields(b), models_default) == config_in(fields(a), models_default),
{
    let (old_fields, new_fields) = (fields(a), fields(b));
    assert(agree_on(old_fields, new_fields, "models_dir"@));
    assert(agree_on(old_fields, new_fields, "active_model"@));
    assert(agree_on(old_fields, new_fields, "language"@));
    assert(agree_on(old_fields, new_fields, "hotkey"@));
    assert(agree_on(old_fields, new_fields, "toggle_hotkey"@));
    assert(agree_on(old_fields, new_fields, "ptt_enabled"@));
    assert(agree_on(old_fields, new_fields, "toggle_enabled"@));
    assert(agree_on(old_fields, new_fields, "mic_substring"@));
    assert(agree_on(old_fields, new_fields, "audio_cues"@));
    assert(agree_on(old_fields, new_fields, "overlay"@));
    assert(agree_on(old_fields, new_fields, "overlay_corner"@));
    assert(agree_on(old_fields, new_fields, "reveal_seconds"@));
    assert(agree_on(old_fields, new_fields, "theme"@));
    assert(agree_on(old_fields, new_fields, "close_quits"@));
    assert(agree_on(old_fields, new_fields, "hide_deleted"@));
    assert(agree_on(old_fields, new_fields, "onboarded"@));
    assert(agree_on(old_fields, new_fields, "active_project"@));
    let ts = tables_at(old_fields, "projects"@);
    let us = tables_at(new_fields, "projects"@);
    if old_fields.contains_key("projects"@) {
        assert(old_fields["projects"@] is Tables);
        lemma_tables_problem_none(ts, ts.len() as int);
        assert forall|i: int| 0 <= i < us.len() implies project_problem(
            fields(#[trigger] us[i]),
        ) is None && project_in(fields(us[i])) == project_in(fields(ts[i])) by {
            lemma_loaded_project_editable(fields(ts[i]));
            assert(values_agree(ts[i], us[i]));
            assert forall|key: Seq<char>| project_keys().contains(key) implies #[trigger] agree_on(
                fields(ts[i]),
                fields(us[i]),
                key,
            ) by {
                assert(value_or_absent(fields(ts[i]), key));
            }
            lemma_project_agrees(fields(ts[i]), fields(us[i]));
            assert(project_problem(fields(ts[i])) is None);
        }
        lemma_tables_without_problem(us, us.len() as int);
    } else {
        assert(agree_on(old_fields, new_fields, "projects"@));
    }
    assert(projects_in(old_fields) =~= projects_in(new_fields));
}

// ---------------------------------------------------------------------------
// An unchanged file
// ---------------------------------------------------------------------------

/// The words of a file are spelled as a save spells them, its reveal is in range,
/// and its list of projects is not there just to be empty.
pub open spec fn is_canonical(m: Map<Seq<char>, FieldView>) -> bool {
    &&& m.contains_key("theme"@) ==> (theme_in(m) matches Ok(Some(t)) && m["theme"@]
        == FieldView::Text(theme_word(t)))
    &&& m.contains_key("overlay_corner"@) ==> (corner_in(m) matches Ok(Some(corner))
        && m["overlay_corner"@] == FieldView::Text(corner_word(corner)))
    &&& m.contains_key("onboarded"@) ==> (onboarded_in(m) matches Ok(Some(state)) && m["onboarded"@]
        == FieldView::Text(onboarded_word(state)))
    &&& m.contains_key("reveal_seconds"@) ==> (m["reveal_seconds"@] matches FieldView::Number(n)
        && MIN_REVEAL_SECONDS <= n <= MAX_REVEAL_SECONDS)
    &&& m.contains_key("projects"@) ==> tables_at(m, "projects"@).len() > 0
}

/// A file that loads and is spelled as a save spells it is as a save would leave
/// it: saving without a change leaves the document as it is.
pub proof fn a_loaded_file_is_settled(m: Map<Seq<char>, FieldView>, models_default: Seq<char>)
    requires
        config_problem(m) is None,
        is_canonical(m),
    ensures
        is_settled(m, config_in(m, models_default), models_default),
{
    let c = config_in(m, models_default);
    assert(put_unless(
        m,
        "models_dir"@,
        FieldView::Text(c.models_dir),
        FieldView::Text(models_default),
    ) =~= m);
    assert(put_optional(m, "active_model"@, c.active_model) =~= m);
    assert(put_unless(
        m,
        "language"@,
        FieldView::Text(c.language),
        FieldView::Text(DEFAULT_LANGUAGE@),
    ) =~= m);
    assert(put_unless(
        m,
        "hotkey"@,
        FieldView::Text(c.hotkey),
        FieldView::Text(DEFAULT_HOTKEY@),
    ) =~= m);
    assert(put_unless(
        m,
        "toggle_hotkey"@,
        FieldView::Text(c.toggle_hotkey),
        FieldView::Text(DEFAULT_TOGGLE_HOTKEY@),
    ) =~= m);
    assert(put_unless(
        m,
        "ptt_enabled"@,
        FieldView::Flag(c.ptt_enabled),
        FieldView::Flag(true),
    ) =~= m);
    assert(put_unless(
        m,
        "toggle_enabled"@,
        FieldView::Flag(c.toggle_enabled),
        FieldView::Flag(true),
    ) =~= m);
    assert(put_optional(m, "mic_substring"@, c.mic_substring) =~= m);
    assert(put_unless(
        m,
        "audio_cues"@,
        FieldView::Flag(c.audio_cues),
        FieldView::Flag(true),
    ) =~= m);
    assert(put_unless(
        m,
        "overlay"@,
        FieldView::Flag(c.overlay),
        FieldView::Flag(true),
    ) =~= m);
    assert(put_unless(
        m,
        "overlay_corner"@,
        FieldView::Text(corner_word(c.overlay_corner)),
        FieldView::Text(corner_word(OverlayCorner::BottomLeft)),
    ) =~= m);
    assert(put_unless(
        m,
        "reveal_seconds"@,
        FieldView::Number(clamped_reveal(c.reveal_seconds) as i64),
        FieldView::Number(DEFAULT_REVEAL_SECONDS as i64),
    ) =~= m);
    assert(put_unless(
        m,
        "theme"@,
        FieldView::Text(theme_word(c.theme)),
        FieldView::Text(theme_word(Theme::Dark)),
    ) =~= m);
    assert(put_unless(
        m,
        "close_quits"@,
        FieldView::Flag(c.close_quits),
        FieldView::Flag(false),
    ) =~= m);
    assert(put_unless(
        m,
        "hide_deleted"@,
        FieldView::Flag(c.hide_deleted),
        FieldView::Flag(false),
    ) =~= m);
    assert(put_unless(
        m,
        "onboarded"@,
        FieldView::Text(onboarded_word(c.onboarded)),
        FieldView::Text(onboarded_word(ONBOARDED_WHEN_ABSENT)),
    ) =~= m);
    assert(put_optional(m, "active_project"@, c.active_project) =~= m);
    let ts = tables_at(m, "projects"@);
    if m.contains_key("projects"@) {
        lemma_tables_problem_none(ts, ts.len() as int);
        assert forall|i: int| 0 <= i < c.projects.len() implies project_settled(
            fields(#[trigger] ts[i]),
            c.projects[i],
        ) by {
            a_loaded_project_is_settled(fields(ts[i]));
        }
    }
}

// ---------------------------------------------------------------------------
// Through the file
// ---------------------------------------------------------------------------

/// The settings a save wrote are read back from the text it wrote: where the
/// text reads back as the document was, loading it gives the settings that were
/// saved, with the reveal brought into its range.
pub proof fn a_save_is_read_back(
    before: Table,
    after: Table,
    again: Table,
    c: ConfigView,
    models_default: Seq<char>,
)
    requires
        editable(fields(before)),
        savable(c),
        is_synced(fields(before), fields(after), c, models_default),
        reads_back(after, again),
    ensures
        config_problem(fields(again)) is None,
        config_in(fields(again), models_default) == as_saved(c),
{
    a_saved_configuration_loads_as_it_was(fields(before), fields(after), c, models_default);
    what_reads_back_loads_the_same(after, again, models_default);
}

/// The settings of a fresh install are settings a file may hold.
pub proof fn a_fresh_install_can_be_saved(models_dir: Seq<char>)
    ensures
        savable(default_settings(models_dir)),
{
    the_default_bindings_differ();
}

// ---------------------------------------------------------------------------
// Saving
// ---------------------------------------------------------------------------

/// Two saves in a row write the same text: the second changes nothing at all.
pub proof fn two_saves_in_a_row_write_the_same_text(
    first: Config,
    second: Config,
    third: Config,
    once: Seq<char>,
    again: Seq<char>,
    models_default: Seq<char>,
)
    requires
        is_saved(first, second, once, models_default),
        is_saved(second, third, again, models_default),
    ensures
        third == second,
        again == once,
{
    a_save_is_settled(
        fields(root_of(first.doc@)),
        fields(root_of(second.doc@)),
        first@,
        models_default,
    );
}

/// A file that is loaded and saved without a change is printed as it was read:
/// the document is left alone.
pub proof fn a_file_that_is_not_changed_is_not_rewritten(
    loaded: Config,
    saved: Config,
    text: Seq<char>,
    path: Seq<char>,
    written: Seq<char>,
    models_default: Seq<char>,
)
    requires
        is_loaded(Ok(loaded), text, path, models_default),
        is_canonical(fields(root_of(loaded.doc@))),
        is_saved(loaded, saved, written, models_default),
    ensures
        saved == loaded,
        toml_parsed(text) matches Ok(doc) && written == toml_text(doc),
{
    a_loaded_file_is_settled(fields(root_of(loaded.doc@)), models_default);
}

/// What is not ours survives a save: the keys the app does not know keep their
/// values, their comments and their order, and a value of ours that changes
/// keeps its place and the comments above and behind it.
pub proof fn what_is_not_ours_survives_a_save(
    before: Config,
    after: Config,
    text: Seq<char>,
    models_default: Seq<char>,
    key: Seq<char>,
)
    requires
        is_saved(before, after, text, models_default),
    ensures
        !root_keys().contains(key) ==> agree_on(
            fields(root_of(before.doc@)),
            fields(root_of(after.doc@)),
            key,
        ) && decors(root_of(after.doc@))[key] == decors(root_of(before.doc@))[key] && key_decors(
            root_of(after.doc@),
        )[key] == key_decors(root_of(before.doc@))[key],
        others_among(keys_of(root_of(after.doc@)), root_keys()) == others_among(
            keys_of(root_of(before.doc@)),
            root_keys(),
        ),
        places_stay(keys_of(root_of(before.doc@)), keys_of(root_of(after.doc@))),
        comment_stays(root_of(before.doc@), root_of(after.doc@), key),
{
    if !root_keys().contains(key) {
        assert(agree_on(fields(root_of(before.doc@)), fields(root_of(after.doc@)), key));
    }
}

proof fn lemma_project_synced(
    m: Map<Seq<char>, FieldView>,
    after: Map<Seq<char>, FieldView>,
    c: ConfigView,
    models_default: Seq<char>,
    i: int,
)
    requires
        is_synced(m, after, c, models_default),
        0 <= i < c.projects.len(),
        i < tables_at(m, "projects"@).len(),
    ensures
        i < tables_at(after, "projects"@).len(),
        touched(tables_at(m, "projects"@)[i], tables_at(after, "projects"@)[i], project_keys()),
{
    let last = with_second(with_first(m, c, models_default), c);
    lemma_settings_saved(m, c, models_default, after);
    lemma_tables_carried(m, last, after, c.projects, i);
}

proof fn lemma_tables_carried(
    m: Map<Seq<char>, FieldView>,
    last: Map<Seq<char>, FieldView>,
    after: Map<Seq<char>, FieldView>,
    ps: Seq<ProjectView>,
    i: int,
)
    requires
        agree_on(m, last, "projects"@),
        projects_synced(last, after, ps),
        0 <= i < ps.len(),
        i < tables_at(m, "projects"@).len(),
    ensures
        i < tables_at(after, "projects"@).len(),
        touched(tables_at(m, "projects"@)[i], tables_at(after, "projects"@)[i], project_keys()),
{
}

/// The same holds inside a project: its table keeps the keys the app does not
/// know, and a value of ours that changes keeps its place and its comments.
pub proof fn what_is_not_ours_survives_in_a_project(
    before: Config,
    after: Config,
    text: Seq<char>,
    models_default: Seq<char>,
    i: int,
    key: Seq<char>,
)
    requires
        is_saved(before, after, text, models_default),
        0 <= i < before@.projects.len(),
        i < tables_at(fields(root_of(before.doc@)), "projects"@).len(),
    ensures
        i < tables_at(fields(root_of(after.doc@)), "projects"@).len(),
        ({
            let a = tables_at(fields(root_of(before.doc@)), "projects"@)[i];
            let b = tables_at(fields(root_of(after.doc@)), "projects"@)[i];
            &&& !project_keys().contains(key) ==> agree_on(fields(a), fields(b), key) && decors(
                b,
            )[key] == decors(a)[key] && key_decors(b)[key] == key_decors(a)[key]
            &&& others_among(keys_of(b), project_keys()) == others_among(
                keys_of(a),
                project_keys(),
            )
            &&& places_stay(keys_of(a), keys_of(b))
            &&& comment_stays(a, b, key)
        }),
{
    let m = fields(root_of(before.doc@));
    lemma_project_synced(m, fields(root_of(after.doc@)), before@, models_default, i);
    let a = tables_at(m, "projects"@)[i];
    let b = tables_at(fields(root_of(after.doc@)), "projects"@)[i];
    lemma_touched_key(a, b, project_keys(), key);
}

proof fn lemma_touched_key(a: Table, b: Table, keys: Set<Seq<char>>, key: Seq<char>)
    requires
        touched(a, b, keys),
    ensures
        !keys.contains(key) ==> agree_on(fields(a), fields(b), key) && decors(b)[key] == decors(
            a,
        )[key] && key_decors(b)[key] == key_decors(a)[key],
        comment_stays(a, b, key),
{
    if !keys.contains(key) {
        assert(agree_on(fields(a), fields(b), key));
    }
}

/// Comments survive the file: where a value was and still is, the text of a save
/// reads back with the comments above and behind it that were there before, and a
/// value that is not ours reads back as it was.
pub proof fn what_is_written_around_a_value_survives_the_file(
    before: Config,
    after: Config,
    text: Seq<char>,
    models_default: Seq<char>,
    key: Seq<char>,
)
    requires
        is_sound(before.doc@),
        position_of(root_of(before.doc@)) is None,
        is_saved(before, after, text, models_default),
        fields(root_of(before.doc@)).contains_key(key),
        is_value(fields(root_of(before.doc@))[key]),
        fields(root_of(after.doc@)).contains_key(key),
        is_value(fields(root_of(after.doc@))[key]),
    ensures
        match toml_parsed(text) {
            Ok(doc) => {
                &&& written_alike(root_of(before.doc@), root_of(doc), key)
                &&& agree_on(fields(root_of(after.doc@)), fields(root_of(doc)), key)
                &&& !root_keys().contains(key) ==> agree_on(
                    fields(root_of(before.doc@)),
                    fields(root_of(doc)),
                    key,
                )
            },
            Err(_) => false,
        },
{
    let (a, b) = (root_of(before.doc@), root_of(after.doc@));
    lemma_touched_key(a, b, root_keys(), key);
    let c = root_of(toml_parsed(text)->Ok_0);
    assert(values_agree(b, c));
    assert(agree_on(fields(b), fields(c), key));
}

/// The settings that were saved are loaded again: whatever was edited in between,
/// a configuration that came out of a file and may be saved reads back from the
/// text of its save, with the reveal brought into its range.
pub proof fn a_configuration_survives_the_file(
    loaded: Config,
    edited: Config,
    saved: Config,
    again: Result<Config, ConfigError>,
    text: Seq<char>,
    path: Seq<char>,
    written: Seq<char>,
    models_default: Seq<char>,
)
    requires
        is_loaded(Ok(loaded), text, path, models_default),
        edited.doc == loaded.doc,
        savable(edited@),
        is_saved(edited, saved, written, models_default),
        is_loaded(again, written, path, models_default),
    ensures
        loads_as(written, as_saved(edited@), models_default),
        again matches Ok(config) && config@ == as_saved(edited@),
{
    a_loaded_document_is_editable(fields(root_of(loaded.doc@)));
}

} // verus!
