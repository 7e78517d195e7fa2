//! Loading, editing and saving a configuration.

use sotone_core::config::document::Setting;
use sotone_core::config::error::ConfigError;
use sotone_core::config::project::{
    folder_plan, FolderKept, FolderPlan, Project, ProjectRenameError,
};
use sotone_core::config::save::FileRead;
use sotone_core::config::settings::Config;
use sotone_core::config::skeleton::DEFAULT_DOCUMENT;
use sotone_core::config::words::{
    recording_mode_problem, Onboarded, OverlayCorner, Theme, DEFAULT_FILENAME_TEMPLATE,
    DEFAULT_LANGUAGE, DEFAULT_REVEAL_SECONDS, DEFAULT_TOGGLE_HOTKEY, MAX_REVEAL_SECONDS,
    MIN_REVEAL_SECONDS,
};
use sotone_core::path::NotePath;
use sotone_core::places::{
    config_path_under, default_config_path, default_models_dir, default_notes_root,
    models_dir_under, notes_root_under, path_to_string,
};

/// A file that looks the way a hand-edited one does: comments everywhere,
/// odd spacing, literal strings, a key Sotone has never heard of.
const HAND_EDITED: &str = r#"# my sotone config
# do not lose this comment

models_dir = 'C:\models'      # where the ggml files live
language   =    "en"
hotkey = "MouseButton4"
audio_cues = false
overlay = true

# something a future version added
experimental_thing = 42

[[projects]]
# the game I'm testing this week
name = "Ludo"
notes_dir = 'C:\notes\ludo'
vocabulary = ["hitbox", "traversal"]
session_dividers = false
"#;

#[test]
fn defaults_match_the_spec() {
    let config = Config::default();
    assert_eq!(config.language, "auto");
    assert_eq!(config.hotkey, "F13");
    assert_eq!(config.toggle_hotkey, "F14");
    assert!(config.ptt_enabled);
    assert!(config.toggle_enabled);
    assert!(config.audio_cues);
    assert!(config.overlay);
    // The design's corner and reveal duration. Bottom-left
    // supersedes the earlier bottom-right card.
    assert_eq!(config.overlay_corner, OverlayCorner::BottomLeft);
    assert_eq!(config.reveal_seconds, 10);
    assert_eq!(config.theme, Theme::Dark);
    // The X hides to the tray unless the user says otherwise.
    assert!(!config.close_quits);
    // Deleted lines are listed, struck through, until the user
    // asks for them to be hidden.
    assert!(!config.hide_deleted);
    // The value a *fresh install* writes, which is the opposite of
    // what an absent key means.
    assert_eq!(config.onboarded, Onboarded::No);
    assert!(config.projects.is_empty());
    assert_eq!(config.active_model, None);
    assert_eq!(config.mic_substring, None);

    let project = Project::new("p", "dir");
    assert_eq!(project.filename_template, DEFAULT_FILENAME_TEMPLATE);
    assert!(project.session_dividers);
    assert!(project.vocabulary.is_empty());
}

#[test]
fn theme_reads_both_palettes_and_refuses_a_third() {
    let path = "config.toml";

    // Absent is dark, and dark is not written back just to say so.
    let mut config = Config::from_toml("theme = \"light\"\n", path).expect("parse");
    assert_eq!(config.theme, Theme::Light);
    config.theme = Theme::Dark;
    assert_eq!(config.to_toml_string(), "theme = \"dark\"\n");

    // Spelling is forgiving, like the hotkey tokens.
    let config = Config::from_toml("theme = \" Light \"\n", path).expect("parse");
    assert_eq!(config.theme, Theme::Light);

    // Anything else stops the load rather than defaulting silently.
    let err = Config::from_toml("theme = \"solarized\"\n", path).expect_err("refused");
    let message = err.message();
    assert!(message.contains("solarized"), "{message}");
    assert!(message.contains("\"dark\""), "{message}");

    // A key of the wrong type is the same kind of error it always was.
    assert!(Config::from_toml("theme = 3\n", path).is_err());
}

#[test]
fn the_overlay_corner_reads_all_four_and_refuses_a_fifth() {
    let path = "config.toml";

    for (text, expected) in [
        ("bottomLeft", OverlayCorner::BottomLeft),
        ("bottomRight", OverlayCorner::BottomRight),
        ("topLeft", OverlayCorner::TopLeft),
        ("topRight", OverlayCorner::TopRight),
        // Forgiving about spelling, like `theme` and the hotkey tokens.
        (" TOPRIGHT ", OverlayCorner::TopRight),
    ] {
        let config =
            Config::from_toml(&format!("overlay_corner = \"{text}\"\n"), path).expect("parse");
        assert_eq!(config.overlay_corner, expected, "{text}");
    }

    // Anything else stops the load rather than defaulting silently.
    let err = Config::from_toml("overlay_corner = \"middle\"\n", path).expect_err("refused");
    let message = err.message();
    assert!(message.contains("middle"), "{message}");
    assert!(message.contains("bottomLeft"), "{message}");

    // And a key of the wrong type is the same error it always was.
    assert!(Config::from_toml("overlay_corner = 3\n", path).is_err());
}

#[test]
fn the_reveal_duration_is_clamped_rather_than_refused() {
    let path = "config.toml";

    let config = Config::from_toml("reveal_seconds = 25\n", path).expect("parse");
    assert_eq!(config.reveal_seconds, 25);

    // Out of range is the user's meaning, read at the nearest legal value.
    let config = Config::from_toml("reveal_seconds = 0\n", path).expect("parse");
    assert_eq!(config.reveal_seconds, MIN_REVEAL_SECONDS);
    let config = Config::from_toml("reveal_seconds = 6000\n", path).expect("parse");
    assert_eq!(config.reveal_seconds, MAX_REVEAL_SECONDS);
    // Negative is not a duration at all: that is a type error, not a clamp.
    assert!(Config::from_toml("reveal_seconds = -4\n", path).is_err());
    assert!(Config::from_toml("reveal_seconds = \"ten\"\n", path).is_err());

    // What is written back is what is honoured — the clamp runs on save too,
    // so the file can never keep a number the pill ignores.
    let mut config = Config::from_toml("reveal_seconds = 25\n", path).expect("parse");
    config.reveal_seconds = 900;
    assert_eq!(
        config.to_toml_string(),
        format!("reveal_seconds = {MAX_REVEAL_SECONDS}\n")
    );
}

#[test]
fn a_minimal_file_does_not_grow_the_overlay_pill_keys() {
    // The theme rule, restated for the pill's two keys: a default is not
    // information, and a file that grows every key on every save stops
    // being the user's.
    let text = "hotkey = \"MouseButton4\"\n";
    let mut config = Config::from_toml(text, "c.toml").expect("parse");
    assert_eq!(config.to_toml_string(), text);

    config.overlay_corner = OverlayCorner::TopRight;
    config.reveal_seconds = 4;
    let out = config.to_toml_string();
    assert!(out.contains("overlay_corner = \"topRight\""), "{out}");
    assert!(out.contains("reveal_seconds = 4"), "{out}");

    // And back to the defaults: once a key exists it keeps being written,
    // because at that point the file has an opinion.
    config.overlay_corner = OverlayCorner::BottomLeft;
    config.reveal_seconds = DEFAULT_REVEAL_SECONDS;
    let out = config.to_toml_string();
    assert!(out.contains("overlay_corner = \"bottomLeft\""), "{out}");
    assert!(out.contains("reveal_seconds = 10"), "{out}");
}

#[test]
fn an_existing_config_never_sees_the_wizard_and_a_fresh_one_always_does() {
    let path = "config.toml";

    // The whole point of the three states: a file that predates the wizard
    // has no `onboarded` key, and its owner has been using Sotone for weeks.
    let mut config = Config::from_toml(HAND_EDITED, path).expect("parse");
    assert_eq!(config.onboarded, Onboarded::Yes);
    assert!(config.onboarded.is_done());
    // …and it is not written back just to restate what absence means.
    assert_eq!(config.to_toml_string(), HAND_EDITED);

    // A fresh install is the other side of the same rule.
    let fresh = Config::default();
    assert_eq!(fresh.onboarded, Onboarded::No);
    assert!(!fresh.onboarded.is_done());

    // All three words round-trip, spelling-forgivingly like `theme`.
    for (text, expected) in [
        ("no", Onboarded::No),
        ("first-launch", Onboarded::FirstLaunch),
        ("yes", Onboarded::Yes),
        (" First-Launch ", Onboarded::FirstLaunch),
    ] {
        let config =
            Config::from_toml(&format!("onboarded = \"{text}\"\n"), path).expect("parse");
        assert_eq!(config.onboarded, expected, "{text}");
    }

    // Anything else stops the load rather than putting a configured machine
    // back on step one.
    let err = Config::from_toml("onboarded = \"maybe\"\n", path).expect_err("refused");
    let message = err.message();
    assert!(message.contains("maybe"), "{message}");
    assert!(message.contains("first-launch"), "{message}");
    assert!(Config::from_toml("onboarded = true\n", path).is_err());
}

#[test]
fn a_minimal_file_does_not_grow_a_theme_key() {
    let text = "hotkey = \"MouseButton4\"\n";
    let mut config = Config::from_toml(text, "c.toml").expect("parse");
    assert_eq!(config.to_toml_string(), text);

    config.theme = Theme::Light;
    let out = config.to_toml_string();
    assert!(out.contains("theme = \"light\""), "{out}");
}

#[test]
fn hand_edited_file_survives_a_load_set_save_cycle() {
    let path = "config.toml";
    let mut config = Config::from_toml(HAND_EDITED, path).expect("parse");

    assert_eq!(config.language, "en");
    assert_eq!(config.hotkey, "MouseButton4");
    assert_eq!(config.models_dir, r"C:\models");
    assert!(!config.audio_cues);

    // Change exactly one value.
    config.language = "de".to_owned();
    let out = config.to_toml_string();

    // Everything except that one value is untouched, byte for byte.
    let expected = HAND_EDITED.replace(r#"language   =    "en""#, r#"language   =    "de""#);
    assert_eq!(out, expected);
}

#[test]
fn saving_without_changes_rewrites_nothing() {
    let mut config = Config::from_toml(HAND_EDITED, "config.toml").expect("parse");
    assert_eq!(config.to_toml_string(), HAND_EDITED);
}

#[test]
fn a_minimal_file_does_not_grow_with_restated_defaults() {
    let text = "hotkey = \"MouseButton4\"\n";
    let mut config = Config::from_toml(text, "c.toml").expect("parse");
    assert_eq!(config.to_toml_string(), text);

    // A value that stops being the default is information, so it lands.
    config.overlay = false;
    let out = config.to_toml_string();
    assert!(out.contains("overlay = false"));
    assert!(!out.contains("audio_cues"));
    // The same rule from the other side: `close_quits` is false
    // here because nothing said otherwise, so the file must not grow a key
    // restating it.
    assert!(!out.contains("close_quits"));
}

/// An absent key means "the X hides to the tray"; the setting
/// only reaches the file once the user turns it on, and it survives the
/// trip back.
#[test]
fn close_quits_is_absent_until_it_is_true() {
    let path = "config.toml";
    let mut config = Config::from_toml("hotkey = \"MouseButton4\"\n", path).expect("parse");
    assert!(!config.close_quits);

    config.close_quits = true;
    let out = config.to_toml_string();
    assert!(out.contains("close_quits = true"), "{out}");

    let reloaded = Config::from_toml(&out, path).expect("reparse");
    assert!(reloaded.close_quits);
}

/// Off again is still information: the key exists, so the value written
/// into it is the one that stays there.
#[test]
fn close_quits_turned_off_again_stays_in_a_file_that_has_it() {
    let path = "config.toml";
    let mut config = Config::from_toml("close_quits = true\n", path).expect("parse");
    assert!(config.close_quits);

    config.close_quits = false;
    let out = config.to_toml_string();
    assert_eq!(out, "close_quits = false\n");
    assert!(!Config::from_toml(&out, path).expect("reparse").close_quits);
}

#[test]
fn close_quits_of_the_wrong_type_is_refused() {
    let err = Config::from_toml("close_quits = \"yes\"\n", "config.toml")
        .expect_err("a string is not a bool");
    assert!(matches!(err, ConfigError::Invalid { .. }), "{err:?}");
}

/// The same rule as `close_quits`, for the view filter that used
/// to live only in the window: an absent key means "deleted lines are
/// listed", the key appears once the toggle is turned on, and the answer
/// survives the trip back — which is the whole point of moving it here.
#[test]
fn hide_deleted_is_absent_until_it_is_true() {
    let path = "config.toml";
    let mut config = Config::from_toml("hotkey = \"MouseButton4\"\n", path).expect("parse");
    assert!(!config.hide_deleted);

    config.hide_deleted = true;
    let out = config.to_toml_string();
    assert!(out.contains("hide_deleted = true"), "{out}");

    let reloaded = Config::from_toml(&out, path).expect("reparse");
    assert!(reloaded.hide_deleted);
}

/// Off again is still information: the key exists, so the value written
/// into it is the one that stays there.
#[test]
fn hide_deleted_turned_off_again_stays_in_a_file_that_has_it() {
    let path = "config.toml";
    let mut config = Config::from_toml("hide_deleted = true\n", path).expect("parse");
    assert!(config.hide_deleted);

    config.hide_deleted = false;
    let out = config.to_toml_string();
    assert_eq!(out, "hide_deleted = false\n");
    assert!(!Config::from_toml(&out, path).expect("reparse").hide_deleted);
}

#[test]
fn hide_deleted_of_the_wrong_type_is_refused() {
    let err = Config::from_toml("hide_deleted = \"yes\"\n", "config.toml")
        .expect_err("a string is not a bool");
    assert!(matches!(err, ConfigError::Invalid { .. }), "{err:?}");
}

#[test]
fn unknown_keys_and_comments_survive_a_project_edit() {
    let mut config = Config::from_toml(HAND_EDITED, "config.toml").expect("parse");
    config.projects[0].session_dividers = true;
    let out = config.to_toml_string();

    assert!(out.contains("# do not lose this comment"));
    assert!(out.contains("experimental_thing = 42"));
    assert!(out.contains("# the game I'm testing this week"));
    assert!(out.contains(r#"vocabulary = ["hitbox", "traversal"]"#));
    assert!(out.contains("session_dividers = true"));
}

#[test]
fn inline_comment_on_a_changed_value_survives() {
    let mut config = Config::from_toml(HAND_EDITED, "config.toml").expect("parse");
    config.models_dir = r"D:\models".to_owned();
    let out = config.to_toml_string();

    // The trailing comment belongs to the key, not to the old value.
    assert!(out.contains("# where the ggml files live"));

    // Quoting style is toml_edit's business; the value must survive a
    // Windows path with backslashes intact.
    let reloaded = Config::from_toml(&out, "config.toml").expect("reparse");
    assert_eq!(reloaded.models_dir, r"D:\models");
}

#[test]
fn added_and_removed_projects_round_trip() {
    let mut config = Config::from_toml(HAND_EDITED, "config.toml").expect("parse");
    config
        .projects
        .push(Project::new("Spreadsheet", "/tmp/notes"));
    let out = config.to_toml_string();

    let reloaded = Config::from_toml(&out, "config.toml").expect("reparse");
    assert_eq!(reloaded.projects.len(), 2);
    assert_eq!(reloaded.projects[1].name, "Spreadsheet");
    assert_eq!(
        reloaded.projects[1].filename_template,
        DEFAULT_FILENAME_TEMPLATE
    );
    assert!(reloaded.projects[1].session_dividers);
    assert_eq!(reloaded.projects[0].vocabulary, ["hitbox", "traversal"]);

    let mut trimmed = reloaded;
    trimmed.projects.clear();
    let out = trimmed.to_toml_string();
    assert!(!out.contains("[[projects]]"));
    assert!(out.contains("# do not lose this comment"));
}

// -----------------------------------------------------------------------
// Renaming and removing a project
// -----------------------------------------------------------------------

#[test]
fn renaming_a_project_moves_its_name_folder_and_active_flag_together() {
    let mut config = Config::from_toml(HAND_EDITED, "config.toml").expect("parse");
    config.active_project = Some("Ludo".to_owned());

    config
        .rename_project(
            "Ludo",
            "Checkout rebuild",
            Some(r"C:\notes\Checkout rebuild".to_owned()),
        )
        .expect("rename");

    assert_eq!(config.projects[0].name, "Checkout rebuild");
    assert_eq!(
        config.projects[0].notes_dir,
        r"C:\notes\Checkout rebuild"
    );
    assert_eq!(config.active_project.as_deref(), Some("Checkout rebuild"));

    // And it survives the round trip with the user's file intact.
    let out = config.to_toml_string();
    assert!(out.contains("# do not lose this comment"), "{out}");
    assert!(out.contains("# the game I'm testing this week"), "{out}");
    let reloaded = Config::from_toml(&out, "config.toml").expect("reparse");
    assert_eq!(reloaded.active_project.as_deref(), Some("Checkout rebuild"));
    let project = reloaded.project("Checkout rebuild").expect("renamed");
    assert_eq!(project.vocabulary, ["hitbox", "traversal"]);
    assert!(!project.session_dividers, "the rename lost a setting");
}

#[test]
fn renaming_a_project_leaves_a_kept_folder_and_an_unrelated_active_alone() {
    let mut config = Config::default();
    config
        .projects
        .push(Project::new("Ludo", r"C:\shared\notes"));
    config.projects.push(Project::new("Sotone", r"C:\sotone"));
    config.active_project = Some("Sotone".to_owned());

    // `None` is "the folder did not move" — the caller's decision, made
    // before anything was written.
    config
        .rename_project("Ludo", "Ludo 2", None)
        .expect("rename");

    assert_eq!(config.projects[0].name, "Ludo 2");
    assert_eq!(
        config.projects[0].notes_dir,
        r"C:\shared\notes"
    );
    assert_eq!(
        config.active_project.as_deref(),
        Some("Sotone"),
        "an unrelated active project was moved"
    );
}

#[test]
fn a_project_rename_never_merges_and_never_invents() {
    let mut config = Config::default();
    config.projects.push(Project::new("Ludo", r"C:\ludo"));
    config.projects.push(Project::new("Sotone", r"C:\sotone"));

    assert_eq!(
        config.rename_project("Ludo", "Sotone", None),
        Err(ProjectRenameError::NameTaken)
    );
    assert_eq!(
        config.rename_project("Ludo", "   ", None),
        Err(ProjectRenameError::Blank)
    );
    assert_eq!(
        config.rename_project("Gone", "Anything", None),
        Err(ProjectRenameError::NoSuchProject)
    );
    // Nothing was written by any of the three.
    assert_eq!(config.projects[0].name, "Ludo");
    assert_eq!(config.projects[1].name, "Sotone");

    // Case is a difference, exactly as it is for `project_create`.
    config.rename_project("Ludo", "ludo", None).expect("rename");
    assert_eq!(config.projects[0].name, "ludo");
}

#[test]
fn removing_a_project_touches_the_config_and_nothing_else() {
    let mut config = Config::from_toml(HAND_EDITED, "config.toml").expect("parse");
    config
        .projects
        .push(Project::new("Spreadsheet", r"D:\sheets"));
    config.active_project = Some("Ludo".to_owned());

    assert!(config.remove_project("Ludo"));
    assert!(!config.remove_project("Ludo"), "removing twice");

    assert_eq!(config.projects.len(), 1);
    assert_eq!(config.projects[0].name, "Spreadsheet");
    assert_eq!(
        config.active_project, None,
        "the active project outlived the project"
    );

    // The positional `[[projects]]` sync shifts the surviving values up
    // into the first table and drops the last one, so a comment written
    // against a *specific* project table can migrate. Values survive, which
    // is what matters and what this pins — an accepted cost; the file's
    // own prose is untouched.
    let out = config.to_toml_string();
    let reloaded = Config::from_toml(&out, "config.toml").expect("reparse");
    assert_eq!(reloaded.projects.len(), 1);
    assert_eq!(reloaded.projects[0].name, "Spreadsheet");
    assert_eq!(reloaded.projects[0].notes_dir, r"D:\sheets");
    assert!(
        reloaded.projects[0].vocabulary.is_empty(),
        "a removed project's values leaked into its successor: {out}"
    );
    assert!(out.contains("# do not lose this comment"), "{out}");
    assert!(out.contains("experimental_thing = 42"), "{out}");
    assert!(!out.contains("active_project"), "{out}");
}

#[test]
fn the_project_mutations_the_ui_makes_round_trip_a_hand_formatted_file() {
    // The Projects tab is an editor over this file, and every one
    // of its edits goes through here. A lost comment is a destroyed user
    // file in spirit (invariant 4), so the whole create/activate/update
    // sequence has to leave the rest of the document alone.
    let mut config = Config::from_toml(HAND_EDITED, "config.toml").expect("parse");

    // Create, and make it active.
    config
        .projects
        .push(Project::new("Spreadsheet", r"D:\notes\sheets"));
    config.active_project = Some("Spreadsheet".to_owned());

    // Update: folder, filename template, header.
    let project = config.project_mut("Spreadsheet").expect("Spreadsheet");
    project.notes_dir = r"D:\notes\budget".to_owned();
    project.filename_template = "{date} budget.md".to_owned();
    project.header_template = Some("# {project} — {datetime}".to_owned());

    let out = config.to_toml_string();

    // Everything the user wrote is still there.
    assert!(out.contains("# do not lose this comment"), "{out}");
    assert!(out.contains("experimental_thing = 42"), "{out}");
    assert!(out.contains("# the game I'm testing this week"), "{out}");
    assert!(
        out.contains(r#"vocabulary = ["hitbox", "traversal"]"#),
        "{out}"
    );
    assert!(out.contains(r#"language   =    "en""#), "{out}");

    let reloaded = Config::from_toml(&out, "config.toml").expect("reparse");
    assert_eq!(reloaded.active_project.as_deref(), Some("Spreadsheet"));
    let project = reloaded.project("Spreadsheet").expect("Spreadsheet");
    assert_eq!(project.notes_dir, r"D:\notes\budget");
    assert_eq!(project.filename_template, "{date} budget.md");
    assert_eq!(
        project.header_template.as_deref(),
        Some("# {project} — {datetime}")
    );
    // The untouched project is untouched.
    assert_eq!(reloaded.projects[0].name, "Ludo");
    assert_eq!(reloaded.projects[0].vocabulary, ["hitbox", "traversal"]);

    // Clearing the active project removes the key rather than writing "".
    let mut cleared = reloaded;
    cleared.active_project = None;
    let out = cleared.to_toml_string();
    assert!(!out.contains("active_project"), "{out}");

    // And an emptied header template is the key's absence, not an empty
    // string, so the note simply has no header again.
    let mut headerless = Config::from_toml(&out, "c.toml").expect("reparse");
    headerless
        .project_mut("Spreadsheet")
        .expect("Spreadsheet")
        .header_template = None;
    let out = headerless.to_toml_string();
    assert!(!out.contains("header_template"), "{out}");
}

#[test]
fn optional_values_are_removed_when_unset() {
    let mut config =
        Config::from_toml("active_model = \"small.bin\"\n", "config.toml")
            .expect("parse");
    assert_eq!(config.active_model.as_deref(), Some("small.bin"));

    config.active_model = None;
    let out = config.to_toml_string();
    assert!(!out.contains("active_model"));
}

#[test]
fn wrong_type_is_an_error_not_a_silent_default() {
    let err = Config::from_toml("language = 7\n", "config.toml")
        .expect_err("must be rejected");
    assert!(matches!(err, ConfigError::Invalid { .. }));
    assert!(err.message().contains("language"));

    let err = Config::from_toml(
        "vocabulary = 1\n[[projects]]\nname = \"a\"\nvocabulary = [1]\n",
        "config.toml",
    )
    .expect_err("must be rejected");
    assert!(err.message().contains("vocabulary"));
}

#[test]
fn project_without_a_name_is_an_error() {
    let err = Config::from_toml("[[projects]]\nnotes_dir = \"x\"\n", "c.toml")
        .expect_err("must be rejected");
    assert!(matches!(err, ConfigError::Invalid { .. }));
}

#[test]
fn duplicate_project_names_are_an_error() {
    let text = "[[projects]]\nname = \"a\"\n\n[[projects]]\nname = \"a\"\n";
    let err = Config::from_toml(text, "c.toml").expect_err("must be rejected");
    assert!(matches!(err, ConfigError::Invalid { .. }));
}

#[test]
fn recording_modes_default_when_absent() {
    // A file that predates toggle mode still describes a working setup.
    let config = Config::from_toml("hotkey = \"MouseX2\"\n", "c.toml")
        .expect("parse a pre-toggle file");
    assert_eq!(config.toggle_hotkey, DEFAULT_TOGGLE_HOTKEY);
    assert!(config.ptt_enabled);
    assert!(config.toggle_enabled);
}

#[test]
fn explicit_recording_modes_round_trip() {
    let text = "hotkey = \"MouseX1\"\ntoggle_hotkey = \"MouseX2\"\n\
                ptt_enabled = true\ntoggle_enabled = false\n";
    let mut config = Config::from_toml(text, "c.toml").expect("parse");
    assert_eq!(config.hotkey, "MouseX1");
    assert_eq!(config.toggle_hotkey, "MouseX2");
    assert!(config.ptt_enabled);
    assert!(!config.toggle_enabled);
    assert_eq!(config.to_toml_string(), text);

    config.toggle_enabled = true;
    let out = config.to_toml_string();
    let reloaded = Config::from_toml(&out, "c.toml").expect("reparse");
    assert!(reloaded.toggle_enabled);
    assert_eq!(reloaded.toggle_hotkey, "MouseX2");
}

#[test]
fn disabling_both_recording_modes_is_an_error() {
    let text = "ptt_enabled = false\ntoggle_enabled = false\n";
    let err = Config::from_toml(text, "c.toml").expect_err("must be rejected");
    assert!(matches!(err, ConfigError::Invalid { .. }));
    let message = err.message();
    assert!(message.contains("at least one"), "message: {message}");
}

#[test]
fn the_same_binding_on_both_enabled_modes_is_an_error() {
    for toggle in ["F13", "f13", "  F13  "] {
        let text = format!("hotkey = \"F13\"\ntoggle_hotkey = \"{toggle}\"\n");
        let err = Config::from_toml(&text, "c.toml").expect_err("must be rejected");
        assert!(matches!(err, ConfigError::Invalid { .. }));
        let message = err.message();
        assert!(
            message.contains("F13"),
            "message must name the token: {message}"
        );
    }
}

#[test]
fn the_same_binding_is_fine_when_only_one_mode_is_enabled() {
    // Nothing is ambiguous if only one of the two is watching that key.
    let text = "hotkey = \"F13\"\ntoggle_hotkey = \"F13\"\ntoggle_enabled = false\n";
    let config = Config::from_toml(text, "c.toml").expect("parse");
    assert_eq!(config.hotkey, config.toggle_hotkey);
    assert!(!config.toggle_enabled);

    let text = "hotkey = \"F13\"\ntoggle_hotkey = \"F13\"\nptt_enabled = false\n";
    let config = Config::from_toml(text, "c.toml").expect("parse");
    assert!(!config.ptt_enabled);
}

/// The rule the Settings tab asks *before* it writes, which is
/// the same rule the loader applies after. If these two ever disagree,
/// Settings can write a file the next launch refuses to load.
#[test]
fn the_mode_rule_answers_the_same_way_the_loader_does() {
    // Refused: nothing left to record with.
    let both_off =
        recording_mode_problem("F13", "F14", false, false).expect("both off must be refused");
    assert!(both_off.contains("at least one"), "{both_off}");

    // Refused: two enabled modes on one physical key, however spelled.
    for toggle in ["F13", "f13", "  F13  "] {
        let clash = recording_mode_problem("F13", toggle, true, true)
            .expect("a shared binding must be refused");
        assert!(clash.contains("F13"), "{clash}");
    }

    // Allowed: distinct bindings, and a shared one where only one mode is on.
    assert_eq!(recording_mode_problem("F13", "F14", true, true), None);
    assert_eq!(recording_mode_problem("F13", "F13", true, false), None);
    assert_eq!(recording_mode_problem("F13", "F13", false, true), None);

    // And the loader is the same answer, reached through the same function.
    let text = "ptt_enabled = false\ntoggle_enabled = false\n";
    let err = Config::from_toml(text, "c.toml").expect_err("must be rejected");
    assert!(err.message().contains("at least one"));
}

#[test]
fn the_default_file_describes_two_distinct_usable_modes() {
    let mut config = Config::default();
    let text = config.to_toml_string();
    let reloaded = Config::from_toml(&text, "c.toml").expect("reparse");
    assert_ne!(reloaded.hotkey, reloaded.toggle_hotkey);
    assert!(reloaded.ptt_enabled && reloaded.toggle_enabled);
}

#[test]
fn overrides_resolve_project_then_global() {
    let text = r#"
language = "en"
active_model = "medium.bin"
active_project = "Game"

[[projects]]
name = "Game"
language = "de"
model = "large.bin"

[[projects]]
name = "Docs"

[[projects]]
name = "Blank"
language = "  "
model = ""
"#;
    let config = Config::from_toml(text, "c.toml").expect("parse");

    let game = config.project("Game").expect("Game");
    assert_eq!(config.effective_language(Some(game)), "de");
    assert_eq!(config.effective_model(Some(game)), Some("large.bin"));

    let docs = config.project("Docs").expect("Docs");
    assert_eq!(config.effective_language(Some(docs)), "en");
    assert_eq!(config.effective_model(Some(docs)), Some("medium.bin"));

    // A blank override is a mistake, not a language named "".
    let blank = config.project("Blank").expect("Blank");
    assert_eq!(config.effective_language(Some(blank)), "en");
    assert_eq!(config.effective_model(Some(blank)), Some("medium.bin"));

    // No project at all falls back to global.
    assert_eq!(config.effective_language(None), "en");
    assert_eq!(config.effective_model(None), Some("medium.bin"));

    assert_eq!(
        config.active_project().map(|p| p.name.as_str()),
        Some("Game")
    );
}

#[test]
fn session_dividers_defaults_on_is_never_written_unasked_and_round_trips() {
    // A config-only key: there is no UI for it,
    // so the file is the whole interface and it has to behave like every
    // other key here.
    let minimal = "[[projects]]\nname = \"Ludo\"\n";
    let mut config = Config::from_toml(minimal, "c.toml").expect("parse");
    assert!(config.projects[0].session_dividers, "the default is on");
    // A default is not information: it must not appear just because we saved.
    assert_eq!(config.to_toml_string(), minimal);

    // Turned off by hand, it survives a load/save cycle untouched.
    let off = "[[projects]]\nname = \"Ludo\"\nsession_dividers = false  # one long note\n";
    let mut config = Config::from_toml(off, "c.toml").expect("parse");
    assert!(!config.projects[0].session_dividers);
    assert_eq!(config.to_toml_string(), off);

    // And turning it back on is a value change, not a rewrite of the file.
    config.projects[0].session_dividers = true;
    let out = config.to_toml_string();
    assert!(out.contains("session_dividers = true"), "{out}");
    assert!(out.contains("# one long note"), "{out}");
}

#[test]
fn a_wrong_typed_session_dividers_is_a_hard_load_error() {
    let err = Config::from_toml(
        "[[projects]]\nname = \"Ludo\"\nsession_dividers = \"yes\"\n",
        "c.toml",
    )
    .expect_err("must be rejected");
    assert!(matches!(err, ConfigError::Invalid { .. }));
    assert!(err.message().contains("session_dividers"));
}

#[test]
fn effective_model_is_none_when_nothing_is_chosen() {
    let config = Config::default();
    assert_eq!(config.effective_model(None), None);
}

#[test]
fn project_mut_edits_in_place() {
    let mut config = Config::default();
    config.projects.push(Project::new("A", "dir"));
    config.project_mut("A").expect("A").session_dividers = false;
    assert!(!config.project("A").expect("A").session_dividers);
    assert!(config.project_mut("missing").is_none());
}

#[test]
fn default_document_is_parseable() {
    let doc = DEFAULT_DOCUMENT
        .parse::<toml_edit::DocumentMut>()
        .expect("the skeleton parses");
    assert!(doc.as_table().contains_key("models_dir"));
    assert!(doc.to_string().starts_with("# Sotone configuration."));
}

#[test]
fn the_wizards_notes_root_is_a_suggestion_under_a_real_folder() {
    let root = default_notes_root();
    assert_eq!(root.file_name().as_deref(), Some("Sotone"), "{}", root.text());
    assert!(root.absolute || root == NotePath::new("Sotone"));
}

#[test]
fn the_folder_follows_the_name_whenever_that_is_safe() {
    let own = vec![Project::new("Ludo", "/notes/Ludo")];
    assert_eq!(
        folder_plan(&own, "Ludo", "Checkout"),
        FolderPlan::Rename {
            from: NotePath::new("/notes/Ludo"),
            to: NotePath::new("/notes/Checkout"),
        }
    );

    // A folder the user picked, whose name is not the project's, moves too.
    let picked = vec![Project::new("Ludo", "/Documents/notes")];
    assert_eq!(
        folder_plan(&picked, "Ludo", "Checkout"),
        FolderPlan::Rename {
            from: NotePath::new("/Documents/notes"),
            to: NotePath::new("/Documents/Checkout"),
        }
    );

    // Two projects, one folder: renaming it would move the other project's
    // notes as a side effect of renaming this one.
    let shared = vec![
        Project::new("Ludo", "/notes/Ludo"),
        Project::new("Sotone", "/notes/Ludo"),
    ];
    assert_eq!(
        folder_plan(&shared, "Ludo", "Checkout"),
        FolderPlan::Keep(FolderKept::Shared)
    );

    // A new name that a filesystem would not take as written.
    assert_eq!(
        folder_plan(&own, "Ludo", "Checkout: 1/2"),
        FolderPlan::Keep(FolderKept::UnsafeName)
    );

    // A project that is not there at all, and one whose folder is a filesystem
    // root with no sibling to become.
    assert_eq!(
        folder_plan(&own, "Gone", "Checkout"),
        FolderPlan::Keep(FolderKept::NoFolder)
    );
    let rooted = vec![Project::new("Ludo", "/")];
    assert_eq!(
        folder_plan(&rooted, "Ludo", "Checkout"),
        FolderPlan::Keep(FolderKept::NoFolder)
    );

    // Every kept reason says why, in the app's voice.
    for kept in [
        FolderKept::NoFolder,
        FolderKept::Shared,
        FolderKept::Occupied,
        FolderKept::UnsafeName,
    ] {
        assert!(kept.note().starts_with("folder kept \u{2014} "), "{kept:?}");
    }
}

fn read_again(config: &mut Config) -> Config {
    let text = config.to_toml_string_with("/models");
    let loaded = Config::load_from(FileRead::Text(text), "config.toml", "/models").expect("load");
    assert!(loaded.write.is_none(), "a file that is there is never replaced");
    loaded.config
}

#[test]
fn the_first_launch_marker_is_written_and_then_consumed() {
    // What a fresh install writes: the key is there, saying "no", because "no"
    // is not what absence means.
    let fresh = Config::load_from(FileRead::Missing, "config.toml", "/models").expect("first run");
    let mut config = fresh.config;
    assert_eq!(config.onboarded, Onboarded::No);
    let text = fresh.write.expect("the first file");
    assert!(text.contains("onboarded = \"no\""), "{text}");

    // The wizard finishing on the empty path: a restart follows, so the marker
    // has to survive it.
    config.onboarded = Onboarded::FirstLaunch;
    let reloaded = read_again(&mut config);
    assert_eq!(reloaded.onboarded, Onboarded::FirstLaunch);
    assert!(!reloaded.onboarded.is_done());

    // That launch consumes it. Every launch after this one is ordinary.
    let mut consumed = reloaded;
    consumed.onboarded = Onboarded::Yes;
    let mut after = read_again(&mut consumed);
    assert_eq!(after.onboarded, Onboarded::Yes);
    // The key stays in the file once it is there.
    let text = after.to_toml_string_with("/models");
    assert!(text.contains("onboarded = \"yes\""), "{text}");
}

#[test]
fn first_run_creates_the_file_with_defaults() {
    let first = Config::load_from(FileRead::Missing, "config.toml", "/models").expect("first run");
    let config = first.config;
    assert_eq!(config.language, DEFAULT_LANGUAGE);
    let text = first.write.expect("a fresh install has something to hand-edit");
    assert!(text.starts_with("# Sotone configuration."));
    assert!(text.contains("hand-edit") || text.contains("preserved"));

    // The written file must reload to the same thing it was created from.
    let again =
        Config::load_from(FileRead::Text(text), "config.toml", "/models").expect("second load");
    let reloaded = again.config;
    assert_eq!(reloaded.language, config.language);
    assert_eq!(reloaded.hotkey, config.hotkey);
    assert_eq!(reloaded.models_dir, config.models_dir);
    assert_eq!(reloaded.models_dir, "/models");
    assert_eq!(reloaded.audio_cues, config.audio_cues);
    assert_eq!(reloaded.overlay, config.overlay);
    assert_eq!(reloaded.overlay_corner, config.overlay_corner);
    assert_eq!(reloaded.reveal_seconds, config.reveal_seconds);
    assert_eq!(reloaded.close_quits, config.close_quits);
    assert_eq!(reloaded.hide_deleted, config.hide_deleted);
}

#[test]
fn malformed_file_errors_with_its_path_and_is_left_alone() {
    let broken = "language = \n[[projects]\n".to_owned();
    let err = Config::load_from(FileRead::Text(broken), "dir/config.toml", "/models")
        .expect_err("must not parse");
    assert!(matches!(err, ConfigError::Parse { .. }));
    assert_eq!(err.path(), Some("dir/config.toml"));
    assert!(err.message().contains("config.toml"));
    assert!(err.message().contains("is not valid TOML: "));
}

#[test]
fn a_file_that_cannot_be_read_is_reported() {
    let err = Config::load_from(FileRead::Failed("denied".to_owned()), "c.toml", "/models")
        .expect_err("must be reported");
    assert_eq!(err.message(), "could not read config file c.toml: denied");
    let write = ConfigError::Write { path: "c.toml".to_owned(), reason: "full".to_owned() };
    assert_eq!(write.message(), "could not write config file c.toml: full");
    assert_eq!(write.path(), Some("c.toml"));
    assert_eq!(ConfigError::NoConfigDir.path(), None);
}

#[test]
fn default_config_path_is_under_a_sotone_directory() {
    match default_config_path() {
        Ok(path) => assert!(path.text().ends_with("sotone/config.toml")),
        Err(err) => assert!(matches!(err, ConfigError::NoConfigDir)),
    }
    let here = config_path_under(Some(NotePath::new("/etc"))).expect("a directory is reported");
    assert_eq!(path_to_string(&here), "/etc/sotone/config.toml");
    let err = config_path_under(None).expect_err("no directory is reported");
    assert_eq!(
        err.message(),
        "this platform reports no user config directory; pass a config path explicitly"
    );
}

#[test]
fn default_models_dir_is_absolute_or_a_sane_fallback() {
    let dir = default_models_dir();
    assert_eq!(dir.file_name().as_deref(), Some("models"));
    assert_eq!(models_dir_under(Some(NotePath::new("/data"))).text(), "/data/sotone/models");
    assert_eq!(models_dir_under(None).text(), "models");
}

#[test]
fn the_notes_root_prefers_documents_over_home() {
    let documents = || Some(NotePath::new("/home/u/Documents"));
    let home = || Some(NotePath::new("/home/u"));
    assert_eq!(notes_root_under(documents(), home()).text(), "/home/u/Documents/Sotone");
    assert_eq!(notes_root_under(None, home()).text(), "/home/u/Sotone");
    assert_eq!(notes_root_under(None, None).text(), "Sotone");
}

#[test]
fn every_type_error_names_the_key_and_what_it_holds() {
    let detail = |text: &str| match Config::from_toml_with(text, "c.toml", "/models") {
        Err(ConfigError::Invalid { detail, .. }) => detail,
        other => panic!("{other:?}"),
    };
    assert_eq!(detail("language = 7\n"), "`language` should be a string, but it is integer");
    assert_eq!(detail("overlay = 1.5\n"), "`overlay` should be true or false, but it is float");
    assert_eq!(
        detail("hotkey = 2020-01-01\n"),
        "`hotkey` should be a string, but it is datetime"
    );
    assert_eq!(
        detail("reveal_seconds = true\n"),
        "`reveal_seconds` should be a whole number of seconds, but it is boolean"
    );
    assert_eq!(
        detail("reveal_seconds = 4294967296\n"),
        "`reveal_seconds` should be a whole number of seconds, but it is integer"
    );
    assert_eq!(
        detail("projects = []\n"),
        "`projects` should be a list of [[projects]] tables, but it is array"
    );
    assert_eq!(
        detail("projects = {}\n"),
        "`projects` should be a list of [[projects]] tables, but it is inline table"
    );
    assert_eq!(detail("[theme]\n"), "`theme` should be a string, but it is table");
    assert_eq!(detail("[[theme]]\n"), "`theme` should be a string, but it is array of tables");
    assert_eq!(
        detail("[[projects]]\nname = \"a\"\nvocabulary = \"x\"\n"),
        "`vocabulary` should be a list of strings, but it is string"
    );
    assert_eq!(
        detail("[[projects]]\nname = \"a\"\nvocabulary = [\"x\", 1, [2]]\n"),
        "`vocabulary` should contain only strings, but it has a integer"
    );
    assert_eq!(
        detail("[[projects]]\nmodel = \"a\"\n"),
        "every [[projects]] table needs a `name`"
    );
    assert_eq!(
        detail("[[projects]]\nname = \"a\"\n[[projects]]\nname = \"a\"\n"),
        "two projects are named \"a\"; project names are the key Sotone uses"
    );
    // The first thing that is wrong is the one that is said.
    assert_eq!(
        detail("language = 7\nptt_enabled = false\ntoggle_enabled = false\n"),
        "at least one of push-to-talk and toggle must be enabled; set `ptt_enabled` or \
         `toggle_enabled` to true"
    );
}

#[test]
fn a_save_is_read_back_whatever_the_texts_hold() {
    let mut config = Config::default_in("/models");
    config.language = "a \"quote\", a 'quote', a \\ and a \t\u{7f}\u{1}".to_owned();
    config.hotkey = "two\nlines \"\"\" '''".to_owned();
    config.toggle_hotkey = "\r\n".to_owned();
    config.active_model = Some(String::new());
    config.mic_substring = Some("\u{1f3a4} mic".to_owned());
    config.reveal_seconds = 61;
    config.theme = Theme::Light;
    config.overlay_corner = OverlayCorner::TopLeft;
    config.hide_deleted = true;
    config.active_project = Some("b".to_owned());
    let mut first = Project::new("a # not a comment", "");
    first.vocabulary = vec!["x, y".to_owned(), "]".to_owned()];
    first.header_template = Some("# {project}\n".to_owned());
    let mut second = Project::new("b", "/notes");
    second.model = Some("m".to_owned());
    second.language = Some("de".to_owned());
    second.session_dividers = false;
    second.filename_template = "{date}.md".to_owned();
    config.projects = vec![first, second];

    let again = read_again(&mut config);
    assert_eq!(again.language, config.language);
    assert_eq!(again.hotkey, config.hotkey);
    assert_eq!(again.toggle_hotkey, config.toggle_hotkey);
    assert_eq!(again.active_model, config.active_model);
    assert_eq!(again.mic_substring, config.mic_substring);
    assert_eq!(again.reveal_seconds, MAX_REVEAL_SECONDS);
    assert_eq!(again.theme, config.theme);
    assert_eq!(again.overlay_corner, config.overlay_corner);
    assert_eq!(again.hide_deleted, config.hide_deleted);
    assert_eq!(again.onboarded, config.onboarded);
    assert_eq!(again.active_project, config.active_project);
    assert_eq!(again.projects, config.projects);

    // The second save writes the same bytes.
    let once = config.to_toml_string_with("/models");
    assert_eq!(config.to_toml_string_with("/models"), once);
    let mut copy = config.clone();
    assert_eq!(copy.to_toml_string_with("/models"), once);
}

#[test]
fn a_project_table_with_headers_of_its_own_keeps_them() {
    let text = "[[projects]]\nname = \"a\"\n[projects.extra]\nk = 1\n\n[other]\nz = 2\n";
    let mut config = Config::from_toml_with(text, "c.toml", "/models").expect("parse");
    assert_eq!(config.to_toml_string_with("/models"), text);
    config.projects.push(Project::new("b", "/b"));
    let out = config.to_toml_string_with("/models");
    assert!(out.contains("[projects.extra]\nk = 1\n"), "{out}");
    assert!(out.contains("[other]\nz = 2\n"), "{out}");
    let again = Config::from_toml_with(&out, "c.toml", "/models").expect("reparse");
    assert_eq!(again.projects, config.projects);
}

#[test]
fn a_word_in_another_spelling_is_rewritten_and_a_number_is_not() {
    let text = "theme = \"LIGHT\" # mine\nreveal_seconds = 0x0a\nhotkey = 'F15'\n";
    let mut config = Config::from_toml_with(text, "c.toml", "/models").expect("parse");
    assert_eq!(
        config.to_toml_string_with("/models"),
        "theme = \"light\" # mine\nreveal_seconds = 0x0a\nhotkey = 'F15'\n"
    );
}

#[test]
fn a_setting_prints_as_itself() {
    assert_eq!(format!("{:?}", Setting::Flag(true)), "Flag(true)");
    assert_eq!("light".parse::<Theme>(), Ok(Theme::Light));
    assert_eq!("TopLeft".parse::<OverlayCorner>(), Ok(OverlayCorner::TopLeft));
    assert_eq!("YES".parse::<Onboarded>(), Ok(Onboarded::Yes));
    assert!(OverlayCorner::TopLeft.is_left() && OverlayCorner::TopLeft.is_top());
    assert!(!OverlayCorner::BottomRight.is_left() && !OverlayCorner::BottomRight.is_top());
    assert_eq!(Theme::default(), Theme::Dark);
    assert_eq!(OverlayCorner::default(), OverlayCorner::BottomLeft);
    assert_eq!(ProjectRenameError::Blank.message(), "a project needs a name");
}

#[test]
fn unknown_keys_keep_their_order_and_new_ones_come_last() {
    let text = "zeta = 1\nhotkey = \"F15\"\nalpha = 2\n[extra]\nk = 1\n";
    let mut config = Config::from_toml_with(text, "c.toml", "/models").expect("parse");
    config.close_quits = true;
    config.theme = Theme::Light;
    assert_eq!(
        config.to_toml_string_with("/models"),
        "zeta = 1\nhotkey = \"F15\"\nalpha = 2\ntheme = \"light\"\nclose_quits = true\n[extra]\nk = 1\n"
    );
}

#[test]
fn projects_that_use_one_key_in_two_ways_survive_a_save() {
    let text = "[[projects]]\nname = \"A\"\nextra = 1\n\n[[projects]]\nname = \"B\"\n[projects.extra]\nk = 1\n";
    let mut config = Config::from_toml_with(text, "c.toml", "/models").expect("parse");
    assert_eq!(config.to_toml_string_with("/models"), text);
    config.projects[0].notes_dir = "/a".to_owned();
    config.projects[1].language = Some("de".to_owned());
    config.theme = Theme::Light;
    let again = read_again(&mut config);
    assert_eq!(again.projects, config.projects);
    assert_eq!(again.theme, Theme::Light);
    let out = config.to_toml_string_with("/models");
    assert!(out.contains("extra = 1\n"), "{out}");
    assert!(out.contains("[projects.extra]\nk = 1\n"), "{out}");

    // The project with the header goes, and the other stays as it was.
    config.projects.truncate(1);
    let again = read_again(&mut config);
    assert_eq!(again.projects, config.projects);
}

#[test]
fn headers_of_a_project_keep_their_order_while_its_settings_change() {
    let text = "[[projects]]\nname = \"A\"\nnotes_dir = \"/n\"\n[[projects.list]]\n[projects.c]\n[projects.list.sub]\n[[projects.list]]\n";
    let mut config = Config::from_toml_with(text, "c.toml", "/models").expect("parse");
    assert_eq!(config.to_toml_string_with("/models"), text);
    config.projects[0].notes_dir = "/m".to_owned();
    config.projects[0].model = Some("small".to_owned());
    config.audio_cues = false;
    let again = read_again(&mut config);
    assert_eq!(again.projects, config.projects);
    assert!(!again.audio_cues);
    let out = config.to_toml_string_with("/models");
    let headers = "[[projects.list]]\n[projects.c]\n[projects.list.sub]\n[[projects.list]]\n";
    assert!(out.ends_with(headers), "{out}");
}

#[test]
fn a_changed_value_keeps_its_place_and_the_comment_above_it() {
    let text = "zeta = 1\n# which key\nhotkey = \"F15\" # mine\n# gone with its key\nactive_model = \"m\"\nalpha = 2\n";
    let mut config = Config::from_toml_with(text, "c.toml", "/models").expect("parse");
    config.hotkey = "F16".to_owned();
    config.active_model = None;
    config.theme = Theme::Light;
    assert_eq!(
        config.to_toml_string_with("/models"),
        "zeta = 1\n# which key\nhotkey = \"F16\" # mine\nalpha = 2\ntheme = \"light\"\n"
    );
}

#[test]
fn a_folder_is_shared_by_its_text_or_by_its_path() {
    // Texts that only the platform can read still share a folder.
    let same_text = vec![
        Project::new("Ludo", "//host:1/x"),
        Project::new("Other", "/y"),
        Project::new("Sotone", "//host:1/x"),
    ];
    assert_eq!(
        folder_plan(&same_text, "Ludo", "Checkout"),
        FolderPlan::Keep(FolderKept::Shared)
    );
    assert_eq!(
        folder_plan(&same_text, "Sotone", "Checkout"),
        FolderPlan::Keep(FolderKept::Shared)
    );
    let same_path = vec![Project::new("Ludo", "/notes/x"), Project::new("Sotone", "/notes//x/")];
    assert_eq!(
        folder_plan(&same_path, "Ludo", "Checkout"),
        FolderPlan::Keep(FolderKept::Shared)
    );
    // A twin of the name is no other project.
    let twins = vec![Project::new("Ludo", "/notes/x"), Project::new("Ludo", "/notes/x")];
    assert_eq!(
        folder_plan(&twins, "Ludo", "Checkout"),
        FolderPlan::Rename {
            from: NotePath::new("/notes/x"),
            to: NotePath::new("/notes/Checkout"),
        }
    );
}

#[test]
fn a_directory_is_written_as_it_was_read() {
    let data = NotePath::new("/data//me/");
    let models = models_dir_under(Some(data.clone()));
    assert_eq!(models, NotePath::new("/data/me/sotone/models"));
    assert_eq!(path_to_string(&models), "/data//me/sotone/models");
    assert_eq!(path_to_string(&models_dir_under(None)), "models");
    assert_eq!(path_to_string(&data), "/data//me/");
}

#[test]
fn a_project_is_added_behind_everything_that_belongs_to_the_others() {
    let cases = [
        // A header below a project's own, and a dotted key.
        "[[projects]]\nname = \"A\"\n[projects.meta]\nk = 1\n\n[other]\nz = 2\n",
        "[[projects]]\nname = \"A\"\nmeta.x = 1\n\n[other]\nz = 2\n",
        // Headers that stand in another order than their tables.
        "[[projects]]\nname = \"A\"\nnotes_dir = \"/n\"\n[[projects.list]]\n[projects.c]\n[projects.list.sub]\n[[projects.list]]\n",
        "[[projects]]\nname = \"A\"\n[[projects.w]]\n[projects.y]\n[projects.w.k]\n[[projects.w]]\n[other]\nz = 2\n",
        "[[projects]]\nname = \"A\"\n[projects.x.y]\nk = 1\n[projects.z]\nk = 2\n[projects.x]\nk = 3\n",
        "[other]\nz = 2\n",
        "",
    ];
    for text in cases {
        let mut config = Config::from_toml_with(text, "c.toml", "/models").expect("parse");
        for name in ["B", "C"] {
            config.projects.push(Project::new(name, "/b"));
            let again = read_again(&mut config);
            assert_eq!(again.projects, config.projects, "{text}");
        }
        // Nothing that was there has changed or moved to another project.
        let out = config.to_toml_string_with("/models");
        assert!(out.starts_with(text.split("\n[other]").next().expect("head")), "{out}");
        assert_eq!(out.contains("[other]\nz = 2\n"), text.contains("[other]"), "{out}");
        assert_eq!(config.to_toml_string_with("/models"), out);
    }
}

#[test]
fn a_new_project_stands_where_the_list_of_projects_ends() {
    let text = "[[projects]]\nname = \"A\"\n[projects.meta]\nk = 1\n\n[other]\nz = 2\n";
    let mut config = Config::from_toml_with(text, "c.toml", "/models").expect("parse");
    config.projects.push(Project::new("B", "/b"));
    assert_eq!(
        config.to_toml_string_with("/models"),
        "[[projects]]\nname = \"A\"\n[projects.meta]\nk = 1\n\n[[projects]]\nname = \"B\"\nnotes_dir = \"/b\"\n\n[other]\nz = 2\n"
    );
}
