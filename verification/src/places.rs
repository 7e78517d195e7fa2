//! Where things live when the user has not said otherwise.

use crate::config::error::{ConfigError, ConfigErrorView};
use crate::path::{below, opt_path, reads_as, NotePath, PartView, PathView};
use vstd::prelude::*;

verus! {

/// Directory name used under the platform's directories.
pub const APP_DIR: &'static str = "sotone";

/// `dirs::data_dir`: the platform's data directory, as text, where it reports
/// one. What it reports is left open.
#[verifier::external_body]
pub(crate) fn data_dir_text() -> (r: Option<String>) {
    dirs::data_dir().map(|dir| dir.to_string_lossy().into_owned())
}

/// `dirs::config_dir`: the platform's configuration directory, as text, where it
/// reports one. What it reports is left open.
#[verifier::external_body]
fn config_dir_text() -> (r: Option<String>) {
    dirs::config_dir().map(|dir| dir.to_string_lossy().into_owned())
}

/// `dirs::document_dir`: the user's documents, as text, where the platform
/// reports them. What it reports is left open.
#[verifier::external_body]
fn document_dir_text() -> (r: Option<String>) {
    dirs::document_dir().map(|dir| dir.to_string_lossy().into_owned())
}

/// `dirs::home_dir`: the user's home, as text, where the platform reports one.
/// What it reports is left open.
#[verifier::external_body]
fn home_dir_text() -> (r: Option<String>) {
    dirs::home_dir().map(|dir| dir.to_string_lossy().into_owned())
}

fn read_opt(text: Option<String>) -> (r: Option<NotePath>)
    ensures
        match (r, text) {
            (Some(path), Some(text)) => reads_as(text@, path@),
            (None, None) => true,
            _ => false,
        },
{
    match text {
        Some(text) => Some(NotePath::new(&text)),
        None => None,
    }
}

/// A path with nothing in it.
pub open spec fn no_path() -> PathView {
    PathView { absolute: false, parts: Seq::empty(), text: Seq::empty() }
}

/// A path as text, as it is written.
pub fn path_to_string(path: &NotePath) -> (r: String)
    ensures
        r@ == path@.text,
{
    path.text()
}

/// The configuration file under a configuration directory.
pub open spec fn config_file_in(dir: PathView) -> PathView {
    below(below(dir, APP_DIR@), "config.toml"@)
}

/// The configuration file under a configuration directory. Without one the
/// caller has to ask for a path.
pub fn config_path_under(dir: Option<NotePath>) -> (r: Result<NotePath, ConfigError>)
    ensures
        match (r, opt_path(dir)) {
            (Ok(path), Some(dir)) => path@ == config_file_in(dir),
            (Err(e), None) => e@ == ConfigErrorView::NoConfigDir,
            _ => false,
        },
{
    match dir {
        Some(dir) => Ok(dir.child(APP_DIR).child("config.toml")),
        None => Err(ConfigError::NoConfigDir),
    }
}

/// Where the configuration lives on this machine.
pub fn default_config_path() -> (r: Result<NotePath, ConfigError>)
    ensures
        match r {
            Ok(path) => exists|dir: PathView| path@ == #[trigger] config_file_in(dir),
            Err(e) => e@ == ConfigErrorView::NoConfigDir,
        },
{
    let dir = read_opt(config_dir_text());
    config_path_under(dir)
}

/// The models directory under a data directory, or a relative folder when there
/// is none.
pub open spec fn models_dir_in(data: Option<PathView>) -> PathView {
    match data {
        Some(dir) => below(below(dir, APP_DIR@), "models"@),
        None => below(no_path(), "models"@),
    }
}

/// The models directory under a data directory, or a relative folder when there
/// is none.
pub fn models_dir_under(data: Option<NotePath>) -> (r: NotePath)
    ensures
        r@ == models_dir_in(opt_path(data)),
{
    match data {
        Some(dir) => dir.child(APP_DIR).child("models"),
        None => NotePath::empty().child("models"),
    }
}

/// The models directory on this machine.
pub fn default_models_dir() -> (r: NotePath)
    ensures
        exists|data: Option<PathView>| r@ == #[trigger] models_dir_in(data),
{
    let data = read_opt(data_dir_text());
    models_dir_under(data)
}

/// The notes root offered to a new user: a folder in the documents, in the home
/// where there are none, and a relative one where there is neither.
pub open spec fn notes_root_in(documents: Option<PathView>, home: Option<PathView>) -> PathView {
    match documents {
        Some(dir) => below(dir, "Sotone"@),
        None => match home {
            Some(dir) => below(dir, "Sotone"@),
            None => below(no_path(), "Sotone"@),
        },
    }
}

/// The notes root offered to a new user.
pub fn notes_root_under(documents: Option<NotePath>, home: Option<NotePath>) -> (r: NotePath)
    ensures
        r@ == notes_root_in(opt_path(documents), opt_path(home)),
{
    match documents {
        Some(dir) => dir.child("Sotone"),
        None => match home {
            Some(dir) => dir.child("Sotone"),
            None => NotePath::empty().child("Sotone"),
        },
    }
}

/// The notes root offered on this machine.
pub fn default_notes_root() -> (r: NotePath)
    ensures
        exists|documents: Option<PathView>, home: Option<PathView>|
            r@ == #[trigger] notes_root_in(documents, home),
{
    let documents = read_opt(document_dir_text());
    let home = read_opt(home_dir_text());
    notes_root_under(documents, home)
}

/// Everything lives under a folder of the app's own: the configuration in the
/// configuration directory, the models in the data directory; without one, in a
/// folder next to the app.
pub proof fn the_default_places_are_the_apps_own(dir: PathView)
    ensures
        config_file_in(dir).parts == dir.parts.push(PartView::Name("sotone"@)).push(
            PartView::Name("config.toml"@),
        ),
        models_dir_in(Some(dir)).parts == dir.parts.push(PartView::Name("sotone"@)).push(
            PartView::Name("models"@),
        ),
        models_dir_in(None).parts == seq![PartView::Name("models"@)],
        models_dir_in(Some(dir)).absolute == dir.absolute,
        !models_dir_in(None).absolute,
{
    assert(models_dir_in(None).parts =~= seq![PartView::Name("models"@)]);
}

/// A new user is offered a folder among the documents, where the platform knows
/// them, in the home otherwise, and a relative one where it knows neither.
pub proof fn notes_go_to_the_documents_first(documents: Option<PathView>, home: Option<PathView>)
    ensures
        notes_root_in(documents, home).parts == (match (documents, home) {
            (Some(dir), _) => dir.parts,
            (None, Some(dir)) => dir.parts,
            (None, None) => Seq::empty(),
        }).push(PartView::Name("Sotone"@)),
{
}

} // verus!
