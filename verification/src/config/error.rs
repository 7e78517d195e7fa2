//! Why a configuration could not be loaded or saved.

use crate::text::{a_part_occurs_in_the_whole, glue, occurs_in, owned};
use vstd::prelude::*;

verus! {

/// Everything that can go wrong loading or saving the configuration. A variant
/// that is about a file names it.
#[derive(Debug, PartialEq, Eq)]
pub enum ConfigError {
    /// The file is not valid TOML. It is left untouched.
    Parse { path: String, reason: String },
    /// The file is valid TOML but does not describe a configuration: a key of
    /// the wrong type, or a project without a name of its own.
    Invalid { path: String, detail: String },
    /// The file could not be read.
    Read { path: String, reason: String },
    /// The file could not be written. The previous contents are intact.
    Write { path: String, reason: String },
    /// The platform reports no config directory at all.
    NoConfigDir,
}

/// What a [`ConfigError`] holds.
pub enum ConfigErrorView {
    Parse { path: Seq<char>, reason: Seq<char> },
    Invalid { path: Seq<char>, detail: Seq<char> },
    Read { path: Seq<char>, reason: Seq<char> },
    Write { path: Seq<char>, reason: Seq<char> },
    NoConfigDir,
}

impl View for ConfigError {
    type V = ConfigErrorView;

    open spec fn view(&self) -> ConfigErrorView {
        match self {
            ConfigError::Parse { path, reason } => ConfigErrorView::Parse {
                path: path@,
                reason: reason@,
            },
            ConfigError::Invalid { path, detail } => ConfigErrorView::Invalid {
                path: path@,
                detail: detail@,
            },
            ConfigError::Read { path, reason } => ConfigErrorView::Read {
                path: path@,
                reason: reason@,
            },
            ConfigError::Write { path, reason } => ConfigErrorView::Write {
                path: path@,
                reason: reason@,
            },
            ConfigError::NoConfigDir => ConfigErrorView::NoConfigDir,
        }
    }
}

/// The sentence that tells the user what happened.
pub open spec fn config_error_text(e: ConfigErrorView) -> Seq<char> {
    match e {
        ConfigErrorView::Parse { path, reason } => "config file "@ + path
            + " is not valid TOML: "@ + reason,
        ConfigErrorView::Invalid { path, detail } => "config file "@ + path + " is not usable: "@
            + detail,
        ConfigErrorView::Read { path, reason } => "could not read config file "@ + path + ": "@
            + reason,
        ConfigErrorView::Write { path, reason } => "could not write config file "@ + path + ": "@
            + reason,
        ConfigErrorView::NoConfigDir =>
            "this platform reports no user config directory; pass a config path explicitly"@,
    }
}

fn sentence(head: &str, path: &str, middle: &str, rest: &str) -> (r: String)
    ensures
        r@ == head@ + path@ + middle@ + rest@,
{
    let mut out = glue(head, path, middle);
    out.push_str(rest);
    out
}

impl ConfigError {
    /// The file the error is about, when there is one.
    pub fn path(&self) -> (r: Option<&str>)
        ensures
            match (r, self@) {
                (Some(p), ConfigErrorView::Parse { path, .. }) => p@ == path,
                (Some(p), ConfigErrorView::Invalid { path, .. }) => p@ == path,
                (Some(p), ConfigErrorView::Read { path, .. }) => p@ == path,
                (Some(p), ConfigErrorView::Write { path, .. }) => p@ == path,
                (None, ConfigErrorView::NoConfigDir) => true,
                _ => false,
            },
    {
        match self {
            ConfigError::Parse { path, .. } => Some(path.as_str()),
            ConfigError::Invalid { path, .. } => Some(path.as_str()),
            ConfigError::Read { path, .. } => Some(path.as_str()),
            ConfigError::Write { path, .. } => Some(path.as_str()),
            ConfigError::NoConfigDir => None,
        }
    }

    /// The sentence that tells the user what happened.
    pub fn message(&self) -> (r: String)
        ensures
            r@ == config_error_text(self@),
    {
        match self {
            ConfigError::Parse { path, reason } => sentence(
                "config file ",
                path,
                " is not valid TOML: ",
                reason,
            ),
            ConfigError::Invalid { path, detail } => sentence(
                "config file ",
                path,
                " is not usable: ",
                detail,
            ),
            ConfigError::Read { path, reason } => sentence(
                "could not read config file ",
                path,
                ": ",
                reason,
            ),
            ConfigError::Write { path, reason } => sentence(
                "could not write config file ",
                path,
                ": ",
                reason,
            ),
            ConfigError::NoConfigDir => owned(
                "this platform reports no user config directory; pass a config path explicitly",
            ),
        }
    }
}

/// The error of a file that parses but is not usable.
pub fn unusable(path: &str, detail: String) -> (r: ConfigError)
    ensures
        r@ == (ConfigErrorView::Invalid { path: path@, detail: detail@ }),
{
    ConfigError::Invalid { path: owned(path), detail }
}

/// The sentence of an error names the file it is about and says what is wrong
/// with it.
pub proof fn an_error_names_its_file_and_its_reason(e: ConfigErrorView)
    ensures
        e matches ConfigErrorView::Parse { path, reason } ==> occurs_in(path, config_error_text(e))
            && occurs_in(reason, config_error_text(e)),
        e matches ConfigErrorView::Invalid { path, detail } ==> occurs_in(
            path,
            config_error_text(e),
        ) && occurs_in(detail, config_error_text(e)),
        e matches ConfigErrorView::Read { path, reason } ==> occurs_in(path, config_error_text(e))
            && occurs_in(reason, config_error_text(e)),
        e matches ConfigErrorView::Write { path, reason } ==> occurs_in(path, config_error_text(e))
            && occurs_in(reason, config_error_text(e)),
{
    let text = config_error_text(e);
    match e {
        ConfigErrorView::Parse { path, reason } => {
            let (x, y) = ("config file "@, " is not valid TOML: "@);
            a_part_occurs_in_the_whole(x, path, y + reason);
            assert(text =~= x + path + (y + reason));
            a_part_occurs_in_the_whole(x + path + y, reason, Seq::empty());
        },
        ConfigErrorView::Invalid { path, detail } => {
            let (x, y) = ("config file "@, " is not usable: "@);
            a_part_occurs_in_the_whole(x, path, y + detail);
            assert(text =~= x + path + (y + detail));
            a_part_occurs_in_the_whole(x + path + y, detail, Seq::empty());
        },
        ConfigErrorView::Read { path, reason } => {
            let (x, y) = ("could not read config file "@, ": "@);
            a_part_occurs_in_the_whole(x, path, y + reason);
            assert(text =~= x + path + (y + reason));
            a_part_occurs_in_the_whole(x + path + y, reason, Seq::empty());
        },
        ConfigErrorView::Write { path, reason } => {
            let (x, y) = ("could not write config file "@, ": "@);
            a_part_occurs_in_the_whole(x, path, y + reason);
            assert(text =~= x + path + (y + reason));
            a_part_occurs_in_the_whole(x + path + y, reason, Seq::empty());
        },
        ConfigErrorView::NoConfigDir => {},
    }
}

} // verus!
