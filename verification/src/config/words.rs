//! The settings that are one of a few words, and the rules between settings.

use crate::text::{ascii_lowered, glue, opt_text, owned, same_text, trim_back, trim_front, trimmed};
use vstd::prelude::*;

verus! {

/// Language token that leaves the choice to the model.
pub const DEFAULT_LANGUAGE: &'static str = "auto";

/// Push-to-talk binding of a fresh install.
pub const DEFAULT_HOTKEY: &'static str = "F13";

/// Toggle binding of a fresh install.
pub const DEFAULT_TOGGLE_HOTKEY: &'static str = "F14";

/// File name template of a new project, tokens unrendered.
pub const DEFAULT_FILENAME_TEMPLATE: &'static str = "{project} {date} {time}.md";

/// How long a transcribed line stays on the overlay, in seconds.
pub const DEFAULT_REVEAL_SECONDS: u32 = 10;

/// The shortest reveal the setting allows.
pub const MIN_REVEAL_SECONDS: u32 = 3;

/// The longest.
pub const MAX_REVEAL_SECONDS: u32 = 60;

/// A word as it is compared: without white space around it, and in lower case.
pub open spec fn plain_word(text: Seq<char>) -> Seq<char> {
    ascii_lowered(trimmed(text))
}

// ---------------------------------------------------------------------------
// Theme
// ---------------------------------------------------------------------------

/// Which palette the window draws in.
#[derive(Debug, Clone, Copy, PartialEq, Eq, Structural)]
pub enum Theme {
    Dark,
    Light,
}

/// The word a theme is written as.
pub open spec fn theme_word(t: Theme) -> Seq<char> {
    match t {
        Theme::Dark => "dark"@,
        Theme::Light => "light"@,
    }
}

/// The theme a text names, or what to say of a text that names none.
pub open spec fn theme_named(text: Seq<char>) -> Result<Theme, Seq<char>> {
    let word = plain_word(text);
    if word == "dark"@ {
        Ok(Theme::Dark)
    } else if word == "light"@ {
        Ok(Theme::Light)
    } else {
        Err("`theme` should be \"dark\" or \"light\", but it is \""@ + word + "\""@)
    }
}

impl Default for Theme {
    fn default() -> (r: Self)
        ensures
            r == Theme::Dark,
    {
        Theme::Dark
    }
}

impl Theme {
    /// The word this is written as.
    pub fn as_str(self) -> (r: &'static str)
        ensures
            r@ == theme_word(self),
    {
        match self {
            Theme::Dark => "dark",
            Theme::Light => "light",
        }
    }

    /// The theme a text names: case and white space around it do not matter, and
    /// any other word is refused with a sentence.
    pub fn parse(text: &str) -> (r: Result<Theme, String>)
        ensures
            said(r) == theme_named(text@),
    {
        let word = text.trim().to_ascii_lowercase();
        if same_text(&word, "dark") {
            Ok(Theme::Dark)
        } else if same_text(&word, "light") {
            Ok(Theme::Light)
        } else {
            Err(glue("`theme` should be \"dark\" or \"light\", but it is \"", &word, "\""))
        }
    }
}

impl core::str::FromStr for Theme {
    type Err = String;

    fn from_str(text: &str) -> (r: Result<Self, String>)
        ensures
            said(r) == theme_named(text@),
    {
        Theme::parse(text)
    }
}

/// A result with its sentence as characters.
pub open spec fn said<T>(r: Result<T, String>) -> Result<T, Seq<char>> {
    match r {
        Ok(value) => Ok(value),
        Err(sentence) => Err(sentence@),
    }
}

// ---------------------------------------------------------------------------
// Overlay corner
// ---------------------------------------------------------------------------

/// Which screen corner the overlay docks to.
#[derive(Debug, Clone, Copy, PartialEq, Eq, Structural)]
pub enum OverlayCorner {
    BottomLeft,
    BottomRight,
    TopLeft,
    TopRight,
}

/// The word a corner is written as.
pub open spec fn corner_word(c: OverlayCorner) -> Seq<char> {
    match c {
        OverlayCorner::BottomLeft => "bottomLeft"@,
        OverlayCorner::BottomRight => "bottomRight"@,
        OverlayCorner::TopLeft => "topLeft"@,
        OverlayCorner::TopRight => "topRight"@,
    }
}

/// The corner a text names, or what to say of a text that names none.
pub open spec fn corner_named(text: Seq<char>) -> Result<OverlayCorner, Seq<char>> {
    let word = plain_word(text);
    if word == "bottomleft"@ {
        Ok(OverlayCorner::BottomLeft)
    } else if word == "bottomright"@ {
        Ok(OverlayCorner::BottomRight)
    } else if word == "topleft"@ {
        Ok(OverlayCorner::TopLeft)
    } else if word == "topright"@ {
        Ok(OverlayCorner::TopRight)
    } else {
        Err(
            "`overlay_corner` should be \"bottomLeft\", \"bottomRight\", \"topLeft\" or \"topRight\", but it is \""@
                + word + "\""@,
        )
    }
}

impl Default for OverlayCorner {
    fn default() -> (r: Self)
        ensures
            r == OverlayCorner::BottomLeft,
    {
        OverlayCorner::BottomLeft
    }
}

impl OverlayCorner {
    /// The word this is written as.
    pub fn as_str(self) -> (r: &'static str)
        ensures
            r@ == corner_word(self),
    {
        match self {
            OverlayCorner::BottomLeft => "bottomLeft",
            OverlayCorner::BottomRight => "bottomRight",
            OverlayCorner::TopLeft => "topLeft",
            OverlayCorner::TopRight => "topRight",
        }
    }

    /// Whether the overlay hugs the left edge.
    pub fn is_left(self) -> (r: bool)
        ensures
            r == (self == OverlayCorner::BottomLeft || self == OverlayCorner::TopLeft),
    {
        matches!(self, OverlayCorner::BottomLeft | OverlayCorner::TopLeft)
    }

    /// Whether the overlay hugs the top edge.
    pub fn is_top(self) -> (r: bool)
        ensures
            r == (self == OverlayCorner::TopLeft || self == OverlayCorner::TopRight),
    {
        matches!(self, OverlayCorner::TopLeft | OverlayCorner::TopRight)
    }

    /// The corner a text names: case and white space around it do not matter, and
    /// any other word is refused with a sentence.
    pub fn parse(text: &str) -> (r: Result<OverlayCorner, String>)
        ensures
            said(r) == corner_named(text@),
    {
        let word = text.trim().to_ascii_lowercase();
        if same_text(&word, "bottomleft") {
            Ok(OverlayCorner::BottomLeft)
        } else if same_text(&word, "bottomright") {
            Ok(OverlayCorner::BottomRight)
        } else if same_text(&word, "topleft") {
            Ok(OverlayCorner::TopLeft)
        } else if same_text(&word, "topright") {
            Ok(OverlayCorner::TopRight)
        } else {
            Err(
                glue(
                    "`overlay_corner` should be \"bottomLeft\", \"bottomRight\", \"topLeft\" or \"topRight\", but it is \"",
                    &word,
                    "\"",
                ),
            )
        }
    }
}

impl core::str::FromStr for OverlayCorner {
    type Err = String;

    fn from_str(text: &str) -> (r: Result<Self, String>)
        ensures
            said(r) == corner_named(text@),
    {
        OverlayCorner::parse(text)
    }
}

// ---------------------------------------------------------------------------
// Onboarding
// ---------------------------------------------------------------------------

/// Whether the onboarding wizard still has to run.
///
/// There is no default: a missing key means that it is long done, a fresh
/// install means that it is still to come.
#[derive(Debug, Clone, Copy, PartialEq, Eq, Structural)]
pub enum Onboarded {
    /// The wizard has never been finished.
    No,
    /// The wizard finished and a restart followed: the first real launch.
    FirstLaunch,
    /// Every launch from then on.
    Yes,
}

/// What an absent key means: the wizard is behind this user.
pub const ONBOARDED_WHEN_ABSENT: Onboarded = Onboarded::Yes;

/// The word this is written as.
pub open spec fn onboarded_word(o: Onboarded) -> Seq<char> {
    match o {
        Onboarded::No => "no"@,
        Onboarded::FirstLaunch => "first-launch"@,
        Onboarded::Yes => "yes"@,
    }
}

/// What a text names, or what to say of a text that names nothing.
pub open spec fn onboarded_named(text: Seq<char>) -> Result<Onboarded, Seq<char>> {
    let word = plain_word(text);
    if word == "no"@ {
        Ok(Onboarded::No)
    } else if word == "first-launch"@ {
        Ok(Onboarded::FirstLaunch)
    } else if word == "yes"@ {
        Ok(Onboarded::Yes)
    } else {
        Err(
            "`onboarded` should be \"no\", \"first-launch\" or \"yes\", but it is \""@ + word
                + "\""@,
        )
    }
}

impl Onboarded {
    /// The word this is written as.
    pub fn as_str(self) -> (r: &'static str)
        ensures
            r@ == onboarded_word(self),
    {
        match self {
            Onboarded::No => "no",
            Onboarded::FirstLaunch => "first-launch",
            Onboarded::Yes => "yes",
        }
    }

    /// Whether the wizard is finished with.
    pub fn is_done(self) -> (r: bool)
        ensures
            r == (self == Onboarded::Yes),
    {
        matches!(self, Onboarded::Yes)
    }

    /// What a text names: case and white space around it do not matter, and any
    /// other word is refused with a sentence.
    pub fn parse(text: &str) -> (r: Result<Onboarded, String>)
        ensures
            said(r) == onboarded_named(text@),
    {
        let word = text.trim().to_ascii_lowercase();
        if same_text(&word, "no") {
            Ok(Onboarded::No)
        } else if same_text(&word, "first-launch") {
            Ok(Onboarded::FirstLaunch)
        } else if same_text(&word, "yes") {
            Ok(Onboarded::Yes)
        } else {
            Err(
                glue(
                    "`onboarded` should be \"no\", \"first-launch\" or \"yes\", but it is \"",
                    &word,
                    "\"",
                ),
            )
        }
    }
}

impl core::str::FromStr for Onboarded {
    type Err = String;

    fn from_str(text: &str) -> (r: Result<Self, String>)
        ensures
            said(r) == onboarded_named(text@),
    {
        Onboarded::parse(text)
    }
}

// ---------------------------------------------------------------------------
// Reveal
// ---------------------------------------------------------------------------

/// The nearest reveal the app honours.
pub open spec fn clamped_reveal(seconds: u32) -> u32 {
    if seconds < MIN_REVEAL_SECONDS {
        MIN_REVEAL_SECONDS
    } else if seconds > MAX_REVEAL_SECONDS {
        MAX_REVEAL_SECONDS
    } else {
        seconds
    }
}

/// The reveal duration the app honours.
pub fn clamp_reveal_seconds(seconds: u32) -> (r: u32)
    ensures
        r == clamped_reveal(seconds),
        MIN_REVEAL_SECONDS <= r <= MAX_REVEAL_SECONDS,
        MIN_REVEAL_SECONDS <= seconds <= MAX_REVEAL_SECONDS ==> r == seconds,
{
    if seconds < MIN_REVEAL_SECONDS {
        MIN_REVEAL_SECONDS
    } else if seconds > MAX_REVEAL_SECONDS {
        MAX_REVEAL_SECONDS
    } else {
        seconds
    }
}

// ---------------------------------------------------------------------------
// Recording modes
// ---------------------------------------------------------------------------

/// The two rules the recording modes obey, as the sentence to show: one of them
/// is enabled, and while both are, their bindings differ.
pub open spec fn mode_problem(
    hotkey: Seq<char>,
    toggle_hotkey: Seq<char>,
    ptt_enabled: bool,
    toggle_enabled: bool,
) -> Option<Seq<char>> {
    if !ptt_enabled && !toggle_enabled {
        Some(
            "at least one of push-to-talk and toggle must be enabled; set `ptt_enabled` or `toggle_enabled` to true"@,
        )
    } else if ptt_enabled && toggle_enabled && plain_word(hotkey) == plain_word(toggle_hotkey) {
        Some(
            "`hotkey` and `toggle_hotkey` are both \""@ + trimmed(hotkey)
                + "\"; push-to-talk and toggle need different bindings while both are enabled"@,
        )
    } else {
        None
    }
}

/// What is wrong with a combination of recording modes, as a sentence to show
/// the user, or `None` when it is fine. Bindings that differ only in case or in
/// the white space around them are one physical key.
pub fn recording_mode_problem(
    hotkey: &str,
    toggle_hotkey: &str,
    ptt_enabled: bool,
    toggle_enabled: bool,
) -> (r: Option<String>)
    ensures
        opt_text(r) == mode_problem(hotkey@, toggle_hotkey@, ptt_enabled, toggle_enabled),
{
    if !ptt_enabled && !toggle_enabled {
        return Some(
            owned(
                "at least one of push-to-talk and toggle must be enabled; set `ptt_enabled` or `toggle_enabled` to true",
            ),
        );
    }
    if ptt_enabled && toggle_enabled {
        let held = hotkey.trim().to_ascii_lowercase();
        let toggled = toggle_hotkey.trim().to_ascii_lowercase();
        if same_text(&held, &toggled) {
            return Some(
                glue(
                    "`hotkey` and `toggle_hotkey` are both \"",
                    hotkey.trim(),
                    "\"; push-to-talk and toggle need different bindings while both are enabled",
                ),
            );
        }
    }
    None
}

// ---------------------------------------------------------------------------
// Laws
// ---------------------------------------------------------------------------

/// A word with no white space at its ends is its own trimming.
proof fn lemma_trimmed_word(word: Seq<char>)
    requires
        word.len() > 0,
        !crate::text::is_white(word[0]),
        !crate::text::is_white(word.last()),
    ensures
        trimmed(word) == word,
{
    reveal_with_fuel(trim_front, 2);
    reveal_with_fuel(trim_back, 2);
}

/// A theme is read back from the word it is written as.
pub proof fn a_theme_is_read_back(t: Theme)
    ensures
        theme_named(theme_word(t)) == Ok::<Theme, Seq<char>>(t),
{
    reveal_strlit("dark");
    reveal_strlit("light");
    lemma_trimmed_word("dark"@);
    lemma_trimmed_word("light"@);
    assert(ascii_lowered("dark"@) =~= "dark"@);
    assert(ascii_lowered("light"@) =~= "light"@);
    assert("dark"@.len() == 4);
    assert("light"@.len() == 5);
}

/// A corner is read back from the word it is written as.
pub proof fn a_corner_is_read_back(c: OverlayCorner)
    ensures
        corner_named(corner_word(c)) == Ok::<OverlayCorner, Seq<char>>(c),
{
    reveal_strlit("bottomLeft");
    reveal_strlit("bottomRight");
    reveal_strlit("topLeft");
    reveal_strlit("topRight");
    reveal_strlit("bottomleft");
    reveal_strlit("bottomright");
    reveal_strlit("topleft");
    reveal_strlit("topright");
    lemma_trimmed_word(corner_word(c));
    assert(ascii_lowered("bottomLeft"@) =~= "bottomleft"@);
    assert(ascii_lowered("bottomRight"@) =~= "bottomright"@);
    assert(ascii_lowered("topLeft"@) =~= "topleft"@);
    assert(ascii_lowered("topRight"@) =~= "topright"@);
    assert("bottomleft"@.len() == 10);
    assert("bottomright"@.len() == 11);
    assert("topleft"@.len() == 7);
    assert("topright"@.len() == 8);
}

/// The onboarding state is read back from the word it is written as.
pub proof fn onboarding_is_read_back(o: Onboarded)
    ensures
        onboarded_named(onboarded_word(o)) == Ok::<Onboarded, Seq<char>>(o),
{
    reveal_strlit("no");
    reveal_strlit("first-launch");
    reveal_strlit("yes");
    lemma_trimmed_word(onboarded_word(o));
    assert(ascii_lowered("no"@) =~= "no"@);
    assert(ascii_lowered("first-launch"@) =~= "first-launch"@);
    assert(ascii_lowered("yes"@) =~= "yes"@);
    assert("no"@.len() == 2);
    assert("first-launch"@.len() == 12);
    assert("yes"@.len() == 3);
}

/// Clamping twice is clamping once.
pub proof fn a_clamped_reveal_is_in_range(seconds: u32)
    ensures
        clamped_reveal(clamped_reveal(seconds)) == clamped_reveal(seconds),
        MIN_REVEAL_SECONDS <= clamped_reveal(seconds) <= MAX_REVEAL_SECONDS,
{
}

/// Every way to start the app has a way to record: a combination with no problem
/// has a mode enabled, and two enabled modes never share a key.
pub proof fn a_combination_without_a_problem_can_record(
    hotkey: Seq<char>,
    toggle_hotkey: Seq<char>,
    ptt_enabled: bool,
    toggle_enabled: bool,
)
    requires
        mode_problem(hotkey, toggle_hotkey, ptt_enabled, toggle_enabled) is None,
    ensures
        ptt_enabled || toggle_enabled,
        ptt_enabled && toggle_enabled ==> plain_word(hotkey) != plain_word(toggle_hotkey),
{
}

/// A fresh install has two ways to record, and they do not share a key.
pub proof fn the_default_bindings_differ()
    ensures
        mode_problem(DEFAULT_HOTKEY@, DEFAULT_TOGGLE_HOTKEY@, true, true) is None,
{
    reveal_strlit("F13");
    reveal_strlit("F14");
    lemma_trimmed_word("F13"@);
    lemma_trimmed_word("F14"@);
    assert(ascii_lowered("F13"@)[2] == '3');
    assert(ascii_lowered("F14"@)[2] == '4');
}

/// A setting that is a word is written in letters of its own: no two of its values
/// share a word, and each is spelled as the file spells it.
pub proof fn words_are_written_as_the_file_spells_them(c: OverlayCorner, t: Theme, o: Onboarded)
    ensures
        theme_word(t) == (if t == Theme::Dark {
            "dark"@
        } else {
            "light"@
        }),
        corner_word(c).len() > 0 && (corner_word(c)[0] == 'b' <==> c == OverlayCorner::BottomLeft
            || c == OverlayCorner::BottomRight),
        corner_word(c).last() == 't',
        corner_word(c).contains('L') <==> c == OverlayCorner::BottomLeft || c
            == OverlayCorner::TopLeft,
        corner_word(c).contains('R') <==> c == OverlayCorner::BottomRight || c
            == OverlayCorner::TopRight,
        o == Onboarded::Yes ==> onboarded_word(o) == "yes"@,
        o == Onboarded::No ==> onboarded_word(o) == "no"@,
        o == Onboarded::FirstLaunch ==> onboarded_word(o) == "first-launch"@,
        ONBOARDED_WHEN_ABSENT == Onboarded::Yes,
{
    reveal_strlit("bottomLeft");
    reveal_strlit("bottomRight");
    reveal_strlit("topLeft");
    reveal_strlit("topRight");
    assert("bottomLeft"@[6] == 'L');
    assert("topLeft"@[3] == 'L');
    assert("bottomRight"@[6] == 'R');
    assert("topRight"@[3] == 'R');
}

} // verus!
