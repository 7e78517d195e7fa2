//! The file a fresh install starts with.

use vstd::prelude::*;

verus! {

/// The file a fresh install starts with, comments and all. Its values are
/// overwritten before the first save, so they only have to be of the right type.
pub const DEFAULT_DOCUMENT: &'static str = r#"# Sotone configuration.
#
# Sotone edits this file, but it is yours: comments, key order, blank lines and
# keys Sotone does not recognise are all preserved. Only values you change in
# the app get rewritten. If this file is ever unparseable, Sotone stops and says
# so rather than replacing it.

# Where Sotone looks for GGML model files. No model weights ship with the app.
models_dir = ""

# Transcription language, or "auto".
language = "auto"

# Push-to-talk binding: hold to record. Capture it in Settings rather than
# typing key codes.
hotkey = "F13"

# Toggle binding: press once to start a long finding, press again to stop.
# The two modes need different bindings, and at least one of them must stay
# enabled.
toggle_hotkey = "F14"
ptt_enabled = true
toggle_enabled = true

# The microphone is pinned by a substring of its name, never by index, because
# device indices move when you plug something in. Uncomment to pin one:
# mic_substring = "Yeti"

# Audio cues for recording / saved / error, and the always-on-top overlay.
audio_cues = true
overlay = true

# Which screen corner the overlay pill docks to — "bottomLeft" (the default),
# "bottomRight", "topLeft" or "topRight" — and how long a transcribed line
# stays on it, in seconds (3 to 60). Uncomment to change either without
# opening Settings.
# overlay_corner = "bottomRight"
# reveal_seconds = 10

# Window palette: "dark" or "light". Uncomment to switch without opening
# Settings; anything else is refused at startup rather than guessed at.
# theme = "light"

# Closing the window normally hides Sotone to the notification area, where it
# keeps listening, and the tray's "Exit Sotone" is the way out. Uncomment if you
# would rather the X quit outright.
# close_quits = true

# Deleted lines are normally still listed in the transcript, struck through,
# with a Restore beside them. Uncomment to keep them out of that view — the
# notes on disk are untouched either way, and every line stays in the note's
# history.
# hide_deleted = true

# Whether Sotone's first-run setup is behind you: "no" while it still has to
# run, "first-launch" for the one launch straight after it, "yes" afterwards.
# A config file without this key is treated as "yes" — this one is new, so it
# says "no".
onboarded = "no"

# Projects are appended below as [[projects]] tables.
"#;

} // verus!
