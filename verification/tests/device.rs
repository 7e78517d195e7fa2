//! Choosing a microphone by its name.

use sotone_core::audio::device::match_by_substring;

fn names() -> Vec<String> {
    ["Realtek HD Audio", "Yeti Stereo Microphone", "Webcam C920"]
        .into_iter()
        .map(str::to_owned)
        .collect()
}

#[test]
fn matching_is_case_insensitive() {
    assert_eq!(match_by_substring(&names(), "yeti"), Some(1));
    assert_eq!(match_by_substring(&names(), "YETI"), Some(1));
    assert_eq!(match_by_substring(&names(), "Stereo Micro"), Some(1));
}

#[test]
fn first_match_wins() {
    // "o" appears in all three; selection must be deterministic.
    assert_eq!(match_by_substring(&names(), "o"), Some(0));
}

#[test]
fn no_match_is_none_so_the_caller_can_fall_back() {
    assert_eq!(match_by_substring(&names(), "shure"), None);
}

#[test]
fn blank_substring_never_matches() {
    // An empty `mic_substring` in the config means "no preference", not "match
    // the first device".
    assert_eq!(match_by_substring(&names(), ""), None);
    assert_eq!(match_by_substring(&names(), "   "), None);
}

#[test]
fn surrounding_whitespace_is_ignored() {
    assert_eq!(match_by_substring(&names(), "  yeti  "), Some(1));
}
