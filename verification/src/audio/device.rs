//! Choosing an input device.
//!
//! The microphone is pinned by a substring of its name, never by index: indices
//! shift whenever a headset is plugged in.

use crate::audio::error::{AudioError, AudioErrorView};
use crate::draft::log::opt_place;
use crate::text::{
    blank, contains_text, is_blank, lowercase, occurs_in, same_text, trimmed,
    trimmed_is_empty_for_blank_text,
};
use vstd::prelude::*;
use vstd::string::*;

verus! {

/// One input device, as a settings screen shows it.
#[derive(Debug, PartialEq, Eq)]
pub struct InputDeviceInfo {
    /// Human-readable name.
    pub name: String,
    /// Whether this is the system's current default input device.
    pub is_default: bool,
}

/// The contents of a list of names.
pub open spec fn names_view(names: Seq<String>) -> Seq<Seq<char>> {
    names.map_values(|n: String| n@)
}

/// True when the name holds the wanted text, whatever the case of its letters
/// and the whitespace around it.
pub open spec fn name_matches(name: Seq<char>, wanted: Seq<char>) -> bool {
    occurs_in(lowercase(trimmed(wanted)), lowercase(name))
}

/// The first of the first `n` names that matches.
pub open spec fn first_match(names: Seq<Seq<char>>, wanted: Seq<char>, n: int) -> Option<int>
    decreases n,
{
    if n <= 0 {
        None
    } else {
        match first_match(names, wanted, n - 1) {
            Some(i) => Some(i),
            None => if name_matches(names[n - 1], wanted) {
                Some(n - 1)
            } else {
                None
            },
        }
    }
}

/// The device a wanted name picks. A blank wish picks none.
pub open spec fn matched(names: Seq<Seq<char>>, wanted: Seq<char>) -> Option<int> {
    if is_blank(wanted) {
        None
    } else {
        first_match(names, wanted, names.len() as int)
    }
}

proof fn lemma_first_match_grows(names: Seq<Seq<char>>, wanted: Seq<char>, n: int, m: int)
    requires
        0 <= n <= m,
        first_match(names, wanted, n) is Some,
    ensures
        first_match(names, wanted, m) == first_match(names, wanted, n),
    decreases m - n,
{
    if n < m {
        lemma_first_match_grows(names, wanted, n, m - 1);
    }
}

/// Case-insensitive substring match, first hit wins.
pub fn match_by_substring(names: &[String], substring: &str) -> (r: Option<usize>)
    ensures
        opt_place(r) == matched(names_view(names@), substring@),
{
    let needle = substring.trim().to_lowercase();
    proof {
        trimmed_is_empty_for_blank_text(substring@);
    }
    if needle.as_str().unicode_len() == 0 {
        return None;
    }
    let ghost view = names_view(names@);
    let mut i: usize = 0;
    while i < names.len()
        invariant
            i <= names@.len(),
            view == names_view(names@),
            needle@ == lowercase(trimmed(substring@)),
            !is_blank(substring@),
            first_match(view, substring@, i as int) is None,
        decreases names@.len() - i,
    {
        let lowered = names[i].as_str().to_lowercase();
        proof {
            assert(view[i as int] == names@[i as int]@);
        }
        if contains_text(&lowered, &needle) {
            proof {
                lemma_first_match_grows(view, substring@, i + 1, view.len() as int);
            }
            return Some(i);
        }
        i = i + 1;
    }
    None
}

/// Which device to open.
#[derive(Debug, Clone, Copy, PartialEq, Eq, Structural)]
pub enum DeviceChoice {
    /// The device at that place in the list.
    Listed(usize),
    /// The system's default.
    Default,
}

/// What a wish asks for before the devices are listed: nothing, when it is
/// absent or blank.
pub fn wants_listing(substring: Option<&str>) -> (r: bool)
    ensures
        r == (substring matches Some(s) && !is_blank(s@)),
{
    match substring {
        Some(s) => !blank(s),
        None => false,
    }
}

/// Chooses the device to record from. A name that matches nothing is no error:
/// the default is opened instead, when there is one.
pub fn pick_input_device(names: &[String], substring: Option<&str>, has_default: bool) -> (r: Result<
    DeviceChoice,
    AudioError,
>)
    ensures
        ({
            let place = match substring {
                Some(s) => matched(names_view(names@), s@),
                None => None,
            };
            match r {
                Ok(DeviceChoice::Listed(i)) => place == Some(i as int),
                Ok(DeviceChoice::Default) => place is None && has_default,
                Err(e) => place is None && !has_default && e@ == AudioErrorView::NoInputDevice,
            }
        }),
{
    if let Some(s) = substring {
        if let Some(i) = match_by_substring(names, s) {
            return Ok(DeviceChoice::Listed(i));
        }
    }
    if has_default {
        Ok(DeviceChoice::Default)
    } else {
        Err(AudioError::NoInputDevice)
    }
}

/// The devices by name, the default one flagged, in the order they came.
pub fn list_input_devices(names: &[String], default: Option<&str>) -> (r: Vec<InputDeviceInfo>)
    ensures
        r@.len() == names@.len(),
        forall|i: int|
            0 <= i < r@.len() ==> (#[trigger] r@[i]).name@ == names@[i]@ && r@[i].is_default == (
            default matches Some(d) && d@ == names@[i]@),
{
    let mut out: Vec<InputDeviceInfo> = Vec::new();
    let mut i: usize = 0;
    while i < names.len()
        invariant
            i <= names@.len(),
            out@.len() == i,
            forall|j: int|
                0 <= j < i ==> (#[trigger] out@[j]).name@ == names@[j]@ && out@[j].is_default == (
                default matches Some(d) && d@ == names@[j]@),
        decreases names@.len() - i,
    {
        let is_default = match default {
            Some(d) => same_text(d, &names[i]),
            None => false,
        };
        out.push(InputDeviceInfo { name: names[i].clone(), is_default });
        i = i + 1;
    }
    out
}

} // verus!
