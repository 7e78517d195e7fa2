//! The core of a dictation tool: drafts of spoken notes, the microphone behind
//! them, the cues that accompany a recording, and the configuration.
//!
//! Nothing here opens a file or a device. What has to be read is handed in as
//! plain values, and what has to be done comes back as a plan; the decisions in
//! between are stated and proved.

pub mod audio;
pub mod config;
pub mod cue;
pub mod draft;
pub mod fsutil;
pub mod ids;
pub mod path;
pub mod path_laws;
pub mod places;
pub mod render;
pub mod savepath;
pub mod stamp;
pub mod template;
pub mod text;
pub mod time;
