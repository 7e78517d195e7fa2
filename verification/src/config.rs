//! Configuration: typed settings over a TOML document that keeps its comments,
//! its order and every key that is not ours.

pub mod document;
pub mod error;
pub mod laws;
pub mod load;
pub mod meaning;
pub mod project;
pub mod save;
pub mod settings;
pub mod skeleton;
pub mod words;

