//! The draft store: where a dictation session lives before it is ever saved.

pub mod error;
pub mod handle;
pub mod keeping;
pub mod laws;
pub mod log;
pub mod meaning;
pub mod plan;
pub mod record;
pub mod relocate;
pub mod save;
pub mod search;
pub mod store;
