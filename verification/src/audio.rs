//! Microphone capture.
//!
//! Everything here is about samples, not about what a sample is: the assembly
//! of utterances never looks at a value.

pub mod assembly;
pub mod assembly_laws;
pub mod channels;
pub mod device;
pub mod engine;
pub mod error;
pub mod level;
pub mod meaning;
pub mod ring;
pub mod worker;
