//! The control side of a multi-speaker audio renderer.
//!
//! A render thread mixes any number of positioned sounds onto any number of
//! loudspeakers, once per device buffer. This crate holds what that thread
//! decides and keeps: which sounds and speakers are live, what is done with
//! each sound in a buffer, where each sample goes, which sounds have run dry,
//! how speaker readings are gathered per installation, and which
//! notifications are owed to the other threads.
//!
//! Samples, positions, detectors and signals are never inspected here. They
//! travel through the type parameters `P` (a point in space), `A` (what a
//! sound plays), `E` (an envelope detector) and `F` (a spectrum detector), and
//! every operation on them is handed in by the caller as a function.

pub mod analysis;
pub mod editor;
pub mod id;
pub mod message;
pub mod mix;
pub mod model;
pub mod placement;
pub mod render;
pub mod sound;
pub mod speaker;
pub mod table;

pub use crate::model::Model;
pub use crate::sound::ActiveSound;
pub use crate::speaker::ActiveSpeaker;
