//! Identifiers of the things the renderer keeps track of.

use vstd::prelude::*;

verus! {

/// Names one sound that is, or was, live on the render thread.
pub type SoundId = u64;

/// Names one loudspeaker.
pub type SpeakerId = u64;

/// Names the source that a sound was spawned from. Many sounds may share one.
pub type SourceId = u64;

/// Names an installation: a group of speakers and sounds that share a venue.
pub type Installation = u64;

} // verus!
