//! What the render thread tells the other threads.
//!
//! The renderer never sends anything itself. It lines its messages up, and
//! whoever owns the channels takes them from there and sends them on without
//! waiting.

use crate::id::SoundId;
use crate::id::SourceId;
use crate::id::SpeakerId;
use crate::sound::ActiveSound;
use crate::sound::Progress;
use vstd::prelude::*;

verus! {

/// News of a speaker.
#[derive(PartialEq, Eq, Structural, Clone, Copy, Debug)]
pub enum SpeakerMessage {
    /// The speaker was inserted, for the first time or again.
    Add,
    /// The speaker was removed.
    Remove,
}

/// News of a live sound.
#[derive(Clone, Debug, PartialEq)]
pub enum ActiveSoundMessage<P, A, E> {
    /// The sound became live.
    Start { source_id: SourceId, position: P, channels: usize, normalised_progress: Option<Progress> },
    /// Where the sound stands at the start of a buffer.
    Update { source_id: SourceId, position: P, channels: usize, normalised_progress: Option<Progress> },
    /// The sound is gone. It is handed over as it was when it left.
    End { sound: ActiveSound<P, A, E> },
}

/// A message for whoever watches the renderer.
#[derive(Clone, Debug, PartialEq)]
pub enum AudioMonitorMessage<P, A, E> {
    ActiveSound(SoundId, ActiveSoundMessage<P, A, E>),
    Speaker(SpeakerId, SpeakerMessage),
}

/// A message for whoever schedules the sounds.
#[derive(PartialEq, Eq, Structural, Clone, Copy, Debug)]
pub enum SoundscapeMessage {
    /// The sound is no longer live and can be forgotten.
    RemoveActiveSound(SoundId),
}

} // verus!
