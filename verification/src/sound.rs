//! Sounds, and sounds that are live on the render thread.

use crate::id::SourceId;
use time_calc::Samples;
use vstd::prelude::*;

verus! {

/// One sound, as far as the renderer needs to look into it.
///
/// `P` is the type of a point in space and `A` is whatever the sound plays:
/// its signal, its volume, the way its channels are spread. Neither is read
/// here.
#[derive(Clone, Debug, PartialEq)]
pub struct Sound<P, A> {
    /// The source that spawned this sound.
    pub source_id: SourceId,
    /// Where the sound is.
    pub position: P,
    /// How many channels the signal has. Its samples come interleaved.
    pub channels: usize,
    /// A muted sound is pulled like any other but not heard.
    pub muted: bool,
    /// Whether playback is running. A paused sound is left alone.
    pub playing: bool,
    /// Whether the signal is a stream that must track the global frame count.
    pub continuous: bool,
    /// How many frames the signal has left, if it is finite.
    pub remaining_frames: Option<Samples>,
    /// What is played.
    pub audio: A,
}

/// How far a finite sound has played: `current_frame` of `total_frames`.
///
/// The quotient of the two is the normalised progress.
#[derive(PartialEq, Eq, Structural, Clone, Copy, Debug)]
pub struct Progress {
    /// Frames played so far: the total less what remains.
    pub current_frame: i128,
    /// Frames the sound had when it became live.
    pub total_frames: i64,
}

/// The progress of a sound that has `remaining` of `total` frames left, if
/// both are known.
pub open spec fn progress_of(remaining: Option<Samples>, total: Option<Samples>) -> Option<
    Progress,
> {
    match (remaining, total) {
        (Some(remaining), Some(total)) => Some(
            Progress { current_frame: (total.0 - remaining.0) as i128, total_frames: total.0 },
        ),
        _ => None,
    }
}

/// A sound that is live on the render thread: the sound itself, one envelope
/// detector of type `E` for each of its channels, and its length when it
/// started.
#[derive(Clone, Debug, PartialEq)]
pub struct ActiveSound<P, A, E> {
    pub sound: Sound<P, A>,
    pub channel_detectors: Vec<E>,
    pub total_duration_frames: Option<Samples>,
}

impl<P, A, E> ActiveSound<P, A, E> {
    /// There is exactly one detector per channel.
    pub open spec fn wf(&self) -> bool {
        self.channel_detectors@.len() == self.sound.channels
    }

    /// Makes `sound` live, with a fresh detector from `new_detector` for each
    /// of its channels. The frames the sound has left now are remembered as
    /// its total length.
    pub fn new<D>(sound: Sound<P, A>, new_detector: D) -> (active: Self) where D: Fn() -> E
        requires
            call_requires(new_detector, ()),
        ensures
            active.wf(),
            active.sound == sound,
            active.total_duration_frames == sound.remaining_frames,
            forall|i: int|
                0 <= i < sound.channels ==> call_ensures(
                    new_detector,
                    (),
                    #[trigger] active.channel_detectors@[i],
                ),
    {
        let mut channel_detectors: Vec<E> = Vec::new();
        let mut i: usize = 0;
        while i < sound.channels
            invariant
                i <= sound.channels,
                channel_detectors@.len() == i,
                call_requires(new_detector, ()),
                forall|j: int|
                    0 <= j < i ==> call_ensures(new_detector, (), #[trigger] channel_detectors@[j]),
            decreases sound.channels - i,
        {
            channel_detectors.push(new_detector());
            i += 1;
        }
        let total_duration_frames = sound.remaining_frames;
        ActiveSound { sound, channel_detectors, total_duration_frames }
    }

    /// How far through playback the sound is, if it is finite and was so when
    /// it started.
    pub fn normalised_progress(&self) -> (progress: Option<Progress>)
        ensures
            progress == progress_of(self.sound.remaining_frames, self.total_duration_frames),
    {
        match (self.sound.remaining_frames, self.total_duration_frames) {
            (Some(Samples(remaining)), Some(Samples(total))) => {
                let current_frame: i128 = total as i128 - remaining as i128;
                Some(Progress { current_frame, total_frames: total })
            },
            _ => None,
        }
    }
}

} // verus!
