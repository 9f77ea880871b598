//! Loudspeakers, and loudspeakers that are live on the render thread.

use crate::id::Installation;
use fxhash::FxHashSet;
use vstd::prelude::*;

verus! {

/// One loudspeaker: where it stands, which output channel of the device
/// drives it, and the installations it belongs to.
#[derive(Debug, PartialEq)]
pub struct Speaker<P> {
    pub point: P,
    pub channel: usize,
    pub installations: FxHashSet<Installation>,
}

/// A speaker that is live on the render thread, with the two detectors that
/// listen to its channel: `E` follows the envelope, `F` the spectrum.
#[derive(Debug, PartialEq)]
pub struct ActiveSpeaker<P, E, F> {
    pub speaker: Speaker<P>,
    pub env_detector: E,
    pub fft_detector: F,
}

} // verus!
