//! What the render thread decides while it fills one buffer.
//!
//! Filling a buffer goes sound by sound. For each live sound the caller asks
//! [`Model::begin_sound`] what to do, does it, and reports with
//! [`Model::finish_sound`] how many samples the signal gave. Each channel of
//! an audible sound is panned over the speakers that [`Model::dbap_targets`]
//! names. When all sounds are mixed the speakers of
//! [`Model::monitored_speakers`] listen to their channels,
//! [`Model::evict_exhausted`] lets go of the sounds that ran dry, and
//! [`Model::advance`] moves the frame count on.

use crate::id::SoundId;
use crate::id::SourceId;
use crate::id::SpeakerId;
use crate::message::ActiveSoundMessage;
use crate::message::AudioMonitorMessage;
use crate::message::SoundscapeMessage;
use crate::model::Model;
use crate::model::ModelView;
use crate::sound::progress_of;
use crate::sound::Sound;
use crate::table::map_get;
use crate::table::map_keys;
use crate::table::map_remove;
use crate::table::set_contains;
use vstd::prelude::*;

verus! {

/// What is done with one sound while one buffer is filled.
#[derive(PartialEq, Eq, Clone, Copy, Debug)]
pub enum SoundAction {
    /// The sound is paused. Nothing is pulled from it and nothing measured.
    Skip,
    /// The sound is muted, or shut out by a solo. `samples` samples are
    /// pulled from its signal and dropped, so that it keeps time.
    Discard { samples: usize },
    /// The sound is heard. `samples` samples are pulled, measured and mixed.
    /// A continuous stream is first moved to frame `seek`.
    Mix { samples: usize, seek: Option<u64> },
}

/// One entry of the list that a channel of a sound is panned over: a speaker
/// and the output channel that drives it.
#[derive(PartialEq, Eq, Structural, Clone, Copy, Debug)]
pub struct DbapTarget {
    pub speaker: SpeakerId,
    pub channel: usize,
}

/// Whether `sound` is kept from being heard, by its own mute or by a solo on
/// other sources.
pub open spec fn silenced<P, A>(sound: Sound<P, A>, soloed: Set<SourceId>) -> bool {
    sound.muted || (!soloed.is_empty() && !soloed.contains(sound.source_id))
}

/// What is done with `sound` for a buffer of `frames` frames that starts at
/// frame `frame_count`, while the sources in `soloed` are soloed.
pub open spec fn action_for<P, A>(
    sound: Sound<P, A>,
    soloed: Set<SourceId>,
    frame_count: u64,
    frames: usize,
) -> SoundAction {
    let samples = (frames * sound.channels) as usize;
    if !sound.playing {
        SoundAction::Skip
    } else if silenced(sound, soloed) {
        SoundAction::Discard { samples }
    } else {
        SoundAction::Mix {
            samples,
            seek: if sound.continuous {
                Some(frame_count)
            } else {
                None
            },
        }
    }
}

impl<P, A, E, F> ModelView<P, A, E, F> {
    /// The `Update` that tells the monitor where the sound at `id` stands.
    pub open spec fn update_message(self, id: SoundId) -> AudioMonitorMessage<P, A, E> {
        let active = self.sounds[id];
        AudioMonitorMessage::ActiveSound(
            id,
            ActiveSoundMessage::Update {
                source_id: active.sound.source_id,
                position: active.sound.position,
                channels: active.sound.channels,
                normalised_progress: progress_of(
                    active.sound.remaining_frames,
                    active.total_duration_frames,
                ),
            },
        )
    }

    /// The `End` that hands the sound at `id` to the monitor.
    pub open spec fn end_message(self, id: SoundId) -> AudioMonitorMessage<P, A, E> {
        AudioMonitorMessage::ActiveSound(id, ActiveSoundMessage::End { sound: self.sounds[id] })
    }

    /// Whether the sound at `id` falls short when `yielded` samples came of a
    /// buffer of `frames` frames.
    pub open spec fn runs_dry(self, id: SoundId, frames: usize, yielded: usize) -> bool {
        self.sounds.contains_key(id) && yielded < frames * self.sounds[id].sound.channels
    }

    /// The model after [`Model::begin_sound`] at `id`.
    pub open spec fn sound_begun(self, id: SoundId) -> Self {
        if self.sounds.contains_key(id) {
            ModelView { monitor: self.monitor.push(self.update_message(id)), ..self }
        } else {
            self
        }
    }

    /// The model after [`Model::finish_sound`] at `id`.
    pub open spec fn sound_finished(self, id: SoundId, frames: usize, yielded: usize) -> Self {
        if self.runs_dry(id, frames, yielded) && !self.exhausted.contains(id) {
            ModelView { exhausted: self.exhausted.push(id), ..self }
        } else {
            self
        }
    }

    /// The model after [`Model::evict_exhausted`].
    pub open spec fn exhausted_evicted(self) -> Self {
        ModelView {
            sounds: self.sounds.remove_keys(self.exhausted.to_set()),
            exhausted: Seq::empty(),
            monitor: self.monitor + self.exhausted.map_values(|id: SoundId| self.end_message(id)),
            soundscape: self.soundscape + self.exhausted.map_values(
                |id: SoundId| SoundscapeMessage::RemoveActiveSound(id),
            ),
            ..self
        }
    }

    /// The model after [`Model::advance`] by `frames` frames.
    pub open spec fn advanced(self, frames: usize) -> Self {
        ModelView {
            frame_count: ((self.frame_count + frames) % 0x1_0000_0000_0000_0000) as u64,
            ..self
        }
    }

    /// The speakers whose channel the device has, when it has `n_channels`.
    pub open spec fn speakers_within(self, n_channels: usize) -> Set<SpeakerId> {
        Set::new(
            |id: SpeakerId|
                self.speakers.contains_key(id) && self.speakers[id].speaker.channel < n_channels,
        )
    }

    /// Whether some speaker is driven by `channel`.
    pub open spec fn channel_has_speaker(self, channel: usize) -> bool {
        exists|id: SpeakerId|
            self.speakers.contains_key(id) && (#[trigger] self.speakers[id]).speaker.channel
                == channel
    }

    /// Whether `target` names a live speaker and the channel that drives it.
    pub open spec fn is_target(self, target: DbapTarget) -> bool {
        self.speakers.contains_key(target.speaker) && self.speakers[target.speaker].speaker.channel
            == target.channel
    }
}

/// Whether `message` tells the monitor that the sound at `id` has ended.
pub open spec fn is_end_of<P, A, E>(message: AudioMonitorMessage<P, A, E>, id: SoundId) -> bool {
    message matches AudioMonitorMessage::ActiveSound(ended, ActiveSoundMessage::End { .. })
        && ended == id
}

impl<P: Copy, A, E, F> Model<P, A, E, F> {
    /// Opens the work on one sound for a buffer of `frames` frames: lines up
    /// an `Update` for the monitor and says what to do with the sound. There
    /// is nothing to do, and nothing is sent, where no sound is live at `id`.
    pub fn begin_sound(&mut self, id: SoundId, frames: usize) -> (action: Option<SoundAction>)
        requires
            old(self).wf(),
            old(self)@.sounds.contains_key(id) ==> frames * old(self)@.sounds[id].sound.channels
                <= usize::MAX,
        ensures
            final(self).wf(),
            final(self)@ == old(self)@.sound_begun(id),
            action == (if old(self)@.sounds.contains_key(id) {
                Some(
                    action_for(
                        old(self)@.sounds[id].sound,
                        old(self)@.soloed,
                        old(self)@.frame_count,
                        frames,
                    ),
                )
            } else {
                None
            }),
    {
        let (message, action) = match map_get(&self.sounds, id) {
            None => { return None; },
            Some(active) => {
                let sound = &active.sound;
                let message = ActiveSoundMessage::Update {
                    source_id: sound.source_id,
                    position: sound.position,
                    channels: sound.channels,
                    normalised_progress: active.normalised_progress(),
                };
                let samples = frames * sound.channels;
                let action = if !sound.playing {
                    SoundAction::Skip
                } else if sound.muted || (!self.soloed.is_empty() && !set_contains(
                    &self.soloed,
                    sound.source_id,
                )) {
                    SoundAction::Discard { samples }
                } else {
                    let seek = if sound.continuous {
                        Some(self.frame_count)
                    } else {
                        None
                    };
                    SoundAction::Mix { samples, seek }
                };
                (message, action)
            },
        };
        self.monitor_queue.push(AudioMonitorMessage::ActiveSound(id, message));
        Some(action)
    }

    /// Closes the work on one sound: `yielded` is the number of samples its
    /// signal gave when a buffer of `frames` frames was asked for. A live
    /// sound that gave fewer than a full buffer has run dry: it is marked,
    /// once, to leave when the buffer is done. Tells whether the sound ran
    /// dry.
    pub fn finish_sound(&mut self, id: SoundId, frames: usize, yielded: usize) -> (dry: bool)
        requires
            old(self).wf(),
        ensures
            final(self).wf(),
            dry == old(self)@.runs_dry(id, frames, yielded),
            final(self)@ == old(self)@.sound_finished(id, frames, yielded),
    {
        let dry = match map_get(&self.sounds, id) {
            None => false,
            Some(active) => {
                let channels = active.sound.channels;
                assert(frames * channels <= 0xffff_ffff_ffff_ffff * 0xffff_ffff_ffff_ffff)
                    by (nonlinear_arith)
                    requires
                        0 <= frames <= 0xffff_ffff_ffff_ffff,
                        0 <= channels <= 0xffff_ffff_ffff_ffff,
                ;
                (yielded as u128) < (frames as u128) * (channels as u128)
            },
        };
        if !dry {
            return false;
        }
        let mut i: usize = 0;
        while i < self.exhausted_sounds.len()
            invariant
                *self == *old(self),
                self.wf(),
                dry,
                old(self)@.runs_dry(id, frames, yielded),
                i <= self.exhausted_sounds@.len(),
                forall|j: int| 0 <= j < i ==> self.exhausted_sounds@[j] != id,
            decreases self.exhausted_sounds@.len() - i,
        {
            if self.exhausted_sounds[i] == id {
                proof {
                    assert(old(self)@.exhausted[i as int] == id);
                }
                return true;
            }
            i += 1;
        }
        self.exhausted_sounds.push(id);
        proof {
            let marks = old(self)@.exhausted;
            assert(!marks.contains(id));
            assert forall|a: int, b: int| 0 <= a < b < marks.push(id).len() implies marks.push(
                id,
            )[a] != marks.push(id)[b] by {
                if b == marks.len() {
                    assert(marks.contains(marks[a]));
                }
            }
        }
        true
    }

    /// Lets go of every sound that was marked as dry, in the order marked.
    /// For each an `End` that carries the sound is lined up for the monitor,
    /// and the scheduler is told to forget it. No mark is left.
    pub fn evict_exhausted(&mut self)
        requires
            old(self).wf(),
        ensures
            final(self).wf(),
            final(self)@ == old(self)@.exhausted_evicted(),
            forall|id: SoundId|
                final(self)@.sounds.contains_key(id) <==> old(self)@.sounds.contains_key(id) && !old(
                    self,
                )@.exhausted.contains(id),
    {
        let ghost before = self@;
        let ghost ends = before.exhausted.map_values(|id: SoundId| before.end_message(id));
        let ghost forgets = before.exhausted.map_values(
            |id: SoundId| SoundscapeMessage::RemoveActiveSound(id),
        );
        let mut i: usize = 0;
        while i < self.exhausted_sounds.len()
            invariant
                before == old(self)@,
                before.wf(),
                ends == before.exhausted.map_values(|id: SoundId| before.end_message(id)),
                forgets == before.exhausted.map_values(
                    |id: SoundId| SoundscapeMessage::RemoveActiveSound(id),
                ),
                i <= before.exhausted.len(),
                self@.sounds.dom().finite(),
                self@ == (ModelView {
                    sounds: before.sounds.remove_keys(before.exhausted.subrange(0, i as int).to_set()),
                    monitor: before.monitor + ends.subrange(0, i as int),
                    soundscape: before.soundscape + forgets.subrange(0, i as int),
                    ..before
                }),
            decreases before.exhausted.len() - i,
        {
            let id = self.exhausted_sounds[i];
            let ghost earlier = self@;
            let ghost gone = before.exhausted.subrange(0, i as int);
            proof {
                assert(before.sounds.contains_key(before.exhausted[i as int]));
                assert(!gone.to_set().contains(id)) by {
                    if gone.to_set().contains(id) {
                        let j = choose|j: int| 0 <= j < gone.len() && gone[j] == id;
                        assert(before.exhausted[j] == before.exhausted[i as int]);
                    }
                }
            }
            match map_remove(&mut self.sounds, id) {
                Some(sound) => {
                    self.monitor_queue.push(
                        AudioMonitorMessage::ActiveSound(id, ActiveSoundMessage::End { sound }),
                    );
                    self.soundscape_queue.push(SoundscapeMessage::RemoveActiveSound(id));
                },
                None => {},
            }
            proof {
                let more = before.exhausted.subrange(0, i + 1);
                assert(more =~= gone.push(id));
                assert(more.to_set() =~= gone.to_set().insert(id)) by {
                    assert forall|x: SoundId| more.to_set().contains(x) implies gone.to_set().insert(
                        id,
                    ).contains(x) by {
                        let j = choose|j: int| 0 <= j < more.len() && more[j] == x;
                        if j < gone.len() {
                            assert(gone[j] == x);
                        }
                    }
                    assert forall|x: SoundId| gone.to_set().insert(id).contains(
                        x,
                    ) implies more.to_set().contains(x) by {
                        if x == id {
                            assert(more[i as int] == x);
                        } else {
                            let j = choose|j: int| 0 <= j < gone.len() && gone[j] == x;
                            assert(more[j] == x);
                        }
                    }
                }
                assert(self@.sounds =~= before.sounds.remove_keys(more.to_set()));
                assert(ends.subrange(0, i + 1) =~= ends.subrange(0, i as int).push(
                    before.end_message(id),
                ));
                assert(forgets.subrange(0, i + 1) =~= forgets.subrange(0, i as int).push(
                    SoundscapeMessage::RemoveActiveSound(id),
                ));
                assert(self@.monitor =~= before.monitor + ends.subrange(0, i + 1));
                assert(self@.soundscape =~= before.soundscape + forgets.subrange(0, i + 1));
            }
            i += 1;
        }
        self.exhausted_sounds.clear();
        proof {
            assert(before.exhausted.subrange(0, i as int) =~= before.exhausted);
            assert(ends.subrange(0, i as int) =~= ends);
            assert(forgets.subrange(0, i as int) =~= forgets);
            assert(final(self)@.exhausted =~= Seq::<SoundId>::empty());
        }
    }

    /// Moves the frame count on by the `frames` frames of the buffer that was
    /// filled. The count wraps round at the end of 64 bits and nowhere else.
    pub fn advance(&mut self, frames: usize)
        ensures
            final(self)@ == old(self)@.advanced(frames),
    {
        self.frame_count = self.frame_count.wrapping_add(frames as u64);
    }

    /// The speakers that listen to a device of `n_channels` channels: those
    /// whose channel the device has. Each id comes once, in no particular
    /// order.
    pub fn monitored_speakers(&self, n_channels: usize) -> (ids: Vec<SpeakerId>)
        ensures
            ids@.no_duplicates(),
            ids@.to_set() == self@.speakers_within(n_channels),
    {
        let all = map_keys(&self.speakers);
        let mut ids: Vec<SpeakerId> = Vec::new();
        let mut i: usize = 0;
        while i < all.len()
            invariant
                i <= all@.len(),
                all@.no_duplicates(),
                all@.to_set() == self@.speakers.dom(),
                ids@.no_duplicates(),
                forall|id: SpeakerId|
                    ids@.contains(id) <==> self@.speakers_within(n_channels).contains(id) && exists|
                        j: int,
                    |
                        0 <= j < i && all@[j] == id,
            decreases all@.len() - i,
        {
            let id = all[i];
            let within = match map_get(&self.speakers, id) {
                Some(active) => active.speaker.channel < n_channels,
                None => false,
            };
            proof {
                assert(all@.to_set().contains(id));
            }
            let ghost earlier = ids@;
            if within {
                proof {
                    assert(!earlier.contains(id)) by {
                        if earlier.contains(id) {
                            let j = choose|j: int| 0 <= j < i && all@[j] == id;
                            assert(all@[j] == all@[i as int]);
                        }
                    }
                }
                ids.push(id);
                proof {
                    assert forall|a: int, b: int| 0 <= a < b < ids@.len() implies ids@[a]
                        != ids@[b] by {
                        if b == earlier.len() {
                            assert(earlier.contains(earlier[a]));
                        }
                    }
                }
            }
            proof {
                assert forall|other: SpeakerId|
                    ids@.contains(other) <==> self@.speakers_within(n_channels).contains(other)
                        && exists|j: int| 0 <= j < i + 1 && all@[j] == other by {
                    if ids@.contains(other) {
                        let k = choose|k: int| 0 <= k < ids@.len() && ids@[k] == other;
                        if k < earlier.len() {
                            assert(earlier.contains(other));
                            let j = choose|j: int| 0 <= j < i && all@[j] == other;
                            assert(0 <= j < i + 1 && all@[j] == other);
                        } else {
                            assert(all@[i as int] == other);
                        }
                    }
                    if self@.speakers_within(n_channels).contains(other) && exists|j: int|
                        0 <= j < i + 1 && all@[j] == other {
                        let j = choose|j: int| 0 <= j < i + 1 && all@[j] == other;
                        if j < i {
                            assert(earlier.contains(other));
                            let k = choose|k: int| 0 <= k < earlier.len() && earlier[k] == other;
                            assert(ids@[k] == other);
                        } else {
                            assert(ids@[ids@.len() - 1] == other);
                        }
                    }
                }
            }
            i += 1;
        }
        proof {
            assert forall|id: SpeakerId| self@.speakers_within(n_channels).contains(
                id,
            ) implies ids@.to_set().contains(id) by {
                assert(all@.to_set().contains(id));
                let j = choose|j: int| 0 <= j < all@.len() && all@[j] == id;
                assert(0 <= j < i && all@[j] == id);
            }
            assert(ids@.to_set() =~= self@.speakers_within(n_channels));
        }
        ids
    }

    /// The speakers that one channel of a sound is panned over, for a device
    /// of `n_channels` channels: one for each channel of the device that
    /// drives a speaker, in the order of the channels. A channel that drives
    /// no speaker has no entry. Where several speakers share a channel, one
    /// of them stands for it.
    pub fn dbap_targets(&self, n_channels: usize) -> (targets: Vec<DbapTarget>)
        ensures
            forall|k: int|
                0 <= k < targets@.len() ==> self@.is_target(#[trigger] targets@[k]) && targets@[k].channel
                    < n_channels,
            forall|j: int, k: int|
                0 <= j < k < targets@.len() ==> targets@[j].channel < targets@[k].channel,
            forall|channel: usize|
                channel < n_channels && self@.channel_has_speaker(channel) ==> exists|k: int|
                    0 <= k < targets@.len() && (#[trigger] targets@[k]).channel == channel,
    {
        let ids = map_keys(&self.speakers);
        let mut targets: Vec<DbapTarget> = Vec::new();
        let mut channel: usize = 0;
        while channel < n_channels
            invariant
                channel <= n_channels,
                ids@.to_set() == self@.speakers.dom(),
                forall|k: int|
                    0 <= k < targets@.len() ==> self@.is_target(#[trigger] targets@[k])
                        && targets@[k].channel < channel,
                forall|j: int, k: int|
                    0 <= j < k < targets@.len() ==> targets@[j].channel < targets@[k].channel,
                forall|c: usize|
                    c < channel && self@.channel_has_speaker(c) ==> exists|k: int|
                        0 <= k < targets@.len() && (#[trigger] targets@[k]).channel == c,
            decreases n_channels - channel,
        {
            let ghost earlier = targets@;
            let mut found: Option<SpeakerId> = None;
            let mut j: usize = 0;
            while j < ids.len() && found.is_none()
                invariant
                    j <= ids@.len(),
                    ids@.to_set() == self@.speakers.dom(),
                    found matches Some(id) ==> self@.is_target(
                        DbapTarget { speaker: id, channel },
                    ),
                    found is None ==> forall|i: int|
                        0 <= i < j ==> (#[trigger] self@.speakers[ids@[i]]).speaker.channel != channel,
                decreases ids@.len() - j + (if found is None { 1int } else { 0int }),
            {
                let id = ids[j];
                proof {
                    assert(ids@.to_set().contains(id));
                }
                match map_get(&self.speakers, id) {
                    Some(active) => {
                        if active.speaker.channel == channel {
                            found = Some(id);
                        } else {
                            j += 1;
                        }
                    },
                    None => {
                        j += 1;
                    },
                }
            }
            match found {
                Some(id) => {
                    targets.push(DbapTarget { speaker: id, channel });
                },
                None => {
                    proof {
                        assert(!self@.channel_has_speaker(channel)) by {
                            if self@.channel_has_speaker(channel) {
                                let id = choose|id: SpeakerId|
                                    self@.speakers.contains_key(id) && (
                                    #[trigger] self@.speakers[id]).speaker.channel == channel;
                                assert(ids@.to_set().contains(id));
                                let i = choose|i: int| 0 <= i < ids@.len() && ids@[i] == id;
                                assert(self@.speakers[ids@[i]].speaker.channel != channel);
                            }
                        }
                    }
                },
            }
            proof {
                assert forall|c: usize|
                    c < channel + 1 && self@.channel_has_speaker(c) implies exists|k: int|
                    0 <= k < targets@.len() && (#[trigger] targets@[k]).channel == c by {
                    if c < channel {
                        let k = choose|k: int|
                            0 <= k < earlier.len() && (#[trigger] earlier[k]).channel == c;
                        assert(targets@[k].channel == c);
                    } else {
                        assert(targets@[targets@.len() - 1].channel == c);
                    }
                }
            }
            channel += 1;
        }
        targets
    }
}

/// A sound that is shut out, by its mute or by a solo elsewhere, is still
/// pulled while it plays: a full buffer of samples is asked of its signal,
/// as many as if it were heard, so that the signal moves on and the sound is
/// in time when it is heard again.
pub proof fn lemma_silenced_sound_keeps_time<P, A>(
    sound: Sound<P, A>,
    soloed: Set<SourceId>,
    frame_count: u64,
    frames: usize,
)
    requires
        sound.playing,
        silenced(sound, soloed),
    ensures
        action_for(sound, soloed, frame_count, frames) == (SoundAction::Discard {
            samples: (frames * sound.channels) as usize,
        }),
        action_for(Sound { muted: false, ..sound }, Set::empty(), frame_count, frames) matches SoundAction::Mix {
            samples,
            ..
        } && samples == (frames * sound.channels) as usize,
{
}

/// The frame count moves on with every buffer that holds a frame: short of
/// the end of 64 bits it grows by exactly the frames of the buffer.
pub proof fn lemma_frame_count_moves_on<P, A, E, F>(model: ModelView<P, A, E, F>, frames: usize)
    requires
        model.frame_count + frames <= u64::MAX,
    ensures
        model.advanced(frames).frame_count == model.frame_count + frames,
        frames > 0 ==> model.advanced(frames).frame_count > model.frame_count,
{
}

/// A live sound whose signal gives less than a full buffer leaves when the
/// buffer is done, and the monitor is told of its end exactly once: of the
/// messages lined up by the eviction, one and only one is the `End` of this
/// sound, and it carries the sound.
pub proof fn lemma_dry_sound_ends_once<P, A, E, F>(
    model: ModelView<P, A, E, F>,
    id: SoundId,
    frames: usize,
    yielded: usize,
)
    requires
        model.wf(),
        model.runs_dry(id, frames, yielded),
    ensures
        ({
            let evicted = model.sound_finished(id, frames, yielded).exhausted_evicted();
            let sent = evicted.monitor.subrange(
                model.monitor.len() as int,
                evicted.monitor.len() as int,
            );
            &&& !evicted.sounds.contains_key(id)
            &&& exists|at: int|
                0 <= at < sent.len() && sent[at] == model.end_message(id) && forall|i: int|
                    0 <= i < sent.len() ==> (is_end_of(#[trigger] sent[i], id) <==> i == at)
        }),
{
    let marked = model.sound_finished(id, frames, yielded);
    let evicted = marked.exhausted_evicted();
    let sent = evicted.monitor.subrange(model.monitor.len() as int, evicted.monitor.len() as int);
    let ends = marked.exhausted.map_values(|id: SoundId| marked.end_message(id));
    assert(sent =~= ends);
    assert(marked.exhausted.contains(id)) by {
        if !model.exhausted.contains(id) {
            assert(marked.exhausted.last() == id);
        }
    }
    assert(marked.exhausted.no_duplicates()) by {
        if !model.exhausted.contains(id) {
            assert forall|a: int, b: int| 0 <= a < b < marked.exhausted.len() implies marked.exhausted[a]
                != marked.exhausted[b] by {
                if b == model.exhausted.len() {
                    assert(model.exhausted.contains(model.exhausted[a]));
                }
            }
        }
    }
    let at = marked.exhausted.index_of(id);
    assert(marked.exhausted.to_set().contains(id));
    assert forall|i: int| 0 <= i < sent.len() implies (is_end_of(#[trigger] sent[i], id) <==> i
        == at) by {
        assert(sent[i] == marked.end_message(marked.exhausted[i]));
    }
    assert(sent[at] == model.end_message(id));
}

} // verus!
