//! The state of the render thread, and how sounds and speakers enter and
//! leave it.

use crate::id::SoundId;
use crate::id::SourceId;
use crate::id::SpeakerId;
use crate::message::ActiveSoundMessage;
use crate::message::AudioMonitorMessage;
use crate::message::SoundscapeMessage;
use crate::message::SpeakerMessage;
use crate::sound::progress_of;
use crate::sound::ActiveSound;
use crate::sound::Sound;
use crate::speaker::ActiveSpeaker;
use crate::speaker::Speaker;
use crate::table::map_get;
use crate::table::map_insert;
use crate::table::map_keys;
use crate::table::map_len;
use crate::table::map_remove;
use crate::table::set_insert;
use crate::table::set_remove;
use fxhash::FxHashMap;
use fxhash::FxHashSet;
use vstd::prelude::*;

verus! {

/// Everything the render thread owns between two buffers.
pub struct Model<P, A, E, F> {
    /// Frames rendered since the model was made. Continuous streams are kept
    /// in step with it.
    pub frame_count: u64,
    /// The sources that are soloed. While there are any, only their sounds
    /// are heard.
    pub soloed: FxHashSet<SourceId>,
    pub(crate) sounds: FxHashMap<SoundId, ActiveSound<P, A, E>>,
    pub(crate) speakers: FxHashMap<SpeakerId, ActiveSpeaker<P, E, F>>,
    pub(crate) exhausted_sounds: Vec<SoundId>,
    pub(crate) monitor_queue: Vec<AudioMonitorMessage<P, A, E>>,
    pub(crate) soundscape_queue: Vec<SoundscapeMessage>,
}

/// A `Model` as mathematics sees it.
#[verifier::ext_equal]
pub struct ModelView<P, A, E, F> {
    pub frame_count: u64,
    pub soloed: Set<SourceId>,
    /// The live sounds, by id.
    pub sounds: Map<SoundId, ActiveSound<P, A, E>>,
    /// The live speakers, by id.
    pub speakers: Map<SpeakerId, ActiveSpeaker<P, E, F>>,
    /// The sounds found dry in the buffer under way, in the order found.
    pub exhausted: Seq<SoundId>,
    /// Messages for the monitor that nobody has collected yet, oldest first.
    pub monitor: Seq<AudioMonitorMessage<P, A, E>>,
    /// Messages for the scheduler that nobody has collected yet, oldest first.
    pub soundscape: Seq<SoundscapeMessage>,
}

impl<P, A, E, F> View for Model<P, A, E, F> {
    type V = ModelView<P, A, E, F>;

    open(crate) spec fn view(&self) -> ModelView<P, A, E, F> {
        ModelView {
            frame_count: self.frame_count,
            soloed: self.soloed@,
            sounds: self.sounds@,
            speakers: self.speakers@,
            exhausted: self.exhausted_sounds@,
            monitor: self.monitor_queue@,
            soundscape: self.soundscape_queue@,
        }
    }
}

/// `marks` with `id` struck out.
pub open spec fn without(marks: Seq<SoundId>, id: SoundId) -> Seq<SoundId> {
    if marks.contains(id) {
        marks.remove(marks.index_of(id))
    } else {
        marks
    }
}

/// One change to what is live: a sound or a speaker comes or goes.
pub enum Change<P, A, E, F> {
    /// [`Model::insert_sound`] of this sound at this id.
    InsertSound(SoundId, ActiveSound<P, A, E>),
    /// [`Model::remove_sound`] at this id.
    RemoveSound(SoundId),
    /// [`Model::insert_speaker`] of this speaker at this id. The detectors
    /// are the ones it gets if the id is new.
    InsertSpeaker(SpeakerId, Speaker<P>, E, F),
    /// [`Model::remove_speaker`] at this id.
    RemoveSpeaker(SpeakerId),
}

impl<P, A, E, F> ModelView<P, A, E, F> {
    /// The `Start` that tells the monitor that `sound` became live at `id`.
    pub open spec fn start_message(id: SoundId, sound: ActiveSound<P, A, E>) -> AudioMonitorMessage<
        P,
        A,
        E,
    > {
        AudioMonitorMessage::ActiveSound(
            id,
            ActiveSoundMessage::Start {
                source_id: sound.sound.source_id,
                position: sound.sound.position,
                channels: sound.sound.channels,
                normalised_progress: progress_of(
                    sound.sound.remaining_frames,
                    sound.total_duration_frames,
                ),
            },
        )
    }

    /// The model after [`Model::insert_sound`] of `sound` at `id`.
    pub open spec fn sound_inserted(self, id: SoundId, sound: ActiveSound<P, A, E>) -> Self {
        ModelView {
            sounds: self.sounds.insert(id, sound),
            exhausted: without(self.exhausted, id),
            monitor: self.monitor.push(Self::start_message(id, sound)),
            ..self
        }
    }

    /// The model after [`Model::remove_sound`] at `id`.
    pub open spec fn sound_removed(self, id: SoundId) -> Self {
        if self.sounds.contains_key(id) {
            ModelView {
                sounds: self.sounds.remove(id),
                exhausted: without(self.exhausted, id),
                monitor: self.monitor.push(
                    AudioMonitorMessage::ActiveSound(
                        id,
                        ActiveSoundMessage::End { sound: self.sounds[id] },
                    ),
                ),
                soundscape: self.soundscape.push(SoundscapeMessage::RemoveActiveSound(id)),
                ..self
            }
        } else {
            self
        }
    }

    /// The model after [`Model::remove_speaker`] at `id`.
    pub open spec fn speaker_removed(self, id: SpeakerId) -> Self {
        if self.speakers.contains_key(id) {
            ModelView {
                speakers: self.speakers.remove(id),
                monitor: self.monitor.push(AudioMonitorMessage::Speaker(id, SpeakerMessage::Remove)),
                ..self
            }
        } else {
            self
        }
    }

    /// The model after [`Model::insert_speaker`] of `speaker` at `id`. A
    /// speaker that is live at `id` hands its detectors on. `env_detector`
    /// and `fft_detector` are the new ones, for an id that is new.
    pub open spec fn speaker_inserted(
        self,
        id: SpeakerId,
        speaker: Speaker<P>,
        env_detector: E,
        fft_detector: F,
    ) -> Self {
        let active = if self.speakers.contains_key(id) {
            ActiveSpeaker {
                speaker,
                env_detector: self.speakers[id].env_detector,
                fft_detector: self.speakers[id].fft_detector,
            }
        } else {
            ActiveSpeaker { speaker, env_detector, fft_detector }
        };
        ModelView {
            speakers: self.speakers.insert(id, active),
            monitor: self.monitor.push(AudioMonitorMessage::Speaker(id, SpeakerMessage::Add)),
            ..self
        }
    }

    /// The model after `change`.
    pub open spec fn changed(self, change: Change<P, A, E, F>) -> Self {
        match change {
            Change::InsertSound(id, sound) => self.sound_inserted(id, sound),
            Change::RemoveSound(id) => self.sound_removed(id),
            Change::InsertSpeaker(id, speaker, env_detector, fft_detector) => self.speaker_inserted(
                id,
                speaker,
                env_detector,
                fft_detector,
            ),
            Change::RemoveSpeaker(id) => self.speaker_removed(id),
        }
    }

    /// The model after `changes`, made one after the other.
    pub open spec fn after(self, changes: Seq<Change<P, A, E, F>>) -> Self
        decreases changes.len(),
    {
        if changes.len() == 0 {
            self
        } else {
            self.after(changes.drop_last()).changed(changes.last())
        }
    }

    /// By how many `change` makes the live sounds more: one if it inserts a
    /// sound at an id that is not live, minus one if it removes a live sound,
    /// and nought otherwise.
    pub open spec fn sounds_gained(self, change: Change<P, A, E, F>) -> int {
        match change {
            Change::InsertSound(id, _) if !self.sounds.contains_key(id) => 1,
            Change::RemoveSound(id) if self.sounds.contains_key(id) => -1,
            _ => 0,
        }
    }

    /// By how many `change` makes the live speakers more.
    pub open spec fn speakers_gained(self, change: Change<P, A, E, F>) -> int {
        match change {
            Change::InsertSpeaker(id, _, _, _) if !self.speakers.contains_key(id) => 1,
            Change::RemoveSpeaker(id) if self.speakers.contains_key(id) => -1,
            _ => 0,
        }
    }

    /// By how many `changes`, made one after the other, make the live sounds
    /// more.
    pub open spec fn net_sounds_gained(self, changes: Seq<Change<P, A, E, F>>) -> int
        decreases changes.len(),
    {
        if changes.len() == 0 {
            0
        } else {
            self.net_sounds_gained(changes.drop_last()) + self.after(
                changes.drop_last(),
            ).sounds_gained(changes.last())
        }
    }

    /// By how many `changes`, made one after the other, make the live
    /// speakers more.
    pub open spec fn net_speakers_gained(self, changes: Seq<Change<P, A, E, F>>) -> int
        decreases changes.len(),
    {
        if changes.len() == 0 {
            0
        } else {
            self.net_speakers_gained(changes.drop_last()) + self.after(
                changes.drop_last(),
            ).speakers_gained(changes.last())
        }
    }

    /// The live sounds that `source` spawned.
    pub open spec fn sounds_of(self, source: SourceId) -> Set<SoundId> {
        Set::new(|id: SoundId| self.sounds.contains_key(id) && self.sounds[id].sound.source_id == source)
    }

    /// What holds of every model: each live sound has one detector per
    /// channel, and the sounds marked as dry are live and marked once.
    pub open spec fn wf(self) -> bool {
        &&& self.sounds.dom().finite()
        &&& self.speakers.dom().finite()
        &&& forall|id: SoundId| self.sounds.contains_key(id) ==> (#[trigger] self.sounds[id]).wf()
        &&& self.exhausted.no_duplicates()
        &&& forall|i: int|
            0 <= i < self.exhausted.len() ==> self.sounds.contains_key(#[trigger] self.exhausted[i])
    }
}

impl<P: Copy, A, E, F> Model<P, A, E, F> {
    /// See [`ModelView::wf`].
    pub open spec fn wf(&self) -> bool {
        self@.wf()
    }

    /// A model with no sounds, no speakers, nothing soloed, nothing to send
    /// and no frame rendered yet.
    pub fn new() -> (model: Self)
        ensures
            model.wf(),
            model@ == (ModelView::<P, A, E, F> {
                frame_count: 0,
                soloed: Set::empty(),
                sounds: Map::empty(),
                speakers: Map::empty(),
                exhausted: Seq::empty(),
                monitor: Seq::empty(),
                soundscape: Seq::empty(),
            }),
    {
        Model {
            frame_count: 0,
            soloed: FxHashSet::default(),
            sounds: FxHashMap::default(),
            speakers: FxHashMap::default(),
            exhausted_sounds: Vec::new(),
            monitor_queue: Vec::new(),
            soundscape_queue: Vec::new(),
        }
    }

    /// How many sounds are live.
    pub fn sound_count(&self) -> (count: usize)
        ensures
            count == self@.sounds.dom().len(),
    {
        map_len(&self.sounds)
    }

    /// How many speakers are live.
    pub fn speaker_count(&self) -> (count: usize)
        ensures
            count == self@.speakers.dom().len(),
    {
        map_len(&self.speakers)
    }

    /// The ids of the live sounds, each once, in no particular order.
    pub fn sound_ids(&self) -> (ids: Vec<SoundId>)
        ensures
            ids@.no_duplicates(),
            ids@.to_set() == self@.sounds.dom(),
            ids@.len() == self@.sounds.dom().len(),
    {
        let ids = map_keys(&self.sounds);
        proof {
            ids@.unique_seq_to_set();
        }
        ids
    }

    /// The ids of the live speakers, each once, in no particular order.
    pub fn speaker_ids(&self) -> (ids: Vec<SpeakerId>)
        ensures
            ids@.no_duplicates(),
            ids@.to_set() == self@.speakers.dom(),
            ids@.len() == self@.speakers.dom().len(),
    {
        let ids = map_keys(&self.speakers);
        proof {
            ids@.unique_seq_to_set();
        }
        ids
    }

    /// The live sound with this id, if there is one.
    pub fn sound(&self, id: SoundId) -> (found: Option<&ActiveSound<P, A, E>>)
        ensures
            found == (if self@.sounds.contains_key(id) {
                Some(&self@.sounds[id])
            } else {
                None
            }),
    {
        map_get(&self.sounds, id)
    }

    /// The live speaker with this id, if there is one.
    pub fn speaker(&self, id: SpeakerId) -> (found: Option<&ActiveSpeaker<P, E, F>>)
        ensures
            found == (if self@.speakers.contains_key(id) {
                Some(&self@.speakers[id])
            } else {
                None
            }),
    {
        map_get(&self.speakers, id)
    }

    /// Puts `speaker` at `id` and lines up an `Add` for the monitor.
    ///
    /// If a speaker was there already it is handed back, and its detectors
    /// stay in place with all they have heard. Only a new id gets new
    /// detectors, from `new_detectors`.
    pub fn insert_speaker<D>(&mut self, id: SpeakerId, speaker: Speaker<P>, new_detectors: D) -> (previous:
        Option<Speaker<P>>) where D: FnOnce() -> (E, F)
        requires
            old(self).wf(),
            call_requires(new_detectors, ()),
        ensures
            final(self).wf(),
            final(self)@ == old(self)@.speaker_inserted(
                id,
                speaker,
                final(self)@.speakers[id].env_detector,
                final(self)@.speakers[id].fft_detector,
            ),
            previous == (if old(self)@.speakers.contains_key(id) {
                Some(old(self)@.speakers[id].speaker)
            } else {
                None
            }),
            !old(self)@.speakers.contains_key(id) ==> call_ensures(
                new_detectors,
                (),
                (final(self)@.speakers[id].env_detector, final(self)@.speakers[id].fft_detector),
            ),
    {
        let (env_detector, fft_detector, previous) = match map_remove(&mut self.speakers, id) {
            None => {
                let (env_detector, fft_detector) = new_detectors();
                (env_detector, fft_detector, None)
            },
            Some(active) => {
                let ActiveSpeaker { speaker, env_detector, fft_detector } = active;
                (env_detector, fft_detector, Some(speaker))
            },
        };
        let active = ActiveSpeaker { speaker, env_detector, fft_detector };
        self.monitor_queue.push(AudioMonitorMessage::Speaker(id, SpeakerMessage::Add));
        map_insert(&mut self.speakers, id, active);
        proof {
            assert(final(self)@.speakers =~= old(self)@.speakers.insert(id, active));
        }
        previous
    }

    /// Takes the speaker at `id` out, detectors and all, and lines up a
    /// `Remove` for the monitor. Where there is no such speaker nothing
    /// changes and nothing is sent.
    pub fn remove_speaker(&mut self, id: SpeakerId) -> (removed: Option<Speaker<P>>)
        requires
            old(self).wf(),
        ensures
            final(self).wf(),
            final(self)@ == old(self)@.speaker_removed(id),
            removed == (if old(self)@.speakers.contains_key(id) {
                Some(old(self)@.speakers[id].speaker)
            } else {
                None
            }),
    {
        match map_remove(&mut self.speakers, id) {
            None => {
                proof {
                    assert(final(self)@.speakers =~= old(self)@.speakers);
                }
                None
            },
            Some(active) => {
                self.monitor_queue.push(AudioMonitorMessage::Speaker(id, SpeakerMessage::Remove));
                Some(active.speaker)
            },
        }
    }

    /// Makes the speaker at `id` a member of `installation`. Tells whether
    /// that changed anything: not if there is no such speaker, and not if it
    /// was a member already.
    pub fn insert_speaker_installation(&mut self, id: SpeakerId, installation: u64) -> (added: bool)
        requires
            old(self).wf(),
        ensures
            final(self).wf(),
            added == (old(self)@.speakers.contains_key(id) && !old(
                self,
            )@.speakers[id].speaker.installations@.contains(installation)),
            !old(self)@.speakers.contains_key(id) ==> final(self)@ == old(self)@,
            old(self)@.speakers.contains_key(id) ==> {
                &&& final(self)@ == (ModelView {
                    speakers: old(self)@.speakers.insert(id, final(self)@.speakers[id]),
                    ..old(self)@
                })
                &&& final(self)@.speakers[id].speaker.installations@ == old(
                    self,
                )@.speakers[id].speaker.installations@.insert(installation)
                &&& final(self)@.speakers[id].speaker.point == old(self)@.speakers[id].speaker.point
                &&& final(self)@.speakers[id].speaker.channel == old(
                    self,
                )@.speakers[id].speaker.channel
                &&& final(self)@.speakers[id].env_detector == old(self)@.speakers[id].env_detector
                &&& final(self)@.speakers[id].fft_detector == old(self)@.speakers[id].fft_detector
            },
    {
        match map_remove(&mut self.speakers, id) {
            None => {
                proof {
                    assert(final(self)@.speakers =~= old(self)@.speakers);
                }
                false
            },
            Some(active) => {
                let mut active = active;
                let added = set_insert(&mut active.speaker.installations, installation);
                map_insert(&mut self.speakers, id, active);
                proof {
                    assert(final(self)@.speakers =~= old(self)@.speakers.insert(id, active));
                }
                added
            },
        }
    }

    /// Ends the membership of the speaker at `id` in `installation`. Tells
    /// whether that changed anything: not if there is no such speaker, and
    /// not if it was no member.
    pub fn remove_speaker_installation(&mut self, id: SpeakerId, installation: u64) -> (removed:
        bool)
        requires
            old(self).wf(),
        ensures
            final(self).wf(),
            removed == (old(self)@.speakers.contains_key(id) && old(
                self,
            )@.speakers[id].speaker.installations@.contains(installation)),
            !old(self)@.speakers.contains_key(id) ==> final(self)@ == old(self)@,
            old(self)@.speakers.contains_key(id) ==> {
                &&& final(self)@ == (ModelView {
                    speakers: old(self)@.speakers.insert(id, final(self)@.speakers[id]),
                    ..old(self)@
                })
                &&& final(self)@.speakers[id].speaker.installations@ == old(
                    self,
                )@.speakers[id].speaker.installations@.remove(installation)
                &&& final(self)@.speakers[id].speaker.point == old(self)@.speakers[id].speaker.point
                &&& final(self)@.speakers[id].speaker.channel == old(
                    self,
                )@.speakers[id].speaker.channel
                &&& final(self)@.speakers[id].env_detector == old(self)@.speakers[id].env_detector
                &&& final(self)@.speakers[id].fft_detector == old(self)@.speakers[id].fft_detector
            },
    {
        match map_remove(&mut self.speakers, id) {
            None => {
                proof {
                    assert(final(self)@.speakers =~= old(self)@.speakers);
                }
                false
            },
            Some(active) => {
                let mut active = active;
                let removed = set_remove(&mut active.speaker.installations, installation);
                map_insert(&mut self.speakers, id, active);
                proof {
                    assert(final(self)@.speakers =~= old(self)@.speakers.insert(id, active));
                }
                removed
            },
        }
    }

    /// Strikes `id` from the sounds marked as dry.
    pub(crate) fn forget_exhausted(&mut self, id: SoundId)
        requires
            old(self)@.exhausted.no_duplicates(),
        ensures
            final(self)@ == (ModelView {
                exhausted: without(old(self)@.exhausted, id),
                ..old(self)@
            }),
    {
        let mut i: usize = 0;
        while i < self.exhausted_sounds.len()
            invariant
                *self == *old(self),
                self.exhausted_sounds@.no_duplicates(),
                i <= self.exhausted_sounds@.len(),
                forall|j: int| 0 <= j < i ==> self.exhausted_sounds@[j] != id,
            decreases self.exhausted_sounds@.len() - i,
        {
            if self.exhausted_sounds[i] == id {
                proof {
                    let marks = self.exhausted_sounds@;
                    assert(marks[i as int] == id);
                    assert(marks.contains(id));
                    assert(marks.index_of(id) == i as int);
                }
                self.exhausted_sounds.remove(i);
                return ;
            }
            i += 1;
        }
        proof {
            let marks = self.exhausted_sounds@;
            assert(!marks.contains(id));
        }
    }

    /// Makes `sound` live at `id` and lines up a `Start` for the monitor. A
    /// sound that was live at `id` is displaced and handed back, without an
    /// `End`; had it been marked as dry, the mark goes with it.
    pub fn insert_sound(&mut self, id: SoundId, sound: ActiveSound<P, A, E>) -> (previous: Option<
        ActiveSound<P, A, E>,
    >)
        requires
            old(self).wf(),
            sound.wf(),
        ensures
            final(self).wf(),
            final(self)@ == old(self)@.sound_inserted(id, sound),
            previous == (if old(self)@.sounds.contains_key(id) {
                Some(old(self)@.sounds[id])
            } else {
                None
            }),
    {
        let message = ActiveSoundMessage::Start {
            source_id: sound.sound.source_id,
            position: sound.sound.position,
            channels: sound.sound.channels,
            normalised_progress: sound.normalised_progress(),
        };
        self.monitor_queue.push(AudioMonitorMessage::ActiveSound(id, message));
        self.forget_exhausted(id);
        proof {
            lemma_without(old(self)@.exhausted, id);
        }
        map_insert(&mut self.sounds, id, sound)
    }

    /// Replaces the sound at `id` by what `update` makes of it, and tells
    /// whether there was one. The detectors and the total length stay as they
    /// are, so `update` must leave the number of channels alone.
    pub fn update_sound<U>(&mut self, id: SoundId, update: U) -> (updated: bool) where
        U: FnOnce(Sound<P, A>) -> Sound<P, A>,

        requires
            old(self).wf(),
            old(self)@.sounds.contains_key(id) ==> call_requires(
                update,
                (old(self)@.sounds[id].sound,),
            ),
            forall|before: Sound<P, A>, after: Sound<P, A>|
                call_ensures(update, (before,), after) ==> after.channels == before.channels,
        ensures
            final(self).wf(),
            updated == old(self)@.sounds.contains_key(id),
            !updated ==> final(self)@ == old(self)@,
            updated ==> {
                &&& final(self)@ == (ModelView {
                    sounds: old(self)@.sounds.insert(id, final(self)@.sounds[id]),
                    ..old(self)@
                })
                &&& call_ensures(
                    update,
                    (old(self)@.sounds[id].sound,),
                    final(self)@.sounds[id].sound,
                )
                &&& final(self)@.sounds[id].channel_detectors == old(
                    self,
                )@.sounds[id].channel_detectors
                &&& final(self)@.sounds[id].total_duration_frames == old(
                    self,
                )@.sounds[id].total_duration_frames
            },
    {
        match map_remove(&mut self.sounds, id) {
            None => {
                proof {
                    assert(final(self)@.sounds =~= old(self)@.sounds);
                }
                false
            },
            Some(active) => {
                let ActiveSound { sound, channel_detectors, total_duration_frames } = active;
                let sound = update(sound);
                let active = ActiveSound { sound, channel_detectors, total_duration_frames };
                map_insert(&mut self.sounds, id, active);
                proof {
                    assert(final(self)@.sounds =~= old(self)@.sounds.insert(id, active));
                }
                true
            },
        }
    }

    /// Takes the sound at `id` out and tells whether there was one. If so an
    /// `End` that carries the sound is lined up for the monitor, the
    /// scheduler is told to forget it, and a mark as dry goes with it.
    pub fn remove_sound(&mut self, id: SoundId) -> (removed: bool)
        requires
            old(self).wf(),
        ensures
            final(self).wf(),
            removed == old(self)@.sounds.contains_key(id),
            final(self)@ == old(self)@.sound_removed(id),
    {
        match map_remove(&mut self.sounds, id) {
            None => {
                proof {
                    assert(final(self)@.sounds =~= old(self)@.sounds);
                }
                false
            },
            Some(sound) => {
                self.forget_exhausted(id);
                proof {
                    lemma_without(old(self)@.exhausted, id);
                }
                self.monitor_queue.push(
                    AudioMonitorMessage::ActiveSound(id, ActiveSoundMessage::End { sound }),
                );
                self.soundscape_queue.push(SoundscapeMessage::RemoveActiveSound(id));
                true
            },
        }
    }

    /// Replaces the sound of every live sound that `source` spawned by what
    /// `update` makes of it, and tells how many there were. The detectors and
    /// the total lengths stay as they are, so `update` must leave the number
    /// of channels alone.
    pub fn update_sounds_with_source<U>(&mut self, source: SourceId, update: U) -> (count: usize)
        where U: Fn(SoundId, Sound<P, A>) -> Sound<P, A>
        requires
            old(self).wf(),
            forall|id: SoundId|
                old(self)@.sounds_of(source).contains(id) ==> call_requires(
                    update,
                    (id, #[trigger] old(self)@.sounds[id].sound),
                ),
            forall|id: SoundId, before: Sound<P, A>, after: Sound<P, A>|
                call_ensures(update, (id, before), after) ==> after.channels == before.channels,
        ensures
            final(self).wf(),
            count == old(self)@.sounds_of(source).len(),
            final(self)@ == (ModelView { sounds: final(self)@.sounds, ..old(self)@ }),
            final(self)@.sounds.dom() == old(self)@.sounds.dom(),
            forall|id: SoundId|
                old(self)@.sounds.contains_key(id) && !old(self)@.sounds_of(source).contains(id)
                    ==> #[trigger] final(self)@.sounds[id] == old(self)@.sounds[id],
            forall|id: SoundId|
                old(self)@.sounds_of(source).contains(id) ==> {
                    &&& call_ensures(
                        update,
                        (id, old(self)@.sounds[id].sound),
                        (#[trigger] final(self)@.sounds[id]).sound,
                    )
                    &&& final(self)@.sounds[id].channel_detectors == old(
                        self,
                    )@.sounds[id].channel_detectors
                    &&& final(self)@.sounds[id].total_duration_frames == old(
                        self,
                    )@.sounds[id].total_duration_frames
                },
    {
        let ids = map_keys(&self.sounds);
        let ghost before = self@;
        let ghost mut counted: Set<SoundId> = Set::empty();
        let mut count: usize = 0;
        let mut i: usize = 0;
        while i < ids.len()
            invariant
                before == old(self)@,
                before.wf(),
                self.wf(),
                i <= ids@.len(),
                ids@.no_duplicates(),
                ids@.to_set() == before.sounds.dom(),
                self@ == (ModelView { sounds: self@.sounds, ..before }),
                self@.sounds.dom() == before.sounds.dom(),
                forall|id: SoundId|
                    before.sounds_of(source).contains(id) ==> call_requires(
                        update,
                        (id, #[trigger] before.sounds[id].sound),
                    ),
                forall|id: SoundId, old_sound: Sound<P, A>, new_sound: Sound<P, A>|
                    call_ensures(update, (id, old_sound), new_sound) ==> new_sound.channels
                        == old_sound.channels,
                forall|j: int| i <= j < ids@.len() ==> self@.sounds[ids@[j]] == before.sounds[ids@[j]],
                forall|j: int|
                    0 <= j < i && !before.sounds_of(source).contains(ids@[j]) ==> self@.sounds[ids@[j]]
                        == before.sounds[ids@[j]],
                forall|j: int|
                    0 <= j < i && before.sounds_of(source).contains(ids@[j]) ==> {
                        &&& call_ensures(
                            update,
                            (ids@[j], before.sounds[ids@[j]].sound),
                            self@.sounds[ids@[j]].sound,
                        )
                        &&& self@.sounds[ids@[j]].channel_detectors
                            == before.sounds[ids@[j]].channel_detectors
                        &&& self@.sounds[ids@[j]].total_duration_frames
                            == before.sounds[ids@[j]].total_duration_frames
                    },
                counted.finite(),
                count == counted.len(),
                count <= i,
                forall|id: SoundId|
                    counted.contains(id) <==> before.sounds_of(source).contains(id) && exists|j: int|
                        0 <= j < i && ids@[j] == id,
            decreases ids@.len() - i,
        {
            let id = ids[i];
            proof {
                assert(ids@.to_set().contains(id));
                assert(before.sounds.contains_key(id));
            }
            let matches = match map_get(&self.sounds, id) {
                Some(active) => active.sound.source_id == source,
                None => false,
            };
            let ghost earlier = self@;
            if matches {
                match map_remove(&mut self.sounds, id) {
                    Some(active) => {
                        let ActiveSound { sound, channel_detectors, total_duration_frames } = active;
                        let sound = update(id, sound);
                        let active = ActiveSound { sound, channel_detectors, total_duration_frames };
                        map_insert(&mut self.sounds, id, active);
                        proof {
                            assert(self@.sounds =~= earlier.sounds.insert(id, active));
                            assert(self@.sounds.dom() =~= before.sounds.dom());
                            assert(!counted.contains(id)) by {
                                if counted.contains(id) {
                                    let j = choose|j: int| 0 <= j < i && ids@[j] == id;
                                    assert(ids@[j] == ids@[i as int]);
                                }
                            }
                            counted = counted.insert(id);
                        }
                        count += 1;
                    },
                    None => {},
                }
            }
            proof {
                assert forall|j: int| i + 1 <= j < ids@.len() implies self@.sounds[ids@[j]]
                    == before.sounds[ids@[j]] by {
                    assert(ids@[j] != ids@[i as int]);
                }
                assert forall|j: int|
                    0 <= j < i + 1 && !before.sounds_of(source).contains(
                        ids@[j],
                    ) implies self@.sounds[ids@[j]] == before.sounds[ids@[j]] by {
                    if j < i {
                        assert(ids@[j] != ids@[i as int]);
                    }
                }
                assert forall|j: int|
                    0 <= j < i + 1 && before.sounds_of(source).contains(ids@[j]) implies {
                    &&& call_ensures(
                        update,
                        (ids@[j], before.sounds[ids@[j]].sound),
                        self@.sounds[ids@[j]].sound,
                    )
                    &&& self@.sounds[ids@[j]].channel_detectors
                        == before.sounds[ids@[j]].channel_detectors
                    &&& self@.sounds[ids@[j]].total_duration_frames
                        == before.sounds[ids@[j]].total_duration_frames
                } by {
                    if j < i {
                        assert(ids@[j] != ids@[i as int]);
                    }
                }
                assert forall|other: SoundId|
                    counted.contains(other) <==> before.sounds_of(source).contains(other) && exists|
                        j: int,
                    |
                        0 <= j < i + 1 && ids@[j] == other by {
                    if counted.contains(other) {
                        if other == id && matches {
                            assert(ids@[i as int] == other);
                        } else {
                            let j = choose|j: int| 0 <= j < i && ids@[j] == other;
                            assert(0 <= j < i + 1 && ids@[j] == other);
                        }
                    }
                    if before.sounds_of(source).contains(other) && exists|j: int|
                        0 <= j < i + 1 && ids@[j] == other {
                        let j = choose|j: int| 0 <= j < i + 1 && ids@[j] == other;
                        if j < i {
                            assert(0 <= j < i && ids@[j] == other);
                        }
                    }
                }
            }
            i += 1;
        }
        proof {
            assert forall|id: SoundId| before.sounds_of(source).contains(id) implies counted.contains(
                id,
            ) by {
                assert(ids@.to_set().contains(id));
                let j = choose|j: int| 0 <= j < ids@.len() && ids@[j] == id;
                assert(0 <= j < i && ids@[j] == id);
            }
            assert(counted =~= before.sounds_of(source));
            assert forall|id: SoundId|
                before.sounds.contains_key(id) && !before.sounds_of(source).contains(
                    id,
                ) implies #[trigger] self@.sounds[id] == before.sounds[id] by {
                assert(ids@.to_set().contains(id));
                let j = choose|j: int| 0 <= j < ids@.len() && ids@[j] == id;
                assert(self@.sounds[ids@[j]] == before.sounds[ids@[j]]);
            }
            assert forall|id: SoundId| before.sounds_of(source).contains(id) implies {
                &&& call_ensures(
                    update,
                    (id, before.sounds[id].sound),
                    (#[trigger] self@.sounds[id]).sound,
                )
                &&& self@.sounds[id].channel_detectors == before.sounds[id].channel_detectors
                &&& self@.sounds[id].total_duration_frames == before.sounds[id].total_duration_frames
            } by {
                assert(ids@.to_set().contains(id));
                let j = choose|j: int| 0 <= j < ids@.len() && ids@[j] == id;
                assert(self@.sounds[ids@[j]].sound == self@.sounds[id].sound);
            }
        }
        count
    }

    /// Replaces the live sound at `id`, detectors and all, by what `update`
    /// makes of it, and tells whether there was one. This is how samples are
    /// pulled from a sound and fed to its detectors. `update` must hand back a
    /// sound with one detector per channel.
    pub fn update_active_sound<U>(&mut self, id: SoundId, update: U) -> (updated: bool) where
        U: FnOnce(ActiveSound<P, A, E>) -> ActiveSound<P, A, E>,

        requires
            old(self).wf(),
            old(self)@.sounds.contains_key(id) ==> call_requires(update, (old(self)@.sounds[id],)),
            forall|before: ActiveSound<P, A, E>, after: ActiveSound<P, A, E>|
                before.wf() && call_ensures(update, (before,), after) ==> after.wf(),
        ensures
            final(self).wf(),
            updated == old(self)@.sounds.contains_key(id),
            !updated ==> final(self)@ == old(self)@,
            updated ==> {
                &&& final(self)@ == (ModelView {
                    sounds: old(self)@.sounds.insert(id, final(self)@.sounds[id]),
                    ..old(self)@
                })
                &&& call_ensures(update, (old(self)@.sounds[id],), final(self)@.sounds[id])
            },
    {
        match map_remove(&mut self.sounds, id) {
            None => {
                proof {
                    assert(final(self)@.sounds =~= old(self)@.sounds);
                }
                false
            },
            Some(active) => {
                let active = update(active);
                map_insert(&mut self.sounds, id, active);
                proof {
                    assert(final(self)@.sounds =~= old(self)@.sounds.insert(id, active));
                }
                true
            },
        }
    }

    /// Replaces the live speaker at `id`, detectors and all, by what `update`
    /// makes of it, and tells whether there was one. This is how the samples
    /// of a speaker's channel reach its detectors.
    pub fn update_active_speaker<U>(&mut self, id: SpeakerId, update: U) -> (updated: bool) where
        U: FnOnce(ActiveSpeaker<P, E, F>) -> ActiveSpeaker<P, E, F>,

        requires
            old(self).wf(),
            old(self)@.speakers.contains_key(id) ==> call_requires(
                update,
                (old(self)@.speakers[id],),
            ),
        ensures
            final(self).wf(),
            updated == old(self)@.speakers.contains_key(id),
            !updated ==> final(self)@ == old(self)@,
            updated ==> {
                &&& final(self)@ == (ModelView {
                    speakers: old(self)@.speakers.insert(id, final(self)@.speakers[id]),
                    ..old(self)@
                })
                &&& call_ensures(update, (old(self)@.speakers[id],), final(self)@.speakers[id])
            },
    {
        match map_remove(&mut self.speakers, id) {
            None => {
                proof {
                    assert(final(self)@.speakers =~= old(self)@.speakers);
                }
                false
            },
            Some(active) => {
                let active = update(active);
                map_insert(&mut self.speakers, id, active);
                proof {
                    assert(final(self)@.speakers =~= old(self)@.speakers.insert(id, active));
                }
                true
            },
        }
    }

    /// Hands over the messages lined up for the monitor, oldest first, and
    /// leaves none behind.
    pub fn take_monitor_messages(&mut self) -> (messages: Vec<AudioMonitorMessage<P, A, E>>)
        ensures
            messages@ == old(self)@.monitor,
            final(self)@ == (ModelView { monitor: Seq::empty(), ..old(self)@ }),
    {
        let mut messages: Vec<AudioMonitorMessage<P, A, E>> = Vec::new();
        std::mem::swap(&mut self.monitor_queue, &mut messages);
        messages
    }

    /// Hands over the messages lined up for the scheduler, oldest first, and
    /// leaves none behind.
    pub fn take_soundscape_messages(&mut self) -> (messages: Vec<SoundscapeMessage>)
        ensures
            messages@ == old(self)@.soundscape,
            final(self)@ == (ModelView { soundscape: Seq::empty(), ..old(self)@ }),
    {
        let mut messages: Vec<SoundscapeMessage> = Vec::new();
        std::mem::swap(&mut self.soundscape_queue, &mut messages);
        messages
    }
}

/// Striking an id out of a list without repeats leaves a list without
/// repeats that holds every other id of the first and not the one struck.
pub proof fn lemma_without(marks: Seq<SoundId>, id: SoundId)
    requires
        marks.no_duplicates(),
    ensures
        without(marks, id).no_duplicates(),
        !without(marks, id).contains(id),
        forall|other: SoundId|
            other != id ==> (#[trigger] without(marks, id).contains(other) <==> marks.contains(
                other,
            )),
        forall|other: SoundId| #[trigger]
            without(marks, id).contains(other) ==> marks.contains(other),
{
    if marks.contains(id) {
        let at = marks.index_of(id);
        let rest = marks.remove(at);
        assert forall|i: int, j: int| 0 <= i < j < rest.len() implies rest[i] != rest[j] by {
            let from_i = if i < at { i } else { i + 1 };
            let from_j = if j < at { j } else { j + 1 };
            assert(rest[i] == marks[from_i]);
            assert(rest[j] == marks[from_j]);
        }
        assert forall|i: int| 0 <= i < rest.len() implies rest[i] != id by {
            let from_i = if i < at { i } else { i + 1 };
            assert(rest[i] == marks[from_i]);
        }
        assert forall|other: SoundId| other != id && marks.contains(other) implies rest.contains(
            other,
        ) by {
            let k = choose|k: int| 0 <= k < marks.len() && marks[k] == other;
            let to_k = if k < at { k } else { k - 1 };
            assert(rest[to_k] == other);
        }
        assert forall|other: SoundId| rest.contains(other) implies marks.contains(other) by {
            let k = choose|k: int| 0 <= k < rest.len() && rest[k] == other;
            let from_k = if k < at { k } else { k + 1 };
            assert(marks[from_k] == other);
        }
    }
}

/// However sounds and speakers are inserted and removed, the numbers that
/// are live move with the insertions and removals that took effect: up by
/// one for each sound, or speaker, that came at an id that was not live, and
/// down by one for each that went and was live. Inserting over a live id
/// and removing at an id that is not live leave the numbers alone. A model
/// that was well formed stays so.
pub proof fn lemma_counts_follow_changes<P, A, E, F>(
    model: ModelView<P, A, E, F>,
    changes: Seq<Change<P, A, E, F>>,
)
    requires
        model.wf(),
        forall|i: int|
            0 <= i < changes.len() ==> (#[trigger] changes[i] matches Change::InsertSound(_, sound)
                ==> sound.wf()),
    ensures
        model.after(changes).wf(),
        model.after(changes).sounds.dom().len() == model.sounds.dom().len()
            + model.net_sounds_gained(changes),
        model.after(changes).speakers.dom().len() == model.speakers.dom().len()
            + model.net_speakers_gained(changes),
    decreases changes.len(),
{
    if changes.len() > 0 {
        let earlier = changes.drop_last();
        assert forall|i: int| 0 <= i < earlier.len() implies (#[trigger] earlier[i] matches Change::InsertSound(
            _,
            sound,
        ) ==> sound.wf()) by {
            assert(earlier[i] == changes[i]);
        }
        lemma_counts_follow_changes(model, earlier);
        let before = model.after(earlier);
        match changes.last() {
            Change::InsertSound(id, sound) => {
                assert(changes[changes.len() - 1] == changes.last());
                lemma_without(before.exhausted, id);
                let after = before.sound_inserted(id, sound);
                assert forall|i: int| 0 <= i < after.exhausted.len() implies after.sounds.contains_key(
                    #[trigger] after.exhausted[i],
                ) by {
                    assert(after.exhausted.contains(after.exhausted[i]));
                    let k = choose|k: int|
                        0 <= k < before.exhausted.len() && before.exhausted[k] == after.exhausted[i];
                    assert(before.sounds.contains_key(before.exhausted[k]));
                }
            },
            Change::RemoveSound(id) => {
                if before.sounds.contains_key(id) {
                    lemma_without(before.exhausted, id);
                    let after = before.sound_removed(id);
                    assert forall|i: int|
                        0 <= i < after.exhausted.len() implies after.sounds.contains_key(
                        #[trigger] after.exhausted[i],
                    ) by {
                        assert(after.exhausted.contains(after.exhausted[i]));
                        let k = choose|k: int|
                            0 <= k < before.exhausted.len() && before.exhausted[k]
                                == after.exhausted[i];
                        assert(before.sounds.contains_key(before.exhausted[k]));
                    }
                }
            },
            Change::InsertSpeaker(id, speaker, env_detector, fft_detector) => {},
            Change::RemoveSpeaker(id) => {},
        }
    }
}

/// A speaker that is inserted where a speaker is live takes over the
/// detectors of the one it displaces, whatever the new speaker is and
/// whatever new detectors were on offer. What the detectors have heard is
/// not lost.
pub proof fn lemma_reinserted_speaker_keeps_detectors<P, A, E, F>(
    model: ModelView<P, A, E, F>,
    id: SpeakerId,
    speaker: Speaker<P>,
    env_detector: E,
    fft_detector: F,
)
    requires
        model.speakers.contains_key(id),
    ensures
        model.speaker_inserted(id, speaker, env_detector, fft_detector).speakers[id] == (
        ActiveSpeaker {
            speaker,
            env_detector: model.speakers[id].env_detector,
            fft_detector: model.speakers[id].fft_detector,
        }),
{
}

/// Removing a sound or a speaker at an id where none is live changes
/// nothing: no sound or speaker goes, and no message is lined up.
pub proof fn lemma_removing_nothing_changes_nothing<P, A, E, F>(
    model: ModelView<P, A, E, F>,
    id: u64,
)
    ensures
        !model.sounds.contains_key(id) ==> model.sound_removed(id) == model,
        !model.speakers.contains_key(id) ==> model.speaker_removed(id) == model,
{
}

} // verus!
