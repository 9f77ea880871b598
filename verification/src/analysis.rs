//! How what is measured at the speakers is gathered per installation.
//!
//! After a buffer is mixed, every speaker that the device drives is measured.
//! Each installation is then told of the speakers that belong to it: what was
//! measured at each, ordered by output channel. The measurements themselves,
//! of any type `L`, are only passed along, and so is the work of averaging
//! them.

use crate::id::Installation;
use crate::id::SpeakerId;
use crate::model::Model;
use crate::model::ModelView;
use crate::table::map_get;
use crate::table::set_members;
use vstd::multiset::Multiset;
use vstd::prelude::*;
use vstd::multiset::lemma_multiset_empty_len;
use vstd::seq_lib::to_multiset_build;
use vstd::seq_lib::to_multiset_insert;
use vstd::seq_lib::to_multiset_len;

verus! {

/// What was measured at one speaker.
#[derive(Clone, Copy, Debug, PartialEq)]
pub struct SpeakerReading<L> {
    pub speaker: SpeakerId,
    pub level: L,
}

/// What one installation is told of one of its speakers: what was measured
/// there, and `index`, the output channel that drives the speaker.
#[derive(Clone, Copy, Debug, PartialEq)]
pub struct SpeakerAnalysis<L> {
    pub level: L,
    pub index: usize,
}

/// What one installation is told after a buffer: the analyses of its
/// speakers, ordered by channel.
#[derive(Clone, Debug, PartialEq)]
pub struct InstallationFrame<L> {
    pub installation: Installation,
    pub speakers: Vec<SpeakerAnalysis<L>>,
}

/// Whether `speakers` is ordered by channel, lowest first.
pub open spec fn ordered_by_channel<L>(speakers: Seq<SpeakerAnalysis<L>>) -> bool {
    forall|i: int, j: int| 0 <= i < j < speakers.len() ==> speakers[i].index <= speakers[j].index
}

impl<P, A, E, F> ModelView<P, A, E, F> {
    /// Whether what is measured at `speaker` counts for `installation` on a
    /// device of `n_channels` channels: the speaker is live, the device has
    /// its channel, and it belongs to the installation.
    pub open spec fn counts_for(
        self,
        speaker: SpeakerId,
        n_channels: usize,
        installation: Installation,
    ) -> bool {
        &&& self.speakers.contains_key(speaker)
        &&& self.speakers[speaker].speaker.channel < n_channels
        &&& self.speakers[speaker].speaker.installations@.contains(installation)
    }

    /// What an installation is told of the speaker of `reading`.
    pub open spec fn analysis_of<L>(self, reading: SpeakerReading<L>) -> SpeakerAnalysis<L> {
        SpeakerAnalysis {
            level: reading.level,
            index: self.speakers[reading.speaker].speaker.channel,
        }
    }

    /// The analyses that `installation` is owed for `readings`, in the order
    /// of the readings.
    pub open spec fn analyses_of<L>(
        self,
        readings: Seq<SpeakerReading<L>>,
        n_channels: usize,
        installation: Installation,
    ) -> Seq<SpeakerAnalysis<L>> {
        readings.filter(
            |reading: SpeakerReading<L>| self.counts_for(reading.speaker, n_channels, installation),
        ).map_values(|reading: SpeakerReading<L>| self.analysis_of(reading))
    }
}

/// One reading more: it adds its analysis to what an installation is owed if
/// it counts for the installation, and nothing if it does not.
proof fn lemma_analyses_push<P, A, E, F, L>(
    model: ModelView<P, A, E, F>,
    readings: Seq<SpeakerReading<L>>,
    reading: SpeakerReading<L>,
    n_channels: usize,
    installation: Installation,
)
    ensures
        model.analyses_of(readings.push(reading), n_channels, installation) == (if model.counts_for(
            reading.speaker,
            n_channels,
            installation,
        ) {
            model.analyses_of(readings, n_channels, installation).push(model.analysis_of(reading))
        } else {
            model.analyses_of(readings, n_channels, installation)
        }),
{
    reveal(Seq::filter);
    let counts = |r: SpeakerReading<L>| model.counts_for(r.speaker, n_channels, installation);
    let more = readings.push(reading);
    assert(more.drop_last() =~= readings);
    assert(more.last() == reading);
    assert(more.filter(counts) == (if counts(reading) {
        readings.filter(counts).push(reading)
    } else {
        readings.filter(counts)
    }));
    if counts(reading) {
        assert(readings.filter(counts).push(reading).map_values(
            |r: SpeakerReading<L>| model.analysis_of(r),
        ) =~= readings.filter(counts).map_values(
            |r: SpeakerReading<L>| model.analysis_of(r),
        ).push(model.analysis_of(reading)));
    }
}

/// Puts `analysis` into `speakers`, behind every entry whose channel is no
/// higher than its own.
fn insert_by_channel<L>(speakers: &mut Vec<SpeakerAnalysis<L>>, analysis: SpeakerAnalysis<L>)
    requires
        ordered_by_channel(old(speakers)@),
    ensures
        ordered_by_channel(final(speakers)@),
        final(speakers)@.to_multiset() == old(speakers)@.to_multiset().insert(analysis),
        final(speakers)@.len() == old(speakers)@.len() + 1,
{
    let mut at: usize = 0;
    while at < speakers.len() && speakers[at].index <= analysis.index
        invariant
            *speakers == *old(speakers),
            at <= speakers@.len(),
            forall|i: int| 0 <= i < at ==> speakers@[i].index <= analysis.index,
        decreases speakers@.len() - at,
    {
        at += 1;
    }
    proof {
        to_multiset_insert(speakers@, at as int, analysis);
        let after = speakers@.insert(at as int, analysis);
        assert forall|i: int, j: int| 0 <= i < j < after.len() implies after[i].index
            <= after[j].index by {
            let from_i = if i < at { i } else { i - 1 };
            let from_j = if j < at { j } else { j - 1 };
            if i != at && j != at {
                assert(after[i] == speakers@[from_i]);
                assert(after[j] == speakers@[from_j]);
            } else if i == at {
                assert(after[j] == speakers@[from_j]);
                assert(speakers@[at as int].index <= speakers@[from_j].index || from_j == at);
            } else {
                assert(after[i] == speakers@[from_i]);
            }
        }
    }
    speakers.insert(at, analysis);
}

/// Where in `frames` the frame of `installation` stands, if it has one.
fn frame_of<L>(frames: &Vec<InstallationFrame<L>>, installation: Installation) -> (at: Option<usize>)
    ensures
        match at {
            Some(at) => at < frames@.len() && frames@[at as int].installation == installation,
            None => forall|a: int| 0 <= a < frames@.len() ==> frames@[a].installation != installation,
        },
{
    let mut a: usize = 0;
    while a < frames.len()
        invariant
            a <= frames@.len(),
            forall|b: int| 0 <= b < a ==> frames@[b].installation != installation,
        decreases frames@.len() - a,
    {
        if frames[a].installation == installation {
            return Some(a);
        }
        a += 1;
    }
    None
}

/// What `frames` must be, after the first `done` of `readings` were shared
/// out in full and the analysis `extra` was handed to the installations in
/// `served` besides.
spec fn shared_out<P, A, E, F, L>(
    model: ModelView<P, A, E, F>,
    readings: Seq<SpeakerReading<L>>,
    n_channels: usize,
    extra: SpeakerAnalysis<L>,
    served: Set<Installation>,
    frames: Seq<InstallationFrame<L>>,
) -> bool {
    &&& forall|a: int, b: int|
        0 <= a < b < frames.len() ==> frames[a].installation != frames[b].installation
    &&& forall|a: int|
        0 <= a < frames.len() ==> {
            &&& ordered_by_channel((#[trigger] frames[a]).speakers@)
            &&& frames[a].speakers@.len() > 0
            &&& frames[a].speakers@.to_multiset() == owed(
                model,
                readings,
                n_channels,
                extra,
                served,
                frames[a].installation,
            )
        }
    &&& forall|installation: Installation|
        (#[trigger] owed(model, readings, n_channels, extra, served, installation)).len() > 0
            ==> exists|a: int|
            0 <= a < frames.len() && (#[trigger] frames[a]).installation == installation
}

/// What `installation` is owed at that point.
spec fn owed<P, A, E, F, L>(
    model: ModelView<P, A, E, F>,
    readings: Seq<SpeakerReading<L>>,
    n_channels: usize,
    extra: SpeakerAnalysis<L>,
    served: Set<Installation>,
    installation: Installation,
) -> Multiset<SpeakerAnalysis<L>> {
    let full = model.analyses_of(readings, n_channels, installation).to_multiset();
    if served.contains(installation) {
        full.insert(extra)
    } else {
        full
    }
}

impl<P: Copy, A, E, F> Model<P, A, E, F> {
    /// Gathers `readings` per installation, for a device of `n_channels`
    /// channels.
    ///
    /// A reading counts if its speaker is live and the device has its
    /// channel, and it counts for every installation that the speaker
    /// belongs to. Each installation for which something counts gets one
    /// frame and no installation gets two. A frame holds the analyses of
    /// all the readings that count for its installation, each as often as
    /// it was read, ordered by channel. The order of the frames is not
    /// fixed.
    pub fn installation_frames<L: Copy>(
        &self,
        readings: &Vec<SpeakerReading<L>>,
        n_channels: usize,
    ) -> (frames: Vec<InstallationFrame<L>>)
        ensures
            forall|a: int, b: int|
                0 <= a < b < frames@.len() ==> frames@[a].installation != frames@[b].installation,
            forall|a: int|
                0 <= a < frames@.len() ==> {
                    &&& ordered_by_channel((#[trigger] frames@[a]).speakers@)
                    &&& frames@[a].speakers@.len() > 0
                    &&& frames@[a].speakers@.to_multiset() == self@.analyses_of(
                        readings@,
                        n_channels,
                        frames@[a].installation,
                    ).to_multiset()
                },
            forall|installation: Installation|
                (#[trigger] self@.analyses_of(readings@, n_channels, installation)).len() > 0
                    ==> exists|a: int|
                    0 <= a < frames@.len() && (#[trigger] frames@[a]).installation == installation,
    {
        let mut frames: Vec<InstallationFrame<L>> = Vec::new();
        let ghost nothing: SpeakerAnalysis<L> = arbitrary();
        let mut i: usize = 0;
        proof {
            assert(readings@.subrange(0, 0) =~= Seq::empty());
            assert forall|installation: Installation|
                (#[trigger] owed(
                    self@,
                    readings@.subrange(0, 0),
                    n_channels,
                    nothing,
                    Set::empty(),
                    installation,
                )).len() == 0 by {
                reveal(Seq::filter);
                assert(self@.analyses_of(
                    readings@.subrange(0, 0),
                    n_channels,
                    installation,
                ) =~= Seq::empty());
                Seq::<SpeakerAnalysis<L>>::empty().to_multiset_ensures();
            }
        }
        while i < readings.len()
            invariant
                i <= readings@.len(),
                shared_out(
                    self@,
                    readings@.subrange(0, i as int),
                    n_channels,
                    nothing,
                    Set::empty(),
                    frames@,
                ),
            decreases readings@.len() - i,
        {
            let reading = &readings[i];
            let ghost done = readings@.subrange(0, i as int);
            let ghost more = readings@.subrange(0, i + 1);
            proof {
                assert(more =~= done.push(*reading));
            }
            let channel = match map_get(&self.speakers, reading.speaker) {
                Some(active) => if active.speaker.channel < n_channels {
                    Some((active.speaker.channel, set_members(&active.speaker.installations)))
                } else {
                    None
                },
                None => None,
            };
            match channel {
                None => {
                    proof {
                        assert forall|installation: Installation|
                            owed(self@, more, n_channels, nothing, Set::empty(), installation)
                                == owed(
                                self@,
                                done,
                                n_channels,
                                nothing,
                                Set::empty(),
                                installation,
                            ) by {
                            lemma_analyses_push(self@, done, *reading, n_channels, installation);
                        }
                    }
                },
                Some((index, members)) => {
                    let ghost extra = self@.analysis_of(*reading);
                    let mut m: usize = 0;
                    proof {
                        assert(members@.subrange(0, 0).to_set() =~= Set::empty());
                        assert forall|installation: Installation|
                            owed(self@, done, n_channels, extra, Set::empty(), installation)
                                == owed(
                                self@,
                                done,
                                n_channels,
                                nothing,
                                Set::empty(),
                                installation,
                            ) by {}
                    }
                    while m < members.len()
                        invariant
                            m <= members@.len(),
                            members@.no_duplicates(),
                            extra == (SpeakerAnalysis { level: reading.level, index }),
                            shared_out(
                                self@,
                                done,
                                n_channels,
                                extra,
                                members@.subrange(0, m as int).to_set(),
                                frames@,
                            ),
                        decreases members@.len() - m,
                    {
                        let installation = members[m];
                        let ghost served = members@.subrange(0, m as int).to_set();
                        let ghost served_more = members@.subrange(0, m + 1).to_set();
                        proof {
                            assert(!served.contains(installation)) by {
                                if served.contains(installation) {
                                    let k = choose|k: int|
                                        0 <= k < m && members@.subrange(0, m as int)[k]
                                            == installation;
                                    assert(members@[k] == members@[m as int]);
                                }
                            }
                            assert(served_more =~= served.insert(installation)) by {
                                let short = members@.subrange(0, m as int);
                                let long = members@.subrange(0, m + 1);
                                assert(long =~= short.push(installation));
                                assert forall|x: Installation|
                                    long.to_set().contains(x) implies short.to_set().insert(
                                    installation,
                                ).contains(x) by {
                                    let k = choose|k: int| 0 <= k < long.len() && long[k] == x;
                                    if k < short.len() {
                                        assert(short[k] == x);
                                    }
                                }
                                assert forall|x: Installation|
                                    short.to_set().insert(installation).contains(
                                        x,
                                    ) implies long.to_set().contains(x) by {
                                    if x == installation {
                                        assert(long[m as int] == x);
                                    } else {
                                        let k = choose|k: int| 0 <= k < short.len() && short[k] == x;
                                        assert(long[k] == x);
                                    }
                                }
                            }
                        }
                        let ghost begun = frames@;
                        let at = match frame_of(&frames, installation) {
                            Some(at) => at,
                            None => {
                                frames.push(InstallationFrame { installation, speakers: Vec::new() });
                                frames.len() - 1
                            },
                        };
                        let ghost opened = frames@;
                        proof {
                            lemma_multiset_empty_len(
                                owed(self@, done, n_channels, extra, served, installation),
                            );
                            to_multiset_len(opened[at as int].speakers@);
                            lemma_multiset_empty_len(opened[at as int].speakers@.to_multiset());
                            assert(opened[at as int].speakers@.to_multiset() == owed(
                                self@,
                                done,
                                n_channels,
                                extra,
                                served,
                                installation,
                            ));
                            assert(ordered_by_channel(opened[at as int].speakers@));
                        }
                        let mut frame = frames.remove(at);
                        let analysis = SpeakerAnalysis { level: reading.level, index };
                        insert_by_channel(&mut frame.speakers, analysis);
                        frames.insert(at, frame);
                        proof {
                            assert(frames@ =~= opened.update(at as int, frame));
                            assert forall|a: int| 0 <= a < frames@.len() && a != at implies a
                                < begun.len() && frames@[a] == begun[a] && begun[a].installation
                                != installation by {}
                            assert forall|other: Installation| other != installation implies owed(
                                self@,
                                done,
                                n_channels,
                                extra,
                                served_more,
                                other,
                            ) == owed(self@, done, n_channels, extra, served, other) by {}
                            assert forall|a: int| 0 <= a < frames@.len() implies {
                                &&& ordered_by_channel((#[trigger] frames@[a]).speakers@)
                                &&& frames@[a].speakers@.len() > 0
                                &&& frames@[a].speakers@.to_multiset() == owed(
                                    self@,
                                    done,
                                    n_channels,
                                    extra,
                                    served_more,
                                    frames@[a].installation,
                                )
                            } by {
                                if a != at {
                                    assert(frames@[a] == begun[a]);
                                }
                            }
                            assert forall|other: Installation|
                                (#[trigger] owed(
                                    self@,
                                    done,
                                    n_channels,
                                    extra,
                                    served_more,
                                    other,
                                )).len() > 0 implies exists|a: int|
                                0 <= a < frames@.len() && (#[trigger] frames@[a]).installation
                                    == other by {
                                if other == installation {
                                    assert(frames@[at as int].installation == other);
                                } else {
                                    assert(owed(self@, done, n_channels, extra, served, other).len()
                                        > 0);
                                    let a = choose|a: int|
                                        0 <= a < begun.len() && (#[trigger] begun[a]).installation
                                            == other;
                                    assert(frames@[a].installation == other);
                                }
                            }
                        }
                        m += 1;
                    }
                    proof {
                        assert(members@.subrange(0, m as int) =~= members@);
                        assert forall|installation: Installation|
                            owed(self@, more, n_channels, nothing, Set::empty(), installation)
                                == owed(
                                self@,
                                done,
                                n_channels,
                                extra,
                                members@.to_set(),
                                installation,
                            ) by {
                            lemma_analyses_push(self@, done, *reading, n_channels, installation);
                            to_multiset_build(
                                self@.analyses_of(done, n_channels, installation),
                                extra,
                            );
                        }
                    }
                },
            }
            i += 1;
        }
        proof {
            assert(readings@.subrange(0, i as int) =~= readings@);
            assert forall|installation: Installation|
                (#[trigger] self@.analyses_of(readings@, n_channels, installation)).len()
                    > 0 implies exists|a: int|
                0 <= a < frames@.len() && (#[trigger] frames@[a]).installation == installation by {
                to_multiset_len(self@.analyses_of(readings@, n_channels, installation));
                assert(owed(
                    self@,
                    readings@,
                    n_channels,
                    nothing,
                    Set::empty(),
                    installation,
                ).len() > 0);
            }
        }
        frames
    }
}

} // verus!
