//! Where each sample goes.
//!
//! The loops of the renderer that touch samples stand here. They move and
//! place samples of any type `T` and never compute with them: whatever is
//! done to a sample is a function that the caller hands in, and each contract
//! says which of the caller's functions was applied to what.
//!
//! A buffer holds whole frames, one sample per channel in each: the sample at
//! index `i` of a buffer of `n` channels belongs to frame `i / n` and channel
//! `i % n`.

use crate::render::DbapTarget;
use vstd::prelude::*;

verus! {

/// Sets every sample of `buffer` to `silence`.
pub fn silence<T: Copy>(buffer: &mut [T], silence: T)
    ensures
        final(buffer)@.len() == old(buffer)@.len(),
        forall|i: int| 0 <= i < final(buffer)@.len() ==> final(buffer)@[i] == silence,
{
    let len: usize = buffer.len();
    let mut i: usize = 0;
    while i < len
        invariant
            buffer@.len() == len,
            i <= len,
            forall|j: int| 0 <= j < i ==> buffer@[j] == silence,
        decreases len - i,
    {
        buffer[i] = silence;
        i += 1;
    }
}

/// Replaces every sample of `buffer` by what `scale` makes of it. This is how
/// the master volume is applied.
pub fn scale<T: Copy, S: Fn(T) -> T>(buffer: &mut [T], scale: S)
    requires
        forall|sample: T| call_requires(scale, (sample,)),
    ensures
        final(buffer)@.len() == old(buffer)@.len(),
        forall|i: int|
            0 <= i < final(buffer)@.len() ==> call_ensures(
                scale,
                (old(buffer)@[i],),
                #[trigger] final(buffer)@[i],
            ),
{
    let len: usize = buffer.len();
    let mut i: usize = 0;
    while i < len
        invariant
            buffer@.len() == len,
            old(buffer)@.len() == len,
            i <= len,
            forall|sample: T| call_requires(scale, (sample,)),
            forall|j: int|
                0 <= j < i ==> call_ensures(scale, (old(buffer)@[j],), #[trigger] buffer@[j]),
            forall|j: int| i <= j < len ==> buffer@[j] == old(buffer)@[j],
        decreases len - i,
    {
        let scaled = scale(buffer[i]);
        buffer[i] = scaled;
        i += 1;
    }
}

/// Fills `unmixed` up with `silence` to `samples` samples, and tells whether
/// it had to: whether the signal gave less than was asked of it. What the
/// signal gave stays in front.
pub fn pad_with_silence<T: Copy>(unmixed: &mut Vec<T>, samples: usize, silence: T) -> (short: bool)
    ensures
        short == (old(unmixed)@.len() < samples),
        final(unmixed)@.len() == (if short {
            samples as int
        } else {
            old(unmixed)@.len() as int
        }),
        forall|i: int| 0 <= i < old(unmixed)@.len() ==> final(unmixed)@[i] == old(unmixed)@[i],
        forall|i: int| old(unmixed)@.len() <= i < final(unmixed)@.len() ==> final(unmixed)@[i] == silence,
{
    let short = unmixed.len() < samples;
    while unmixed.len() < samples
        invariant
            short == (old(unmixed)@.len() < samples),
            old(unmixed)@.len() <= unmixed@.len(),
            short ==> unmixed@.len() <= samples,
            !short ==> unmixed@.len() == old(unmixed)@.len(),
            forall|i: int| 0 <= i < old(unmixed)@.len() ==> unmixed@[i] == old(unmixed)@[i],
            forall|i: int| old(unmixed)@.len() <= i < unmixed@.len() ==> unmixed@[i] == silence,
        decreases samples - unmixed@.len(),
    {
        unmixed.push(silence);
    }
    short
}

/// Whether `states` tells what becomes of one detector while interleaved
/// `samples` go by: `states[j]` is the detector before sample `j` and
/// `states[j + 1]` is the detector after it. A sample of the detector's
/// `channel` is fed to it with `next`. Any other sample leaves it as it is.
/// The samples of a channel are those at the indices that leave the channel
/// as remainder when divided by `channels`.
pub open spec fn hears<T, E, N: Fn(&E, T) -> E>(
    next: N,
    states: Seq<E>,
    samples: Seq<T>,
    channels: int,
    channel: int,
) -> bool {
    &&& states.len() == samples.len() + 1
    &&& forall|j: int|
        0 <= j < samples.len() ==> if j % channels == channel {
            call_ensures(next, (&states[j], samples[j]), #[trigger] states[j + 1])
        } else {
            #[trigger] states[j + 1] == states[j]
        }
}

/// Whether feeding the samples of `channel` to a detector, one after the
/// other, can lead from `start` to `end`.
pub open spec fn fed<T, E, N: Fn(&E, T) -> E>(
    next: N,
    start: E,
    samples: Seq<T>,
    channels: int,
    channel: int,
    end: E,
) -> bool {
    exists|states: Seq<E>| #[trigger]
        hears(next, states, samples, channels, channel) && states.first() == start
            && states.last() == end
}

/// Feeds interleaved `samples` to the detectors of a sound, each sample to
/// the detector of its channel, in the order they come. `next` makes of a
/// detector and a sample the detector that has heard the sample. Without
/// detectors nothing is done.
pub fn feed_detectors<T: Copy, E, N: Fn(&E, T) -> E>(
    detectors: &mut Vec<E>,
    samples: &[T],
    next: N,
)
    requires
        forall|detector: E, sample: T| call_requires(next, (&detector, sample)),
    ensures
        final(detectors)@.len() == old(detectors)@.len(),
        forall|channel: int|
            0 <= channel < old(detectors)@.len() ==> fed(
                next,
                old(detectors)@[channel],
                samples@,
                old(detectors)@.len() as int,
                channel,
                #[trigger] final(detectors)@[channel],
            ),
{
    let channels: usize = detectors.len();
    if channels == 0 {
        return ;
    }
    let ghost mut states: Seq<Seq<E>> = Seq::new(channels as nat, |c: int| seq![detectors@[c]]);
    let mut i: usize = 0;
    while i < samples.len()
        invariant
            i <= samples@.len(),
            channels > 0,
            detectors@.len() == channels,
            old(detectors)@.len() == channels,
            states.len() == channels,
            forall|detector: E, sample: T| call_requires(next, (&detector, sample)),
            forall|c: int|
                0 <= c < channels ==> {
                    &&& hears(
                        next,
                        #[trigger] states[c],
                        samples@.subrange(0, i as int),
                        channels as int,
                        c,
                    )
                    &&& states[c].first() == old(detectors)@[c]
                    &&& states[c].last() == detectors@[c]
                },
        decreases samples@.len() - i,
    {
        let channel: usize = i % channels;
        let ghost earlier = states;
        let heard = next(&detectors[channel], samples[i]);
        detectors.set(channel, heard);
        proof {
            states = Seq::new(channels as nat, |c: int| earlier[c].push(detectors@[c]));
            let upto = samples@.subrange(0, i + 1);
            assert forall|c: int| 0 <= c < channels implies {
                &&& hears(next, #[trigger] states[c], upto, channels as int, c)
                &&& states[c].first() == old(detectors)@[c]
                &&& states[c].last() == detectors@[c]
            } by {
                assert(hears(
                    next,
                    earlier[c],
                    samples@.subrange(0, i as int),
                    channels as int,
                    c,
                ));
                assert forall|j: int| 0 <= j < upto.len() implies if j % (channels as int) == c {
                    call_ensures(next, (&states[c][j], upto[j]), #[trigger] states[c][j + 1])
                } else {
                    #[trigger] states[c][j + 1] == states[c][j]
                } by {
                    if j < i {
                        assert(states[c][j + 1] == earlier[c][j + 1]);
                        assert(upto[j] == samples@.subrange(0, i as int)[j]);
                    }
                }
            }
        }
        i += 1;
    }
    proof {
        assert(samples@.subrange(0, i as int) =~= samples@);
        assert forall|c: int| 0 <= c < channels implies fed(
            next,
            old(detectors)@[c],
            samples@,
            channels as int,
            c,
            #[trigger] detectors@[c],
        ) by {
            assert(hears(next, states[c], samples@, channels as int, c));
        }
    }
}

/// How many whole frames a buffer of `len` samples and `n_channels` channels
/// holds.
pub open spec fn frames_in(len: nat, n_channels: usize) -> int {
    (len as int) / (n_channels as int)
}

/// Whether `states` tells what becomes of a detector that listens to one
/// channel of a buffer: `states[f]` is the detector before frame `f` and
/// `states[f + 1]` is what `next` makes of it and of the sample of `channel`
/// in that frame.
pub open spec fn listens<T, D, N: Fn(D, T) -> D>(
    next: N,
    states: Seq<D>,
    buffer: Seq<T>,
    n_channels: usize,
    channel: usize,
) -> bool {
    &&& states.len() == frames_in(buffer.len(), n_channels) + 1
    &&& forall|f: int|
        0 <= f < states.len() - 1 ==> call_ensures(
            next,
            (states[f], buffer[f * n_channels + channel]),
            #[trigger] states[f + 1],
        )
}

/// Lets a detector listen to `channel` of `buffer`, a buffer of `n_channels`
/// channels: the sample of `channel` in each whole frame is fed to it with
/// `next`, frame after frame. The detector that has heard them all is handed
/// back.
pub fn listen<T: Copy, D, N: Fn(D, T) -> D>(
    detector: D,
    buffer: &[T],
    n_channels: usize,
    channel: usize,
    next: N,
) -> (heard: D)
    requires
        channel < n_channels,
        forall|detector: D, sample: T| call_requires(next, (detector, sample)),
    ensures
        exists|states: Seq<D>| #[trigger]
            listens(next, states, buffer@, n_channels, channel) && states.first() == detector
                && states.last() == heard,
{
    let frames: usize = buffer.len() / n_channels;
    let size: usize = buffer.len();
    proof {
        assert(frames * n_channels <= size) by (nonlinear_arith)
            requires
                frames == size as int / n_channels as int,
                n_channels > 0,
        ;
    }
    let ghost start = detector;
    let mut detector = detector;
    let ghost mut states: Seq<D> = seq![detector];
    let mut frame: usize = 0;
    while frame < frames
        invariant
            channel < n_channels,
            frames == frames_in(buffer@.len(), n_channels),
            frames * n_channels <= size,
            size == buffer@.len(),
            frame <= frames,
            states.len() == frame + 1,
            states.first() == start,
            states.last() == detector,
            forall|detector: D, sample: T| call_requires(next, (detector, sample)),
            forall|f: int|
                0 <= f < frame ==> call_ensures(
                    next,
                    (states[f], buffer@[f * n_channels + channel]),
                    #[trigger] states[f + 1],
                ),
        decreases frames - frame,
    {
        proof {
            assert(frame * n_channels + n_channels <= frames * n_channels) by (nonlinear_arith)
                requires
                    frame < frames,
                    n_channels > 0,
            ;
            assert(0 <= frame * n_channels) by (nonlinear_arith)
                requires
                    frame >= 0,
                    n_channels >= 0,
            ;
        }
        let sample = buffer[frame * n_channels + channel];
        let ghost earlier = states;
        detector = next(detector, sample);
        proof {
            states = earlier.push(detector);
            assert forall|f: int| 0 <= f < frame + 1 implies call_ensures(
                next,
                (states[f], buffer@[f * n_channels + channel]),
                #[trigger] states[f + 1],
            ) by {
                if f < frame {
                    assert(states[f + 1] == earlier[f + 1]);
                }
            }
        }
        frame += 1;
    }
    proof {
        assert(listens(next, states, buffer@, n_channels, channel));
    }
    detector
}

/// How many entries of `targets` have a gain in `gains`.
pub open spec fn paired(targets: Seq<DbapTarget>, gains: int) -> int {
    if targets.len() <= gains {
        targets.len() as int
    } else {
        gains
    }
}

/// What mixing does to one sample of the buffer, the one of `channel` in
/// some frame, when `sample` is what the sound plays in that frame: if one of
/// the first `pairs` targets is driven by `channel`, `mix` is applied to what
/// was there, to `sample` and to the gain of that target. If none is, the
/// sample is left alone.
pub open spec fn mixed<T, G, M: Fn(T, T, G) -> T>(
    mix: M,
    before: T,
    sample: T,
    targets: Seq<DbapTarget>,
    gains: Seq<G>,
    pairs: int,
    channel: int,
    after: T,
) -> bool {
    &&& forall|k: int|
        0 <= k < pairs && (#[trigger] targets[k]).channel == channel ==> call_ensures(
            mix,
            (before, sample, gains[k]),
            after,
        )
    &&& (forall|k: int| 0 <= k < pairs ==> (#[trigger] targets[k]).channel != channel) ==> after
        == before
}

/// Mixes one channel of a sound into `buffer`, a buffer of `n_channels`
/// channels.
///
/// `unmixed` holds what the sound plays, a sample per channel of the sound in
/// each frame, and `sound_channel` is the channel to mix. `targets` are the
/// speakers it is panned over and `gains` holds a gain for each of them, in
/// the same order. In every frame `mix` is applied once for each target, to
/// the sample of the target's channel in the buffer, to the sample of the
/// sound and to the target's gain. Channels that no target names are not
/// touched, nor is a target without a gain or with a channel that the buffer
/// does not have.
pub fn mix_channel<T: Copy, G: Copy, M: Fn(T, T, G) -> T>(
    buffer: &mut [T],
    n_channels: usize,
    unmixed: &[T],
    sound_channels: usize,
    sound_channel: usize,
    targets: &[DbapTarget],
    gains: &[G],
    mix: M,
)
    requires
        n_channels > 0,
        sound_channel < sound_channels,
        frames_in(old(buffer)@.len(), n_channels) * sound_channels <= unmixed@.len(),
        forall|j: int, k: int|
            0 <= j < k < targets@.len() ==> targets@[j].channel != targets@[k].channel,
        forall|before: T, sample: T, gain: G| call_requires(mix, (before, sample, gain)),
    ensures
        final(buffer)@.len() == old(buffer)@.len(),
        forall|i: int|
            0 <= i < frames_in(old(buffer)@.len(), n_channels) * n_channels ==> mixed(
                mix,
                old(buffer)@[i],
                unmixed@[sound_channel + (i / n_channels as int) * sound_channels],
                targets@,
                gains@,
                paired(targets@, gains@.len() as int),
                i % n_channels as int,
                #[trigger] final(buffer)@[i],
            ),
        forall|i: int|
            frames_in(old(buffer)@.len(), n_channels) * n_channels <= i < old(buffer)@.len()
                ==> final(buffer)@[i] == old(buffer)@[i],
{
    let frames: usize = buffer.len() / n_channels;
    let pairs: usize = if targets.len() <= gains.len() {
        targets.len()
    } else {
        gains.len()
    };
    let size: usize = buffer.len();
    let available: usize = unmixed.len();
    let ghost len = buffer@.len() as int;
    proof {
        assert(frames * n_channels <= len) by (nonlinear_arith)
            requires
                frames == len / (n_channels as int),
                n_channels > 0,
                len >= 0,
        ;
    }
    let mut frame: usize = 0;
    while frame < frames
        invariant
            n_channels > 0,
            sound_channel < sound_channels,
            frames * sound_channels <= unmixed@.len(),
            frames * n_channels <= len,
            frames == len / (n_channels as int),
            buffer@.len() == len,
            old(buffer)@.len() == len,
            len == size,
            unmixed@.len() == available,
            frame <= frames,
            pairs == paired(targets@, gains@.len() as int),
            forall|j: int, k: int|
                0 <= j < k < targets@.len() ==> targets@[j].channel != targets@[k].channel,
            forall|before: T, sample: T, gain: G| call_requires(mix, (before, sample, gain)),
            forall|i: int|
                0 <= i < frame * n_channels ==> mixed(
                    mix,
                    old(buffer)@[i],
                    unmixed@[sound_channel + (i / n_channels as int) * sound_channels],
                    targets@,
                    gains@,
                    pairs as int,
                    i % n_channels as int,
                    #[trigger] buffer@[i],
                ),
            forall|i: int| frame * n_channels <= i < len ==> buffer@[i] == old(buffer)@[i],
        decreases frames - frame,
    {
        proof {
            assert(frame * n_channels + n_channels <= frames * n_channels) by (nonlinear_arith)
                requires
                    frame < frames,
                    n_channels > 0,
            ;
            assert(frame * sound_channels + sound_channels <= frames * sound_channels)
                by (nonlinear_arith)
                requires
                    frame < frames,
            ;
            assert(0 <= frame * sound_channels) by (nonlinear_arith)
                requires
                    frame >= 0,
                    sound_channels >= 0,
            ;
            assert(0 <= frame * n_channels) by (nonlinear_arith)
                requires
                    frame >= 0,
                    n_channels >= 0,
            ;
        }
        let base: usize = frame * n_channels;
        let sample: T = unmixed[sound_channel + frame * sound_channels];
        let mut k: usize = 0;
        while k < pairs
            invariant
                n_channels > 0,
                buffer@.len() == len,
                old(buffer)@.len() == len,
                base == frame * n_channels,
                base + n_channels <= len,
                len == size,
                k <= pairs,
                pairs <= targets@.len(),
                pairs <= gains@.len(),
                forall|j: int, k: int|
                    0 <= j < k < targets@.len() ==> targets@[j].channel != targets@[k].channel,
                forall|before: T, sample: T, gain: G| call_requires(mix, (before, sample, gain)),
                forall|i: int|
                    0 <= i < base ==> mixed(
                        mix,
                        old(buffer)@[i],
                        unmixed@[sound_channel + (i / n_channels as int) * sound_channels],
                        targets@,
                        gains@,
                        pairs as int,
                        i % n_channels as int,
                        #[trigger] buffer@[i],
                    ),
                forall|i: int| base + n_channels <= i < len ==> buffer@[i] == old(buffer)@[i],
                forall|i: int|
                    base <= i < base + n_channels ==> mixed(
                        mix,
                        old(buffer)@[i],
                        sample,
                        targets@,
                        gains@,
                        k as int,
                        i - base,
                        #[trigger] buffer@[i],
                    ),
            decreases pairs - k,
        {
            let channel: usize = targets[k].channel;
            let ghost earlier = buffer@;
            if channel < n_channels {
                let mixed_sample = mix(buffer[base + channel], sample, gains[k]);
                buffer[base + channel] = mixed_sample;
                proof {
                    assert(earlier[base + channel] == old(buffer)@[base + channel]) by {
                        assert forall|j: int| 0 <= j < k implies (#[trigger] targets@[j]).channel
                            != channel by {
                            assert(targets@[j].channel != targets@[k as int].channel);
                        }
                    }
                }
            }
            proof {
                assert forall|i: int| base <= i < base + n_channels implies mixed(
                    mix,
                    old(buffer)@[i],
                    sample,
                    targets@,
                    gains@,
                    k + 1,
                    i - base,
                    #[trigger] buffer@[i],
                ) by {
                    if i == base + channel {
                        assert forall|j: int|
                            0 <= j < k + 1 && (#[trigger] targets@[j]).channel == i
                                - base implies call_ensures(
                            mix,
                            (old(buffer)@[i], sample, gains@[j]),
                            buffer@[i],
                        ) by {
                            if j < k {
                                assert(targets@[j].channel != targets@[k as int].channel);
                            }
                        }
                    } else {
                        assert(buffer@[i] == earlier[i]);
                        assert(targets@[k as int].channel != i - base);
                    }
                }
            }
            k += 1;
        }
        proof {
            assert forall|i: int| 0 <= i < (frame + 1) * n_channels implies mixed(
                mix,
                old(buffer)@[i],
                unmixed@[sound_channel + (i / n_channels as int) * sound_channels],
                targets@,
                gains@,
                pairs as int,
                i % n_channels as int,
                #[trigger] buffer@[i],
            ) by {
                assert((frame + 1) * n_channels == base + n_channels) by (nonlinear_arith)
                    requires
                        base == frame * n_channels,
                ;
                if i >= base {
                    vstd::arithmetic::div_mod::lemma_fundamental_div_mod_converse(
                        i,
                        n_channels as int,
                        frame as int,
                        i - base,
                    );
                }
            }
            assert forall|i: int| (frame + 1) * n_channels <= i < len implies buffer@[i] == old(
                buffer,
            )@[i] by {
                assert((frame + 1) * n_channels == base + n_channels) by (nonlinear_arith)
                    requires
                        base == frame * n_channels,
                ;
            }
        }
        frame += 1;
    }
}

} // verus!
