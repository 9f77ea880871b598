//! Where the channels of a sound are heard from.
//!
//! A sound of one channel is heard from where the sound is. A sound of more
//! channels spreads them evenly round a circle about itself: channel `i` of
//! `n` stands `i / n` of a full turn on from where the sound's own rotation
//! points. Working out the point on the circle is left to the caller, who
//! knows what a point is.

use vstd::prelude::*;

verus! {

/// The point from which channel `channel_index` of a sound at `sound_point`
/// with `total_channels` channels is heard.
///
/// A sound of one channel is heard from `sound_point` itself, whatever
/// `spread` and `radians` are. For any other sound, `on_circle` is asked for
/// the point: it is given `sound_point`, the channel and the number of
/// channels, the radius `spread` of the circle and the rotation `radians` of
/// the sound.
pub fn channel_point<P, S, R, C>(
    sound_point: P,
    channel_index: usize,
    total_channels: usize,
    spread: S,
    radians: R,
    on_circle: C,
) -> (point: P) where C: FnOnce(P, usize, usize, S, R) -> P
    requires
        channel_index < total_channels,
        total_channels != 1 ==> call_requires(
            on_circle,
            (sound_point, channel_index, total_channels, spread, radians),
        ),
    ensures
        total_channels == 1 ==> point == sound_point,
        total_channels != 1 ==> call_ensures(
            on_circle,
            (sound_point, channel_index, total_channels, spread, radians),
            point,
        ),
{
    if total_channels == 1 {
        sound_point
    } else {
        on_circle(sound_point, channel_index, total_channels, spread, radians)
    }
}

/// The points from which the channels of a sound are heard, one for each of
/// its `total_channels` channels, in the order of the channels. See
/// [`channel_point`].
pub fn channel_points<P: Copy, S: Copy, R: Copy, C>(
    sound_point: P,
    total_channels: usize,
    spread: S,
    radians: R,
    on_circle: C,
) -> (points: Vec<P>) where C: Fn(P, usize, usize, S, R) -> P
    requires
        forall|channel_index: usize|
            channel_index < total_channels && total_channels != 1 ==> call_requires(
                on_circle,
                (sound_point, channel_index, total_channels, spread, radians),
            ),
    ensures
        points@.len() == total_channels,
        total_channels == 1 ==> points@[0] == sound_point,
        total_channels != 1 ==> forall|channel_index: usize|
            channel_index < total_channels ==> call_ensures(
                on_circle,
                (sound_point, channel_index, total_channels, spread, radians),
                #[trigger] points@[channel_index as int],
            ),
{
    let mut points: Vec<P> = Vec::new();
    let mut channel_index: usize = 0;
    while channel_index < total_channels
        invariant
            channel_index <= total_channels,
            points@.len() == channel_index,
            forall|index: usize|
                index < total_channels && total_channels != 1 ==> call_requires(
                    on_circle,
                    (sound_point, index, total_channels, spread, radians),
                ),
            total_channels == 1 && channel_index == 1 ==> points@[0] == sound_point,
            total_channels != 1 ==> forall|index: usize|
                index < channel_index ==> call_ensures(
                    on_circle,
                    (sound_point, index, total_channels, spread, radians),
                    #[trigger] points@[index as int],
                ),
        decreases total_channels - channel_index,
    {
        let point = if total_channels == 1 {
            sound_point
        } else {
            on_circle(sound_point, channel_index, total_channels, spread, radians)
        };
        points.push(point);
        channel_index += 1;
    }
    points
}

} // verus!
