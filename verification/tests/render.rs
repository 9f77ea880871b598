use audio_server::analysis::InstallationFrame;
use audio_server::analysis::SpeakerReading;
use audio_server::message::ActiveSoundMessage;
use audio_server::message::AudioMonitorMessage;
use audio_server::message::SoundscapeMessage;
use audio_server::mix::feed_detectors;
use audio_server::mix::listen;
use audio_server::mix::mix_channel;
use audio_server::mix::pad_with_silence;
use audio_server::mix::scale;
use audio_server::mix::silence;
use audio_server::placement::channel_points;
use audio_server::render::DbapTarget;
use audio_server::render::SoundAction;
use audio_server::sound::ActiveSound;
use audio_server::sound::Progress;
use audio_server::sound::Sound;
use audio_server::speaker::Speaker;
use audio_server::Model;
use fxhash::FxHashSet;
use time_calc::Samples;

type Point = (f64, f64);

/// What a test sound plays: a list of samples that runs out, or one sample
/// for ever.
#[derive(Clone, Debug, PartialEq)]
enum Signal {
    Finite(Vec<f32>),
    Constant(f32),
}

#[derive(Clone, Debug, PartialEq)]
struct Audio {
    volume: f32,
    spread: f64,
    radians: f64,
    signal: Signal,
    seek_fails: bool,
    sought: Vec<u64>,
}

#[derive(Clone, Copy, Debug, PartialEq)]
struct Envelope {
    heard: usize,
    peak: f32,
}

#[derive(Clone, Copy, Debug, PartialEq)]
struct Level {
    rms: f32,
    peak: f32,
}

type TestModel = Model<Point, Audio, Envelope, Envelope>;

const BLUR: f64 = 0.01;

fn fresh_envelope() -> Envelope {
    Envelope { heard: 0, peak: 0.0 }
}

fn hear(detector: &Envelope, sample: f32) -> Envelope {
    Envelope { heard: detector.heard + 1, peak: detector.peak.max(sample.abs()) }
}

fn remaining(signal: &Signal, channels: usize) -> Option<Samples> {
    match signal {
        Signal::Finite(samples) => Some(Samples((samples.len() / channels.max(1)) as i64)),
        Signal::Constant(_) => None,
    }
}

fn sound(source_id: u64, channels: usize, signal: Signal) -> Sound<Point, Audio> {
    Sound {
        source_id,
        position: (0.0, 0.0),
        channels,
        muted: false,
        playing: true,
        continuous: false,
        remaining_frames: remaining(&signal, channels),
        audio: Audio {
            volume: 1.0,
            spread: 1.0,
            radians: 0.0,
            signal,
            seek_fails: false,
            sought: Vec::new(),
        },
    }
}

fn active(source_id: u64, channels: usize, signal: Signal) -> ActiveSound<Point, Audio, Envelope> {
    ActiveSound::new(sound(source_id, channels, signal), fresh_envelope)
}

fn speaker(point: Point, channel: usize, installations: &[u64]) -> Speaker<Point> {
    let mut set = FxHashSet::default();
    for installation in installations {
        set.insert(*installation);
    }
    Speaker { point, channel, installations: set }
}

fn add_speaker(model: &mut TestModel, id: u64, point: Point, channel: usize, installations: &[u64]) {
    model.insert_speaker(id, speaker(point, channel, installations), || {
        (fresh_envelope(), fresh_envelope())
    });
}

/// Takes up to `samples` samples from the signal of `live`.
fn pull(live: &mut ActiveSound<Point, Audio, Envelope>, samples: usize) -> Vec<f32> {
    let channels = live.sound.channels;
    let pulled = match &mut live.sound.audio.signal {
        Signal::Finite(left) => {
            let n = samples.min(left.len());
            left.drain(..n).collect()
        }
        Signal::Constant(sample) => vec![*sample; samples],
    };
    live.sound.remaining_frames = remaining(&live.sound.audio.signal, channels);
    pulled
}

fn on_circle(centre: Point, index: usize, total: usize, spread: f64, radians: f64) -> Point {
    let angle = radians + index as f64 / total as f64 * std::f64::consts::PI * 2.0;
    (centre.0 + angle.cos() * spread, centre.1 + angle.sin() * spread)
}

/// Gains that fall off as one over the blurred distance, scaled so that
/// their squares add up to one.
fn dbap_gains(model: &TestModel, targets: &[DbapTarget], point: Point) -> Vec<f32> {
    let distances: Vec<f64> = targets
        .iter()
        .map(|target| {
            let at = model.speaker(target.speaker).unwrap().speaker.point;
            ((at.0 - point.0).powi(2) + (at.1 - point.1).powi(2) + BLUR * BLUR).sqrt()
        })
        .collect();
    let k = 1.0 / distances.iter().map(|d| 1.0 / (d * d)).sum::<f64>().sqrt();
    distances.iter().map(|d| (k / d) as f32).collect()
}

struct Rendered {
    buffer: Vec<f32>,
    peak: f32,
    frames: Vec<InstallationFrame<Level>>,
}

/// Fills one buffer the way the render thread does.
fn render(model: &mut TestModel, frames: usize, n_channels: usize, master_volume: f32) -> Rendered {
    let mut buffer = vec![0.75; frames * n_channels];
    silence(&mut buffer, 0.0);
    for id in model.sound_ids() {
        match model.begin_sound(id, frames) {
            None | Some(SoundAction::Skip) => continue,
            Some(SoundAction::Discard { samples }) => {
                let mut yielded = 0;
                model.update_active_sound(id, |mut live| {
                    yielded = pull(&mut live, samples).len();
                    live
                });
                model.finish_sound(id, frames, yielded);
            }
            Some(SoundAction::Mix { samples, seek }) => {
                let mut unmixed = Vec::new();
                let mut failed = false;
                model.update_active_sound(id, |mut live| {
                    if let Some(frame) = seek {
                        if live.sound.audio.seek_fails {
                            failed = true;
                            return live;
                        }
                        live.sound.audio.sought.push(frame);
                    }
                    unmixed = pull(&mut live, samples);
                    feed_detectors(&mut live.channel_detectors, &unmixed, hear);
                    live
                });
                if failed {
                    continue;
                }
                let yielded = unmixed.len();
                pad_with_silence(&mut unmixed, samples, 0.0);
                model.finish_sound(id, frames, yielded);
                let targets = model.dbap_targets(n_channels);
                let live = model.sound(id).unwrap();
                let channels = live.sound.channels;
                let volume = live.sound.audio.volume;
                let points = channel_points(
                    live.sound.position,
                    channels,
                    live.sound.audio.spread,
                    live.sound.audio.radians,
                    on_circle,
                );
                for (channel, point) in points.iter().enumerate() {
                    let gains = dbap_gains(model, &targets, *point);
                    mix_channel(
                        &mut buffer,
                        n_channels,
                        &unmixed,
                        channels,
                        channel,
                        &targets,
                        &gains,
                        |before, sample, gain| before + sample * gain * volume,
                    );
                }
            }
        }
    }
    let mut readings = Vec::new();
    for id in model.monitored_speakers(n_channels) {
        let mut sum_squares = 0.0;
        model.update_active_speaker(id, |live| {
            let channel = live.speaker.channel;
            for frame in buffer.chunks(n_channels) {
                sum_squares += frame[channel] * frame[channel];
            }
            listen(live, &buffer, n_channels, channel, |mut live, sample| {
                live.env_detector = hear(&live.env_detector, sample);
                live.fft_detector = hear(&live.fft_detector, sample);
                live
            })
        });
        let peak = model.speaker(id).unwrap().env_detector.peak;
        let rms = (sum_squares / frames.max(1) as f32).sqrt();
        readings.push(SpeakerReading { speaker: id, level: Level { rms, peak } });
    }
    let installation_frames = model.installation_frames(&readings, n_channels);
    model.evict_exhausted();
    scale(&mut buffer, |sample| sample * master_volume);
    let peak = buffer.iter().fold(0.0, |peak: f32, sample| sample.max(peak));
    model.advance(frames);
    Rendered { buffer, peak, frames: installation_frames }
}

fn ends_of(messages: &[AudioMonitorMessage<Point, Audio, Envelope>], id: u64) -> usize {
    messages
        .iter()
        .filter(|message| {
            matches!(message, AudioMonitorMessage::ActiveSound(ended, ActiveSoundMessage::End { .. }) if *ended == id)
        })
        .count()
}

#[test]
fn begin_sound_skips_a_paused_sound_but_reports_it() {
    let mut model = TestModel::new();
    let mut live = active(11, 2, Signal::Finite(vec![0.5; 200]));
    live.sound.playing = false;
    live.sound.muted = true;
    model.insert_sound(3, live);
    model.take_monitor_messages();
    assert_eq!(model.begin_sound(3, 64), Some(SoundAction::Skip));
    assert_eq!(
        model.take_monitor_messages(),
        vec![AudioMonitorMessage::ActiveSound(
            3,
            ActiveSoundMessage::Update {
                source_id: 11,
                position: (0.0, 0.0),
                channels: 2,
                normalised_progress: Some(Progress { current_frame: 0, total_frames: 100 }),
            }
        )]
    );
}

#[test]
fn begin_sound_of_an_unknown_id_does_nothing() {
    let mut model = TestModel::new();
    model.insert_sound(3, active(11, 2, Signal::Constant(0.5)));
    model.take_monitor_messages();
    assert_eq!(model.begin_sound(4, 64), None);
    assert!(model.take_monitor_messages().is_empty());
}

#[test]
fn begin_sound_asks_for_a_sample_per_channel_and_frame() {
    let mut model = TestModel::new();
    model.insert_sound(3, active(11, 3, Signal::Constant(0.5)));
    assert_eq!(model.begin_sound(3, 64), Some(SoundAction::Mix { samples: 192, seek: None }));
    assert_eq!(model.begin_sound(3, 0), Some(SoundAction::Mix { samples: 0, seek: None }));
    model.insert_sound(4, active(11, 0, Signal::Constant(0.5)));
    assert_eq!(model.begin_sound(4, 64), Some(SoundAction::Mix { samples: 0, seek: None }));
}

#[test]
fn begin_sound_discards_a_muted_sound() {
    let mut model = TestModel::new();
    let mut live = active(11, 2, Signal::Constant(0.5));
    live.sound.muted = true;
    live.sound.continuous = true;
    model.insert_sound(3, live);
    assert_eq!(model.begin_sound(3, 64), Some(SoundAction::Discard { samples: 128 }));
    model.soloed.insert(11);
    assert_eq!(model.begin_sound(3, 64), Some(SoundAction::Discard { samples: 128 }));
}

#[test]
fn begin_sound_discards_what_a_solo_shuts_out() {
    let mut model = TestModel::new();
    model.insert_sound(3, active(11, 2, Signal::Constant(0.5)));
    model.insert_sound(4, active(12, 1, Signal::Constant(0.5)));
    assert_eq!(model.begin_sound(3, 64), Some(SoundAction::Mix { samples: 128, seek: None }));
    assert_eq!(model.begin_sound(4, 64), Some(SoundAction::Mix { samples: 64, seek: None }));
    model.soloed.insert(12);
    assert_eq!(model.begin_sound(3, 64), Some(SoundAction::Discard { samples: 128 }));
    assert_eq!(model.begin_sound(4, 64), Some(SoundAction::Mix { samples: 64, seek: None }));
    model.soloed.insert(11);
    assert_eq!(model.begin_sound(3, 64), Some(SoundAction::Mix { samples: 128, seek: None }));
    model.soloed.clear();
    assert_eq!(model.begin_sound(3, 64), Some(SoundAction::Mix { samples: 128, seek: None }));
}

#[test]
fn begin_sound_seeks_a_continuous_stream_to_the_frame_count() {
    let mut model = TestModel::new();
    let mut live = active(11, 2, Signal::Constant(0.5));
    live.sound.continuous = true;
    model.insert_sound(3, live);
    assert_eq!(model.begin_sound(3, 64), Some(SoundAction::Mix { samples: 128, seek: Some(0) }));
    model.advance(64);
    model.advance(64);
    assert_eq!(model.begin_sound(3, 64), Some(SoundAction::Mix { samples: 128, seek: Some(128) }));
}

#[test]
fn finish_sound_marks_a_sound_that_gave_less_than_asked() {
    let mut model = TestModel::new();
    model.insert_sound(3, active(11, 2, Signal::Constant(0.5)));
    model.insert_sound(4, active(11, 2, Signal::Constant(0.5)));
    assert!(!model.finish_sound(3, 64, 128));
    assert!(!model.finish_sound(3, 64, 129));
    assert!(!model.finish_sound(3, 0, 0));
    assert!(!model.finish_sound(9, 64, 0));
    model.evict_exhausted();
    assert_eq!(model.sound_count(), 2);
    assert!(model.finish_sound(3, 64, 127));
    assert!(model.finish_sound(3, 64, 0));
    model.take_monitor_messages();
    model.evict_exhausted();
    assert_eq!(model.sound_ids(), vec![4]);
    let messages = model.take_monitor_messages();
    assert_eq!(messages.len(), 1);
    assert_eq!(ends_of(&messages, 3), 1);
    assert_eq!(
        model.take_soundscape_messages(),
        vec![SoundscapeMessage::RemoveActiveSound(3)]
    );
}

#[test]
fn finish_sound_does_not_overflow_on_huge_buffers() {
    let mut model = TestModel::new();
    model.insert_sound(3, active(11, 2, Signal::Constant(0.5)));
    assert!(model.finish_sound(3, usize::MAX, usize::MAX));
    assert!(model.finish_sound(3, usize::MAX / 2 + 1, usize::MAX));
    model.evict_exhausted();
    assert_eq!(model.sound_count(), 0);
}

#[test]
fn evict_exhausted_lets_sounds_go_in_the_order_marked() {
    let mut model = TestModel::new();
    for id in 1..=4u64 {
        model.insert_sound(id, active(10 + id, 1, Signal::Constant(0.5)));
    }
    model.take_monitor_messages();
    assert!(model.finish_sound(3, 8, 0));
    assert!(model.finish_sound(1, 8, 7));
    assert!(!model.finish_sound(2, 8, 8));
    assert!(model.finish_sound(3, 8, 1));
    model.evict_exhausted();
    let mut left = model.sound_ids();
    left.sort();
    assert_eq!(left, vec![2, 4]);
    let messages = model.take_monitor_messages();
    assert_eq!(messages.len(), 2);
    assert!(matches!(
        &messages[0],
        AudioMonitorMessage::ActiveSound(3, ActiveSoundMessage::End { sound }) if sound.sound.source_id == 13
    ));
    assert!(matches!(
        &messages[1],
        AudioMonitorMessage::ActiveSound(1, ActiveSoundMessage::End { sound }) if sound.sound.source_id == 11
    ));
    assert_eq!(
        model.take_soundscape_messages(),
        vec![
            SoundscapeMessage::RemoveActiveSound(3),
            SoundscapeMessage::RemoveActiveSound(1)
        ]
    );
    model.evict_exhausted();
    assert!(model.take_monitor_messages().is_empty());
    assert_eq!(model.sound_count(), 2);
}

#[test]
fn a_sound_removed_by_hand_is_not_ended_twice() {
    let mut model = TestModel::new();
    model.insert_sound(3, active(11, 1, Signal::Constant(0.5)));
    model.take_monitor_messages();
    assert!(model.finish_sound(3, 8, 0));
    assert!(model.remove_sound(3));
    model.evict_exhausted();
    let messages = model.take_monitor_messages();
    assert_eq!(ends_of(&messages, 3), 1);
    assert_eq!(model.take_soundscape_messages().len(), 1);
}

#[test]
fn a_sound_that_displaces_a_dry_one_stays() {
    let mut model = TestModel::new();
    model.insert_sound(3, active(11, 1, Signal::Constant(0.5)));
    assert!(model.finish_sound(3, 8, 0));
    model.insert_sound(3, active(12, 1, Signal::Constant(0.5)));
    model.evict_exhausted();
    assert_eq!(model.sound(3).unwrap().sound.source_id, 12);
}

#[test]
fn advance_adds_the_frames_and_wraps_at_the_end_of_64_bits() {
    let mut model = TestModel::new();
    model.advance(64);
    assert_eq!(model.frame_count, 64);
    model.advance(0);
    assert_eq!(model.frame_count, 64);
    model.advance(1000);
    assert_eq!(model.frame_count, 1064);
    model.frame_count = u64::MAX - 1;
    model.advance(1);
    assert_eq!(model.frame_count, u64::MAX);
    model.advance(3);
    assert_eq!(model.frame_count, 2);
}

#[test]
fn monitored_speakers_are_those_on_channels_of_the_device() {
    let mut model = TestModel::new();
    add_speaker(&mut model, 1, (0.0, 0.0), 0, &[]);
    add_speaker(&mut model, 2, (0.0, 0.0), 1, &[]);
    add_speaker(&mut model, 3, (0.0, 0.0), 2, &[]);
    add_speaker(&mut model, 4, (0.0, 0.0), 7, &[]);
    let mut within = model.monitored_speakers(2);
    within.sort();
    assert_eq!(within, vec![1, 2]);
    let mut within = model.monitored_speakers(8);
    within.sort();
    assert_eq!(within, vec![1, 2, 3, 4]);
    assert!(model.monitored_speakers(0).is_empty());
}

#[test]
fn dbap_targets_leave_out_channels_without_a_speaker() {
    let mut model = TestModel::new();
    add_speaker(&mut model, 10, (0.0, 0.0), 3, &[]);
    add_speaker(&mut model, 20, (0.0, 0.0), 1, &[]);
    add_speaker(&mut model, 30, (0.0, 0.0), 6, &[]);
    assert_eq!(
        model.dbap_targets(4),
        vec![DbapTarget { speaker: 20, channel: 1 }, DbapTarget { speaker: 10, channel: 3 }]
    );
    assert_eq!(
        model.dbap_targets(7),
        vec![
            DbapTarget { speaker: 20, channel: 1 },
            DbapTarget { speaker: 10, channel: 3 },
            DbapTarget { speaker: 30, channel: 6 }
        ]
    );
    assert!(model.dbap_targets(1).is_empty());
    assert!(model.dbap_targets(0).is_empty());
}

#[test]
fn dbap_targets_name_one_speaker_for_a_shared_channel() {
    let mut model = TestModel::new();
    add_speaker(&mut model, 10, (0.0, 0.0), 1, &[]);
    add_speaker(&mut model, 20, (0.0, 0.0), 1, &[]);
    let targets = model.dbap_targets(2);
    assert_eq!(targets.len(), 1);
    assert_eq!(targets[0].channel, 1);
    assert!(targets[0].speaker == 10 || targets[0].speaker == 20);
}

#[test]
fn a_buffer_without_sounds_is_silent() {
    let mut model = TestModel::new();
    add_speaker(&mut model, 1, (-1.0, 0.0), 0, &[5]);
    add_speaker(&mut model, 2, (1.0, 0.0), 1, &[5]);
    model.take_monitor_messages();
    let rendered = render(&mut model, 64, 2, 0.8);
    assert_eq!(rendered.buffer, vec![0.0; 128]);
    assert_eq!(rendered.peak, 0.0);
    assert_eq!(model.frame_count, 64);
    assert!(model.take_monitor_messages().is_empty());
    assert_eq!(rendered.frames.len(), 1);
    assert_eq!(rendered.frames[0].speakers.len(), 2);
}

#[test]
fn a_finite_sound_leaves_once_it_falls_short() {
    let mut model = TestModel::new();
    add_speaker(&mut model, 1, (-1.0, 0.0), 0, &[]);
    add_speaker(&mut model, 2, (1.0, 0.0), 1, &[]);
    model.insert_sound(3, active(11, 1, Signal::Finite(vec![0.5; 128])));
    model.take_monitor_messages();
    let mut ends = 0;
    let mut forgets = 0;
    for buffer in 0..4 {
        render(&mut model, 64, 2, 1.0);
        let messages = model.take_monitor_messages();
        ends += ends_of(&messages, 3);
        forgets += model.take_soundscape_messages().len();
        if buffer < 2 {
            assert_eq!(ends, 0);
            assert_eq!(model.sound_count(), 1);
            assert_eq!(
                model.sound(3).unwrap().sound.remaining_frames,
                Some(Samples(64 - 64 * buffer as i64))
            );
        } else {
            assert_eq!(model.sound_count(), 0);
        }
    }
    assert_eq!(ends, 1);
    assert_eq!(forgets, 1);
    assert_eq!(model.frame_count, 256);
}

#[test]
fn a_sound_that_ends_inside_a_buffer_is_padded_with_silence() {
    let mut model = TestModel::new();
    add_speaker(&mut model, 1, (0.0, 0.0), 0, &[]);
    model.insert_sound(3, active(11, 1, Signal::Finite(vec![0.5; 3])));
    model.take_monitor_messages();
    let rendered = render(&mut model, 8, 1, 1.0);
    for frame in 0..3 {
        assert!((rendered.buffer[frame] - 0.5).abs() < 1e-6);
    }
    for frame in 3..8 {
        assert_eq!(rendered.buffer[frame], 0.0);
    }
    assert_eq!(model.sound_count(), 0);
    let messages = model.take_monitor_messages();
    assert_eq!(ends_of(&messages, 3), 1);
    match &messages[messages.len() - 1] {
        AudioMonitorMessage::ActiveSound(3, ActiveSoundMessage::End { sound }) => {
            assert_eq!(sound.channel_detectors, vec![Envelope { heard: 3, peak: 0.5 }]);
        }
        other => panic!("the last message is the end of the sound, not {:?}", other),
    }
}

#[test]
fn a_muted_sound_is_not_heard_but_keeps_time() {
    let mut model = TestModel::new();
    add_speaker(&mut model, 1, (-1.0, 0.0), 0, &[]);
    add_speaker(&mut model, 2, (1.0, 0.0), 1, &[]);
    let mut live = active(11, 2, Signal::Finite(vec![0.5; 400]));
    live.sound.muted = true;
    model.insert_sound(3, live);
    let rendered = render(&mut model, 64, 2, 1.0);
    assert_eq!(rendered.buffer, vec![0.0; 128]);
    let live = model.sound(3).unwrap();
    assert_eq!(live.sound.remaining_frames, Some(Samples(136)));
    assert_eq!(live.channel_detectors, vec![fresh_envelope(); 2]);
    model.update_sound(3, |mut sound| {
        sound.muted = false;
        sound
    });
    let rendered = render(&mut model, 64, 2, 1.0);
    assert!(rendered.buffer.iter().all(|sample| *sample > 0.0));
    assert_eq!(model.sound(3).unwrap().sound.remaining_frames, Some(Samples(72)));
}

#[test]
fn a_solo_elsewhere_silences_a_sound_but_it_keeps_time() {
    let mut model = TestModel::new();
    add_speaker(&mut model, 1, (-1.0, 0.0), 0, &[]);
    model.insert_sound(3, active(11, 1, Signal::Finite(vec![0.5; 200])));
    model.insert_sound(4, active(12, 1, Signal::Finite(vec![0.0; 200])));
    model.soloed.insert(12);
    let rendered = render(&mut model, 64, 1, 1.0);
    assert_eq!(rendered.buffer, vec![0.0; 64]);
    assert_eq!(model.sound(3).unwrap().sound.remaining_frames, Some(Samples(136)));
    assert_eq!(model.sound(4).unwrap().sound.remaining_frames, Some(Samples(136)));
    assert_eq!(model.sound(3).unwrap().channel_detectors[0].heard, 0);
    assert_eq!(model.sound(4).unwrap().channel_detectors[0].heard, 64);
    model.soloed.clear();
    let rendered = render(&mut model, 64, 1, 1.0);
    assert!(rendered.buffer.iter().all(|sample| (*sample - 0.5).abs() < 1e-3));
}

#[test]
fn a_muted_sound_that_runs_dry_leaves_too() {
    let mut model = TestModel::new();
    let mut live = active(11, 1, Signal::Finite(vec![0.5; 10]));
    live.sound.muted = true;
    model.insert_sound(3, live);
    model.take_monitor_messages();
    render(&mut model, 64, 1, 1.0);
    assert_eq!(model.sound_count(), 0);
    assert_eq!(ends_of(&model.take_monitor_messages(), 3), 1);
}

#[test]
fn a_paused_sound_is_left_alone() {
    let mut model = TestModel::new();
    add_speaker(&mut model, 1, (-1.0, 0.0), 0, &[]);
    let mut live = active(11, 1, Signal::Finite(vec![0.5; 10]));
    live.sound.playing = false;
    model.insert_sound(3, live);
    let rendered = render(&mut model, 64, 1, 1.0);
    assert_eq!(rendered.buffer, vec![0.0; 64]);
    let live = model.sound(3).unwrap();
    assert_eq!(live.sound.remaining_frames, Some(Samples(10)));
    assert_eq!(live.channel_detectors[0].heard, 0);
}

#[test]
fn a_failed_seek_skips_the_sound_for_one_buffer() {
    let mut model = TestModel::new();
    add_speaker(&mut model, 1, (0.0, 0.0), 0, &[]);
    let mut live = active(11, 1, Signal::Finite(vec![0.5; 100]));
    live.sound.continuous = true;
    live.sound.audio.seek_fails = true;
    model.insert_sound(3, live);
    let rendered = render(&mut model, 64, 1, 1.0);
    assert_eq!(rendered.buffer, vec![0.0; 64]);
    assert_eq!(model.sound_count(), 1);
    assert_eq!(model.sound(3).unwrap().sound.remaining_frames, Some(Samples(100)));
    model.update_sound(3, |mut sound| {
        sound.audio.seek_fails = false;
        sound
    });
    let rendered = render(&mut model, 64, 1, 1.0);
    assert!(rendered.buffer.iter().all(|sample| *sample > 0.0));
    assert_eq!(model.sound(3).unwrap().sound.audio.sought, vec![64]);
}

#[test]
fn the_master_volume_scales_every_sample() {
    let mut model = TestModel::new();
    add_speaker(&mut model, 1, (0.0, 0.0), 0, &[]);
    model.insert_sound(3, active(11, 1, Signal::Constant(0.5)));
    let loud = render(&mut model, 16, 1, 1.0);
    let soft = render(&mut model, 16, 1, 0.25);
    for frame in 0..16 {
        assert!((loud.buffer[frame] * 0.25 - soft.buffer[frame]).abs() < 1e-6);
    }
    assert!((loud.peak * 0.25 - soft.peak).abs() < 1e-6);
    assert!(loud.peak > 0.0);
}

#[test]
fn two_channels_pan_evenly_when_both_are_as_far_from_both_speakers() {
    let mut model = TestModel::new();
    add_speaker(&mut model, 1, (-1.0, 0.0), 0, &[]);
    add_speaker(&mut model, 2, (1.0, 0.0), 1, &[]);
    let mut live = active(11, 2, Signal::Constant(0.5));
    live.sound.audio.radians = std::f64::consts::FRAC_PI_2;
    model.insert_sound(3, live);
    let rendered = render(&mut model, 32, 2, 1.0);
    let gain = std::f32::consts::FRAC_1_SQRT_2;
    for frame in rendered.buffer.chunks(2) {
        assert!((frame[0] - frame[1]).abs() < 1e-6);
        assert!((frame[0] - 2.0 * 0.5 * gain).abs() < 1e-5);
    }
}

#[test]
fn a_channel_pans_towards_the_nearer_speaker() {
    let mut model = TestModel::new();
    add_speaker(&mut model, 1, (-1.0, 0.0), 0, &[]);
    add_speaker(&mut model, 2, (1.0, 0.0), 1, &[]);
    let only_first_channel: Vec<f32> = (0..64).map(|i| if i % 2 == 0 { 0.5 } else { 0.0 }).collect();
    model.insert_sound(3, active(11, 2, Signal::Finite(only_first_channel)));
    let rendered = render(&mut model, 32, 2, 1.0);
    let near = BLUR;
    let far = (4.0 + BLUR * BLUR).sqrt();
    let k = 1.0 / (1.0 / (near * near) + 1.0 / (far * far)).sqrt();
    for frame in rendered.buffer.chunks(2) {
        assert!(frame[1] > frame[0]);
        assert!((frame[1] - 0.5 * (k / near) as f32).abs() < 1e-5);
        assert!((frame[0] - 0.5 * (k / far) as f32).abs() < 1e-5);
    }
}

#[test]
fn leaving_a_speaker_out_changes_the_gains_of_the_others() {
    let mut model = TestModel::new();
    add_speaker(&mut model, 1, (-1.0, 0.0), 0, &[]);
    add_speaker(&mut model, 2, (1.0, 0.0), 1, &[]);
    let mut live = active(11, 1, Signal::Constant(0.5));
    live.sound.position = (0.0, 1.0);
    model.insert_sound(3, live);
    let both = render(&mut model, 4, 2, 1.0);
    model.remove_speaker(2);
    let one = render(&mut model, 4, 2, 1.0);
    for frame in both.buffer.chunks(2) {
        assert!((frame[0] - 0.5 * std::f32::consts::FRAC_1_SQRT_2).abs() < 1e-5);
        assert!((frame[1] - frame[0]).abs() < 1e-6);
    }
    for frame in one.buffer.chunks(2) {
        assert!((frame[0] - 0.5).abs() < 1e-5);
        assert_eq!(frame[1], 0.0);
    }
}

#[test]
fn a_lone_speaker_on_a_later_channel_is_fed_on_its_own_channel() {
    let mut model = TestModel::new();
    add_speaker(&mut model, 2, (1.0, 0.0), 1, &[]);
    model.insert_sound(3, active(11, 1, Signal::Constant(0.5)));
    let rendered = render(&mut model, 4, 2, 1.0);
    for frame in rendered.buffer.chunks(2) {
        assert_eq!(frame[0], 0.0);
        assert!((frame[1] - 0.5).abs() < 1e-5);
    }
}

#[test]
fn speakers_hear_the_mix_before_the_master_volume() {
    let mut model = TestModel::new();
    add_speaker(&mut model, 1, (0.0, 0.0), 0, &[5]);
    model.insert_sound(3, active(11, 1, Signal::Constant(0.5)));
    let rendered = render(&mut model, 8, 1, 0.1);
    let heard = model.speaker(1).unwrap();
    assert_eq!(heard.env_detector.heard, 8);
    assert!((heard.env_detector.peak - 0.5).abs() < 1e-5);
    assert!((rendered.peak - 0.05).abs() < 1e-5);
    assert_eq!(rendered.frames.len(), 1);
    assert_eq!(rendered.frames[0].installation, 5);
    assert!((rendered.frames[0].speakers[0].level.rms - 0.5).abs() < 1e-5);
}
