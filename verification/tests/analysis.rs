use audio_server::analysis::InstallationFrame;
use audio_server::analysis::SpeakerAnalysis;
use audio_server::analysis::SpeakerReading;
use audio_server::speaker::Speaker;
use audio_server::Model;
use fxhash::FxHashSet;

#[derive(Clone, Copy, Debug, PartialEq)]
struct Level {
    rms: f32,
    peak: f32,
}

type TestModel = Model<(f64, f64), (), (), ()>;

fn add_speaker(model: &mut TestModel, id: u64, channel: usize, installations: &[u64]) {
    let mut set = FxHashSet::default();
    for installation in installations {
        set.insert(*installation);
    }
    model.insert_speaker(id, Speaker { point: (0.0, 0.0), channel, installations: set }, || ((), ()));
}

fn reading(speaker: u64, rms: f32, peak: f32) -> SpeakerReading<Level> {
    SpeakerReading { speaker, level: Level { rms, peak } }
}

fn analysis(index: usize, rms: f32, peak: f32) -> SpeakerAnalysis<Level> {
    SpeakerAnalysis { level: Level { rms, peak }, index }
}

fn frame_of(frames: &[InstallationFrame<Level>], installation: u64) -> &InstallationFrame<Level> {
    let mut found = frames.iter().filter(|frame| frame.installation == installation);
    let frame = found.next().unwrap();
    assert!(found.next().is_none());
    frame
}

fn average_rms(frame: &InstallationFrame<Level>) -> f32 {
    frame.speakers.iter().map(|speaker| speaker.level.rms).sum::<f32>() / frame.speakers.len() as f32
}

#[test]
fn two_speakers_of_one_installation_average_their_rms() {
    let mut model = TestModel::new();
    add_speaker(&mut model, 1, 0, &[5]);
    add_speaker(&mut model, 2, 1, &[5]);
    let frames = model.installation_frames(&vec![reading(1, 0.2, 0.3), reading(2, 0.4, 0.9)], 2);
    assert_eq!(frames.len(), 1);
    assert_eq!(frames[0].installation, 5);
    assert_eq!(frames[0].speakers, vec![analysis(0, 0.2, 0.3), analysis(1, 0.4, 0.9)]);
    assert!((average_rms(&frames[0]) - 0.3).abs() < 1e-6);
}

#[test]
fn speakers_are_ordered_by_channel_whatever_the_order_read() {
    let mut model = TestModel::new();
    add_speaker(&mut model, 1, 4, &[5]);
    add_speaker(&mut model, 2, 0, &[5]);
    add_speaker(&mut model, 3, 2, &[5]);
    let readings = vec![reading(1, 0.4, 0.0), reading(2, 0.0, 0.0), reading(3, 0.2, 0.0)];
    let frames = model.installation_frames(&readings, 8);
    assert_eq!(frames.len(), 1);
    assert_eq!(
        frames[0].speakers,
        vec![analysis(0, 0.0, 0.0), analysis(2, 0.2, 0.0), analysis(4, 0.4, 0.0)]
    );
}

#[test]
fn each_installation_hears_of_its_own_speakers_only() {
    let mut model = TestModel::new();
    add_speaker(&mut model, 1, 0, &[5]);
    add_speaker(&mut model, 2, 1, &[5, 6]);
    add_speaker(&mut model, 3, 2, &[6]);
    add_speaker(&mut model, 4, 3, &[]);
    let readings =
        vec![reading(4, 0.9, 0.9), reading(3, 0.3, 0.3), reading(2, 0.2, 0.2), reading(1, 0.1, 0.1)];
    let frames = model.installation_frames(&readings, 4);
    assert_eq!(frames.len(), 2);
    assert_eq!(frame_of(&frames, 5).speakers, vec![analysis(0, 0.1, 0.1), analysis(1, 0.2, 0.2)]);
    assert_eq!(frame_of(&frames, 6).speakers, vec![analysis(1, 0.2, 0.2), analysis(2, 0.3, 0.3)]);
    assert!((average_rms(frame_of(&frames, 5)) - 0.15).abs() < 1e-6);
    assert!((average_rms(frame_of(&frames, 6)) - 0.25).abs() < 1e-6);
}

#[test]
fn readings_that_do_not_count_are_left_out() {
    let mut model = TestModel::new();
    add_speaker(&mut model, 1, 0, &[5]);
    add_speaker(&mut model, 2, 3, &[5, 7]);
    let readings = vec![reading(2, 0.2, 0.2), reading(9, 0.9, 0.9), reading(1, 0.1, 0.1)];
    let frames = model.installation_frames(&readings, 2);
    assert_eq!(frames.len(), 1);
    assert_eq!(frames[0].installation, 5);
    assert_eq!(frames[0].speakers, vec![analysis(0, 0.1, 0.1)]);
}

#[test]
fn no_readings_make_no_frames() {
    let mut model = TestModel::new();
    add_speaker(&mut model, 1, 0, &[5]);
    assert!(model.installation_frames(&Vec::<SpeakerReading<Level>>::new(), 2).is_empty());
    assert!(model.installation_frames(&vec![reading(1, 0.1, 0.1)], 0).is_empty());
    let empty = TestModel::new();
    assert!(empty.installation_frames(&vec![reading(1, 0.1, 0.1)], 2).is_empty());
}

#[test]
fn speakers_that_share_a_channel_are_both_told() {
    let mut model = TestModel::new();
    add_speaker(&mut model, 1, 1, &[5]);
    add_speaker(&mut model, 2, 1, &[5]);
    add_speaker(&mut model, 3, 0, &[5]);
    let readings = vec![reading(1, 0.1, 0.0), reading(2, 0.2, 0.0), reading(3, 0.3, 0.0)];
    let frames = model.installation_frames(&readings, 2);
    assert_eq!(frames.len(), 1);
    assert_eq!(
        frames[0].speakers,
        vec![analysis(0, 0.3, 0.0), analysis(1, 0.1, 0.0), analysis(1, 0.2, 0.0)]
    );
}
