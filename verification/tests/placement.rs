use audio_server::placement::channel_point;
use audio_server::placement::channel_points;

type Point = (f64, f64);

fn on_circle(centre: Point, index: usize, total: usize, spread: f64, radians: f32) -> Point {
    let phase = index as f32 / total as f32;
    let angle = (radians + phase * std::f32::consts::PI * 2.0) as f64;
    (centre.0 + angle.cos() * spread, centre.1 + angle.sin() * spread)
}

fn distance(a: Point, b: Point) -> f64 {
    ((a.0 - b.0).powi(2) + (a.1 - b.1).powi(2)).sqrt()
}

fn angle(centre: Point, point: Point) -> f64 {
    (point.1 - centre.1).atan2(point.0 - centre.0)
}

#[test]
fn a_single_channel_is_heard_from_the_sound_itself() {
    let at = (3.25, -7.5);
    for spread in [0.0, 1.0, 2.5, 1000.0, f64::NAN] {
        for radians in [0.0f32, 1.0, -3.0, 6.5] {
            let point = channel_point(at, 0, 1, spread, radians, |_, _, _, _, _| -> Point {
                panic!("a single channel is not put on the circle")
            });
            assert_eq!(point, at);
        }
    }
    assert_eq!(channel_points(at, 1, 2.0, 0.5f32, on_circle), vec![at]);
}

#[test]
fn other_channels_are_put_on_the_circle() {
    let at = (1.0, 1.0);
    let point = channel_point(at, 1, 4, 2.0, 0.0f32, on_circle);
    assert!(distance(point, (1.0, 3.0)) < 1e-6);
    let asked = channel_point((0u8, 0u8), 2, 3, 'x', "y", |centre, index, total, spread, radians| {
        assert_eq!((centre, index, total, spread, radians), ((0, 0), 2, 3, 'x', "y"));
        (7, 9)
    });
    assert_eq!(asked, (7, 9));
}

#[test]
fn channels_are_spread_evenly_round_the_sound() {
    let at = (-2.0, 0.5);
    for total in 2..=8usize {
        for radians in [0.0f32, 0.7, -2.0] {
            let spread = 1.5;
            let points = channel_points(at, total, spread, radians, on_circle);
            assert_eq!(points.len(), total);
            let step = std::f64::consts::PI * 2.0 / total as f64;
            for index in 0..total {
                assert_eq!(points[index], channel_point(at, index, total, spread, radians, on_circle));
                assert!((distance(points[index], at) - spread).abs() < 1e-5);
                let next = points[(index + 1) % total];
                let turned = (angle(at, next) - angle(at, points[index])).rem_euclid(std::f64::consts::PI * 2.0);
                assert!((turned - step).abs() < 1e-4);
            }
        }
    }
}

#[test]
fn a_sound_without_channels_has_no_points() {
    assert!(channel_points((0.0, 0.0), 0, 1.0, 0.0f32, on_circle).is_empty());
}
