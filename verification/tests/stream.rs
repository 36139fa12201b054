use livox_mid360::cloud::{Cloud, MAX_POINTS};
use livox_mid360::imu::{Lookup, OrientationHistory, SampleClock};
use livox_mid360::playback::{replay_frames, Due, Frame, Playback, Rows};

use glam::{Quat, Vec3};

/// Viewer-world position of a body-frame point at identity attitude.
fn world(x: f32, y: f32, z: f32) -> [f32; 3] {
    [x, z, -y]
}

#[test]
fn add_expires_points_older_than_window() {
    let mut c = Cloud::new();
    c.add(&[world(0.0, 0.0, 1.0)], 0, 500_000_000);
    c.add(&[world(0.0, 0.0, 2.0)], 1_000_000_000, 500_000_000);
    assert_eq!(c.len(), 1, "the 1 s-old point exceeds the 500 ms window");
    // Identity attitude: stored viewer-world = (x, z, -y).
    assert_eq!(c.points()[0].0, [0.0, 2.0, 0.0]);
}

#[test]
fn positions_drop_timestamps() {
    let mut c = Cloud::new();
    c.add(&[world(0.0, 0.0, 1.0)], 0, u64::MAX);
    assert_eq!(c.positions(), vec![[0.0, 1.0, 0.0]]);
}

#[test]
fn cloud_edges() {
    let mut c: Cloud<u32> = Cloud::new();
    assert!(c.is_empty());
    c.add(&[1, 2], 100, 50);
    c.add(&[3], 150, 50);
    assert_eq!(c.points(), &[(1, 100), (2, 100), (3, 150)], "exactly at the cutoff stays");
    c.add(&[], 151, 50);
    assert_eq!(c.points(), &[(3, 150)]);
    c.add(&[4], 10, 50);
    assert_eq!(c.points(), &[(3, 150)], "an old point expires behind a young one too");
    c.add(&[4], 120, 50);
    c.add(&[5], 180, 50);
    assert_eq!(c.points(), &[(3, 150), (5, 180)], "the order of arrival stays");
    c.clear();
    assert!(c.is_empty());
    c.add(&[6], 20, 50);
    assert_eq!(c.points(), &[(6, 20)], "a cleared cloud begins fresh");
}

#[test]
fn no_point_outlives_the_window_in_any_order() {
    let mut c: Cloud<u32> = Cloud::new();
    c.add(&[1], 100, 10);
    c.add(&[2], 50, 10);
    assert_eq!(c.points(), &[(1, 100)]);
    c.add(&[3], 95, 10);
    c.add(&[4], 90, 10);
    assert_eq!(c.points(), &[(1, 100), (3, 95), (4, 90)]);
    c.add(&[5], 101, 10);
    assert_eq!(c.points(), &[(1, 100), (3, 95), (5, 101)]);
}

#[test]
fn cloud_is_capped() {
    let mut c: Cloud<u32> = Cloud::new();
    let batch: Vec<u32> = (0..MAX_POINTS as u32).collect();
    c.add(&batch, 1, u64::MAX);
    c.add(&[7, 8, 9], 2, u64::MAX);
    assert_eq!(c.len(), MAX_POINTS);
    assert_eq!(c.points()[0], (3, 1));
    assert_eq!(c.points()[MAX_POINTS - 1], (9, 2));
}

fn orientation(h: &OrientationHistory<Quat>, ts: u64) -> Quat {
    match h.at(ts) {
        Lookup::Empty => Quat::IDENTITY,
        Lookup::At(q) => q,
        Lookup::Between { from, to, offset_ns, span_ns } => {
            let s = if span_ns > 0 { offset_ns as f32 / span_ns as f32 } else { 0.0 };
            from.slerp(to, s)
        }
    }
}

#[test]
fn history_interpolates() {
    let mut h = OrientationHistory::new(16);
    let q90 = Quat::from_rotation_z(std::f32::consts::FRAC_PI_2);
    h.push(100, Quat::IDENTITY);
    // 90 deg about Z at t = 1 s + 100 ns.
    h.push(1_000_000_100, q90);

    // Clamping: before the first sample returns the first orientation.
    assert_eq!(orientation(&h, 5), Quat::IDENTITY);
    // Clamping: after the last sample returns the last orientation.
    assert_eq!(orientation(&h, 2_000_000_000), q90);

    // Midpoint interpolation -> ~45 deg about Z (cos = sin = 1/sqrt(2)).
    let half = orientation(&h, 500_000_100);
    let v = half * Vec3::X;
    let r2 = std::f32::consts::FRAC_1_SQRT_2;
    assert!((v.x - r2).abs() < 1e-2 && (v.y - r2).abs() < 1e-2);
}

#[test]
fn history_edges() {
    let mut h: OrientationHistory<char> = OrientationHistory::new(3);
    assert_eq!(h.at(0), Lookup::Empty);
    for (ts, q) in [(10, 'a'), (20, 'b'), (30, 'c'), (40, 'd')] {
        h.push(ts, q);
    }
    assert_eq!(h.at(10), Lookup::At('b'), "the oldest is gone");
    assert_eq!(h.at(40), Lookup::At('d'));
    assert_eq!(
        h.at(30),
        Lookup::Between { from: 'b', to: 'c', offset_ns: 10, span_ns: 10 }
    );
    assert_eq!(
        h.at(33),
        Lookup::Between { from: 'c', to: 'd', offset_ns: 3, span_ns: 10 }
    );
    let mut none: OrientationHistory<char> = OrientationHistory::new(0);
    none.push(1, 'a');
    assert_eq!(none.at(1), Lookup::Empty);
}

#[test]
fn sample_clock_measures_from_the_second_sample_on() {
    let mut clock = SampleClock::new();
    assert_eq!(clock.tick(1000), None);
    assert_eq!(clock.tick(1500), Some(500));
    assert_eq!(clock.tick(1400), Some(0));
    assert_eq!(clock.tick(1401), Some(1));
}

const POINTS: [[f32; 3]; 3] = [[1.0, 2.0, 3.0], [4.0, 5.0, 6.0], [7.0, 8.0, 9.0]];

/// A playback with a couple of point groups and IMU samples.
fn make_playback() -> (Playback, Cloud<[f32; 3]>) {
    // The first two points share a timestamp -> one group.
    let points = vec![0, 0, 1_000_000_000];
    let imu = vec![0, 500_000_000];
    (Playback::new(points, imu), Cloud::new())
}

/// Ticks by seconds and feeds the groups into the cloud, 5 s window.
fn tick(pb: &mut Playback, cloud: &mut Cloud<[f32; 3]>, seconds: f32) -> Due {
    let timestamps = [0u64, 0, 1_000_000_000];
    let due = pb.tick((seconds * 1e9) as u64);
    for rows in &due.groups {
        let group: Vec<[f32; 3]> = POINTS[rows.start..rows.end]
            .iter()
            .map(|p| world(p[0], p[1], p[2]))
            .collect();
        cloud.add(&group, timestamps[rows.start], 5_000_000_000);
    }
    due
}

#[test]
fn playback_ticks_through_all_groups() {
    let (mut pb, mut cloud) = make_playback();
    // One big tick jumps the playhead to the last timestamp.
    let due = tick(&mut pb, &mut cloud, 10.0);
    assert_eq!(due.imu, Rows { start: 0, end: 2 });

    assert_eq!(cloud.len(), 3, "all three loaded points emitted");
    // Identity attitude: stored viewer-world = (body.x, body.z, -body.y).
    assert_eq!(cloud.points()[0].0, [1.0, 3.0, -2.0]);
    assert_eq!(cloud.points()[1].0, [4.0, 6.0, -5.0]);
    assert_eq!(cloud.points()[2].0, [7.0, 9.0, -8.0]);
    assert!(!pb.playing(), "playback should pause at the end");
    assert_eq!(pb.next_point(), 3);
    assert_eq!(pb.next_imu(), 2);
}

#[test]
fn playback_advances_progressively_with_small_ticks() {
    let (mut pb, mut cloud) = make_playback();
    // First group is at t = 0; its points are == playhead so they emit on
    // the very first tick even with dt = 0.
    tick(&mut pb, &mut cloud, 0.0);
    assert_eq!(cloud.len(), 2, "first group only");
    assert!(pb.playing(), "not at the end yet");

    // Advance past the 1 s mark -> remaining group emits and it pauses.
    tick(&mut pb, &mut cloud, 2.0);
    assert_eq!(cloud.len(), 3);
    assert!(!pb.playing());
}

#[test]
fn playback_restart_clears_and_rewinds() {
    let (mut pb, mut cloud) = make_playback();
    tick(&mut pb, &mut cloud, 10.0);
    assert!(!cloud.is_empty());

    pb.restart();
    cloud.clear();
    assert!(cloud.is_empty(), "restart clears cloud");
    assert_eq!(pb.next_point(), 0);
    assert_eq!(pb.next_imu(), 0);
    assert_eq!(pb.playhead_ns(), pb.first_ts());
    assert!(pb.playing());
}

#[test]
fn paused_playback_stands_still() {
    let mut pb = Playback::new(vec![100, 200, 300], vec![400]);
    assert_eq!((pb.elapsed_ns(), pb.total_ns()), (0, 300));
    pb.toggle();
    let due = pb.tick(1_000);
    assert_eq!(due.groups, vec![Rows { start: 0, end: 1 }]);
    assert_eq!(pb.playhead_ns(), 100);
    pb.toggle();
    let due = pb.tick(100);
    assert_eq!(due.groups, vec![Rows { start: 1, end: 2 }]);
    assert_eq!(pb.elapsed_ns(), 100);
    let due = pb.tick(u64::MAX);
    assert_eq!(due.groups, vec![Rows { start: 2, end: 3 }]);
    assert_eq!(due.imu, Rows { start: 0, end: 1 });
    assert_eq!(pb.playhead_ns(), 400);
    assert!(!pb.playing());
}

#[test]
fn two_ticks_hand_out_what_one_does() {
    let points = vec![0, 0, 5, 5, 5, 9, 12];
    let mut one = Playback::new(points.clone(), vec![1, 2, 3]);
    let mut two = Playback::new(points, vec![1, 2, 3]);
    let whole = one.tick(9);
    let mut parts = two.tick(4);
    let rest = two.tick(5);
    parts.groups.extend(rest.groups);
    assert_eq!(parts.groups, whole.groups);
    assert_eq!(rest.imu.end, whole.imu.end);
    assert_eq!(one.playhead_ns(), two.playhead_ns());
}

#[test]
fn empty_playback() {
    let mut pb = Playback::new(vec![], vec![]);
    assert_eq!(pb.tick(5).groups, vec![]);
    assert!(!pb.playing());
    assert_eq!(pb.total_ns(), 0);
}

#[test]
fn replay_frames_follow_the_point_groups() {
    let frames = replay_frames(&[0, 0, 100_000_000], &[0, 50_000_000, 200_000_000]);
    assert_eq!(
        frames,
        vec![
            Frame {
                ts_ns: 0,
                imu: Rows { start: 0, end: 1 },
                points: Rows { start: 0, end: 2 }
            },
            Frame {
                ts_ns: 100_000_000,
                imu: Rows { start: 1, end: 2 },
                points: Rows { start: 2, end: 3 }
            },
        ],
        "two timestamp groups -> two frames"
    );
    assert_eq!(replay_frames(&[], &[1]), vec![]);
}

#[test]
fn a_restarted_replay_begins_fresh() {
    let timestamps = vec![0u64, 0, 200, 10_000];
    for window in [0u64, 500, u64::MAX] {
        let show = |pb: &mut Playback, cloud: &mut Cloud<usize>, advance: u64| {
            for rows in pb.tick(advance).groups {
                let group: Vec<usize> = (rows.start..rows.end).collect();
                cloud.add(&group, timestamps[rows.start], window);
            }
        };
        let mut pb = Playback::new(timestamps.clone(), vec![100]);
        let mut cloud = Cloud::new();
        show(&mut pb, &mut cloud, 20_000);
        assert!(!pb.playing());
        pb.restart();
        cloud.clear();

        let mut new_pb = Playback::new(timestamps.clone(), vec![100]);
        let mut new_cloud = Cloud::new();
        for advance in [0, 200, 20_000] {
            show(&mut pb, &mut cloud, advance);
            show(&mut new_pb, &mut new_cloud, advance);
            assert_eq!(cloud.points(), new_cloud.points());
            assert!(!cloud.is_empty());
            assert_eq!(pb.next_imu(), new_pb.next_imu());
        }
    }
}
