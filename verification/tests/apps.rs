use livox_mid360::cli::{
    bind_error_context, encoder_launch, parse_data_type, reader_command, require_specific_host_ip,
    split_encoding_flags, split_flags, viewer_launch, Launch, ReaderCommand, DEFAULT_ENCODE_ROUNDS,
};
use livox_mid360::encode::FLOATS_PER_SEGMENT;
use livox_mid360::error::LidarError;
use livox_mid360::live::{LiveBuffer, FRAME_POINTS};
use livox_mid360::net::{Ipv4Addr, SocketAddr};
use livox_mid360::packet::{DataFrameHeader, DataPacket, DataPayload};
use livox_mid360::points::{ImuSample, Point, SphericalPoint, Tag};
use livox_mid360::protocol::{DataType, TimestampType};
use livox_mid360::recording::{
    encoding_file_name, record_action, take_imu, take_points, Encoder, FrameCounter, Received,
    RecordAction, RecordEvent, RecordLog, Toggle,
};
use livox_mid360::text::join;
use livox_mid360::viewer::{
    cross_pixels, frame_actions, key_action, line_steps, pack_rgb, KeyAction, HEIGHT, WIDTH,
};

const DEFAULT_WINDOW_MS: f32 = 500.0;

fn str_args(list: &[&str]) -> Vec<String> {
    list.iter().map(|s| s.to_string()).collect()
}

/// Splits an encoder command line and reads its window.
fn split(raw: &[String]) -> Result<(Vec<String>, Option<String>, u8, f32), String> {
    let positive: Vec<bool> = raw
        .iter()
        .map(|s| s.parse::<f32>().is_ok_and(|w| w > 0.0))
        .collect();
    let (args, dir, rounds, window) = split_flags(raw, &positive)?;
    let window_ms = match window {
        Some(text) => text.parse().unwrap(),
        None => DEFAULT_WINDOW_MS,
    };
    Ok((args, dir, rounds, window_ms))
}

#[test]
fn flags_parse_all_options() {
    let raw = str_args(&[
        "enc", "live", "1.1.1.1", "2.2.2.2", "--encode-dir", "/tmp/o", "--rounds", "3",
        "--window", "250",
    ]);
    let (args, dir, rounds, window_ms) = split(&raw).unwrap();
    assert_eq!(args, ["enc", "live", "1.1.1.1", "2.2.2.2"]);
    assert_eq!(dir, Some("/tmp/o".to_string()));
    assert_eq!(rounds, 3);
    assert_eq!(window_ms, 250.0);
}

#[test]
fn flags_default_rounds_and_window() {
    let (args, dir, rounds, window_ms) = split(&str_args(&["enc", "replay", "p.csv"])).unwrap();
    assert_eq!(args, ["enc", "replay", "p.csv"]);
    assert_eq!(dir, None);
    assert_eq!(rounds, DEFAULT_ENCODE_ROUNDS);
    assert_eq!(window_ms, DEFAULT_WINDOW_MS);
}

#[test]
fn flags_reject_bad_values() {
    assert!(split(&str_args(&["enc", "--window", "0"])).is_err());
    assert!(split(&str_args(&["enc", "--window", "abc"])).is_err());
    assert!(split(&str_args(&["enc", "--window"])).is_err());
    assert!(split(&str_args(&["enc", "--rounds", "7"])).is_err());
    assert!(split(&str_args(&["enc", "--encode-dir"])).is_err());
}

#[test]
fn flags_extract_encode_dir_and_rounds() {
    let raw = str_args(&[
        "viewer", "live", "1.1.1.1", "2.2.2.2", "--encode-dir", "/tmp/out", "--rounds", "3",
    ]);
    let (args, dir, rounds) = split_encoding_flags(&raw).unwrap();
    assert_eq!(args, ["viewer", "live", "1.1.1.1", "2.2.2.2"]);
    assert_eq!(dir, Some("/tmp/out".to_string()));
    assert_eq!(rounds, 3);
}

#[test]
fn flags_default_to_no_dir_and_default_rounds() {
    let raw = str_args(&["viewer", "replay", "points.csv"]);
    let (args, dir, rounds) = split_encoding_flags(&raw).unwrap();
    assert_eq!(args, ["viewer", "replay", "points.csv"]);
    assert_eq!(dir, None);
    assert_eq!(rounds, DEFAULT_ENCODE_ROUNDS);
}

#[test]
fn flags_reject_bad_rounds() {
    assert!(split_encoding_flags(&str_args(&["viewer", "--rounds", "9"])).is_err());
    assert!(split_encoding_flags(&str_args(&["viewer", "--rounds"])).is_err());
    assert!(split_encoding_flags(&str_args(&["viewer", "--encode-dir"])).is_err());
}

#[test]
fn flag_messages_and_order() {
    let e = |list: &[&str]| split(&str_args(list)).unwrap_err();
    assert_eq!(e(&["e", "--encode-dir"]), "--encode-dir requires a folder path");
    assert_eq!(e(&["e", "--rounds"]), "--rounds requires a value");
    assert_eq!(e(&["e", "--window"]), "--window requires a value in milliseconds");
    assert_eq!(e(&["e", "--rounds", "x"]), "--rounds must be 1-5, got 'x'");
    assert_eq!(e(&["e", "--rounds", "256"]), "--rounds must be 1-5, got '256'");
    assert_eq!(
        e(&["e", "--window", "-1", "--rounds", "0"]),
        "--window must be a positive number of milliseconds, got '-1'"
    );
    let (args, dir, rounds) = split_encoding_flags(&str_args(&[
        "v", "--window", "3", "--rounds", "+4", "--rounds", "5", "--encode-dir", "--rounds", "a",
    ]))
    .unwrap();
    assert_eq!(args, ["v", "--window", "3", "a"]);
    assert_eq!(dir, Some("--rounds".to_string()));
    assert_eq!(rounds, 5);
}

fn launch(list: &[&str], folder: bool) -> Launch {
    let args = str_args(list);
    let is_ip: Vec<bool> = args
        .iter()
        .map(|s| s.split('.').count() == 4)
        .collect();
    if folder {
        assert_eq!(viewer_launch(&args, &is_ip), encoder_launch(&args, &is_ip, true));
    }
    encoder_launch(&args, &is_ip, folder)
}

#[test]
fn launch_modes() {
    assert_eq!(launch(&["v"], true), Launch::Usage);
    assert_eq!(launch(&["v", "what"], true), Launch::Usage);
    assert_eq!(launch(&["v", "what"], false), Launch::Usage);
    assert_eq!(launch(&["v", "live"], false), Launch::MissingFolder);
    assert_eq!(launch(&["v", "live"], true), Launch::MissingAddresses);
    assert_eq!(launch(&["v", "live", "1.1.1.1"], true), Launch::MissingAddresses);
    assert_eq!(
        launch(&["v", "live", "1.1.1.1", "2.2.2.2"], true),
        Launch::Live { host: 2, lidar: 3 }
    );
    assert_eq!(
        launch(&["v", "1.1.1.1", "2.2.2.2"], true),
        Launch::Live { host: 1, lidar: 2 }
    );
    assert_eq!(launch(&["v", "1.1.1.1", "x"], true), Launch::MissingAddresses);
    assert_eq!(launch(&["v", "replay"], true), Launch::MissingPoints);
    assert_eq!(
        launch(&["v", "replay", "p"], true),
        Launch::Replay { points: 2, imu: None }
    );
    assert_eq!(
        launch(&["v", "replay", "p", "i", "z"], true),
        Launch::Replay { points: 2, imu: Some(3) }
    );
}

#[test]
fn reader_commands() {
    let c = |list: &[&str]| reader_command(&str_args(list));
    assert_eq!(c(&["r"]), ReaderCommand::Usage);
    assert_eq!(c(&["r", "x"]), ReaderCommand::Usage);
    assert_eq!(c(&["r", "discover"]), ReaderCommand::Discover { host: None });
    assert_eq!(c(&["r", "discover", "h"]), ReaderCommand::Discover { host: Some(2) });
    assert_eq!(c(&["r", "stream"]), ReaderCommand::StreamIncomplete { addresses: 0 });
    assert_eq!(c(&["r", "stream", "h"]), ReaderCommand::StreamIncomplete { addresses: 1 });
    assert_eq!(c(&["r", "stream", "h", "l"]), ReaderCommand::Stream { host: 2, lidar: 3 });
    assert_eq!(c(&["r", "record", "h", "l"]), ReaderCommand::RecordIncomplete { addresses: 2 });
    assert_eq!(
        c(&["r", "record", "h", "l", "d"]),
        ReaderCommand::Record { host: 2, lidar: 3, dir: 4 }
    );
}

#[test]
fn advice_texts() {
    assert_eq!(
        bind_error_context("command", Ipv4Addr::new(10, 0, 200, 7)),
        "failed to bind command socket to 10.0.200.7. Make sure this is the IP address of a local \
         network interface, not the LiDAR's IP address."
    );
    assert_eq!(
        require_specific_host_ip("stream", Ipv4Addr::unspecified()),
        Some(
            "stream requires a specific host_ip (0.0.0.0 is not valid here); use the IP of the \
             interface connected to the LiDAR"
                .to_string()
        )
    );
    assert_eq!(require_specific_host_ip("stream", Ipv4Addr::localhost()), None);
}

#[test]
fn data_types_by_name() {
    assert_eq!(parse_data_type("imu"), Ok(DataType::Imu));
    assert_eq!(parse_data_type("cartesian32"), Ok(DataType::PointCloudCartesian32));
    assert_eq!(parse_data_type("point_cloud_cartesian32"), Ok(DataType::PointCloudCartesian32));
    assert_eq!(parse_data_type("cartesian16"), Ok(DataType::PointCloudCartesian16));
    assert_eq!(parse_data_type("point_cloud_cartesian16"), Ok(DataType::PointCloudCartesian16));
    assert_eq!(parse_data_type("spherical"), Ok(DataType::PointCloudSpherical));
    assert_eq!(parse_data_type("point_cloud_spherical"), Ok(DataType::PointCloudSpherical));
    assert_eq!(parse_data_type("Imu"), Err("unknown data_type: Imu".to_string()));
}

#[test]
fn toggle_without_dir_keeps_recording_disabled() {
    let mut encoder = Encoder::new(false, 2);
    assert_eq!(encoder.toggle_recording(), Toggle::Disabled);
    assert!(!encoder.is_recording());
    assert!(!encoder.saving_enabled());
}

#[test]
fn recording_writes_one_file_per_session_one_line_per_frame() {
    let mut encoder = Encoder::new(true, 1);
    let line = join(&vec![0.0f32.to_string(); encoder.values_per_line()]);
    let mut files: Vec<(String, Vec<String>)> = Vec::new();
    // on, two frames, off, one frame that is skipped, on again, one frame, off
    for press in [true, false, false, true, false, true, false, true] {
        if press {
            if let Toggle::Create(index) = encoder.toggle_recording() {
                files.push((encoding_file_name(index), Vec::new()));
                encoder.started();
            }
        } else if encoder.is_recording() {
            files.last_mut().unwrap().1.push(line.clone());
            assert_eq!(encoder.frame_saved(true), None);
        }
    }
    assert!(!encoder.is_recording());

    assert_eq!(files.len(), 2, "no encoding_000003.csv");
    assert_eq!(files[0].0, "encoding_000001.csv");
    assert_eq!(files[0].1.len(), 2, "one line per recorded frame");
    for line in &files[0].1 {
        assert_eq!(line.split(',').count(), FLOATS_PER_SEGMENT * 8);
    }
    assert_eq!(files[1].0, "encoding_000002.csv");
    assert_eq!(files[1].1.len(), 1);
    assert_eq!(files[1].1[0].split(',').count(), FLOATS_PER_SEGMENT * 8);
}

#[test]
fn each_recording_gets_its_own_file() {
    let mut encoder = Encoder::new(true, 1);
    assert_eq!(encoder.values_per_line(), 32);
    assert_eq!(encoder.rounds(), 1);
    assert_eq!(encoder.toggle_recording(), Toggle::Create(1));
    assert!(!encoder.is_recording(), "nothing is open yet");
    assert_eq!(encoder.toggle_recording(), Toggle::Create(1), "a failed file is tried again");
    encoder.started();
    assert_eq!(encoder.frame_saved(true), None);
    assert_eq!(encoder.frame_saved(true), None);
    assert_eq!(encoder.toggle_recording(), Toggle::Close(2));
    assert_eq!(encoder.toggle_recording(), Toggle::Create(2));
    encoder.started();
    assert_eq!(encoder.frame_saved(true), None);
    assert_eq!(encoder.frame_saved(false), Some(1));
    assert!(!encoder.is_recording());
    assert_eq!(encoding_file_name(1), "encoding_000001.csv");
    assert_eq!(encoding_file_name(1_234_567), "encoding_1234567.csv");
}

#[test]
fn frames_are_flushed_every_hundred() {
    let mut counter = FrameCounter::new();
    let flushes: Vec<u64> = (1..=250u64).filter(|_| counter.frame_written()).collect();
    assert_eq!(flushes, vec![100, 200]);
    assert_eq!(counter.frames(), 250);
    assert_eq!(counter.progress(42), "250 frames encoded | cloud 42 points");
}

fn header() -> DataFrameHeader {
    DataFrameHeader {
        version: 0,
        length: 0,
        time_interval: 0,
        dot_num: 1,
        udp_cnt: 0,
        frame_cnt: 0,
        data_type: DataType::PointCloudSpherical,
        time_type: TimestampType::NoSync,
        timestamp: 9,
    }
}

#[test]
fn what_a_recording_loop_does() {
    let header = header();
    let sample = ImuSample { gyro_x: 0, gyro_y: 0, gyro_z: 0, acc_x: 0, acc_y: 0, acc_z: 1 };
    let point = Point::Spherical(SphericalPoint {
        depth_mm: 1,
        theta_0_01_deg: 2,
        phi_0_01_deg: 3,
        reflectivity: 4,
        tag: Tag(5),
    });
    let points = || DataPacket { header, payload: DataPayload::Points(vec![point]) };
    let imu = || DataPacket { header, payload: DataPayload::Imu(sample) };
    let quiet = || LidarError::NoResponse { addr: SocketAddr::v4(Ipv4Addr::localhost(), 1) };
    assert_eq!(record_action(RecordEvent::Interrupted), RecordAction::Stop);
    assert_eq!(record_action(RecordEvent::OutputFailed), RecordAction::Stop);
    assert_eq!(record_action(RecordEvent::FlushDue), RecordAction::Flush);
    assert_eq!(
        record_action(RecordEvent::PointSocket(Ok(points()))),
        RecordAction::WritePoints { header, points: vec![point] }
    );
    assert_eq!(record_action(RecordEvent::PointSocket(Ok(imu()))), RecordAction::Wait);
    assert_eq!(record_action(RecordEvent::PointSocket(Err(quiet()))), RecordAction::Wait);
    assert_eq!(
        record_action(RecordEvent::PointSocket(Err(LidarError::CrcMismatch))),
        RecordAction::ReportPoints(LidarError::CrcMismatch)
    );
    assert_eq!(
        record_action(RecordEvent::ImuSocket(Ok(imu()))),
        RecordAction::WriteImu { header, sample }
    );
    assert_eq!(record_action(RecordEvent::ImuSocket(Ok(points()))), RecordAction::Wait);
    assert_eq!(
        record_action(RecordEvent::ImuSocket(Err(LidarError::CrcMismatch))),
        RecordAction::ReportImu(LidarError::CrcMismatch)
    );
    assert_eq!(take_imu(Err(quiet())), Received::Nothing);
    assert_eq!(take_points(Ok(points())), Received::Points { header, points: vec![point] });

    let mut log = RecordLog::new();
    log.wrote_points(96);
    log.wrote_points(4);
    log.wrote_imu();
    assert_eq!(log.progress(), "recorded: points=100 imu=1");
}

#[test]
fn keys_of_the_viewer() {
    assert_eq!(key_action('B', false), KeyAction::Benchmark);
    assert_eq!(key_action('E', false), KeyAction::ToggleSaving);
    assert_eq!(key_action('C', true), KeyAction::ClearCloud);
    assert_eq!(key_action(' ', true), KeyAction::TogglePlay);
    assert_eq!(key_action('R', true), KeyAction::Restart);
    assert_eq!(key_action('Z', true), KeyAction::Slower);
    assert_eq!(key_action('X', true), KeyAction::Faster);
    assert_eq!(key_action('R', false), KeyAction::Ignore);
    assert_eq!(key_action('Q', true), KeyAction::Ignore);
}

#[test]
fn replay_keys_come_last_in_a_frame() {
    assert_eq!(
        frame_actions(&['R', 'C', 'Q', ' ', 'B'], true),
        vec![
            KeyAction::ClearCloud,
            KeyAction::Benchmark,
            KeyAction::Restart,
            KeyAction::TogglePlay,
        ]
    );
    assert_eq!(frame_actions(&['R', 'E'], false), vec![KeyAction::ToggleSaving]);
    assert!(frame_actions(&[], true).is_empty());
}

#[test]
fn crosses_are_clipped_to_the_window() {
    assert_eq!(cross_pixels(10, 1), vec![1034, 1035, 1033, 2058, 10]);
    assert_eq!(cross_pixels(0, 0), vec![0, 1, 1024]);
    assert_eq!(
        cross_pixels(1023, 767),
        vec![WIDTH * HEIGHT - 1, WIDTH * HEIGHT - 2, WIDTH * HEIGHT - 1 - WIDTH]
    );
    assert_eq!(cross_pixels(-1, 5), vec![5 * WIDTH]);
    assert_eq!(cross_pixels(i32::MAX, i32::MIN), Vec::<usize>::new());
}

#[test]
fn lines_and_colours() {
    assert_eq!(line_steps(0, 0, 0, 0), 1);
    assert_eq!(line_steps(0, 0, -7, 3), 7);
    assert_eq!(line_steps(5, 5, 6, 25), 20);
    assert_eq!(line_steps(i32::MAX, 0, i32::MIN, 0), 1);
    assert_eq!(pack_rgb(255, 0, 0), 0xFFFF_0000);
    assert_eq!(pack_rgb(1, 2, 3), 0xFF01_0203);
}

#[test]
fn live_frames_hold_all_points() {
    let mut buffer = LiveBuffer::new();
    let p = [1.5f32.to_bits(), (-2.0f32).to_bits(), 0.25f32.to_bits()];
    assert_eq!(buffer.add_packet(&vec![p; FRAME_POINTS - 1]), None);
    let frame = buffer.add_packet(&[p, p]).unwrap();
    assert_eq!(frame.len(), (FRAME_POINTS + 1) * 12);
    assert_eq!(frame[0..4], 1.5f32.to_ne_bytes());
    assert_eq!(frame[4..8], (-2.0f32).to_ne_bytes());
    assert_eq!(frame[frame.len() - 4..], 0.25f32.to_ne_bytes());
    assert_eq!(buffer.add_packet(&[p]), None, "a new frame has begun");
}
