use livox_mid360::crc::crc32;
use livox_mid360::diagnose::diagnose_packet;
use livox_mid360::error::LidarError;
use livox_mid360::packet::{DataFrameHeader, DataPacket, DataPayload, DATA_HEADER_SIZE};
use livox_mid360::points::{
    Cartesian16Point, Cartesian32Point, ImuSample, Point, SphericalPoint, Tag,
};
use livox_mid360::protocol::{DataType, TimestampType};

fn imu_sample() -> ImuSample {
    ImuSample {
        gyro_x: 0.1f32.to_bits(),
        gyro_y: 0.2f32.to_bits(),
        gyro_z: 0.3f32.to_bits(),
        acc_x: 0.4f32.to_bits(),
        acc_y: 0.5f32.to_bits(),
        acc_z: 0.6f32.to_bits(),
    }
}

fn header(data_type: DataType, dot_num: u16) -> DataFrameHeader {
    DataFrameHeader {
        version: 0,
        length: 0,
        time_interval: 10,
        dot_num,
        udp_cnt: 0,
        frame_cnt: 0,
        data_type,
        time_type: TimestampType::NoSync,
        timestamp: 12345,
    }
}

fn cartesian32(x_mm: i32, y_mm: i32, z_mm: i32) -> Cartesian32Point {
    Cartesian32Point {
        x_mm,
        y_mm,
        z_mm,
        reflectivity: 128,
        tag: Tag(0),
    }
}

#[test]
fn roundtrip_imu_packet() {
    let sample = imu_sample();
    let header = DataFrameHeader {
        version: 0,
        length: 0, // computed on write
        time_interval: 100,
        dot_num: 1,
        udp_cnt: 0,
        frame_cnt: 0,
        data_type: DataType::Imu,
        time_type: TimestampType::NoSync,
        timestamp: 1_000_000,
    };
    let packet = DataPacket {
        header,
        payload: DataPayload::Imu(sample),
    };

    let mut buf = vec![0u8; 1024];
    DataPacket::build(&header, &packet.payload, &mut buf).unwrap();
    let parsed = DataPacket::parse(&buf[..DATA_HEADER_SIZE + ImuSample::SIZE]).unwrap();
    assert_eq!(parsed.payload, packet.payload);
    assert_eq!(parsed.header.timestamp, header.timestamp);
    assert_eq!(parsed.header.data_type, header.data_type);
    assert_eq!(parsed.header.dot_num, header.dot_num);
}

#[test]
fn roundtrip_cartesian32_packet() {
    let point = Cartesian32Point {
        x_mm: 1234,
        y_mm: -567,
        z_mm: 89,
        reflectivity: 200,
        tag: Tag(0),
    };
    let header = DataFrameHeader {
        version: 0,
        length: 0,
        time_interval: 50,
        dot_num: 1,
        udp_cnt: 7,
        frame_cnt: 3,
        data_type: DataType::PointCloudCartesian32,
        time_type: TimestampType::Ptp,
        timestamp: 2_000_000,
    };
    let payload = DataPayload::Points(vec![Point::Cartesian32(point)]);

    let mut buf = vec![0u8; 1024];
    DataPacket::build(&header, &payload, &mut buf).unwrap();
    let total = DATA_HEADER_SIZE + Cartesian32Point::SIZE;
    let parsed = DataPacket::parse(&buf[..total]).unwrap();
    assert_eq!(parsed.header.udp_cnt, 7);
    assert_eq!(parsed.header.frame_cnt, 3);
    assert_eq!(parsed.payload, payload);
}

#[test]
fn received_point_cloud_datagram() {
    let header = header(DataType::PointCloudCartesian32, 1);
    let payload = DataPayload::Points(vec![Point::Cartesian32(cartesian32(100, 200, 300))]);
    let mut buf = vec![0u8; 1024];
    DataPacket::build(&header, &payload, &mut buf).unwrap();
    let packet = DataPacket::parse(&buf[..50]).unwrap();
    assert_eq!(packet.header.timestamp, 12345);
    assert_eq!(packet.header.dot_num, 1);
    assert_eq!(packet.header.length, 50);
    match packet.payload {
        DataPayload::Points(points) => {
            assert_eq!(points.len(), 1);
            assert_eq!(points[0], Point::Cartesian32(cartesian32(100, 200, 300)));
        }
        _ => panic!("expected points"),
    }
}

#[test]
fn header_bytes_are_exact() {
    let h = DataFrameHeader {
        version: 1,
        length: 999,
        time_interval: 0x0302,
        dot_num: 0x0504,
        udp_cnt: 0x0706,
        frame_cnt: 8,
        data_type: DataType::PointCloudSpherical,
        time_type: TimestampType::Gps,
        timestamp: 0x1122_3344_5566_7788,
    };
    let mut buf = vec![0xEEu8; 40];
    h.write(&mut buf, 3).unwrap();
    let mut expected = vec![1, 39, 0, 2, 3, 4, 5, 6, 7, 8, 3, 2];
    expected.extend_from_slice(&[0; 16]);
    expected.extend_from_slice(&[0x88, 0x77, 0x66, 0x55, 0x44, 0x33, 0x22, 0x11]);
    expected.extend_from_slice(&[0xEE; 4]);
    assert_eq!(buf, expected);
    h.fill_crc(&mut buf, 3).unwrap();
    assert_eq!(buf[24..28], crc32(&buf[28..39]).to_le_bytes());
    assert_eq!(h.write(&mut buf, 5), Err(LidarError::BufferTooSmall));
    assert_eq!(h.fill_crc(&mut buf, 5), Err(LidarError::BufferTooSmall));
}

fn spherical_frame() -> Vec<u8> {
    let point = SphericalPoint {
        depth_mm: 4_000_000_000,
        theta_0_01_deg: 9000,
        phi_0_01_deg: 18000,
        reflectivity: 1,
        tag: Tag(2),
    };
    let packet = DataPacket::from_points(
        header(DataType::PointCloudSpherical, 0),
        vec![Point::Spherical(point), Point::Spherical(point)],
    );
    assert_eq!(packet.header.dot_num, 2);
    packet.to_bytes().unwrap()
}

#[test]
fn frames_of_every_format_survive() {
    let p16 = Cartesian16Point {
        x_10mm: -1,
        y_10mm: i16::MIN,
        z_10mm: i16::MAX,
        reflectivity: 9,
        tag: Tag(0xFF),
    };
    let packets = vec![
        DataPacket::from_points(
            header(DataType::PointCloudCartesian32, 0),
            vec![Point::Cartesian32(cartesian32(i32::MIN, -1, i32::MAX))],
        ),
        DataPacket::from_points(
            header(DataType::PointCloudCartesian16, 0),
            vec![Point::Cartesian16(p16), Point::Cartesian16(p16)],
        ),
        DataPacket::from_points(header(DataType::PointCloudSpherical, 0), vec![]),
        DataPacket::from_imu(header(DataType::PointCloudSpherical, 0), imu_sample()),
    ];
    for packet in packets {
        let bytes = packet.to_bytes().unwrap();
        let mut parsed = DataPacket::parse(&bytes).unwrap();
        assert_eq!(parsed.header.length as usize, bytes.len());
        parsed.header.length = 0;
        assert_eq!(parsed, packet);
    }
}

#[test]
fn points_of_another_format_may_not_fit() {
    let packet = DataPacket::from_points(
        header(DataType::PointCloudCartesian16, 0),
        vec![Point::Cartesian32(cartesian32(1, 2, 3))],
    );
    assert_eq!(packet.to_bytes(), Err(LidarError::BufferTooSmall));
    let mut short = vec![0u8; 40];
    assert_eq!(
        DataPacket::build(&packet.header, &packet.payload, &mut short),
        Err(LidarError::BufferTooSmall)
    );
    assert_eq!(short, vec![0u8; 40]);
}

#[test]
fn header_errors() {
    let good = spherical_frame();
    assert_eq!(good.len(), 56);
    assert_eq!(
        DataPacket::parse(&good[..35]),
        Err(LidarError::PacketTooShort { need: 36, got: 35 })
    );
    assert_eq!(
        DataPacket::parse(&good[..55]),
        Err(LidarError::PacketTooShort { need: 56, got: 55 })
    );
    let mut bad = good.clone();
    bad[10] = 4;
    assert_eq!(DataPacket::parse(&bad), Err(LidarError::InvalidDataType(4)));
    let mut bad = good.clone();
    bad[5] = 3;
    assert_eq!(
        DataPacket::parse(&bad),
        Err(LidarError::ParameterParse(
            "payload length mismatch: header says 20, expected 30".to_string()
        ))
    );
    let mut bad = good.clone();
    bad[11] = 3;
    assert_eq!(DataPacket::parse(&bad), Err(LidarError::InvalidTimestampType(3)));
    let mut bad = good.clone();
    bad[40] ^= 1;
    assert_eq!(DataPacket::parse(&bad), Err(LidarError::CrcMismatch));
    let mut tiny = good.clone();
    tiny[1] = 35;
    assert_eq!(
        DataPacket::parse(&tiny),
        Err(LidarError::ParameterParse(format!(
            "payload length mismatch: header says {}, expected 20",
            usize::MAX
        )))
    );
}

#[test]
fn zero_checksum_means_none() {
    let mut frame = spherical_frame();
    frame[24..28].copy_from_slice(&[0; 4]);
    frame[40] ^= 1;
    assert!(DataPacket::parse(&frame).is_ok());
}

#[test]
fn every_damaged_payload_byte_is_noticed() {
    let good = spherical_frame();
    for i in 28..good.len() {
        let mut bad = good.clone();
        bad[i] = bad[i].wrapping_add(1);
        assert_eq!(DataPacket::parse(&bad), Err(LidarError::CrcMismatch), "byte {i}");
    }
}

#[test]
fn tags_and_sample_errors() {
    let tag = Tag(0b0010_0110);
    assert_eq!(tag.raw(), 0x26);
    assert_eq!(tag.detection_confidence(), 2);
    assert_eq!(tag.particle_confidence(), 1);
    assert_eq!(tag.adhesion_confidence(), 2);
    assert!(!tag.is_high_confidence());
    assert!(Tag(0b1100_0000).is_high_confidence());
    let p = Point::parse(DataType::PointCloudCartesian16, &[0xFF, 0xFF, 1, 0, 0, 0x80, 7, 5]).unwrap();
    assert_eq!(
        p,
        Point::Cartesian16(Cartesian16Point {
            x_10mm: -1,
            y_10mm: 1,
            z_10mm: -32768,
            reflectivity: 7,
            tag: Tag(5),
        })
    );
    assert_eq!(p.reflectivity(), 7);
    assert_eq!(p.tag(), Tag(5));
    assert_eq!(
        Point::parse(DataType::Imu, &[0; 30]),
        Err(LidarError::InvalidDataType(0))
    );
    assert_eq!(
        Point::parse(DataType::PointCloudCartesian32, &[0; 13]),
        Err(LidarError::PacketTooShort { need: 14, got: 13 })
    );
    assert_eq!(
        SphericalPoint::parse(&[0; 9]),
        Err(LidarError::PacketTooShort { need: 10, got: 9 })
    );
    assert_eq!(
        ImuSample::parse(&[0; 23]),
        Err(LidarError::PacketTooShort { need: 24, got: 23 })
    );
    let mut buf = [0xEEu8; 16];
    cartesian32(-2, 1, 0).write(&mut buf).unwrap();
    assert_eq!(
        buf,
        [0xFE, 0xFF, 0xFF, 0xFF, 1, 0, 0, 0, 0, 0, 0, 0, 128, 0, 0xEE, 0xEE]
    );
    assert_eq!(
        cartesian32(0, 0, 0).write(&mut buf[..13]),
        Err(LidarError::BufferTooSmall)
    );
    assert_eq!(imu_sample().write(&mut buf), Err(LidarError::BufferTooSmall));
}

#[test]
fn dump_of_a_short_buffer() {
    assert_eq!(diagnose_packet(&[0; 7]), vec!["buffer too short: 7 bytes"]);
}

#[test]
fn dump_shows_the_matching_range() {
    let frame = spherical_frame();
    let lines = diagnose_packet(&frame);
    let stored = u32::from_le_bytes([frame[24], frame[25], frame[26], frame[27]]);
    assert_eq!(lines.len(), 7);
    assert_eq!(
        lines[0],
        "recv_len=56 declared_length=56 data_type=3 dot_num=2 udp_cnt=0 frame_cnt=0 time_type=0 ts=12345"
    );
    assert_eq!(lines[1], format!("stored crc32 = 0x{stored:08X}"));
    let name = "[28..length] timestamp+data";
    assert_eq!(lines[2], format!("crc {name:32} = 0x{stored:08X} <-- MATCH"));
    let name = "[36..length] data only";
    assert_eq!(lines[3], format!("crc {name:32} = 0x{:08X} ", crc32(&frame[36..])));
    let mut combined = frame[..24].to_vec();
    combined.extend_from_slice(&frame[28..]);
    assert_eq!(
        lines[4],
        format!("crc [0..24]+[28..length] header+ts+data = 0x{:08X} ", crc32(&combined))
    );
    assert_eq!(
        lines[5],
        format!("crc [0..length] whole incl crc field   = 0x{:08X} ", crc32(&frame))
    );
    let hex: Vec<String> = frame[..48].iter().map(|b| format!("{b:02X}")).collect();
    assert_eq!(lines[6], format!("first 48 bytes: {}", hex.join(" ")));
}

#[test]
fn dump_of_a_frame_that_declares_too_little() {
    for declared in [0u8, 10, 30, 35] {
        let mut frame = [1u8; 40];
        frame[1] = declared;
        frame[2] = 0;
        let lines = diagnose_packet(&frame);
        let end = declared as usize;
        let tail: &[u8] = if end > 28 { &frame[28..end] } else { &[] };
        let name = "[28..length] timestamp+data";
        assert_eq!(lines.len(), 7);
        assert_eq!(lines[2], format!("crc {name:32} = 0x{:08X} ", crc32(tail)));
        let name = "[36..length] data only";
        assert_eq!(lines[3], format!("crc {name:32} = 0x{:08X} ", crc32(&[])));
        let mut combined = frame[..24].to_vec();
        combined.extend_from_slice(tail);
        assert_eq!(
            lines[4],
            format!("crc [0..24]+[28..length] header+ts+data = 0x{:08X} ", crc32(&combined))
        );
        assert_eq!(
            lines[5],
            format!("crc [0..length] whole incl crc field   = 0x{:08X} ", crc32(&frame[..end]))
        );
    }
}

#[test]
fn samples_are_equal_where_their_numbers_are() {
    let with = |x: f32| ImuSample { gyro_y: x.to_bits(), ..imu_sample() };
    let values = [0.0, -0.0, 1.5, -1.5, f32::INFINITY, f32::NEG_INFINITY, f32::NAN, -f32::NAN];
    for a in values {
        for b in values {
            assert_eq!(with(a) == with(b), a == b, "{a} and {b}");
        }
    }
    assert_eq!(imu_sample(), imu_sample());
    assert_ne!(imu_sample(), ImuSample { acc_z: 0, ..imu_sample() });
    let payload = |x: f32| DataPayload::Imu(with(x));
    assert!(payload(0.0) == payload(-0.0) && payload(f32::NAN) != payload(f32::NAN));
}
