use livox_mid360::encode::{flatten_tokens, segment_count, FLOATS_PER_SEGMENT};
use livox_mid360::playback::replay_frames;
use livox_mid360::recorder::{
    csv_err, imu_row, number_err, point_row, Row, Table, TableReader, IMU_FILE, IMU_HEADER,
    POINTS_FILE, POINTS_HEADER,
};
use livox_mid360::text::join;
use livox_mid360::{
    Cartesian32Point, DataFrameHeader, DataType, ImuSample, LidarError, Point, Tag, TimestampType,
};

fn header(ts: u64) -> DataFrameHeader {
    DataFrameHeader {
        version: 0,
        length: 0,
        time_interval: 10,
        dot_num: 1,
        udp_cnt: 7,
        frame_cnt: 3,
        data_type: DataType::PointCloudCartesian32,
        time_type: TimestampType::NoSync,
        timestamp: ts,
    }
}

fn metres(mm: i32) -> String {
    (mm as f32 / 1000.0).to_string()
}

fn row_of(header: &DataFrameHeader, p: &Cartesian32Point) -> String {
    let point = Point::Cartesian32(*p);
    point_row(
        header,
        &metres(p.x_mm),
        &metres(p.y_mm),
        &metres(p.z_mm),
        point.reflectivity(),
        point.tag(),
    )
}

fn imu_row_of(header: &DataFrameHeader, s: &ImuSample) -> String {
    let numbers: Vec<String> = [s.gyro_x, s.gyro_y, s.gyro_z, s.acc_x, s.acc_y, s.acc_z]
        .iter()
        .map(|b| f32::from_bits(*b).to_string())
        .collect();
    imu_row(header.timestamp, &numbers)
}

fn load(table: Table, text: &str) -> Result<Vec<Row>, LidarError> {
    let mut reader = TableReader::new(table);
    let mut out = Vec::new();
    for (i, line) in text.lines().enumerate() {
        if let Some(row) = reader.read_line(i + 1, line)? {
            out.push(row);
        }
    }
    Ok(out)
}

fn number(row: &Row, i: usize) -> f32 {
    row.numbers[i].parse().unwrap()
}

#[test]
fn writes_headers_and_rows() {
    // tag = 0b00_01_10: detection=0, particle=1, adhesion=2.
    let point = Cartesian32Point {
        x_mm: 1000,
        y_mm: 2000,
        z_mm: -3000,
        reflectivity: 128,
        tag: Tag(0b0000_0110),
    };
    assert!(POINTS_HEADER.starts_with("timestamp_ns,udp_cnt,frame_cnt,x_m,y_m,z_m"));
    // 1000mm -> 1 m, 2000mm -> 2 m, -3000mm -> -3 m.
    assert_eq!(
        row_of(&header(12345), &point),
        "12345,7,3,1,2,-3,128,6,0,1,2",
        "exact row: ts,udp,frame,x,y,z,reflectivity,tag,det,part,adh"
    );
    let imu = ImuSample {
        gyro_x: 0.1f32.to_bits(),
        gyro_y: 0.2f32.to_bits(),
        gyro_z: 0.3f32.to_bits(),
        acc_x: 0.4f32.to_bits(),
        acc_y: 0.5f32.to_bits(),
        acc_z: 0.6f32.to_bits(),
    };
    assert_eq!(IMU_HEADER, "timestamp_ns,gyro_x,gyro_y,gyro_z,acc_x,acc_y,acc_z");
    assert_eq!(imu_row_of(&header(12345), &imu), "12345,0.1,0.2,0.3,0.4,0.5,0.6");
    assert_eq!((POINTS_FILE, IMU_FILE), ("points.csv", "imu.csv"));
}

#[test]
fn multiple_packets_accumulate_rows() {
    let points = [
        Cartesian32Point { x_mm: 0, y_mm: 0, z_mm: 0, reflectivity: 0, tag: Tag(0) },
        Cartesian32Point { x_mm: 1000, y_mm: 0, z_mm: 0, reflectivity: 1, tag: Tag(0) },
    ];
    let still = ImuSample { gyro_x: 0, gyro_y: 0, gyro_z: 0, acc_x: 0, acc_y: 0, acc_z: 0 };
    let mut points_csv = format!("{POINTS_HEADER}\n");
    let mut imu_csv = format!("{IMU_HEADER}\n");
    for ts in 0..3 {
        for p in &points {
            points_csv += &format!("{}\n", row_of(&header(ts), p));
        }
        imu_csv += &format!("{}\n", imu_row_of(&header(ts), &still));
    }
    assert_eq!(points_csv.lines().count(), 1 + 3 * 2, "header + 3 packets * 2 points");
    assert_eq!(imu_csv.lines().count(), 1 + 3, "header + 3 samples");
    assert_eq!(load(Table::Points, &points_csv).unwrap().len(), 3 * 2);
    assert_eq!(load(Table::Imu, &imu_csv).unwrap().len(), 3);
}

#[test]
fn replay_writes_one_line_per_frame_group() {
    let points = load(
        Table::Points,
        "timestamp_ns,udp_cnt,frame_cnt,x_m,y_m,z_m,reflectivity,tag,a,b,c\n\
         0,0,0,1.0,0.0,0.0,0,0,0,0,0\n\
         0,0,0,2.0,0.0,0.0,0,0,0,0,0\n\
         100000000,1,0,3.0,0.0,0.0,0,0,0,0,0\n",
    )
    .unwrap();
    let ts: Vec<u64> = points.iter().map(|p| p.ts_ns).collect();
    let mut out = String::new();
    for frame in replay_frames(&ts, &[]) {
        let share = (frame.points.end - frame.points.start) as f32;
        let tokens = flatten_tokens(&vec![[share, 0.0, 0.0, 0.0]; segment_count(1)]);
        let texts: Vec<String> = tokens.iter().map(|t| t.to_string()).collect();
        out += &format!("{}\n", join(&texts));
    }
    assert_eq!(out.lines().count(), 2, "two timestamp groups -> two frames");
    for line in out.lines() {
        assert_eq!(line.split(',').count(), FLOATS_PER_SEGMENT * 8);
    }
}

#[test]
fn load_roundtrips_recorded_csvs() {
    let points = [
        Cartesian32Point { x_mm: 1000, y_mm: -2000, z_mm: 3000, reflectivity: 128, tag: Tag(0) },
        Cartesian32Point { x_mm: 0, y_mm: 0, z_mm: 0, reflectivity: 0, tag: Tag(0) },
    ];
    let mut text = format!("{POINTS_HEADER}\n");
    for p in &points {
        text += &row_of(&header(12345), p);
        text += "\n";
    }
    let imu = ImuSample {
        gyro_x: 0.1f32.to_bits(),
        gyro_y: 0.2f32.to_bits(),
        gyro_z: 0.3f32.to_bits(),
        acc_x: 0.4f32.to_bits(),
        acc_y: 0.5f32.to_bits(),
        acc_z: 0.6f32.to_bits(),
    };
    let imu_text = format!("{IMU_HEADER}\n{}\n", imu_row_of(&header(12345), &imu));

    let pts = load(Table::Points, &text).unwrap();
    assert_eq!(pts.len(), 2);
    assert_eq!(pts[0].ts_ns, 12345);
    assert!((number(&pts[0], 0) - 1.0).abs() < 1e-3);
    assert!((number(&pts[0], 1) - (-2.0)).abs() < 1e-3);
    assert!((number(&pts[0], 2) - 3.0).abs() < 1e-3);

    let imu = load(Table::Imu, &imu_text).unwrap();
    assert_eq!(imu.len(), 1);
    assert_eq!(imu[0].ts_ns, 12345);
    assert!((number(&imu[0], 0) - 0.1).abs() < 1e-3);
    assert!((number(&imu[0], 5) - 0.6).abs() < 1e-3);
}

#[test]
fn load_skips_blank_lines_and_handles_header() {
    let pts = load(
        Table::Points,
        "timestamp_ns,udp_cnt,frame_cnt,x_m,y_m,z_m,reflectivity,tag,a,b,c\n\
         \n\
         10,0,0,1.5,2.5,3.5,0,0,0,0,0\n\
         10,0,0,4.0,5.0,6.0,0,0,0,0,0\n",
    )
    .unwrap();
    assert_eq!(pts.len(), 2);
    assert_eq!(pts[0].ts_ns, 10);
    assert!((number(&pts[0], 2) - 3.5).abs() < 1e-3);
    assert_eq!(pts[1].ts_ns, 10);
}

#[test]
fn load_empty_file_returns_empty() {
    let pts = load(
        Table::Points,
        "timestamp_ns,udp_cnt,frame_cnt,x_m,y_m,z_m,reflectivity,tag,a,b,c\n",
    )
    .unwrap();
    assert!(pts.is_empty());
    assert!(load(Table::Imu, "").unwrap().is_empty());
}

fn message(e: LidarError) -> String {
    match e {
        LidarError::ParameterParse(m) => m,
        other => panic!("unexpected {other:?}"),
    }
}

#[test]
fn bad_lines_are_named() {
    let e = load(Table::Points, "1,2,3,4,5\n").unwrap_err();
    assert_eq!(message(e), "csv line 1: expected at least 6 columns");
    let e = load(Table::Imu, "\n 1,2,3,4,5,6\n").unwrap_err();
    assert_eq!(message(e), "csv line 2: expected 7 columns");
    let e = load(Table::Points, "1,2,3,4,5,6\nx,2,3,4,5,6\n").unwrap_err();
    assert_eq!(message(e), "csv line 2: timestamp_ns is not a u64");
    let e = load(Table::Points, "1,2,3,4,5,6\n18446744073709551616,2,3,4,5,6\n").unwrap_err();
    assert_eq!(message(e), "csv line 2: timestamp_ns is not a u64");
    assert_eq!(message(csv_err(12, "odd")), "csv line 12: odd");
    assert_eq!(message(number_err(Table::Points, 3, 1)), "csv line 3: y_m is not a number");
    assert_eq!(message(number_err(Table::Imu, 4, 5)), "csv line 4: acc_z is not a number");
}

#[test]
fn headers_of_any_wording_come_first_only() {
    let rows = load(Table::Points, " \nTime,a,b,c,d,e\n5,a,b,c,d,e\nTimeStamp_NS,1,2,3,4,5\n").unwrap();
    assert_eq!(
        rows,
        vec![Row {
            ts_ns: 5,
            numbers: vec!["c".to_string(), "d".to_string(), "e".to_string()]
        }]
    );
}

#[test]
fn a_first_header_may_be_short() {
    let rows = load(Table::Imu, "time\n7,1,2,3,4,5,6\n").unwrap();
    assert_eq!(rows.len(), 1);
    assert_eq!(rows[0].ts_ns, 7);
    let e = load(Table::Imu, "7,1,2,3,4,5,6\ntime\n").unwrap_err();
    assert_eq!(message(e), "csv line 2: expected 7 columns");
}

#[test]
fn white_space_and_plus_signs_are_accepted() {
    let rows = load(Table::Imu, "\u{3000} +18446744073709551615 ,\t1, 2 ,3,4,5,6 , 7\u{a0}\n").unwrap();
    assert_eq!(rows[0].ts_ns, u64::MAX);
    assert_eq!(rows[0].numbers, vec!["1", "2", "3", "4", "5", "6"]);
}
