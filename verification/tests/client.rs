use livox_mid360::client::{
    directed_broadcast_for, discovery_request, discovery_targets, is_framable, point_format,
    query_result, remaining_wait, set_result, stream_destinations, streaming_plan, work_mode,
    DiscoveredDevice, Discovery, Exchange, Interface, SequenceCounter,
};
use livox_mid360::command::{build_param_config, underruns, CommandFrame};
use livox_mid360::crc::crc16_ccitt_false;
use livox_mid360::error::LidarError;
use livox_mid360::net::{IpAddr, Ipv4Addr, SocketAddr};
use livox_mid360::packet::{DataFrameHeader, DataPacket, DataPayload};
use livox_mid360::points::ImuSample;
use livox_mid360::protocol::{
    CmdId, CmdType, DataType, LidarState, ParameterKey, ReturnCode, SenderType, TimestampType,
};
use livox_mid360::session::{bind_err, LiveConfig, Sample};

fn ack(seq_num: u32, cmd_id: CmdId, data: Vec<u8>) -> CommandFrame {
    CommandFrame {
        version: 0,
        length: (24 + data.len()) as u16,
        seq_num,
        cmd_id: cmd_id.as_u16(),
        cmd_type: CmdType::Ack,
        sender_type: SenderType::Lidar,
        data,
    }
}

fn bytes(frame: &CommandFrame) -> Vec<u8> {
    let mut out = vec![0u8; 1024];
    frame.write(&mut out).unwrap();
    out.truncate(frame.length as usize);
    out
}

fn announcement(ip: [u8; 4], port: u16) -> Vec<u8> {
    let mut d = vec![0u8; 24];
    d[0] = ReturnCode::Success.as_u8();
    d[1] = 9; // Mid360
    d[2..18].copy_from_slice(b"MID360-TEST12345");
    d[18..22].copy_from_slice(&ip);
    d[22..24].copy_from_slice(&port.to_le_bytes());
    bytes(&ack(0, CmdId::Discovery, d))
}

#[test]
fn discovery_collects_each_sensor_once() {
    let request = CommandFrame::parse(&discovery_request()).unwrap();
    assert_eq!(request.cmd_id, CmdId::Discovery.as_u16());
    assert_eq!(request.seq_num, 0);
    assert_eq!(request.cmd_type, CmdType::Req);

    let mut discovery = Discovery::new();
    discovery.absorb(&discovery_request());
    discovery.absorb(&[1, 2, 3]);
    assert_eq!(discovery.devices().len(), 0);
    discovery.absorb(&announcement([127, 0, 0, 1], 56100));
    discovery.absorb(&announcement([127, 0, 0, 1], 56100));
    discovery.absorb(&announcement([127, 0, 0, 1], 56101));
    discovery.absorb(&announcement([10, 0, 0, 1], 56100));
    let devices = discovery.devices();
    assert_eq!(devices.len(), 3);
    assert_eq!(devices[0].dev_type, 9);
    assert_eq!(&devices[0].serial_number, b"MID360-TEST12345");
    assert_eq!(
        devices[0].lidar_cmd_addr,
        SocketAddr::v4(Ipv4Addr::localhost(), 56100)
    );
    assert_eq!(devices[1].lidar_cmd_addr.port(), 56101);
    assert_eq!(
        devices[2].lidar_cmd_addr,
        SocketAddr::v4(Ipv4Addr::new(10, 0, 0, 1), 56100)
    );
}

#[test]
fn directed_broadcast_of_the_bound_interface() {
    let host = Ipv4Addr::new(192, 168, 1, 50);
    let cast = Ipv4Addr::new(192, 168, 1, 255);
    let interfaces = [
        Interface { ip: IpAddr::V6(1), broadcast: None },
        Interface { ip: IpAddr::V4(host), broadcast: None },
        Interface { ip: IpAddr::V4(Ipv4Addr::new(10, 0, 0, 1)), broadcast: Some(Ipv4Addr::new(10, 0, 0, 255)) },
        Interface { ip: IpAddr::V4(host), broadcast: Some(cast) },
    ];
    assert_eq!(directed_broadcast_for(Some(host), &interfaces), Some(cast));
    assert_eq!(directed_broadcast_for(None, &interfaces), None);
    assert_eq!(directed_broadcast_for(Some(Ipv4Addr::new(1, 2, 3, 4)), &interfaces), None);
    let odd = [
        Interface { ip: IpAddr::V4(Ipv4Addr::unspecified()), broadcast: Some(cast) },
        Interface { ip: IpAddr::V4(Ipv4Addr::localhost()), broadcast: Some(cast) },
    ];
    assert_eq!(directed_broadcast_for(Some(Ipv4Addr::unspecified()), &odd), None);
    assert_eq!(directed_broadcast_for(Some(Ipv4Addr::localhost()), &odd), None);

    let all = SocketAddr::v4(Ipv4Addr::new(255, 255, 255, 255), 56000);
    assert_eq!(discovery_targets(all, None), vec![all]);
    assert_eq!(
        discovery_targets(all, Some(cast)),
        vec![all, SocketAddr::v4(cast, 56000)]
    );
    let directed = SocketAddr::v4(cast, 56000);
    assert_eq!(discovery_targets(directed, Some(cast)), vec![directed]);
}

#[test]
fn exchange_accepts_its_own_acknowledgement_only() {
    let addr = SocketAddr::v4(Ipv4Addr::localhost(), 56100);
    let payload = build_param_config(&[(ParameterKey::PclDataType, vec![1])]);
    let (exchange, sent) =
        Exchange::start(7, addr, CmdId::ParamConfig.as_u16(), payload.clone()).unwrap();
    let req = CommandFrame::parse(&sent).unwrap();
    assert_eq!(req.cmd_id, CmdId::ParamConfig.as_u16());
    assert_eq!(req.seq_num, 7);
    assert_eq!(req.data, payload);

    let reply = ack(req.seq_num, CmdId::ParamConfig, vec![ReturnCode::Success.as_u8()]);
    let got = exchange.on_datagram(addr.ip(), &bytes(&reply)).unwrap();
    assert_eq!(got.cmd_type, CmdType::Ack);
    assert_eq!(got, reply);

    let elsewhere = IpAddr::V4(Ipv4Addr::new(127, 0, 0, 2));
    assert_eq!(exchange.on_datagram(elsewhere, &bytes(&reply)), None);
    assert_eq!(exchange.on_datagram(addr.ip(), &sent), None);
    assert_eq!(exchange.on_datagram(addr.ip(), &[0; 30]), None);
    let late = ack(6, CmdId::ParamConfig, vec![0]);
    assert_eq!(exchange.on_datagram(addr.ip(), &bytes(&late)), None);
    let other = ack(7, CmdId::ParamInquire, vec![0]);
    assert_eq!(exchange.on_datagram(addr.ip(), &bytes(&other)), None);
    assert_eq!(exchange.on_timeout(), LidarError::NoResponse { addr });

    // An intact header that declares less than itself is not read from elsewhere.
    let mut short = bytes(&reply);
    short[2] = 10;
    let crc = crc16_ccitt_false(&short[..18]);
    short[18..20].copy_from_slice(&crc.to_le_bytes());
    assert!(underruns(&short));
    assert_eq!(exchange.on_datagram(elsewhere, &short), None);
}

#[test]
fn scoped_addresses_stay_as_they_are() {
    let addr = SocketAddr::V6 { ip: 0xFE80 << 112 | 1, port: 56100, flowinfo: 3, scope_id: 4 };
    assert_eq!(addr.ip(), IpAddr::V6(0xFE80 << 112 | 1));
    assert_eq!(addr.port(), 56100);
    assert_eq!(discovery_targets(addr, None), vec![addr]);
    let cast = Ipv4Addr::new(10, 0, 0, 255);
    assert_eq!(discovery_targets(addr, Some(cast)), vec![addr, SocketAddr::v4(cast, 56100)]);
    let (exchange, _) = Exchange::start(1, addr, 0, Vec::new()).unwrap();
    assert_eq!(exchange.on_timeout(), LidarError::NoResponse { addr });
    let other = SocketAddr::V6 { ip: 0xFE80 << 112 | 1, port: 56100, flowinfo: 3, scope_id: 5 };
    assert_ne!(addr, other);
    let reply = ack(1, CmdId::Discovery, Vec::new());
    assert_eq!(exchange.on_datagram(other.ip(), &bytes(&reply)), Some(reply));
}

#[test]
fn serial_numbers_as_text() {
    let text = |serial: &[u8; 16]| {
        DiscoveredDevice {
            dev_type: 9,
            serial_number: *serial,
            lidar_cmd_addr: SocketAddr::v4(Ipv4Addr::localhost(), 1),
        }
        .serial_text()
    };
    assert_eq!(text(b"MID360-TEST12345"), "MID360-TEST12345");
    assert_eq!(text(b"MID\0360\0\0\0\0\0\0\0\0\0"), "MID\0360");
    assert_eq!(text(&[0; 16]), "");
    assert_eq!(text(b"A\xC3\xA9\xFFB\0\0\0\0\0\0\0\0\0\0\0"), "A\u{e9}\u{fffd}B");
}

#[test]
fn oversized_commands_are_refused() {
    let addr = SocketAddr::v4(Ipv4Addr::localhost(), 1);
    assert!(Exchange::start(1, addr, 0, vec![0; 2024]).is_ok());
    assert_eq!(
        Exchange::start(1, addr, 0, vec![0; 2025]).err(),
        Some(LidarError::BufferTooSmall)
    );
    assert!(is_framable(2024));
    assert!(is_framable(2025));
    assert!(is_framable(65511));
    assert!(!is_framable(65512));
    assert!(!is_framable(65536));
    assert!(is_framable(65536 + 2025));
}

#[test]
fn sequence_numbers_start_at_one() {
    let mut counter = SequenceCounter::new();
    assert_eq!(counter.next_seq(), 1);
    assert_eq!(counter.next_seq(), 2);
}

#[test]
fn waiting_ends_when_the_time_is_up() {
    assert_eq!(remaining_wait(1000, 400), Some(600));
    assert_eq!(remaining_wait(1000, 1000), None);
    assert_eq!(remaining_wait(1000, 2000), None);
    assert_eq!(remaining_wait(0, 0), None);
}

#[test]
fn results_of_parameter_commands() {
    let ok = ack(1, CmdId::ParamInquire, vec![0, 1, 0, 0, 0, 6, 0x80, 1, 0, 9]);
    assert_eq!(query_result(&ok), Ok(vec![(0x8006, vec![9])]));
    let refused = ack(1, CmdId::ParamInquire, vec![1, 0, 0, 0, 0]);
    assert_eq!(
        query_result(&refused),
        Err(LidarError::CommandFailed { code: ReturnCode::Failure })
    );
    assert_eq!(
        query_result(&ack(1, CmdId::ParamInquire, vec![])),
        Err(LidarError::PacketTooShort { need: 1, got: 0 })
    );
    assert_eq!(set_result(&ack(1, CmdId::ParamConfig, vec![0])), Ok(()));
    assert_eq!(
        set_result(&ack(1, CmdId::ParamConfig, vec![0x22, 1, 0])),
        Err(LidarError::CommandFailed { code: ReturnCode::ParamReadOnly })
    );
    assert_eq!(
        set_result(&ack(1, CmdId::ParamConfig, vec![0x77])),
        Err(LidarError::InvalidReturnCode(0x77))
    );
}

#[test]
fn start_up_settings() {
    let host = Ipv4Addr::new(192, 168, 1, 50);
    let data = SocketAddr::v4(host, 56301);
    let imu = SocketAddr::V6 { ip: 5, port: 56401, flowinfo: 1, scope_id: 2 };
    let destinations = vec![
        (ParameterKey::PointCloudHostIpCfg, vec![192, 168, 1, 50, 0xED, 0xDB, 0xED, 0xDB]),
        (ParameterKey::ImuHostIpCfg, vec![0, 0, 0, 0, 0x51, 0xDC, 0x51, 0xDC]),
    ];
    let format = vec![(ParameterKey::PclDataType, vec![2])];
    let sampling = vec![(ParameterKey::WorkTgtMode, vec![1])];
    assert_eq!(stream_destinations(data, imu), destinations);
    assert_eq!(point_format(DataType::PointCloudCartesian16), format);
    assert_eq!(work_mode(LidarState::Sampling), sampling);
    assert_eq!(work_mode(LidarState::Idle), vec![(ParameterKey::WorkTgtMode, vec![2])]);
    assert_eq!(
        streaming_plan(data, imu, DataType::PointCloudCartesian16),
        vec![destinations.clone(), format.clone(), sampling.clone()]
    );
    let mut config = LiveConfig::new(host, Ipv4Addr::new(192, 168, 1, 100));
    config.imu_dst = imu;
    config.data_type = DataType::PointCloudCartesian16;
    assert_eq!(
        config.start_plan(),
        vec![destinations, format, vec![(ParameterKey::ImuDataEn, vec![1])], sampling]
    );
}

#[test]
fn connect_rejects_unspecified_host() {
    let config = LiveConfig::new(Ipv4Addr::unspecified(), Ipv4Addr::localhost());
    let err = match config.check_host() {
        Err(e) => e,
        Ok(_) => panic!("expected InvalidHost"),
    };
    assert!(matches!(err, LidarError::InvalidHost));
    let config = LiveConfig::new(Ipv4Addr::localhost(), Ipv4Addr::localhost());
    assert_eq!(config.check_host(), Ok(()));
}

#[test]
fn session_defaults_and_ports() {
    let host = Ipv4Addr::new(192, 168, 1, 50);
    let lidar = Ipv4Addr::new(192, 168, 1, 100);
    let config = LiveConfig::new(host, lidar);
    assert_eq!(config.data_type, DataType::PointCloudCartesian32);
    assert_eq!(config.command_timeout, 2_000_000_000);
    assert_eq!(config.lidar_cmd(), SocketAddr::v4(lidar, 56100));
    assert_eq!(config.cmd_bind, SocketAddr::v4(host, 56101));
    assert_eq!(config.data_bind, SocketAddr::v4(host, 56301));
    assert_eq!(config.imu_bind, SocketAddr::v4(host, 56401));
    assert_eq!(config.data_dst, config.data_bind);
    assert_eq!(config.imu_dst, config.imu_bind);
    assert_eq!(LiveConfig::with_ports(host, lidar, None, None, None, None), config);
    let config = LiveConfig::with_ports(host, lidar, Some(1), Some(2), Some(3), Some(4));
    assert_eq!(config.lidar_cmd(), SocketAddr::v4(lidar, 1));
    assert_eq!(config.cmd_bind, SocketAddr::v4(host, 2));
    assert_eq!(config.data_bind, SocketAddr::v4(host, 3));
    assert_eq!(config.data_dst, SocketAddr::v4(host, 3));
    assert_eq!(config.imu_bind, SocketAddr::v4(host, 4));
    assert_eq!(config.imu_dst, SocketAddr::v4(host, 4));
}

#[test]
fn bind_errors_name_the_socket() {
    let addr = SocketAddr::v4(Ipv4Addr::localhost(), 56101);
    assert_eq!(
        bind_err("command", addr, LidarError::Io("in use".to_string())),
        LidarError::Bind {
            resource: "command".to_string(),
            addr,
            source: "in use".to_string()
        }
    );
    assert_eq!(bind_err("command", addr, LidarError::CrcMismatch), LidarError::CrcMismatch);
}

#[test]
fn packets_become_samples() {
    let header = DataFrameHeader {
        version: 0,
        length: 0,
        time_interval: 0,
        dot_num: 0,
        udp_cnt: 0,
        frame_cnt: 0,
        data_type: DataType::PointCloudCartesian32,
        time_type: TimestampType::NoSync,
        timestamp: 5,
    };
    let points = DataPacket { header, payload: DataPayload::Points(vec![]) };
    assert_eq!(Sample::try_from(points), Ok(Sample::Points { header, points: vec![] }));
    let sample = ImuSample { gyro_x: 1, gyro_y: 2, gyro_z: 3, acc_x: 4, acc_y: 5, acc_z: 6 };
    let imu = DataPacket { header, payload: DataPayload::Imu(sample) };
    assert_eq!(Sample::try_from(imu), Ok(Sample::Imu { header, sample }));
}
