use livox_mid360::error::LidarError;
use livox_mid360::net::{IpAddr, Ipv4Addr, SocketAddr};
use livox_mid360::protocol::{
    default_host_sockets, CmdId, CmdType, DataType, LidarState, ParameterKey, ReturnCode,
    SenderType, TimestampType, CMD_PORT, DATA_PORT, DISCOVERY_PORT, HOST_CMD_PORT, HOST_DATA_PORT,
    HOST_IMU_PORT, HOST_LOG_PORT, HOST_PUSH_PORT, IMU_PORT, LOG_PORT, PROTOCOL_VERSION, PUSH_PORT,
    SOF,
};

#[test]
fn ports_of_the_protocol() {
    assert_eq!(
        [DISCOVERY_PORT, CMD_PORT, PUSH_PORT, DATA_PORT, IMU_PORT, LOG_PORT],
        [56000, 56100, 56200, 56300, 56400, 56500]
    );
    assert_eq!(
        [HOST_CMD_PORT, HOST_PUSH_PORT, HOST_DATA_PORT, HOST_IMU_PORT, HOST_LOG_PORT],
        [56101, 56201, 56301, 56401, 56501]
    );
    assert_eq!((SOF, PROTOCOL_VERSION), (0xAA, 0));
}

#[test]
fn byte_codes_read_back() {
    let mut seen = [0usize; 6];
    for b in 0..=255u8 {
        match DataType::try_from(b) {
            Ok(v) => {
                assert_eq!(v.as_u8(), b);
                seen[0] += 1;
            }
            Err(e) => assert_eq!(e, LidarError::InvalidDataType(b)),
        }
        match TimestampType::try_from(b) {
            Ok(v) => {
                assert_eq!(v.as_u8(), b);
                seen[1] += 1;
            }
            Err(e) => assert_eq!(e, LidarError::InvalidTimestampType(b)),
        }
        match CmdType::try_from(b) {
            Ok(v) => {
                assert_eq!(v.as_u8(), b);
                seen[2] += 1;
            }
            Err(e) => assert_eq!(e, LidarError::InvalidCmdType(b)),
        }
        match SenderType::try_from(b) {
            Ok(v) => {
                assert_eq!(v.as_u8(), b);
                seen[3] += 1;
            }
            Err(e) => assert_eq!(e, LidarError::InvalidSenderType(b)),
        }
        match LidarState::try_from(b) {
            Ok(v) => {
                assert_eq!(v.as_u8(), b);
                seen[4] += 1;
            }
            Err(e) => assert_eq!(e, LidarError::InvalidLidarState(b)),
        }
        match ReturnCode::try_from(b) {
            Ok(v) => {
                assert_eq!(v.as_u8(), b);
                seen[5] += 1;
            }
            Err(e) => assert_eq!(e, LidarError::InvalidReturnCode(b)),
        }
    }
    assert_eq!(seen, [4, 3, 2, 2, 7, 14]);
    assert_eq!(LidarState::Ready.as_u8(), 9);
    assert_eq!(ReturnCode::UpgradeFwErasing.as_u8(), 0x34);
}

#[test]
fn word_codes() {
    assert_eq!(CmdId::ParamConfig.as_u16(), 0x0100);
    assert_eq!(CmdId::UpgradeState.as_u16(), 0x0403);
    assert_eq!(ParameterKey::ImuDataEn.as_u16(), 0x001C);
    assert_eq!(ParameterKey::HmsCode.as_u16(), 0x8011);
}

#[test]
fn sample_sizes() {
    let sizes: Vec<(usize, usize)> = [
        DataType::Imu,
        DataType::PointCloudCartesian32,
        DataType::PointCloudCartesian16,
        DataType::PointCloudSpherical,
    ]
    .iter()
    .map(|t| (t.points_per_packet(), t.point_size()))
    .collect();
    assert_eq!(sizes, vec![(1, 24), (96, 14), (96, 8), (96, 10)]);
}

#[test]
fn host_sockets_and_addresses() {
    let ip = Ipv4Addr::new(192, 168, 1, 50);
    let sockets = default_host_sockets(ip);
    assert_eq!(sockets[0], (SocketAddr::v4(ip, 56101), 56100));
    assert_eq!(sockets[1], (SocketAddr::v4(ip, 56201), 56200));
    assert_eq!(sockets[2], (SocketAddr::v4(ip, 56301), 56300));
    assert_eq!(sockets[3], (SocketAddr::V4 { ip, port: 56401 }, 56400));
    assert_eq!(ip.octets(), [192, 168, 1, 50]);
    assert!(Ipv4Addr::unspecified().is_unspecified());
    assert!(!Ipv4Addr::new(0, 0, 0, 1).is_unspecified());
    assert!(Ipv4Addr::localhost().is_loopback());
    assert!(Ipv4Addr::new(127, 9, 9, 9).is_loopback());
    assert!(!ip.is_loopback());
}
