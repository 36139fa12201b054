use livox_mid360::command::{
    build_param_config, build_param_inquire, decode_key_value_list, encode_key_list,
    encode_key_value_list, host_ip_cfg_value, lidar_ip_cfg_value, parse_param_config_ack,
    parse_param_inquire_ack, underruns, CommandFrame, DiscoveryAck,
};
use livox_mid360::crc::{crc16_ccitt_false, crc32};
use livox_mid360::error::LidarError;
use livox_mid360::net::Ipv4Addr;
use livox_mid360::protocol::{CmdId, CmdType, ParameterKey, ReturnCode, SenderType};

#[test]
fn command_frame_roundtrip() {
    let data = build_param_config(&[(ParameterKey::PclDataType, vec![1])]);
    let req = CommandFrame::new_req(42, CmdId::ParamConfig.as_u16(), data);
    let mut buf = vec![0u8; 1024];
    req.write(&mut buf).unwrap();
    let parsed = CommandFrame::parse(&buf[..req.length as usize]).unwrap();
    assert_eq!(parsed, req);
}

#[test]
fn empty_data_command_frame() {
    let req = CommandFrame::new_req(1, CmdId::Discovery.as_u16(), Vec::new());
    let mut buf = vec![0u8; 1024];
    req.write(&mut buf).unwrap();
    let parsed = CommandFrame::parse(&buf[..req.length as usize]).unwrap();
    assert_eq!(parsed.data.len(), 0);
    assert_eq!(parsed.cmd_id, CmdId::Discovery.as_u16());
}

#[test]
fn key_value_roundtrip() {
    let items = vec![(0x0006u16, &[192u8, 168, 1, 100, 0x63, 0x01, 0x63, 0x00][..])];
    let encoded = encode_key_value_list(&items);
    let decoded = decode_key_value_list(&encoded).unwrap();
    assert_eq!(items, decoded.iter().map(|(k, v)| (*k, v.as_slice())).collect::<Vec<_>>());
}

#[test]
fn discovery_ack_parse() {
    let mut data = vec![0u8; 24];
    data[0] = 0; // success
    data[1] = 9; // Mid360
    data[2..18].copy_from_slice(b"MID360-123456789");
    data[18..22].copy_from_slice(&[192, 168, 1, 100]);
    data[22..24].copy_from_slice(&56100u16.to_le_bytes());
    let ack = DiscoveryAck::parse(&data).unwrap();
    assert_eq!(ack.ret_code, ReturnCode::Success);
    assert_eq!(ack.lidar_ip, Ipv4Addr::new(192, 168, 1, 100));
    assert_eq!(ack.cmd_port, 56100);
}

#[test]
fn checksums_of_the_check_string() {
    assert_eq!(crc32(b"123456789"), 0xCBF4_3926);
    assert_eq!(crc16_ccitt_false(b"123456789"), 0x29B1);
    assert_eq!(crc32(&[]), 0);
    assert_eq!(crc16_ccitt_false(&[]), 0xFFFF);
}

#[test]
fn request_bytes_are_exact() {
    let req = CommandFrame::new_req(0x0403_0201, 0x0100, vec![0xAB]);
    let mut buf = vec![0xEEu8; 30];
    req.write(&mut buf).unwrap();
    assert_eq!(
        &buf[..18],
        &[0xAA, 0, 25, 0, 1, 2, 3, 4, 0x00, 0x01, 0, 0, 0, 0, 0, 0, 0, 0]
    );
    assert_eq!(buf[18..20], crc16_ccitt_false(&buf[..18]).to_le_bytes());
    assert_eq!(buf[20..24], crc32(&[0xAB]).to_le_bytes());
    assert_eq!(&buf[24..], &[0xAB, 0xEE, 0xEE, 0xEE, 0xEE, 0xEE]);
}

fn frame_bytes(data: Vec<u8>) -> Vec<u8> {
    let req = CommandFrame::new_req(7, 0x0101, data);
    let mut buf = vec![0u8; req.length as usize];
    req.write(&mut buf).unwrap();
    buf
}

#[test]
fn write_refuses_a_short_buffer() {
    let req = CommandFrame::new_req(7, 0x0101, vec![1, 2, 3]);
    let mut buf = vec![9u8; 26];
    assert_eq!(req.write(&mut buf), Err(LidarError::BufferTooSmall));
    assert_eq!(buf, vec![9u8; 26]);
}

#[test]
fn parse_errors() {
    let good = frame_bytes(vec![1, 2, 3]);
    assert_eq!(
        CommandFrame::parse(&good[..23]),
        Err(LidarError::PacketTooShort { need: 24, got: 23 })
    );
    assert_eq!(
        CommandFrame::parse(&good[..26]),
        Err(LidarError::PacketTooShort { need: 27, got: 26 })
    );
    let mut sof = good.clone();
    sof[0] = 0x0B;
    assert_eq!(
        CommandFrame::parse(&sof),
        Err(LidarError::ParameterParse(
            "invalid SOF: expected 0xAA, got 0x0B".to_string()
        ))
    );
    let mut bad_type = good.clone();
    bad_type[10] = 2;
    let crc = crc16_ccitt_false(&bad_type[..18]).to_le_bytes();
    bad_type[18..20].copy_from_slice(&crc);
    assert_eq!(CommandFrame::parse(&bad_type), Err(LidarError::InvalidCmdType(2)));
    let mut bad_sender = good.clone();
    bad_sender[11] = 5;
    let crc = crc16_ccitt_false(&bad_sender[..18]).to_le_bytes();
    bad_sender[18..20].copy_from_slice(&crc);
    assert_eq!(CommandFrame::parse(&bad_sender), Err(LidarError::InvalidSenderType(5)));
}

#[test]
fn every_damaged_byte_is_noticed() {
    let good = frame_bytes(vec![10, 20, 30, 40]);
    for i in 0..good.len() {
        for flip in [0x01u8, 0x80, 0xFF] {
            let mut bad = good.clone();
            bad[i] ^= flip;
            assert!(!underruns(&bad));
            assert!(CommandFrame::parse(&bad).is_err(), "byte {i}");
        }
    }
}

#[test]
fn trailing_bytes_do_not_matter() {
    let mut buf = frame_bytes(vec![5, 6]);
    let frame = CommandFrame::parse(&buf).unwrap();
    buf.extend_from_slice(&[1, 2, 3]);
    assert_eq!(CommandFrame::parse(&buf).unwrap(), frame);
}

#[test]
fn header_shorter_than_itself_underruns() {
    let mut buf = frame_bytes(Vec::new());
    assert!(!underruns(&buf));
    buf[2] = 23;
    let crc = crc16_ccitt_false(&buf[..18]).to_le_bytes();
    buf[18..20].copy_from_slice(&crc);
    assert!(underruns(&buf));
    assert!(!underruns(&buf[..20]));
}

#[test]
fn length_field_keeps_the_low_bits() {
    let req = CommandFrame::new_req(1, 2, vec![0u8; 65536]);
    assert_eq!(req.length, 24);
    let req = CommandFrame::new_req(1, 2, vec![0u8; 65511]);
    assert_eq!(req.length, 65535);
}

#[test]
fn acknowledgement_matches_its_request_only() {
    let req = CommandFrame::new_req(3, 0x0100, Vec::new());
    let ack = CommandFrame {
        version: 0,
        length: 24,
        seq_num: 3,
        cmd_id: 0x0100,
        cmd_type: CmdType::Ack,
        sender_type: SenderType::Lidar,
        data: Vec::new(),
    };
    assert!(ack.is_ack_for(&req));
    assert!(!req.is_ack_for(&req));
    assert!(!CommandFrame { seq_num: 4, ..ack.clone() }.is_ack_for(&req));
    assert!(!CommandFrame { cmd_id: 0x0101, ..ack.clone() }.is_ack_for(&req));
    assert!(!CommandFrame { sender_type: SenderType::Host, ..ack }.is_ack_for(&req));
}

#[test]
fn key_value_list_bytes_and_errors() {
    let bytes = encode_key_value_list(&[(0x0102, &[7, 8][..]), (3, &[][..])]);
    assert_eq!(bytes, vec![2, 0, 0, 0, 2, 1, 2, 0, 7, 8, 3, 0, 0, 0]);
    assert_eq!(
        decode_key_value_list(&bytes).unwrap(),
        vec![(0x0102, vec![7, 8]), (3, vec![])]
    );
    assert_eq!(
        decode_key_value_list(&bytes[..3]),
        Err(LidarError::PacketTooShort { need: 4, got: 3 })
    );
    assert_eq!(
        decode_key_value_list(&bytes[..7]),
        Err(LidarError::PacketTooShort { need: 8, got: 7 })
    );
    assert_eq!(
        decode_key_value_list(&bytes[..9]),
        Err(LidarError::PacketTooShort { need: 10, got: 9 })
    );
    assert_eq!(decode_key_value_list(&[0, 0, 9, 9, 9]).unwrap(), vec![]);
}

#[test]
fn key_lists() {
    assert_eq!(encode_key_list(&[0x8000, 0x1234]), vec![2, 0, 0, 0, 0x00, 0x80, 0x34, 0x12]);
    assert_eq!(
        build_param_inquire(&[ParameterKey::Sn, ParameterKey::HmsCode]),
        vec![2, 0, 0, 0, 0x00, 0x80, 0x11, 0x80]
    );
    assert_eq!(
        build_param_config(&[(ParameterKey::WorkTgtMode, vec![1])]),
        vec![1, 0, 0, 0, 0x1A, 0, 1, 0, 1]
    );
}

#[test]
fn address_values() {
    assert_eq!(
        host_ip_cfg_value(Ipv4Addr::new(192, 168, 1, 50), 56301, 56300),
        vec![192, 168, 1, 50, 0xED, 0xDB, 0xEC, 0xDB]
    );
    assert_eq!(
        lidar_ip_cfg_value(
            Ipv4Addr::new(192, 168, 1, 100),
            Ipv4Addr::new(255, 255, 255, 0),
            Ipv4Addr::new(192, 168, 1, 1)
        ),
        vec![192, 168, 1, 100, 255, 255, 255, 0, 192, 168, 1, 1]
    );
}

#[test]
fn acknowledgement_payloads() {
    assert_eq!(
        parse_param_config_ack(&[]),
        Err(LidarError::PacketTooShort { need: 1, got: 0 })
    );
    assert_eq!(parse_param_config_ack(&[0]), Ok((ReturnCode::Success, None)));
    assert_eq!(parse_param_config_ack(&[0x20, 5]), Ok((ReturnCode::ParamNotSupport, None)));
    assert_eq!(
        parse_param_config_ack(&[0x24, 0x1A, 0x00]),
        Ok((ReturnCode::ParamKeyNumErr, Some(0x1A)))
    );
    assert_eq!(parse_param_config_ack(&[0x99]), Err(LidarError::InvalidReturnCode(0x99)));
    assert_eq!(
        parse_param_inquire_ack(&[]),
        Err(LidarError::PacketTooShort { need: 1, got: 0 })
    );
    assert_eq!(
        parse_param_inquire_ack(&[0, 1, 0, 0, 0, 6, 0x80, 1, 0, 9]),
        Ok((ReturnCode::Success, vec![(0x8006, vec![9])]))
    );
    assert_eq!(
        parse_param_inquire_ack(&[0, 1, 0]),
        Err(LidarError::PacketTooShort { need: 4, got: 2 })
    );
    assert_eq!(
        DiscoveryAck::parse(&[0; 23]),
        Err(LidarError::PacketTooShort { need: 24, got: 23 })
    );
    assert_eq!(
        DiscoveryAck::parse(&[4; 24]),
        Err(LidarError::InvalidReturnCode(4))
    );
}
