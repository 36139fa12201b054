//! What is sent to a sensor to start it, and how a session is set up.

use vstd::prelude::*;
use vstd::std_specs::convert::TryFromSpec;

use crate::client;
use crate::command;
use crate::crc;
use crate::error::{Failure, LidarError};
use crate::laws::layout;
use crate::net::{self, IpAddr, Ipv4Addr, SocketAddr};
use crate::packet::{self, DataFrameHeader, DataPacket, DataPayload, Packet, Samples};
use crate::points::{ImuSample, Point};
use crate::protocol::{
    self, CmdType, DataType, LidarState, ParameterKey, ReturnCode, SenderType, TimestampType,
};
use crate::session::{self, LiveConfig, Sample};
use crate::wire;

verus! {

/// Request numbers count up by one and wrap around after the largest; no number
/// follows two others.
pub proof fn request_numbers_count_up(n: u32, m: u32)
    ensures
        n < u32::MAX ==> client::number_after(n) == n + 1,
        client::number_after(u32::MAX) == 0,
        client::number_after(n) == client::number_after(m) ==> n == m,
{
}

/// What is left of a wait and what has passed make up the wait; nothing is left
/// once it has run out.
pub proof fn waits_run_out(wait: u128, elapsed: u128)
    ensures
        client::wait_left(wait, elapsed) matches Some(left) ==> left > 0 && elapsed + left == wait,
        client::wait_left(wait, elapsed) is None <==> elapsed >= wait,
{
}

/// The value of a host address parameter: four octets, then the two ports with
/// their low byte first.
pub proof fn host_values_stand_in_eight_bytes(ip: Ipv4Addr, dest_port: u16, source_port: u16)
    ensures
        ({
            let s = command::host_value(ip, dest_port, source_port);
            &&& s.len() == 8
            &&& s[0] == ip.a && s[1] == ip.b && s[2] == ip.c && s[3] == ip.d
            &&& layout::le2(s, 4) == dest_port
            &&& layout::le2(s, 6) == source_port
        }),
{
    let s = command::host_value(ip, dest_port, source_port);
    wire::lemma_u16_stands(s, 4, dest_port);
    wire::lemma_u16_stands(s, 6, source_port);
}

/// The value of the sensor address parameter: the octets of address, mask and
/// gateway.
pub proof fn sensor_values_stand_in_twelve_bytes(ip: Ipv4Addr, mask: Ipv4Addr, gateway: Ipv4Addr)
    ensures
        ({
            let s = command::sensor_value(ip, mask, gateway);
            &&& s.len() == 12
            &&& s[0] == ip.a && s[1] == ip.b && s[2] == ip.c && s[3] == ip.d
            &&& s[4] == mask.a && s[5] == mask.b && s[6] == mask.c && s[7] == mask.d
            &&& s[8] == gateway.a && s[9] == gateway.b && s[10] == gateway.c && s[11] == gateway.d
        }),
{
}

/// A parameter's number and value.
pub open spec fn is_setting(item: (ParameterKey, Seq<u8>), key: int, value: Seq<u8>) -> bool {
    item.0.code() == key && item.1 == value
}

/// Point data is sent to the first destination and IMU data to the second, each
/// by its own parameter and from its own port. An IPv6 destination is sent to no
/// address.
pub proof fn streams_go_to_their_destinations(data_dst: SocketAddr, imu_dst: SocketAddr)
    ensures
        ({
            let items = client::destination_items(data_dst, imu_dst);
            &&& items.len() == 2
            &&& items[0].0.code() == 6
            &&& items[1].0.code() == 7
            &&& items[0].1.len() == 8 && items[1].1.len() == 8
            &&& data_dst matches SocketAddr::V4 { ip, port } ==> items[0].1[0] == ip.a
                && items[0].1[1] == ip.b && items[0].1[2] == ip.c && items[0].1[3] == ip.d
            &&& imu_dst matches SocketAddr::V4 { ip, port } ==> items[1].1[0] == ip.a
                && items[1].1[1] == ip.b && items[1].1[2] == ip.c && items[1].1[3] == ip.d
            &&& data_dst is V6 ==> layout::le4(items[0].1, 0) == 0
            &&& imu_dst is V6 ==> layout::le4(items[1].1, 0) == 0
            &&& layout::le2(items[0].1, 4) == data_dst.port()
            &&& layout::le2(items[1].1, 4) == imu_dst.port()
            &&& layout::le2(items[0].1, 6) == 56301
            &&& layout::le2(items[1].1, 6) == 56401
        }),
{
    host_values_stand_in_eight_bytes(client::destination_ip(data_dst), data_dst.port(), 56301);
    host_values_stand_in_eight_bytes(client::destination_ip(imu_dst), imu_dst.port(), 56401);
}

/// A socket address holds the address and port that it was made of.
pub proof fn addresses_hold_their_parts(
    ip: Ipv4Addr,
    ip6: u128,
    port: u16,
    flowinfo: u32,
    scope_id: u32,
)
    ensures
        net::ipv4_socket(ip, port).ip() == IpAddr::V4(ip),
        net::ipv4_socket(ip, port).port() == port,
        (SocketAddr::V4 { ip, port }).ip() == IpAddr::V4(ip),
        (SocketAddr::V4 { ip, port }).port() == port,
        (SocketAddr::V6 { ip: ip6, port, flowinfo, scope_id }).ip() == IpAddr::V6(ip6),
        (SocketAddr::V6 { ip: ip6, port, flowinfo, scope_id }).port() == port,
        ip.bytes() == seq![ip.a, ip.b, ip.c, ip.d],
        net::ipv4(ip.a, ip.b, ip.c, ip.d) == ip,
{
}

/// Mode, format and IMU switch are one parameter of one byte each.
pub proof fn settings_are_single_bytes(state: LidarState, format: DataType, enabled: bool)
    ensures
        client::mode_items(state).len() == 1,
        is_setting(client::mode_items(state)[0], 0x1A, seq![state.code()]),
        client::format_items(format).len() == 1,
        is_setting(client::format_items(format)[0], 0, seq![format.code()]),
        client::imu_items(enabled).len() == 1,
        enabled ==> is_setting(client::imu_items(enabled)[0], 0x1C, seq![1u8]),
        !enabled ==> is_setting(client::imu_items(enabled)[0], 0x1C, seq![0u8]),
{
}

/// A stream is started in three steps, the last of which starts the sampling:
/// nothing is sampled before the sensor knows where to and in which format.
pub proof fn sampling_starts_last(data_dst: SocketAddr, imu_dst: SocketAddr, format: DataType)
    ensures
        ({
            let plan = client::streaming_items(data_dst, imu_dst, format);
            &&& plan.len() == 3
            &&& plan[0] == client::destination_items(data_dst, imu_dst)
            &&& plan[1].len() == 1 && is_setting(plan[1][0], 0, seq![format.code()])
            &&& plan[2].len() == 1 && is_setting(plan[2][0], 0x1A, seq![1u8])
        }),
{
}

/// A session does the same and switches the IMU stream on before the sampling,
/// with its own destinations and format.
pub proof fn sessions_start_like_streams(config: LiveConfig)
    ensures
        ({
            let plan = config.start_items();
            let stream = client::streaming_items(
                config.data_dst,
                config.imu_dst,
                config.data_type,
            );
            &&& plan.len() == 4
            &&& plan[0] == stream[0] && plan[1] == stream[1] && plan[3] == stream[2]
            &&& plan[2].len() == 1 && is_setting(plan[2][0], 0x1C, seq![1u8])
        }),
{
}

/// A session listens where the sensor sends to, on the chosen ports or else on
/// the usual ones, and talks to the sensor's command port. Nothing that was
/// chosen for one socket changes another.
pub proof fn sessions_listen_where_data_goes(
    host_ip: Ipv4Addr,
    lidar_ip: Ipv4Addr,
    lidar_cmd_port: Option<u16>,
    cmd_port: Option<u16>,
    data_port: Option<u16>,
    imu_port: Option<u16>,
)
    ensures
        ({
            let c = session::config_with(
                host_ip,
                lidar_ip,
                lidar_cmd_port,
                cmd_port,
                data_port,
                imu_port,
            );
            &&& c.host_ip == host_ip && c.lidar_ip == lidar_ip
            &&& c.data_type.code() == 1
            &&& c.command_timeout == 2_000_000_000
            &&& c.data_dst == c.data_bind && c.imu_dst == c.imu_bind
            &&& c.cmd_bind.ip() == IpAddr::V4(host_ip)
            &&& c.data_bind.ip() == IpAddr::V4(host_ip)
            &&& c.imu_bind.ip() == IpAddr::V4(host_ip)
            &&& c.command_addr().ip() == IpAddr::V4(lidar_ip)
            &&& c.command_addr().port() == c.lidar_cmd_port
            &&& lidar_cmd_port is None ==> c.lidar_cmd_port == 56100
            &&& cmd_port is None ==> c.cmd_bind.port() == 56101
            &&& data_port is None ==> c.data_bind.port() == 56301
            &&& imu_port is None ==> c.imu_bind.port() == 56401
            &&& lidar_cmd_port matches Some(p) ==> c.lidar_cmd_port == p
            &&& cmd_port matches Some(p) ==> c.cmd_bind.port() == p
            &&& data_port matches Some(p) ==> c.data_bind.port() == p
            &&& imu_port matches Some(p) ==> c.imu_bind.port() == p
        }),
{
}

/// The numbers of the ports: each of a sensor's services has its own hundred, and
/// the host listens one above.
pub proof fn ports_are_numbered()
    ensures
        protocol::DISCOVERY_PORT == 56000,
        protocol::CMD_PORT == 56100 && protocol::HOST_CMD_PORT == 56101,
        protocol::PUSH_PORT == 56200 && protocol::HOST_PUSH_PORT == 56201,
        protocol::DATA_PORT == 56300 && protocol::HOST_DATA_PORT == 56301,
        protocol::IMU_PORT == 56400 && protocol::HOST_IMU_PORT == 56401,
        protocol::LOG_PORT == 56500 && protocol::HOST_LOG_PORT == 56501,
{
}

/// Each host socket is one port above the sensor port that it talks to, and all
/// are bound to the same address.
pub proof fn host_sockets_are_one_above(bind_ip: Ipv4Addr, i: int)
    requires
        0 <= i < 4,
    ensures
        protocol::host_sockets(bind_ip).len() == 4,
        protocol::host_sockets(bind_ip)[i].0.ip() == IpAddr::V4(bind_ip),
        protocol::host_sockets(bind_ip)[i].0.port() == protocol::host_sockets(bind_ip)[i].1 + 1,
        protocol::host_sockets(bind_ip)[i].1 == 56100 + 100 * i,
{
    let s = protocol::host_sockets(bind_ip);
    assert(s[0].1 == 56100 && s[1].1 == 56200 && s[2].1 == 56300 && s[3].1 == 56400);
    assert(s[0].0.port() == 56101 && s[1].0.port() == 56201 && s[2].0.port() == 56301
        && s[3].0.port() == 56401);
}

/// Only the address of all zeros is refused as a host.
pub proof fn hosts_need_an_address(ip: Ipv4Addr)
    ensures
        session::host_check(ip) is Err <==> ip.a == 0 && ip.b == 0 && ip.c == 0 && ip.d == 0,
        session::host_check(ip) matches Err(e) ==> e == Failure::InvalidHost,
{
}

/// A failed bind names the socket and keeps the system's words; any other error
/// stays what it is.
pub proof fn bind_errors_name_the_socket(
    resource: Seq<char>,
    addr: SocketAddr,
    e: Failure,
    words: Seq<char>,
)
    ensures
        session::bind_failure(resource, addr, Failure::Io(words)) == (Failure::Bind {
            resource,
            addr,
            source: words,
        }),
        !(e is Io) ==> session::bind_failure(resource, addr, e) == e,
{
}

/// A session's sample holds the header and the samples of its packet, and every
/// packet has one.
pub proof fn samples_hold_their_packet(p: DataPacket)
    ensures
        <Sample as TryFromSpec<DataPacket>>::try_from_spec(p) is Ok,
        p.payload matches DataPayload::Points(v) ==> (<Sample as TryFromSpec<
            DataPacket,
        >>::try_from_spec(p)->Ok_0 matches Sample::Points { header, points } && header == p.header
            && points == v),
        p.payload matches DataPayload::Imu(x) ==> (<Sample as TryFromSpec<
            DataPacket,
        >>::try_from_spec(p)->Ok_0 matches Sample::Imu { header, sample } && header == p.header
            && sample == x),
{
}

/// A byte that is no code is refused with its value, each kind of code by its
/// own error; a byte that is one is read as it.
pub proof fn unknown_codes_are_refused(b: u8)
    ensures
        <DataType as TryFromSpec<u8>>::try_from_spec(b) == (match protocol::data_type_of(b) {
            Some(v) => Ok::<DataType, LidarError>(v),
            None => Err::<DataType, LidarError>(LidarError::InvalidDataType(b)),
        }),
        <TimestampType as TryFromSpec<u8>>::try_from_spec(b) == (match protocol::timestamp_type_of(
            b,
        ) {
            Some(v) => Ok::<TimestampType, LidarError>(v),
            None => Err::<TimestampType, LidarError>(LidarError::InvalidTimestampType(b)),
        }),
        <CmdType as TryFromSpec<u8>>::try_from_spec(b) == (match protocol::cmd_type_of(b) {
            Some(v) => Ok::<CmdType, LidarError>(v),
            None => Err::<CmdType, LidarError>(LidarError::InvalidCmdType(b)),
        }),
        <SenderType as TryFromSpec<u8>>::try_from_spec(b) == (match protocol::sender_type_of(b) {
            Some(v) => Ok::<SenderType, LidarError>(v),
            None => Err::<SenderType, LidarError>(LidarError::InvalidSenderType(b)),
        }),
        <LidarState as TryFromSpec<u8>>::try_from_spec(b) == (match protocol::lidar_state_of(b) {
            Some(v) => Ok::<LidarState, LidarError>(v),
            None => Err::<LidarState, LidarError>(LidarError::InvalidLidarState(b)),
        }),
        <ReturnCode as TryFromSpec<u8>>::try_from_spec(b) == (match protocol::return_code_of(b) {
            Some(v) => Ok::<ReturnCode, LidarError>(v),
            None => Err::<ReturnCode, LidarError>(LidarError::InvalidReturnCode(b)),
        }),
{
}

/// Whether the frame of a packet has this length and is read back as the packet,
/// but for the length in its header.
pub open spec fn comes_back(p: Packet, len: int) -> bool {
    &&& packet::frame_of(p) matches Ok(bytes)
    &&& bytes.len() == len
    &&& packet::packet_of(bytes) == Ok::<Packet, Failure>(
        Packet { header: (DataFrameHeader { length: len as u16, ..p.header }), payload: p.payload },
    )
}

/// A packet of points counts them; the rest of its header stays. It comes back
/// from its bytes.
pub proof fn packets_count_their_points(header: DataFrameHeader, points: Seq<Point>)
    ensures
        ({
            let p = packet::points_packet(header, points);
            &&& points.len() <= 0xFFFF ==> p.header.dot_num == points.len()
            &&& (DataFrameHeader { dot_num: header.dot_num, ..p.header }) == header
            &&& p.payload == Samples::Points(points)
        }),
{
    let p = packet::points_packet(header, points);
    assert(points.len() <= 0xFFFF ==> wire::low16(points.len()) == points.len());
}

/// A packet of an IMU sample counts one and says so in its format; the rest of
/// its header stays.
pub proof fn packets_of_a_sample_count_one(header: DataFrameHeader, sample: ImuSample)
    ensures
        ({
            let p = packet::imu_packet(header, sample);
            &&& p.header.dot_num == 1
            &&& p.header.data_type.code() == 0
            &&& (DataFrameHeader {
                dot_num: header.dot_num,
                data_type: header.data_type,
                ..p.header
            }) == header
            &&& p.payload == Samples::Imu(sample)
        }),
{
}

/// Packets that are made of points of one format, or of an IMU sample, come back
/// from their bytes.
pub proof fn packets_come_back(header: DataFrameHeader, points: Seq<Point>, sample: ImuSample)
    ensures
        comes_back(packet::imu_packet(header, sample), 60),
        !(header.data_type is Imu) && points.len() <= 0xFFFF && 36 + header.data_type.size()
            * points.len() <= 0xFFFF && (forall|i: int|
            0 <= i < points.len() ==> (#[trigger] points[i]).format() == header.data_type)
            ==> comes_back(
            packet::points_packet(header, points),
            (36 + header.data_type.size() * points.len()) as int,
        ),
{
    lemma_comes_back(packet::imu_packet(header, sample));
    if !(header.data_type is Imu) && points.len() <= 0xFFFF && 36 + header.data_type.size()
        * points.len() <= 0xFFFF && (forall|i: int|
        0 <= i < points.len() ==> (#[trigger] points[i]).format() == header.data_type) {
        packets_count_their_points(header, points);
        lemma_comes_back(packet::points_packet(header, points));
    }
}

proof fn lemma_comes_back(p: Packet)
    requires
        packet::describes(p.header, p.payload),
    ensures
        comes_back(p, packet::DATA_HEADER_SIZE + packet::payload_size(p.header, p.payload)),
{
    packet::frame_round_trip(p);
    lemma_frame_len(p);
}

proof fn lemma_frame_len(p: Packet)
    requires
        packet::describes(p.header, p.payload),
    ensures
        packet::frame_of(p) matches Ok(bytes) ==> bytes.len() == packet::DATA_HEADER_SIZE
            + packet::payload_size(p.header, p.payload),
{
    let total = packet::DATA_HEADER_SIZE + packet::payload_size(p.header, p.payload);
    assert(total >= 0) by {
        if let Samples::Points(points) = p.payload {
            assert(p.header.data_type.size() * points.len() >= 0) by (nonlinear_arith);
        }
    }
    packet::lemma_built(p.header, p.payload, Seq::new(total as nat, |i: int| 0u8));
}

/// Sealing a frame puts the checksum of what follows it into its four bytes and
/// touches nothing else; a sealed frame is accepted, and so is one without a
/// checksum.
pub proof fn sealed_frames_are_accepted(s: Seq<u8>, total: int, i: int)
    requires
        28 <= total <= s.len(),
        0 <= i < s.len(),
    ensures
        packet::sealed(s, total).len() == s.len(),
        i < 24 || 28 <= i ==> packet::sealed(s, total)[i] == s[i],
        layout::le4(packet::sealed(s, total), 24) == crc::crc32_of(s.subrange(28, total)),
        packet::crc_accepted(packet::sealed(s, total), total),
        layout::le4(s, 24) == 0 ==> packet::crc_accepted(s, total),
        layout::le4(s, 24) != 0 && layout::le4(s, 24) != crc::crc32_of(s.subrange(28, total))
            ==> !packet::crc_accepted(s, total),
{
    let t = packet::sealed(s, total);
    wire::lemma_u32_stands(t, 24, crc::crc32_of(s.subrange(28, total)));
    assert(t.subrange(28, total) == s.subrange(28, total));
    layout::fields_are_little_endian(s, 24);
    layout::fields_are_little_endian(t, 24);
}

/// Filling in a checksum needs a buffer with room for the frame, and checking one
/// comes to the one error that it can.
pub proof fn checksums_are_filled_and_checked(s: Seq<u8>, payload_len: int)
    requires
        0 <= payload_len,
    ensures
        s.len() < 36 + payload_len ==> packet::crc_filled(s, payload_len) == (
            Err::<(), Failure>(Failure::BufferTooSmall),
            s,
        ),
        s.len() >= 36 + payload_len ==> packet::crc_filled(s, payload_len) == (
            Ok::<(), Failure>(()),
            packet::sealed(s, 36 + payload_len),
        ) && packet::crc_verified(packet::crc_filled(s, payload_len).1, 36 + payload_len) == Ok::<
            (),
            Failure,
        >(()),
        packet::crc_verified(s, payload_len) is Ok <==> layout::le4(s, 24) == 0 || layout::le4(
            s,
            24,
        ) == crc::crc32_of(s.subrange(28, payload_len)),
        packet::crc_verified(s, payload_len) matches Err(e) ==> e == Failure::CrcMismatch,
{
    if s.len() >= 36 + payload_len {
        sealed_frames_are_accepted(s, 36 + payload_len, 0);
    }
    layout::fields_are_little_endian(s, 24);
}

/// Reflectivity and tag of a point are those of its format.
pub proof fn points_show_their_fields(p: Point)
    ensures
        p matches Point::Cartesian32(q) ==> p.reflectance() == q.reflectivity && p.marks()
            == q.tag,
        p matches Point::Cartesian16(q) ==> p.reflectance() == q.reflectivity && p.marks()
            == q.tag,
        p matches Point::Spherical(q) ==> p.reflectance() == q.reflectivity && p.marks() == q.tag,
{
}

} // verus!
