//! Where the fields of samples and data frames stand.

use vstd::prelude::*;
use vstd::std_specs::cmp::PartialEqSpec;

use crate::crc;
use crate::error::Failure;
use crate::packet::{self, DataFrameHeader, Packet, Samples};
use crate::points::{self, Cartesian16Point, Cartesian32Point, ImuSample, Point, SphericalPoint};
use crate::protocol::{
    self, CmdId, CmdType, DataType, LidarState, ParameterKey, ReturnCode, SenderType, TimestampType,
};
use crate::wire;

verus! {

/// Two bytes, the low one first.
pub open spec fn le2(s: Seq<u8>, at: int) -> int {
    s[at] + 256 * s[at + 1]
}

/// Four bytes, the lowest first.
pub open spec fn le4(s: Seq<u8>, at: int) -> int {
    le2(s, at) + 65536 * le2(s, at + 2)
}

/// Eight bytes, the lowest first.
pub open spec fn le8(s: Seq<u8>, at: int) -> int {
    le4(s, at) + 0x1_0000_0000 * le4(s, at + 4)
}

/// Whether two numbers agree in their low 16 bits.
pub open spec fn same16(a: int, b: int) -> bool {
    (a - b) % 0x1_0000 == 0
}

/// Whether two numbers agree in their low 32 bits.
pub open spec fn same32(a: int, b: int) -> bool {
    (a - b) % 0x1_0000_0000 == 0
}

/// Fields are read with their lowest byte first.
pub proof fn fields_are_little_endian(s: Seq<u8>, at: int)
    ensures
        wire::u16_at(s, at) == le2(s, at),
        wire::u32_at(s, at) == le4(s, at),
        wire::u64_at(s, at) == le8(s, at),
{
}

/// Values are written with their lowest byte first.
pub proof fn values_are_little_endian(a: u16, b: u32, c: u64)
    ensures
        wire::u16_bytes(a).len() == 2,
        wire::u32_bytes(b).len() == 4,
        wire::u64_bytes(c).len() == 8,
        le2(wire::u16_bytes(a), 0) == a,
        le4(wire::u32_bytes(b), 0) == b,
        le8(wire::u64_bytes(c), 0) == c,
{
    let two = wire::u16_bytes(a);
    let four = wire::u32_bytes(b);
    let eight = wire::u64_bytes(c);
    wire::lemma_u16_stands(two, 0, a);
    wire::lemma_u32_stands(four, 0, b);
    assert(eight.subrange(0, 8) == eight);
    wire::lemma_u64_stands(eight, 0, c);
    fields_are_little_endian(two, 0);
    fields_are_little_endian(four, 0);
    fields_are_little_endian(eight, 0);
}

/// Reading bits as a signed number, taking the bits of one, and cutting a length
/// down to 16 bits change nothing in the bits that are kept.
pub proof fn bits_keep_their_value(a: u16, b: u32, c: i16, d: i32, n: nat)
    ensures
        same16(wire::signed16(a) as int, a as int),
        same32(wire::signed32(b) as int, b as int),
        same16(wire::unsigned16(c) as int, c as int),
        same32(wire::unsigned32(d) as int, d as int),
        same16(wire::low16(n) as int, n as int),
{
    assert(0 <= n % 0x1_0000 < 0x1_0000);
    assert((n - n % 0x1_0000) % 0x1_0000 == 0);
}

/// Overwriting bytes puts them where they belong and touches no other.
pub proof fn overwriting_touches_nothing_else(s: Seq<u8>, at: int, b: Seq<u8>, i: int)
    requires
        0 <= at,
        at + b.len() <= s.len(),
        0 <= i < s.len(),
    ensures
        wire::splice(s, at, b).len() == s.len(),
        wire::splice(s, at, b)[i] == if at <= i < at + b.len() {
            b[i - at]
        } else {
            s[i]
        },
        points::written(s, at, b)[i] == wire::splice(s, at, b)[i],
        points::fits(s, at, b.len() as int) is Ok,
{
}

/// What does not fit is refused, and nothing is written.
pub proof fn what_does_not_fit_is_not_written(s: Seq<u8>, at: int, b: Seq<u8>)
    requires
        s.len() < at + b.len(),
    ensures
        points::written(s, at, b) == s,
        points::fits(s, at, b.len() as int) == Err::<(), Failure>(Failure::BufferTooSmall),
{
}

/// The bytes of a 32-bit Cartesian point: three coordinates, reflectivity, tag.
pub open spec fn is_cartesian32(p: Cartesian32Point, s: Seq<u8>, at: int) -> bool {
    &&& same32(p.x_mm as int, le4(s, at))
    &&& same32(p.y_mm as int, le4(s, at + 4))
    &&& same32(p.z_mm as int, le4(s, at + 8))
    &&& p.reflectivity == s[at + 12]
    &&& p.tag.0 == s[at + 13]
}

/// The bytes of a 16-bit Cartesian point: three coordinates, reflectivity, tag.
pub open spec fn is_cartesian16(p: Cartesian16Point, s: Seq<u8>, at: int) -> bool {
    &&& same16(p.x_10mm as int, le2(s, at))
    &&& same16(p.y_10mm as int, le2(s, at + 2))
    &&& same16(p.z_10mm as int, le2(s, at + 4))
    &&& p.reflectivity == s[at + 6]
    &&& p.tag.0 == s[at + 7]
}

/// The bytes of a spherical point: depth, two angles, reflectivity, tag.
pub open spec fn is_spherical(p: SphericalPoint, s: Seq<u8>, at: int) -> bool {
    &&& p.depth_mm == le4(s, at)
    &&& p.theta_0_01_deg == le2(s, at + 4)
    &&& p.phi_0_01_deg == le2(s, at + 6)
    &&& p.reflectivity == s[at + 8]
    &&& p.tag.0 == s[at + 9]
}

/// The bytes of an IMU sample: rotation rates, then accelerations.
pub open spec fn is_imu(p: ImuSample, s: Seq<u8>, at: int) -> bool {
    &&& p.gyro_x == le4(s, at)
    &&& p.gyro_y == le4(s, at + 4)
    &&& p.gyro_z == le4(s, at + 8)
    &&& p.acc_x == le4(s, at + 12)
    &&& p.acc_y == le4(s, at + 16)
    &&& p.acc_z == le4(s, at + 20)
}

/// The bytes of a point of any format.
pub open spec fn is_point(p: Point, s: Seq<u8>, at: int) -> bool {
    match p {
        Point::Cartesian32(q) => is_cartesian32(q, s, at),
        Point::Cartesian16(q) => is_cartesian16(q, s, at),
        Point::Spherical(q) => is_spherical(q, s, at),
    }
}

/// How many bytes a point of any format takes.
pub open spec fn point_bytes(p: Point) -> int {
    match p {
        Point::Cartesian32(_) => 14,
        Point::Cartesian16(_) => 8,
        Point::Spherical(_) => 10,
    }
}

/// Each sample is read from the bytes that its fields stand in, and a sample
/// that ends too early is refused with its size.
pub proof fn samples_are_read_from_their_bytes(s: Seq<u8>)
    ensures
        s.len() >= 14 ==> (Cartesian32Point::of(s) matches Ok(p) && is_cartesian32(p, s, 0)),
        s.len() >= 8 ==> (Cartesian16Point::of(s) matches Ok(p) && is_cartesian16(p, s, 0)),
        s.len() >= 10 ==> (SphericalPoint::of(s) matches Ok(p) && is_spherical(p, s, 0)),
        s.len() >= 24 ==> (ImuSample::of(s) matches Ok(p) && is_imu(p, s, 0)),
        s.len() < 14 ==> Cartesian32Point::of(s) == Err::<Cartesian32Point, Failure>(
            Failure::PacketTooShort { need: 14, got: s.len() as int },
        ),
        s.len() < 8 ==> Cartesian16Point::of(s) == Err::<Cartesian16Point, Failure>(
            Failure::PacketTooShort { need: 8, got: s.len() as int },
        ),
        s.len() < 10 ==> SphericalPoint::of(s) == Err::<SphericalPoint, Failure>(
            Failure::PacketTooShort { need: 10, got: s.len() as int },
        ),
        s.len() < 24 ==> ImuSample::of(s) == Err::<ImuSample, Failure>(
            Failure::PacketTooShort { need: 24, got: s.len() as int },
        ),
{
    bits_keep_their_value(wire::u16_at(s, 0), wire::u32_at(s, 0), 0, 0, 0);
    bits_keep_their_value(wire::u16_at(s, 2), wire::u32_at(s, 4), 0, 0, 0);
    bits_keep_their_value(wire::u16_at(s, 4), wire::u32_at(s, 8), 0, 0, 0);
}

/// Each sample is written to the bytes that its fields stand in.
pub proof fn samples_are_written_to_their_bytes(
    a: Cartesian32Point,
    b: Cartesian16Point,
    c: SphericalPoint,
    d: ImuSample,
)
    ensures
        a.bytes().len() == 14 && is_cartesian32(a, a.bytes(), 0),
        b.bytes().len() == 8 && is_cartesian16(b, b.bytes(), 0),
        c.bytes().len() == 10 && is_spherical(c, c.bytes(), 0),
        d.bytes().len() == 24 && is_imu(d, d.bytes(), 0),
{
    a.round_trip(Seq::empty());
    b.round_trip(Seq::empty());
    c.round_trip(Seq::empty());
    d.round_trip(Seq::empty());
    assert(a.bytes() + Seq::<u8>::empty() == a.bytes());
    assert(b.bytes() + Seq::<u8>::empty() == b.bytes());
    assert(c.bytes() + Seq::<u8>::empty() == c.bytes());
    assert(d.bytes() + Seq::<u8>::empty() == d.bytes());
    samples_are_read_from_their_bytes(a.bytes());
    samples_are_read_from_their_bytes(b.bytes());
    samples_are_read_from_their_bytes(c.bytes());
    samples_are_read_from_their_bytes(d.bytes());
}

/// A point is read in the format that is asked for, and written in its own; an
/// IMU frame holds no points.
pub proof fn points_keep_their_format(s: Seq<u8>, p: Point)
    ensures
        s.len() >= 14 ==> (Point::of(DataType::PointCloudCartesian32, s) matches Ok(q)
            && q is Cartesian32 && is_point(q, s, 0)),
        s.len() >= 8 ==> (Point::of(DataType::PointCloudCartesian16, s) matches Ok(q)
            && q is Cartesian16 && is_point(q, s, 0)),
        s.len() >= 10 ==> (Point::of(DataType::PointCloudSpherical, s) matches Ok(q)
            && q is Spherical && is_point(q, s, 0)),
        Point::of(DataType::Imu, s) == Err::<Point, Failure>(Failure::InvalidDataType(0)),
        p.bytes().len() == point_bytes(p),
        is_point(p, p.bytes(), 0),
        p.format() == DataType::PointCloudCartesian32 <==> p is Cartesian32,
        p.format() == DataType::PointCloudCartesian16 <==> p is Cartesian16,
        p.format() == DataType::PointCloudSpherical <==> p is Spherical,
{
    samples_are_read_from_their_bytes(s);
    match p {
        Point::Cartesian32(q) => {
            q.round_trip(Seq::empty());
            assert(q.bytes() + Seq::<u8>::empty() == q.bytes());
        },
        Point::Cartesian16(q) => {
            q.round_trip(Seq::empty());
            assert(q.bytes() + Seq::<u8>::empty() == q.bytes());
        },
        Point::Spherical(q) => {
            q.round_trip(Seq::empty());
            assert(q.bytes() + Seq::<u8>::empty() == q.bytes());
        },
    }
    samples_are_read_from_their_bytes(p.bytes());
}

/// Bits are those of no number where the exponent is all ones and the fraction
/// is not zero. Nothing equals such bits. Other bits equal themselves, and those
/// with the other sign only where both are zero.
pub proof fn numbers_compare_as_floats(a: u32, b: u32)
    ensures
        points::is_nan(a) <==> (a & 0x7F80_0000 == 0x7F80_0000 && a & 0x007F_FFFF != 0),
        points::is_nan(a) ==> !points::same_number(a, b) && !points::same_number(b, a),
        !points::is_nan(a) ==> points::same_number(a, a),
        points::same_number(a, b) && a != b ==> (a & 0x7FFF_FFFF == 0 && b & 0x7FFF_FFFF == 0),
        a & 0x7FFF_FFFF == 0 && b & 0x7FFF_FFFF == 0 ==> points::same_number(a, b),
{
    assert(a % 0x8000_0000 == a & 0x7FFF_FFFF) by (bit_vector);
    assert(b % 0x8000_0000 == b & 0x7FFF_FFFF) by (bit_vector);
    assert(a % 0x8000_0000 > 0x7F80_0000 <==> (a & 0x7F80_0000 == 0x7F80_0000 && a & 0x007F_FFFF
        != 0)) by (bit_vector);
}

/// Two IMU samples are equal where all six of their components are.
pub proof fn samples_compare_by_their_components(a: ImuSample, b: ImuSample)
    ensures
        a.eq_spec(&b) <==> points::same_number(a.gyro_x, b.gyro_x) && points::same_number(
            a.gyro_y,
            b.gyro_y,
        ) && points::same_number(a.gyro_z, b.gyro_z) && points::same_number(a.acc_x, b.acc_x)
            && points::same_number(a.acc_y, b.acc_y) && points::same_number(a.acc_z, b.acc_z),
{
}

/// The numbers of the data formats and time sources, and the bytes per sample.
pub proof fn format_codes(b: u8)
    ensures
        DataType::Imu.code() == 0 && DataType::Imu.size() == 24,
        DataType::PointCloudCartesian32.code() == 1 && DataType::PointCloudCartesian32.size() == 14,
        DataType::PointCloudCartesian16.code() == 2 && DataType::PointCloudCartesian16.size() == 8,
        DataType::PointCloudSpherical.code() == 3 && DataType::PointCloudSpherical.size() == 10,
        protocol::data_type_of(b) is Some <==> b < 4,
        protocol::data_type_of(b) matches Some(t) ==> t.code() == b,
        DataType::Imu.packet_capacity() == 1,
        forall|t: DataType| t != DataType::Imu ==> #[trigger] t.packet_capacity() == 96,
        TimestampType::NoSync.code() == 0,
        TimestampType::Ptp.code() == 1,
        TimestampType::Gps.code() == 2,
        protocol::timestamp_type_of(b) is Some <==> b < 3,
        protocol::timestamp_type_of(b) matches Some(t) ==> t.code() == b,
{
}

/// The numbers of command frames: who speaks, what about, and with what outcome.
pub proof fn command_codes(b: u8)
    ensures
        CmdType::Req.code() == 0 && CmdType::Ack.code() == 1,
        SenderType::Host.code() == 0 && SenderType::Lidar.code() == 1,
        protocol::cmd_type_of(b) is Some <==> b < 2,
        protocol::cmd_type_of(b) matches Some(t) ==> t.code() == b,
        protocol::sender_type_of(b) is Some <==> b < 2,
        protocol::sender_type_of(b) matches Some(t) ==> t.code() == b,
        LidarState::Sampling.code() == 1,
        LidarState::Idle.code() == 2,
        LidarState::Error.code() == 4,
        LidarState::SelfCheck.code() == 5,
        LidarState::MotorStartup.code() == 6,
        LidarState::Upgrade.code() == 8,
        LidarState::Ready.code() == 9,
        protocol::lidar_state_of(b) is Some <==> b == 1 || b == 2 || b == 4 || b == 5 || b == 6 || b
            == 8 || b == 9,
        protocol::lidar_state_of(b) matches Some(t) ==> t.code() == b,
        ReturnCode::Success.code() == 0,
        ReturnCode::Failure.code() == 1,
        ReturnCode::NotPermitNow.code() == 2,
        ReturnCode::OutOfRange.code() == 3,
        ReturnCode::ParamNotSupport.code() == 0x20,
        ReturnCode::ParamRebootEffect.code() == 0x21,
        ReturnCode::ParamReadOnly.code() == 0x22,
        ReturnCode::ParamInvalidLen.code() == 0x23,
        ReturnCode::ParamKeyNumErr.code() == 0x24,
        ReturnCode::UpgradePubKeyError.code() == 0x30,
        ReturnCode::UpgradeDigestError.code() == 0x31,
        ReturnCode::UpgradeFwTypeError.code() == 0x32,
        ReturnCode::UpgradeFwOutOfRange.code() == 0x33,
        ReturnCode::UpgradeFwErasing.code() == 0x34,
        protocol::return_code_of(b) is Some <==> b <= 3 || 0x20 <= b <= 0x24 || 0x30 <= b <= 0x34,
        protocol::return_code_of(b) matches Some(t) ==> t.code() == b,
        CmdId::Discovery.code() == 0,
        CmdId::ParamConfig.code() == 0x100,
        CmdId::ParamInquire.code() == 0x101,
        CmdId::ParamPush.code() == 0x102,
        CmdId::Reboot.code() == 0x200,
        CmdId::FactoryReset.code() == 0x201,
        CmdId::SetGpsTimestamp.code() == 0x202,
        CmdId::LogFilePush.code() == 0x300,
        CmdId::LogCollectionConfig.code() == 0x301,
        CmdId::LogTimeSync.code() == 0x302,
        CmdId::DebugRawDataConfig.code() == 0x303,
        CmdId::UpgradeStart.code() == 0x400,
        CmdId::UpgradeData.code() == 0x401,
        CmdId::UpgradeComplete.code() == 0x402,
        CmdId::UpgradeState.code() == 0x403,
{
}

/// The numbers of the parameters.
pub proof fn parameter_codes()
    ensures
        ParameterKey::PclDataType.code() == 0,
        ParameterKey::PatternMode.code() == 1,
        ParameterKey::LidarIpCfg.code() == 4,
        ParameterKey::StateInfoHostIpCfg.code() == 5,
        ParameterKey::PointCloudHostIpCfg.code() == 6,
        ParameterKey::ImuHostIpCfg.code() == 7,
        ParameterKey::InstallAttitude.code() == 18,
        ParameterKey::FovCfg0.code() == 21,
        ParameterKey::FovCfg1.code() == 22,
        ParameterKey::FovCfgEn.code() == 23,
        ParameterKey::DetectMode.code() == 24,
        ParameterKey::FuncIoCfg.code() == 25,
        ParameterKey::WorkTgtMode.code() == 26,
        ParameterKey::ImuDataEn.code() == 28,
        ParameterKey::SpeedMode.code() == 33,
        ParameterKey::TimeFilter.code() == 38,
        ParameterKey::Sn.code() == 0x8000,
        ParameterKey::ProductInfo.code() == 0x8001,
        ParameterKey::VersionApp.code() == 0x8002,
        ParameterKey::VersionLoader.code() == 0x8003,
        ParameterKey::VersionHardware.code() == 0x8004,
        ParameterKey::Mac.code() == 0x8005,
        ParameterKey::CurWorkState.code() == 0x8006,
        ParameterKey::CoreTemp.code() == 0x8007,
        ParameterKey::PowerupCnt.code() == 0x8008,
        ParameterKey::LocalTimeNow.code() == 0x8009,
        ParameterKey::LastSyncTime.code() == 0x800A,
        ParameterKey::TimeOffset.code() == 0x800B,
        ParameterKey::TimeSyncType.code() == 0x800C,
        ParameterKey::LidarDiagStatus.code() == 0x800E,
        ParameterKey::FwType.code() == 0x8010,
        ParameterKey::HmsCode.code() == 0x8011,
{
}

/// The bytes of the header that say how the frame is laid out.
pub open spec fn is_header(h: DataFrameHeader, s: Seq<u8>) -> bool {
    &&& h.version == s[0]
    &&& h.length == le2(s, 1)
    &&& h.time_interval == le2(s, 3)
    &&& h.dot_num == le2(s, 5)
    &&& h.udp_cnt == le2(s, 7)
    &&& h.frame_cnt == s[9]
    &&& h.data_type.code() == s[10]
    &&& h.time_type.code() == s[11]
    &&& h.timestamp == le8(s, 28)
}

/// The length that a frame must declare: the header, and one IMU sample or as
/// many points as it counts.
pub open spec fn declared_rightly(s: Seq<u8>) -> bool {
    &&& s[10] == 0 ==> le2(s, 1) == 60
    &&& s[10] == 1 ==> le2(s, 1) == 36 + 14 * le2(s, 5)
    &&& s[10] == 2 ==> le2(s, 1) == 36 + 8 * le2(s, 5)
    &&& s[10] == 3 ==> le2(s, 1) == 36 + 10 * le2(s, 5)
}

/// A frame that is accepted is whole, and its header is in its bytes.
pub proof fn accepted_headers_are_in_the_bytes(s: Seq<u8>)
    ensures
        packet::header_of(s) matches Ok(h) ==> {
            &&& is_header(h, s)
            &&& declared_rightly(s)
            &&& 36 <= h.length <= s.len()
            &&& le4(s, 24) == 0 || le4(s, 24) == crc::crc32_of(s.subrange(28, h.length as int))
        },
{
    assert(usize::MAX >= 0xFFFF_FFFF);
}

/// A frame is accepted wherever it is whole, its codes are known, its length is
/// right for its samples, and its checksum is absent or right.
pub proof fn whole_frames_are_accepted(s: Seq<u8>)
    requires
        36 <= s.len(),
        le2(s, 1) <= s.len(),
        s[10] < 4,
        s[11] < 3,
        declared_rightly(s),
        le4(s, 24) == 0 || le4(s, 24) == crc::crc32_of(s.subrange(28, le2(s, 1))),
    ensures
        packet::header_of(s) is Ok,
        packet::packet_of(s) is Ok,
{
    fields_are_little_endian(s, 1);
    fields_are_little_endian(s, 5);
    fields_are_little_endian(s, 24);
}

/// What is wrong with a frame is found in this order: too short for a header,
/// shorter than it says, an unknown format, an unknown time source on a frame of
/// the right length, and a wrong checksum.
pub proof fn frame_errors(s: Seq<u8>)
    ensures
        s.len() < 36 ==> packet::header_of(s) == Err::<DataFrameHeader, Failure>(
            Failure::PacketTooShort { need: 36, got: s.len() as int },
        ),
        36 <= s.len() < le2(s, 1) ==> packet::header_of(s) == Err::<DataFrameHeader, Failure>(
            Failure::PacketTooShort { need: le2(s, 1), got: s.len() as int },
        ),
        36 <= s.len() && le2(s, 1) <= s.len() && s[10] >= 4 ==> packet::header_of(s) == Err::<
            DataFrameHeader,
            Failure,
        >(Failure::InvalidDataType(s[10])),
        36 <= s.len() && le2(s, 1) <= s.len() && s[10] < 4 && !declared_rightly(s) ==> (
        packet::header_of(s) matches Err(e) && e is ParameterParse),
        36 <= s.len() && 36 <= le2(s, 1) <= s.len() && s[10] < 4 && !declared_rightly(s)
            ==> packet::header_of(s) == Err::<DataFrameHeader, Failure>(
            Failure::ParameterParse(
                packet::length_mismatch(
                    le2(s, 1) - 36,
                    if s[10] == 0 {
                        24
                    } else if s[10] == 1 {
                        14 * le2(s, 5)
                    } else if s[10] == 2 {
                        8 * le2(s, 5)
                    } else {
                        10 * le2(s, 5)
                    },
                ),
            ),
        ),
        36 <= s.len() && le2(s, 1) <= s.len() && s[10] < 4 && declared_rightly(s) && s[11] >= 3
            ==> packet::header_of(s) == Err::<DataFrameHeader, Failure>(
            Failure::InvalidTimestampType(s[11]),
        ),
        36 <= s.len() && le2(s, 1) <= s.len() && s[10] < 4 && declared_rightly(s) && s[11] < 3
            && le4(s, 24) != 0 && le4(s, 24) != crc::crc32_of(s.subrange(28, le2(s, 1)))
            ==> packet::header_of(s) == Err::<DataFrameHeader, Failure>(Failure::CrcMismatch),
        packet::header_of(s) matches Err(e) ==> packet::packet_of(s) == Err::<Packet, Failure>(e),
{
    fields_are_little_endian(s, 1);
    fields_are_little_endian(s, 5);
    fields_are_little_endian(s, 24);
}

/// The message of a wrong length names both lengths, so that different lengths
/// have different messages.
pub proof fn mismatch_names_both_lengths(declared: nat, expected: nat)
    ensures
        ({
            let m = packet::length_mismatch(declared as int, expected as int);
            let a = crate::text::decimal(declared);
            let b = crate::text::decimal(expected);
            &&& m.len() == "payload length mismatch: header says "@.len() + a.len() + ", expected "@.len()
                + b.len()
            &&& m.subrange(
                "payload length mismatch: header says "@.len() as int,
                ("payload length mismatch: header says "@.len() + a.len()) as int,
            ) == a
            &&& m.subrange(m.len() - b.len(), m.len() as int) == b
        }),
{
}

/// The samples of an accepted frame are in its bytes, from byte 36 on and one
/// behind the other, as many as it counts.
pub proof fn accepted_samples_are_in_the_bytes(s: Seq<u8>)
    ensures
        packet::packet_of(s) matches Ok(p) ==> {
            &&& packet::header_of(s) == Ok::<DataFrameHeader, Failure>(p.header)
            &&& s[10] == 0 ==> (p.payload matches Samples::Imu(x) && is_imu(x, s, 36))
            &&& s[10] != 0 ==> (p.payload matches Samples::Points(v) && v.len() == le2(s, 5)
                && forall|i: int|
                0 <= i < v.len() ==> {
                    let x = #[trigger] v[i];
                    &&& s[10] == 1 ==> x is Cartesian32 && is_point(x, s, 36 + 14 * i)
                    &&& s[10] == 2 ==> x is Cartesian16 && is_point(x, s, 36 + 8 * i)
                    &&& s[10] == 3 ==> x is Spherical && is_point(x, s, 36 + 10 * i)
                })
        },
{
    if let Ok(h) = packet::header_of(s) {
        accepted_headers_are_in_the_bytes(s);
        lemma_samples_in_place(h, s);
    }
}

proof fn lemma_samples_in_place(h: DataFrameHeader, s: Seq<u8>)
    requires
        h.data_type.code() == s[10],
        h.dot_num == le2(s, 5),
        declared_rightly(s),
        36 <= le2(s, 1) <= s.len(),
    ensures
        s[10] == 0 ==> (packet::samples_of(h, s) matches Samples::Imu(x) && is_imu(x, s, 36)),
        s[10] != 0 ==> (packet::samples_of(h, s) matches Samples::Points(v) && v.len() == le2(s, 5)
            && forall|i: int|
            0 <= i < v.len() ==> {
                let x = #[trigger] v[i];
                &&& s[10] == 1 ==> x is Cartesian32 && is_point(x, s, 36 + 14 * i)
                &&& s[10] == 2 ==> x is Cartesian16 && is_point(x, s, 36 + 8 * i)
                &&& s[10] == 3 ==> x is Spherical && is_point(x, s, 36 + 10 * i)
            }),
{
    let size = h.data_type.size() as int;
    if h.data_type is Imu {
        let t = s.subrange(36, s.len() as int);
        samples_are_read_from_their_bytes(t);
        lemma_imu_in_place(ImuSample::of(t)->Ok_0, s, 36, t);
    } else {
        let v = packet::samples_of(h, s)->Points_0;
        assert forall|i: int| 0 <= i < v.len() implies {
            let x = #[trigger] v[i];
            &&& s[10] == 1 ==> x is Cartesian32 && is_point(x, s, 36 + 14 * i)
            &&& s[10] == 2 ==> x is Cartesian16 && is_point(x, s, 36 + 8 * i)
            &&& s[10] == 3 ==> x is Spherical && is_point(x, s, 36 + 10 * i)
        } by {
            lemma_point_at(h.data_type, s, i);
        }
    }
}

proof fn lemma_point_at(data_type: DataType, s: Seq<u8>, i: int)
    requires
        !(data_type is Imu),
        0 <= i,
        36 + data_type.size() * i + data_type.size() <= s.len(),
    ensures
        packet::point_at(data_type, s, i).format() == data_type,
        is_point(packet::point_at(data_type, s, i), s, 36 + data_type.size() * i),
{
    let size = data_type.size() as int;
    let at = packet::sample_offset(i, size);
    assert(i * size == size * i && size * i >= 0) by (nonlinear_arith)
        requires
            0 <= i,
            size > 0,
    ;
    let t = s.subrange(at, at + size);
    let p = packet::point_at(data_type, s, i);
    points_keep_their_format(t, p);
    lemma_point_in_place(p, s, at, t);
}

proof fn lemma_imu_in_place(x: ImuSample, s: Seq<u8>, at: int, t: Seq<u8>)
    requires
        0 <= at,
        at + t.len() <= s.len(),
        t == s.subrange(at, at + t.len()),
        t.len() >= 24,
        is_imu(x, t, 0),
    ensures
        is_imu(x, s, at),
{
    assert forall|i: int| 0 <= i < t.len() implies t[i] == s[at + i] by {}
}

proof fn lemma_point_in_place(p: Point, s: Seq<u8>, at: int, t: Seq<u8>)
    requires
        0 <= at,
        at + t.len() <= s.len(),
        t == s.subrange(at, at + t.len()),
        t.len() >= point_bytes(p),
        is_point(p, t, 0),
    ensures
        is_point(p, s, at),
{
    assert forall|i: int| 0 <= i < t.len() implies t[i] == s[at + i] by {}
}

/// A built frame carries its checksum, its reserved bytes are zero, and the
/// buffer behind it is as it was.
pub proof fn built_frames_are_sealed(header: DataFrameHeader, payload: Samples, s: Seq<u8>)
    requires
        packet::describes(header, payload),
        packet::DATA_HEADER_SIZE + packet::payload_size(header, payload) <= s.len(),
    ensures
        ({
            let total = packet::DATA_HEADER_SIZE + packet::payload_size(header, payload);
            let out = packet::built(header, payload, s).1;
            &&& out.len() == s.len()
            &&& le4(out, 24) == crc::crc32_of(out.subrange(28, total))
            &&& forall|i: int| 12 <= i < 24 ==> out[i] == 0
            &&& forall|i: int| total <= i < s.len() ==> out[i] == s[i]
            &&& is_header(DataFrameHeader { length: total as u16, ..header }, out)
            &&& 36 <= total <= 0xFFFF
            &&& declared_rightly(out)
        }),
{
    let total = packet::DATA_HEADER_SIZE + packet::payload_size(header, payload);
    let out = packet::built(header, payload, s).1;
    packet::lemma_built(header, payload, s);
    lemma_reserved(header, total as nat);
    packet::packet_round_trip(header, payload, s, total);
    let frame = out.subrange(0, total);
    accepted_headers_are_in_the_bytes(frame);
    assert forall|i: int| 0 <= i < total implies frame[i] == out[i] by {}
}

proof fn lemma_reserved(header: DataFrameHeader, total: nat)
    ensures
        forall|i: int| 12 <= i < 24 ==> header.bytes(total)[i] == 0,
{
    reveal(DataFrameHeader::bytes);
}

/// A header is written to the first 36 bytes, with zeros where the checksum will
/// be, and the rest of the buffer stays. A buffer that is too small for the frame
/// is refused and stays as it is.
pub proof fn headers_are_written_to_their_bytes(
    header: DataFrameHeader,
    s: Seq<u8>,
    payload_len: int,
)
    requires
        0 <= payload_len,
    ensures
        s.len() < 36 + payload_len ==> header.headed(s, payload_len) == (
            Err::<(), Failure>(Failure::BufferTooSmall),
            s,
        ),
        s.len() >= 36 + payload_len ==> {
            let (r, out) = header.headed(s, payload_len);
            &&& r == Ok::<(), Failure>(())
            &&& out.len() == s.len()
            &&& is_header(
                DataFrameHeader { length: ((36 + payload_len) % 0x1_0000) as u16, ..header },
                out,
            )
            &&& forall|i: int| 12 <= i < 28 ==> out[i] == 0
            &&& forall|i: int| 36 <= i < s.len() ==> out[i] == s[i]
        },
{
    let total = (36 + payload_len) as nat;
    let b = header.bytes(total);
    lemma_header_bytes(header, total);
    if s.len() >= 36 + payload_len {
        let out = header.headed(s, payload_len).1;
        assert forall|i: int| 0 <= i < 36 implies out[i] == b[i] by {}
    }
}

proof fn lemma_header_bytes(header: DataFrameHeader, total: nat)
    ensures
        header.bytes(total).len() == 36,
        is_header(
            DataFrameHeader { length: (total % 0x1_0000) as u16, ..header },
            header.bytes(total),
        ),
        forall|i: int| 12 <= i < 28 ==> header.bytes(total)[i] == 0,
{
    reveal(DataFrameHeader::bytes);
    let b = header.bytes(total);
    assert(b[1] == wire::u16_bytes(wire::low16(total))[0] && b[2] == wire::u16_bytes(
        wire::low16(total),
    )[1]);
    wire::lemma_u16_stands(b, 1, wire::low16(total));
    assert(b[3] == wire::u16_bytes(header.time_interval)[0] && b[4] == wire::u16_bytes(
        header.time_interval,
    )[1]);
    wire::lemma_u16_stands(b, 3, header.time_interval);
    assert(b[5] == wire::u16_bytes(header.dot_num)[0] && b[6] == wire::u16_bytes(
        header.dot_num,
    )[1]);
    wire::lemma_u16_stands(b, 5, header.dot_num);
    assert(b[7] == wire::u16_bytes(header.udp_cnt)[0] && b[8] == wire::u16_bytes(
        header.udp_cnt,
    )[1]);
    wire::lemma_u16_stands(b, 7, header.udp_cnt);
    assert(b.subrange(28, 36) == wire::u64_bytes(header.timestamp));
    wire::lemma_u64_stands(b, 28, header.timestamp);
    fields_are_little_endian(b, 28);
}

/// A buffer that is too small for the frame is refused and left as it is.
pub proof fn small_buffers_are_refused(header: DataFrameHeader, payload: Samples, s: Seq<u8>)
    requires
        payload matches Samples::Points(points) ==> s.len() < 36 + header.data_type.size()
            * points.len(),
        payload is Imu ==> s.len() < 60,
    ensures
        packet::built(header, payload, s) == (
            Err::<(), Failure>(Failure::BufferTooSmall),
            s,
        ),
{
}

} // verus!
