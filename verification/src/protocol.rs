//! Constants and enumerations of the MID360 protocol.

use vstd::prelude::*;
use vstd::std_specs::convert::TryFromSpecImpl;

use crate::error::LidarError;
use crate::net::{self, Ipv4Addr, SocketAddr};

verus! {

// Sensor-side ports.
pub const DISCOVERY_PORT: u16 = 56000;
pub const CMD_PORT: u16 = 56100;
pub const PUSH_PORT: u16 = 56200;
pub const DATA_PORT: u16 = 56300;
pub const IMU_PORT: u16 = 56400;
pub const LOG_PORT: u16 = 56500;

// Host-side ports.
pub const HOST_CMD_PORT: u16 = 56101;
pub const HOST_PUSH_PORT: u16 = 56201;
pub const HOST_DATA_PORT: u16 = 56301;
pub const HOST_IMU_PORT: u16 = 56401;
pub const HOST_LOG_PORT: u16 = 56501;

/// First byte of every command frame.
pub const SOF: u8 = 0xAA;
pub const PROTOCOL_VERSION: u8 = 0;

/// Payload formats of a data frame.
#[derive(Debug, Clone, Copy, PartialEq, Eq, Structural)]
pub enum DataType {
    Imu,
    PointCloudCartesian32,
    PointCloudCartesian16,
    PointCloudSpherical,
}

/// The DataType with wire code `b`, if there is one.
pub open spec fn data_type_of(b: u8) -> Option<DataType> {
    match b {
        0x00 => Some(DataType::Imu),
        0x01 => Some(DataType::PointCloudCartesian32),
        0x02 => Some(DataType::PointCloudCartesian16),
        0x03 => Some(DataType::PointCloudSpherical),
        _ => None,
    }
}

impl DataType {
    /// The wire code.
    pub open spec fn code(self) -> u8 {
        match self {
            DataType::Imu => 0x00,
            DataType::PointCloudCartesian32 => 0x01,
            DataType::PointCloudCartesian16 => 0x02,
            DataType::PointCloudSpherical => 0x03,
        }
    }

    /// The wire code.
    pub fn as_u8(self) -> (b: u8)
        ensures
            b == self.code(),
            data_type_of(b) == Some(self),
    {
        match self {
            DataType::Imu => 0x00,
            DataType::PointCloudCartesian32 => 0x01,
            DataType::PointCloudCartesian16 => 0x02,
            DataType::PointCloudSpherical => 0x03,
        }
    }

    /// How many samples a full packet holds.
    pub open spec fn packet_capacity(self) -> nat {
        if self is Imu {
            1
        } else {
            96
        }
    }

    /// Bytes per sample.
    pub open spec fn size(self) -> nat {
        match self {
            DataType::Imu => 24,
            DataType::PointCloudCartesian32 => 14,
            DataType::PointCloudCartesian16 => 8,
            DataType::PointCloudSpherical => 10,
        }
    }

    pub fn points_per_packet(self) -> (n: usize)
        ensures
            n == self.packet_capacity(),
    {
        match self {
            DataType::Imu => 1,
            DataType::PointCloudCartesian32 => 96,
            DataType::PointCloudCartesian16 => 96,
            DataType::PointCloudSpherical => 96,
        }
    }

    pub fn point_size(self) -> (n: usize)
        ensures
            n == self.size(),
    {
        match self {
            DataType::Imu => 24,
            DataType::PointCloudCartesian32 => 14,
            DataType::PointCloudCartesian16 => 8,
            DataType::PointCloudSpherical => 10,
        }
    }
}

impl TryFromSpecImpl<u8> for DataType {
    open spec fn obeys_try_from_spec() -> bool {
        true
    }

    open spec fn try_from_spec(value: u8) -> Result<Self, LidarError> {
        match data_type_of(value) {
            Some(v) => Ok(v),
            None => Err(LidarError::InvalidDataType(value)),
        }
    }
}

impl TryFrom<u8> for DataType {
    type Error = LidarError;

    fn try_from(value: u8) -> Result<Self, LidarError> {
        match value {
            0x00 => Ok(DataType::Imu),
            0x01 => Ok(DataType::PointCloudCartesian32),
            0x02 => Ok(DataType::PointCloudCartesian16),
            0x03 => Ok(DataType::PointCloudSpherical),
            other => Err(LidarError::InvalidDataType(other)),
        }
    }
}

/// Clock that a frame's timestamp comes from.
#[derive(Debug, Clone, Copy, PartialEq, Eq, Structural)]
pub enum TimestampType {
    NoSync,
    Ptp,
    Gps,
}

/// The TimestampType with wire code `b`, if there is one.
pub open spec fn timestamp_type_of(b: u8) -> Option<TimestampType> {
    match b {
        0x00 => Some(TimestampType::NoSync),
        0x01 => Some(TimestampType::Ptp),
        0x02 => Some(TimestampType::Gps),
        _ => None,
    }
}

impl TimestampType {
    /// The wire code.
    pub open spec fn code(self) -> u8 {
        match self {
            TimestampType::NoSync => 0x00,
            TimestampType::Ptp => 0x01,
            TimestampType::Gps => 0x02,
        }
    }

    /// The wire code.
    pub fn as_u8(self) -> (b: u8)
        ensures
            b == self.code(),
            timestamp_type_of(b) == Some(self),
    {
        match self {
            TimestampType::NoSync => 0x00,
            TimestampType::Ptp => 0x01,
            TimestampType::Gps => 0x02,
        }
    }
}

impl TryFromSpecImpl<u8> for TimestampType {
    open spec fn obeys_try_from_spec() -> bool {
        true
    }

    open spec fn try_from_spec(value: u8) -> Result<Self, LidarError> {
        match timestamp_type_of(value) {
            Some(v) => Ok(v),
            None => Err(LidarError::InvalidTimestampType(value)),
        }
    }
}

impl TryFrom<u8> for TimestampType {
    type Error = LidarError;

    fn try_from(value: u8) -> Result<Self, LidarError> {
        match value {
            0x00 => Ok(TimestampType::NoSync),
            0x01 => Ok(TimestampType::Ptp),
            0x02 => Ok(TimestampType::Gps),
            other => Err(LidarError::InvalidTimestampType(other)),
        }
    }
}

/// Direction of a command.
#[derive(Debug, Clone, Copy, PartialEq, Eq, Structural)]
pub enum CmdType {
    Req,
    Ack,
}

/// The CmdType with wire code `b`, if there is one.
pub open spec fn cmd_type_of(b: u8) -> Option<CmdType> {
    match b {
        0x00 => Some(CmdType::Req),
        0x01 => Some(CmdType::Ack),
        _ => None,
    }
}

impl CmdType {
    /// The wire code.
    pub open spec fn code(self) -> u8 {
        match self {
            CmdType::Req => 0x00,
            CmdType::Ack => 0x01,
        }
    }

    /// The wire code.
    pub fn as_u8(self) -> (b: u8)
        ensures
            b == self.code(),
            cmd_type_of(b) == Some(self),
    {
        match self {
            CmdType::Req => 0x00,
            CmdType::Ack => 0x01,
        }
    }
}

impl TryFromSpecImpl<u8> for CmdType {
    open spec fn obeys_try_from_spec() -> bool {
        true
    }

    open spec fn try_from_spec(value: u8) -> Result<Self, LidarError> {
        match cmd_type_of(value) {
            Some(v) => Ok(v),
            None => Err(LidarError::InvalidCmdType(value)),
        }
    }
}

impl TryFrom<u8> for CmdType {
    type Error = LidarError;

    fn try_from(value: u8) -> Result<Self, LidarError> {
        match value {
            0x00 => Ok(CmdType::Req),
            0x01 => Ok(CmdType::Ack),
            other => Err(LidarError::InvalidCmdType(other)),
        }
    }
}

/// Who sent a command.
#[derive(Debug, Clone, Copy, PartialEq, Eq, Structural)]
pub enum SenderType {
    Host,
    Lidar,
}

/// The SenderType with wire code `b`, if there is one.
pub open spec fn sender_type_of(b: u8) -> Option<SenderType> {
    match b {
        0x00 => Some(SenderType::Host),
        0x01 => Some(SenderType::Lidar),
        _ => None,
    }
}

impl SenderType {
    /// The wire code.
    pub open spec fn code(self) -> u8 {
        match self {
            SenderType::Host => 0x00,
            SenderType::Lidar => 0x01,
        }
    }

    /// The wire code.
    pub fn as_u8(self) -> (b: u8)
        ensures
            b == self.code(),
            sender_type_of(b) == Some(self),
    {
        match self {
            SenderType::Host => 0x00,
            SenderType::Lidar => 0x01,
        }
    }
}

impl TryFromSpecImpl<u8> for SenderType {
    open spec fn obeys_try_from_spec() -> bool {
        true
    }

    open spec fn try_from_spec(value: u8) -> Result<Self, LidarError> {
        match sender_type_of(value) {
            Some(v) => Ok(v),
            None => Err(LidarError::InvalidSenderType(value)),
        }
    }
}

impl TryFrom<u8> for SenderType {
    type Error = LidarError;

    fn try_from(value: u8) -> Result<Self, LidarError> {
        match value {
            0x00 => Ok(SenderType::Host),
            0x01 => Ok(SenderType::Lidar),
            other => Err(LidarError::InvalidSenderType(other)),
        }
    }
}

/// Working states of the sensor.
#[derive(Debug, Clone, Copy, PartialEq, Eq, Structural)]
pub enum LidarState {
    Sampling,
    Idle,
    Error,
    SelfCheck,
    MotorStartup,
    Upgrade,
    Ready,
}

/// The LidarState with wire code `b`, if there is one.
pub open spec fn lidar_state_of(b: u8) -> Option<LidarState> {
    match b {
        0x01 => Some(LidarState::Sampling),
        0x02 => Some(LidarState::Idle),
        0x04 => Some(LidarState::Error),
        0x05 => Some(LidarState::SelfCheck),
        0x06 => Some(LidarState::MotorStartup),
        0x08 => Some(LidarState::Upgrade),
        0x09 => Some(LidarState::Ready),
        _ => None,
    }
}

impl LidarState {
    /// The wire code.
    pub open spec fn code(self) -> u8 {
        match self {
            LidarState::Sampling => 0x01,
            LidarState::Idle => 0x02,
            LidarState::Error => 0x04,
            LidarState::SelfCheck => 0x05,
            LidarState::MotorStartup => 0x06,
            LidarState::Upgrade => 0x08,
            LidarState::Ready => 0x09,
        }
    }

    /// The wire code.
    pub fn as_u8(self) -> (b: u8)
        ensures
            b == self.code(),
            lidar_state_of(b) == Some(self),
    {
        match self {
            LidarState::Sampling => 0x01,
            LidarState::Idle => 0x02,
            LidarState::Error => 0x04,
            LidarState::SelfCheck => 0x05,
            LidarState::MotorStartup => 0x06,
            LidarState::Upgrade => 0x08,
            LidarState::Ready => 0x09,
        }
    }
}

impl TryFromSpecImpl<u8> for LidarState {
    open spec fn obeys_try_from_spec() -> bool {
        true
    }

    open spec fn try_from_spec(value: u8) -> Result<Self, LidarError> {
        match lidar_state_of(value) {
            Some(v) => Ok(v),
            None => Err(LidarError::InvalidLidarState(value)),
        }
    }
}

impl TryFrom<u8> for LidarState {
    type Error = LidarError;

    fn try_from(value: u8) -> Result<Self, LidarError> {
        match value {
            0x01 => Ok(LidarState::Sampling),
            0x02 => Ok(LidarState::Idle),
            0x04 => Ok(LidarState::Error),
            0x05 => Ok(LidarState::SelfCheck),
            0x06 => Ok(LidarState::MotorStartup),
            0x08 => Ok(LidarState::Upgrade),
            0x09 => Ok(LidarState::Ready),
            other => Err(LidarError::InvalidLidarState(other)),
        }
    }
}

/// Outcome codes in acknowledgements.
#[derive(Debug, Clone, Copy, PartialEq, Eq, Structural)]
pub enum ReturnCode {
    Success,
    Failure,
    NotPermitNow,
    OutOfRange,
    ParamNotSupport,
    ParamRebootEffect,
    ParamReadOnly,
    ParamInvalidLen,
    ParamKeyNumErr,
    UpgradePubKeyError,
    UpgradeDigestError,
    UpgradeFwTypeError,
    UpgradeFwOutOfRange,
    UpgradeFwErasing,
}

/// The ReturnCode with wire code `b`, if there is one.
pub open spec fn return_code_of(b: u8) -> Option<ReturnCode> {
    match b {
        0x00 => Some(ReturnCode::Success),
        0x01 => Some(ReturnCode::Failure),
        0x02 => Some(ReturnCode::NotPermitNow),
        0x03 => Some(ReturnCode::OutOfRange),
        0x20 => Some(ReturnCode::ParamNotSupport),
        0x21 => Some(ReturnCode::ParamRebootEffect),
        0x22 => Some(ReturnCode::ParamReadOnly),
        0x23 => Some(ReturnCode::ParamInvalidLen),
        0x24 => Some(ReturnCode::ParamKeyNumErr),
        0x30 => Some(ReturnCode::UpgradePubKeyError),
        0x31 => Some(ReturnCode::UpgradeDigestError),
        0x32 => Some(ReturnCode::UpgradeFwTypeError),
        0x33 => Some(ReturnCode::UpgradeFwOutOfRange),
        0x34 => Some(ReturnCode::UpgradeFwErasing),
        _ => None,
    }
}

impl ReturnCode {
    /// The wire code.
    pub open spec fn code(self) -> u8 {
        match self {
            ReturnCode::Success => 0x00,
            ReturnCode::Failure => 0x01,
            ReturnCode::NotPermitNow => 0x02,
            ReturnCode::OutOfRange => 0x03,
            ReturnCode::ParamNotSupport => 0x20,
            ReturnCode::ParamRebootEffect => 0x21,
            ReturnCode::ParamReadOnly => 0x22,
            ReturnCode::ParamInvalidLen => 0x23,
            ReturnCode::ParamKeyNumErr => 0x24,
            ReturnCode::UpgradePubKeyError => 0x30,
            ReturnCode::UpgradeDigestError => 0x31,
            ReturnCode::UpgradeFwTypeError => 0x32,
            ReturnCode::UpgradeFwOutOfRange => 0x33,
            ReturnCode::UpgradeFwErasing => 0x34,
        }
    }

    /// The wire code.
    pub fn as_u8(self) -> (b: u8)
        ensures
            b == self.code(),
            return_code_of(b) == Some(self),
    {
        match self {
            ReturnCode::Success => 0x00,
            ReturnCode::Failure => 0x01,
            ReturnCode::NotPermitNow => 0x02,
            ReturnCode::OutOfRange => 0x03,
            ReturnCode::ParamNotSupport => 0x20,
            ReturnCode::ParamRebootEffect => 0x21,
            ReturnCode::ParamReadOnly => 0x22,
            ReturnCode::ParamInvalidLen => 0x23,
            ReturnCode::ParamKeyNumErr => 0x24,
            ReturnCode::UpgradePubKeyError => 0x30,
            ReturnCode::UpgradeDigestError => 0x31,
            ReturnCode::UpgradeFwTypeError => 0x32,
            ReturnCode::UpgradeFwOutOfRange => 0x33,
            ReturnCode::UpgradeFwErasing => 0x34,
        }
    }
}

impl TryFromSpecImpl<u8> for ReturnCode {
    open spec fn obeys_try_from_spec() -> bool {
        true
    }

    open spec fn try_from_spec(value: u8) -> Result<Self, LidarError> {
        match return_code_of(value) {
            Some(v) => Ok(v),
            None => Err(LidarError::InvalidReturnCode(value)),
        }
    }
}

impl TryFrom<u8> for ReturnCode {
    type Error = LidarError;

    fn try_from(value: u8) -> Result<Self, LidarError> {
        match value {
            0x00 => Ok(ReturnCode::Success),
            0x01 => Ok(ReturnCode::Failure),
            0x02 => Ok(ReturnCode::NotPermitNow),
            0x03 => Ok(ReturnCode::OutOfRange),
            0x20 => Ok(ReturnCode::ParamNotSupport),
            0x21 => Ok(ReturnCode::ParamRebootEffect),
            0x22 => Ok(ReturnCode::ParamReadOnly),
            0x23 => Ok(ReturnCode::ParamInvalidLen),
            0x24 => Ok(ReturnCode::ParamKeyNumErr),
            0x30 => Ok(ReturnCode::UpgradePubKeyError),
            0x31 => Ok(ReturnCode::UpgradeDigestError),
            0x32 => Ok(ReturnCode::UpgradeFwTypeError),
            0x33 => Ok(ReturnCode::UpgradeFwOutOfRange),
            0x34 => Ok(ReturnCode::UpgradeFwErasing),
            other => Err(LidarError::InvalidReturnCode(other)),
        }
    }
}

/// Command identifiers.
#[derive(Debug, Clone, Copy, PartialEq, Eq, Structural)]
pub enum CmdId {
    Discovery,
    ParamConfig,
    ParamInquire,
    ParamPush,
    Reboot,
    FactoryReset,
    SetGpsTimestamp,
    LogFilePush,
    LogCollectionConfig,
    LogTimeSync,
    DebugRawDataConfig,
    UpgradeStart,
    UpgradeData,
    UpgradeComplete,
    UpgradeState,
}

impl CmdId {
    /// The wire code.
    pub open spec fn code(self) -> u16 {
        match self {
            CmdId::Discovery => 0x0000,
            CmdId::ParamConfig => 0x0100,
            CmdId::ParamInquire => 0x0101,
            CmdId::ParamPush => 0x0102,
            CmdId::Reboot => 0x0200,
            CmdId::FactoryReset => 0x0201,
            CmdId::SetGpsTimestamp => 0x0202,
            CmdId::LogFilePush => 0x0300,
            CmdId::LogCollectionConfig => 0x0301,
            CmdId::LogTimeSync => 0x0302,
            CmdId::DebugRawDataConfig => 0x0303,
            CmdId::UpgradeStart => 0x0400,
            CmdId::UpgradeData => 0x0401,
            CmdId::UpgradeComplete => 0x0402,
            CmdId::UpgradeState => 0x0403,
        }
    }

    pub fn as_u16(self) -> (b: u16)
        ensures
            b == self.code(),
    {
        match self {
            CmdId::Discovery => 0x0000,
            CmdId::ParamConfig => 0x0100,
            CmdId::ParamInquire => 0x0101,
            CmdId::ParamPush => 0x0102,
            CmdId::Reboot => 0x0200,
            CmdId::FactoryReset => 0x0201,
            CmdId::SetGpsTimestamp => 0x0202,
            CmdId::LogFilePush => 0x0300,
            CmdId::LogCollectionConfig => 0x0301,
            CmdId::LogTimeSync => 0x0302,
            CmdId::DebugRawDataConfig => 0x0303,
            CmdId::UpgradeStart => 0x0400,
            CmdId::UpgradeData => 0x0401,
            CmdId::UpgradeComplete => 0x0402,
            CmdId::UpgradeState => 0x0403,
        }
    }
}

/// Parameter keys used in key/value configuration and inquiry commands.
#[derive(Debug, Clone, Copy, PartialEq, Eq, Structural)]
pub enum ParameterKey {
    PclDataType,
    PatternMode,
    LidarIpCfg,
    StateInfoHostIpCfg,
    PointCloudHostIpCfg,
    ImuHostIpCfg,
    InstallAttitude,
    FovCfg0,
    FovCfg1,
    FovCfgEn,
    DetectMode,
    FuncIoCfg,
    WorkTgtMode,
    ImuDataEn,
    SpeedMode,
    TimeFilter,
    Sn,
    ProductInfo,
    VersionApp,
    VersionLoader,
    VersionHardware,
    Mac,
    CurWorkState,
    CoreTemp,
    PowerupCnt,
    LocalTimeNow,
    LastSyncTime,
    TimeOffset,
    TimeSyncType,
    LidarDiagStatus,
    FwType,
    HmsCode,
}

impl ParameterKey {
    /// The wire code.
    pub open spec fn code(self) -> u16 {
        match self {
            ParameterKey::PclDataType => 0x0000,
            ParameterKey::PatternMode => 0x0001,
            ParameterKey::LidarIpCfg => 0x0004,
            ParameterKey::StateInfoHostIpCfg => 0x0005,
            ParameterKey::PointCloudHostIpCfg => 0x0006,
            ParameterKey::ImuHostIpCfg => 0x0007,
            ParameterKey::InstallAttitude => 0x0012,
            ParameterKey::FovCfg0 => 0x0015,
            ParameterKey::FovCfg1 => 0x0016,
            ParameterKey::FovCfgEn => 0x0017,
            ParameterKey::DetectMode => 0x0018,
            ParameterKey::FuncIoCfg => 0x0019,
            ParameterKey::WorkTgtMode => 0x001A,
            ParameterKey::ImuDataEn => 0x001C,
            ParameterKey::SpeedMode => 0x0021,
            ParameterKey::TimeFilter => 0x0026,
            ParameterKey::Sn => 0x8000,
            ParameterKey::ProductInfo => 0x8001,
            ParameterKey::VersionApp => 0x8002,
            ParameterKey::VersionLoader => 0x8003,
            ParameterKey::VersionHardware => 0x8004,
            ParameterKey::Mac => 0x8005,
            ParameterKey::CurWorkState => 0x8006,
            ParameterKey::CoreTemp => 0x8007,
            ParameterKey::PowerupCnt => 0x8008,
            ParameterKey::LocalTimeNow => 0x8009,
            ParameterKey::LastSyncTime => 0x800A,
            ParameterKey::TimeOffset => 0x800B,
            ParameterKey::TimeSyncType => 0x800C,
            ParameterKey::LidarDiagStatus => 0x800E,
            ParameterKey::FwType => 0x8010,
            ParameterKey::HmsCode => 0x8011,
        }
    }

    pub fn as_u16(self) -> (b: u16)
        ensures
            b == self.code(),
    {
        match self {
            ParameterKey::PclDataType => 0x0000,
            ParameterKey::PatternMode => 0x0001,
            ParameterKey::LidarIpCfg => 0x0004,
            ParameterKey::StateInfoHostIpCfg => 0x0005,
            ParameterKey::PointCloudHostIpCfg => 0x0006,
            ParameterKey::ImuHostIpCfg => 0x0007,
            ParameterKey::InstallAttitude => 0x0012,
            ParameterKey::FovCfg0 => 0x0015,
            ParameterKey::FovCfg1 => 0x0016,
            ParameterKey::FovCfgEn => 0x0017,
            ParameterKey::DetectMode => 0x0018,
            ParameterKey::FuncIoCfg => 0x0019,
            ParameterKey::WorkTgtMode => 0x001A,
            ParameterKey::ImuDataEn => 0x001C,
            ParameterKey::SpeedMode => 0x0021,
            ParameterKey::TimeFilter => 0x0026,
            ParameterKey::Sn => 0x8000,
            ParameterKey::ProductInfo => 0x8001,
            ParameterKey::VersionApp => 0x8002,
            ParameterKey::VersionLoader => 0x8003,
            ParameterKey::VersionHardware => 0x8004,
            ParameterKey::Mac => 0x8005,
            ParameterKey::CurWorkState => 0x8006,
            ParameterKey::CoreTemp => 0x8007,
            ParameterKey::PowerupCnt => 0x8008,
            ParameterKey::LocalTimeNow => 0x8009,
            ParameterKey::LastSyncTime => 0x800A,
            ParameterKey::TimeOffset => 0x800B,
            ParameterKey::TimeSyncType => 0x800C,
            ParameterKey::LidarDiagStatus => 0x800E,
            ParameterKey::FwType => 0x8010,
            ParameterKey::HmsCode => 0x8011,
        }
    }
}

/// Reading a wire code gives back the value it was written from, and every
/// code that can be read is the code of what was read.
pub proof fn byte_codes_round_trip(
    data_type: DataType,
    timestamp_type: TimestampType,
    cmd_type: CmdType,
    sender_type: SenderType,
    lidar_state: LidarState,
    return_code: ReturnCode,
    b: u8,
)
    ensures
        data_type_of(data_type.code()) == Some(data_type),
        timestamp_type_of(timestamp_type.code()) == Some(timestamp_type),
        cmd_type_of(cmd_type.code()) == Some(cmd_type),
        sender_type_of(sender_type.code()) == Some(sender_type),
        lidar_state_of(lidar_state.code()) == Some(lidar_state),
        return_code_of(return_code.code()) == Some(return_code),
        data_type_of(b) matches Some(v) ==> v.code() == b,
        timestamp_type_of(b) matches Some(v) ==> v.code() == b,
        cmd_type_of(b) matches Some(v) ==> v.code() == b,
        sender_type_of(b) matches Some(v) ==> v.code() == b,
        lidar_state_of(b) matches Some(v) ==> v.code() == b,
        return_code_of(b) matches Some(v) ==> v.code() == b,
{
}

/// No two commands and no two parameters share a code.
pub proof fn word_codes_are_distinct(c1: CmdId, c2: CmdId, k1: ParameterKey, k2: ParameterKey)
    ensures
        c1.code() == c2.code() ==> c1 == c2,
        k1.code() == k2.code() ==> k1 == k2,
{
}

/// The host sockets for one sensor, each with the sensor port that it talks to.
pub open spec fn host_sockets(bind_ip: Ipv4Addr) -> Seq<(SocketAddr, u16)> {
    seq![
        (net::ipv4_socket(bind_ip, HOST_CMD_PORT), CMD_PORT),
        (net::ipv4_socket(bind_ip, HOST_PUSH_PORT), PUSH_PORT),
        (net::ipv4_socket(bind_ip, HOST_DATA_PORT), DATA_PORT),
        (net::ipv4_socket(bind_ip, HOST_IMU_PORT), IMU_PORT),
    ]
}

/// Recommended host sockets for one sensor, each with the sensor port that it
/// talks to: commands, pushed state, point data and IMU data.
pub fn default_host_sockets(bind_ip: Ipv4Addr) -> (sockets: [(SocketAddr, u16); 4])
    ensures
        sockets@ == seq![
            (net::ipv4_socket(bind_ip, HOST_CMD_PORT), CMD_PORT),
            (net::ipv4_socket(bind_ip, HOST_PUSH_PORT), PUSH_PORT),
            (net::ipv4_socket(bind_ip, HOST_DATA_PORT), DATA_PORT),
            (net::ipv4_socket(bind_ip, HOST_IMU_PORT), IMU_PORT),
        ],
        sockets@ == host_sockets(bind_ip),
{
    [
        (SocketAddr::v4(bind_ip, HOST_CMD_PORT), CMD_PORT),
        (SocketAddr::v4(bind_ip, HOST_PUSH_PORT), PUSH_PORT),
        (SocketAddr::v4(bind_ip, HOST_DATA_PORT), DATA_PORT),
        (SocketAddr::v4(bind_ip, HOST_IMU_PORT), IMU_PORT),
    ]
}

} // verus!
