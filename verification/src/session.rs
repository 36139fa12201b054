//! Configuration and samples of a live session.

use vstd::prelude::*;
use vstd::std_specs::convert::TryFromSpecImpl;

use crate::client::{self, point_format, stream_destinations, work_mode};
use crate::error::{self, Failure, LidarError};
use crate::net::{self, Ipv4Addr, SocketAddr};
use crate::packet::{DataFrameHeader, DataPacket, DataPayload};
use crate::points::{ImuSample, Point};
use crate::protocol::{
    DataType, LidarState, ParameterKey, CMD_PORT, HOST_CMD_PORT, HOST_DATA_PORT, HOST_IMU_PORT,
};

verus! {

/// Default time to wait for a command acknowledgement, in nanoseconds.
pub const DEFAULT_COMMAND_TIMEOUT: u128 = 2_000_000_000;

/// Options for opening a live MID360 session.
#[derive(Debug, Clone, Copy, PartialEq)]
pub struct LiveConfig {
    pub host_ip: Ipv4Addr,
    pub lidar_ip: Ipv4Addr,
    pub data_type: DataType,
    /// How long to wait for each acknowledgement, in nanoseconds.
    pub command_timeout: u128,
    pub lidar_cmd_port: u16,
    pub cmd_bind: SocketAddr,
    pub data_bind: SocketAddr,
    pub imu_bind: SocketAddr,
    pub data_dst: SocketAddr,
    pub imu_dst: SocketAddr,
}

/// The port that was chosen, or the default.
pub open spec fn port_or(port: Option<u16>, default_port: u16) -> u16 {
    match port {
        Some(p) => p,
        None => default_port,
    }
}

/// The configuration with the given ports; where one is missing, the default.
/// Data and IMU packets go to the ports that they are received on.
pub open spec fn config_with(
    host_ip: Ipv4Addr,
    lidar_ip: Ipv4Addr,
    lidar_cmd_port: Option<u16>,
    cmd_port: Option<u16>,
    data_port: Option<u16>,
    imu_port: Option<u16>,
) -> LiveConfig {
    LiveConfig {
        host_ip,
        lidar_ip,
        data_type: DataType::PointCloudCartesian32,
        command_timeout: DEFAULT_COMMAND_TIMEOUT,
        lidar_cmd_port: port_or(lidar_cmd_port, CMD_PORT),
        cmd_bind: net::ipv4_socket(host_ip, port_or(cmd_port, HOST_CMD_PORT)),
        data_bind: net::ipv4_socket(host_ip, port_or(data_port, HOST_DATA_PORT)),
        imu_bind: net::ipv4_socket(host_ip, port_or(imu_port, HOST_IMU_PORT)),
        data_dst: net::ipv4_socket(host_ip, port_or(data_port, HOST_DATA_PORT)),
        imu_dst: net::ipv4_socket(host_ip, port_or(imu_port, HOST_IMU_PORT)),
    }
}

/// What a session refuses before it opens any socket: the sensor needs a
/// concrete address to send to.
pub open spec fn host_check(host_ip: Ipv4Addr) -> Result<(), Failure> {
    if host_ip == net::ipv4(0, 0, 0, 0) {
        Err(Failure::InvalidHost)
    } else {
        Ok(())
    }
}

impl LiveConfig {
    /// Default host ports, Cartesian32 points, IMU enabled, 2 s command timeout.
    pub fn new(host_ip: Ipv4Addr, lidar_ip: Ipv4Addr) -> (config: Self)
        ensures
            config == config_with(host_ip, lidar_ip, None, None, None, None),
    {
        LiveConfig {
            host_ip,
            lidar_ip,
            data_type: DataType::PointCloudCartesian32,
            command_timeout: DEFAULT_COMMAND_TIMEOUT,
            lidar_cmd_port: CMD_PORT,
            cmd_bind: SocketAddr::v4(host_ip, HOST_CMD_PORT),
            data_bind: SocketAddr::v4(host_ip, HOST_DATA_PORT),
            imu_bind: SocketAddr::v4(host_ip, HOST_IMU_PORT),
            data_dst: SocketAddr::v4(host_ip, HOST_DATA_PORT),
            imu_dst: SocketAddr::v4(host_ip, HOST_IMU_PORT),
        }
    }

    /// The default configuration with some ports chosen.
    pub fn with_ports(
        host_ip: Ipv4Addr,
        lidar_ip: Ipv4Addr,
        lidar_cmd_port: Option<u16>,
        cmd_port: Option<u16>,
        data_port: Option<u16>,
        imu_port: Option<u16>,
    ) -> (config: Self)
        ensures
            config == config_with(
                host_ip,
                lidar_ip,
                lidar_cmd_port,
                cmd_port,
                data_port,
                imu_port,
            ),
    {
        let mut config = LiveConfig::new(host_ip, lidar_ip);
        if let Some(port) = lidar_cmd_port {
            config.lidar_cmd_port = port;
        }
        if let Some(port) = cmd_port {
            config.cmd_bind = SocketAddr::v4(host_ip, port);
        }
        if let Some(port) = data_port {
            config.data_bind = SocketAddr::v4(host_ip, port);
            config.data_dst = SocketAddr::v4(host_ip, port);
        }
        if let Some(port) = imu_port {
            config.imu_bind = SocketAddr::v4(host_ip, port);
            config.imu_dst = SocketAddr::v4(host_ip, port);
        }
        config
    }

    /// Refuses an unspecified host address.
    pub fn check_host(&self) -> (r: Result<(), LidarError>)
        ensures
            error::seen(r) == host_check(self.host_ip),
    {
        if self.host_ip.is_unspecified() {
            return Err(LidarError::InvalidHost);
        }
        Ok(())
    }

    /// The settings that start the session, in the order in which they are sent.
    pub open spec fn start_items(self) -> Seq<Seq<(ParameterKey, Seq<u8>)>> {
        seq![
            client::destination_items(self.data_dst, self.imu_dst),
            client::format_items(self.data_type),
            client::imu_items(true),
            client::mode_items(LidarState::Sampling),
        ]
    }

    /// The address and port that the sensor takes commands on.
    pub open spec fn command_addr(self) -> SocketAddr {
        net::ipv4_socket(self.lidar_ip, self.lidar_cmd_port)
    }

    /// Where the sensor takes commands.
    pub fn lidar_cmd(&self) -> (addr: SocketAddr)
        ensures
            addr == net::ipv4_socket(self.lidar_ip, self.lidar_cmd_port),
            addr == self.command_addr(),
    {
        SocketAddr::v4(self.lidar_ip, self.lidar_cmd_port)
    }

    /// The settings that start the session, in the order in which they are
    /// sent: destinations, data format, IMU on, sampling.
    pub fn start_plan(&self) -> (plan: Vec<Vec<(ParameterKey, Vec<u8>)>>)
        ensures
            client::plan_of(plan@) == seq![
                client::destination_items(self.data_dst, self.imu_dst),
                seq![(ParameterKey::PclDataType, seq![self.data_type.code()])],
                seq![(ParameterKey::ImuDataEn, seq![1u8])],
                seq![(ParameterKey::WorkTgtMode, seq![LidarState::Sampling.code()])],
            ],
            client::plan_of(plan@) == self.start_items(),
    {
        let mut plan: Vec<Vec<(ParameterKey, Vec<u8>)>> = Vec::new();
        plan.push(stream_destinations(self.data_dst, self.imu_dst));
        plan.push(point_format(self.data_type));
        plan.push(client::imu_data(true));
        plan.push(work_mode(LidarState::Sampling));
        assert(client::plan_of(plan@) == seq![
            client::destination_items(self.data_dst, self.imu_dst),
            seq![(ParameterKey::PclDataType, seq![self.data_type.code()])],
            seq![(ParameterKey::ImuDataEn, seq![1u8])],
            seq![(ParameterKey::WorkTgtMode, seq![LidarState::Sampling.code()])],
        ]);
        plan
    }
}

/// A bind failure that names the socket; other errors pass through.
pub open spec fn bind_failure(resource: Seq<char>, addr: SocketAddr, e: Failure) -> Failure {
    match e {
        Failure::Io(source) => Failure::Bind { resource, addr, source },
        other => other,
    }
}

/// Names the socket in the error of a failed bind.
pub fn bind_err(resource: &str, addr: SocketAddr, err: LidarError) -> (e: LidarError)
    ensures
        e@ == bind_failure(resource@, addr, err@),
{
    match err {
        LidarError::Io(source) => LidarError::Bind { resource: resource.to_owned(), addr, source },
        other => other,
    }
}

/// A parsed live sample: a point-cloud packet or an IMU packet.
#[derive(Debug, Clone, PartialEq)]
pub enum Sample {
    Points { header: DataFrameHeader, points: Vec<Point> },
    Imu { header: DataFrameHeader, sample: ImuSample },
}

impl TryFromSpecImpl<DataPacket> for Sample {
    open spec fn obeys_try_from_spec() -> bool {
        true
    }

    open spec fn try_from_spec(packet: DataPacket) -> Result<Self, LidarError> {
        match packet.payload {
            DataPayload::Points(points) => Ok(Sample::Points { header: packet.header, points }),
            DataPayload::Imu(sample) => Ok(Sample::Imu { header: packet.header, sample }),
        }
    }
}

impl TryFrom<DataPacket> for Sample {
    type Error = LidarError;

    fn try_from(packet: DataPacket) -> Result<Self, LidarError> {
        match packet.payload {
            DataPayload::Points(points) => Ok(Sample::Points { header: packet.header, points }),
            DataPayload::Imu(sample) => Ok(Sample::Imu { header: packet.header, sample }),
        }
    }
}

} // verus!
