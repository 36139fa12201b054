//! Decisions of the control client: discovery, command exchanges and the
//! parameters that start a stream. Sockets and timers stay with the caller.

use vstd::prelude::*;
use vstd::slice::{slice_subrange, slice_to_vec};

use crate::command::{
    self, host_ip_cfg_value, parse_param_config_ack, parse_param_inquire_ack, Command, CommandFrame,
    DiscoveryAck, KeyValueList,
};
use crate::error::{self, Failure, LidarError};
use crate::net::{self, IpAddr, Ipv4Addr, SocketAddr};
use crate::protocol::{
    CmdId, CmdType, DataType, LidarState, ParameterKey, ReturnCode, HOST_DATA_PORT, HOST_IMU_PORT,
};
use crate::text::{self, cut_final_nuls, lossy_text};
use crate::wire;

verus! {

/// Size of the buffer that command requests are written to.
pub const REQUEST_BUFFER_SIZE: usize = 2048;

/// Numbers the requests of one client, from one on, wrapping around.
#[derive(Debug)]
pub struct SequenceCounter {
    next: u32,
}

impl View for SequenceCounter {
    type V = u32;

    /// The number of the next request.
    closed spec fn view(&self) -> u32 {
        self.next
    }
}

/// The number of the request after the one with number `n`.
pub open spec fn number_after(n: u32) -> u32 {
    if n == u32::MAX {
        0
    } else {
        (n + 1) as u32
    }
}

impl SequenceCounter {
    pub fn new() -> (counter: Self)
        ensures
            counter@ == 1,
    {
        SequenceCounter { next: 1 }
    }

    /// Takes the next number.
    pub fn next_seq(&mut self) -> (seq: u32)
        ensures
            seq == old(self)@,
            final(self)@ == (if old(self)@ == u32::MAX {
                0
            } else {
                old(self)@ + 1
            }),
            final(self)@ == number_after(old(self)@),
    {
        let seq: u32 = self.next;
        self.next = seq.wrapping_add(1);
        seq
    }
}

/// A sensor found by discovery.
#[derive(Debug, Clone, Copy, PartialEq)]
pub struct DiscoveredDevice {
    pub dev_type: u8,
    pub serial_number: [u8; 16],
    pub lidar_cmd_addr: SocketAddr,
}

/// What is known of a discovered sensor.
#[verifier::ext_equal]
pub struct Device {
    pub dev_type: u8,
    pub serial_number: Seq<u8>,
    pub lidar_cmd_addr: SocketAddr,
}

impl View for DiscoveredDevice {
    type V = Device;

    open spec fn view(&self) -> Device {
        Device {
            dev_type: self.dev_type,
            serial_number: self.serial_number@,
            lidar_cmd_addr: self.lidar_cmd_addr,
        }
    }
}

impl DiscoveredDevice {
    /// The serial number as text, without the NULs that fill it up. Bytes that
    /// are no UTF-8 show as replacement characters.
    pub fn serial_text(&self) -> (s: String)
        ensures
            s@ == text::without_final_nuls(text::lossy_utf8(self.serial_number@)),
    {
        let all = lossy_text(&self.serial_number);
        cut_final_nuls(all.as_str())
    }
}

/// The discovery request on the wire.
pub open spec fn discovery_request_bytes() -> Seq<u8> {
    command::request(0, CmdId::Discovery.code(), Seq::empty()).bytes()
}

/// The discovery request that is broadcast.
pub fn discovery_request() -> (bytes: Vec<u8>)
    ensures
        bytes@ == discovery_request_bytes(),
{
    let req = CommandFrame::new_req(0, CmdId::Discovery.as_u16(), Vec::new());
    let mut buf: [u8; 24] = [0; 24];
    assert(req@ == command::request(0, CmdId::Discovery.code(), Seq::empty()));
    let r = req.write(&mut buf);
    proof {
        command::command_round_trip(req@, Seq::empty());
        assert(req@.bytes().len() == 24);
        assert(buf@ == req@.bytes());
    }
    slice_to_vec(&buf)
}

/// The address of one network interface, with its broadcast address if it has
/// one.
#[derive(Debug, Clone, Copy, PartialEq)]
pub struct Interface {
    pub ip: IpAddr,
    pub broadcast: Option<Ipv4Addr>,
}

/// The broadcast address of the first interface that has the address `ip` and a
/// broadcast address.
pub open spec fn broadcast_of(interfaces: Seq<Interface>, ip: Ipv4Addr) -> Option<Ipv4Addr>
    decreases interfaces.len(),
{
    if interfaces.len() == 0 {
        None
    } else if interfaces[0].ip == IpAddr::V4(ip) && interfaces[0].broadcast is Some {
        interfaces[0].broadcast
    } else {
        broadcast_of(interfaces.drop_first(), ip)
    }
}

/// The directed broadcast address for a bound local address.
pub open spec fn directed_broadcast(
    local_ip: Option<Ipv4Addr>,
    interfaces: Seq<Interface>,
) -> Option<Ipv4Addr> {
    match local_ip {
        None => None,
        Some(ip) => if ip == net::ipv4(0, 0, 0, 0) || ip.a == 127 {
            None
        } else {
            broadcast_of(interfaces, ip)
        },
    }
}

/// Tries to find the directed broadcast address for a bound local IPv4 address.
pub fn directed_broadcast_for(
    local_ip: Option<Ipv4Addr>,
    interfaces: &[Interface],
) -> (r: Option<Ipv4Addr>)
    ensures
        r == directed_broadcast(local_ip, interfaces@),
{
    let ip = match local_ip {
        Some(ip) => ip,
        None => return None,
    };
    if ip.is_unspecified() || ip.is_loopback() {
        return None;
    }
    let n: usize = interfaces.len();
    let mut i: usize = 0;
    assert(interfaces@.subrange(0, n as int) == interfaces@);
    while i < n
        invariant
            i <= n == interfaces@.len(),
            broadcast_of(interfaces@, ip) == broadcast_of(
                interfaces@.subrange(i as int, n as int),
                ip,
            ),
            local_ip == Some(ip),
            !(ip == net::ipv4(0, 0, 0, 0) || ip.a == 127),
        decreases n - i,
    {
        assert(interfaces@.subrange(i as int, n as int).drop_first() == interfaces@.subrange(
            i + 1,
            n as int,
        ));
        let same: bool = match interfaces[i].ip {
            IpAddr::V4(v4) => v4 == ip,
            IpAddr::V6(_) => false,
        };
        if same && interfaces[i].broadcast.is_some() {
            return interfaces[i].broadcast;
        }
        i = i + 1;
    }
    None
}

/// Where the discovery request goes: to the given address, and to the directed
/// broadcast address on the same port where that is another one.
pub open spec fn targets_of(broadcast_addr: SocketAddr, directed: Option<Ipv4Addr>) -> Seq<
    SocketAddr,
> {
    match directed {
        Some(ip) if net::ipv4_socket(ip, broadcast_addr.port()) != broadcast_addr => seq![
            broadcast_addr,
            net::ipv4_socket(ip, broadcast_addr.port()),
        ],
        _ => seq![broadcast_addr],
    }
}

/// Where the discovery request goes.
pub fn discovery_targets(broadcast_addr: SocketAddr, directed: Option<Ipv4Addr>) -> (targets: Vec<
    SocketAddr,
>)
    ensures
        targets@ == targets_of(broadcast_addr, directed),
{
    let mut targets: Vec<SocketAddr> = Vec::new();
    targets.push(broadcast_addr);
    if let Some(ip) = directed {
        let directed_addr = SocketAddr::v4(ip, broadcast_addr.port());
        if directed_addr != broadcast_addr {
            targets.push(directed_addr);
        }
    }
    targets
}

/// The sensor that a received datagram announces, if it is a discovery
/// acknowledgement.
pub open spec fn announced(s: Seq<u8>) -> Option<Device> {
    match command::command_of(s) {
        Ok(c) if c.cmd_id == CmdId::Discovery.code() && c.cmd_type == CmdType::Ack => {
            match command::announcement_of(c.data) {
                Ok(a) => Some(
                    Device {
                        dev_type: a.dev_type,
                        serial_number: a.serial_number,
                        lidar_cmd_addr: net::ipv4_socket(a.lidar_ip, a.cmd_port),
                    },
                ),
                Err(_) => None,
            }
        },
        _ => None,
    }
}

/// Whether a sensor with this address is among the devices.
pub open spec fn listed(devices: Seq<Device>, addr: SocketAddr) -> bool {
    exists|i: int| 0 <= i < devices.len() && (#[trigger] devices[i]).lidar_cmd_addr == addr
}

/// The devices after one more datagram.
pub open spec fn with_datagram(devices: Seq<Device>, s: Seq<u8>) -> Seq<Device> {
    match announced(s) {
        Some(d) if !listed(devices, d.lidar_cmd_addr) => devices.push(d),
        _ => devices,
    }
}

/// The devices after a sequence of datagrams.
pub open spec fn collected(datagrams: Seq<Seq<u8>>) -> Seq<Device>
    decreases datagrams.len(),
{
    if datagrams.len() == 0 {
        Seq::empty()
    } else {
        with_datagram(collected(datagrams.drop_last()), datagrams.last())
    }
}

/// Collects the answers to a discovery request.
#[derive(Debug)]
pub struct Discovery {
    devices: Vec<DiscoveredDevice>,
}

impl View for Discovery {
    type V = Seq<Device>;

    closed spec fn view(&self) -> Seq<Device> {
        self.devices@.map_values(|d: DiscoveredDevice| d@)
    }
}

impl Discovery {
    pub fn new() -> (discovery: Self)
        ensures
            discovery@ == Seq::<Device>::empty(),
    {
        let discovery = Discovery { devices: Vec::new() };
        assert(discovery@ == Seq::<Device>::empty());
        discovery
    }

    /// Takes in one received datagram. What is no discovery acknowledgement is
    /// ignored, and so is a sensor that answered before.
    pub fn absorb(&mut self, datagram: &[u8])
        requires
            !command::underrun(datagram@),
        ensures
            final(self)@ == with_datagram(old(self)@, datagram@),
    {
        let frame = match CommandFrame::parse(datagram) {
            Ok(frame) => frame,
            Err(_) => return ,
        };
        if frame.cmd_id != CmdId::Discovery.as_u16() || frame.cmd_type != CmdType::Ack {
            return ;
        }
        let ack = match DiscoveryAck::parse(frame.data.as_slice()) {
            Ok(ack) => ack,
            Err(_) => return ,
        };
        let addr = SocketAddr::v4(ack.lidar_ip, ack.cmd_port);
        let n: usize = self.devices.len();
        let mut i: usize = 0;
        while i < n
            invariant
                i <= n == self.devices@.len(),
                *self == *old(self),
                announced(datagram@) matches Some(d) && d.lidar_cmd_addr == addr,
                forall|k: int|
                    0 <= k < i ==> (#[trigger] self.devices@[k]).lidar_cmd_addr != addr,
            decreases n - i,
        {
            if self.devices[i].lidar_cmd_addr == addr {
                assert(self@[i as int].lidar_cmd_addr == addr);
                return ;
            }
            i = i + 1;
        }
        proof {
            assert forall|k: int| 0 <= k < self@.len() implies (
            #[trigger] self@[k]).lidar_cmd_addr != addr by {
                assert(self@[k] == self.devices@[k]@);
            }
        }
        let device = DiscoveredDevice {
            dev_type: ack.dev_type,
            serial_number: ack.serial_number,
            lidar_cmd_addr: addr,
        };
        self.devices.push(device);
        assert(self@ == old(self)@.push(device@));
    }

    /// The devices that answered, in the order of their first answer.
    pub fn devices(&self) -> (devices: &Vec<DiscoveredDevice>)
        ensures
            devices@.map_values(|d: DiscoveredDevice| d@) == self@,
    {
        &self.devices
    }
}

/// Whatever arrives, every listed sensor was announced by some datagram, every
/// announced sensor is listed, and none is listed twice.
pub proof fn discovery_lists_each_sensor_once(datagrams: Seq<Seq<u8>>)
    ensures
        forall|i: int, j: int|
            0 <= i < j < collected(datagrams).len() ==> (#[trigger] collected(
                datagrams,
            )[i]).lidar_cmd_addr != (#[trigger] collected(datagrams)[j]).lidar_cmd_addr,
        forall|k: int|
            0 <= k < datagrams.len() ==> (announced(#[trigger] datagrams[k]) matches Some(d)
                ==> listed(collected(datagrams), d.lidar_cmd_addr)),
        forall|i: int|
            0 <= i < collected(datagrams).len() ==> exists|k: int|
                0 <= k < datagrams.len() && announced(#[trigger] datagrams[k]) == Some(
                    #[trigger] collected(datagrams)[i],
                ),
    decreases datagrams.len(),
{
    if datagrams.len() > 0 {
        let front = datagrams.drop_last();
        let last = datagrams.last();
        discovery_lists_each_sensor_once(front);
        let before = collected(front);
        let now = collected(datagrams);
        assert forall|i: int, j: int| 0 <= i < j < now.len() implies (
        #[trigger] now[i]).lidar_cmd_addr != (#[trigger] now[j]).lidar_cmd_addr by {
            if j < before.len() {
                assert(now[i] == before[i] && now[j] == before[j]);
            } else {
                assert(now[i] == before[i]);
            }
        }
        assert forall|k: int| 0 <= k < datagrams.len() implies (announced(
            #[trigger] datagrams[k],
        ) matches Some(d) ==> listed(now, d.lidar_cmd_addr)) by {
            if announced(datagrams[k]) is Some {
                let d = announced(datagrams[k])->0;
                if k < front.len() {
                    assert(front[k] == datagrams[k]);
                    let i = choose|i: int|
                        0 <= i < before.len() && (#[trigger] before[i]).lidar_cmd_addr
                            == d.lidar_cmd_addr;
                    assert(now[i] == before[i]);
                } else if listed(before, d.lidar_cmd_addr) {
                    let i = choose|i: int|
                        0 <= i < before.len() && (#[trigger] before[i]).lidar_cmd_addr
                            == d.lidar_cmd_addr;
                    assert(now[i] == before[i]);
                } else {
                    assert(now[before.len() as int] == d);
                }
            }
        }
        assert forall|i: int| 0 <= i < now.len() implies exists|k: int|
            0 <= k < datagrams.len() && announced(#[trigger] datagrams[k]) == Some(
                #[trigger] now[i],
            ) by {
            if i < before.len() {
                assert(now[i] == before[i]);
                let k = choose|k: int|
                    0 <= k < front.len() && announced(#[trigger] front[k]) == Some(before[i]);
                assert(datagrams[k] == front[k]);
            } else {
                assert(datagrams[datagrams.len() - 1] == last);
            }
        }
    }
}

/// How much of `wait` is left after `elapsed`; nothing once it has run out.
pub open spec fn wait_left(wait: u128, elapsed: u128) -> Option<u128> {
    if elapsed < wait {
        Some((wait - elapsed) as u128)
    } else {
        None
    }
}

/// How much of `wait` is left after `elapsed`, in nanoseconds; nothing once it
/// has run out.
pub fn remaining_wait(wait: u128, elapsed: u128) -> (left: Option<u128>)
    ensures
        left == (if elapsed < wait {
            Some((wait - elapsed) as u128)
        } else {
            None
        }),
        left == wait_left(wait, elapsed),
{
    if elapsed < wait {
        Some(wait - elapsed)
    } else {
        None
    }
}

/// A command that was sent and waits for its acknowledgement.
#[derive(Debug)]
pub struct Exchange {
    request: CommandFrame,
    addr: SocketAddr,
}

/// Whether data of `len` bytes can be framed, or is at least refused: what has
/// more bytes than the length field can count and would still fit the buffer by
/// its truncated length cannot be written at all.
pub open spec fn framable(len: nat) -> bool {
    let length = wire::low16(24 + len);
    length > REQUEST_BUFFER_SIZE || length == 24 + len
}

/// Whether data of `len` bytes can be framed, or is at least refused.
pub fn is_framable(len: usize) -> (r: bool)
    ensures
        r == framable(len as nat),
{
    let length: u16 = wire::truncate16(len).wrapping_add(24);
    length as usize > REQUEST_BUFFER_SIZE || (length >= 24 && length as usize - 24 == len)
}

/// The bytes of a request that are sent, or why it cannot be.
pub open spec fn framed(seq: u32, cmd_id: u16, data: Seq<u8>) -> Result<Seq<u8>, Failure> {
    let request = command::request(seq, cmd_id, data);
    if request.length <= REQUEST_BUFFER_SIZE {
        Ok(request.bytes())
    } else {
        Err(Failure::BufferTooSmall)
    }
}

/// The reply in a datagram: the acknowledgement of `request`, from the address
/// that it was sent to.
pub open spec fn reply_of(request: Command, addr: SocketAddr, from: IpAddr, s: Seq<u8>) -> Option<
    Command,
> {
    match command::command_of(s) {
        Ok(c) if from == addr.ip() && c.acknowledges(request) => Some(c),
        _ => None,
    }
}

impl Exchange {
    /// The request that was sent.
    pub closed spec fn request(self) -> Command {
        self.request@
    }

    /// Whom it was sent to.
    pub closed spec fn addr(self) -> SocketAddr {
        self.addr
    }

    /// Prepares a command for `addr`, and gives the bytes to send.
    pub fn start(seq: u32, addr: SocketAddr, cmd_id: u16, data: Vec<u8>) -> (r: Result<
        (Exchange, Vec<u8>),
        LidarError,
    >)
        requires
            framable(data@.len()),
        ensures
            match r {
                Ok((exchange, bytes)) => {
                    &&& command::request(seq, cmd_id, data@).length <= REQUEST_BUFFER_SIZE
                    &&& exchange.request() == command::request(seq, cmd_id, data@)
                    &&& exchange.addr() == addr
                    &&& bytes@ == command::request(seq, cmd_id, data@).bytes()
                },
                Err(e) => {
                    &&& command::request(seq, cmd_id, data@).length > REQUEST_BUFFER_SIZE
                    &&& e == LidarError::BufferTooSmall
                },
            },
            (match r {
                Ok(v) => Ok(v.1@),
                Err(e) => Err(e@),
            }) == framed(seq, cmd_id, data@),
    {
        let request = CommandFrame::new_req(seq, cmd_id, data);
        let mut buf: [u8; 2048] = [0; 2048];
        match request.write(&mut buf) {
            Ok(()) => {},
            Err(e) => return Err(e),
        }
        let length: usize = request.length as usize;
        proof {
            let all = request@.bytes();
            assert(all.len() == length);
            assert(buf@.subrange(0, length as int) == all);
        }
        let bytes = slice_to_vec(slice_subrange(&buf, 0, length));
        Ok((Exchange { request, addr }, bytes))
    }

    /// Looks at a received datagram. Datagrams from elsewhere, whatever they
    /// hold, unreadable ones and those that acknowledge something else are passed
    /// over.
    pub fn on_datagram(&self, from: IpAddr, bytes: &[u8]) -> (r: Option<CommandFrame>)
        requires
            from == self.addr().ip() ==> !command::underrun(bytes@),
        ensures
            (match r {
                Some(frame) => Some(frame@),
                None => None,
            }) == reply_of(self.request(), self.addr(), from, bytes@),
    {
        if from != self.addr.ip() {
            return None;
        }
        let frame = match CommandFrame::parse(bytes) {
            Ok(frame) => frame,
            Err(_) => return None,
        };
        if frame.is_ack_for(&self.request) {
            Some(frame)
        } else {
            None
        }
    }

    /// What the exchange ends with when the wait has run out.
    pub fn on_timeout(&self) -> (e: LidarError)
        ensures
            e == (LidarError::NoResponse { addr: self.addr() }),
    {
        LidarError::NoResponse { addr: self.addr }
    }
}

/// The sensor's own acknowledgement is recognised, whatever data it carries,
/// and an acknowledgement of another command or another number never is.
pub proof fn acknowledgement_is_recognised(request: Command, addr: SocketAddr, ack: Command)
    requires
        ack.consistent(),
    ensures
        ack.acknowledges(request) ==> reply_of(request, addr, addr.ip(), ack.bytes()) == Some(ack),
        ack.seq_num != request.seq_num || ack.cmd_id != request.cmd_id ==> forall|from: IpAddr| #[trigger]
            reply_of(request, addr, from, ack.bytes()) is None,
{
    command::command_round_trip(ack, Seq::empty());
    assert(ack.bytes() + Seq::<u8>::empty() == ack.bytes());
}

/// The parameters in an inquiry acknowledgement, or why there are none.
pub open spec fn query_result_of(data: Seq<u8>) -> Result<Seq<(u16, Seq<u8>)>, Failure> {
    match command::inquire_ack_of(data) {
        Ok((code, pairs)) => if code == ReturnCode::Success {
            Ok(pairs)
        } else {
            Err(Failure::CommandFailed { code })
        },
        Err(e) => Err(e),
    }
}

/// Reads the acknowledgement of a parameter inquiry.
pub fn query_result(ack: &CommandFrame) -> (r: Result<KeyValueList, LidarError>)
    ensures
        command::seen_pairs(r) == query_result_of(ack.data@),
{
    let (code, pairs) = match parse_param_inquire_ack(ack.data.as_slice()) {
        Ok(v) => v,
        Err(e) => return Err(e),
    };
    if code != ReturnCode::Success {
        return Err(LidarError::CommandFailed { code });
    }
    Ok(pairs)
}

/// What a configuration acknowledgement says of the command.
pub open spec fn set_result_of(data: Seq<u8>) -> Result<(), Failure> {
    match command::config_ack_of(data) {
        Ok((code, _)) => if code == ReturnCode::Success {
            Ok(())
        } else {
            Err(Failure::CommandFailed { code })
        },
        Err(e) => Err(e),
    }
}

/// Reads the acknowledgement of a parameter configuration.
pub fn set_result(ack: &CommandFrame) -> (r: Result<(), LidarError>)
    ensures
        error::seen(r) == set_result_of(ack.data@),
{
    let (code, _) = match parse_param_config_ack(ack.data.as_slice()) {
        Ok(v) => v,
        Err(e) => return Err(e),
    };
    if code != ReturnCode::Success {
        return Err(LidarError::CommandFailed { code });
    }
    Ok(())
}

/// Parameters with their values.
pub open spec fn items_of(items: Seq<(ParameterKey, Vec<u8>)>) -> Seq<(ParameterKey, Seq<u8>)> {
    items.map_values(|p: (ParameterKey, Vec<u8>)| (p.0, p.1@))
}

/// The IPv4 address of a stream destination; unspecified for an IPv6 one.
pub open spec fn destination_ip(addr: SocketAddr) -> Ipv4Addr {
    match addr.ip() {
        IpAddr::V4(ip) => ip,
        IpAddr::V6(_) => net::ipv4(0, 0, 0, 0),
    }
}

/// A host address parameter that sends a stream to `dst`.
pub open spec fn destination_value(dst: SocketAddr, source_port: u16) -> Seq<u8> {
    destination_ip(dst).bytes() + wire::u16_bytes(dst.port()) + wire::u16_bytes(source_port)
}

/// The parameters that send point-cloud and IMU data to their destinations.
pub open spec fn destination_items(data_dst: SocketAddr, imu_dst: SocketAddr) -> Seq<
    (ParameterKey, Seq<u8>),
> {
    seq![
        (ParameterKey::PointCloudHostIpCfg, destination_value(data_dst, HOST_DATA_PORT)),
        (ParameterKey::ImuHostIpCfg, destination_value(imu_dst, HOST_IMU_PORT)),
    ]
}

fn make_destination_value(dst: SocketAddr, source_port: u16) -> (v: Vec<u8>)
    ensures
        v@ == destination_value(dst, source_port),
{
    let ip = match dst.ip() {
        IpAddr::V4(ip) => ip,
        IpAddr::V6(_) => Ipv4Addr::unspecified(),
    };
    host_ip_cfg_value(ip, dst.port(), source_port)
}

/// Configures the sensor to send point-cloud and IMU data to the given
/// destinations.
pub fn stream_destinations(data_dst: SocketAddr, imu_dst: SocketAddr) -> (items: Vec<
    (ParameterKey, Vec<u8>),
>)
    ensures
        items_of(items@) == destination_items(data_dst, imu_dst),
{
    let mut items: Vec<(ParameterKey, Vec<u8>)> = Vec::new();
    items.push(
        (ParameterKey::PointCloudHostIpCfg, make_destination_value(data_dst, HOST_DATA_PORT)),
    );
    items.push((ParameterKey::ImuHostIpCfg, make_destination_value(imu_dst, HOST_IMU_PORT)));
    assert(items_of(items@) == destination_items(data_dst, imu_dst));
    items
}

/// The parameters that set the working mode.
pub open spec fn mode_items(state: LidarState) -> Seq<(ParameterKey, Seq<u8>)> {
    seq![(ParameterKey::WorkTgtMode, seq![state.code()])]
}

/// The parameters that select the format of the points.
pub open spec fn format_items(format: DataType) -> Seq<(ParameterKey, Seq<u8>)> {
    seq![(ParameterKey::PclDataType, seq![format.code()])]
}

/// The parameters that switch the IMU stream.
pub open spec fn imu_items(enabled: bool) -> Seq<(ParameterKey, Seq<u8>)> {
    let value: u8 = if enabled {
        1
    } else {
        0
    };
    seq![(ParameterKey::ImuDataEn, seq![value])]
}

/// The settings that start a stream, in the order in which they are sent.
pub open spec fn streaming_items(
    data_dst: SocketAddr,
    imu_dst: SocketAddr,
    format: DataType,
) -> Seq<Seq<(ParameterKey, Seq<u8>)>> {
    seq![
        destination_items(data_dst, imu_dst),
        format_items(format),
        mode_items(LidarState::Sampling),
    ]
}

fn single_byte_item(key: ParameterKey, value: u8) -> (items: Vec<(ParameterKey, Vec<u8>)>)
    ensures
        items_of(items@) == seq![(key, seq![value])],
{
    let mut bytes: Vec<u8> = Vec::new();
    bytes.push(value);
    assert(bytes@ == seq![value]);
    let mut items: Vec<(ParameterKey, Vec<u8>)> = Vec::new();
    items.push((key, bytes));
    assert(items_of(items@) == seq![(key, seq![value])]);
    items
}

/// Sets the working mode of the sensor (e.g. sampling, idle, ready).
pub fn work_mode(state: LidarState) -> (items: Vec<(ParameterKey, Vec<u8>)>)
    ensures
        items_of(items@) == seq![(ParameterKey::WorkTgtMode, seq![state.code()])],
        items_of(items@) == mode_items(state),
{
    single_byte_item(ParameterKey::WorkTgtMode, state.as_u8())
}

/// Selects the point-cloud data format.
pub fn point_format(format: DataType) -> (items: Vec<(ParameterKey, Vec<u8>)>)
    ensures
        items_of(items@) == seq![(ParameterKey::PclDataType, seq![format.code()])],
        items_of(items@) == format_items(format),
{
    single_byte_item(ParameterKey::PclDataType, format.as_u8())
}

/// Switches the IMU stream on or off.
pub fn imu_data(enabled: bool) -> (items: Vec<(ParameterKey, Vec<u8>)>)
    ensures
        items_of(items@) == seq![
            (
                ParameterKey::ImuDataEn,
                seq![
                    if enabled {
                        1u8
                    } else {
                        0u8
                    },
                ],
            ),
        ],
        items_of(items@) == imu_items(enabled),
{
    let value: u8 = if enabled {
        1
    } else {
        0
    };
    single_byte_item(ParameterKey::ImuDataEn, value)
}

/// The parameter settings of a start-up, in order, as their contents.
pub open spec fn plan_of(plan: Seq<Vec<(ParameterKey, Vec<u8>)>>) -> Seq<
    Seq<(ParameterKey, Seq<u8>)>,
> {
    plan.map_values(|items: Vec<(ParameterKey, Vec<u8>)>| items_of(items@))
}

/// The settings that start a stream, in the order in which they are sent:
/// destinations, data format, sampling.
pub fn streaming_plan(data_dst: SocketAddr, imu_dst: SocketAddr, format: DataType) -> (plan: Vec<
    Vec<(ParameterKey, Vec<u8>)>,
>)
    ensures
        plan_of(plan@) == seq![
            destination_items(data_dst, imu_dst),
            seq![(ParameterKey::PclDataType, seq![format.code()])],
            seq![(ParameterKey::WorkTgtMode, seq![LidarState::Sampling.code()])],
        ],
        plan_of(plan@) == streaming_items(data_dst, imu_dst, format),
{
    let mut plan: Vec<Vec<(ParameterKey, Vec<u8>)>> = Vec::new();
    plan.push(stream_destinations(data_dst, imu_dst));
    plan.push(point_format(format));
    plan.push(work_mode(LidarState::Sampling));
    assert(plan_of(plan@) == seq![
        destination_items(data_dst, imu_dst),
        seq![(ParameterKey::PclDataType, seq![format.code()])],
        seq![(ParameterKey::WorkTgtMode, seq![LidarState::Sampling.code()])],
    ]);
    plan
}

} // verus!
