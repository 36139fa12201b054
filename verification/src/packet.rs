//! Data frames: a 36-byte header followed by point-cloud or IMU samples.
//!
//! The CRC-32 at byte 24 covers the timestamp and the payload. Some firmware
//! leaves it zero on the point-cloud stream, which means "not present".

use vstd::prelude::*;
use vstd::slice::slice_subrange;

use crate::crc::{self, crc32};
use crate::error::{self, Failure, LidarError};
use crate::points::{ImuSample, Point};
use crate::protocol::{self, DataType, TimestampType};
use crate::text::{self, push_decimal};
use crate::wire::{
    self, get_u16, get_u32, get_u64, put_u16, put_u32, put_u64, put_u8, put_zeros, truncate16,
};

verus! {

pub const DATA_HEADER_SIZE: usize = 36;

/// Header shared by point-cloud and IMU data frames.
#[derive(Debug, Clone, Copy, PartialEq)]
pub struct DataFrameHeader {
    pub version: u8,
    /// Length of the entire UDP segment starting from `version`.
    pub length: u16,
    /// Intra-frame sampling time in units of 0.1 us.
    pub time_interval: u16,
    /// Number of points/samples in this packet.
    pub dot_num: u16,
    /// UDP packet counter within the current frame.
    pub udp_cnt: u16,
    /// Frame counter (10/15 Hz); invalid for non-repetitive scans.
    pub frame_cnt: u8,
    /// Type of payload data.
    pub data_type: DataType,
    /// Type of timestamp.
    pub time_type: TimestampType,
    /// 8-byte timestamp (ns).
    pub timestamp: u64,
}

/// The payload length that a length field declares. A field smaller than the
/// header wraps around, as the machine subtraction does.
pub open spec fn declared_payload(length: u16) -> int {
    if length >= DATA_HEADER_SIZE {
        length - DATA_HEADER_SIZE
    } else {
        length - DATA_HEADER_SIZE + usize::MAX + 1
    }
}

/// The payload length that goes with a format and a number of points. An IMU
/// frame always holds one sample.
pub open spec fn expected_payload(data_type: DataType, dot_num: u16) -> int {
    if data_type is Imu {
        24
    } else {
        data_type.size() * dot_num
    }
}

/// The message for a payload of the wrong length.
pub open spec fn length_mismatch(declared: int, expected: int) -> Seq<char> {
    "payload length mismatch: header says "@ + text::decimal(declared as nat) + ", expected "@
        + text::decimal(expected as nat)
}

/// Whether the checksum field of `s` is absent, or right for a frame of the
/// given length.
pub open spec fn crc_accepted(s: Seq<u8>, length: int) -> bool {
    wire::u32_at(s, 24) == 0 || wire::u32_at(s, 24) == crc::crc32_of(s.subrange(28, length))
}

/// The frame header at the start of `s`, or what is wrong with the frame.
pub open spec fn header_of(s: Seq<u8>) -> Result<DataFrameHeader, Failure> {
    let length = wire::u16_at(s, 1);
    let dot_num = wire::u16_at(s, 5);
    if s.len() < DATA_HEADER_SIZE {
        Err(error::too_short(DATA_HEADER_SIZE as int, s.len() as int))
    } else if s.len() < length {
        Err(error::too_short(length as int, s.len() as int))
    } else {
        match protocol::data_type_of(s[10]) {
            None => Err(Failure::InvalidDataType(s[10])),
            Some(data_type) => {
                let declared = declared_payload(length);
                let expected = expected_payload(data_type, dot_num);
                if declared != expected {
                    Err(Failure::ParameterParse(length_mismatch(declared, expected)))
                } else {
                    match protocol::timestamp_type_of(s[11]) {
                        None => Err(Failure::InvalidTimestampType(s[11])),
                        Some(time_type) => if !crc_accepted(s, length as int) {
                            Err(Failure::CrcMismatch)
                        } else {
                            Ok(
                                DataFrameHeader {
                                    version: s[0],
                                    length,
                                    time_interval: wire::u16_at(s, 3),
                                    dot_num,
                                    udp_cnt: wire::u16_at(s, 7),
                                    frame_cnt: s[9],
                                    data_type,
                                    time_type,
                                    timestamp: wire::u64_at(s, 28),
                                },
                            )
                        },
                    }
                }
            },
        }
    }
}

impl DataFrameHeader {
    /// The header on the wire for a frame of `total` bytes, with the checksum
    /// still zero.
    #[verifier::opaque]
    pub open spec fn bytes(self, total: nat) -> Seq<u8> {
        seq![self.version] + wire::u16_bytes(wire::low16(total)) + wire::u16_bytes(
            self.time_interval,
        ) + wire::u16_bytes(self.dot_num) + wire::u16_bytes(self.udp_cnt) + seq![
            self.frame_cnt,
            self.data_type.code(),
            self.time_type.code(),
        ] + Seq::new(16, |i: int| 0u8) + wire::u64_bytes(self.timestamp)
    }

    /// Whether a header for so many payload bytes fits into `s`, and `s` with it
    /// in place.
    pub open spec fn headed(self, s: Seq<u8>, payload_len: int) -> (Result<(), Failure>, Seq<u8>) {
        if s.len() < DATA_HEADER_SIZE + payload_len {
            (Err(Failure::BufferTooSmall), s)
        } else {
            (Ok(()), wire::splice(s, 0, self.bytes((DATA_HEADER_SIZE + payload_len) as nat)))
        }
    }

    /// Reads the header of the frame in `buf` and checks the frame against it.
    pub fn parse(buf: &[u8]) -> (r: Result<Self, LidarError>)
        ensures
            error::seen(r) == header_of(buf@),
    {
        if buf.len() < DATA_HEADER_SIZE {
            return Err(LidarError::PacketTooShort { need: DATA_HEADER_SIZE, got: buf.len() });
        }
        let length: u16 = get_u16(buf, 1);
        if buf.len() < length as usize {
            return Err(LidarError::PacketTooShort { need: length as usize, got: buf.len() });
        }
        let data_type = match DataType::try_from(buf[10]) {
            Ok(v) => v,
            Err(e) => return Err(e),
        };
        let dot_num: u16 = get_u16(buf, 5);
        let payload_len: usize = (length as usize).wrapping_sub(DATA_HEADER_SIZE);
        let expected: usize = if data_type == DataType::Imu {
            ImuSample::SIZE
        } else {
            let size: usize = data_type.point_size();
            assert(size * dot_num <= 24 * 0xFFFF) by (nonlinear_arith)
                requires
                    size <= 24,
                    dot_num <= 0xFFFF,
            ;
            size * (dot_num as usize)
        };
        if payload_len != expected {
            let mut message = "payload length mismatch: header says ".to_owned();
            push_decimal(&mut message, payload_len as u64);
            message.append(", expected ");
            push_decimal(&mut message, expected as u64);
            return Err(LidarError::ParameterParse(message));
        }
        let time_type = match TimestampType::try_from(buf[11]) {
            Ok(v) => v,
            Err(e) => return Err(e),
        };
        let header = DataFrameHeader {
            version: buf[0],
            length,
            time_interval: get_u16(buf, 3),
            dot_num,
            udp_cnt: get_u16(buf, 7),
            frame_cnt: buf[9],
            data_type,
            time_type,
            timestamp: get_u64(buf, 28),
        };
        match header.verify_crc(buf) {
            Ok(()) => Ok(header),
            Err(e) => Err(e),
        }
    }

    /// Writes the header of a frame with `payload_len` payload bytes. The
    /// checksum is left zero until [`DataFrameHeader::fill_crc`].
    pub fn write(&self, buf: &mut [u8], payload_len: usize) -> (r: Result<(), LidarError>)
        requires
            DATA_HEADER_SIZE + payload_len <= usize::MAX,
        ensures
            error::seen(r) == (if old(buf)@.len() < DATA_HEADER_SIZE + payload_len {
                Err::<(), Failure>(Failure::BufferTooSmall)
            } else {
                Ok::<(), Failure>(())
            }),
            final(buf)@ == (if old(buf)@.len() < DATA_HEADER_SIZE + payload_len {
                old(buf)@
            } else {
                wire::splice(old(buf)@, 0, self.bytes((DATA_HEADER_SIZE + payload_len) as nat))
            }),
            (error::seen(r), final(buf)@) == self.headed(old(buf)@, payload_len as int),
    {
        let total: usize = DATA_HEADER_SIZE + payload_len;
        if buf.len() < total {
            return Err(LidarError::BufferTooSmall);
        }
        let length: u16 = truncate16(total);
        let ghost start = buf@;
        put_u8(buf, 0, self.version);
        let ghost h0 = seq![self.version];
        put_u16(buf, 1, length);
        let ghost h1 = h0 + wire::u16_bytes(length);
        proof {
            wire::lemma_splice_append(start, 0, h0, wire::u16_bytes(length));
        }
        put_u16(buf, 3, self.time_interval);
        let ghost h2 = h1 + wire::u16_bytes(self.time_interval);
        proof {
            wire::lemma_splice_append(start, 0, h1, wire::u16_bytes(self.time_interval));
        }
        put_u16(buf, 5, self.dot_num);
        let ghost h3 = h2 + wire::u16_bytes(self.dot_num);
        proof {
            wire::lemma_splice_append(start, 0, h2, wire::u16_bytes(self.dot_num));
        }
        put_u16(buf, 7, self.udp_cnt);
        let ghost h4 = h3 + wire::u16_bytes(self.udp_cnt);
        proof {
            wire::lemma_splice_append(start, 0, h3, wire::u16_bytes(self.udp_cnt));
        }
        put_u8(buf, 9, self.frame_cnt);
        let ghost h5 = h4 + seq![self.frame_cnt];
        proof {
            wire::lemma_splice_append(start, 0, h4, seq![self.frame_cnt]);
        }
        put_u8(buf, 10, self.data_type.as_u8());
        let ghost h6 = h5 + seq![self.data_type.code()];
        proof {
            wire::lemma_splice_append(start, 0, h5, seq![self.data_type.code()]);
        }
        put_u8(buf, 11, self.time_type.as_u8());
        let ghost h7 = h6 + seq![self.time_type.code()];
        proof {
            wire::lemma_splice_append(start, 0, h6, seq![self.time_type.code()]);
        }
        put_zeros(buf, 12, 16);
        let ghost h8 = h7 + Seq::new(16, |i: int| 0u8);
        proof {
            wire::lemma_splice_append(start, 0, h7, Seq::new(16, |i: int| 0u8));
        }
        put_u64(buf, 28, self.timestamp);
        let ghost h9 = h8 + wire::u64_bytes(self.timestamp);
        proof {
            wire::lemma_splice_append(start, 0, h8, wire::u64_bytes(self.timestamp));
        }
        proof {
            reveal(DataFrameHeader::bytes);
        }
        assert(h9 == self.bytes(total as nat));
        Ok(())
    }

    /// Computes the checksum of a frame with `payload_len` payload bytes and
    /// stores it in the header.
    pub fn fill_crc(&self, buf: &mut [u8], payload_len: usize) -> (r: Result<(), LidarError>)
        requires
            DATA_HEADER_SIZE + payload_len <= usize::MAX,
        ensures
            error::seen(r) == (if old(buf)@.len() < DATA_HEADER_SIZE + payload_len {
                Err::<(), Failure>(Failure::BufferTooSmall)
            } else {
                Ok::<(), Failure>(())
            }),
            final(buf)@ == (if old(buf)@.len() < DATA_HEADER_SIZE + payload_len {
                old(buf)@
            } else {
                sealed(old(buf)@, DATA_HEADER_SIZE + payload_len)
            }),
            (error::seen(r), final(buf)@) == crc_filled(old(buf)@, payload_len as int),
    {
        let total: usize = DATA_HEADER_SIZE + payload_len;
        if buf.len() < total {
            return Err(LidarError::BufferTooSmall);
        }
        let computed: u32 = crc32(slice_subrange(buf, 28, total));
        put_u32(buf, 24, computed);
        Ok(())
    }

    /// Checks the frame in `buf` against its checksum, over the length that
    /// this header declares.
    pub fn verify_crc(&self, buf: &[u8]) -> (r: Result<(), LidarError>)
        requires
            buf.len() >= 28,
            wire::u32_at(buf@, 24) == 0 || 28 <= self.length <= buf.len(),
        ensures
            error::seen(r) == (if crc_accepted(buf@, self.length as int) {
                Ok::<(), Failure>(())
            } else {
                Err::<(), Failure>(Failure::CrcMismatch)
            }),
            error::seen(r) == crc_verified(buf@, self.length as int),
    {
        let stored: u32 = get_u32(buf, 24);
        if stored == 0 {
            return Ok(());
        }
        let computed: u32 = crc32(slice_subrange(buf, 28, self.length as usize));
        if stored != computed {
            return Err(LidarError::CrcMismatch);
        }
        Ok(())
    }
}

/// Whether a frame with so many payload bytes fits into `s`, and `s` with its
/// checksum filled in.
pub open spec fn crc_filled(s: Seq<u8>, payload_len: int) -> (Result<(), Failure>, Seq<u8>) {
    if s.len() < DATA_HEADER_SIZE + payload_len {
        (Err(Failure::BufferTooSmall), s)
    } else {
        (Ok(()), sealed(s, DATA_HEADER_SIZE + payload_len))
    }
}

/// What checking the checksum of a frame of the given length comes to.
pub open spec fn crc_verified(s: Seq<u8>, length: int) -> Result<(), Failure> {
    if crc_accepted(s, length) {
        Ok(())
    } else {
        Err(Failure::CrcMismatch)
    }
}

/// `s` with the checksum of its first `total` bytes filled in.
pub open spec fn sealed(s: Seq<u8>, total: int) -> Seq<u8> {
    wire::splice(s, 24, wire::u32_bytes(crc::crc32_of(s.subrange(28, total))))
}

#[derive(Debug, Clone, PartialEq)]
pub enum DataPayload {
    Imu(ImuSample),
    Points(Vec<Point>),
}

#[derive(Debug, Clone, PartialEq)]
pub struct DataPacket {
    pub header: DataFrameHeader,
    pub payload: DataPayload,
}

/// The samples of a payload.
#[verifier::ext_equal]
pub enum Samples {
    Imu(ImuSample),
    Points(Seq<Point>),
}

/// What a data packet says.
#[verifier::ext_equal]
pub struct Packet {
    pub header: DataFrameHeader,
    pub payload: Samples,
}

impl View for DataPayload {
    type V = Samples;

    open spec fn view(&self) -> Samples {
        match *self {
            DataPayload::Imu(sample) => Samples::Imu(sample),
            DataPayload::Points(points) => Samples::Points(points@),
        }
    }
}

impl View for DataPacket {
    type V = Packet;

    open spec fn view(&self) -> Packet {
        Packet { header: self.header, payload: self.payload@ }
    }
}

/// Where the `i`-th sample of `size` bytes starts in a frame.
pub open spec fn sample_offset(i: int, size: int) -> int {
    DATA_HEADER_SIZE + i * size
}

/// The `i`-th point of a frame.
pub open spec fn point_at(data_type: DataType, s: Seq<u8>, i: int) -> Point {
    let size = data_type.size() as int;
    Point::of(data_type, s.subrange(sample_offset(i, size), sample_offset(i, size) + size))->Ok_0
}

/// The samples of a frame with the given header.
pub open spec fn samples_of(header: DataFrameHeader, s: Seq<u8>) -> Samples {
    if header.data_type is Imu {
        Samples::Imu(ImuSample::of(s.subrange(DATA_HEADER_SIZE as int, s.len() as int))->Ok_0)
    } else {
        Samples::Points(
            Seq::new(header.dot_num as nat, |i: int| point_at(header.data_type, s, i)),
        )
    }
}

/// A packet of points.
pub open spec fn points_packet(header: DataFrameHeader, points: Seq<Point>) -> Packet {
    Packet {
        header: (DataFrameHeader { dot_num: wire::low16(points.len()), ..header }),
        payload: Samples::Points(points),
    }
}

/// A packet of one IMU sample.
pub open spec fn imu_packet(header: DataFrameHeader, sample: ImuSample) -> Packet {
    Packet {
        header: (DataFrameHeader { dot_num: 1, data_type: DataType::Imu, ..header }),
        payload: Samples::Imu(sample),
    }
}

/// The packet at the start of `s`, or what is wrong with it.
pub open spec fn packet_of(s: Seq<u8>) -> Result<Packet, Failure> {
    match header_of(s) {
        Ok(header) => Ok(Packet { header, payload: samples_of(header, s) }),
        Err(e) => Err(e),
    }
}

/// The payload length of a frame that is built from a header and samples.
pub open spec fn payload_size(header: DataFrameHeader, payload: Samples) -> int {
    match payload {
        Samples::Imu(_) => 24,
        Samples::Points(points) => (header.data_type.size() * points.len()) as int,
    }
}

/// The buffer after writing the points from [`DATA_HEADER_SIZE`] on, `size`
/// bytes apart, and whether all of them fitted. The first one that does not
/// fit ends the writing.
pub open spec fn points_written(s: Seq<u8>, size: int, points: Seq<Point>) -> (
    Result<(), Failure>,
    Seq<u8>,
)
    decreases points.len(),
{
    if points.len() == 0 {
        (Ok(()), s)
    } else {
        let (r, t) = points_written(s, size, points.drop_last());
        let at = sample_offset(points.len() - 1, size);
        let p = points.last();
        match r {
            Err(e) => (Err(e), t),
            Ok(_) => (
                crate::points::fits(t, at, p.format().size() as int),
                crate::points::written(t, at, p.bytes()),
            ),
        }
    }
}

/// The buffer after building a frame in `s`, and whether it succeeded.
pub open spec fn built(header: DataFrameHeader, payload: Samples, s: Seq<u8>) -> (
    Result<(), Failure>,
    Seq<u8>,
) {
    let total = DATA_HEADER_SIZE + payload_size(header, payload);
    if s.len() < total {
        (Err(Failure::BufferTooSmall), s)
    } else {
        let headed = wire::splice(s, 0, header.bytes(total as nat));
        let (r, t) = match payload {
            Samples::Imu(sample) => (
                Ok(()),
                wire::splice(headed, DATA_HEADER_SIZE as int, sample.bytes()),
            ),
            Samples::Points(points) => points_written(
                headed,
                header.data_type.size() as int,
                points,
            ),
        };
        match r {
            Err(e) => (Err(e), t),
            Ok(_) => (Ok(()), sealed(t, total)),
        }
    }
}

proof fn lemma_header_len(header: DataFrameHeader, total: nat)
    ensures
        header.bytes(total).len() == DATA_HEADER_SIZE,
{
    reveal(DataFrameHeader::bytes);
}

proof fn lemma_points_written_len(s: Seq<u8>, size: int, points: Seq<Point>)
    requires
        0 < size,
        sample_offset(points.len() as int, size) <= s.len(),
    ensures
        points_written(s, size, points).1.len() == s.len(),
    decreases points.len(),
{
    if points.len() > 0 {
        let n = points.len() as int;
        assert(0 <= (n - 1) * size && (n - 1) * size + size == n * size) by (nonlinear_arith)
            requires
                0 < n,
                0 < size,
        ;
        lemma_points_written_len(s, size, points.drop_last());
        points.last().round_trip(Seq::empty());
    }
}

/// Once a point does not fit, nothing more is written.
proof fn lemma_writing_stops(s: Seq<u8>, size: int, points: Seq<Point>, k: int)
    requires
        0 <= k <= points.len(),
        points_written(s, size, points.subrange(0, k)).0 is Err,
    ensures
        points_written(s, size, points) == points_written(s, size, points.subrange(0, k)),
    decreases points.len() - k,
{
    if k == points.len() {
        assert(points.subrange(0, k) == points);
    } else {
        assert(points.drop_last().subrange(0, k) == points.subrange(0, k));
        lemma_writing_stops(s, size, points.drop_last(), k);
    }
}

impl DataPacket {
    /// Reads the packet in `buf`.
    pub fn parse(buf: &[u8]) -> (r: Result<Self, LidarError>)
        ensures
            error::seen_deep(r) == packet_of(buf@),
    {
        let header = match DataFrameHeader::parse(buf) {
            Ok(v) => v,
            Err(e) => return Err(e),
        };
        if header.data_type == DataType::Imu {
            let sample = match ImuSample::parse(slice_subrange(buf, DATA_HEADER_SIZE, buf.len())) {
                Ok(v) => v,
                Err(e) => return Err(e),
            };
            return Ok(DataPacket { header, payload: DataPayload::Imu(sample) });
        }
        let size: usize = header.data_type.point_size();
        let n: usize = header.dot_num as usize;
        let mut points: Vec<Point> = Vec::new();
        let mut off: usize = DATA_HEADER_SIZE;
        let mut i: usize = 0;
        while i < n
            invariant
                i <= n == header.dot_num,
                header_of(buf@) == Ok::<DataFrameHeader, Failure>(header),
                !(header.data_type is Imu),
                size == header.data_type.size(),
                off == sample_offset(i as int, size as int),
                sample_offset(n as int, size as int) <= buf.len(),
                points@ == Seq::new(i as nat, |k: int| point_at(header.data_type, buf@, k)),
            decreases n - i,
        {
            assert(i * size + size <= n * size && i * size + size == (i + 1) * size)
                by (nonlinear_arith)
                requires
                    i < n,
            ;
            let point = match Point::parse(
                header.data_type,
                slice_subrange(buf, off, off + size),
            ) {
                Ok(v) => v,
                Err(e) => return Err(e),
            };
            points.push(point);
            off = off + size;
            i = i + 1;
        }
        Ok(DataPacket { header, payload: DataPayload::Points(points) })
    }

    /// Builds the frame of a header and its samples at the start of `buf`. The
    /// length and checksum fields are computed.
    pub fn build(header: &DataFrameHeader, payload: &DataPayload, buf: &mut [u8]) -> (r: Result<
        (),
        LidarError,
    >)
        requires
            DATA_HEADER_SIZE + payload_size(*header, payload@) <= usize::MAX,
        ensures
            error::seen(r) == built(*header, payload@, old(buf)@).0,
            final(buf)@ == built(*header, payload@, old(buf)@).1,
    {
        let size: usize = header.data_type.point_size();
        let payload_len: usize = match payload {
            DataPayload::Imu(_) => ImuSample::SIZE,
            DataPayload::Points(points) => size * points.len(),
        };
        match header.write(buf, payload_len) {
            Ok(()) => {},
            Err(e) => return Err(e),
        }
        let ghost headed = buf@;
        proof {
            lemma_header_len(*header, (DATA_HEADER_SIZE + payload_size(*header, payload@)) as nat);
        }
        match payload {
            DataPayload::Imu(sample) => {
                match sample.write_at(buf, DATA_HEADER_SIZE) {
                    Ok(()) => {},
                    Err(e) => return Err(e),
                }
            },
            DataPayload::Points(points) => {
                let n: usize = points.len();
                let mut off: usize = DATA_HEADER_SIZE;
                let mut i: usize = 0;
                assert(points@.subrange(0, 0) == Seq::<Point>::empty());
                while i < n
                    invariant
                        i <= n == points@.len(),
                        0 < size == header.data_type.size(),
                        off == sample_offset(i as int, size as int),
                        sample_offset(n as int, size as int) <= buf.len(),
                        buf@.len() == headed.len(),
                        payload@ == Samples::Points(points@),
                        old(buf)@.len() >= DATA_HEADER_SIZE + payload_size(*header, payload@),
                        headed == wire::splice(
                            old(buf)@,
                            0,
                            header.bytes(
                                (DATA_HEADER_SIZE + payload_size(*header, payload@)) as nat,
                            ),
                        ),
                        points_written(headed, size as int, points@.subrange(0, i as int)) == (
                            Ok::<(), Failure>(()),
                            buf@,
                        ),
                    decreases n - i,
                {
                    assert(i * size + size <= n * size && i * size + size == (i + 1) * size)
                        by (nonlinear_arith)
                        requires
                            i < n,
                    ;
                    proof {
                        let next = points@.subrange(0, i + 1);
                        assert(next.drop_last() == points@.subrange(0, i as int));
                        lemma_points_written_len(headed, size as int, next);
                        points@[i as int].round_trip(Seq::empty());
                    }
                    match points[i].write_at(buf, off) {
                        Ok(()) => {},
                        Err(e) => {
                            proof {
                                lemma_writing_stops(headed, size as int, points@, i + 1);
                            }
                            return Err(e);
                        },
                    }
                    off = off + size;
                    i = i + 1;
                }
                assert(points@.subrange(0, n as int) == points@);
            },
        }
        header.fill_crc(buf, payload_len)
    }

    /// A packet of points. The header counts them with 16 bits.
    pub fn from_points(header: DataFrameHeader, points: Vec<Point>) -> (packet: Self)
        ensures
            packet@ == (Packet {
                header: (DataFrameHeader { dot_num: wire::low16(points@.len()), ..header }),
                payload: Samples::Points(points@),
            }),
            packet@ == points_packet(header, points@),
    {
        let dot_num: u16 = truncate16(points.len());
        DataPacket {
            header: DataFrameHeader { dot_num, ..header },
            payload: DataPayload::Points(points),
        }
    }

    /// A packet of one IMU sample.
    pub fn from_imu(header: DataFrameHeader, sample: ImuSample) -> (packet: Self)
        ensures
            packet@ == (Packet {
                header: (DataFrameHeader { dot_num: 1, data_type: DataType::Imu, ..header }),
                payload: Samples::Imu(sample),
            }),
            packet@ == imu_packet(header, sample),
    {
        DataPacket {
            header: DataFrameHeader { dot_num: 1, data_type: DataType::Imu, ..header },
            payload: DataPayload::Imu(sample),
        }
    }

    /// The frame of this packet, in a buffer of exactly the computed length.
    pub fn to_bytes(&self) -> (r: Result<Vec<u8>, LidarError>)
        requires
            DATA_HEADER_SIZE + payload_size(self.header, self.payload@) <= usize::MAX,
        ensures
            error::seen_deep(r) == frame_of(self@),
    {
        let payload_len: usize = match &self.payload {
            DataPayload::Imu(_) => ImuSample::SIZE,
            DataPayload::Points(points) => self.header.data_type.point_size() * points.len(),
        };
        let total: usize = DATA_HEADER_SIZE + payload_len;
        let mut buf: Vec<u8> = Vec::new();
        let mut i: usize = 0;
        while i < total
            invariant
                i <= total,
                buf@ == Seq::new(i as nat, |k: int| 0u8),
            decreases total - i,
        {
            buf.push(0);
            i = i + 1;
        }
        match DataPacket::build(&self.header, &self.payload, buf.as_mut_slice()) {
            Ok(()) => Ok(buf),
            Err(e) => Err(e),
        }
    }
}

/// The frame of a packet, built in a zeroed buffer of the computed length.
pub open spec fn frame_of(p: Packet) -> Result<Seq<u8>, Failure> {
    let total = DATA_HEADER_SIZE + payload_size(p.header, p.payload);
    let (r, s) = built(p.header, p.payload, Seq::new(total as nat, |i: int| 0u8));
    match r {
        Ok(_) => Ok(s),
        Err(e) => Err(e),
    }
}

/// Whether the header describes the samples, and the frame is short enough for
/// its length field.
pub open spec fn describes(header: DataFrameHeader, payload: Samples) -> bool {
    &&& DATA_HEADER_SIZE + payload_size(header, payload) <= 0xFFFF
    &&& match payload {
        Samples::Imu(_) => header.data_type is Imu,
        Samples::Points(points) => {
            &&& !(header.data_type is Imu)
            &&& header.dot_num == points.len()
            &&& forall|i: int|
                0 <= i < points.len() ==> (#[trigger] points[i]).format() == header.data_type
        },
    }
}

proof fn lemma_points_stand(s: Seq<u8>, data_type: DataType, points: Seq<Point>)
    requires
        sample_offset(points.len() as int, data_type.size() as int) <= s.len(),
        forall|i: int| 0 <= i < points.len() ==> (#[trigger] points[i]).format() == data_type,
    ensures
        ({
            let size = data_type.size() as int;
            let (r, t) = points_written(s, size, points);
            &&& r == Ok::<(), Failure>(())
            &&& t.len() == s.len()
            &&& t.subrange(0, DATA_HEADER_SIZE as int) == s.subrange(0, DATA_HEADER_SIZE as int)
            &&& forall|i: int|
                sample_offset(points.len() as int, size) <= i < s.len() ==> t[i] == s[i]
            &&& forall|j: int|
                0 <= j < points.len() ==> t.subrange(
                    sample_offset(j, size),
                    sample_offset(j, size) + size,
                ) == (#[trigger] points[j]).bytes()
        }),
    decreases points.len(),
{
    let size = data_type.size() as int;
    if points.len() > 0 {
        let n = points.len() as int;
        let front = points.drop_last();
        let p = points.last();
        assert(0 <= (n - 1) * size && (n - 1) * size + size == n * size) by (nonlinear_arith)
            requires
                0 < n,
                0 < size,
        ;
        assert forall|i: int| 0 <= i < front.len() implies (#[trigger] front[i]).format()
            == data_type by {
            assert(front[i] == points[i]);
        }
        lemma_points_stand(s, data_type, front);
        assert(p.format() == data_type) by {
            assert(p == points[n - 1]);
        }
        p.round_trip(Seq::empty());
        let before = points_written(s, size, front).1;
        let t = points_written(s, size, points).1;
        let at = sample_offset(n - 1, size);
        assert(t == wire::splice(before, at, p.bytes()));
        assert(t.subrange(0, DATA_HEADER_SIZE as int) == before.subrange(
            0,
            DATA_HEADER_SIZE as int,
        ));
        assert forall|j: int| 0 <= j < n implies t.subrange(
            sample_offset(j, size),
            sample_offset(j, size) + size,
        ) == (#[trigger] points[j]).bytes() by {
            let o = sample_offset(j, size);
            if j == n - 1 {
                assert(t.subrange(at, at + size) == p.bytes());
            } else {
                assert(0 <= j * size && j * size + size <= (n - 1) * size) by (nonlinear_arith)
                    requires
                        0 <= j < n - 1,
                        0 < size,
                ;
                assert(front[j] == points[j]);
                assert(t.subrange(o, o + size) == before.subrange(o, o + size));
            }
        }
    }
}

proof fn lemma_header_stands(header: DataFrameHeader, total: nat, u: Seq<u8>)
    requires
        DATA_HEADER_SIZE <= total <= 0xFFFF,
        total <= u.len(),
        u.subrange(0, 24) == header.bytes(total).subrange(0, 24),
        u.subrange(28, 36) == header.bytes(total).subrange(28, 36),
        total == DATA_HEADER_SIZE + expected_payload(header.data_type, header.dot_num),
        crc_accepted(u, total as int),
    ensures
        header_of(u) == Ok::<DataFrameHeader, Failure>(
            (DataFrameHeader { length: total as u16, ..header }),
        ),
{
    let b = header.bytes(total);
    reveal(DataFrameHeader::bytes);
    assert forall|i: int| 0 <= i < 24 implies u[i] == b[i] by {
        assert(u.subrange(0, 24)[i] == b.subrange(0, 24)[i]);
    }
    assert(wire::low16(total) == total);
    wire::lemma_u16_stands(u, 1, total as u16);
    wire::lemma_u16_stands(u, 3, header.time_interval);
    wire::lemma_u16_stands(u, 5, header.dot_num);
    wire::lemma_u16_stands(u, 7, header.udp_cnt);
    assert(b.subrange(28, 36) == wire::u64_bytes(header.timestamp));
    wire::lemma_u64_stands(u, 28, header.timestamp);
    protocol::byte_codes_round_trip(
        header.data_type,
        header.time_type,
        protocol::CmdType::Req,
        protocol::SenderType::Host,
        protocol::LidarState::Idle,
        protocol::ReturnCode::Success,
        0,
    );
}

/// The first `k` bytes of a frame that was written and then sealed.
proof fn lemma_sealed(header: DataFrameHeader, total: int, t: Seq<u8>, k: int)
    requires
        DATA_HEADER_SIZE <= total <= 0xFFFF,
        total <= k <= t.len(),
        t.subrange(0, DATA_HEADER_SIZE as int) == header.bytes(total as nat),
        total == DATA_HEADER_SIZE + expected_payload(header.data_type, header.dot_num),
    ensures
        header_of(sealed(t, total).subrange(0, k)) == Ok::<DataFrameHeader, Failure>(
            (DataFrameHeader { length: total as u16, ..header }),
        ),
        sealed(t, total).subrange(0, k).subrange(28, k) == t.subrange(28, k),
{
    let c = crc::crc32_of(t.subrange(28, total));
    let u = sealed(t, total).subrange(0, k);
    let b = header.bytes(total as nat);
    assert forall|i: int| 0 <= i < 36 implies t[i] == b[i] by {
        assert(t.subrange(0, 36)[i] == b[i]);
    }
    wire::lemma_u32_stands(u, 24, c);
    assert(u.subrange(28, total) == t.subrange(28, total));
    assert(u.subrange(28, k) == t.subrange(28, k));
    assert(u.subrange(0, 24) == b.subrange(0, 24));
    assert(u.subrange(28, 36) == b.subrange(28, 36));
    lemma_header_stands(header, total as nat, u);
}

proof fn lemma_imu_round_trip(header: DataFrameHeader, sample: ImuSample, s: Seq<u8>, k: int)
    requires
        header.data_type is Imu,
        60 <= k <= s.len(),
    ensures
        built(header, Samples::Imu(sample), s).0 == Ok::<(), Failure>(()),
        packet_of(built(header, Samples::Imu(sample), s).1.subrange(0, k)) == Ok::<
            Packet,
            Failure,
        >(
            (Packet {
                header: (DataFrameHeader { length: 60, ..header }),
                payload: Samples::Imu(sample),
            }),
        ),
{
    let b = header.bytes(60);
    let headed = wire::splice(s, 0, b);
    let body = sample.bytes();
    let t = wire::splice(headed, DATA_HEADER_SIZE as int, body);
    lemma_header_len(header, 60);
    sample.round_trip(Seq::empty());
    assert(t.subrange(0, 36) == b);
    lemma_sealed(header, 60, t, k);
    let u = sealed(t, 60).subrange(0, k);
    let tail = t.subrange(60, k);
    assert(u.subrange(36, k) == u.subrange(28, k).subrange(8, k - 28));
    assert(t.subrange(28, k).subrange(8, k - 28) == body + tail);
    sample.round_trip(tail);
}

proof fn lemma_points_round_trip(header: DataFrameHeader, points: Seq<Point>, s: Seq<u8>, k: int)
    requires
        describes(header, Samples::Points(points)),
        sample_offset(points.len() as int, header.data_type.size() as int) <= k <= s.len(),
    ensures
        built(header, Samples::Points(points), s).0 == Ok::<(), Failure>(()),
        packet_of(built(header, Samples::Points(points), s).1.subrange(0, k)) == Ok::<
            Packet,
            Failure,
        >(
            (Packet {
                header: (DataFrameHeader {
                    length: (DATA_HEADER_SIZE + payload_size(
                        header,
                        Samples::Points(points),
                    )) as u16,
                    ..header
                }),
                payload: Samples::Points(points),
            }),
        ),
{
    let size = header.data_type.size() as int;
    let n = points.len() as int;
    assert(n * size == header.data_type.size() * points.len()) by (nonlinear_arith)
        requires
            n == points.len(),
            size == header.data_type.size(),
    ;
    let total = DATA_HEADER_SIZE + payload_size(header, Samples::Points(points));
    assert(total >= DATA_HEADER_SIZE) by (nonlinear_arith)
        requires
            total == DATA_HEADER_SIZE + n * size,
            n >= 0,
            size > 0,
    ;
    let b = header.bytes(total as nat);
    let headed = wire::splice(s, 0, b);
    lemma_header_len(header, total as nat);
    assert(headed.subrange(0, 36) == b);
    lemma_points_stand(headed, header.data_type, points);
    let t = points_written(headed, size, points).1;
    lemma_sealed(header, total, t, k);
    let u = sealed(t, total).subrange(0, k);
    let got = Seq::new(header.dot_num as nat, |i: int| point_at(header.data_type, u, i));
    assert forall|i: int| 0 <= i < points.len() implies got[i] == points[i] by {
        let o = sample_offset(i, size);
        assert(0 <= i * size && i * size + size <= n * size) by (nonlinear_arith)
            requires
                0 <= i < n,
                0 < size,
        ;
        assert(u.subrange(28, k).subrange(o - 28, o - 28 + size) == u.subrange(o, o + size));
        assert(t.subrange(28, k).subrange(o - 28, o - 28 + size) == t.subrange(o, o + size));
        points[i].round_trip(Seq::empty());
        assert(points[i].bytes() + Seq::<u8>::empty() == points[i].bytes());
    }
    assert(got == points);
}

/// Parsing a built frame, with or without the bytes behind it, gives back the
/// samples and the header with its length filled in.
pub proof fn packet_round_trip(header: DataFrameHeader, payload: Samples, s: Seq<u8>, k: int)
    requires
        describes(header, payload),
        DATA_HEADER_SIZE + payload_size(header, payload) <= k <= s.len(),
    ensures
        built(header, payload, s).0 == Ok::<(), Failure>(()),
        packet_of(built(header, payload, s).1.subrange(0, k)) == Ok::<Packet, Failure>(
            (Packet {
                header: (DataFrameHeader {
                    length: (DATA_HEADER_SIZE + payload_size(header, payload)) as u16,
                    ..header
                }),
                payload,
            }),
        ),
{
    match payload {
        Samples::Imu(sample) => lemma_imu_round_trip(header, sample, s, k),
        Samples::Points(points) => {
            assert(header.data_type.size() * points.len() == points.len()
                * header.data_type.size()) by (nonlinear_arith);
            lemma_points_round_trip(header, points, s, k);
        },
    }
}

proof fn lemma_built_len(header: DataFrameHeader, payload: Samples, s: Seq<u8>)
    requires
        describes(header, payload),
        DATA_HEADER_SIZE + payload_size(header, payload) <= s.len(),
    ensures
        built(header, payload, s).1.len() == s.len(),
{
    let total = DATA_HEADER_SIZE + payload_size(header, payload);
    lemma_header_len(header, total as nat);
    let headed = wire::splice(s, 0, header.bytes(total as nat));
    match payload {
        Samples::Imu(sample) => {
            sample.round_trip(Seq::empty());
        },
        Samples::Points(points) => {
            assert(header.data_type.size() * points.len() == points.len()
                * header.data_type.size() && points.len() * header.data_type.size() >= 0)
                by (nonlinear_arith);
            lemma_points_stand(headed, header.data_type, points);
        },
    }
}

/// The parts of a built frame: its header around the checksum, the checksum, and
/// the buffer behind the frame.
pub proof fn lemma_built(header: DataFrameHeader, payload: Samples, s: Seq<u8>)
    requires
        describes(header, payload),
        DATA_HEADER_SIZE + payload_size(header, payload) <= s.len(),
    ensures
        ({
            let total = DATA_HEADER_SIZE + payload_size(header, payload);
            let out = built(header, payload, s).1;
            let b = header.bytes(total as nat);
            &&& out.len() == s.len()
            &&& total >= DATA_HEADER_SIZE
            &&& b.len() == DATA_HEADER_SIZE
            &&& forall|i: int| 0 <= i < 24 ==> out[i] == b[i]
            &&& forall|i: int| 28 <= i < 36 ==> out[i] == b[i]
            &&& wire::u32_at(out, 24) == crc::crc32_of(out.subrange(28, total))
            &&& forall|i: int| total <= i < s.len() ==> out[i] == s[i]
        }),
{
    let total = DATA_HEADER_SIZE + payload_size(header, payload);
    let b = header.bytes(total as nat);
    lemma_header_len(header, total as nat);
    let headed = wire::splice(s, 0, b);
    let t = match payload {
        Samples::Imu(sample) => wire::splice(headed, DATA_HEADER_SIZE as int, sample.bytes()),
        Samples::Points(points) => points_written(
            headed,
            header.data_type.size() as int,
            points,
        ).1,
    };
    match payload {
        Samples::Imu(sample) => {
            sample.round_trip(Seq::empty());
        },
        Samples::Points(points) => {
            assert(header.data_type.size() * points.len() == points.len()
                * header.data_type.size() && points.len() * header.data_type.size() >= 0)
                by (nonlinear_arith);
            lemma_points_stand(headed, header.data_type, points);
            assert forall|i: int| 0 <= i < 36 implies t[i] == headed[i] by {
                assert(t.subrange(0, 36)[i] == headed.subrange(0, 36)[i]);
            }
        },
    }
    let c = crc::crc32_of(t.subrange(28, total));
    let out = sealed(t, total);
    assert(out == built(header, payload, s).1);
    wire::lemma_u32_stands(out, 24, c);
    assert(out.subrange(28, total) == t.subrange(28, total));
}

/// A packet survives being turned into bytes and parsed again, up to the length
/// field, which is filled in.
pub proof fn frame_round_trip(p: Packet)
    requires
        describes(p.header, p.payload),
    ensures
        frame_of(p) matches Ok(bytes) && packet_of(bytes) == Ok::<Packet, Failure>(
            (Packet {
                header: (DataFrameHeader {
                    length: (DATA_HEADER_SIZE + payload_size(p.header, p.payload)) as u16,
                    ..p.header
                }),
                payload: p.payload,
            }),
        ),
{
    let total = DATA_HEADER_SIZE + payload_size(p.header, p.payload);
    assert(total >= 0) by {
        if let Samples::Points(points) = p.payload {
            assert(p.header.data_type.size() * points.len() >= 0) by (nonlinear_arith);
        }
    }
    let zeros = Seq::new(total as nat, |i: int| 0u8);
    packet_round_trip(p.header, p.payload, zeros, total);
    lemma_built_len(p.header, p.payload, zeros);
    let out = built(p.header, p.payload, zeros).1;
    assert(out.subrange(0, total) == out);
}

/// Damage to one byte of the timestamp or the payload of a frame that carries
/// a checksum is always noticed.
pub proof fn damaged_payload_is_rejected(s: Seq<u8>, i: int, b: u8)
    requires
        header_of(s) is Ok,
        wire::u32_at(s, 24) != 0,
        28 <= i < wire::u16_at(s, 1),
        b != s[i],
    ensures
        packet_of(s.update(i, b)) == Err::<Packet, Failure>(Failure::CrcMismatch),
{
    let length = wire::u16_at(s, 1) as int;
    let t = s.update(i, b);
    assert(t.subrange(28, length) == s.subrange(28, length).update(i - 28, b));
    crc::crc32_notices_one_byte(s.subrange(28, length), i - 28, b);
}

} // verus!
