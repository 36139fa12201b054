//! Samples of the data stream.

use vstd::prelude::*;
use vstd::std_specs::cmp::PartialEqSpecImpl;

use crate::error::{self, Failure, LidarError};
use crate::protocol::DataType;
use crate::wire::{
    self, get_u16, get_u32, put_u16, put_u32, put_u8, to_signed16, to_signed32, to_unsigned16,
    to_unsigned32,
};

verus! {

/// Whether `size` bytes fit into `s` from `at` on.
pub open spec fn fits(s: Seq<u8>, at: int, size: int) -> Result<(), Failure> {
    if s.len() - at < size {
        Err(Failure::BufferTooSmall)
    } else {
        Ok(())
    }
}

/// `s` with `b` written from `at` on if it fits, and unchanged if it does not.
pub open spec fn written(s: Seq<u8>, at: int, b: Seq<u8>) -> Seq<u8> {
    if s.len() - at < b.len() {
        s
    } else {
        wire::splice(s, at, b)
    }
}

/// 8-bit tag carrying confidence / property flags for a single point.
#[derive(Debug, Clone, Copy, PartialEq, Eq, Structural)]
pub struct Tag(pub u8);

impl Tag {
    pub fn raw(self) -> (b: u8)
        ensures
            b == self.0,
    {
        self.0
    }

    /// Confidence of the main detection point.
    pub open spec fn detection(self) -> int {
        (self.0 as int / 16) % 4
    }

    /// Confidence for particles.
    pub open spec fn particle(self) -> int {
        (self.0 as int / 4) % 4
    }

    /// Confidence for adhesion.
    pub open spec fn adhesion(self) -> int {
        self.0 as int % 4
    }

    /// Whether all three confidences are high.
    pub open spec fn high(self) -> bool {
        self.detection() == 0 && self.particle() == 0 && self.adhesion() == 0
    }

    /// Confidence of the main detection point (bits 4-5).
    /// 0 = high, 1 = medium, 2 = low, 3 = reserved.
    pub fn detection_confidence(self) -> (c: u8)
        ensures
            c == (self.0 as int / 16) % 4,
            c == self.detection(),
    {
        (self.0 / 16) % 4
    }

    /// Confidence for rain/fog/dust particles (bits 2-3).
    pub fn particle_confidence(self) -> (c: u8)
        ensures
            c == (self.0 as int / 4) % 4,
            c == self.particle(),
    {
        (self.0 / 4) % 4
    }

    /// Confidence for adhesion/glue points between adjacent objects (bits 0-1).
    pub fn adhesion_confidence(self) -> (c: u8)
        ensures
            c == self.0 as int % 4,
            c == self.adhesion(),
    {
        self.0 % 4
    }

    /// Whether all three confidences are high, that is bits 0-5 are zero.
    pub fn is_high_confidence(self) -> (r: bool)
        ensures
            r == (self.0 as int % 64 == 0),
            r == self.high(),
    {
        self.detection_confidence() == 0 && self.particle_confidence() == 0
            && self.adhesion_confidence() == 0
    }
}

/// Single-return Cartesian point with 32-bit millimetre resolution.
#[derive(Debug, Clone, Copy, PartialEq)]
pub struct Cartesian32Point {
    pub x_mm: i32,
    pub y_mm: i32,
    pub z_mm: i32,
    pub reflectivity: u8,
    pub tag: Tag,
}

impl Cartesian32Point {
    /// Bytes on the wire.
    pub const SIZE: usize = 14;

    /// The sample at the start of `s`, or what is wrong with it.
    pub open spec fn of(s: Seq<u8>) -> Result<Self, Failure> {
        if s.len() < 14 {
            Err(error::too_short(14, s.len() as int))
        } else {
            Ok(
                Cartesian32Point {
                    x_mm: wire::signed32(wire::u32_at(s, 0)),
                    y_mm: wire::signed32(wire::u32_at(s, 4)),
                    z_mm: wire::signed32(wire::u32_at(s, 8)),
                    reflectivity: s[12],
                    tag: Tag(s[13]),
                },
            )
        }
    }

    /// The sample on the wire.
    pub open spec fn bytes(self) -> Seq<u8> {
        wire::u32_bytes(wire::unsigned32(self.x_mm)) + wire::u32_bytes(wire::unsigned32(self.y_mm)) + wire::u32_bytes(wire::unsigned32(self.z_mm)) + seq![self.reflectivity, self.tag.0]
    }

    /// Reading a written sample gives it back, whatever bytes follow.
    pub proof fn round_trip(self, tail: Seq<u8>)
        ensures
            Self::of(self.bytes() + tail) == Ok::<Self, Failure>(self),
            self.bytes().len() == 14,
    {
        let s = self.bytes() + tail;
        wire::lemma_u32_stands(s, 0, wire::unsigned32(self.x_mm));
        wire::sign_round_trip(0, self.x_mm);
        wire::lemma_u32_stands(s, 4, wire::unsigned32(self.y_mm));
        wire::sign_round_trip(0, self.y_mm);
        wire::lemma_u32_stands(s, 8, wire::unsigned32(self.z_mm));
        wire::sign_round_trip(0, self.z_mm);
    }

    pub fn parse(buf: &[u8]) -> (r: Result<Self, LidarError>)
        ensures
            error::seen(r) == Self::of(buf@),
    {
        if buf.len() < Self::SIZE {
            return Err(LidarError::PacketTooShort { need: Self::SIZE, got: buf.len() });
        }
        Ok(
            Cartesian32Point {
                x_mm: to_signed32(get_u32(buf, 0)),
                y_mm: to_signed32(get_u32(buf, 4)),
                z_mm: to_signed32(get_u32(buf, 8)),
                reflectivity: buf[12],
                tag: Tag(buf[13]),
            },
        )
    }

    /// Writes the sample to the start of `buf` and leaves the rest as it is.
    pub fn write(&self, buf: &mut [u8]) -> (r: Result<(), LidarError>)
        ensures
            error::seen(r) == fits(old(buf)@, 0, 14),
            final(buf)@ == written(old(buf)@, 0, self.bytes()),
    {
        self.write_at(buf, 0)
    }

    /// Writes the sample to `buf` from `at` on and leaves the rest as it is.
    pub fn write_at(&self, buf: &mut [u8], at: usize) -> (r: Result<(), LidarError>)
        requires
            at <= old(buf).len(),
        ensures
            error::seen(r) == fits(old(buf)@, at as int, 14),
            final(buf)@ == written(old(buf)@, at as int, self.bytes()),
    {
        if buf.len() - at < Self::SIZE {
            return Err(LidarError::BufferTooSmall);
        }
        let ghost start = buf@;
        put_u32(buf, at, to_unsigned32(self.x_mm));
        let ghost h0 = wire::u32_bytes(wire::unsigned32(self.x_mm));
        put_u32(buf, at + 4, to_unsigned32(self.y_mm));
        let ghost h1 = h0 + wire::u32_bytes(wire::unsigned32(self.y_mm));
        proof {
            wire::lemma_splice_append(start, at as int, h0, wire::u32_bytes(wire::unsigned32(self.y_mm)));
        }
        put_u32(buf, at + 8, to_unsigned32(self.z_mm));
        let ghost h2 = h1 + wire::u32_bytes(wire::unsigned32(self.z_mm));
        proof {
            wire::lemma_splice_append(start, at as int, h1, wire::u32_bytes(wire::unsigned32(self.z_mm)));
        }
        put_u8(buf, at + 12, self.reflectivity);
        let ghost h3 = h2 + seq![self.reflectivity];
        proof {
            wire::lemma_splice_append(start, at as int, h2, seq![self.reflectivity]);
        }
        put_u8(buf, at + 13, self.tag.0);
        let ghost h4 = h3 + seq![self.tag.0];
        proof {
            wire::lemma_splice_append(start, at as int, h3, seq![self.tag.0]);
        }
        assert(h4 == self.bytes());
        Ok(())
    }
}

/// Single-return Cartesian point with 16-bit 10 mm resolution.
#[derive(Debug, Clone, Copy, PartialEq)]
pub struct Cartesian16Point {
    pub x_10mm: i16,
    pub y_10mm: i16,
    pub z_10mm: i16,
    pub reflectivity: u8,
    pub tag: Tag,
}

impl Cartesian16Point {
    /// Bytes on the wire.
    pub const SIZE: usize = 8;

    /// The sample at the start of `s`, or what is wrong with it.
    pub open spec fn of(s: Seq<u8>) -> Result<Self, Failure> {
        if s.len() < 8 {
            Err(error::too_short(8, s.len() as int))
        } else {
            Ok(
                Cartesian16Point {
                    x_10mm: wire::signed16(wire::u16_at(s, 0)),
                    y_10mm: wire::signed16(wire::u16_at(s, 2)),
                    z_10mm: wire::signed16(wire::u16_at(s, 4)),
                    reflectivity: s[6],
                    tag: Tag(s[7]),
                },
            )
        }
    }

    /// The sample on the wire.
    pub open spec fn bytes(self) -> Seq<u8> {
        wire::u16_bytes(wire::unsigned16(self.x_10mm)) + wire::u16_bytes(wire::unsigned16(self.y_10mm)) + wire::u16_bytes(wire::unsigned16(self.z_10mm)) + seq![self.reflectivity, self.tag.0]
    }

    /// Reading a written sample gives it back, whatever bytes follow.
    pub proof fn round_trip(self, tail: Seq<u8>)
        ensures
            Self::of(self.bytes() + tail) == Ok::<Self, Failure>(self),
            self.bytes().len() == 8,
    {
        let s = self.bytes() + tail;
        wire::lemma_u16_stands(s, 0, wire::unsigned16(self.x_10mm));
        wire::sign_round_trip(self.x_10mm, 0);
        wire::lemma_u16_stands(s, 2, wire::unsigned16(self.y_10mm));
        wire::sign_round_trip(self.y_10mm, 0);
        wire::lemma_u16_stands(s, 4, wire::unsigned16(self.z_10mm));
        wire::sign_round_trip(self.z_10mm, 0);
    }

    pub fn parse(buf: &[u8]) -> (r: Result<Self, LidarError>)
        ensures
            error::seen(r) == Self::of(buf@),
    {
        if buf.len() < Self::SIZE {
            return Err(LidarError::PacketTooShort { need: Self::SIZE, got: buf.len() });
        }
        Ok(
            Cartesian16Point {
                x_10mm: to_signed16(get_u16(buf, 0)),
                y_10mm: to_signed16(get_u16(buf, 2)),
                z_10mm: to_signed16(get_u16(buf, 4)),
                reflectivity: buf[6],
                tag: Tag(buf[7]),
            },
        )
    }

    /// Writes the sample to the start of `buf` and leaves the rest as it is.
    pub fn write(&self, buf: &mut [u8]) -> (r: Result<(), LidarError>)
        ensures
            error::seen(r) == fits(old(buf)@, 0, 8),
            final(buf)@ == written(old(buf)@, 0, self.bytes()),
    {
        self.write_at(buf, 0)
    }

    /// Writes the sample to `buf` from `at` on and leaves the rest as it is.
    pub fn write_at(&self, buf: &mut [u8], at: usize) -> (r: Result<(), LidarError>)
        requires
            at <= old(buf).len(),
        ensures
            error::seen(r) == fits(old(buf)@, at as int, 8),
            final(buf)@ == written(old(buf)@, at as int, self.bytes()),
    {
        if buf.len() - at < Self::SIZE {
            return Err(LidarError::BufferTooSmall);
        }
        let ghost start = buf@;
        put_u16(buf, at, to_unsigned16(self.x_10mm));
        let ghost h0 = wire::u16_bytes(wire::unsigned16(self.x_10mm));
        put_u16(buf, at + 2, to_unsigned16(self.y_10mm));
        let ghost h1 = h0 + wire::u16_bytes(wire::unsigned16(self.y_10mm));
        proof {
            wire::lemma_splice_append(start, at as int, h0, wire::u16_bytes(wire::unsigned16(self.y_10mm)));
        }
        put_u16(buf, at + 4, to_unsigned16(self.z_10mm));
        let ghost h2 = h1 + wire::u16_bytes(wire::unsigned16(self.z_10mm));
        proof {
            wire::lemma_splice_append(start, at as int, h1, wire::u16_bytes(wire::unsigned16(self.z_10mm)));
        }
        put_u8(buf, at + 6, self.reflectivity);
        let ghost h3 = h2 + seq![self.reflectivity];
        proof {
            wire::lemma_splice_append(start, at as int, h2, seq![self.reflectivity]);
        }
        put_u8(buf, at + 7, self.tag.0);
        let ghost h4 = h3 + seq![self.tag.0];
        proof {
            wire::lemma_splice_append(start, at as int, h3, seq![self.tag.0]);
        }
        assert(h4 == self.bytes());
        Ok(())
    }
}

/// Single-return spherical coordinate point.
#[derive(Debug, Clone, Copy, PartialEq)]
pub struct SphericalPoint {
    pub depth_mm: u32,
    pub theta_0_01_deg: u16,
    pub phi_0_01_deg: u16,
    pub reflectivity: u8,
    pub tag: Tag,
}

impl SphericalPoint {
    /// Bytes on the wire.
    pub const SIZE: usize = 10;

    /// The sample at the start of `s`, or what is wrong with it.
    pub open spec fn of(s: Seq<u8>) -> Result<Self, Failure> {
        if s.len() < 10 {
            Err(error::too_short(10, s.len() as int))
        } else {
            Ok(
                SphericalPoint {
                    depth_mm: wire::u32_at(s, 0),
                    theta_0_01_deg: wire::u16_at(s, 4),
                    phi_0_01_deg: wire::u16_at(s, 6),
                    reflectivity: s[8],
                    tag: Tag(s[9]),
                },
            )
        }
    }

    /// The sample on the wire.
    pub open spec fn bytes(self) -> Seq<u8> {
        wire::u32_bytes(self.depth_mm) + wire::u16_bytes(self.theta_0_01_deg) + wire::u16_bytes(self.phi_0_01_deg) + seq![self.reflectivity, self.tag.0]
    }

    /// Reading a written sample gives it back, whatever bytes follow.
    pub proof fn round_trip(self, tail: Seq<u8>)
        ensures
            Self::of(self.bytes() + tail) == Ok::<Self, Failure>(self),
            self.bytes().len() == 10,
    {
        let s = self.bytes() + tail;
        wire::lemma_u32_stands(s, 0, self.depth_mm);
        wire::lemma_u16_stands(s, 4, self.theta_0_01_deg);
        wire::lemma_u16_stands(s, 6, self.phi_0_01_deg);
    }

    pub fn parse(buf: &[u8]) -> (r: Result<Self, LidarError>)
        ensures
            error::seen(r) == Self::of(buf@),
    {
        if buf.len() < Self::SIZE {
            return Err(LidarError::PacketTooShort { need: Self::SIZE, got: buf.len() });
        }
        Ok(
            SphericalPoint {
                depth_mm: get_u32(buf, 0),
                theta_0_01_deg: get_u16(buf, 4),
                phi_0_01_deg: get_u16(buf, 6),
                reflectivity: buf[8],
                tag: Tag(buf[9]),
            },
        )
    }

    /// Writes the sample to the start of `buf` and leaves the rest as it is.
    pub fn write(&self, buf: &mut [u8]) -> (r: Result<(), LidarError>)
        ensures
            error::seen(r) == fits(old(buf)@, 0, 10),
            final(buf)@ == written(old(buf)@, 0, self.bytes()),
    {
        self.write_at(buf, 0)
    }

    /// Writes the sample to `buf` from `at` on and leaves the rest as it is.
    pub fn write_at(&self, buf: &mut [u8], at: usize) -> (r: Result<(), LidarError>)
        requires
            at <= old(buf).len(),
        ensures
            error::seen(r) == fits(old(buf)@, at as int, 10),
            final(buf)@ == written(old(buf)@, at as int, self.bytes()),
    {
        if buf.len() - at < Self::SIZE {
            return Err(LidarError::BufferTooSmall);
        }
        let ghost start = buf@;
        put_u32(buf, at, self.depth_mm);
        let ghost h0 = wire::u32_bytes(self.depth_mm);
        put_u16(buf, at + 4, self.theta_0_01_deg);
        let ghost h1 = h0 + wire::u16_bytes(self.theta_0_01_deg);
        proof {
            wire::lemma_splice_append(start, at as int, h0, wire::u16_bytes(self.theta_0_01_deg));
        }
        put_u16(buf, at + 6, self.phi_0_01_deg);
        let ghost h2 = h1 + wire::u16_bytes(self.phi_0_01_deg);
        proof {
            wire::lemma_splice_append(start, at as int, h1, wire::u16_bytes(self.phi_0_01_deg));
        }
        put_u8(buf, at + 8, self.reflectivity);
        let ghost h3 = h2 + seq![self.reflectivity];
        proof {
            wire::lemma_splice_append(start, at as int, h2, seq![self.reflectivity]);
        }
        put_u8(buf, at + 9, self.tag.0);
        let ghost h4 = h3 + seq![self.tag.0];
        proof {
            wire::lemma_splice_append(start, at as int, h3, seq![self.tag.0]);
        }
        assert(h4 == self.bytes());
        Ok(())
    }
}

/// Inertial measurement sample from the sensor's IMU. Each field holds the bits of
/// a single-precision float, and samples are equal where those numbers are.
#[derive(Debug, Clone, Copy)]
pub struct ImuSample {
    pub gyro_x: u32,
    pub gyro_y: u32,
    pub gyro_z: u32,
    pub acc_x: u32,
    pub acc_y: u32,
    pub acc_z: u32,
}

/// Whether the bits are those of no number: all exponent bits set, and some bit
/// of the fraction.
pub open spec fn is_nan(bits: u32) -> bool {
    bits % 0x8000_0000 > 0x7F80_0000
}

/// Whether two bit patterns are those of equal single-precision floats. The two
/// zeros are equal, and what is no number equals nothing.
pub open spec fn same_number(a: u32, b: u32) -> bool {
    &&& !is_nan(a)
    &&& !is_nan(b)
    &&& a == b || (a % 0x8000_0000 == 0 && b % 0x8000_0000 == 0)
}

fn equal_numbers(a: u32, b: u32) -> (r: bool)
    ensures
        r == same_number(a, b),
{
    let x: u32 = a % 0x8000_0000;
    let y: u32 = b % 0x8000_0000;
    x <= 0x7F80_0000 && y <= 0x7F80_0000 && (a == b || (x == 0 && y == 0))
}

impl PartialEqSpecImpl for ImuSample {
    open spec fn obeys_eq_spec() -> bool {
        true
    }

    open spec fn eq_spec(&self, other: &Self) -> bool {
        &&& same_number(self.gyro_x, other.gyro_x)
        &&& same_number(self.gyro_y, other.gyro_y)
        &&& same_number(self.gyro_z, other.gyro_z)
        &&& same_number(self.acc_x, other.acc_x)
        &&& same_number(self.acc_y, other.acc_y)
        &&& same_number(self.acc_z, other.acc_z)
    }
}

impl PartialEq for ImuSample {
    fn eq(&self, other: &Self) -> (r: bool) {
        equal_numbers(self.gyro_x, other.gyro_x) && equal_numbers(self.gyro_y, other.gyro_y)
            && equal_numbers(self.gyro_z, other.gyro_z) && equal_numbers(self.acc_x, other.acc_x)
            && equal_numbers(self.acc_y, other.acc_y) && equal_numbers(self.acc_z, other.acc_z)
    }
}

impl ImuSample {
    /// Bytes on the wire.
    pub const SIZE: usize = 24;

    /// The sample at the start of `s`, or what is wrong with it.
    pub open spec fn of(s: Seq<u8>) -> Result<Self, Failure> {
        if s.len() < 24 {
            Err(error::too_short(24, s.len() as int))
        } else {
            Ok(
                ImuSample {
                    gyro_x: wire::u32_at(s, 0),
                    gyro_y: wire::u32_at(s, 4),
                    gyro_z: wire::u32_at(s, 8),
                    acc_x: wire::u32_at(s, 12),
                    acc_y: wire::u32_at(s, 16),
                    acc_z: wire::u32_at(s, 20),
                },
            )
        }
    }

    /// The sample on the wire.
    pub open spec fn bytes(self) -> Seq<u8> {
        wire::u32_bytes(self.gyro_x) + wire::u32_bytes(self.gyro_y) + wire::u32_bytes(self.gyro_z) + wire::u32_bytes(self.acc_x) + wire::u32_bytes(self.acc_y) + wire::u32_bytes(self.acc_z)
    }

    /// Reading a written sample gives it back, whatever bytes follow.
    pub proof fn round_trip(self, tail: Seq<u8>)
        ensures
            Self::of(self.bytes() + tail) == Ok::<Self, Failure>(self),
            self.bytes().len() == 24,
    {
        let s = self.bytes() + tail;
        wire::lemma_u32_stands(s, 0, self.gyro_x);
        wire::lemma_u32_stands(s, 4, self.gyro_y);
        wire::lemma_u32_stands(s, 8, self.gyro_z);
        wire::lemma_u32_stands(s, 12, self.acc_x);
        wire::lemma_u32_stands(s, 16, self.acc_y);
        wire::lemma_u32_stands(s, 20, self.acc_z);
    }

    pub fn parse(buf: &[u8]) -> (r: Result<Self, LidarError>)
        ensures
            error::seen(r) == Self::of(buf@),
    {
        if buf.len() < Self::SIZE {
            return Err(LidarError::PacketTooShort { need: Self::SIZE, got: buf.len() });
        }
        Ok(
            ImuSample {
                gyro_x: get_u32(buf, 0),
                gyro_y: get_u32(buf, 4),
                gyro_z: get_u32(buf, 8),
                acc_x: get_u32(buf, 12),
                acc_y: get_u32(buf, 16),
                acc_z: get_u32(buf, 20),
            },
        )
    }

    /// Writes the sample to the start of `buf` and leaves the rest as it is.
    pub fn write(&self, buf: &mut [u8]) -> (r: Result<(), LidarError>)
        ensures
            error::seen(r) == fits(old(buf)@, 0, 24),
            final(buf)@ == written(old(buf)@, 0, self.bytes()),
    {
        self.write_at(buf, 0)
    }

    /// Writes the sample to `buf` from `at` on and leaves the rest as it is.
    pub fn write_at(&self, buf: &mut [u8], at: usize) -> (r: Result<(), LidarError>)
        requires
            at <= old(buf).len(),
        ensures
            error::seen(r) == fits(old(buf)@, at as int, 24),
            final(buf)@ == written(old(buf)@, at as int, self.bytes()),
    {
        if buf.len() - at < Self::SIZE {
            return Err(LidarError::BufferTooSmall);
        }
        let ghost start = buf@;
        put_u32(buf, at, self.gyro_x);
        let ghost h0 = wire::u32_bytes(self.gyro_x);
        put_u32(buf, at + 4, self.gyro_y);
        let ghost h1 = h0 + wire::u32_bytes(self.gyro_y);
        proof {
            wire::lemma_splice_append(start, at as int, h0, wire::u32_bytes(self.gyro_y));
        }
        put_u32(buf, at + 8, self.gyro_z);
        let ghost h2 = h1 + wire::u32_bytes(self.gyro_z);
        proof {
            wire::lemma_splice_append(start, at as int, h1, wire::u32_bytes(self.gyro_z));
        }
        put_u32(buf, at + 12, self.acc_x);
        let ghost h3 = h2 + wire::u32_bytes(self.acc_x);
        proof {
            wire::lemma_splice_append(start, at as int, h2, wire::u32_bytes(self.acc_x));
        }
        put_u32(buf, at + 16, self.acc_y);
        let ghost h4 = h3 + wire::u32_bytes(self.acc_y);
        proof {
            wire::lemma_splice_append(start, at as int, h3, wire::u32_bytes(self.acc_y));
        }
        put_u32(buf, at + 20, self.acc_z);
        let ghost h5 = h4 + wire::u32_bytes(self.acc_z);
        proof {
            wire::lemma_splice_append(start, at as int, h4, wire::u32_bytes(self.acc_z));
        }
        Ok(())
    }
}

/// Unified point representation returned by the parser.
#[derive(Debug, Clone, Copy, PartialEq)]
pub enum Point {
    Cartesian32(Cartesian32Point),
    Cartesian16(Cartesian16Point),
    Spherical(SphericalPoint),
}

impl Point {
    /// The point in the format `data_type` at the start of `s`, or what is
    /// wrong with it.
    pub open spec fn of(data_type: DataType, s: Seq<u8>) -> Result<Self, Failure> {
        match data_type {
            DataType::PointCloudCartesian32 => match Cartesian32Point::of(s) {
                Ok(p) => Ok(Point::Cartesian32(p)),
                Err(e) => Err(e),
            },
            DataType::PointCloudCartesian16 => match Cartesian16Point::of(s) {
                Ok(p) => Ok(Point::Cartesian16(p)),
                Err(e) => Err(e),
            },
            DataType::PointCloudSpherical => match SphericalPoint::of(s) {
                Ok(p) => Ok(Point::Spherical(p)),
                Err(e) => Err(e),
            },
            DataType::Imu => Err(Failure::InvalidDataType(0)),
        }
    }

    /// The point on the wire.
    pub open spec fn bytes(self) -> Seq<u8> {
        match self {
            Point::Cartesian32(p) => p.bytes(),
            Point::Cartesian16(p) => p.bytes(),
            Point::Spherical(p) => p.bytes(),
        }
    }

    /// The format that this point is in.
    pub open spec fn format(self) -> DataType {
        match self {
            Point::Cartesian32(_) => DataType::PointCloudCartesian32,
            Point::Cartesian16(_) => DataType::PointCloudCartesian16,
            Point::Spherical(_) => DataType::PointCloudSpherical,
        }
    }

    /// Reading a written point in its format gives it back, whatever bytes
    /// follow.
    pub proof fn round_trip(self, tail: Seq<u8>)
        ensures
            Self::of(self.format(), self.bytes() + tail) == Ok::<Self, Failure>(self),
            self.bytes().len() == self.format().size(),
    {
        match self {
            Point::Cartesian32(p) => p.round_trip(tail),
            Point::Cartesian16(p) => p.round_trip(tail),
            Point::Spherical(p) => p.round_trip(tail),
        }
    }

    /// How much of the light came back.
    pub open spec fn reflectance(self) -> u8 {
        match self {
            Point::Cartesian32(p) => p.reflectivity,
            Point::Cartesian16(p) => p.reflectivity,
            Point::Spherical(p) => p.reflectivity,
        }
    }

    /// The tag of the point.
    pub open spec fn marks(self) -> Tag {
        match self {
            Point::Cartesian32(p) => p.tag,
            Point::Cartesian16(p) => p.tag,
            Point::Spherical(p) => p.tag,
        }
    }

    pub fn reflectivity(&self) -> (b: u8)
        ensures
            b == (match *self {
                Point::Cartesian32(p) => p.reflectivity,
                Point::Cartesian16(p) => p.reflectivity,
                Point::Spherical(p) => p.reflectivity,
            }),
            b == self.reflectance(),
    {
        match self {
            Point::Cartesian32(p) => p.reflectivity,
            Point::Cartesian16(p) => p.reflectivity,
            Point::Spherical(p) => p.reflectivity,
        }
    }

    pub fn tag(&self) -> (tag: Tag)
        ensures
            tag == (match *self {
                Point::Cartesian32(p) => p.tag,
                Point::Cartesian16(p) => p.tag,
                Point::Spherical(p) => p.tag,
            }),
            tag == self.marks(),
    {
        match self {
            Point::Cartesian32(p) => p.tag,
            Point::Cartesian16(p) => p.tag,
            Point::Spherical(p) => p.tag,
        }
    }

    pub fn parse(data_type: DataType, buf: &[u8]) -> (r: Result<Self, LidarError>)
        ensures
            error::seen(r) == Self::of(data_type, buf@),
    {
        match data_type {
            DataType::PointCloudCartesian32 => match Cartesian32Point::parse(buf) {
                Ok(p) => Ok(Point::Cartesian32(p)),
                Err(e) => Err(e),
            },
            DataType::PointCloudCartesian16 => match Cartesian16Point::parse(buf) {
                Ok(p) => Ok(Point::Cartesian16(p)),
                Err(e) => Err(e),
            },
            DataType::PointCloudSpherical => match SphericalPoint::parse(buf) {
                Ok(p) => Ok(Point::Spherical(p)),
                Err(e) => Err(e),
            },
            DataType::Imu => Err(LidarError::InvalidDataType(0)),
        }
    }

    /// Writes the point to `buf` from `at` on and leaves the rest as it is.
    pub fn write_at(&self, buf: &mut [u8], at: usize) -> (r: Result<(), LidarError>)
        requires
            at <= old(buf).len(),
        ensures
            error::seen(r) == fits(old(buf)@, at as int, self.format().size() as int),
            final(buf)@ == written(old(buf)@, at as int, self.bytes()),
    {
        match self {
            Point::Cartesian32(p) => p.write_at(buf, at),
            Point::Cartesian16(p) => p.write_at(buf, at),
            Point::Spherical(p) => p.write_at(buf, at),
        }
    }
}

} // verus!
