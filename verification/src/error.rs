//! Errors of the MID360 library.

use vstd::prelude::*;

use crate::net::SocketAddr;
use crate::protocol::ReturnCode;

verus! {

/// Everything that can go wrong between host and sensor.
#[derive(Debug, Clone, PartialEq)]
#[allow(inconsistent_fields)]
pub enum LidarError {
    /// The operating system refused an operation, in its own words.
    Io(String),
    PacketTooShort { need: usize, got: usize },
    InvalidDataType(u8),
    InvalidTimestampType(u8),
    InvalidCmdType(u8),
    InvalidSenderType(u8),
    InvalidLidarState(u8),
    InvalidReturnCode(u8),
    CrcMismatch,
    CommandFailed { code: ReturnCode },
    UnexpectedResponse { expected: u16, got: u16 },
    NoResponse { addr: SocketAddr },
    DiscoveryTimeout,
    ParameterParse(String),
    BufferTooSmall,
    /// A live session needs a concrete host address.
    InvalidHost,
    /// A socket could not be bound.
    Bind { resource: String, addr: SocketAddr, source: String },
}

/// What an error says, with its texts as character sequences.
#[verifier::ext_equal]
#[allow(inconsistent_fields)]
pub enum Failure {
    Io(Seq<char>),
    PacketTooShort { need: int, got: int },
    InvalidDataType(u8),
    InvalidTimestampType(u8),
    InvalidCmdType(u8),
    InvalidSenderType(u8),
    InvalidLidarState(u8),
    InvalidReturnCode(u8),
    CrcMismatch,
    CommandFailed { code: ReturnCode },
    UnexpectedResponse { expected: u16, got: u16 },
    NoResponse { addr: SocketAddr },
    DiscoveryTimeout,
    ParameterParse(Seq<char>),
    BufferTooSmall,
    InvalidHost,
    Bind { resource: Seq<char>, addr: SocketAddr, source: Seq<char> },
}

impl View for LidarError {
    type V = Failure;

    open spec fn view(&self) -> Failure {
        match *self {
            LidarError::Io(text) => Failure::Io(text@),
            LidarError::PacketTooShort { need, got } => Failure::PacketTooShort {
                need: need as int,
                got: got as int,
            },
            LidarError::InvalidDataType(b) => Failure::InvalidDataType(b),
            LidarError::InvalidTimestampType(b) => Failure::InvalidTimestampType(b),
            LidarError::InvalidCmdType(b) => Failure::InvalidCmdType(b),
            LidarError::InvalidSenderType(b) => Failure::InvalidSenderType(b),
            LidarError::InvalidLidarState(b) => Failure::InvalidLidarState(b),
            LidarError::InvalidReturnCode(b) => Failure::InvalidReturnCode(b),
            LidarError::CrcMismatch => Failure::CrcMismatch,
            LidarError::CommandFailed { code } => Failure::CommandFailed { code },
            LidarError::UnexpectedResponse { expected, got } => Failure::UnexpectedResponse {
                expected,
                got,
            },
            LidarError::NoResponse { addr } => Failure::NoResponse { addr },
            LidarError::DiscoveryTimeout => Failure::DiscoveryTimeout,
            LidarError::ParameterParse(text) => Failure::ParameterParse(text@),
            LidarError::BufferTooSmall => Failure::BufferTooSmall,
            LidarError::InvalidHost => Failure::InvalidHost,
            LidarError::Bind { resource, addr, source } => Failure::Bind {
                resource: resource@,
                addr,
                source: source@,
            },
        }
    }
}

/// A result with the error seen through its view.
pub open spec fn seen<T>(r: Result<T, LidarError>) -> Result<T, Failure> {
    match r {
        Ok(v) => Ok(v),
        Err(e) => Err(e@),
    }
}

/// A result with both sides seen through their views.
pub open spec fn seen_deep<T: View>(r: Result<T, LidarError>) -> Result<T::V, Failure> {
    match r {
        Ok(v) => Ok(v@),
        Err(e) => Err(e@),
    }
}

/// The failure of a buffer that ends too early.
pub open spec fn too_short(need: int, got: int) -> Failure {
    Failure::PacketTooShort { need, got }
}

} // verus!
