//! Verified core of a driver for the Livox MID360 LiDAR.
//!
//! The wire: [`wire`] and [`crc`] hold fields and checksums, [`protocol`] the
//! codes, [`command`] the control frames, [`points`] and [`packet`] the data
//! frames, [`diagnose`] the dump of a frame that cannot be read.
//!
//! Talking to a sensor: [`client`] holds discovery, the exchange of a command
//! for its acknowledgement and the settings that start a stream; [`session`]
//! the configuration of a live session.
//!
//! Recordings: [`recorder`] holds the tables, [`recording`] what a recording
//! does next, [`playback`] which rows are due when a table is replayed.
//!
//! Point clouds: [`cloud`] keeps the recent points, [`imu`] the recent
//! orientations, [`encode`] the octree of the tokenizer.
//!
//! Programs: [`cli`] reads command lines, [`viewer`] places pixels and names
//! what keys ask for, [`live`] fills frames for a live view.
//!
//! [`laws`] states what the whole does: which bytes a field stands in, which
//! rows are handed out when, what a buffer keeps.
//!
//! Floating-point numbers appear as their bit patterns, as texts, or as
//! parameters that the callers choose.

pub mod cli;
pub mod client;
pub mod cloud;
pub mod command;
pub mod crc;
pub mod diagnose;
pub mod encode;
pub mod error;
pub mod imu;
pub mod laws;
pub mod live;
pub mod net;
pub mod packet;
pub mod playback;
pub mod points;
pub mod protocol;
pub mod recorder;
pub mod recording;
pub mod session;
pub mod text;
pub mod viewer;
pub mod wire;

pub use client::DiscoveredDevice;
pub use command::CommandFrame;
pub use error::LidarError;
pub use packet::{DataFrameHeader, DataPacket, DataPayload};
pub use points::{Cartesian16Point, Cartesian32Point, ImuSample, Point, SphericalPoint, Tag};
pub use protocol::{
    CmdId, CmdType, DataType, LidarState, ParameterKey, ReturnCode, SenderType, TimestampType,
    CMD_PORT, DATA_PORT, DISCOVERY_PORT, HOST_CMD_PORT, HOST_DATA_PORT, HOST_IMU_PORT,
    HOST_LOG_PORT, HOST_PUSH_PORT, IMU_PORT, LOG_PORT, PUSH_PORT,
};
pub use session::{LiveConfig, Sample};
