//! How values are seen: nothing is hidden or moved.

use vstd::prelude::*;

use crate::cli::{self, Flags};
use crate::client::{self, DiscoveredDevice};
use crate::command::{self, CommandFrame, DiscoveryAck};
use crate::encode;
use crate::error::{self, Failure, LidarError};
use crate::packet::{DataPacket, DataPayload, Samples};
use crate::playback::{self, Frame, Rows};
use crate::protocol::ParameterKey;
use crate::recorder::{self, Content, Row};
use crate::text;

verus! {

/// An error is seen as the same error, with its numbers and texts.
pub proof fn errors_are_seen_as_they_are(e: LidarError)
    ensures
        e matches LidarError::Io(t) ==> e@ == Failure::Io(t@),
        e matches LidarError::PacketTooShort { need, got } ==> e@ == (Failure::PacketTooShort {
            need: need as int,
            got: got as int,
        }),
        e matches LidarError::InvalidDataType(b) ==> e@ == Failure::InvalidDataType(b),
        e matches LidarError::InvalidTimestampType(b) ==> e@ == Failure::InvalidTimestampType(b),
        e matches LidarError::InvalidCmdType(b) ==> e@ == Failure::InvalidCmdType(b),
        e matches LidarError::InvalidSenderType(b) ==> e@ == Failure::InvalidSenderType(b),
        e matches LidarError::InvalidLidarState(b) ==> e@ == Failure::InvalidLidarState(b),
        e matches LidarError::InvalidReturnCode(b) ==> e@ == Failure::InvalidReturnCode(b),
        e is CrcMismatch ==> e@ == Failure::CrcMismatch,
        e matches LidarError::CommandFailed { code } ==> e@ == (Failure::CommandFailed { code }),
        e matches LidarError::UnexpectedResponse { expected, got } ==> e@ == (
        Failure::UnexpectedResponse { expected, got }),
        e matches LidarError::NoResponse { addr } ==> e@ == (Failure::NoResponse { addr }),
        e is DiscoveryTimeout ==> e@ == Failure::DiscoveryTimeout,
        e matches LidarError::ParameterParse(t) ==> e@ == Failure::ParameterParse(t@),
        e is BufferTooSmall ==> e@ == Failure::BufferTooSmall,
        e is InvalidHost ==> e@ == Failure::InvalidHost,
        e matches LidarError::Bind { resource, addr, source } ==> e@ == (Failure::Bind {
            resource: resource@,
            addr,
            source: source@,
        }),
{
}

/// A result is seen as a success with the same value, or as the same failure.
pub proof fn results_are_seen_as_they_are(
    v: u64,
    e: LidarError,
    frame: CommandFrame,
    need: int,
    got: int,
)
    ensures
        error::seen(Ok::<u64, LidarError>(v)) == Ok::<u64, Failure>(v),
        error::seen(Err::<u64, LidarError>(e)) == Err::<u64, Failure>(e@),
        error::seen_deep(Ok::<CommandFrame, LidarError>(frame)) == Ok::<command::Command, Failure>(
            frame@,
        ),
        error::seen_deep(Err::<CommandFrame, LidarError>(e)) == Err::<command::Command, Failure>(
            e@,
        ),
        error::too_short(need, got) == (Failure::PacketTooShort { need, got }),
{
}

/// Frames, announcements, devices and packets are seen with all their fields.
pub proof fn values_are_seen_with_their_fields(
    frame: CommandFrame,
    ack: DiscoveryAck,
    device: DiscoveredDevice,
    packet: DataPacket,
)
    ensures
        frame@.version == frame.version,
        frame@.length == frame.length,
        frame@.seq_num == frame.seq_num,
        frame@.cmd_id == frame.cmd_id,
        frame@.cmd_type == frame.cmd_type,
        frame@.sender_type == frame.sender_type,
        frame@.data == frame.data@,
        ack@.ret_code == ack.ret_code,
        ack@.dev_type == ack.dev_type,
        ack@.serial_number == ack.serial_number@,
        ack@.lidar_ip == ack.lidar_ip,
        ack@.cmd_port == ack.cmd_port,
        device@.dev_type == device.dev_type,
        device@.serial_number == device.serial_number@,
        device@.lidar_cmd_addr == device.lidar_cmd_addr,
        packet@.header == packet.header,
        packet.payload matches DataPayload::Points(v) ==> packet@.payload == Samples::Points(v@),
        packet.payload matches DataPayload::Imu(x) ==> packet@.payload == Samples::Imu(x),
{
}

/// Lists of pairs and parameters are seen item by item, in their order.
pub proof fn lists_are_seen_in_their_order(
    owned: Seq<(u16, Vec<u8>)>,
    borrowed: Seq<(u16, &[u8])>,
    items: Seq<(ParameterKey, Vec<u8>)>,
    keys: Seq<ParameterKey>,
    i: int,
)
    ensures
        command::pairs_of(owned).len() == owned.len(),
        0 <= i < owned.len() ==> command::pairs_of(owned)[i] == (owned[i].0, owned[i].1@),
        command::borrowed_pairs_of(borrowed).len() == borrowed.len(),
        0 <= i < borrowed.len() ==> command::borrowed_pairs_of(borrowed)[i] == (
            borrowed[i].0,
            borrowed[i].1@,
        ),
        command::parameter_pairs_of(items).len() == items.len(),
        0 <= i < items.len() ==> command::parameter_pairs_of(items)[i] == (
            items[i].0.code(),
            items[i].1@,
        ),
        client::items_of(items).len() == items.len(),
        0 <= i < items.len() ==> client::items_of(items)[i] == (items[i].0, items[i].1@),
        command::codes_of(keys).len() == keys.len(),
        0 <= i < keys.len() ==> command::codes_of(keys)[i] == keys[i].code(),
{
}

/// Plans, texts, groups and ways are seen item by item, in their order.
pub proof fn nested_lists_are_seen_in_their_order(
    plan: Seq<Vec<(ParameterKey, Vec<u8>)>>,
    texts: Seq<String>,
    parts: Seq<Vec<char>>,
    groups: Seq<Vec<usize>>,
    i: int,
)
    ensures
        client::plan_of(plan).len() == plan.len(),
        0 <= i < plan.len() ==> client::plan_of(plan)[i] == client::items_of(plan[i]@),
        text::texts_of(texts).len() == texts.len(),
        0 <= i < texts.len() ==> text::texts_of(texts)[i] == texts[i]@,
        text::contents(parts).len() == parts.len(),
        0 <= i < parts.len() ==> text::contents(parts)[i] == parts[i]@,
        encode::groups_of(groups).len() == groups.len(),
        0 <= i < groups.len() ==> encode::groups_of(groups)[i] == groups[i]@,
        encode::paths_of(groups).len() == groups.len(),
        0 <= i < groups.len() ==> encode::paths_of(groups)[i] == groups[i]@,
{
}

/// Row ranges and frames are seen with their starts and ends, in their order.
pub proof fn rows_are_seen_in_their_order(rows: Seq<Rows>, frames: Seq<Frame>, i: int)
    ensures
        playback::ranges_of(rows).len() == rows.len(),
        0 <= i < rows.len() ==> playback::ranges_of(rows)[i] == (
            rows[i].start as int,
            rows[i].end as int,
        ),
        playback::frames_of(frames).len() == frames.len(),
        0 <= i < frames.len() ==> {
            let f = playback::frames_of(frames)[i];
            &&& f.0 == frames[i].ts_ns
            &&& f.1.0 == frames[i].imu.start && f.1.1 == frames[i].imu.end
            &&& f.2.0 == frames[i].points.start && f.2.1 == frames[i].points.end
        },
{
}

/// A line and a command line are seen with what was read of them.
pub proof fn read_lines_are_seen_as_they_are(
    row: Row,
    e: LidarError,
    args: Vec<String>,
    dir: Option<String>,
    rounds: u8,
    window: Option<String>,
    message: String,
)
    ensures
        recorder::seen_line(Ok(Some(row))) == Ok::<Content, Failure>(
            Content::Sample(row.ts_ns, text::texts_of(row.numbers@)),
        ),
        recorder::seen_line(Ok(None)) == Ok::<Content, Failure>(Content::Nothing),
        recorder::seen_line(Err(e)) == Err::<Content, Failure>(e@),
        cli::seen_flags(Ok((args, dir, rounds, window))) matches Ok(f) && f.args == text::texts_of(
            args@,
        ) && f.rounds == rounds && f.dir == cli::seen_text(dir) && f.window == cli::seen_text(
            window,
        ),
        cli::seen_flags(Err(message)) == Err::<Flags, Seq<char>>(message@),
        cli::seen_text(Some(message)) == Some(message@),
        cli::seen_text(None) is None,
{
}

} // verus!
