//! Control-command frames and parameter lists.
//!
//! A command frame is a 24-byte header followed by data. The first 18 header
//! bytes are covered by a CRC-16, the data by a CRC-32.

use vstd::prelude::*;
use vstd::slice::{slice_subrange, slice_to_vec};

use crate::crc::{self, crc16_ccitt_false, crc32};
use crate::error::{self, Failure, LidarError};
use crate::net::{self, Ipv4Addr};
use crate::protocol::{self, CmdType, ParameterKey, ReturnCode, SenderType, SOF};
use crate::text::{self, push_hex};
use crate::wire::{
    self, get_u16, get_u32, push_slice, push_u16, put_slice, put_u16, put_u32, put_u8, put_zeros,
    truncate16,
};

verus! {

pub const CMD_HEADER_SIZE: usize = 24;

/// A complete control-command frame.
#[derive(Debug, Clone, PartialEq)]
pub struct CommandFrame {
    pub version: u8,
    /// Total length from the start byte to the end of the data.
    pub length: u16,
    pub seq_num: u32,
    pub cmd_id: u16,
    pub cmd_type: CmdType,
    pub sender_type: SenderType,
    pub data: Vec<u8>,
}

/// What a command frame says.
#[verifier::ext_equal]
pub struct Command {
    pub version: u8,
    pub length: u16,
    pub seq_num: u32,
    pub cmd_id: u16,
    pub cmd_type: CmdType,
    pub sender_type: SenderType,
    pub data: Seq<u8>,
}

impl View for CommandFrame {
    type V = Command;

    open spec fn view(&self) -> Command {
        Command {
            version: self.version,
            length: self.length,
            seq_num: self.seq_num,
            cmd_id: self.cmd_id,
            cmd_type: self.cmd_type,
            sender_type: self.sender_type,
            data: self.data@,
        }
    }
}

impl Command {
    /// Whether the length field agrees with the data.
    pub open spec fn consistent(self) -> bool {
        self.length == CMD_HEADER_SIZE + self.data.len()
    }

    /// The header bytes that the CRC-16 covers.
    pub open spec fn protected_header(self) -> Seq<u8> {
        seq![SOF, self.version] + wire::u16_bytes(self.length) + wire::u32_bytes(self.seq_num)
            + wire::u16_bytes(self.cmd_id) + seq![self.cmd_type.code(), self.sender_type.code()]
            + seq![0u8, 0, 0, 0, 0, 0]
    }

    /// The frame on the wire.
    pub open spec fn bytes(self) -> Seq<u8> {
        self.protected_header() + wire::u16_bytes(crc::crc16_of(self.protected_header()))
            + wire::u32_bytes(data_crc(self.data)) + self.data
    }

    /// Whether this acknowledges `req`.
    pub open spec fn acknowledges(self, req: Command) -> bool {
        &&& self.cmd_type == CmdType::Ack
        &&& self.cmd_id == req.cmd_id
        &&& self.seq_num == req.seq_num
        &&& self.sender_type == SenderType::Lidar
    }
}

/// The data checksum of a frame: zero when there is no data.
pub open spec fn data_crc(data: Seq<u8>) -> u32 {
    if data.len() == 0 {
        0
    } else {
        crc::crc32_of(data)
    }
}

/// The request from the host with the given number, command and data.
pub open spec fn request(seq_num: u32, cmd_id: u16, data: Seq<u8>) -> Command {
    Command {
        version: 0,
        length: wire::low16(CMD_HEADER_SIZE as nat + data.len()),
        seq_num,
        cmd_id,
        cmd_type: CmdType::Req,
        sender_type: SenderType::Host,
        data,
    }
}

/// The message for a wrong start byte.
pub open spec fn bad_sof(b: u8) -> Seq<char> {
    "invalid SOF: expected 0xAA, got 0x"@ + text::hex(b as nat, 2)
}

/// Whether `s` starts with a header that is intact but whose length field does
/// not even cover the header.
pub open spec fn underrun(s: Seq<u8>) -> bool {
    &&& s.len() >= CMD_HEADER_SIZE
    &&& s[0] == SOF
    &&& wire::u16_at(s, 18) == crc::crc16_of(s.subrange(0, 18))
    &&& wire::u16_at(s, 2) < CMD_HEADER_SIZE
}

/// The command at the start of `s`, or what is wrong with it.
pub open spec fn command_of(s: Seq<u8>) -> Result<Command, Failure> {
    let length = wire::u16_at(s, 2);
    if s.len() < CMD_HEADER_SIZE {
        Err(error::too_short(CMD_HEADER_SIZE as int, s.len() as int))
    } else if s[0] != SOF {
        Err(Failure::ParameterParse(bad_sof(s[0])))
    } else if s.len() < length {
        Err(error::too_short(length as int, s.len() as int))
    } else if wire::u16_at(s, 18) != crc::crc16_of(s.subrange(0, 18)) {
        Err(Failure::CrcMismatch)
    } else if wire::u32_at(s, 20) != data_crc(s.subrange(CMD_HEADER_SIZE as int, length as int)) {
        Err(Failure::CrcMismatch)
    } else {
        match (protocol::cmd_type_of(s[10]), protocol::sender_type_of(s[11])) {
            (None, _) => Err(Failure::InvalidCmdType(s[10])),
            (_, None) => Err(Failure::InvalidSenderType(s[11])),
            (Some(cmd_type), Some(sender_type)) => Ok(
                Command {
                    version: s[1],
                    length,
                    seq_num: wire::u32_at(s, 4),
                    cmd_id: wire::u16_at(s, 8),
                    cmd_type,
                    sender_type,
                    data: s.subrange(CMD_HEADER_SIZE as int, length as int),
                },
            ),
        }
    }
}

/// Whether `buf` starts with an intact header whose length field is smaller
/// than the header itself. No sender produces one, and
/// [`CommandFrame::parse`] does not take it.
pub fn underruns(buf: &[u8]) -> (r: bool)
    ensures
        r == underrun(buf@),
{
    buf.len() >= CMD_HEADER_SIZE && buf[0] == SOF && get_u16(buf, 2) < 24 && get_u16(buf, 18)
        == crc16_ccitt_false(slice_subrange(buf, 0, 18))
}

impl CommandFrame {
    /// A request from the host. The length field holds the low 16 bits of the
    /// frame's length.
    pub fn new_req(seq_num: u32, cmd_id: u16, data: Vec<u8>) -> (frame: Self)
        ensures
            frame@ == request(seq_num, cmd_id, data@),
    {
        CommandFrame {
            version: 0,
            length: truncate16(data.len()).wrapping_add(24),
            seq_num,
            cmd_id,
            cmd_type: CmdType::Req,
            sender_type: SenderType::Host,
            data,
        }
    }

    /// Reads the frame at the start of `buf`.
    pub fn parse(buf: &[u8]) -> (r: Result<Self, LidarError>)
        requires
            !underrun(buf@),
        ensures
            error::seen_deep(r) == command_of(buf@),
    {
        if buf.len() < CMD_HEADER_SIZE {
            return Err(LidarError::PacketTooShort { need: CMD_HEADER_SIZE, got: buf.len() });
        }
        if buf[0] != SOF {
            let mut message = "invalid SOF: expected 0xAA, got 0x".to_owned();
            push_hex(&mut message, buf[0] as u32, 2);
            return Err(LidarError::ParameterParse(message));
        }
        let length: u16 = get_u16(buf, 2);
        if buf.len() < length as usize {
            return Err(LidarError::PacketTooShort { need: length as usize, got: buf.len() });
        }
        let stored_header_crc: u16 = get_u16(buf, 18);
        let computed_header_crc: u16 = crc16_ccitt_false(slice_subrange(buf, 0, 18));
        if stored_header_crc != computed_header_crc {
            return Err(LidarError::CrcMismatch);
        }
        let data = slice_subrange(buf, CMD_HEADER_SIZE, length as usize);
        let stored_data_crc: u32 = get_u32(buf, 20);
        let computed_data_crc: u32 = if data.len() == 0 {
            0
        } else {
            crc32(data)
        };
        if stored_data_crc != computed_data_crc {
            return Err(LidarError::CrcMismatch);
        }
        let cmd_type = match CmdType::try_from(buf[10]) {
            Ok(v) => v,
            Err(e) => return Err(e),
        };
        let sender_type = match SenderType::try_from(buf[11]) {
            Ok(v) => v,
            Err(e) => return Err(e),
        };
        Ok(
            CommandFrame {
                version: buf[1],
                length,
                seq_num: get_u32(buf, 4),
                cmd_id: get_u16(buf, 8),
                cmd_type,
                sender_type,
                data: slice_to_vec(data),
            },
        )
    }

    /// Writes the frame to the start of `buf` and leaves the rest as it is.
    pub fn write(&self, buf: &mut [u8]) -> (r: Result<(), LidarError>)
        requires
            old(buf).len() < self.length || self@.consistent(),
        ensures
            error::seen(r) == (if old(buf)@.len() < self.length {
                Err::<(), Failure>(Failure::BufferTooSmall)
            } else {
                Ok::<(), Failure>(())
            }),
            final(buf)@ == (if old(buf)@.len() < self.length {
                old(buf)@
            } else {
                wire::splice(old(buf)@, 0, self@.bytes())
            }),
    {
        if buf.len() < self.length as usize {
            return Err(LidarError::BufferTooSmall);
        }
        let ghost start = buf@;
        put_u8(buf, 0, SOF);
        let ghost h0 = seq![SOF];
        put_u8(buf, 1, self.version);
        let ghost h1 = h0 + seq![self.version];
        proof {
            wire::lemma_splice_append(start, 0, h0, seq![self.version]);
        }
        put_u16(buf, 2, self.length);
        let ghost h2 = h1 + wire::u16_bytes(self.length);
        proof {
            wire::lemma_splice_append(start, 0, h1, wire::u16_bytes(self.length));
        }
        put_u32(buf, 4, self.seq_num);
        let ghost h3 = h2 + wire::u32_bytes(self.seq_num);
        proof {
            wire::lemma_splice_append(start, 0, h2, wire::u32_bytes(self.seq_num));
        }
        put_u16(buf, 8, self.cmd_id);
        let ghost h4 = h3 + wire::u16_bytes(self.cmd_id);
        proof {
            wire::lemma_splice_append(start, 0, h3, wire::u16_bytes(self.cmd_id));
        }
        put_u8(buf, 10, self.cmd_type.as_u8());
        let ghost h5 = h4 + seq![self.cmd_type.code()];
        proof {
            wire::lemma_splice_append(start, 0, h4, seq![self.cmd_type.code()]);
        }
        put_u8(buf, 11, self.sender_type.as_u8());
        let ghost h6 = h5 + seq![self.sender_type.code()];
        proof {
            wire::lemma_splice_append(start, 0, h5, seq![self.sender_type.code()]);
        }
        put_zeros(buf, 12, 6);
        let ghost h7 = h6 + Seq::new(6, |i: int| 0u8);
        proof {
            wire::lemma_splice_append(start, 0, h6, Seq::new(6, |i: int| 0u8));
        }
        let ghost head = self@.protected_header();
        assert(h7 == head);
        assert(buf@.subrange(0, 18) == head);
        let header_crc: u16 = crc16_ccitt_false(slice_subrange(buf, 0, 18));
        put_u16(buf, 18, header_crc);
        proof {
            wire::lemma_splice_append(start, 0, head, wire::u16_bytes(header_crc));
        }
        let data_crc: u32 = if self.data.len() == 0 {
            0
        } else {
            crc32(self.data.as_slice())
        };
        put_u32(buf, 20, data_crc);
        proof {
            wire::lemma_splice_append(
                start,
                0,
                head + wire::u16_bytes(header_crc),
                wire::u32_bytes(data_crc),
            );
        }
        put_slice(buf, CMD_HEADER_SIZE, self.data.as_slice());
        proof {
            wire::lemma_splice_append(
                start,
                0,
                head + wire::u16_bytes(header_crc) + wire::u32_bytes(data_crc),
                self.data@,
            );
        }
        Ok(())
    }

    /// Whether this frame is the sensor's acknowledgement of `req`.
    pub fn is_ack_for(&self, req: &CommandFrame) -> (r: bool)
        ensures
            r == self@.acknowledges(req@),
    {
        self.cmd_type == CmdType::Ack && self.cmd_id == req.cmd_id && self.seq_num == req.seq_num
            && self.sender_type == SenderType::Lidar
    }
}

/// A fixed part of a frame, read where it was written.
pub proof fn lemma_fields(c: Command, tail: Seq<u8>)
    requires
        c.consistent(),
    ensures
        ({
            let s = c.bytes() + tail;
            &&& c.protected_header().len() == 18
            &&& c.bytes().len() == c.length
            &&& s.subrange(0, 18) == c.protected_header()
            &&& s.subrange(CMD_HEADER_SIZE as int, c.length as int) == c.data
            &&& s[0] == SOF
            &&& s[1] == c.version
            &&& s[10] == c.cmd_type.code()
            &&& s[11] == c.sender_type.code()
            &&& wire::u16_at(s, 2) == c.length
            &&& wire::u32_at(s, 4) == c.seq_num
            &&& wire::u16_at(s, 8) == c.cmd_id
            &&& wire::u16_at(s, 18) == crc::crc16_of(c.protected_header())
            &&& wire::u32_at(s, 20) == data_crc(c.data)
        }),
{
    let s = c.bytes() + tail;
    let head = c.protected_header();
    assert(head.len() == 18);
    assert(s.subrange(0, 18) == head);
    assert(s.subrange(CMD_HEADER_SIZE as int, c.length as int) == c.data);
    assert(forall|i: int| 0 <= i < 18 ==> s[i] == head[i]);
    assert(wire::u16_at(s, 2) == c.length) by {
        wire::u16_round_trip(s, 2, c.length);
        assert(wire::splice(s, 2, wire::u16_bytes(c.length)) == s);
    }
    assert(wire::u32_at(s, 4) == c.seq_num) by {
        wire::u32_round_trip(s, 4, c.seq_num);
        assert(wire::splice(s, 4, wire::u32_bytes(c.seq_num)) == s);
    }
    assert(wire::u16_at(s, 8) == c.cmd_id) by {
        wire::u16_round_trip(s, 8, c.cmd_id);
        assert(wire::splice(s, 8, wire::u16_bytes(c.cmd_id)) == s);
    }
    let hc = crc::crc16_of(head);
    assert(wire::u16_at(s, 18) == hc) by {
        wire::u16_round_trip(s, 18, hc);
        assert(wire::splice(s, 18, wire::u16_bytes(hc)) == s);
    }
    let dc = data_crc(c.data);
    assert(wire::u32_at(s, 20) == dc) by {
        wire::u32_round_trip(s, 20, dc);
        assert(wire::splice(s, 20, wire::u32_bytes(dc)) == s);
    }
}

/// Reading a written frame gives back the command, whatever bytes follow it.
pub proof fn command_round_trip(c: Command, tail: Seq<u8>)
    requires
        c.consistent(),
    ensures
        command_of(c.bytes() + tail) == Ok::<Command, Failure>(c),
        !underrun(c.bytes() + tail),
{
    lemma_fields(c, tail);
    protocol::byte_codes_round_trip(
        protocol::DataType::Imu,
        protocol::TimestampType::NoSync,
        c.cmd_type,
        c.sender_type,
        protocol::LidarState::Idle,
        ReturnCode::Success,
        0,
    );
}

/// A frame with one damaged byte is never accepted, wherever the byte stands.
pub proof fn damaged_command_is_rejected(c: Command, i: int, b: u8)
    requires
        c.consistent(),
        0 <= i < c.bytes().len(),
        b != c.bytes()[i],
    ensures
        command_of(c.bytes().update(i, b)) is Err,
        !underrun(c.bytes().update(i, b)),
{
    let s = c.bytes();
    let t = s.update(i, b);
    lemma_fields(c, Seq::empty());
    assert(s + Seq::<u8>::empty() == s);
    let head = c.protected_header();
    if i < 18 {
        assert(t.subrange(0, 18) == head.update(i, b));
        crc::crc16_notices_one_byte(head, i, b);
        assert(wire::u16_at(t, 18) == wire::u16_at(s, 18));
    } else {
        assert(t.subrange(0, 18) == head);
        assert(wire::u16_at(t, 2) == c.length);
        if i < 20 {
            wire::u16_round_trip(s, 18, 0);
            wire::u16_round_trip(t, 18, 0);
            assert(t.subrange(18, 20)[i - 18] != s.subrange(18, 20)[i - 18]);
        } else if i < 24 {
            assert(t.subrange(24, c.length as int) == c.data);
            wire::u32_round_trip(s, 20, 0);
            wire::u32_round_trip(t, 20, 0);
            assert(t.subrange(20, 24)[i - 20] != s.subrange(20, 24)[i - 20]);
        } else {
            assert(t.subrange(24, c.length as int) == c.data.update(i - 24, b));
            crc::crc32_notices_one_byte(c.data, i - 24, b);
            assert(wire::u32_at(t, 20) == wire::u32_at(s, 20));
        }
    }
}

/// Parameter keys with their raw values.
pub type KeyValueList = Vec<(u16, Vec<u8>)>;

/// The contents of a key/value list.
pub open spec fn pairs_of(list: Seq<(u16, Vec<u8>)>) -> Seq<(u16, Seq<u8>)> {
    list.map_values(|p: (u16, Vec<u8>)| (p.0, p.1@))
}

/// The contents of a borrowed key/value list.
pub open spec fn borrowed_pairs_of(list: Seq<(u16, &[u8])>) -> Seq<(u16, Seq<u8>)> {
    list.map_values(|p: (u16, &[u8])| (p.0, p.1@))
}

/// The contents of a list keyed by parameter.
pub open spec fn parameter_pairs_of(list: Seq<(ParameterKey, Vec<u8>)>) -> Seq<(u16, Seq<u8>)> {
    list.map_values(|p: (ParameterKey, Vec<u8>)| (p.0.code(), p.1@))
}

/// A decoding result with the list seen through its contents.
pub open spec fn seen_pairs(r: Result<KeyValueList, LidarError>) -> Result<
    Seq<(u16, Seq<u8>)>,
    Failure,
> {
    match r {
        Ok(list) => Ok(pairs_of(list@)),
        Err(e) => Err(e@),
    }
}

/// One pair on the wire: key, value length and value.
pub open spec fn pair_bytes(p: (u16, Seq<u8>)) -> Seq<u8> {
    wire::u16_bytes(p.0) + wire::u16_bytes(wire::low16(p.1.len())) + p.1
}

/// The pairs on the wire, one behind the other.
pub open spec fn pairs_bytes(pairs: Seq<(u16, Seq<u8>)>) -> Seq<u8>
    decreases pairs.len(),
{
    if pairs.len() == 0 {
        Seq::empty()
    } else {
        pairs_bytes(pairs.drop_last()) + pair_bytes(pairs.last())
    }
}

/// A key/value list on the wire: the number of pairs, two reserved bytes, and
/// the pairs.
pub open spec fn key_value_bytes(pairs: Seq<(u16, Seq<u8>)>) -> Seq<u8> {
    wire::u16_bytes(wire::low16(pairs.len())) + seq![0u8, 0] + pairs_bytes(pairs)
}

/// A byte count as a `usize`. No buffer is long enough to reach the limit.
pub open spec fn size(n: int) -> int {
    if n <= usize::MAX {
        n
    } else {
        usize::MAX as int
    }
}

/// The `n` pairs that start at `off`, or where the bytes run out.
pub open spec fn read_pairs(s: Seq<u8>, off: int, n: nat) -> Result<Seq<(u16, Seq<u8>)>, Failure>
    decreases n,
{
    let len = wire::u16_at(s, off + 2);
    if n == 0 {
        Ok(Seq::empty())
    } else if off + 4 > s.len() {
        Err(error::too_short(size(off + 4), s.len() as int))
    } else if off + 4 + len > s.len() {
        Err(error::too_short(size(off + 4 + len), s.len() as int))
    } else {
        match read_pairs(s, off + 4 + len, (n - 1) as nat) {
            Ok(rest) => Ok(
                seq![(wire::u16_at(s, off), s.subrange(off + 4, off + 4 + len))] + rest,
            ),
            Err(e) => Err(e),
        }
    }
}

/// The pairs of the key/value list at the start of `s`, or what is wrong.
pub open spec fn key_values_of(s: Seq<u8>) -> Result<Seq<(u16, Seq<u8>)>, Failure> {
    if s.len() < 4 {
        Err(error::too_short(4, s.len() as int))
    } else {
        read_pairs(s, 4, wire::u16_at(s, 0) as nat)
    }
}

/// What was read so far, followed by what is still to be read.
spec fn after(
    done: Seq<(u16, Seq<u8>)>,
    rest: Result<Seq<(u16, Seq<u8>)>, Failure>,
) -> Result<Seq<(u16, Seq<u8>)>, Failure> {
    match rest {
        Ok(pairs) => Ok(done + pairs),
        Err(e) => Err(e),
    }
}

/// Encodes a list of `(key, value)` pairs for parameter configuration. Counts
/// and lengths are written with their low 16 bits.
pub fn encode_key_value_list(items: &[(u16, &[u8])]) -> (out: Vec<u8>)
    ensures
        out@ == key_value_bytes(borrowed_pairs_of(items@)),
{
    let mut out: Vec<u8> = Vec::new();
    let n: usize = items.len();
    push_u16(&mut out, truncate16(n));
    push_u16(&mut out, 0);
    let ghost pairs = borrowed_pairs_of(items@);
    let ghost lead = wire::u16_bytes(wire::low16(n as nat)) + seq![0u8, 0];
    assert(out@ == lead);
    let mut i: usize = 0;
    while i < n
        invariant
            i <= n == items@.len(),
            pairs == borrowed_pairs_of(items@),
            out@ == lead + pairs_bytes(pairs.subrange(0, i as int)),
        decreases n - i,
    {
        let key: u16 = items[i].0;
        let value: &[u8] = items[i].1;
        push_u16(&mut out, key);
        push_u16(&mut out, truncate16(value.len()));
        push_slice(&mut out, value);
        proof {
            let next = pairs.subrange(0, i + 1);
            assert(next.drop_last() == pairs.subrange(0, i as int));
            assert(next.last() == (key, value@));
        }
        i = i + 1;
    }
    assert(pairs.subrange(0, n as int) == pairs);
    out
}

/// Decodes a key/value list into its pairs.
pub fn decode_key_value_list(data: &[u8]) -> (r: Result<KeyValueList, LidarError>)
    ensures
        seen_pairs(r) == key_values_of(data@),
{
    if data.len() < 4 {
        return Err(LidarError::PacketTooShort { need: 4, got: data.len() });
    }
    let key_num: u16 = get_u16(data, 0);
    let mut out: KeyValueList = Vec::new();
    let mut off: usize = 4;
    let mut i: u16 = 0;
    while i < key_num
        invariant
            i <= key_num,
            4 <= off <= data.len(),
            key_values_of(data@) == after(
                pairs_of(out@),
                read_pairs(data@, off as int, (key_num - i) as nat),
            ),
        decreases key_num - i,
    {
        if data.len() - off < 4 {
            return Err(
                LidarError::PacketTooShort { need: off.saturating_add(4), got: data.len() },
            );
        }
        let key: u16 = get_u16(data, off);
        let len: usize = get_u16(data, off + 2) as usize;
        let start: usize = off + 4;
        if data.len() - start < len {
            return Err(
                LidarError::PacketTooShort { need: start.saturating_add(len), got: data.len() },
            );
        }
        let ghost before = pairs_of(out@);
        let value = slice_to_vec(slice_subrange(data, start, start + len));
        out.push((key, value));
        proof {
            let pair = (key, data@.subrange(start as int, start + len));
            assert(pairs_of(out@) == before.push(pair));
            let rest = read_pairs(data@, start + len, (key_num - i - 1) as nat);
            assert(rest matches Ok(pairs) ==> before + (seq![pair] + pairs) == before.push(pair)
                + pairs);
        }
        off = start + len;
        i = i + 1;
    }
    assert(pairs_of(out@) + Seq::<(u16, Seq<u8>)>::empty() == pairs_of(out@));
    Ok(out)
}

pub proof fn lemma_pairs_bytes_front(pairs: Seq<(u16, Seq<u8>)>)
    requires
        pairs.len() > 0,
    ensures
        pairs_bytes(pairs) == pair_bytes(pairs[0]) + pairs_bytes(pairs.drop_first()),
    decreases pairs.len(),
{
    let rest = pairs.drop_first();
    if pairs.len() == 1 {
        assert(pairs_bytes(pairs.drop_last()) == Seq::<u8>::empty());
        assert(pairs_bytes(rest) == Seq::<u8>::empty());
    } else {
        lemma_pairs_bytes_front(pairs.drop_last());
        assert(pairs.drop_last().drop_first() == rest.drop_last());
    }
}

proof fn lemma_read_pairs(s: Seq<u8>, off: int, pairs: Seq<(u16, Seq<u8>)>)
    requires
        0 <= off,
        off + pairs_bytes(pairs).len() <= s.len(),
        s.subrange(off, off + pairs_bytes(pairs).len()) == pairs_bytes(pairs),
        forall|i: int| 0 <= i < pairs.len() ==> (#[trigger] pairs[i]).1.len() < 0x1_0000,
    ensures
        read_pairs(s, off, pairs.len()) == Ok::<Seq<(u16, Seq<u8>)>, Failure>(pairs),
    decreases pairs.len(),
{
    if pairs.len() > 0 {
        lemma_pairs_bytes_front(pairs);
        let p = pairs[0];
        let rest = pairs.drop_first();
        let all = pairs_bytes(pairs);
        let one = pair_bytes(p);
        let next = off + one.len();
        assert(forall|i: int| 0 <= i < all.len() ==> s[off + i] == all[i]) by {
            assert forall|i: int| 0 <= i < all.len() implies s[off + i] == all[i] by {
                assert(s.subrange(off, off + all.len())[i] == s[off + i]);
            }
        }
        wire::u16_round_trip(s, off, p.0);
        assert(wire::splice(s, off, wire::u16_bytes(p.0)) == s) by {
            assert(s[off + 0] == all[0]);
            assert(s[off + 1] == all[1]);
        }
        let len = p.1.len() as u16;
        wire::u16_round_trip(s, off + 2, len);
        assert(wire::splice(s, off + 2, wire::u16_bytes(len)) == s) by {
            assert(s[off + 2] == all[2]);
            assert(s[off + 3] == all[3]);
        }
        assert(s.subrange(off + 4, next) == p.1) by {
            assert forall|i: int| 0 <= i < p.1.len() implies s[off + 4 + i] == p.1[i] by {
                assert(s[off + (4 + i)] == all[4 + i]);
            }
        }
        assert(s.subrange(next, next + pairs_bytes(rest).len()) == pairs_bytes(rest)) by {
            assert forall|i: int| 0 <= i < pairs_bytes(rest).len() implies s[next + i]
                == pairs_bytes(rest)[i] by {
                assert(s[off + (one.len() + i)] == all[one.len() + i]);
            }
        }
        assert forall|i: int| 0 <= i < rest.len() implies (#[trigger] rest[i]).1.len() < 0x1_0000 by {
            assert(rest[i] == pairs[i + 1]);
        }
        lemma_read_pairs(s, next, rest);
        assert(seq![p] + rest == pairs);
    } else {
        assert(pairs == Seq::<(u16, Seq<u8>)>::empty());
    }
}

/// Decoding an encoded list gives back the pairs, whatever bytes follow, as
/// long as the count and every value length fit their 16-bit fields.
pub proof fn key_value_round_trip(pairs: Seq<(u16, Seq<u8>)>, tail: Seq<u8>)
    requires
        pairs.len() < 0x1_0000,
        forall|i: int| 0 <= i < pairs.len() ==> (#[trigger] pairs[i]).1.len() < 0x1_0000,
    ensures
        key_values_of(key_value_bytes(pairs) + tail) == Ok::<Seq<(u16, Seq<u8>)>, Failure>(pairs),
{
    let s = key_value_bytes(pairs) + tail;
    let n = pairs.len() as u16;
    wire::u16_round_trip(s, 0, n);
    assert(wire::splice(s, 0, wire::u16_bytes(n)) == s);
    assert(s.subrange(4, 4int + pairs_bytes(pairs).len()) == pairs_bytes(pairs));
    lemma_read_pairs(s, 4, pairs);
}

/// The keys on the wire, one behind the other.
pub open spec fn keys_bytes(keys: Seq<u16>) -> Seq<u8>
    decreases keys.len(),
{
    if keys.len() == 0 {
        Seq::empty()
    } else {
        keys_bytes(keys.drop_last()) + wire::u16_bytes(keys.last())
    }
}

/// A key list on the wire: the number of keys, two reserved bytes, and the
/// keys.
pub open spec fn key_list_bytes(keys: Seq<u16>) -> Seq<u8> {
    wire::u16_bytes(wire::low16(keys.len())) + seq![0u8, 0] + keys_bytes(keys)
}

/// Encodes a simple key list for parameter inquiry.
pub fn encode_key_list(keys: &[u16]) -> (out: Vec<u8>)
    ensures
        out@ == key_list_bytes(keys@),
{
    let mut out: Vec<u8> = Vec::new();
    let n: usize = keys.len();
    push_u16(&mut out, truncate16(n));
    push_u16(&mut out, 0);
    let ghost lead = wire::u16_bytes(wire::low16(n as nat)) + seq![0u8, 0];
    assert(out@ == lead);
    let mut i: usize = 0;
    while i < n
        invariant
            i <= n == keys@.len(),
            out@ == lead + keys_bytes(keys@.subrange(0, i as int)),
        decreases n - i,
    {
        push_u16(&mut out, keys[i]);
        proof {
            let next = keys@.subrange(0, i + 1);
            assert(next.drop_last() == keys@.subrange(0, i as int));
        }
        i = i + 1;
    }
    assert(keys@.subrange(0, n as int) == keys@);
    out
}

/// Discovery broadcast response contents.
#[derive(Debug, Clone, PartialEq)]
pub struct DiscoveryAck {
    pub ret_code: ReturnCode,
    pub dev_type: u8,
    pub serial_number: [u8; 16],
    pub lidar_ip: Ipv4Addr,
    pub cmd_port: u16,
}

/// What a discovery response says.
#[verifier::ext_equal]
pub struct Announcement {
    pub ret_code: ReturnCode,
    pub dev_type: u8,
    pub serial_number: Seq<u8>,
    pub lidar_ip: Ipv4Addr,
    pub cmd_port: u16,
}

impl View for DiscoveryAck {
    type V = Announcement;

    open spec fn view(&self) -> Announcement {
        Announcement {
            ret_code: self.ret_code,
            dev_type: self.dev_type,
            serial_number: self.serial_number@,
            lidar_ip: self.lidar_ip,
            cmd_port: self.cmd_port,
        }
    }
}

/// The announcement at the start of `s`, or what is wrong with it.
pub open spec fn announcement_of(s: Seq<u8>) -> Result<Announcement, Failure> {
    if s.len() < 24 {
        Err(error::too_short(24, s.len() as int))
    } else {
        match protocol::return_code_of(s[0]) {
            None => Err(Failure::InvalidReturnCode(s[0])),
            Some(ret_code) => Ok(
                Announcement {
                    ret_code,
                    dev_type: s[1],
                    serial_number: s.subrange(2, 18),
                    lidar_ip: net::ipv4(s[18], s[19], s[20], s[21]),
                    cmd_port: wire::u16_at(s, 22),
                },
            ),
        }
    }
}

impl DiscoveryAck {
    pub fn parse(data: &[u8]) -> (r: Result<Self, LidarError>)
        ensures
            error::seen_deep(r) == announcement_of(data@),
    {
        if data.len() < 24 {
            return Err(LidarError::PacketTooShort { need: 24, got: data.len() });
        }
        let ret_code = match ReturnCode::try_from(data[0]) {
            Ok(v) => v,
            Err(e) => return Err(e),
        };
        let serial_number: [u8; 16] = [
            data[2], data[3], data[4], data[5], data[6], data[7], data[8], data[9], data[10], data[11],
            data[12], data[13], data[14], data[15], data[16], data[17],
        ];
        assert(serial_number@ == data@.subrange(2, 18));
        Ok(
            DiscoveryAck {
                ret_code,
                dev_type: data[1],
                serial_number,
                lidar_ip: Ipv4Addr::new(data[18], data[19], data[20], data[21]),
                cmd_port: get_u16(data, 22),
            },
        )
    }
}

/// The value of a host address parameter.
pub open spec fn host_value(ip: Ipv4Addr, dest_port: u16, source_port: u16) -> Seq<u8> {
    ip.bytes() + wire::u16_bytes(dest_port) + wire::u16_bytes(source_port)
}

/// The value of the sensor address parameter.
pub open spec fn sensor_value(ip: Ipv4Addr, mask: Ipv4Addr, gateway: Ipv4Addr) -> Seq<u8> {
    ip.bytes() + mask.bytes() + gateway.bytes()
}

/// The value of a host address parameter: address, destination port and source
/// port.
pub fn host_ip_cfg_value(ip: Ipv4Addr, dest_port: u16, source_port: u16) -> (v: Vec<u8>)
    ensures
        v@ == ip.bytes() + wire::u16_bytes(dest_port) + wire::u16_bytes(source_port),
        v@ == host_value(ip, dest_port, source_port),
{
    let mut v: Vec<u8> = Vec::new();
    push_slice(&mut v, &ip.octets());
    push_u16(&mut v, dest_port);
    push_u16(&mut v, source_port);
    v
}

/// The value of the sensor address parameter: address, mask and gateway.
pub fn lidar_ip_cfg_value(ip: Ipv4Addr, mask: Ipv4Addr, gateway: Ipv4Addr) -> (v: Vec<u8>)
    ensures
        v@ == ip.bytes() + mask.bytes() + gateway.bytes(),
        v@ == sensor_value(ip, mask, gateway),
{
    let mut v: Vec<u8> = Vec::new();
    push_slice(&mut v, &ip.octets());
    push_slice(&mut v, &mask.octets());
    push_slice(&mut v, &gateway.octets());
    v
}

/// Builds a parameter configuration payload.
pub fn build_param_config(keys: &[(ParameterKey, Vec<u8>)]) -> (out: Vec<u8>)
    ensures
        out@ == key_value_bytes(parameter_pairs_of(keys@)),
{
    let n: usize = keys.len();
    let mut items: Vec<(u16, &[u8])> = Vec::new();
    let mut i: usize = 0;
    while i < n
        invariant
            i <= n == keys@.len(),
            borrowed_pairs_of(items@) == parameter_pairs_of(keys@).subrange(0, i as int),
        decreases n - i,
    {
        let ghost before = items@;
        items.push((keys[i].0.as_u16(), keys[i].1.as_slice()));
        assert(borrowed_pairs_of(items@) == borrowed_pairs_of(before).push(
            (keys@[i as int].0.code(), keys@[i as int].1@),
        ));
        i = i + 1;
    }
    assert(parameter_pairs_of(keys@).subrange(0, n as int) == parameter_pairs_of(keys@));
    encode_key_value_list(items.as_slice())
}

/// The numbers of some parameters.
pub open spec fn codes_of(keys: Seq<ParameterKey>) -> Seq<u16> {
    keys.map_values(|k: ParameterKey| k.code())
}

/// Builds a parameter inquiry payload.
pub fn build_param_inquire(keys: &[ParameterKey]) -> (out: Vec<u8>)
    ensures
        out@ == key_list_bytes(keys@.map_values(|k: ParameterKey| k.code())),
        out@ == key_list_bytes(codes_of(keys@)),
{
    let n: usize = keys.len();
    let mut codes: Vec<u16> = Vec::new();
    let ghost all = keys@.map_values(|k: ParameterKey| k.code());
    let mut i: usize = 0;
    while i < n
        invariant
            i <= n == keys@.len(),
            all == keys@.map_values(|k: ParameterKey| k.code()),
            codes@ == all.subrange(0, i as int),
        decreases n - i,
    {
        codes.push(keys[i].as_u16());
        i = i + 1;
    }
    assert(all.subrange(0, n as int) == all);
    encode_key_list(codes.as_slice())
}

/// The outcome in a parameter configuration acknowledgement, with the key that
/// caused an error if one is named.
pub open spec fn config_ack_of(s: Seq<u8>) -> Result<(ReturnCode, Option<u16>), Failure> {
    if s.len() == 0 {
        Err(error::too_short(1, 0))
    } else {
        match protocol::return_code_of(s[0]) {
            None => Err(Failure::InvalidReturnCode(s[0])),
            Some(code) => Ok(
                (
                    code,
                    if s.len() >= 3 {
                        Some(wire::u16_at(s, 1))
                    } else {
                        None
                    },
                ),
            ),
        }
    }
}

/// Parses a parameter configuration acknowledgement.
pub fn parse_param_config_ack(data: &[u8]) -> (r: Result<(ReturnCode, Option<u16>), LidarError>)
    ensures
        error::seen(r) == config_ack_of(data@),
{
    if data.len() == 0 {
        return Err(LidarError::PacketTooShort { need: 1, got: 0 });
    }
    let ret_code = match ReturnCode::try_from(data[0]) {
        Ok(v) => v,
        Err(e) => return Err(e),
    };
    let error_key: Option<u16> = if data.len() >= 3 {
        Some(get_u16(data, 1))
    } else {
        None
    };
    Ok((ret_code, error_key))
}

/// The outcome and the pairs in a parameter inquiry acknowledgement.
pub open spec fn inquire_ack_of(s: Seq<u8>) -> Result<
    (ReturnCode, Seq<(u16, Seq<u8>)>),
    Failure,
> {
    if s.len() == 0 {
        Err(error::too_short(1, 0))
    } else {
        match (protocol::return_code_of(s[0]), key_values_of(s.subrange(1, s.len() as int))) {
            (None, _) => Err(Failure::InvalidReturnCode(s[0])),
            (_, Err(e)) => Err(e),
            (Some(code), Ok(pairs)) => Ok((code, pairs)),
        }
    }
}

/// Parses a parameter inquiry acknowledgement.
pub fn parse_param_inquire_ack(data: &[u8]) -> (r: Result<(ReturnCode, KeyValueList), LidarError>)
    ensures
        (match r {
            Ok(v) => Ok((v.0, pairs_of(v.1@))),
            Err(e) => Err(e@),
        }) == inquire_ack_of(data@),
{
    if data.len() == 0 {
        return Err(LidarError::PacketTooShort { need: 1, got: 0 });
    }
    let ret_code = match ReturnCode::try_from(data[0]) {
        Ok(v) => v,
        Err(e) => return Err(e),
    };
    match decode_key_value_list(slice_subrange(data, 1, data.len())) {
        Ok(pairs) => Ok((ret_code, pairs)),
        Err(e) => Err(e),
    }
}

} // verus!
