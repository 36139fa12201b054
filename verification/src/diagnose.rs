//! Text dump of a data frame that did not parse.
//!
//! The dump shows the header fields and tries several plausible checksum
//! ranges, so that one can see which of them the sensor uses.

use vstd::prelude::*;
use vstd::slice::slice_subrange;

use crate::crc::{self, crc32};
use crate::packet::DATA_HEADER_SIZE;
use crate::text::{self, push_decimal, push_hex};
use crate::wire::{self, get_u16, get_u32, get_u64, push_slice};

verus! {

/// A line that shows one checksum candidate and whether it is the stored one.
pub open spec fn crc_line(label: Seq<char>, computed: u32, stored: u32) -> Seq<char> {
    label + text::hex(computed as nat, 8) + " "@ + if computed == stored {
        "<-- MATCH"@
    } else {
        ""@
    }
}

/// The bytes in hexadecimal, one space apart.
pub open spec fn hex_dump(s: Seq<u8>) -> Seq<char>
    decreases s.len(),
{
    if s.len() == 0 {
        Seq::empty()
    } else if s.len() == 1 {
        text::hex(s[0] as nat, 2)
    } else {
        hex_dump(s.drop_last()) + " "@ + text::hex(s.last() as nat, 2)
    }
}

/// Where the declared frame ends inside the received bytes.
pub open spec fn frame_end(s: Seq<u8>) -> int {
    if wire::u16_at(s, 1) < s.len() {
        wire::u16_at(s, 1) as int
    } else {
        s.len() as int
    }
}

/// The bytes from `start` to before `end`; none where `end` is not behind
/// `start`.
pub open spec fn range(s: Seq<u8>, start: int, end: int) -> Seq<u8> {
    if start < end {
        s.subrange(start, end)
    } else {
        Seq::empty()
    }
}

/// The first bytes of a frame, at most 48.
pub open spec fn first_bytes(s: Seq<u8>) -> Seq<u8> {
    if s.len() < 48 {
        s
    } else {
        s.subrange(0, 48)
    }
}

/// The line that shows the header fields.
pub open spec fn fields_line(s: Seq<u8>) -> Seq<char> {
    "recv_len="@ + text::decimal(s.len()) + " declared_length="@ + text::decimal(
        wire::u16_at(s, 1) as nat,
    ) + " data_type="@ + text::decimal(s[10] as nat) + " dot_num="@ + text::decimal(
        wire::u16_at(s, 5) as nat,
    ) + " udp_cnt="@ + text::decimal(wire::u16_at(s, 7) as nat) + " frame_cnt="@ + text::decimal(
        s[9] as nat,
    ) + " time_type="@ + text::decimal(s[11] as nat) + " ts="@ + text::decimal(
        wire::u64_at(s, 28) as nat,
    )
}

/// The lines of the dump.
pub open spec fn dump_of(s: Seq<u8>) -> Seq<Seq<char>> {
    if s.len() < DATA_HEADER_SIZE {
        seq!["buffer too short: "@ + text::decimal(s.len()) + " bytes"@]
    } else {
        let end = frame_end(s);
        let stored = wire::u32_at(s, 24);
        seq![
            fields_line(s),
            "stored crc32 = 0x"@ + text::hex(stored as nat, 8),
            crc_line(
                "crc [28..length] timestamp+data      = 0x"@,
                crc::crc32_of(range(s, 28, end)),
                stored,
            ),
            crc_line(
                "crc [36..length] data only           = 0x"@,
                crc::crc32_of(range(s, 36, end)),
                stored,
            ),
            crc_line(
                "crc [0..24]+[28..length] header+ts+data = 0x"@,
                crc::crc32_of(range(s, 0, 24) + range(s, 28, end)),
                stored,
            ),
            crc_line(
                "crc [0..length] whole incl crc field   = 0x"@,
                crc::crc32_of(range(s, 0, end)),
                stored,
            ),
            "first 48 bytes: "@ + hex_dump(first_bytes(s)),
        ]
    }
}

fn take_range(buf: &[u8], start: usize, end: usize) -> (r: &[u8])
    requires
        end <= buf.len(),
    ensures
        r@ == range(buf@, start as int, end as int),
{
    if start < end {
        slice_subrange(buf, start, end)
    } else {
        slice_subrange(buf, 0, 0)
    }
}

fn make_crc_line(label: &str, computed: u32, stored: u32) -> (line: String)
    ensures
        line@ == crc_line(label@, computed, stored),
{
    let mut line = label.to_owned();
    push_hex(&mut line, computed, 8);
    line.append(" ");
    if computed == stored {
        line.append("<-- MATCH");
    } else {
        line.append("");
    }
    line
}

fn push_hex_dump(out: &mut String, bytes: &[u8])
    ensures
        final(out)@ == old(out)@ + hex_dump(bytes@),
{
    let n: usize = bytes.len();
    let mut i: usize = 0;
    while i < n
        invariant
            i <= n == bytes@.len(),
            out@ == old(out)@ + hex_dump(bytes@.subrange(0, i as int)),
        decreases n - i,
    {
        if i > 0 {
            out.append(" ");
        }
        push_hex(out, bytes[i] as u32, 2);
        proof {
            let next = bytes@.subrange(0, i + 1);
            assert(next.drop_last() == bytes@.subrange(0, i as int));
            assert(next.last() == bytes@[i as int]);
        }
        i = i + 1;
    }
    assert(bytes@.subrange(0, n as int) == bytes@);
}

fn make_fields_line(buf: &[u8]) -> (line: String)
    requires
        buf.len() >= DATA_HEADER_SIZE,
    ensures
        line@ == fields_line(buf@),
{
    let mut line = "recv_len=".to_owned();
    push_decimal(&mut line, buf.len() as u64);
    line.append(" declared_length=");
    push_decimal(&mut line, get_u16(buf, 1) as u64);
    line.append(" data_type=");
    push_decimal(&mut line, buf[10] as u64);
    line.append(" dot_num=");
    push_decimal(&mut line, get_u16(buf, 5) as u64);
    line.append(" udp_cnt=");
    push_decimal(&mut line, get_u16(buf, 7) as u64);
    line.append(" frame_cnt=");
    push_decimal(&mut line, buf[9] as u64);
    line.append(" time_type=");
    push_decimal(&mut line, buf[11] as u64);
    line.append(" ts=");
    push_decimal(&mut line, get_u64(buf, 28));
    line
}

/// The lines of the dump of a received frame, whatever length it declares.
pub fn diagnose_packet(buf: &[u8]) -> (lines: Vec<String>)
    ensures
        text::texts_of(lines@) == dump_of(buf@),
{
    let mut lines: Vec<String> = Vec::new();
    if buf.len() < DATA_HEADER_SIZE {
        let mut line = "buffer too short: ".to_owned();
        push_decimal(&mut line, buf.len() as u64);
        line.append(" bytes");
        lines.push(line);
        assert(text::texts_of(lines@) == dump_of(buf@));
        return lines;
    }
    let length: usize = get_u16(buf, 1) as usize;
    let stored: u32 = get_u32(buf, 24);
    let end: usize = if length < buf.len() {
        length
    } else {
        buf.len()
    };
    let tail = take_range(buf, 28, end);
    let mut combined: Vec<u8> = Vec::new();
    push_slice(&mut combined, take_range(buf, 0, 24));
    push_slice(&mut combined, tail);
    assert(combined@ == range(buf@, 0, 24) + range(buf@, 28, end as int));
    lines.push(make_fields_line(buf));
    let mut stored_line = "stored crc32 = 0x".to_owned();
    push_hex(&mut stored_line, stored, 8);
    lines.push(stored_line);
    lines.push(
        make_crc_line("crc [28..length] timestamp+data      = 0x", crc32(tail), stored),
    );
    lines.push(
        make_crc_line(
            "crc [36..length] data only           = 0x",
            crc32(take_range(buf, 36, end)),
            stored,
        ),
    );
    lines.push(
        make_crc_line(
            "crc [0..24]+[28..length] header+ts+data = 0x",
            crc32(combined.as_slice()),
            stored,
        ),
    );
    lines.push(
        make_crc_line(
            "crc [0..length] whole incl crc field   = 0x",
            crc32(take_range(buf, 0, end)),
            stored,
        ),
    );
    let mut bytes_line = "first 48 bytes: ".to_owned();
    if buf.len() < 48 {
        push_hex_dump(&mut bytes_line, buf);
    } else {
        push_hex_dump(&mut bytes_line, slice_subrange(buf, 0, 48));
    }
    lines.push(bytes_line);
    assert(text::texts_of(lines@) == dump_of(buf@));
    lines
}

} // verus!
