//! What the dump of a frame shows.

use vstd::prelude::*;

use crate::crc;
use crate::diagnose;
use crate::laws::layout;
use crate::text;
use crate::wire;

verus! {

/// The bytes of a dump are two digits each, the high one first, with a space
/// between neighbours.
pub proof fn bytes_are_shown_in_two_digits(s: Seq<u8>)
    ensures
        s.len() == 0 ==> diagnose::hex_dump(s).len() == 0,
        s.len() > 0 ==> diagnose::hex_dump(s).len() == 3 * s.len() - 1,
        forall|i: int|
            0 <= i < s.len() ==> diagnose::hex_dump(s)[3 * i] == text::digit_char(
                #[trigger] s[i] as int / 16,
            ) && diagnose::hex_dump(s)[3 * i + 1] == text::digit_char(s[i] as int % 16),
        forall|j: int|
            0 <= j < diagnose::hex_dump(s).len() && j % 3 == 2 ==> #[trigger] diagnose::hex_dump(
                s,
            )[j] == ' ',
    decreases s.len(),
{
    reveal_strlit(" ");
    if s.len() > 0 {
        let b = s.last();
        let h = text::hex(b as nat, 2);
        lemma_byte(b);
        if s.len() > 1 {
            let front = s.drop_last();
            bytes_are_shown_in_two_digits(front);
            let d = diagnose::hex_dump(s);
            let e = diagnose::hex_dump(front);
            assert(d == e + " "@ + h);
            assert forall|i: int| 0 <= i < s.len() implies d[3 * i] == text::digit_char(
                #[trigger] s[i] as int / 16,
            ) && d[3 * i + 1] == text::digit_char(s[i] as int % 16) by {
                if i < front.len() {
                    assert(front[i] == s[i]);
                }
            }
            assert forall|j: int| 0 <= j < d.len() && j % 3 == 2 implies #[trigger] d[j]
                == ' ' by {
                if j < e.len() {
                    assert(d[j] == e[j]);
                }
            }
        }
    }
}

proof fn lemma_byte(b: u8)
    ensures
        text::hex(b as nat, 2).len() == 2,
        text::hex(b as nat, 2)[0] == text::digit_char(b as int / 16),
        text::hex(b as nat, 2)[1] == text::digit_char(b as int % 16),
{
    reveal_with_fuel(text::hex, 3);
    assert(text::hex(b as nat, 2) == text::hex(b as nat / 16, 1).push(
        text::digit_char((b as nat % 16) as int),
    ));
    assert((b as nat / 16) % 16 == b as nat / 16);
}

/// A frame ends where it says, or where the received bytes end if that is
/// earlier.
pub proof fn frames_end_inside_the_bytes(s: Seq<u8>)
    ensures
        diagnose::frame_end(s) <= s.len(),
        diagnose::frame_end(s) <= layout::le2(s, 1),
        diagnose::frame_end(s) == s.len() || diagnose::frame_end(s) == layout::le2(s, 1),
{
}

/// A range holds the bytes from its start to before its end, and none where it
/// would end before it starts.
pub proof fn ranges_hold_their_bytes(s: Seq<u8>, start: int, end: int, i: int)
    requires
        0 <= start,
        end <= s.len(),
    ensures
        start >= end ==> diagnose::range(s, start, end).len() == 0,
        start <= end ==> diagnose::range(s, start, end).len() == end - start,
        start <= i < end ==> diagnose::range(s, start, end)[i - start] == s[i],
{
}

/// The start of a frame is its first 48 bytes, or all where it has fewer.
pub proof fn starts_are_up_to_48_bytes(s: Seq<u8>, i: int)
    ensures
        diagnose::first_bytes(s).len() <= 48,
        diagnose::first_bytes(s).len() == 48 || diagnose::first_bytes(s).len() == s.len(),
        0 <= i < diagnose::first_bytes(s).len() ==> diagnose::first_bytes(s)[i] == s[i],
{
}

/// A line with a checksum shows it in eight digits behind its label, and is
/// marked just where it is the stored one.
pub proof fn checksums_are_marked_where_they_match(label: Seq<char>, computed: u32, stored: u32)
    ensures
        ({
            let line = diagnose::crc_line(label, computed, stored);
            let n = label.len() as int;
            &&& line.subrange(0, n) == label
            &&& line.subrange(n, n + 8) == text::hex(computed as nat, 8)
            &&& line[n + 8] == ' '
            &&& computed == stored ==> line.subrange(n + 9, line.len() as int) == "<-- MATCH"@
            &&& computed != stored ==> line.len() == n + 9
        }),
{
    reveal_strlit(" ");
    reveal_strlit("");
    reveal_strlit("<-- MATCH");
    let digits = crate::laws::texts::hex_stands_for_its_number(computed as nat, 8);
    let line = diagnose::crc_line(label, computed, stored);
    let n = label.len() as int;
    assert(line.subrange(0, n) == label);
    assert(line.subrange(n, n + 8) == text::hex(computed as nat, 8));
    if computed == stored {
        assert(line.subrange(n + 9, line.len() as int) == "<-- MATCH"@);
    }
}

/// Whether a line is marked.
pub open spec fn marked(line: Seq<char>) -> bool {
    line.len() >= 9 && line.subrange(line.len() - 9, line.len() as int) == "<-- MATCH"@
}

proof fn lemma_marked(label: Seq<char>, computed: u32, stored: u32)
    ensures
        marked(diagnose::crc_line(label, computed, stored)) <==> computed == stored,
{
    checksums_are_marked_where_they_match(label, computed, stored);
    reveal_strlit("<-- MATCH");
    let line = diagnose::crc_line(label, computed, stored);
    let n = label.len() as int;
    assert("<-- MATCH"@.len() == 9);
    if computed == stored {
        assert(line.subrange(n + 9, line.len() as int).len() == 9);
    } else if marked(line) {
        let tail = line.subrange(line.len() - 9, line.len() as int);
        assert(tail[8] == line[n + 8]);
        assert("<-- MATCH"@[8] == 'H');
    }
}

/// Too short a frame is told by its length alone. Any other has seven lines, of
/// which those of the four checksums are marked where the stored one is that
/// over everything behind it, over the samples, over everything but it, and over
/// everything.
pub proof fn dumps_mark_the_checksum_in_use(s: Seq<u8>)
    ensures
        s.len() < 36 ==> diagnose::dump_of(s) == seq![
            "buffer too short: "@ + text::decimal(s.len()) + " bytes"@,
        ],
        s.len() >= 36 ==> {
            let d = diagnose::dump_of(s);
            let end = diagnose::frame_end(s);
            let stored = layout::le4(s, 24);
            &&& d.len() == 7
            &&& d[0] == diagnose::fields_line(s)
            &&& d[1] == "stored crc32 = 0x"@ + text::hex(stored as nat, 8)
            &&& d[2] == diagnose::crc_line(
                "crc [28..length] timestamp+data      = 0x"@,
                crc::crc32_of(diagnose::range(s, 28, end)),
                stored as u32,
            )
            &&& d[3] == diagnose::crc_line(
                "crc [36..length] data only           = 0x"@,
                crc::crc32_of(diagnose::range(s, 36, end)),
                stored as u32,
            )
            &&& d[4] == diagnose::crc_line(
                "crc [0..24]+[28..length] header+ts+data = 0x"@,
                crc::crc32_of(s.subrange(0, 24) + diagnose::range(s, 28, end)),
                stored as u32,
            )
            &&& d[5] == diagnose::crc_line(
                "crc [0..length] whole incl crc field   = 0x"@,
                crc::crc32_of(s.subrange(0, end)),
                stored as u32,
            )
            &&& marked(d[2]) <==> stored == crc::crc32_of(diagnose::range(s, 28, end))
            &&& marked(d[3]) <==> stored == crc::crc32_of(diagnose::range(s, 36, end))
            &&& marked(d[4]) <==> stored == crc::crc32_of(
                s.subrange(0, 24) + diagnose::range(s, 28, end),
            )
            &&& marked(d[5]) <==> stored == crc::crc32_of(s.subrange(0, end))
            &&& d[6] == "first 48 bytes: "@ + diagnose::hex_dump(diagnose::first_bytes(s))
        },
{
    if s.len() >= 36 {
        let end = diagnose::frame_end(s);
        let stored = wire::u32_at(s, 24);
        layout::fields_are_little_endian(s, 24);
        lemma_marked(
            "crc [28..length] timestamp+data      = 0x"@,
            crc::crc32_of(diagnose::range(s, 28, end)),
            stored,
        );
        lemma_marked(
            "crc [36..length] data only           = 0x"@,
            crc::crc32_of(diagnose::range(s, 36, end)),
            stored,
        );
        lemma_marked(
            "crc [0..24]+[28..length] header+ts+data = 0x"@,
            crc::crc32_of(diagnose::range(s, 0, 24) + diagnose::range(s, 28, end)),
            stored,
        );
        lemma_marked(
            "crc [0..length] whole incl crc field   = 0x"@,
            crc::crc32_of(diagnose::range(s, 0, end)),
            stored,
        );
        assert(diagnose::range(s, 0, end) == s.subrange(0, end));
    }
}

/// The line of fields shows the length of the received bytes, and the fields
/// from the bytes that they stand in.
pub proof fn fields_are_shown_from_their_bytes(s: Seq<u8>)
    ensures
        diagnose::fields_line(s) == "recv_len="@ + text::decimal(s.len()) + " declared_length="@
            + text::decimal(layout::le2(s, 1) as nat) + " data_type="@ + text::decimal(
            s[10] as nat,
        ) + " dot_num="@ + text::decimal(layout::le2(s, 5) as nat) + " udp_cnt="@ + text::decimal(
            layout::le2(s, 7) as nat,
        ) + " frame_cnt="@ + text::decimal(s[9] as nat) + " time_type="@ + text::decimal(
            s[11] as nat,
        ) + " ts="@ + text::decimal(layout::le8(s, 28) as nat),
{
    layout::fields_are_little_endian(s, 1);
    layout::fields_are_little_endian(s, 5);
    layout::fields_are_little_endian(s, 7);
    layout::fields_are_little_endian(s, 28);
}

} // verus!
