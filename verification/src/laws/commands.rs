//! What stands in command frames, and what is made of the answers.

use vstd::prelude::*;

use crate::client::{self, Device};
use crate::command::{self, Announcement, Command};
use crate::crc;
use crate::error::Failure;
use crate::laws::layout;
use crate::net::{IpAddr, Ipv4Addr, SocketAddr};
use crate::protocol::{self, CmdType, DataType, LidarState, ReturnCode, SenderType};
use crate::text;
use crate::wire;

verus! {

/// The bytes that a command stands in.
pub open spec fn is_command(c: Command, s: Seq<u8>) -> bool {
    &&& s[0] == 0xAA
    &&& c.version == s[1]
    &&& c.length == layout::le2(s, 2)
    &&& c.seq_num == layout::le4(s, 4)
    &&& c.cmd_id == layout::le2(s, 8)
    &&& c.cmd_type.code() == s[10]
    &&& c.sender_type.code() == s[11]
    &&& c.data == s.subrange(24, c.length as int)
}

/// The checksums of a command frame: one over the first 18 bytes, one over the
/// data, which is zero where there is none.
pub open spec fn checksums_hold(s: Seq<u8>) -> bool {
    &&& layout::le2(s, 18) == crc::crc16_of(s.subrange(0, 18))
    &&& layout::le2(s, 2) == 24 ==> layout::le4(s, 20) == 0
    &&& layout::le2(s, 2) > 24 ==> layout::le4(s, 20) == crc::crc32_of(
        s.subrange(24, layout::le2(s, 2)),
    )
}

/// A frame is written with every field in its bytes, both checksums right and
/// the reserved bytes zero.
pub proof fn commands_are_written_to_their_bytes(c: Command)
    requires
        c.consistent(),
    ensures
        c.bytes().len() == 24 + c.data.len(),
        c.length == c.bytes().len(),
        is_command(c, c.bytes()),
        checksums_hold(c.bytes()),
        forall|i: int| 12 <= i < 18 ==> c.bytes()[i] == 0,
{
    let s = c.bytes();
    command::lemma_fields(c, Seq::empty());
    assert(s + Seq::<u8>::empty() == s);
    assert forall|i: int| 12 <= i < 18 implies s[i] == 0 by {
        assert(s[i] == s.subrange(0, 18)[i]);
    }
}

/// A frame that is accepted is whole, its checksums hold, and the command is in
/// its bytes.
pub proof fn accepted_commands_are_in_the_bytes(s: Seq<u8>)
    requires
        !command::underrun(s),
    ensures
        command::command_of(s) matches Ok(c) ==> 24 <= c.length <= s.len() && is_command(c, s)
            && checksums_hold(s),
{
}

/// A frame is accepted wherever it is whole, starts right, its checksums hold
/// and its codes are known.
pub proof fn whole_commands_are_accepted(s: Seq<u8>)
    requires
        24 <= layout::le2(s, 2) <= s.len(),
        s[0] == 0xAA,
        s[10] < 2,
        s[11] < 2,
        checksums_hold(s),
    ensures
        !command::underrun(s),
        command::command_of(s) is Ok,
{
}

/// What is wrong with a frame is found in this order: too short for a header,
/// another start byte, shorter than it says, a wrong checksum, an unknown type,
/// an unknown sender.
pub proof fn command_errors(s: Seq<u8>)
    requires
        !command::underrun(s),
    ensures
        s.len() < 24 ==> command::command_of(s) == Err::<Command, Failure>(
            Failure::PacketTooShort { need: 24, got: s.len() as int },
        ),
        24 <= s.len() && s[0] != 0xAA ==> command::command_of(s) == Err::<Command, Failure>(
            Failure::ParameterParse(
                "invalid SOF: expected 0xAA, got 0x"@ + text::hex(s[0] as nat, 2),
            ),
        ),
        24 <= s.len() < layout::le2(s, 2) && s[0] == 0xAA ==> command::command_of(s) == Err::<
            Command,
            Failure,
        >(Failure::PacketTooShort { need: layout::le2(s, 2), got: s.len() as int }),
        24 <= layout::le2(s, 2) <= s.len() && s[0] == 0xAA && !checksums_hold(s)
            ==> command::command_of(s) == Err::<Command, Failure>(Failure::CrcMismatch),
        24 <= layout::le2(s, 2) <= s.len() && s[0] == 0xAA && checksums_hold(s) && s[10] >= 2
            ==> command::command_of(s) == Err::<Command, Failure>(Failure::InvalidCmdType(s[10])),
        24 <= layout::le2(s, 2) <= s.len() && s[0] == 0xAA && checksums_hold(s) && s[10] < 2
            && s[11] >= 2 ==> command::command_of(s) == Err::<Command, Failure>(
            Failure::InvalidSenderType(s[11]),
        ),
{
}

/// A request is version zero, from the host, and holds what it was made of.
pub proof fn requests_hold_what_they_are_made_of(seq_num: u32, cmd_id: u16, data: Seq<u8>)
    ensures
        ({
            let c = command::request(seq_num, cmd_id, data);
            &&& c.version == 0
            &&& c.cmd_type.code() == 0
            &&& c.sender_type.code() == 0
            &&& c.seq_num == seq_num
            &&& c.cmd_id == cmd_id
            &&& c.data == data
            &&& c.length == (24 + data.len()) % 0x1_0000
            &&& c.consistent() <==> c.length == 24 + data.len()
        }),
{
}

/// Only the sensor's acknowledgement with the same command and number answers a
/// request.
pub proof fn answers_match_in_command_and_number(c: Command, req: Command)
    ensures
        c.acknowledges(req) <==> c.cmd_type.code() == 1 && c.sender_type.code() == 1 && c.cmd_id
            == req.cmd_id && c.seq_num == req.seq_num,
{
}

/// What is handed back as the reply came from the address that was asked, parses
/// and answers the request; anything else that arrives is passed over.
pub proof fn replies_come_from_whom_was_asked(
    req: Command,
    addr: SocketAddr,
    from: IpAddr,
    s: Seq<u8>,
)
    ensures
        client::reply_of(req, addr, from, s) matches Some(c) ==> from == addr.ip()
            && command::command_of(s) == Ok::<Command, Failure>(c) && c.acknowledges(req),
        client::reply_of(req, addr, from, s) is None ==> from != addr.ip() || (command::command_of(
            s,
        ) matches Ok(c) ==> !c.acknowledges(req)),
{
}

/// Up to 2024 bytes of data fit into a request; more is refused, not cut.
pub proof fn requests_up_to_the_buffer_are_sent(len: nat)
    ensures
        len <= 2024 ==> client::framable(len) && wire::low16(24 + len) == 24 + len && 24 + len
            <= client::REQUEST_BUFFER_SIZE,
        2024 < len <= 0xFFFF - 24 ==> client::framable(len) && wire::low16(24 + len)
            > client::REQUEST_BUFFER_SIZE,
        client::framable(len) <==> 24 + len <= 0xFFFF || (24 + len) % 0x1_0000 > 2048,
{
}

/// A request with up to 2024 bytes of data is sent as the frame of a request
/// with this number, command and data; one with more is refused.
pub proof fn requests_are_framed(seq: u32, cmd_id: u16, data: Seq<u8>)
    ensures
        data.len() <= 2024 ==> (client::framed(seq, cmd_id, data) matches Ok(s) && {
            &&& s.len() == 24 + data.len()
            &&& s[0] == 0xAA && s[1] == 0 && s[10] == 0 && s[11] == 0
            &&& layout::le2(s, 2) == s.len()
            &&& layout::le4(s, 4) == seq
            &&& layout::le2(s, 8) == cmd_id
            &&& s.subrange(24, s.len() as int) == data
            &&& checksums_hold(s)
        }),
        2024 < data.len() <= 0xFFFF - 24 ==> client::framed(seq, cmd_id, data) == Err::<
            Seq<u8>,
            Failure,
        >(Failure::BufferTooSmall),
{
    let c = command::request(seq, cmd_id, data);
    requests_hold_what_they_are_made_of(seq, cmd_id, data);
    if c.consistent() {
        commands_are_written_to_their_bytes(c);
    }
}

/// A list starts with its number of pairs and two zero bytes. One more pair adds
/// its key, the length of its value and the value at the end. Of numbers that are
/// too large for two bytes the low ones are written.
pub proof fn pairs_stand_one_behind_the_other(pairs: Seq<(u16, Seq<u8>)>, key: u16, value: Seq<u8>)
    ensures
        command::key_value_bytes(Seq::empty()) == seq![0u8, 0, 0, 0],
        ({
            let s = command::key_value_bytes(pairs);
            let t = command::key_value_bytes(pairs.push((key, value)));
            &&& s.len() >= 4
            &&& layout::le2(s, 0) == pairs.len() % 0x1_0000
            &&& layout::le2(t, 0) == (pairs.len() + 1) % 0x1_0000
            &&& s[2] == 0 && s[3] == 0 && t[2] == 0 && t[3] == 0
            &&& t.len() == s.len() + 4 + value.len()
            &&& t.subrange(4, s.len() as int) == s.subrange(4, s.len() as int)
            &&& layout::le2(t, s.len() as int) == key
            &&& layout::le2(t, s.len() as int + 2) == value.len() % 0x1_0000
            &&& t.subrange(s.len() as int + 4, t.len() as int) == value
        }),
{
    let more = pairs.push((key, value));
    assert(more.drop_last() == pairs);
    assert(command::pairs_bytes(Seq::<(u16, Seq<u8>)>::empty()) == Seq::<u8>::empty());
    assert(command::key_value_bytes(Seq::empty()) == seq![0u8, 0, 0, 0]);
    let s = command::key_value_bytes(pairs);
    let t = command::key_value_bytes(more);
    let len = wire::low16(value.len());
    assert(t.subrange(4, s.len() as int) == s.subrange(4, s.len() as int));
    wire::lemma_u16_stands(s, 0, wire::low16(pairs.len()));
    wire::lemma_u16_stands(t, 0, wire::low16(pairs.len() + 1));
    wire::lemma_u16_stands(t, s.len() as int, key);
    wire::lemma_u16_stands(t, s.len() as int + 2, len);
    assert(t.subrange(s.len() as int + 4, t.len() as int) == value);
}

/// A key list starts with its number of keys and two zero bytes. One more key
/// adds its two bytes at the end.
pub proof fn keys_stand_one_behind_the_other(keys: Seq<u16>, key: u16)
    ensures
        command::key_list_bytes(Seq::empty()) == seq![0u8, 0, 0, 0],
        ({
            let s = command::key_list_bytes(keys);
            let t = command::key_list_bytes(keys.push(key));
            &&& s.len() == 4 + 2 * keys.len()
            &&& layout::le2(s, 0) == keys.len() % 0x1_0000
            &&& s[2] == 0 && s[3] == 0
            &&& t.len() == s.len() + 2
            &&& t.subrange(4, s.len() as int) == s.subrange(4, s.len() as int)
            &&& layout::le2(t, s.len() as int) == key
        }),
{
    let more = keys.push(key);
    assert(more.drop_last() == keys);
    assert(command::keys_bytes(Seq::<u16>::empty()) == Seq::<u8>::empty());
    assert(command::key_list_bytes(Seq::empty()) == seq![0u8, 0, 0, 0]);
    lemma_keys_len(keys);
    let s = command::key_list_bytes(keys);
    let t = command::key_list_bytes(more);
    assert(t.subrange(4, s.len() as int) == s.subrange(4, s.len() as int));
    wire::lemma_u16_stands(s, 0, wire::low16(keys.len()));
    wire::lemma_u16_stands(t, s.len() as int, key);
}

proof fn lemma_keys_len(keys: Seq<u16>)
    ensures
        command::keys_bytes(keys).len() == 2 * keys.len(),
    decreases keys.len(),
{
    if keys.len() > 0 {
        lemma_keys_len(keys.drop_last());
    }
}

/// A list that is refused ended too early: more bytes were needed than were
/// there.
pub proof fn refused_lists_end_too_early(s: Seq<u8>)
    requires
        s.len() < usize::MAX,
    ensures
        command::key_values_of(s) matches Err(e) ==> (e matches Failure::PacketTooShort {
            need,
            got,
        } && got == s.len() && need > got),
        s.len() < 4 ==> command::key_values_of(s) == Err::<Seq<(u16, Seq<u8>)>, Failure>(
            Failure::PacketTooShort { need: 4, got: s.len() as int },
        ),
        command::key_values_of(s) matches Ok(pairs) ==> pairs.len() == layout::le2(s, 0),
{
    if s.len() >= 4 {
        lemma_refused_pairs(s, 4, wire::u16_at(s, 0) as nat);
    }
}

proof fn lemma_refused_pairs(s: Seq<u8>, off: int, n: nat)
    requires
        0 <= off <= s.len() < usize::MAX,
    ensures
        command::read_pairs(s, off, n) matches Err(e) ==> (e matches Failure::PacketTooShort {
            need,
            got,
        } && got == s.len() && need > got),
        command::read_pairs(s, off, n) matches Ok(pairs) ==> pairs.len() == n,
    decreases n,
{
    if n > 0 && off + 4 <= s.len() {
        let len = wire::u16_at(s, off + 2);
        if off + 4 + len <= s.len() {
            lemma_refused_pairs(s, off + 4 + len, (n - 1) as nat);
        }
    }
}

/// What a list that ends too early is said to need: the pairs before it can be
/// read, and the next one ends there, or its four leading bytes do where even
/// they are not all there. The number of pairs before it is given back.
pub proof fn refused_lists_need_the_next_pair(s: Seq<u8>) -> (k: nat)
    requires
        4 <= s.len() < usize::MAX - 0x2_0000,
        command::key_values_of(s) is Err,
    ensures
        k < layout::le2(s, 0),
        ({
            let read = command::read_pairs(s, 4, k);
            &&& read is Ok
            &&& {
                let at = 4int + command::pairs_bytes(read->Ok_0).len();
                &&& at <= s.len()
                &&& command::key_values_of(s) == Err::<Seq<(u16, Seq<u8>)>, Failure>(
                    Failure::PacketTooShort { need: need_at(s, at), got: s.len() as int },
                )
            }
        }),
{
    lemma_next_pair(s, 4, wire::u16_at(s, 0) as nat)
}

/// Where the pair that starts at `at` ends, as far as it can be known.
pub open spec fn need_at(s: Seq<u8>, at: int) -> int {
    if s.len() < at + 4 {
        at + 4
    } else {
        at + 4 + layout::le2(s, at + 2)
    }
}

proof fn lemma_next_pair(s: Seq<u8>, off: int, n: nat) -> (k: nat)
    requires
        0 <= off <= s.len() < usize::MAX - 0x2_0000,
        command::read_pairs(s, off, n) is Err,
    ensures
        k < n,
        command::read_pairs(s, off, k) is Ok,
        ({
            let at = off + command::pairs_bytes(command::read_pairs(s, off, k)->Ok_0).len();
            &&& at <= s.len()
            &&& command::read_pairs(s, off, n) == Err::<Seq<(u16, Seq<u8>)>, Failure>(
                Failure::PacketTooShort { need: need_at(s, at), got: s.len() as int },
            )
        }),
    decreases n,
{
    let none = Seq::<(u16, Seq<u8>)>::empty();
    assert(command::pairs_bytes(none).len() == 0);
    if off + 4 > s.len() {
        assert(command::read_pairs(s, off, 0) == Ok::<Seq<(u16, Seq<u8>)>, Failure>(none));
        0
    } else {
        let len = wire::u16_at(s, off + 2);
        let next = off + 4 + len;
        if next > s.len() {
            assert(command::read_pairs(s, off, 0) == Ok::<Seq<(u16, Seq<u8>)>, Failure>(none));
            0
        } else {
            let k = lemma_next_pair(s, next, (n - 1) as nat);
            let rest = command::read_pairs(s, next, k)->Ok_0;
            let pairs = command::read_pairs(s, off, k + 1)->Ok_0;
            assert(((k + 1) - 1) as nat == k);
            assert(pairs.drop_first() == rest);
            command::lemma_pairs_bytes_front(pairs);
            k + 1
        }
    }
}

/// The two bytes behind the number of pairs are not looked at.
pub proof fn reserved_bytes_are_not_read(s: Seq<u8>, a: u8, b: u8)
    requires
        s.len() >= 4,
    ensures
        command::key_values_of(s.update(2, a).update(3, b)) == command::key_values_of(s),
{
    let t = s.update(2, a).update(3, b);
    lemma_same_from(s, t, 4, wire::u16_at(s, 0) as nat);
}

proof fn lemma_same_from(s: Seq<u8>, t: Seq<u8>, off: int, n: nat)
    requires
        s.len() == t.len(),
        4 <= off,
        forall|i: int| 4 <= i < s.len() ==> s[i] == t[i],
    ensures
        command::read_pairs(s, off, n) == command::read_pairs(t, off, n),
    decreases n,
{
    if n > 0 && off + 4 <= s.len() {
        let len = wire::u16_at(s, off + 2);
        assert(wire::u16_at(t, off + 2) == len);
        if off + 4 + len <= s.len() {
            assert(s.subrange(off + 4, off + 4 + len) == t.subrange(off + 4, off + 4 + len));
            lemma_same_from(s, t, off + 4 + len, (n - 1) as nat);
        }
    }
}

/// No list is accepted that was cut off somewhere.
pub proof fn cut_lists_are_refused(pairs: Seq<(u16, Seq<u8>)>, n: int)
    requires
        pairs.len() < 0x1_0000,
        forall|i: int| 0 <= i < pairs.len() ==> (#[trigger] pairs[i]).1.len() < 0x1_0000,
        0 <= n < command::key_value_bytes(pairs).len(),
    ensures
        command::key_values_of(command::key_value_bytes(pairs).subrange(0, n)) is Err,
{
    let whole = command::key_value_bytes(pairs);
    let s = whole.subrange(0, n);
    if n >= 4 && command::key_values_of(s) is Ok {
        command::key_value_round_trip(pairs, Seq::empty());
        assert(whole + Seq::<u8>::empty() == whole);
        assert(wire::u16_at(s, 0) == wire::u16_at(whole, 0));
        lemma_read_from_longer(s, whole, 4, wire::u16_at(s, 0) as nat);
        let got = command::key_values_of(s)->Ok_0;
        assert(got == pairs);
        lemma_pairs_need_their_bytes(s, 4, pairs.len());
        assert(command::pairs_bytes(pairs).len() == whole.len() - 4);
    }
}

/// What is read from a text is read from every longer one.
proof fn lemma_read_from_longer(s: Seq<u8>, t: Seq<u8>, off: int, n: nat)
    requires
        0 <= off,
        s.len() <= t.len(),
        s == t.subrange(0, s.len() as int),
        command::read_pairs(s, off, n) is Ok,
    ensures
        command::read_pairs(t, off, n) == command::read_pairs(s, off, n),
    decreases n,
{
    if n > 0 {
        assert forall|i: int| 0 <= i < s.len() implies s[i] == t[i] by {}
        let len = wire::u16_at(s, off + 2);
        assert(wire::u16_at(t, off + 2) == len);
        assert(s.subrange(off + 4, off + 4 + len) == t.subrange(off + 4, off + 4 + len));
        lemma_read_from_longer(s, t, off + 4 + len, (n - 1) as nat);
    }
}

proof fn lemma_pairs_need_their_bytes(s: Seq<u8>, off: int, n: nat)
    requires
        0 <= off <= s.len(),
        command::read_pairs(s, off, n) is Ok,
    ensures
        off + command::pairs_bytes(command::read_pairs(s, off, n)->Ok_0).len() <= s.len(),
    decreases n,
{
    let pairs = command::read_pairs(s, off, n)->Ok_0;
    if n > 0 {
        let len = wire::u16_at(s, off + 2);
        lemma_pairs_need_their_bytes(s, off + 4 + len, (n - 1) as nat);
        let rest = command::read_pairs(s, off + 4 + len, (n - 1) as nat)->Ok_0;
        assert(pairs.drop_first() == rest);
        command::lemma_pairs_bytes_front(pairs);
    }
}

/// A query's answer gives back every parameter in it, in order, where the sensor
/// reports success, and its outcome where it does not.
pub proof fn queries_give_back_every_parameter(
    code: ReturnCode,
    pairs: Seq<(u16, Seq<u8>)>,
    tail: Seq<u8>,
)
    requires
        pairs.len() < 0x1_0000,
        forall|i: int| 0 <= i < pairs.len() ==> (#[trigger] pairs[i]).1.len() < 0x1_0000,
    ensures
        ({
            let data = seq![code.code()] + command::key_value_bytes(pairs) + tail;
            &&& command::inquire_ack_of(data) == Ok::<(ReturnCode, Seq<(u16, Seq<u8>)>), Failure>(
                (code, pairs),
            )
            &&& code.code() == 0 ==> client::query_result_of(data) == Ok::<
                Seq<(u16, Seq<u8>)>,
                Failure,
            >(pairs)
            &&& code.code() != 0 ==> client::query_result_of(data) == Err::<
                Seq<(u16, Seq<u8>)>,
                Failure,
            >(Failure::CommandFailed { code })
        }),
{
    let data = seq![code.code()] + command::key_value_bytes(pairs) + tail;
    command::key_value_round_trip(pairs, tail);
    assert(data.subrange(1, data.len() as int) == command::key_value_bytes(pairs) + tail);
    layout::command_codes(code.code());
    protocol::byte_codes_round_trip(
        DataType::Imu,
        protocol::TimestampType::NoSync,
        CmdType::Req,
        SenderType::Host,
        LidarState::Idle,
        code,
        0,
    );
}

/// What is wrong with the answer to a query: nothing in it, an unknown outcome,
/// or else what is wrong with its list.
pub proof fn query_errors(s: Seq<u8>)
    ensures
        s.len() == 0 ==> client::query_result_of(s) == Err::<Seq<(u16, Seq<u8>)>, Failure>(
            Failure::PacketTooShort { need: 1, got: 0 },
        ),
        s.len() > 0 && protocol::return_code_of(s[0]) is None ==> client::query_result_of(s)
            == Err::<Seq<(u16, Seq<u8>)>, Failure>(Failure::InvalidReturnCode(s[0])),
        s.len() > 0 && protocol::return_code_of(s[0]) is Some ==> (command::key_values_of(
            s.subrange(1, s.len() as int),
        ) matches Err(e) ==> client::query_result_of(s) == Err::<Seq<(u16, Seq<u8>)>, Failure>(e)),
        client::query_result_of(s) matches Ok(pairs) ==> s[0] == 0 && command::key_values_of(
            s.subrange(1, s.len() as int),
        ) == Ok::<Seq<(u16, Seq<u8>)>, Failure>(pairs),
{
    if s.len() > 0 {
        layout::command_codes(s[0]);
    }
}

/// Setting parameters succeeds where the first byte of the answer is zero, and
/// fails with the sensor's outcome where it is another that is known. A key may
/// follow and changes nothing in this.
pub proof fn settings_succeed_by_their_first_byte(s: Seq<u8>)
    ensures
        s.len() == 0 ==> client::set_result_of(s) == Err::<(), Failure>(
            Failure::PacketTooShort { need: 1, got: 0 },
        ),
        s.len() > 0 && s[0] == 0 ==> client::set_result_of(s) == Ok::<(), Failure>(()),
        s.len() > 0 && s[0] != 0 && protocol::return_code_of(s[0]) is Some ==> (
        client::set_result_of(s) matches Err(Failure::CommandFailed { code }) && code.code()
            == s[0]),
        s.len() > 0 && protocol::return_code_of(s[0]) is None ==> client::set_result_of(s) == Err::<
            (),
            Failure,
        >(Failure::InvalidReturnCode(s[0])),
        s.len() > 0 && protocol::return_code_of(s[0]) is Some ==> (command::config_ack_of(
            s,
        ) matches Ok((code, key)) && code.code() == s[0] && (key is Some <==> s.len() >= 3) && (
        key matches Some(k) ==> k == layout::le2(s, 1))),
{
    if s.len() > 0 {
        layout::command_codes(s[0]);
    }
}

/// An announcement is read from its bytes: outcome, device, serial number,
/// address and port.
pub proof fn announcements_are_read_from_their_bytes(s: Seq<u8>)
    ensures
        s.len() < 24 ==> command::announcement_of(s) == Err::<Announcement, Failure>(
            Failure::PacketTooShort { need: 24, got: s.len() as int },
        ),
        s.len() >= 24 && protocol::return_code_of(s[0]) is None ==> command::announcement_of(s)
            == Err::<Announcement, Failure>(Failure::InvalidReturnCode(s[0])),
        s.len() >= 24 && protocol::return_code_of(s[0]) is Some ==> (command::announcement_of(
            s,
        ) matches Ok(a) && {
            &&& a.ret_code.code() == s[0]
            &&& a.dev_type == s[1]
            &&& a.serial_number == s.subrange(2, 18)
            &&& a.lidar_ip.a == s[18] && a.lidar_ip.b == s[19]
            &&& a.lidar_ip.c == s[20] && a.lidar_ip.d == s[21]
            &&& a.cmd_port == layout::le2(s, 22)
        }),
{
    if s.len() > 0 {
        layout::command_codes(s[0]);
    }
}

/// A sensor that acknowledges a discovery is announced with what the data of its
/// frame says, whatever bytes follow; other frames announce nothing.
pub proof fn acknowledged_discoveries_announce(c: Command, tail: Seq<u8>)
    requires
        c.consistent(),
    ensures
        c.cmd_id == 0 && c.cmd_type.code() == 1 && c.data.len() >= 24
            && protocol::return_code_of(c.data[0]) is Some ==> (client::announced(
            c.bytes() + tail,
        ) matches Some(d) && {
            &&& d.dev_type == c.data[1]
            &&& d.serial_number == c.data.subrange(2, 18)
            &&& d.lidar_cmd_addr matches SocketAddr::V4 { ip, port } && ip.a == c.data[18] && ip.b
                == c.data[19] && ip.c == c.data[20] && ip.d == c.data[21] && port == layout::le2(
                c.data,
                22,
            )
        }),
        c.cmd_id != 0 || c.cmd_type.code() != 1 || c.data.len() < 24
            || protocol::return_code_of(c.data[0]) is None ==> client::announced(c.bytes() + tail)
            is None,
{
    let s = c.bytes() + tail;
    command::command_round_trip(c, tail);
    lemma_announced(c, s);
    announcements_are_read_from_their_bytes(c.data);
}

proof fn lemma_announced(c: Command, s: Seq<u8>)
    requires
        command::command_of(s) == Ok::<Command, Failure>(c),
    ensures
        c.cmd_id == 0 && c.cmd_type.code() == 1 ==> (client::announced(s) matches Some(d) ==> {
            &&& command::announcement_of(c.data) matches Ok(a)
            &&& d.dev_type == a.dev_type
            &&& d.serial_number == a.serial_number
            &&& d.lidar_cmd_addr == (SocketAddr::V4 { ip: a.lidar_ip, port: a.cmd_port })
        }),
        c.cmd_id == 0 && c.cmd_type.code() == 1 && command::announcement_of(c.data) is Ok
            <==> client::announced(s) is Some,
{
}

/// A datagram that is no command frame announces nothing.
pub proof fn other_datagrams_announce_nothing(s: Seq<u8>)
    ensures
        command::command_of(s) is Err ==> client::announced(s) is None,
{
}

/// One more datagram leaves the listed sensors as and where they are. A sensor
/// that was not listed yet comes last; any other datagram changes nothing.
pub proof fn discovery_only_adds(datagrams: Seq<Seq<u8>>, s: Seq<u8>)
    ensures
        ({
            let before = client::collected(datagrams);
            let after = client::collected(datagrams.push(s));
            match client::announced(s) {
                Some(d) => if exists|i: int|
                    0 <= i < before.len() && (#[trigger] before[i]).lidar_cmd_addr
                        == d.lidar_cmd_addr {
                    after == before
                } else {
                    after == before.push(d)
                },
                None => after == before,
            }
        }),
        client::collected(Seq::empty()) == Seq::<Device>::empty(),
{
    assert(datagrams.push(s).drop_last() == datagrams);
}

/// The request that is broadcast is a discovery with number zero and no data.
pub proof fn discovery_asks_for_discovery()
    ensures
        ({
            let s = client::discovery_request_bytes();
            &&& s.len() == 24
            &&& s[0] == 0xAA && s[1] == 0 && layout::le2(s, 2) == 24 && layout::le4(s, 4) == 0
            &&& layout::le2(s, 8) == 0 && s[10] == 0 && s[11] == 0
            &&& checksums_hold(s)
        }),
{
    let c = command::request(0, protocol::CmdId::Discovery.code(), Seq::empty());
    commands_are_written_to_their_bytes(c);
}

/// The request goes to the given address first, and to the directed broadcast on
/// the same port where there is one that differs.
pub proof fn discovery_goes_to_each_target_once(addr: SocketAddr, directed: Option<Ipv4Addr>)
    ensures
        ({
            let targets = client::targets_of(addr, directed);
            &&& targets.len() > 0 && targets[0] == addr
            &&& directed is None ==> targets.len() == 1
            &&& directed matches Some(ip) ==> targets.contains(
                SocketAddr::V4 { ip, port: addr.port() },
            )
            &&& targets.no_duplicates()
            &&& forall|t: SocketAddr| #[trigger]
                targets.contains(t) ==> t == addr || (directed matches Some(ip) && t
                    == (SocketAddr::V4 { ip, port: addr.port() }))
        }),
{
    let targets = client::targets_of(addr, directed);
    if let Some(ip) = directed {
        let d = SocketAddr::V4 { ip, port: addr.port() };
        if d == addr {
            assert(targets[0] == d);
        } else {
            assert(targets[1] == d);
        }
    }
}

/// A directed broadcast is that of an interface with the local address; one is
/// found wherever such an interface has one, and none for an unspecified or a
/// loopback address. The first such interface decides.
pub proof fn directed_broadcasts_are_of_the_local_interface(
    ip: Ipv4Addr,
    interfaces: Seq<client::Interface>,
)
    ensures
        client::directed_broadcast(None, interfaces) is None,
        ip.a == 127 || (ip.a == 0 && ip.b == 0 && ip.c == 0 && ip.d == 0)
            ==> client::directed_broadcast(Some(ip), interfaces) is None,
        ip.a != 127 && !(ip.a == 0 && ip.b == 0 && ip.c == 0 && ip.d == 0) ==> {
            let r = client::directed_broadcast(Some(ip), interfaces);
            &&& r is None <==> forall|i: int|
                0 <= i < interfaces.len() ==> (#[trigger] interfaces[i]).ip != IpAddr::V4(ip)
                    || interfaces[i].broadcast is None
            &&& r is Some ==> exists|i: int|
                0 <= i < interfaces.len() && (#[trigger] interfaces[i]).ip == IpAddr::V4(ip)
                    && interfaces[i].broadcast == r && forall|j: int|
                    0 <= j < i ==> (#[trigger] interfaces[j]).ip != IpAddr::V4(ip)
                        || interfaces[j].broadcast is None
        },
{
    lemma_broadcast_of(interfaces, ip);
}

proof fn lemma_broadcast_of(interfaces: Seq<client::Interface>, ip: Ipv4Addr)
    ensures
        ({
            let r = client::broadcast_of(interfaces, ip);
            &&& r is None <==> forall|i: int|
                0 <= i < interfaces.len() ==> (#[trigger] interfaces[i]).ip != IpAddr::V4(ip)
                    || interfaces[i].broadcast is None
            &&& r is Some ==> exists|i: int|
                0 <= i < interfaces.len() && (#[trigger] interfaces[i]).ip == IpAddr::V4(ip)
                    && interfaces[i].broadcast == r && forall|j: int|
                    0 <= j < i ==> (#[trigger] interfaces[j]).ip != IpAddr::V4(ip)
                        || interfaces[j].broadcast is None
        }),
    decreases interfaces.len(),
{
    if interfaces.len() > 0 {
        let rest = interfaces.drop_first();
        lemma_broadcast_of(rest, ip);
        if !(interfaces[0].ip == IpAddr::V4(ip) && interfaces[0].broadcast is Some) {
            let r = client::broadcast_of(rest, ip);
            assert(forall|i: int| 0 <= i < rest.len() ==> rest[i] == interfaces[i + 1]);
            if r is None {
                assert forall|i: int| 0 <= i < interfaces.len() implies (
                #[trigger] interfaces[i]).ip != IpAddr::V4(ip) || interfaces[i].broadcast
                    is None by {
                    if i > 0 {
                        assert(rest[i - 1] == interfaces[i]);
                    }
                }
            } else {
                let k = choose|k: int|
                    0 <= k < rest.len() && (#[trigger] rest[k]).ip == IpAddr::V4(ip)
                        && rest[k].broadcast == r && forall|j: int|
                        0 <= j < k ==> (#[trigger] rest[j]).ip != IpAddr::V4(ip)
                            || rest[j].broadcast is None;
                assert(interfaces[k + 1] == rest[k]);
                assert forall|j: int| 0 <= j < k + 1 implies (#[trigger] interfaces[j]).ip
                    != IpAddr::V4(ip) || interfaces[j].broadcast is None by {
                    if j > 0 {
                        assert(rest[j - 1] == interfaces[j]);
                    }
                }
            }
        }
    }
}

} // verus!
