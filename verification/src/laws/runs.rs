//! Recording, saving and the command lines that start them.

use vstd::prelude::*;

use crate::cli::{self, Flags, Launch, ReaderCommand};
use crate::encode;
use crate::error::LidarError;
use crate::net::Ipv4Addr;
use crate::packet::{DataPacket, DataPayload};
use crate::protocol::DataType;
use crate::recording::{self, Received, RecordAction, RecordEvent, Saving, Toggle};
use crate::text;

verus! {

/// A packet of points is taken on the one socket and a packet of an IMU sample
/// on the other, whole and with its header; on the wrong socket it is passed
/// over.
pub proof fn packets_are_taken_on_their_socket(packet: DataPacket)
    ensures
        packet.payload matches DataPayload::Points(v) ==> recording::points_received(Ok(packet)) == (
        Received::Points { header: packet.header, points: v }) && recording::imu_received(
            Ok(packet),
        ) == Received::Nothing,
        packet.payload matches DataPayload::Imu(x) ==> recording::imu_received(Ok(packet)) == (
        Received::Imu { header: packet.header, sample: x }) && recording::points_received(
            Ok(packet),
        ) == Received::Nothing,
{
}

/// Silence means nothing; every other error is passed on as it is, on both
/// sockets.
pub proof fn silence_is_no_error(e: LidarError)
    ensures
        e is NoResponse ==> recording::points_received(Err(e)) == Received::Nothing
            && recording::imu_received(Err(e)) == Received::Nothing,
        !(e is NoResponse) ==> recording::points_received(Err(e)) == Received::Failed(e)
            && recording::imu_received(Err(e)) == Received::Failed(e),
{
}

/// A recording writes each packet that it takes, reports each error and goes on;
/// it ends only when the user or the output says so.
pub proof fn recordings_write_what_they_take(event: RecordEvent, packet: DataPacket, e: LidarError)
    ensures
        recording::action_for(event) == RecordAction::Stop <==> event == RecordEvent::Interrupted
            || event == RecordEvent::OutputFailed,
        recording::action_for(event) == RecordAction::Flush <==> event == RecordEvent::FlushDue,
        packet.payload matches DataPayload::Points(v) ==> recording::action_for(
            RecordEvent::PointSocket(Ok(packet)),
        ) == (RecordAction::WritePoints { header: packet.header, points: v })
            && recording::action_for(RecordEvent::ImuSocket(Ok(packet))) == RecordAction::Wait,
        packet.payload matches DataPayload::Imu(x) ==> recording::action_for(
            RecordEvent::ImuSocket(Ok(packet)),
        ) == (RecordAction::WriteImu { header: packet.header, sample: x })
            && recording::action_for(RecordEvent::PointSocket(Ok(packet))) == RecordAction::Wait,
        e is NoResponse ==> recording::action_for(RecordEvent::PointSocket(Err(e)))
            == RecordAction::Wait && recording::action_for(RecordEvent::ImuSocket(Err(e)))
            == RecordAction::Wait,
        !(e is NoResponse) ==> recording::action_for(RecordEvent::PointSocket(Err(e)))
            == RecordAction::ReportPoints(e) && recording::action_for(
            RecordEvent::ImuSocket(Err(e)),
        ) == RecordAction::ReportImu(e),
{
}

/// Counts add up, and wrap around where they pass 64 bits.
pub proof fn counts_add_up(a: u64, b: nat, c: nat)
    ensures
        a + b <= u64::MAX ==> recording::wrapping_sum(a, b) == a + b,
        (recording::wrapping_sum(a, b) - a - b) % 0x1_0000_0000_0000_0000 == 0,
        recording::wrapping_sum(recording::wrapping_sum(a, b), c) == recording::wrapping_sum(
            a,
            b + c,
        ),
{
    let m = 0x1_0000_0000_0000_0000int;
    let x = a + b;
    assert(x == m * (x / m) + x % m);
    assert((-(m * (x / m))) % m == 0) by (nonlinear_arith)
        requires
            m == 0x1_0000_0000_0000_0000,
    ;
    let y = x % m + c;
    assert((x + c) % m == y % m) by (nonlinear_arith)
        requires
            x == m * (x / m) + x % m,
            y == x % m + c,
            m == 0x1_0000_0000_0000_0000,
    ;
}

/// The output is flushed after every hundredth frame and after no other.
pub proof fn every_hundredth_frame_flushes(frames: u64)
    ensures
        recording::flush_due(frames) <==> frames % 100 == 0,
        frames < u64::MAX - 100 && recording::flush_due(frames) ==> recording::flush_due(
            (frames + 100) as u64,
        ),
{
}

/// The progress lines name what was counted.
pub proof fn progress_lines_hold_the_counts(a: u64, b: u64)
    ensures
        ({
            let s = recording::recorded_text(a, b);
            let lead = "recorded: points="@;
            let mid = " imu="@;
            let x = text::decimal(a as nat);
            let y = text::decimal(b as nat);
            &&& s.len() == lead.len() + x.len() + mid.len() + y.len()
            &&& s.subrange(0, lead.len() as int) == lead
            &&& s.subrange(lead.len() as int, (lead.len() + x.len()) as int) == x
            &&& s.subrange((lead.len() + x.len()) as int, s.len() - y.len()) == mid
            &&& s.subrange(s.len() - y.len(), s.len() as int) == y
        }),
        ({
            let s = recording::encoded_text(a, b as nat);
            let mid = " frames encoded | cloud "@;
            let end = " points"@;
            let x = text::decimal(a as nat);
            let y = text::decimal(b as nat);
            &&& s.len() == x.len() + mid.len() + y.len() + end.len()
            &&& s.subrange(0, x.len() as int) == x
            &&& s.subrange(x.len() as int, (x.len() + mid.len()) as int) == mid
            &&& s.subrange((x.len() + mid.len()) as int, s.len() - end.len()) == y
            &&& s.subrange(s.len() - end.len(), s.len() as int) == end
        }),
{
}

/// The name of a file holds its number in six digits, or in more where it needs
/// them.
pub proof fn file_names_hold_their_number(index: u32)
    ensures
        ({
            let s = recording::file_name(index);
            let lead = "encoding_"@;
            let end = ".csv"@;
            let digits = s.subrange(lead.len() as int, s.len() - end.len());
            &&& s.len() >= lead.len() + end.len() + 6
            &&& s.subrange(0, lead.len() as int) == lead
            &&& s.subrange(s.len() - end.len(), s.len() as int) == end
            &&& text::all_digits(digits)
            &&& text::digits_value(digits) == index
            &&& digits.len() > 6 ==> digits[0] != '0'
        }),
{
    let s = recording::file_name(index);
    let lead = "encoding_"@;
    let end = ".csv"@;
    let p = text::padded_decimal(index as nat, 6);
    assert(s.subrange(lead.len() as int, s.len() - end.len()) == p);
    crate::laws::texts::filling_keeps_the_number(index as nat, 6);
    crate::laws::texts::decimals_stand_for_their_number(index as nat);
    if p.len() > 6 {
        assert(p == text::decimal(index as nat));
        assert(index != 0);
    }
}

/// The state after some frames were written in a row.
pub open spec fn after_frames(s: Saving, n: nat) -> Saving
    decreases n,
{
    if n == 0 {
        s
    } else {
        after_frames(s, (n - 1) as nat).after_frame(true).1
    }
}

proof fn lemma_after_frames(s: Saving, n: nat)
    requires
        s.frames + n <= u32::MAX,
    ensures
        after_frames(s, n) == (Saving { frames: (s.frames + n) as u32, ..s }),
    decreases n,
{
    if n > 0 {
        lemma_after_frames(s, (n - 1) as nat);
    }
}

/// A recording goes into the file that was asked for. Closing it, or failing to
/// write to it, tells how many frames it holds, and the next recording gets the
/// next file.
pub proof fn recordings_count_their_frames(s: Saving, n: nat)
    requires
        s.enabled,
        !s.recording,
        n <= u32::MAX,
        s.next_index < u32::MAX,
    ensures
        ({
            let running = after_frames(s.toggled().1.begun(), n);
            let (closed, after) = running.toggled();
            let (failed, broken) = running.after_frame(false);
            &&& s.toggled().0 == Toggle::Create(s.next_index)
            &&& !s.toggled().1.recording
            &&& running.recording
            &&& closed == Toggle::Close(n as u32)
            &&& failed == Some(n as u32)
            &&& !after.recording && !broken.recording
            &&& after.enabled && broken.enabled
            &&& after.rounds == s.rounds && broken.rounds == s.rounds
            &&& after.toggled().0 == Toggle::Create((s.next_index + 1) as u32)
            &&& broken.toggled().0 == Toggle::Create((s.next_index + 1) as u32)
        }),
{
    lemma_after_frames(s.toggled().1.begun(), n);
}

/// A written frame closes nothing. Without a folder there is never a recording
/// to start, and the first one with a folder goes into the first file.
pub proof fn saving_needs_a_folder(rounds: u8, s: Saving)
    ensures
        s.after_frame(true).0 is None,
        s.after_frame(true).1.recording == s.recording,
        Saving::fresh(false, rounds).toggled().0 == Toggle::Disabled,
        Saving::fresh(false, rounds).toggled().1 == Saving::fresh(false, rounds),
        Saving::fresh(true, rounds).toggled().0 == Toggle::Create(1),
        Saving::fresh(true, rounds).rounds == rounds,
        !s.enabled && !s.recording ==> s.toggled().0 == Toggle::Disabled,
{
}

/// An encoding has four values for each segment, and a round more has eight
/// times as many.
pub proof fn encodings_have_four_values_a_segment(rounds: nat)
    ensures
        encode::values(0) == 4,
        encode::values(1) == 32,
        encode::values(rounds + 1) == 8 * encode::values(rounds),
{
    assert(encode::eight_to(0) == 1);
    assert(encode::eight_to(1) == 8 * encode::eight_to(0));
    assert(encode::eight_to(rounds + 1) == 8 * encode::eight_to(rounds));
}

/// What was read of a command line stays when more arguments follow.
proof fn lemma_flags_go_on(
    raw: Seq<Seq<char>>,
    positive: Seq<bool>,
    tail: Seq<Seq<char>>,
    more: Seq<bool>,
    windowed: bool,
    i: int,
    so_far: Flags,
)
    requires
        0 <= i <= raw.len(),
        positive.len() == raw.len(),
        cli::flags_from(raw, positive, windowed, i, so_far) is Ok,
    ensures
        cli::flags_from(raw + tail, positive + more, windowed, i, so_far) == cli::flags_from(
            raw + tail,
            positive + more,
            windowed,
            raw.len() as int,
            cli::flags_from(raw, positive, windowed, i, so_far)->Ok_0,
        ),
    decreases raw.len() - i,
{
    if i < raw.len() {
        let all = raw + tail;
        assert(all[i] == raw[i]);
        if cli::is_flag(raw[i], windowed) {
            assert(i + 1 < raw.len());
            assert(all[i + 1] == raw[i + 1]);
            assert((positive + more)[i + 1] == positive[i + 1]);
            let next = if raw[i] == "--encode-dir"@ {
                Flags { dir: Some(raw[i + 1]), ..so_far }
            } else if raw[i] == "--rounds"@ {
                Flags { rounds: cli::rounds_of(raw[i + 1])->0, ..so_far }
            } else {
                Flags { window: Some(raw[i + 1]), ..so_far }
            };
            lemma_flags_go_on(raw, positive, tail, more, windowed, i + 2, next);
        } else {
            let next = Flags { args: so_far.args.push(raw[i]), ..so_far };
            lemma_flags_go_on(raw, positive, tail, more, windowed, i + 1, next);
        }
    }
}

proof fn lemma_flags_append(
    raw: Seq<Seq<char>>,
    positive: Seq<bool>,
    tail: Seq<Seq<char>>,
    more: Seq<bool>,
    windowed: bool,
)
    requires
        raw.len() > 0,
        positive.len() == raw.len(),
        cli::flags_of(raw, positive, windowed) is Ok,
    ensures
        cli::flags_of(raw + tail, positive + more, windowed) == cli::flags_from(
            raw + tail,
            positive + more,
            windowed,
            raw.len() as int,
            cli::flags_of(raw, positive, windowed)->Ok_0,
        ),
{
    let start = Flags {
        args: seq![raw[0]],
        dir: None,
        rounds: cli::DEFAULT_ENCODE_ROUNDS,
        window: None,
    };
    assert((raw + tail)[0] == raw[0]);
    lemma_flags_go_on(raw, positive, tail, more, windowed, 1, start);
}

/// A flag and its value at the end of a command line set that one thing, or are
/// refused where the value will not do: a folder is any text, rounds are one to
/// five, a window is a positive number and a flag only where there is one.
pub proof fn flags_set_one_thing(
    raw: Seq<Seq<char>>,
    positive: Seq<bool>,
    windowed: bool,
    value: Seq<char>,
    value_positive: bool,
)
    requires
        raw.len() > 0,
        positive.len() == raw.len(),
        cli::flags_of(raw, positive, windowed) is Ok,
    ensures
        ({
            let f = cli::flags_of(raw, positive, windowed)->Ok_0;
            let known = positive + seq![false, value_positive];
            &&& cli::flags_of(raw + seq!["--encode-dir"@, value], known, windowed) == Ok::<
                Flags,
                Seq<char>,
            >((Flags { dir: Some(value), ..f }))
            &&& cli::flags_of(raw + seq!["--rounds"@, value], known, windowed) == (
            match text::number_of(value, 255) {
                Some(n) => if 1 <= n <= 5 {
                    Ok::<Flags, Seq<char>>((Flags { rounds: n as u8, ..f }))
                } else {
                    Err::<Flags, Seq<char>>("--rounds must be 1-5, got '"@ + value + "'"@)
                },
                None => Err::<Flags, Seq<char>>("--rounds must be 1-5, got '"@ + value + "'"@),
            })
            &&& windowed ==> cli::flags_of(raw + seq!["--window"@, value], known, windowed) == (
            if value_positive {
                Ok::<Flags, Seq<char>>((Flags { window: Some(value), ..f }))
            } else {
                Err::<Flags, Seq<char>>(
                    "--window must be a positive number of milliseconds, got '"@ + value + "'"@,
                )
            })
        }),
{
    reveal_with_fuel(cli::flags_from, 2);
    reveal_strlit("--encode-dir");
    reveal_strlit("--rounds");
    reveal_strlit("--window");
    assert("--encode-dir"@.len() == 12 && "--rounds"@.len() == 8 && "--window"@.len() == 8);
    assert("--rounds"@[2] != "--window"@[2]);
    let more = seq![false, value_positive];
    let n = raw.len() as int;
    let f = cli::flags_of(raw, positive, windowed)->Ok_0;
    let dir = seq!["--encode-dir"@, value];
    let rounds = seq!["--rounds"@, value];
    let window = seq!["--window"@, value];
    assert((positive + more)[n + 1] == value_positive);
    assert((raw + dir).len() == n + 2 && (raw + rounds).len() == n + 2 && (raw + window).len() == n
        + 2);
    lemma_flags_append(raw, positive, dir, more, windowed);
    assert((raw + dir)[n] == "--encode-dir"@ && (raw + dir)[n + 1] == value);
    lemma_flags_append(raw, positive, rounds, more, windowed);
    assert((raw + rounds)[n] == "--rounds"@ && (raw + rounds)[n + 1] == value);
    lemma_flags_append(raw, positive, window, more, windowed);
    assert((raw + window)[n] == "--window"@ && (raw + window)[n + 1] == value);
}

/// Once a value will not do, nothing behind it changes the answer.
pub proof fn the_first_bad_value_is_told(
    raw: Seq<Seq<char>>,
    positive: Seq<bool>,
    windowed: bool,
    value: Seq<char>,
    tail: Seq<Seq<char>>,
    more: Seq<bool>,
)
    requires
        raw.len() > 0,
        positive.len() == raw.len(),
        cli::flags_of(raw, positive, windowed) is Ok,
    ensures
        ({
            let known = positive + (seq![false, false] + more);
            &&& cli::rounds_of(value) is None ==> cli::flags_of(
                raw + (seq!["--rounds"@, value] + tail),
                known,
                windowed,
            ) == Err::<Flags, Seq<char>>("--rounds must be 1-5, got '"@ + value + "'"@)
            &&& windowed ==> cli::flags_of(
                raw + (seq!["--window"@, value] + tail),
                known,
                windowed,
            ) == Err::<Flags, Seq<char>>(
                "--window must be a positive number of milliseconds, got '"@ + value + "'"@,
            )
        }),
{
    reveal_strlit("--encode-dir");
    reveal_strlit("--rounds");
    reveal_strlit("--window");
    assert("--encode-dir"@.len() == 12 && "--rounds"@.len() == 8 && "--window"@.len() == 8);
    assert("--rounds"@[2] != "--window"@[2]);
    let n = raw.len() as int;
    let known = seq![false, false] + more;
    let rounds = seq!["--rounds"@, value] + tail;
    let window = seq!["--window"@, value] + tail;
    assert(!(positive + known)[n + 1]);
    lemma_flags_append(raw, positive, rounds, known, windowed);
    assert((raw + rounds)[n] == "--rounds"@ && (raw + rounds)[n + 1] == value);
    lemma_flags_append(raw, positive, window, known, windowed);
    assert((raw + window)[n] == "--window"@ && (raw + window)[n + 1] == value);
}

/// An argument at the end that is no flag is one more positional argument; a
/// flag without a value is refused.
pub proof fn arguments_are_added_in_order(
    raw: Seq<Seq<char>>,
    positive: Seq<bool>,
    windowed: bool,
    arg: Seq<char>,
    arg_positive: bool,
)
    requires
        raw.len() > 0,
        positive.len() == raw.len(),
        cli::flags_of(raw, positive, windowed) is Ok,
    ensures
        ({
            let f = cli::flags_of(raw, positive, windowed)->Ok_0;
            let r = cli::flags_of(raw + seq![arg], positive + seq![arg_positive], windowed);
            &&& arg != "--encode-dir"@ && arg != "--rounds"@ && (arg != "--window"@ || !windowed)
                ==> r == Ok::<Flags, Seq<char>>((Flags { args: f.args.push(arg), ..f }))
            &&& arg == "--encode-dir"@ ==> r == Err::<Flags, Seq<char>>(
                "--encode-dir requires a folder path"@,
            )
            &&& arg == "--rounds"@ ==> r == Err::<Flags, Seq<char>>("--rounds requires a value"@)
            &&& arg == "--window"@ && windowed ==> r == Err::<Flags, Seq<char>>(
                "--window requires a value in milliseconds"@,
            )
        }),
{
    reveal_with_fuel(cli::flags_from, 2);
    reveal_strlit("--encode-dir");
    reveal_strlit("--rounds");
    reveal_strlit("--window");
    assert("--encode-dir"@.len() == 12 && "--rounds"@.len() == 8 && "--window"@.len() == 8);
    assert("--rounds"@[2] != "--window"@[2]);
    let n = raw.len() as int;
    lemma_flags_append(raw, positive, seq![arg], seq![arg_positive], windowed);
    assert((raw + seq![arg])[n] == arg);
    assert((raw + seq![arg]).len() == n + 1);
}

/// A bare program name asks for nothing but the defaults: two rounds, no folder
/// and no window.
pub proof fn a_bare_program_has_the_defaults(
    program: Seq<char>,
    positive: Seq<bool>,
    windowed: bool,
)
    ensures
        cli::flags_of(seq![program], positive, windowed) == Ok::<Flags, Seq<char>>(
            (Flags { args: seq![program], dir: None, rounds: 2, window: None }),
        ),
{
}

/// The number of rounds is read from a written number where it is one to five.
pub proof fn rounds_are_one_to_five(n: nat, value: Seq<char>)
    ensures
        cli::rounds_of(text::decimal(n)) == (if 1 <= n <= 5 {
            Some(n as u8)
        } else {
            None
        }),
        cli::rounds_of(value) matches Some(r) ==> 1 <= r <= 5 && text::number_of(value, 255)
            == Some(r as nat),
{
    crate::laws::texts::numbers_are_read_up_to_the_limit(n, 255);
}

/// What the first argument makes of a launch: `live` takes the two addresses
/// behind it, `replay` the table behind it and another one if it is there, and
/// an address is the first of two. Anything else asks for help, and a missing
/// folder is told before missing arguments.
pub proof fn launches_follow_the_first_argument(
    args: Seq<Seq<char>>,
    is_ip: Seq<bool>,
    has_folder: bool,
)
    requires
        is_ip.len() == args.len(),
    ensures
        ({
            let r = cli::launch_of(args, is_ip, has_folder);
            let n = args.len();
            &&& n < 2 ==> r == Launch::Usage
            &&& n >= 2 && args[1] != "live"@ && args[1] != "replay"@ && !is_ip[1] ==> r
                == Launch::Usage
            &&& n >= 2 && (args[1] == "live"@ || args[1] == "replay"@ || is_ip[1]) && !has_folder
                ==> r == Launch::MissingFolder
            &&& n >= 2 && args[1] == "live"@ && has_folder ==> r == (if n >= 4 && is_ip[2]
                && is_ip[3] {
                Launch::Live { host: 2, lidar: 3 }
            } else {
                Launch::MissingAddresses
            })
            &&& n == 2 && args[1] == "replay"@ && has_folder ==> r == Launch::MissingPoints
            &&& n == 3 && args[1] == "replay"@ && has_folder ==> r == (Launch::Replay {
                points: 2,
                imu: None,
            })
            &&& n >= 4 && args[1] == "replay"@ && has_folder ==> r == (Launch::Replay {
                points: 2,
                imu: Some(3),
            })
            &&& n >= 2 && args[1] != "live"@ && args[1] != "replay"@ && is_ip[1] && has_folder ==> r
                == (if n >= 3 && is_ip[2] {
                Launch::Live { host: 1, lidar: 2 }
            } else {
                Launch::MissingAddresses
            })
        }),
{
    reveal_strlit("live");
    reveal_strlit("replay");
    assert("live"@.len() != "replay"@.len());
}

/// What the first argument makes of a reader's command line: which command, and
/// where its arguments stand, or how many addresses are there where some are
/// missing.
pub proof fn readers_follow_the_first_argument(args: Seq<Seq<char>>)
    requires
        args.len() <= usize::MAX,
    ensures
        ({
            let r = cli::reader_command_of(args);
            let n = args.len();
            &&& n < 2 ==> r == ReaderCommand::Usage
            &&& n >= 2 && args[1] != "discover"@ && args[1] != "stream"@ && args[1] != "record"@
                ==> r == ReaderCommand::Usage
            &&& n == 2 && args[1] == "discover"@ ==> r == (ReaderCommand::Discover { host: None })
            &&& n >= 3 && args[1] == "discover"@ ==> r == (ReaderCommand::Discover {
                host: Some(2),
            })
            &&& n >= 4 && args[1] == "stream"@ ==> r == (ReaderCommand::Stream {
                host: 2,
                lidar: 3,
            })
            &&& 2 <= n < 4 && args[1] == "stream"@ ==> (
            r matches ReaderCommand::StreamIncomplete { addresses } && addresses + 2 == n)
            &&& n >= 5 && args[1] == "record"@ ==> r == (ReaderCommand::Record {
                host: 2,
                lidar: 3,
                dir: 4,
            })
            &&& 2 <= n < 5 && args[1] == "record"@ ==> (
            r matches ReaderCommand::RecordIncomplete { addresses } && addresses + 2 == n)
        }),
{
    reveal_strlit("discover");
    reveal_strlit("stream");
    reveal_strlit("record");
    assert("discover"@.len() == 8 && "stream"@.len() == 6 && "record"@.len() == 6);
    assert("stream"@[0] != "record"@[0]);
}

/// An address is its four octets in decimal with dots between them.
pub proof fn addresses_are_dotted(ip: Ipv4Addr)
    ensures
        ({
            let s = cli::ip_text(ip);
            let a = text::decimal(ip.a as nat);
            let b = text::decimal(ip.b as nat);
            let c = text::decimal(ip.c as nat);
            let d = text::decimal(ip.d as nat);
            let i = a.len() as int;
            let j = i + 1 + b.len();
            let k = j + 1 + c.len();
            &&& s.len() == k + 1 + d.len()
            &&& s.subrange(0, i) == a && s[i] == '.'
            &&& s.subrange(i + 1, j) == b && s[j] == '.'
            &&& s.subrange(j + 1, k) == c && s[k] == '.'
            &&& s.subrange(k + 1, s.len() as int) == d
        }),
{
    reveal_strlit(".");
}

/// The advice for a socket names the socket and the address.
pub proof fn advice_names_socket_and_address(resource: Seq<char>, ip: Ipv4Addr)
    ensures
        ({
            let s = cli::bind_advice(resource, ip);
            let lead = "failed to bind "@;
            let mid = " socket to "@;
            let at = (lead.len() + resource.len() + mid.len()) as int;
            &&& s.len() > at + cli::ip_text(ip).len()
            &&& s.subrange(0, lead.len() as int) == lead
            &&& s.subrange(lead.len() as int, (lead.len() + resource.len()) as int) == resource
            &&& s.subrange((lead.len() + resource.len()) as int, at) == mid
            &&& s.subrange(at, at + cli::ip_text(ip).len()) == cli::ip_text(ip)
            &&& s.subrange(at + cli::ip_text(ip).len(), s.len() as int)
                == ". Make sure this is the IP address of a local network interface, not the LiDAR's IP address."@
        }),
{
    reveal_strlit(
        ". Make sure this is the IP address of a local network interface, not the LiDAR's IP address.",
    );
}

/// Only the address of all zeros will not do for a command, and the message
/// starts with the command.
pub proof fn commands_need_a_host(subcommand: Seq<char>, ip: Ipv4Addr)
    ensures
        cli::host_message(subcommand, ip) is Some <==> ip.a == 0 && ip.b == 0 && ip.c == 0 && ip.d
            == 0,
        cli::host_message(subcommand, ip) matches Some(m) ==> m.len() > subcommand.len()
            && m.subrange(0, subcommand.len() as int) == subcommand && m.subrange(
            subcommand.len() as int,
            m.len() as int,
        )
            == " requires a specific host_ip (0.0.0.0 is not valid here); use the IP of the interface connected to the LiDAR"@,
{
    reveal_strlit(
        " requires a specific host_ip (0.0.0.0 is not valid here); use the IP of the interface connected to the LiDAR",
    );
    if let Some(m) = cli::host_message(subcommand, ip) {
        assert(m.subrange(0, subcommand.len() as int) == subcommand);
        assert(m.subrange(subcommand.len() as int, m.len() as int)
            == " requires a specific host_ip (0.0.0.0 is not valid here); use the IP of the interface connected to the LiDAR"@);
    }
}

/// The names of the data formats. Each point format has a short and a long one,
/// and no other name is known.
pub proof fn formats_have_names(name: Seq<char>)
    ensures
        cli::data_type_result("imu"@) matches Ok(t) && t.code() == 0,
        cli::data_type_result("cartesian32"@) matches Ok(t) && t.code() == 1,
        cli::data_type_result("point_cloud_cartesian32"@) matches Ok(t) && t.code() == 1,
        cli::data_type_result("cartesian16"@) matches Ok(t) && t.code() == 2,
        cli::data_type_result("point_cloud_cartesian16"@) matches Ok(t) && t.code() == 2,
        cli::data_type_result("spherical"@) matches Ok(t) && t.code() == 3,
        cli::data_type_result("point_cloud_spherical"@) matches Ok(t) && t.code() == 3,
        name != "imu"@ && name != "cartesian32"@ && name != "point_cloud_cartesian32"@ && name
            != "cartesian16"@ && name != "point_cloud_cartesian16"@ && name != "spherical"@ && name
            != "point_cloud_spherical"@ ==> cli::data_type_result(name) == Err::<
            DataType,
            Seq<char>,
        >("unknown data_type: "@ + name),
{
    reveal_strlit("imu");
    reveal_strlit("cartesian32");
    reveal_strlit("cartesian16");
    reveal_strlit("spherical");
    reveal_strlit("point_cloud_cartesian32");
    reveal_strlit("point_cloud_cartesian16");
    reveal_strlit("point_cloud_spherical");
    assert("imu"@.len() == 3);
    assert("cartesian32"@.len() == 11 && "cartesian16"@.len() == 11);
    assert("spherical"@.len() == 9);
    assert("point_cloud_cartesian32"@.len() == 23 && "point_cloud_cartesian16"@.len() == 23);
    assert("point_cloud_spherical"@.len() == 21);
    assert("cartesian32"@[9] != "cartesian16"@[9]);
    assert("point_cloud_cartesian32"@[21] != "point_cloud_cartesian16"@[21]);
}

} // verus!
