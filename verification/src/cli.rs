//! Command lines of the reader, the viewer and the encoder.

use vstd::prelude::*;

use crate::encode::{MAX_ROUNDS, MIN_ROUNDS};
use crate::net::{self, Ipv4Addr};
use crate::protocol::DataType;
use crate::text::{self, chars_of, parse_number, push_decimal, same_text};

verus! {

/// Octree rounds used unless `--rounds` overrides it.
pub const DEFAULT_ENCODE_ROUNDS: u8 = 2;

/// What a command line says beside its positional arguments.
#[verifier::ext_equal]
pub struct Flags {
    pub args: Seq<Seq<char>>,
    pub dir: Option<Seq<char>>,
    pub rounds: u8,
    pub window: Option<Seq<char>>,
}

/// The number of rounds in a text, if it is one that is allowed.
pub open spec fn rounds_of(value: Seq<char>) -> Option<u8> {
    match text::number_of(value, 255) {
        Some(n) if MIN_ROUNDS <= n <= MAX_ROUNDS => Some(n as u8),
        _ => None,
    }
}

/// The message for a number of rounds that is not allowed.
pub open spec fn bad_rounds(value: Seq<char>) -> Seq<char> {
    "--rounds must be 1-5, got '"@ + value + "'"@
}

/// The message for a window that is no positive number.
pub open spec fn bad_window(value: Seq<char>) -> Seq<char> {
    "--window must be a positive number of milliseconds, got '"@ + value + "'"@
}

/// The flags from argument `i` on, on top of those in `so_far`, or the message
/// for the first argument that is wrong. `positive` says which arguments are
/// positive numbers; `--window` is a flag only where `windowed`.
pub open spec fn flags_from(
    raw: Seq<Seq<char>>,
    positive: Seq<bool>,
    windowed: bool,
    i: int,
    so_far: Flags,
) -> Result<Flags, Seq<char>>
    decreases raw.len() - i,
{
    if i >= raw.len() {
        Ok(so_far)
    } else if raw[i] == "--encode-dir"@ {
        if i + 1 >= raw.len() {
            Err("--encode-dir requires a folder path"@)
        } else {
            flags_from(
                raw,
                positive,
                windowed,
                i + 2,
                Flags { dir: Some(raw[i + 1]), ..so_far },
            )
        }
    } else if raw[i] == "--rounds"@ {
        if i + 1 >= raw.len() {
            Err("--rounds requires a value"@)
        } else {
            match rounds_of(raw[i + 1]) {
                None => Err(bad_rounds(raw[i + 1])),
                Some(rounds) => flags_from(
                    raw,
                    positive,
                    windowed,
                    i + 2,
                    Flags { rounds, ..so_far },
                ),
            }
        }
    } else if windowed && raw[i] == "--window"@ {
        if i + 1 >= raw.len() {
            Err("--window requires a value in milliseconds"@)
        } else if !positive[i + 1] {
            Err(bad_window(raw[i + 1]))
        } else {
            flags_from(
                raw,
                positive,
                windowed,
                i + 2,
                Flags { window: Some(raw[i + 1]), ..so_far },
            )
        }
    } else {
        flags_from(
            raw,
            positive,
            windowed,
            i + 1,
            Flags { args: so_far.args.push(raw[i]), ..so_far },
        )
    }
}

/// The flags of a whole command line, whose first argument is the program.
pub open spec fn flags_of(raw: Seq<Seq<char>>, positive: Seq<bool>, windowed: bool) -> Result<
    Flags,
    Seq<char>,
> {
    flags_from(
        raw,
        positive,
        windowed,
        1,
        Flags { args: seq![raw[0]], dir: None, rounds: DEFAULT_ENCODE_ROUNDS, window: None },
    )
}

/// An optional text, seen through its contents.
pub open spec fn seen_text(t: Option<String>) -> Option<Seq<char>> {
    match t {
        Some(s) => Some(s@),
        None => None,
    }
}

/// A split command line, seen through its contents.
pub open spec fn seen_flags(r: Result<(Vec<String>, Option<String>, u8, Option<String>), String>) -> Result<
    Flags,
    Seq<char>,
> {
    match r {
        Ok((args, dir, rounds, window)) => Ok(
            Flags {
                args: text::texts_of(args@),
                dir: seen_text(dir),
                rounds,
                window: seen_text(window),
            },
        ),
        Err(message) => Err(message@),
    }
}

/// The number of rounds in a text, if it is one that is allowed.
fn parse_rounds(value: &str) -> (r: Option<u8>)
    ensures
        r == rounds_of(value@),
{
    let chars = chars_of(value);
    match parse_number(chars.as_slice(), 255) {
        Some(n) => if n >= MIN_ROUNDS as u64 && n <= MAX_ROUNDS as u64 {
            Some(n as u8)
        } else {
            None
        },
        None => None,
    }
}

fn quoted_message(lead: &str, value: &str) -> (s: String)
    ensures
        s@ == lead@ + value@ + "'"@,
{
    let mut s = lead.to_owned();
    s.append(value);
    s.append("'");
    s
}

fn split(raw: &[String], positive: &[bool], windowed: bool) -> (r: Result<
    (Vec<String>, Option<String>, u8, Option<String>),
    String,
>)
    requires
        raw@.len() > 0,
        windowed ==> positive@.len() == raw@.len(),
    ensures
        seen_flags(r) == flags_of(text::texts_of(raw@), positive@, windowed),
{
    let n: usize = raw.len();
    let mut args: Vec<String> = Vec::new();
    args.push(raw[0].clone());
    let mut dir: Option<String> = None;
    let mut rounds: u8 = DEFAULT_ENCODE_ROUNDS;
    let mut window: Option<String> = None;
    let ghost all = text::texts_of(raw@);
    assert(text::texts_of(args@) == seq![all[0]]);
    let mut i: usize = 1;
    while i < n
        invariant
            1 <= i <= n == raw@.len(),
            all == text::texts_of(raw@),
            windowed ==> positive@.len() == raw@.len(),
            flags_of(all, positive@, windowed) == flags_from(
                all,
                positive@,
                windowed,
                i as int,
                (Flags {
                    args: text::texts_of(args@),
                    dir: seen_text(dir),
                    rounds,
                    window: seen_text(window),
                }),
            ),
        decreases n - i,
    {
        assert(all[i as int] == raw@[i as int]@);
        if same_text(raw[i].as_str(), "--encode-dir") {
            if i + 1 >= n {
                return Err("--encode-dir requires a folder path".to_owned());
            }
            assert(all[i + 1] == raw@[i + 1]@);
            dir = Some(raw[i + 1].clone());
            i = i + 2;
        } else if same_text(raw[i].as_str(), "--rounds") {
            if i + 1 >= n {
                return Err("--rounds requires a value".to_owned());
            }
            assert(all[i + 1] == raw@[i + 1]@);
            match parse_rounds(raw[i + 1].as_str()) {
                Some(v) => {
                    rounds = v;
                },
                None => {
                    return Err(
                        quoted_message("--rounds must be 1-5, got '", raw[i + 1].as_str()),
                    );
                },
            }
            i = i + 2;
        } else if windowed && same_text(raw[i].as_str(), "--window") {
            if i + 1 >= n {
                return Err("--window requires a value in milliseconds".to_owned());
            }
            assert(all[i + 1] == raw@[i + 1]@);
            if !positive[i + 1] {
                return Err(
                    quoted_message(
                        "--window must be a positive number of milliseconds, got '",
                        raw[i + 1].as_str(),
                    ),
                );
            }
            window = Some(raw[i + 1].clone());
            i = i + 2;
        } else {
            let ghost before = args@;
            args.push(raw[i].clone());
            assert(text::texts_of(args@) == text::texts_of(before).push(all[i as int]));
            i = i + 1;
        }
    }
    Ok((args, dir, rounds, window))
}

/// Pulls `--encode-dir <folder>` and `--rounds N` out of the argument list. Gives
/// the remaining positional arguments, the folder and the rounds.
pub fn split_encoding_flags(raw: &[String]) -> (r: Result<
    (Vec<String>, Option<String>, u8),
    String,
>)
    requires
        raw@.len() > 0,
    ensures
        (match r {
            Ok((args, dir, rounds)) => Ok(
                (Flags {
                    args: text::texts_of(args@),
                    dir: seen_text(dir),
                    rounds,
                    window: None,
                }),
            ),
            Err(message) => Err(message@),
        }) == flags_of(text::texts_of(raw@), Seq::empty(), false),
{
    let none: [bool; 0] = [];
    assert(none@ == Seq::<bool>::empty());
    let r = split(raw, &none, false);
    proof {
        lemma_no_window(
            text::texts_of(raw@),
            Seq::empty(),
            1,
            (Flags {
                args: seq![text::texts_of(raw@)[0]],
                dir: None,
                rounds: DEFAULT_ENCODE_ROUNDS,
                window: None,
            }),
        );
    }
    match r {
        Ok((args, dir, rounds, _)) => Ok((args, dir, rounds)),
        Err(message) => Err(message),
    }
}

proof fn lemma_no_window(raw: Seq<Seq<char>>, positive: Seq<bool>, i: int, so_far: Flags)
    requires
        so_far.window is None,
    ensures
        flags_from(raw, positive, false, i, so_far) matches Ok(f) ==> f.window is None,
    decreases raw.len() - i,
{
    if i >= raw.len() {
    } else if raw[i] == "--encode-dir"@ {
        if i + 1 < raw.len() {
            lemma_no_window(raw, positive, i + 2, Flags { dir: Some(raw[i + 1]), ..so_far });
        }
    } else if raw[i] == "--rounds"@ {
        if i + 1 < raw.len() {
            match rounds_of(raw[i + 1]) {
                None => {},
                Some(rounds) => lemma_no_window(raw, positive, i + 2, Flags { rounds, ..so_far }),
            }
        }
    } else {
        lemma_no_window(
            raw,
            positive,
            i + 1,
            Flags { args: so_far.args.push(raw[i]), ..so_far },
        );
    }
}

/// Pulls `--encode-dir <folder>`, `--rounds N` and `--window MS` out of the
/// argument list. `positive` says which arguments are positive numbers. Gives
/// the remaining positional arguments, the folder, the rounds and the text of
/// the window.
pub fn split_flags(raw: &[String], positive: &[bool]) -> (r: Result<
    (Vec<String>, Option<String>, u8, Option<String>),
    String,
>)
    requires
        raw@.len() > 0,
        positive@.len() == raw@.len(),
    ensures
        seen_flags(r) == flags_of(text::texts_of(raw@), positive@, true),
{
    split(raw, positive, true)
}

/// Whether an argument is a flag.
pub open spec fn is_flag(arg: Seq<char>, windowed: bool) -> bool {
    arg == "--encode-dir"@ || arg == "--rounds"@ || (windowed && arg == "--window"@)
}

/// Without flags, the command line is its positional arguments, with the
/// defaults for everything else.
pub proof fn plain_arguments_pass_through(
    raw: Seq<Seq<char>>,
    positive: Seq<bool>,
    windowed: bool,
)
    requires
        raw.len() > 0,
        forall|i: int| 1 <= i < raw.len() ==> !is_flag(#[trigger] raw[i], windowed),
    ensures
        flags_of(raw, positive, windowed) == Ok::<Flags, Seq<char>>(
            (Flags { args: raw, dir: None, rounds: DEFAULT_ENCODE_ROUNDS, window: None }),
        ),
{
    assert(seq![raw[0]] == raw.subrange(0, 1));
    lemma_plain_from(raw, positive, windowed, 1);
}

proof fn lemma_plain_from(raw: Seq<Seq<char>>, positive: Seq<bool>, windowed: bool, i: int)
    requires
        1 <= i <= raw.len(),
        forall|k: int| 1 <= k < raw.len() ==> !is_flag(#[trigger] raw[k], windowed),
    ensures
        flags_from(
            raw,
            positive,
            windowed,
            i,
            (Flags {
                args: raw.subrange(0, i),
                dir: None,
                rounds: DEFAULT_ENCODE_ROUNDS,
                window: None,
            }),
        ) == Ok::<Flags, Seq<char>>(
            (Flags { args: raw, dir: None, rounds: DEFAULT_ENCODE_ROUNDS, window: None }),
        ),
    decreases raw.len() - i,
{
    if i < raw.len() {
        assert(!is_flag(raw[i], windowed));
        assert(raw.subrange(0, i).push(raw[i]) == raw.subrange(0, i + 1));
        lemma_plain_from(raw, positive, windowed, i + 1);
    } else {
        assert(raw.subrange(0, i) == raw);
    }
}

/// A command line that is accepted never asks for rounds that are not allowed.
pub proof fn accepted_rounds_are_allowed(raw: Seq<Seq<char>>, positive: Seq<bool>, windowed: bool)
    ensures
        flags_of(raw, positive, windowed) matches Ok(f) ==> MIN_ROUNDS <= f.rounds <= MAX_ROUNDS,
{
    lemma_rounds_from(
        raw,
        positive,
        windowed,
        1,
        Flags { args: seq![raw[0]], dir: None, rounds: DEFAULT_ENCODE_ROUNDS, window: None },
    );
}

proof fn lemma_rounds_from(
    raw: Seq<Seq<char>>,
    positive: Seq<bool>,
    windowed: bool,
    i: int,
    so_far: Flags,
)
    requires
        MIN_ROUNDS <= so_far.rounds <= MAX_ROUNDS,
    ensures
        flags_from(raw, positive, windowed, i, so_far) matches Ok(f) ==> MIN_ROUNDS <= f.rounds
            <= MAX_ROUNDS,
    decreases raw.len() - i,
{
    if i < raw.len() {
        if i + 1 < raw.len() {
            lemma_rounds_from(
                raw,
                positive,
                windowed,
                i + 2,
                Flags { dir: Some(raw[i + 1]), ..so_far },
            );
            lemma_rounds_from(
                raw,
                positive,
                windowed,
                i + 2,
                Flags { window: Some(raw[i + 1]), ..so_far },
            );
            if let Some(rounds) = rounds_of(raw[i + 1]) {
                lemma_rounds_from(raw, positive, windowed, i + 2, Flags { rounds, ..so_far });
            }
        }
        lemma_rounds_from(
            raw,
            positive,
            windowed,
            i + 1,
            Flags { args: so_far.args.push(raw[i]), ..so_far },
        );
    }
}

/// What the viewer or the encoder is asked to do. Arguments are given by their
/// positions.
#[derive(Debug, Clone, Copy, PartialEq, Eq, Structural)]
pub enum Launch {
    Live { host: usize, lidar: usize },
    Replay { points: usize, imu: Option<usize> },
    /// Neither mode was asked for.
    Usage,
    /// An encoder without a folder.
    MissingFolder,
    /// Live mode without two addresses.
    MissingAddresses,
    /// Replay mode without a table.
    MissingPoints,
}

/// Live mode with the addresses from `offset` on.
pub open spec fn live_launch(is_ip: Seq<bool>, offset: int) -> Launch {
    if offset + 1 < is_ip.len() && is_ip[offset] && is_ip[offset + 1] {
        Launch::Live { host: offset as usize, lidar: (offset + 1) as usize }
    } else {
        Launch::MissingAddresses
    }
}

/// What positional arguments ask for. `is_ip` says which of them are IPv4
/// addresses. Two addresses alone mean live mode.
pub open spec fn launch_of(args: Seq<Seq<char>>, is_ip: Seq<bool>, has_folder: bool) -> Launch {
    let live = args.len() > 1 && args[1] == "live"@;
    let replay = args.len() > 1 && args[1] == "replay"@;
    let bare = args.len() > 1 && is_ip[1];
    if !live && !replay && !bare {
        Launch::Usage
    } else if !has_folder {
        Launch::MissingFolder
    } else if live {
        live_launch(is_ip, 2)
    } else if !replay {
        live_launch(is_ip, 1)
    } else if args.len() > 2 {
        Launch::Replay {
            points: 2,
            imu: if args.len() > 3 {
                Some(3)
            } else {
                None
            },
        }
    } else {
        Launch::MissingPoints
    }
}

/// What the viewer is asked to do. It needs no folder.
pub fn viewer_launch(args: &[String], is_ip: &[bool]) -> (launch: Launch)
    requires
        is_ip@.len() == args@.len(),
    ensures
        launch == launch_of(text::texts_of(args@), is_ip@, true),
{
    encoder_launch(args, is_ip, true)
}

/// What the encoder is asked to do.
pub fn encoder_launch(args: &[String], is_ip: &[bool], has_folder: bool) -> (launch: Launch)
    requires
        is_ip@.len() == args@.len(),
    ensures
        launch == launch_of(text::texts_of(args@), is_ip@, has_folder),
{
    let n: usize = args.len();
    if n < 2 {
        return Launch::Usage;
    }
    assert(text::texts_of(args@)[1] == args@[1]@);
    let live: bool = same_text(args[1].as_str(), "live");
    let replay: bool = same_text(args[1].as_str(), "replay");
    if !live && !replay && !is_ip[1] {
        return Launch::Usage;
    }
    if !has_folder {
        return Launch::MissingFolder;
    }
    if replay && !live {
        if n > 2 {
            let imu: Option<usize> = if n > 3 {
                Some(3)
            } else {
                None
            };
            return Launch::Replay { points: 2, imu };
        }
        return Launch::MissingPoints;
    }
    let offset: usize = if live {
        2
    } else {
        1
    };
    if n - 1 > offset && is_ip[offset] && is_ip[offset + 1] {
        Launch::Live { host: offset, lidar: offset + 1 }
    } else {
        Launch::MissingAddresses
    }
}

/// What the reader is asked to do. Arguments are given by their positions.
#[derive(Debug, Clone, Copy, PartialEq, Eq, Structural)]
pub enum ReaderCommand {
    Usage,
    Discover { host: Option<usize> },
    Stream { host: usize, lidar: usize },
    Record { host: usize, lidar: usize, dir: usize },
    /// `stream` with too few arguments; those from the second on are addresses.
    StreamIncomplete { addresses: usize },
    /// `record` with too few arguments; those from the second on are addresses.
    RecordIncomplete { addresses: usize },
}

/// What positional arguments ask the reader for.
pub open spec fn reader_command_of(args: Seq<Seq<char>>) -> ReaderCommand {
    if args.len() < 2 {
        ReaderCommand::Usage
    } else if args[1] == "discover"@ {
        ReaderCommand::Discover {
            host: if args.len() > 2 {
                Some(2)
            } else {
                None
            },
        }
    } else if args[1] == "stream"@ {
        if args.len() > 3 {
            ReaderCommand::Stream { host: 2, lidar: 3 }
        } else {
            ReaderCommand::StreamIncomplete { addresses: (args.len() - 2) as usize }
        }
    } else if args[1] == "record"@ {
        if args.len() > 4 {
            ReaderCommand::Record { host: 2, lidar: 3, dir: 4 }
        } else {
            ReaderCommand::RecordIncomplete { addresses: (args.len() - 2) as usize }
        }
    } else {
        ReaderCommand::Usage
    }
}

/// What the reader is asked to do.
pub fn reader_command(args: &[String]) -> (command: ReaderCommand)
    ensures
        command == reader_command_of(text::texts_of(args@)),
{
    let n: usize = args.len();
    if n < 2 {
        return ReaderCommand::Usage;
    }
    assert(text::texts_of(args@)[1] == args@[1]@);
    if same_text(args[1].as_str(), "discover") {
        let host: Option<usize> = if n > 2 {
            Some(2)
        } else {
            None
        };
        return ReaderCommand::Discover { host };
    }
    if same_text(args[1].as_str(), "stream") {
        if n > 3 {
            return ReaderCommand::Stream { host: 2, lidar: 3 };
        }
        return ReaderCommand::StreamIncomplete { addresses: n - 2 };
    }
    if same_text(args[1].as_str(), "record") {
        if n > 4 {
            return ReaderCommand::Record { host: 2, lidar: 3, dir: 4 };
        }
        return ReaderCommand::RecordIncomplete { addresses: n - 2 };
    }
    ReaderCommand::Usage
}

/// An IPv4 address in dotted decimal.
pub open spec fn ip_text(ip: Ipv4Addr) -> Seq<char> {
    text::decimal(ip.a as nat) + "."@ + text::decimal(ip.b as nat) + "."@ + text::decimal(
        ip.c as nat,
    ) + "."@ + text::decimal(ip.d as nat)
}

/// The advice for a socket that cannot be bound.
pub open spec fn bind_advice(resource: Seq<char>, ip: Ipv4Addr) -> Seq<char> {
    "failed to bind "@ + resource + " socket to "@ + ip_text(ip)
        + ". Make sure this is the IP address of a local network interface, not the LiDAR's IP address."@
}

/// The advice for a socket that cannot be bound.
pub fn bind_error_context(resource: &str, ip: Ipv4Addr) -> (s: String)
    ensures
        s@ == bind_advice(resource@, ip),
{
    let mut address = String::new();
    push_decimal(&mut address, ip.a as u64);
    address.append(".");
    push_decimal(&mut address, ip.b as u64);
    address.append(".");
    push_decimal(&mut address, ip.c as u64);
    address.append(".");
    push_decimal(&mut address, ip.d as u64);
    assert(address@ == ip_text(ip));
    let mut s = "failed to bind ".to_owned();
    s.append(resource);
    s.append(" socket to ");
    s.append(address.as_str());
    s.append(
        ". Make sure this is the IP address of a local network interface, not the LiDAR's IP address.",
    );
    s
}

/// Why an unspecified host address will not do; nothing for any other.
pub open spec fn host_message(subcommand: Seq<char>, host_ip: Ipv4Addr) -> Option<Seq<char>> {
    if host_ip == net::ipv4(0, 0, 0, 0) {
        Some(
            subcommand
                + " requires a specific host_ip (0.0.0.0 is not valid here); use the IP of the interface connected to the LiDAR"@,
        )
    } else {
        None
    }
}

/// Says why an unspecified host address will not do; nothing for any other.
pub fn require_specific_host_ip(subcommand: &str, host_ip: Ipv4Addr) -> (r: Option<String>)
    ensures
        (match r {
            Some(message) => Some(message@),
            None => None,
        }) == (if host_ip == net::ipv4(0, 0, 0, 0) {
            Some(
                subcommand@
                    + " requires a specific host_ip (0.0.0.0 is not valid here); use the IP of the interface connected to the LiDAR"@,
            )
        } else {
            None
        }),
        seen_text(r) == host_message(subcommand@, host_ip),
{
    if !host_ip.is_unspecified() {
        return None;
    }
    let mut s = subcommand.to_owned();
    s.append(
        " requires a specific host_ip (0.0.0.0 is not valid here); use the IP of the interface connected to the LiDAR",
    );
    Some(s)
}

/// The data format with the given name.
pub open spec fn data_type_named(name: Seq<char>) -> Option<DataType> {
    if name == "imu"@ {
        Some(DataType::Imu)
    } else if name == "cartesian32"@ || name == "point_cloud_cartesian32"@ {
        Some(DataType::PointCloudCartesian32)
    } else if name == "cartesian16"@ || name == "point_cloud_cartesian16"@ {
        Some(DataType::PointCloudCartesian16)
    } else if name == "spherical"@ || name == "point_cloud_spherical"@ {
        Some(DataType::PointCloudSpherical)
    } else {
        None
    }
}

/// The data format with the given name, or the message for an unknown one.
pub open spec fn data_type_result(name: Seq<char>) -> Result<DataType, Seq<char>> {
    match data_type_named(name) {
        Some(t) => Ok(t),
        None => Err("unknown data_type: "@ + name),
    }
}

/// The data format with the given name, or the message for an unknown one.
pub fn parse_data_type(name: &str) -> (r: Result<DataType, String>)
    ensures
        (match r {
            Ok(t) => Ok(t),
            Err(message) => Err(message@),
        }) == (match data_type_named(name@) {
            Some(t) => Ok(t),
            None => Err("unknown data_type: "@ + name@),
        }),
        (match r {
            Ok(t) => Ok(t),
            Err(message) => Err(message@),
        }) == data_type_result(name@),
{
    if same_text(name, "imu") {
        Ok(DataType::Imu)
    } else if same_text(name, "cartesian32") || same_text(name, "point_cloud_cartesian32") {
        Ok(DataType::PointCloudCartesian32)
    } else if same_text(name, "cartesian16") || same_text(name, "point_cloud_cartesian16") {
        Ok(DataType::PointCloudCartesian16)
    } else if same_text(name, "spherical") || same_text(name, "point_cloud_spherical") {
        Ok(DataType::PointCloudSpherical)
    } else {
        let mut message = "unknown data_type: ".to_owned();
        message.append(name);
        Err(message)
    }
}

} // verus!
