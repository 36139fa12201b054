//! The CSV tables that data streams are recorded in.
//!
//! A recording is a folder with two tables, `points.csv` and `imu.csv`, each
//! with a header line and one row per sample. The rows are made and read here;
//! numbers that are not integers go in and out as text.

use vstd::prelude::*;

use crate::error::{self, Failure, LidarError};
use crate::packet::DataFrameHeader;
use crate::points::Tag;
use crate::text::{
    self, chars_of, decimal_text, join, parse_number, push_decimal, split_fields, text_of, trim,
};

verus! {

pub const POINTS_FILE: &'static str = "points.csv";

pub const IMU_FILE: &'static str = "imu.csv";

pub const POINTS_HEADER: &'static str = "timestamp_ns,udp_cnt,frame_cnt,x_m,y_m,z_m,reflectivity,tag,detection_confidence,particle_confidence,adhesion_confidence";

pub const IMU_HEADER: &'static str = "timestamp_ns,gyro_x,gyro_y,gyro_z,acc_x,acc_y,acc_z";

/// The fields of one point's row.
pub open spec fn point_fields(
    header: DataFrameHeader,
    x: Seq<char>,
    y: Seq<char>,
    z: Seq<char>,
    reflectivity: u8,
    tag: Tag,
) -> Seq<Seq<char>> {
    seq![
        text::decimal(header.timestamp as nat),
        text::decimal(header.udp_cnt as nat),
        text::decimal(header.frame_cnt as nat),
        x,
        y,
        z,
        text::decimal(reflectivity as nat),
        text::decimal(tag.0 as nat),
        text::decimal((tag.0 as nat / 16) % 4),
        text::decimal((tag.0 as nat / 4) % 4),
        text::decimal(tag.0 as nat % 4),
    ]
}

/// The row of one point, with the packet's timestamp and counters. The
/// coordinates are given as text.
pub fn point_row(
    header: &DataFrameHeader,
    x: &str,
    y: &str,
    z: &str,
    reflectivity: u8,
    tag: Tag,
) -> (row: String)
    ensures
        row@ == text::joined(point_fields(*header, x@, y@, z@, reflectivity, tag)),
{
    let mut parts: Vec<String> = Vec::new();
    parts.push(decimal_text(header.timestamp));
    parts.push(decimal_text(header.udp_cnt as u64));
    parts.push(decimal_text(header.frame_cnt as u64));
    parts.push(x.to_owned());
    parts.push(y.to_owned());
    parts.push(z.to_owned());
    parts.push(decimal_text(reflectivity as u64));
    parts.push(decimal_text(tag.raw() as u64));
    parts.push(decimal_text(tag.detection_confidence() as u64));
    parts.push(decimal_text(tag.particle_confidence() as u64));
    parts.push(decimal_text(tag.adhesion_confidence() as u64));
    assert(text::texts_of(parts@) == point_fields(*header, x@, y@, z@, reflectivity, tag));
    join(parts.as_slice())
}

/// The fields of one IMU sample's row: the timestamp and the six components.
pub open spec fn imu_fields(timestamp: u64, components: Seq<Seq<char>>) -> Seq<Seq<char>> {
    seq![text::decimal(timestamp as nat)] + components
}

/// The row of one IMU sample. The components are given as text: gyro x, y, z,
/// then acceleration x, y, z.
pub fn imu_row(timestamp: u64, components: &[String]) -> (row: String)
    ensures
        row@ == text::joined(imu_fields(timestamp, text::texts_of(components@))),
{
    let mut parts: Vec<String> = Vec::new();
    parts.push(decimal_text(timestamp));
    let n: usize = components.len();
    let ghost all = imu_fields(timestamp, text::texts_of(components@));
    assert(text::texts_of(parts@) == all.subrange(0, 1));
    let mut i: usize = 0;
    while i < n
        invariant
            i <= n == components@.len(),
            all == imu_fields(timestamp, text::texts_of(components@)),
            text::texts_of(parts@) == all.subrange(0, i + 1),
        decreases n - i,
    {
        let ghost before = parts@;
        parts.push(components[i].clone());
        assert(text::texts_of(parts@) == text::texts_of(before).push(components@[i as int]@));
        i = i + 1;
    }
    assert(all.subrange(0, n + 1) == all);
    join(parts.as_slice())
}

/// The two tables of a recording.
#[derive(Debug, Clone, Copy, PartialEq, Eq, Structural)]
pub enum Table {
    Points,
    Imu,
}

impl Table {
    /// How many columns a row must have at least.
    pub open spec fn columns(self) -> nat {
        match self {
            Table::Points => 6,
            Table::Imu => 7,
        }
    }

    /// The message for a row with too few columns.
    pub open spec fn columns_message(self) -> Seq<char> {
        match self {
            Table::Points => "expected at least 6 columns"@,
            Table::Imu => "expected 7 columns"@,
        }
    }

    /// The columns that are read as numbers, as the first one and the one
    /// behind the last.
    pub open spec fn number_columns(self) -> (int, int) {
        match self {
            Table::Points => (3, 6),
            Table::Imu => (1, 7),
        }
    }

    /// The name of the `i`-th number column.
    pub open spec fn number_name(self, i: int) -> Seq<char> {
        match self {
            Table::Points => if i == 0 {
                "x_m"@
            } else if i == 1 {
                "y_m"@
            } else {
                "z_m"@
            },
            Table::Imu => if i == 0 {
                "gyro_x"@
            } else if i == 1 {
                "gyro_y"@
            } else if i == 2 {
                "gyro_z"@
            } else if i == 3 {
                "acc_x"@
            } else if i == 4 {
                "acc_y"@
            } else {
                "acc_z"@
            },
        }
    }
}

/// What one line of a table holds.
#[verifier::ext_equal]
pub enum Content {
    /// A blank or a header line.
    Nothing,
    /// A sample: its timestamp and the texts of its number columns.
    Sample(u64, Seq<Seq<char>>),
}

/// The error of a line.
pub open spec fn csv_failure(line: nat, message: Seq<char>) -> Failure {
    Failure::ParameterParse("csv line "@ + text::decimal(line) + ": "@ + message)
}

/// The error of a number column.
pub open spec fn number_failure(table: Table, line: nat, column: int) -> Failure {
    csv_failure(line, table.number_name(column) + " is not a number"@)
}

/// Whether the character is this lower-case one, or its upper-case form.
pub open spec fn folds_to(c: char, lower: char) -> bool {
    c == lower || ('A' <= c <= 'Z' && c as u32 + 32 == lower as u32)
}

/// Whether the field is the name of the first column, in any case.
pub open spec fn is_first_column_name(field: Seq<char>) -> bool {
    &&& field.len() == "timestamp_ns"@.len()
    &&& forall|i: int| 0 <= i < field.len() ==> folds_to(#[trigger] field[i], "timestamp_ns"@[i])
}

/// What the line with the given number holds. The first line that is not blank
/// is a header, of any wording and width, where its first field is no number;
/// further down only the usual header is passed over.
pub open spec fn line_content(table: Table, number: nat, first: bool, line: Seq<char>) -> Result<
    Content,
    Failure,
> {
    let row = text::trimmed(line);
    let f = text::trimmed_fields(row);
    if row.len() == 0 {
        Ok(Content::Nothing)
    } else if first && text::number_of(f[0], u64::MAX as nat) is None {
        Ok(Content::Nothing)
    } else if f.len() < table.columns() {
        Err(csv_failure(number, table.columns_message()))
    } else if is_first_column_name(f[0]) {
        Ok(Content::Nothing)
    } else {
        match text::number_of(f[0], u64::MAX as nat) {
            None => Err(csv_failure(number, "timestamp_ns is not a u64"@)),
            Some(ts) => Ok(
                Content::Sample(
                    ts as u64,
                    f.subrange(table.number_columns().0, table.number_columns().1),
                ),
            ),
        }
    }
}

/// One row of a table: its timestamp and the texts of its number columns, that
/// is x, y, z of a point or gyro and acceleration of an IMU sample.
#[derive(Debug, Clone, PartialEq)]
pub struct Row {
    pub ts_ns: u64,
    pub numbers: Vec<String>,
}

/// A parsed line, seen through its contents.
pub open spec fn seen_line(r: Result<Option<Row>, LidarError>) -> Result<Content, Failure> {
    match r {
        Ok(Some(row)) => Ok(Content::Sample(row.ts_ns, text::texts_of(row.numbers@))),
        Ok(None) => Ok(Content::Nothing),
        Err(e) => Err(e@),
    }
}

/// The error for a line of a table.
pub fn csv_err(line: usize, message: &str) -> (e: LidarError)
    ensures
        e@ == csv_failure(line as nat, message@),
{
    let mut s = "csv line ".to_owned();
    push_decimal(&mut s, line as u64);
    s.append(": ");
    s.append(message);
    LidarError::ParameterParse(s)
}

/// The error for a number column that holds no number.
pub fn number_err(table: Table, line: usize, column: usize) -> (e: LidarError)
    ensures
        e@ == csv_failure(
            line as nat,
            table.number_name(column as int) + " is not a number"@,
        ),
        e@ == number_failure(table, line as nat, column as int),
{
    let name: &'static str = match table {
        Table::Points => match column {
            0 => "x_m",
            1 => "y_m",
            _ => "z_m",
        },
        Table::Imu => match column {
            0 => "gyro_x",
            1 => "gyro_y",
            2 => "gyro_z",
            3 => "acc_x",
            4 => "acc_y",
            _ => "acc_z",
        },
    };
    let mut message = name.to_owned();
    message.append(" is not a number");
    csv_err(line, message.as_str())
}

/// Whether the field is the name of the first column, in any case.
pub fn ts_ns_check_is_header(first_field: &[char]) -> (r: bool)
    ensures
        r == is_first_column_name(first_field@),
{
    let name = chars_of("timestamp_ns");
    let n: usize = name.len();
    if first_field.len() != n {
        return false;
    }
    let mut i: usize = 0;
    while i < n
        invariant
            i <= n == name@.len() == first_field@.len(),
            name@ == "timestamp_ns"@,
            forall|k: int|
                0 <= k < i ==> folds_to(#[trigger] first_field@[k], "timestamp_ns"@[k]),
        decreases n - i,
    {
        let c: char = first_field[i];
        let lower: char = name[i];
        if c != lower && !('A' <= c && c <= 'Z' && c as u32 + 32 == lower as u32) {
            return false;
        }
        i = i + 1;
    }
    true
}

/// Whether a line that was not blank has been read once `line` has been.
pub open spec fn started_after(started: bool, line: Seq<char>) -> bool {
    started || text::trimmed(line).len() > 0
}

/// Reads a table line by line.
#[derive(Debug)]
pub struct TableReader {
    table: Table,
    started: bool,
}

impl TableReader {
    /// The table that is read.
    pub closed spec fn table(self) -> Table {
        self.table
    }

    /// Whether a line that was not blank has been read.
    pub closed spec fn started(self) -> bool {
        self.started
    }

    pub fn new(table: Table) -> (reader: Self)
        ensures
            reader.table() == table,
            !reader.started(),
    {
        TableReader { table, started: false }
    }

    /// Reads the next line, given its number in the file from one on.
    pub fn read_line(&mut self, number: usize, line: &str) -> (r: Result<Option<Row>, LidarError>)
        ensures
            seen_line(r) == line_content(
                old(self).table(),
                number as nat,
                !old(self).started(),
                line@,
            ),
            final(self).table() == old(self).table(),
            final(self).started() == (old(self).started() || text::trimmed(line@).len() > 0),
            final(self).started() == started_after(old(self).started(), line@),
    {
        let chars = chars_of(line);
        let row = trim(chars.as_slice());
        if row.len() == 0 {
            return Ok(None);
        }
        let first: bool = !self.started;
        self.started = true;
        let f = split_fields(row);
        let ghost fields = text::trimmed_fields(row@);
        assert(text::contents(f@) == fields);
        assert(f@[0]@ == fields[0]);
        let ts: Option<u64> = parse_number(f[0].as_slice(), u64::MAX);
        if first && ts.is_none() {
            return Ok(None);
        }
        let (columns, message): (usize, &'static str) = match self.table {
            Table::Points => (6, "expected at least 6 columns"),
            Table::Imu => (7, "expected 7 columns"),
        };
        if f.len() < columns {
            return Err(csv_err(number, message));
        }
        if ts_ns_check_is_header(f[0].as_slice()) {
            return Ok(None);
        }
        let ts_ns: u64 = match ts {
            Some(ts) => ts,
            None => return Err(csv_err(number, "timestamp_ns is not a u64")),
        };
        let (from, to): (usize, usize) = match self.table {
            Table::Points => (3, 6),
            Table::Imu => (1, 7),
        };
        let mut numbers: Vec<String> = Vec::new();
        let mut i: usize = from;
        while i < to
            invariant
                from <= i <= to <= f@.len(),
                text::contents(f@) == fields,
                text::texts_of(numbers@) == fields.subrange(from as int, i as int),
            decreases to - i,
        {
            let ghost before = numbers@;
            numbers.push(text_of(f[i].as_slice()));
            assert(f@[i as int]@ == fields[i as int]);
            assert(text::texts_of(numbers@) == text::texts_of(before).push(fields[i as int]));
            i = i + 1;
        }
        Ok(Some(Row { ts_ns, numbers }))
    }
}

/// Reading back a row of plain fields behind a timestamp.
proof fn lemma_row(table: Table, number: nat, first: bool, ts: u64, f: Seq<Seq<char>>)
    requires
        f.len() >= table.columns(),
        f[0] == text::decimal(ts as nat),
        forall|i: int| 0 <= i < f.len() ==> text::plain_field(#[trigger] f[i]),
    ensures
        line_content(table, number, first, text::joined(f)) == Ok::<Content, Failure>(
            Content::Sample(
                ts,
                f.subrange(table.number_columns().0, table.number_columns().1),
            ),
        ),
{
    text::decimal_round_trip(ts as nat);
    text::lemma_joined_is_trimmed(f);
    text::fields_round_trip(f);
    assert(!is_first_column_name(f[0])) by {
        reveal_strlit("timestamp_ns");
        if f[0].len() == "timestamp_ns"@.len() {
            assert('0' <= f[0][0] <= '9');
            assert(!folds_to(f[0][0], "timestamp_ns"@[0]));
        }
    }
}

/// A recorded point is read back with its timestamp and coordinates, wherever
/// its row stands in the table.
pub proof fn point_row_round_trip(
    header: DataFrameHeader,
    x: Seq<char>,
    y: Seq<char>,
    z: Seq<char>,
    reflectivity: u8,
    tag: Tag,
    number: nat,
    first: bool,
)
    requires
        text::plain_field(x),
        text::plain_field(y),
        text::plain_field(z),
    ensures
        line_content(
            Table::Points,
            number,
            first,
            text::joined(point_fields(header, x, y, z, reflectivity, tag)),
        ) == Ok::<Content, Failure>(Content::Sample(header.timestamp, seq![x, y, z])),
{
    let f = point_fields(header, x, y, z, reflectivity, tag);
    text::decimal_round_trip(header.timestamp as nat);
    text::decimal_round_trip(header.udp_cnt as nat);
    text::decimal_round_trip(header.frame_cnt as nat);
    text::decimal_round_trip(reflectivity as nat);
    text::decimal_round_trip(tag.0 as nat);
    text::decimal_round_trip((tag.0 as nat / 16) % 4);
    text::decimal_round_trip((tag.0 as nat / 4) % 4);
    text::decimal_round_trip(tag.0 as nat % 4);
    lemma_row(Table::Points, number, first, header.timestamp, f);
    assert(f.subrange(3, 6) == seq![x, y, z]);
}

/// A recorded IMU sample is read back with its timestamp and components,
/// wherever its row stands in the table.
pub proof fn imu_row_round_trip(
    timestamp: u64,
    components: Seq<Seq<char>>,
    number: nat,
    first: bool,
)
    requires
        components.len() == 6,
        forall|i: int| 0 <= i < 6 ==> text::plain_field(#[trigger] components[i]),
    ensures
        line_content(
            Table::Imu,
            number,
            first,
            text::joined(imu_fields(timestamp, components)),
        ) == Ok::<Content, Failure>(Content::Sample(timestamp, components)),
{
    let f = imu_fields(timestamp, components);
    text::decimal_round_trip(timestamp as nat);
    assert forall|i: int| 0 <= i < f.len() implies text::plain_field(#[trigger] f[i]) by {
        if i > 0 {
            assert(f[i] == components[i - 1]);
        }
    }
    lemma_row(Table::Imu, number, first, timestamp, f);
    assert(f.subrange(1, 7) == components);
}

} // verus!
