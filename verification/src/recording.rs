//! Decisions of the loops that receive, record and encode.

use vstd::prelude::*;

use crate::encode::{self, token_count};
use crate::error::LidarError;
use crate::packet::{DataFrameHeader, DataPacket, DataPayload};
use crate::points::{ImuSample, Point};
use crate::text::{self, push_decimal, push_padded_decimal};

verus! {

/// What the outcome of one receive means to a loop.
#[derive(Debug, Clone, PartialEq)]
pub enum Received {
    Points { header: DataFrameHeader, points: Vec<Point> },
    Imu { header: DataFrameHeader, sample: ImuSample },
    /// Nothing arrived, or a packet of the other kind.
    Nothing,
    Failed(LidarError),
}

/// What an outcome on the point-cloud socket means.
pub open spec fn points_received(result: Result<DataPacket, LidarError>) -> Received {
    match result {
        Ok(packet) => match packet.payload {
            DataPayload::Points(points) => Received::Points { header: packet.header, points },
            DataPayload::Imu(_) => Received::Nothing,
        },
        Err(LidarError::NoResponse { addr }) => Received::Nothing,
        Err(e) => Received::Failed(e),
    }
}

/// What an outcome on the IMU socket means.
pub open spec fn imu_received(result: Result<DataPacket, LidarError>) -> Received {
    match result {
        Ok(packet) => match packet.payload {
            DataPayload::Imu(sample) => Received::Imu { header: packet.header, sample },
            DataPayload::Points(_) => Received::Nothing,
        },
        Err(LidarError::NoResponse { addr }) => Received::Nothing,
        Err(e) => Received::Failed(e),
    }
}

/// What an outcome on the point-cloud socket means.
pub fn take_points(result: Result<DataPacket, LidarError>) -> (r: Received)
    ensures
        r == points_received(result),
{
    match result {
        Ok(packet) => match packet.payload {
            DataPayload::Points(points) => Received::Points { header: packet.header, points },
            DataPayload::Imu(_) => Received::Nothing,
        },
        Err(LidarError::NoResponse { addr: _ }) => Received::Nothing,
        Err(e) => Received::Failed(e),
    }
}

/// What an outcome on the IMU socket means.
pub fn take_imu(result: Result<DataPacket, LidarError>) -> (r: Received)
    ensures
        r == imu_received(result),
{
    match result {
        Ok(packet) => match packet.payload {
            DataPayload::Imu(sample) => Received::Imu { header: packet.header, sample },
            DataPayload::Points(_) => Received::Nothing,
        },
        Err(LidarError::NoResponse { addr: _ }) => Received::Nothing,
        Err(e) => Received::Failed(e),
    }
}

/// What a recording loop waits for.
#[derive(Debug, PartialEq)]
pub enum RecordEvent {
    /// The user asks to stop.
    Interrupted,
    /// A receive on the point-cloud socket ended.
    PointSocket(Result<DataPacket, LidarError>),
    /// A receive on the IMU socket ended.
    ImuSocket(Result<DataPacket, LidarError>),
    /// It is time to flush.
    FlushDue,
    /// Writing or flushing failed.
    OutputFailed,
}

/// What a recording loop does next.
#[derive(Debug, Clone, PartialEq)]
pub enum RecordAction {
    /// Flush for the last time and end.
    Stop,
    WritePoints { header: DataFrameHeader, points: Vec<Point> },
    WriteImu { header: DataFrameHeader, sample: ImuSample },
    /// Report an error of the point-cloud socket and go on.
    ReportPoints(LidarError),
    /// Report an error of the IMU socket and go on.
    ReportImu(LidarError),
    /// Flush and show the progress.
    Flush,
    Wait,
}

/// What a recording loop does next.
pub open spec fn action_for(event: RecordEvent) -> RecordAction {
    match event {
        RecordEvent::Interrupted => RecordAction::Stop,
        RecordEvent::OutputFailed => RecordAction::Stop,
        RecordEvent::FlushDue => RecordAction::Flush,
        RecordEvent::PointSocket(result) => match points_received(result) {
            Received::Points { header, points } => RecordAction::WritePoints { header, points },
            Received::Failed(e) => RecordAction::ReportPoints(e),
            _ => RecordAction::Wait,
        },
        RecordEvent::ImuSocket(result) => match imu_received(result) {
            Received::Imu { header, sample } => RecordAction::WriteImu { header, sample },
            Received::Failed(e) => RecordAction::ReportImu(e),
            _ => RecordAction::Wait,
        },
    }
}

/// What a recording loop does next.
pub fn record_action(event: RecordEvent) -> (action: RecordAction)
    ensures
        action == action_for(event),
{
    match event {
        RecordEvent::Interrupted => RecordAction::Stop,
        RecordEvent::OutputFailed => RecordAction::Stop,
        RecordEvent::FlushDue => RecordAction::Flush,
        RecordEvent::PointSocket(result) => match take_points(result) {
            Received::Points { header, points } => RecordAction::WritePoints { header, points },
            Received::Failed(e) => RecordAction::ReportPoints(e),
            _ => RecordAction::Wait,
        },
        RecordEvent::ImuSocket(result) => match take_imu(result) {
            Received::Imu { header, sample } => RecordAction::WriteImu { header, sample },
            Received::Failed(e) => RecordAction::ReportImu(e),
            _ => RecordAction::Wait,
        },
    }
}

/// A sum that wraps around at 64 bits.
pub open spec fn wrapping_sum(a: u64, b: nat) -> u64 {
    ((a + b) % 0x1_0000_0000_0000_0000) as u64
}

/// Counts what a recording holds.
#[derive(Debug)]
pub struct RecordLog {
    points: u64,
    imu: u64,
}

impl View for RecordLog {
    type V = (u64, u64);

    /// Points and IMU samples written.
    closed spec fn view(&self) -> (u64, u64) {
        (self.points, self.imu)
    }
}

/// The progress line of a recording.
pub open spec fn recorded_text(points: u64, imu: u64) -> Seq<char> {
    "recorded: points="@ + text::decimal(points as nat) + " imu="@ + text::decimal(imu as nat)
}

impl RecordLog {
    pub fn new() -> (log: Self)
        ensures
            log@ == (0u64, 0u64),
    {
        RecordLog { points: 0, imu: 0 }
    }

    /// Counts the points of a packet that was written.
    pub fn wrote_points(&mut self, n: usize)
        ensures
            final(self)@ == (wrapping_sum(old(self)@.0, n as nat), old(self)@.1),
    {
        self.points = self.points.wrapping_add(n as u64);
    }

    /// Counts an IMU sample that was written.
    pub fn wrote_imu(&mut self)
        ensures
            final(self)@ == (old(self)@.0, wrapping_sum(old(self)@.1, 1)),
    {
        self.imu = self.imu.wrapping_add(1);
    }

    /// The progress line.
    pub fn progress(&self) -> (s: String)
        ensures
            s@ == "recorded: points="@ + text::decimal(self@.0 as nat) + " imu="@ + text::decimal(
                self@.1 as nat,
            ),
            s@ == recorded_text(self@.0, self@.1),
    {
        let mut s = "recorded: points=".to_owned();
        push_decimal(&mut s, self.points);
        s.append(" imu=");
        push_decimal(&mut s, self.imu);
        s
    }
}

/// After how many encoded frames the output is flushed.
pub const FLUSH_INTERVAL: u64 = 100;

/// Counts the frames of a headless encoding run.
#[derive(Debug)]
pub struct FrameCounter {
    frames: u64,
}

impl View for FrameCounter {
    type V = u64;

    closed spec fn view(&self) -> u64 {
        self.frames
    }
}

/// Whether the output is flushed after the frame with this number.
pub open spec fn flush_due(frames: u64) -> bool {
    frames % FLUSH_INTERVAL == 0
}

/// The progress line of an encoding run.
pub open spec fn encoded_text(frames: u64, cloud_len: nat) -> Seq<char> {
    text::decimal(frames as nat) + " frames encoded | cloud "@ + text::decimal(cloud_len)
        + " points"@
}

impl FrameCounter {
    pub fn new() -> (counter: Self)
        ensures
            counter@ == 0,
    {
        FrameCounter { frames: 0 }
    }

    pub fn frames(&self) -> (n: u64)
        ensures
            n == self@,
    {
        self.frames
    }

    /// Counts a frame that was written, and says whether to flush now so that
    /// long runs survive interruptions.
    pub fn frame_written(&mut self) -> (flush: bool)
        ensures
            final(self)@ == wrapping_sum(old(self)@, 1),
            flush == (final(self)@ % FLUSH_INTERVAL == 0),
            flush == flush_due(final(self)@),
    {
        self.frames = self.frames.wrapping_add(1);
        self.frames % FLUSH_INTERVAL == 0
    }

    /// The progress line.
    pub fn progress(&self, cloud_len: usize) -> (s: String)
        ensures
            s@ == text::decimal(self@ as nat) + " frames encoded | cloud "@ + text::decimal(
                cloud_len as nat,
            ) + " points"@,
            s@ == encoded_text(self@, cloud_len as nat),
    {
        let mut s = String::new();
        push_decimal(&mut s, self.frames);
        s.append(" frames encoded | cloud ");
        push_decimal(&mut s, cloud_len as u64);
        s.append(" points");
        s
    }
}

/// The name of the `index`-th encoding file.
pub open spec fn file_name(index: u32) -> Seq<char> {
    "encoding_"@ + text::padded_decimal(index as nat, 6) + ".csv"@
}

/// The name of the `index`-th encoding file.
pub fn encoding_file_name(index: u32) -> (s: String)
    ensures
        s@ == file_name(index),
{
    let mut s = "encoding_".to_owned();
    push_padded_decimal(&mut s, index as u64, 6);
    s.append(".csv");
    s
}

proof fn lemma_leading_zeros(k: nat, d: Seq<char>)
    ensures
        text::digits_value(Seq::new(k, |i: int| '0') + d) == text::digits_value(d),
    decreases k + d.len(),
{
    let zeros = Seq::new(k, |i: int| '0');
    let s = zeros + d;
    if d.len() > 0 {
        lemma_leading_zeros(k, d.drop_last());
        assert(s.drop_last() == zeros + d.drop_last());
    } else if k > 0 {
        let fewer = Seq::new((k - 1) as nat, |i: int| '0');
        lemma_leading_zeros((k - 1) as nat, d);
        assert(s.drop_last() == fewer + d);
        assert(s.last() == '0');
        assert(d == Seq::<char>::empty());
    } else {
        assert(s == d);
    }
}

proof fn lemma_padded_value(n: nat, width: nat)
    ensures
        text::digits_value(text::padded_decimal(n, width)) == n,
{
    text::decimal_round_trip(n);
    let d = text::decimal(n);
    if d.len() < width {
        lemma_leading_zeros((width - d.len()) as nat, d);
    }
}

/// Recordings with different numbers never share a file.
pub proof fn file_names_differ(i: u32, j: u32)
    requires
        i != j,
    ensures
        file_name(i) != file_name(j),
{
    lemma_padded_value(i as nat, 6);
    lemma_padded_value(j as nat, 6);
    let a = text::padded_decimal(i as nat, 6);
    let b = text::padded_decimal(j as nat, 6);
    let lead = "encoding_"@;
    let tail = ".csv"@;
    if file_name(i) == file_name(j) {
        assert(file_name(i).len() == lead.len() + a.len() + tail.len());
        assert(file_name(j).len() == lead.len() + b.len() + tail.len());
        assert(file_name(i).subrange(lead.len() as int, (lead.len() + a.len()) as int) == a);
        assert(file_name(j).subrange(lead.len() as int, (lead.len() + b.len()) as int) == b);
    }
}

/// What pressing the save key asks for.
#[derive(Debug, Clone, Copy, PartialEq, Eq, Structural)]
pub enum Toggle {
    /// Saving is off for good: there is no folder.
    Disabled,
    /// Create the file with this number and report with `started`.
    Create(u32),
    /// Close the file; this many frames were written to it.
    Close(u32),
}

/// State of the frame-encoding feature.
pub struct Saving {
    pub rounds: u8,
    pub enabled: bool,
    pub recording: bool,
    pub next_index: u32,
    pub frames: u32,
}

/// Runtime state of the frame-encoding feature. Saving needs a folder.
#[derive(Debug)]
pub struct Encoder {
    rounds: u8,
    enabled: bool,
    recording: bool,
    next_index: u32,
    frames: u32,
}

impl View for Encoder {
    type V = Saving;

    closed spec fn view(&self) -> Saving {
        Saving {
            rounds: self.rounds,
            enabled: self.enabled,
            recording: self.recording,
            next_index: self.next_index,
            frames: self.frames,
        }
    }
}

/// The number behind `n`, wrapping around.
pub open spec fn succ(n: u32) -> u32 {
    if n == u32::MAX {
        0
    } else {
        (n + 1) as u32
    }
}

impl Saving {
    /// The state at first: no recording, and the first file has number one.
    pub open spec fn fresh(has_folder: bool, rounds: u8) -> Saving {
        Saving { rounds, enabled: has_folder, recording: false, next_index: 1, frames: 0 }
    }

    /// What pressing the save key asks for, and the state after it.
    pub open spec fn toggled(self) -> (Toggle, Saving) {
        let toggle = if self.recording {
            Toggle::Close(self.frames)
        } else if self.enabled {
            Toggle::Create(self.next_index)
        } else {
            Toggle::Disabled
        };
        (toggle, Saving { recording: false, ..self })
    }

    /// The state once the file is open.
    pub open spec fn begun(self) -> Saving {
        Saving { recording: true, next_index: succ(self.next_index), frames: 0, ..self }
    }

    /// The number of frames in the file if it is to be closed after a frame, and
    /// the state then.
    pub open spec fn after_frame(self, written: bool) -> (Option<u32>, Saving) {
        if written {
            (None, Saving { frames: succ(self.frames), ..self })
        } else {
            (Some(self.frames), Saving { recording: false, ..self })
        }
    }
}

impl Encoder {
    /// No recording, and the first file has number one.
    pub fn new(has_folder: bool, rounds: u8) -> (encoder: Self)
        ensures
            encoder@ == (Saving {
                rounds,
                enabled: has_folder,
                recording: false,
                next_index: 1,
                frames: 0,
            }),
            encoder@ == Saving::fresh(has_folder, rounds),
    {
        Encoder { rounds, enabled: has_folder, recording: false, next_index: 1, frames: 0 }
    }

    pub fn saving_enabled(&self) -> (r: bool)
        ensures
            r == self@.enabled,
    {
        self.enabled
    }

    pub fn is_recording(&self) -> (r: bool)
        ensures
            r == self@.recording,
    {
        self.recording
    }

    pub fn rounds(&self) -> (n: u8)
        ensures
            n == self@.rounds,
    {
        self.rounds
    }

    /// Stops a running recording, or asks for the file of a new one.
    pub fn toggle_recording(&mut self) -> (toggle: Toggle)
        ensures
            toggle == (if old(self)@.recording {
                Toggle::Close(old(self)@.frames)
            } else if old(self)@.enabled {
                Toggle::Create(old(self)@.next_index)
            } else {
                Toggle::Disabled
            }),
            final(self)@ == (Saving { recording: false, ..old(self)@ }),
            (toggle, final(self)@) == old(self)@.toggled(),
    {
        if self.recording {
            self.recording = false;
            Toggle::Close(self.frames)
        } else if self.enabled {
            Toggle::Create(self.next_index)
        } else {
            Toggle::Disabled
        }
    }

    /// The file that was asked for is open: recording starts, and the next
    /// recording gets the next number.
    pub fn started(&mut self)
        ensures
            final(self)@ == (Saving {
                recording: true,
                next_index: succ(old(self)@.next_index),
                frames: 0,
                ..old(self)@
            }),
            final(self)@ == old(self)@.begun(),
    {
        self.recording = true;
        self.next_index = self.next_index.wrapping_add(1);
        self.frames = 0;
    }

    /// A frame was written to the file, or could not be: then the recording
    /// stops. Gives the number of frames in the file if it is to be closed.
    pub fn frame_saved(&mut self, written: bool) -> (close: Option<u32>)
        ensures
            final(self)@ == (if written {
                (Saving { frames: succ(old(self)@.frames), ..old(self)@ })
            } else {
                (Saving { recording: false, ..old(self)@ })
            }),
            close == (if written {
                None
            } else {
                Some(old(self)@.frames)
            }),
            (close, final(self)@) == old(self)@.after_frame(written),
    {
        if written {
            self.frames = self.frames.wrapping_add(1);
            None
        } else {
            self.recording = false;
            Some(self.frames)
        }
    }

    /// How many values each saved line has.
    pub fn values_per_line(&self) -> (n: usize)
        requires
            self@.rounds <= encode::MAX_ROUNDS,
        ensures
            n == 4 * encode::eight_to(self@.rounds as nat),
            n == encode::values(self@.rounds as nat),
    {
        token_count(self.rounds)
    }
}

} // verus!
