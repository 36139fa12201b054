//! When the rows of a recording are due.
//!
//! A replay works on the timestamps of the recorded points and IMU samples.
//! Points that follow each other with the same timestamp came in one packet and
//! are handed out as one group, given as a range of row indices.

use vstd::prelude::*;

use crate::cloud;

verus! {

/// Rows from `start` to before `end`.
#[derive(Debug, Clone, Copy, PartialEq, Eq, Structural)]
pub struct Rows {
    pub start: usize,
    pub end: usize,
}

/// The first row from `from` on that is later than the playhead.
pub open spec fn due(ts: Seq<u64>, from: int, playhead: u64) -> int
    decreases ts.len() - from,
{
    if 0 <= from < ts.len() && ts[from] <= playhead {
        due(ts, from + 1, playhead)
    } else {
        from
    }
}

/// The first row from `from` on with another timestamp than `t`.
pub open spec fn run_end(ts: Seq<u64>, from: int, t: u64) -> int
    decreases ts.len() - from,
{
    if 0 <= from < ts.len() && ts[from] == t {
        run_end(ts, from + 1, t)
    } else {
        from
    }
}

pub proof fn lemma_run_end(ts: Seq<u64>, from: int, t: u64)
    requires
        0 <= from <= ts.len(),
    ensures
        from <= run_end(ts, from, t) <= ts.len(),
        forall|i: int| from <= i < run_end(ts, from, t) ==> ts[i] == t,
        run_end(ts, from, t) < ts.len() ==> ts[run_end(ts, from, t)] != t,
    decreases ts.len() - from,
{
    if from < ts.len() && ts[from] == t {
        lemma_run_end(ts, from + 1, t);
    }
}

pub proof fn lemma_due(ts: Seq<u64>, from: int, playhead: u64)
    requires
        0 <= from <= ts.len(),
    ensures
        from <= due(ts, from, playhead) <= ts.len(),
    decreases ts.len() - from,
{
    if from < ts.len() && ts[from] <= playhead {
        lemma_due(ts, from + 1, playhead);
    }
}

/// The groups from row `from` on that are due at the playhead, and the row
/// behind them.
pub open spec fn groups_due(ts: Seq<u64>, from: int, playhead: u64) -> (Seq<(int, int)>, int)
    decreases ts.len() - from,
    when 0 <= from <= ts.len()
    via groups_due_decreases
{
    if from < ts.len() && ts[from] <= playhead {
        let end = run_end(ts, from, ts[from]);
        let (rest, stop) = groups_due(ts, end, playhead);
        (seq![(from, end)] + rest, stop)
    } else {
        (Seq::empty(), from)
    }
}

#[via_fn]
proof fn groups_due_decreases(ts: Seq<u64>, from: int, playhead: u64) {
    if from < ts.len() {
        lemma_run_end(ts, from + 1, ts[from]);
    }
}

/// Row ranges as pairs.
pub open spec fn ranges_of(rows: Seq<Rows>) -> Seq<(int, int)> {
    rows.map_values(|r: Rows| (r.start as int, r.end as int))
}

fn find_due(ts: &[u64], from: usize, playhead: u64) -> (end: usize)
    requires
        from <= ts.len(),
    ensures
        end == due(ts@, from as int, playhead),
        from <= end <= ts@.len(),
{
    let mut i: usize = from;
    while i < ts.len() && ts[i] <= playhead
        invariant
            from <= i <= ts@.len(),
            due(ts@, from as int, playhead) == due(ts@, i as int, playhead),
        decreases ts@.len() - i,
    {
        i = i + 1;
    }
    i
}

fn find_run_end(ts: &[u64], from: usize) -> (end: usize)
    requires
        from < ts.len(),
    ensures
        end == run_end(ts@, from as int, ts@[from as int]),
        from < end <= ts@.len(),
{
    let t: u64 = ts[from];
    let mut i: usize = from + 1;
    while i < ts.len() && ts[i] == t
        invariant
            from < i <= ts@.len(),
            t == ts@[from as int],
            run_end(ts@, from as int, t) == run_end(ts@, i as int, t),
        decreases ts@.len() - i,
    {
        i = i + 1;
    }
    i
}

fn find_groups(ts: &[u64], from: usize, playhead: u64) -> (r: (Vec<Rows>, usize))
    requires
        from <= ts.len(),
    ensures
        (ranges_of(r.0@), r.1 as int) == groups_due(ts@, from as int, playhead),
        from <= r.1 <= ts@.len(),
{
    let mut groups: Vec<Rows> = Vec::new();
    let mut next: usize = from;
    let ghost all = groups_due(ts@, from as int, playhead);
    assert(ranges_of(groups@) + groups_due(ts@, next as int, playhead).0 == all.0);
    while next < ts.len() && ts[next] <= playhead
        invariant
            from <= next <= ts@.len(),
            all == groups_due(ts@, from as int, playhead),
            ranges_of(groups@) + groups_due(ts@, next as int, playhead).0 == all.0,
            groups_due(ts@, next as int, playhead).1 == all.1,
        decreases ts@.len() - next,
    {
        let end: usize = find_run_end(ts, next);
        let ghost before = ranges_of(groups@);
        let ghost rest = groups_due(ts@, end as int, playhead).0;
        groups.push(Rows { start: next, end });
        proof {
            assert(ranges_of(groups@) == before.push((next as int, end as int)));
            assert(before + (seq![(next as int, end as int)] + rest) == before.push(
                (next as int, end as int),
            ) + rest);
        }
        next = end;
    }
    assert(ranges_of(groups@) + Seq::<(int, int)>::empty() == ranges_of(groups@));
    (groups, next)
}

/// What became due in one step of a replay: IMU samples first, then point
/// groups.
#[derive(Debug, Clone, PartialEq)]
pub struct Due {
    pub imu: Rows,
    pub groups: Vec<Rows>,
}

/// The state of a replay.
pub struct Replay {
    pub points: Seq<u64>,
    pub imu: Seq<u64>,
    pub next_point: int,
    pub next_imu: int,
    pub playhead_ns: u64,
    pub first_ts: u64,
    pub last_ts: u64,
    pub playing: bool,
}

/// Replays a recording against a clock.
#[derive(Debug)]
pub struct Playback {
    points: Vec<u64>,
    imu: Vec<u64>,
    next_point: usize,
    next_imu: usize,
    playhead_ns: u64,
    first_ts: u64,
    last_ts: u64,
    playing: bool,
}

impl View for Playback {
    type V = Replay;

    closed spec fn view(&self) -> Replay {
        Replay {
            points: self.points@,
            imu: self.imu@,
            next_point: self.next_point as int,
            next_imu: self.next_imu as int,
            playhead_ns: self.playhead_ns,
            first_ts: self.first_ts,
            last_ts: self.last_ts,
            playing: self.playing,
        }
    }
}

/// The timestamp that a replay starts at: that of the first point.
pub open spec fn start_of(points: Seq<u64>) -> u64 {
    if points.len() > 0 {
        points[0]
    } else {
        0
    }
}

/// The timestamp that a replay ends at: the later one of the last point and the
/// last IMU sample.
pub open spec fn end_of(points: Seq<u64>, imu: Seq<u64>) -> u64 {
    let p = if points.len() > 0 {
        points.last()
    } else {
        start_of(points)
    };
    let i = if imu.len() > 0 {
        imu.last()
    } else {
        start_of(points)
    };
    if p >= i {
        p
    } else {
        i
    }
}

impl Replay {
    /// The rows that were handed out lie inside the recording, and the ends are
    /// those of the recording.
    pub open spec fn valid(self) -> bool {
        &&& 0 <= self.next_point <= self.points.len()
        &&& 0 <= self.next_imu <= self.imu.len()
        &&& self.first_ts == start_of(self.points)
        &&& self.last_ts == end_of(self.points, self.imu)
    }

    /// The state at the start of a recording.
    pub open spec fn start(points: Seq<u64>, imu: Seq<u64>) -> Replay {
        Replay {
            points,
            imu,
            next_point: 0,
            next_imu: 0,
            playhead_ns: start_of(points),
            first_ts: start_of(points),
            last_ts: end_of(points, imu),
            playing: true,
        }
    }

    /// The state at the start again.
    pub open spec fn rewound(self) -> Replay {
        Replay::start(self.points, self.imu)
    }

    /// The state after playing was switched on or off.
    pub open spec fn toggled(self) -> Replay {
        Replay { playing: !self.playing, ..self }
    }

    /// How far the playhead is from the start.
    pub open spec fn elapsed(self) -> int {
        if self.playhead_ns >= self.first_ts {
            self.playhead_ns - self.first_ts
        } else {
            0
        }
    }

    /// How long the recording is.
    pub open spec fn total(self) -> int {
        if self.last_ts >= self.first_ts {
            self.last_ts - self.first_ts
        } else {
            0
        }
    }

    /// Where the playhead goes in a step: on by the given time while playing,
    /// but not past the end.
    pub open spec fn advanced(self, advance_ns: u64) -> u64 {
        if !self.playing {
            self.playhead_ns
        } else if self.playhead_ns + advance_ns >= self.last_ts {
            self.last_ts
        } else {
            (self.playhead_ns + advance_ns) as u64
        }
    }

    /// The IMU rows and the point groups that a step hands out.
    pub open spec fn handed_out(self, advance_ns: u64) -> ((int, int), Seq<(int, int)>) {
        let playhead = self.advanced(advance_ns);
        (
            (self.next_imu, due(self.imu, self.next_imu, playhead)),
            groups_due(self.points, self.next_point, playhead).0,
        )
    }

    /// The state after a step. Reaching the end pauses the replay.
    pub open spec fn stepped(self, advance_ns: u64) -> Replay {
        let playhead = self.advanced(advance_ns);
        Replay {
            playhead_ns: playhead,
            playing: self.playing && self.playhead_ns + advance_ns < self.last_ts,
            next_imu: due(self.imu, self.next_imu, playhead),
            next_point: groups_due(self.points, self.next_point, playhead).1,
            ..self
        }
    }
}

impl Playback {
    #[verifier::type_invariant]
    spec fn inv(self) -> bool {
        &&& self.next_point <= self.points@.len()
        &&& self.next_imu <= self.imu@.len()
        &&& self.first_ts == start_of(self.points@)
        &&& self.last_ts == end_of(self.points@, self.imu@)
    }

    /// Starts a replay of rows with these timestamps, playing.
    pub fn new(points: Vec<u64>, imu: Vec<u64>) -> (playback: Self)
        ensures
            playback@ == Replay::start(points@, imu@),
    {
        let first_ts: u64 = if points.len() > 0 {
            points[0]
        } else {
            0
        };
        let last_point: u64 = if points.len() > 0 {
            points[points.len() - 1]
        } else {
            first_ts
        };
        let last_imu: u64 = if imu.len() > 0 {
            imu[imu.len() - 1]
        } else {
            first_ts
        };
        let last_ts: u64 = if last_point >= last_imu {
            last_point
        } else {
            last_imu
        };
        Playback {
            points,
            imu,
            next_point: 0,
            next_imu: 0,
            playhead_ns: first_ts,
            first_ts,
            last_ts,
            playing: true,
        }
    }

    /// Advances the playhead and hands out the rows that became due.
    pub fn tick(&mut self, advance_ns: u64) -> (out: Due)
        ensures
            final(self)@ == old(self)@.stepped(advance_ns),
            out.imu.start == old(self)@.next_imu,
            out.imu.end == final(self)@.next_imu,
            ranges_of(out.groups@) == groups_due(
                old(self)@.points,
                old(self)@.next_point,
                final(self)@.playhead_ns,
            ).0,
            old(self)@.valid(),
            final(self)@.valid(),
            ((out.imu.start as int, out.imu.end as int), ranges_of(out.groups@))
                == old(self)@.handed_out(advance_ns),
    {
        proof {
            use_type_invariant(&*self);
        }
        if self.playing {
            let head: u64 = self.playhead_ns.saturating_add(advance_ns);
            if head >= self.last_ts {
                self.playhead_ns = self.last_ts;
                self.playing = false;
            } else {
                self.playhead_ns = head;
            }
        }
        let imu_start: usize = self.next_imu;
        let imu_end: usize = find_due(self.imu.as_slice(), imu_start, self.playhead_ns);
        self.next_imu = imu_end;
        let (groups, next): (Vec<Rows>, usize) = find_groups(
            self.points.as_slice(),
            self.next_point,
            self.playhead_ns,
        );
        self.next_point = next;
        Due { imu: Rows { start: imu_start, end: imu_end }, groups }
    }

    /// Rewinds to the start and plays, as a new replay of the same recording
    /// does.
    pub fn restart(&mut self)
        ensures
            final(self)@ == old(self)@.rewound(),
    {
        proof {
            use_type_invariant(&*self);
        }
        self.next_point = 0;
        self.next_imu = 0;
        self.playhead_ns = self.first_ts;
        self.playing = true;
    }

    /// Plays where it paused, and pauses where it played.
    pub fn toggle(&mut self)
        ensures
            final(self)@ == (Replay { playing: !old(self)@.playing, ..old(self)@ }),
            final(self)@ == old(self)@.toggled(),
    {
        proof {
            use_type_invariant(&*self);
        }
        self.playing = !self.playing;
    }

    pub fn playing(&self) -> (r: bool)
        ensures
            r == self@.playing,
    {
        self.playing
    }

    /// The first point row that was not handed out yet.
    pub fn next_point(&self) -> (r: usize)
        ensures
            r == self@.next_point,
    {
        self.next_point
    }

    /// The first IMU row that was not handed out yet.
    pub fn next_imu(&self) -> (r: usize)
        ensures
            r == self@.next_imu,
    {
        self.next_imu
    }

    pub fn playhead_ns(&self) -> (r: u64)
        ensures
            r == self@.playhead_ns,
    {
        self.playhead_ns
    }

    pub fn first_ts(&self) -> (r: u64)
        ensures
            r == self@.first_ts,
    {
        self.first_ts
    }

    /// How far the playhead is from the start, in nanoseconds.
    pub fn elapsed_ns(&self) -> (r: u64)
        ensures
            r == (if self@.playhead_ns >= self@.first_ts {
                self@.playhead_ns - self@.first_ts
            } else {
                0
            }),
            r == self@.elapsed(),
    {
        self.playhead_ns.saturating_sub(self.first_ts)
    }

    /// How long the recording is, in nanoseconds.
    pub fn total_ns(&self) -> (r: u64)
        ensures
            r == (if self@.last_ts >= self@.first_ts {
                self@.last_ts - self@.first_ts
            } else {
                0
            }),
            r == self@.total(),
    {
        self.last_ts.saturating_sub(self.first_ts)
    }
}

/// The groups that are handed out are whole packets, one behind the other: they
/// start where the last step stopped, none is empty, each is as long as its
/// timestamp repeats, and each is due.
pub proof fn groups_are_whole_packets(ts: Seq<u64>, from: int, playhead: u64)
    requires
        0 <= from <= ts.len(),
    ensures
        ({
            let (groups, stop) = groups_due(ts, from, playhead);
            &&& from <= stop <= ts.len()
            &&& groups.len() == 0 ==> stop == from
            &&& groups.len() > 0 ==> groups[0].0 == from && groups.last().1 == stop
            &&& forall|k: int|
                0 <= k < groups.len() - 1 ==> (#[trigger] groups[k]).1 == groups[k + 1].0
            &&& forall|k: int|
                0 <= k < groups.len() ==> {
                    let (start, end) = #[trigger] groups[k];
                    &&& 0 <= start < end <= ts.len()
                    &&& ts[start] <= playhead
                    &&& forall|i: int| start <= i < end ==> ts[i] == ts[start]
                    &&& end < ts.len() ==> ts[end] != ts[start]
                }
        }),
    decreases ts.len() - from,
{
    if from < ts.len() && ts[from] <= playhead {
        let end = run_end(ts, from, ts[from]);
        lemma_run_end(ts, from, ts[from]);
        lemma_run_end(ts, from + 1, ts[from]);
        groups_are_whole_packets(ts, end, playhead);
        let (rest, stop) = groups_due(ts, end, playhead);
        let groups = groups_due(ts, from, playhead).0;
        assert(groups[0] == (from, end));
        assert forall|k: int| 0 <= k < groups.len() - 1 implies (#[trigger] groups[k]).1
            == groups[k + 1].0 by {
            assert(groups[k + 1] == rest[k]);
            if k > 0 {
                assert(groups[k] == rest[k - 1]);
            }
        }
        assert forall|k: int| 0 <= k < groups.len() implies {
            let (start, end) = #[trigger] groups[k];
            &&& 0 <= start < end <= ts.len()
            &&& ts[start] <= playhead
            &&& forall|i: int| start <= i < end ==> ts[i] == ts[start]
            &&& end < ts.len() ==> ts[end] != ts[start]
        } by {
            if k > 0 {
                assert(groups[k] == rest[k - 1]);
            }
        }
        if rest.len() > 0 {
            assert(groups.last() == rest.last());
        }
    }
}

proof fn lemma_groups_compose(ts: Seq<u64>, from: int, p1: u64, p2: u64)
    requires
        0 <= from <= ts.len(),
        p1 <= p2,
    ensures
        groups_due(ts, from, p2).0 == groups_due(ts, from, p1).0 + groups_due(
            ts,
            groups_due(ts, from, p1).1,
            p2,
        ).0,
        groups_due(ts, from, p2).1 == groups_due(ts, groups_due(ts, from, p1).1, p2).1,
    decreases ts.len() - from,
{
    if from < ts.len() && ts[from] <= p1 {
        let end = run_end(ts, from, ts[from]);
        lemma_run_end(ts, from + 1, ts[from]);
        lemma_groups_compose(ts, end, p1, p2);
        let a = groups_due(ts, end, p1).0;
        let b = groups_due(ts, groups_due(ts, end, p1).1, p2).0;
        assert(seq![(from, end)] + (a + b) == (seq![(from, end)] + a) + b);
    } else {
        assert(Seq::<(int, int)>::empty() + groups_due(ts, from, p2).0 == groups_due(
            ts,
            from,
            p2,
        ).0);
    }
}

proof fn lemma_due_composes(ts: Seq<u64>, from: int, p1: u64, p2: u64)
    requires
        0 <= from <= ts.len(),
        p1 <= p2,
    ensures
        due(ts, from, p2) == due(ts, due(ts, from, p1), p2),
    decreases ts.len() - from,
{
    if from < ts.len() && ts[from] <= p1 {
        lemma_due_composes(ts, from + 1, p1, p2);
    }
}

/// Two steps hand out what one step of their whole length hands out, in the
/// same order, and end in the same state.
pub proof fn two_ticks_are_one(r: Replay, a: u64, b: u64)
    requires
        r.valid(),
        r.playing,
        a + b <= u64::MAX,
    ensures
        ({
            let both = (a + b) as u64;
            let mid = r.stepped(a);
            &&& mid.stepped(b) == r.stepped(both)
            &&& groups_due(r.points, r.next_point, r.advanced(both)).0 == groups_due(
                r.points,
                r.next_point,
                r.advanced(a),
            ).0 + groups_due(r.points, mid.next_point, mid.advanced(b)).0
        }),
{
    let both = (a + b) as u64;
    let p1 = r.advanced(a);
    let p2 = r.advanced(both);
    lemma_groups_compose(r.points, r.next_point, p1, p2);
    lemma_due_composes(r.imu, r.next_imu, p1, p2);
}

/// In a recording in timestamp order a step hands out everything that is due
/// and nothing else: what remains is later than the playhead.
pub proof fn nothing_due_is_left(ts: Seq<u64>, from: int, playhead: u64)
    requires
        0 <= from <= ts.len(),
        forall|i: int, j: int| 0 <= i <= j < ts.len() ==> ts[i] <= ts[j],
    ensures
        groups_due(ts, from, playhead).1 == due(ts, from, playhead),
        forall|i: int| from <= i < due(ts, from, playhead) ==> ts[i] <= playhead,
        forall|i: int| due(ts, from, playhead) <= i < ts.len() ==> ts[i] > playhead,
    decreases ts.len() - from,
{
    if from < ts.len() && ts[from] <= playhead {
        let end = run_end(ts, from, ts[from]);
        lemma_run_end(ts, from, ts[from]);
        lemma_run_end(ts, from + 1, ts[from]);
        nothing_due_is_left(ts, end, playhead);
        lemma_due_skips(ts, from, end, playhead);
    } else if from < ts.len() {
        assert forall|i: int| from <= i < ts.len() implies ts[i] > playhead by {
            assert(ts[from] <= ts[i]);
        }
    }
}

proof fn lemma_due_skips(ts: Seq<u64>, from: int, to: int, playhead: u64)
    requires
        0 <= from <= to <= ts.len(),
        forall|i: int| from <= i < to ==> ts[i] <= playhead,
    ensures
        due(ts, from, playhead) == due(ts, to, playhead),
    decreases to - from,
{
    if from < to {
        lemma_due_skips(ts, from + 1, to, playhead);
    }
}

/// The cloud after the groups of one step were added under the given window.
/// `place` gives the positions of a group, which depend on how many IMU samples
/// were fed before it.
pub open spec fn with_groups<P>(
    b: cloud::Buffer<P>,
    points: Seq<u64>,
    groups: Seq<(int, int)>,
    next_imu: int,
    place: spec_fn(int, (int, int)) -> Seq<P>,
    max_age_ns: u64,
) -> cloud::Buffer<P>
    decreases groups.len(),
{
    if groups.len() == 0 {
        b
    } else {
        let group = groups.last();
        with_groups(b, points, groups.drop_last(), next_imu, place, max_age_ns).with_batch(
            place(next_imu, group),
            points[group.0],
            max_age_ns,
        )
    }
}

/// A replay and the cloud that it fills after some steps, each with its time and
/// the window at that moment.
pub open spec fn played<P>(
    r: Replay,
    b: cloud::Buffer<P>,
    place: spec_fn(int, (int, int)) -> Seq<P>,
    steps: Seq<(u64, u64)>,
) -> (Replay, cloud::Buffer<P>)
    decreases steps.len(),
{
    if steps.len() == 0 {
        (r, b)
    } else {
        let (before, shown) = played(r, b, place, steps.drop_last());
        let (advance_ns, max_age_ns) = steps.last();
        let after = before.stepped(advance_ns);
        let groups = groups_due(before.points, before.next_point, after.playhead_ns).0;
        (
            after,
            with_groups(shown, before.points, groups, after.next_imu, place, max_age_ns),
        )
    }
}

proof fn lemma_played_is_valid<P>(
    r: Replay,
    b: cloud::Buffer<P>,
    place: spec_fn(int, (int, int)) -> Seq<P>,
    steps: Seq<(u64, u64)>,
)
    requires
        r.valid(),
    ensures
        played(r, b, place, steps).0.valid(),
        played(r, b, place, steps).0.points == r.points,
        played(r, b, place, steps).0.imu == r.imu,
    decreases steps.len(),
{
    if steps.len() > 0 {
        lemma_played_is_valid(r, b, place, steps.drop_last());
        let before = played(r, b, place, steps.drop_last()).0;
        let playhead = before.advanced(steps.last().0);
        groups_are_whole_packets(before.points, before.next_point, playhead);
        lemma_due(before.imu, before.next_imu, playhead);
    }
}

/// A restarted replay with a cleared cloud begins fresh: whatever was played
/// before and under whatever windows, the steps after the restart hand out the
/// same rows and fill the cloud just as they do for a new replay and a new
/// cloud.
pub proof fn restart_begins_fresh<P>(
    points: Seq<u64>,
    imu: Seq<u64>,
    place: spec_fn(int, (int, int)) -> Seq<P>,
    earlier: Seq<(u64, u64)>,
    later: Seq<(u64, u64)>,
)
    ensures
        ({
            let start = Replay::start(points, imu);
            let fresh = cloud::Buffer::<P>::fresh();
            let (r, b) = played(start, fresh, place, earlier);
            &&& r.valid()
            &&& r.rewound() == start
            &&& played(r.rewound(), b.cleared(), place, later) == played(
                start,
                fresh,
                place,
                later,
            )
        }),
{
    lemma_played_is_valid(
        Replay::start(points, imu),
        cloud::Buffer::<P>::fresh(),
        place,
        earlier,
    );
}

/// One frame of an unpaced replay: the IMU samples up to the frame's timestamp,
/// then its points.
#[derive(Debug, Clone, Copy, PartialEq, Eq, Structural)]
pub struct Frame {
    pub ts_ns: u64,
    pub imu: Rows,
    pub points: Rows,
}

/// The frames from point row `p` and IMU row `i` on.
pub open spec fn frames_from(points: Seq<u64>, imu: Seq<u64>, p: int, i: int) -> Seq<
    (u64, (int, int), (int, int)),
>
    decreases points.len() - p,
    when 0 <= p <= points.len()
    via frames_from_decreases
{
    if p < points.len() {
        let ts = points[p];
        let end = run_end(points, p, ts);
        let imu_end = due(imu, i, ts);
        seq![(ts, (i, imu_end), (p, end))] + frames_from(points, imu, end, imu_end)
    } else {
        Seq::empty()
    }
}

#[via_fn]
proof fn frames_from_decreases(points: Seq<u64>, imu: Seq<u64>, p: int, i: int) {
    if p < points.len() {
        lemma_run_end(points, p + 1, points[p]);
    }
}

/// Frames as tuples.
pub open spec fn frames_of(frames: Seq<Frame>) -> Seq<(u64, (int, int), (int, int))> {
    frames.map_values(
        |f: Frame|
            (
                f.ts_ns,
                (f.imu.start as int, f.imu.end as int),
                (f.points.start as int, f.points.end as int),
            ),
    )
}

/// The frames of a recording, in the order of its point rows.
pub fn replay_frames(points: &[u64], imu: &[u64]) -> (frames: Vec<Frame>)
    ensures
        frames_of(frames@) == frames_from(points@, imu@, 0, 0),
{
    let mut frames: Vec<Frame> = Vec::new();
    let mut next_point: usize = 0;
    let mut next_imu: usize = 0;
    let ghost all = frames_from(points@, imu@, 0, 0);
    assert(frames_of(frames@) + all == all);
    while next_point < points.len()
        invariant
            next_point <= points@.len(),
            next_imu <= imu@.len(),
            all == frames_from(points@, imu@, 0, 0),
            frames_of(frames@) + frames_from(points@, imu@, next_point as int, next_imu as int)
                == all,
        decreases points@.len() - next_point,
    {
        let ts_ns: u64 = points[next_point];
        let imu_end: usize = find_due(imu, next_imu, ts_ns);
        let end: usize = find_run_end(points, next_point);
        let ghost before = frames_of(frames@);
        let ghost rest = frames_from(points@, imu@, end as int, imu_end as int);
        frames.push(
            Frame {
                ts_ns,
                imu: Rows { start: next_imu, end: imu_end },
                points: Rows { start: next_point, end },
            },
        );
        proof {
            let f = (
                ts_ns,
                (next_imu as int, imu_end as int),
                (next_point as int, end as int),
            );
            assert(frames_of(frames@) == before.push(f));
            assert(before + (seq![f] + rest) == before.push(f) + rest);
        }
        next_point = end;
        next_imu = imu_end;
    }
    assert(frames_of(frames@) + Seq::<(u64, (int, int), (int, int))>::empty() == frames_of(
        frames@,
    ));
    frames
}

/// The frames of a recording cover its point rows from the first to the last,
/// without gap or overlap, and every IMU sample is fed at most once.
pub proof fn frames_cover_the_recording(points: Seq<u64>, imu: Seq<u64>, p: int, i: int)
    requires
        0 <= p <= points.len(),
        0 <= i <= imu.len(),
    ensures
        ({
            let f = frames_from(points, imu, p, i);
            &&& f.len() == 0 <==> p == points.len()
            &&& f.len() > 0 ==> f[0].2.0 == p && f.last().2.1 == points.len() && f[0].1.0 == i
            &&& forall|k: int|
                0 <= k < f.len() - 1 ==> (#[trigger] f[k]).2.1 == f[k + 1].2.0 && f[k].1.1 == f[k
                    + 1].1.0
            &&& forall|k: int|
                0 <= k < f.len() ==> (#[trigger] f[k]).2.0 < f[k].2.1 && f[k].1.0 <= f[k].1.1
        }),
    decreases points.len() - p,
{
    if p < points.len() {
        let end = run_end(points, p, points[p]);
        let imu_end = due(imu, i, points[p]);
        lemma_run_end(points, p + 1, points[p]);
        lemma_due(imu, i, points[p]);
        frames_cover_the_recording(points, imu, end, imu_end);
        let f = frames_from(points, imu, p, i);
        let rest = frames_from(points, imu, end, imu_end);
        assert(f[0] == (points[p], (i, imu_end), (p, end)));
        assert forall|k: int| 0 <= k < f.len() - 1 implies (#[trigger] f[k]).2.1 == f[k + 1].2.0
            && f[k].1.1 == f[k + 1].1.0 by {
            assert(f[k + 1] == rest[k]);
            if k > 0 {
                assert(f[k] == rest[k - 1]);
            }
        }
        assert forall|k: int| 0 <= k < f.len() implies (#[trigger] f[k]).2.0 < f[k].2.1
            && f[k].1.0 <= f[k].1.1 by {
            if k > 0 {
                assert(f[k] == rest[k - 1]);
            }
        }
        if rest.len() > 0 {
            assert(f.last() == rest.last());
        }
    }
}

} // verus!
