//! Which rows of a recording are handed out when.

use vstd::prelude::*;

use crate::playback::{self, Replay};

verus! {

/// Whether rows stand in the order of their timestamps.
pub open spec fn ordered(ts: Seq<u64>) -> bool {
    forall|i: int, j: int| 0 <= i <= j < ts.len() ==> ts[i] <= ts[j]
}

/// Rows are due up to the first one that is later than the playhead.
pub proof fn rows_are_due_up_to_a_later_one(ts: Seq<u64>, from: int, playhead: u64)
    requires
        0 <= from <= ts.len(),
    ensures
        ({
            let end = playback::due(ts, from, playhead);
            &&& from <= end <= ts.len()
            &&& forall|i: int| from <= i < end ==> ts[i] <= playhead
            &&& end < ts.len() ==> ts[end] > playhead
        }),
    decreases ts.len() - from,
{
    if from < ts.len() && ts[from] <= playhead {
        rows_are_due_up_to_a_later_one(ts, from + 1, playhead);
    }
}

/// Groups are handed out up to the first one that is later than the playhead,
/// and every row before it is in exactly one of them.
pub proof fn groups_are_due_up_to_a_later_one(ts: Seq<u64>, from: int, playhead: u64, i: int)
    requires
        0 <= from <= ts.len(),
    ensures
        ({
            let (groups, stop) = playback::groups_due(ts, from, playhead);
            &&& from <= stop <= ts.len()
            &&& stop < ts.len() ==> ts[stop] > playhead
            &&& from <= i < stop <==> exists|k: int|
                0 <= k < groups.len() && (#[trigger] groups[k]).0 <= i < groups[k].1
        }),
    decreases ts.len() - from,
{
    let (groups, stop) = playback::groups_due(ts, from, playhead);
    if from < ts.len() && ts[from] <= playhead {
        let end = playback::run_end(ts, from, ts[from]);
        playback::lemma_run_end(ts, from + 1, ts[from]);
        let rest = playback::groups_due(ts, end, playhead).0;
        groups_are_due_up_to_a_later_one(ts, end, playhead, i);
        assert(groups[0] == (from, end));
        assert forall|k: int| 0 <= k < rest.len() implies groups[k + 1] == #[trigger] rest[k] by {}
        if from <= i < end {
            assert(groups[0].0 <= i < groups[0].1);
        } else if end <= i < stop {
            let k = choose|k: int| 0 <= k < rest.len() && (#[trigger] rest[k]).0 <= i < rest[k].1;
            assert(groups[k + 1] == rest[k]);
        }
        if exists|k: int| 0 <= k < groups.len() && (#[trigger] groups[k]).0 <= i < groups[k].1 {
            let k = choose|k: int|
                0 <= k < groups.len() && (#[trigger] groups[k]).0 <= i < groups[k].1;
            if k > 0 {
                assert(groups[k] == rest[k - 1]);
            }
        }
    }
}

/// Each frame feeds all IMU rows that are due at its timestamp before its
/// points, and its points are all the rows that follow with that timestamp.
pub proof fn frames_feed_what_is_due(points: Seq<u64>, imu: Seq<u64>, p: int, i: int)
    requires
        0 <= p <= points.len(),
        0 <= i <= imu.len(),
    ensures
        forall|k: int|
            0 <= k < playback::frames_from(points, imu, p, i).len() ==> {
                let (ts, rows, run) = #[trigger] playback::frames_from(points, imu, p, i)[k];
                &&& i <= rows.0 <= rows.1 <= imu.len()
                &&& p <= run.0 < run.1 <= points.len()
                &&& forall|j: int| rows.0 <= j < rows.1 ==> imu[j] <= ts
                &&& rows.1 < imu.len() ==> imu[rows.1] > ts
                &&& forall|j: int| run.0 <= j < run.1 ==> points[j] == ts
                &&& run.1 < points.len() ==> points[run.1] != ts
            },
    decreases points.len() - p,
{
    if p < points.len() {
        let ts = points[p];
        let end = playback::run_end(points, p, ts);
        let imu_end = playback::due(imu, i, ts);
        playback::lemma_run_end(points, p, ts);
        playback::lemma_run_end(points, p + 1, ts);
        rows_are_due_up_to_a_later_one(imu, i, ts);
        frames_feed_what_is_due(points, imu, end, imu_end);
        let f = playback::frames_from(points, imu, p, i);
        let rest = playback::frames_from(points, imu, end, imu_end);
        assert(f[0] == (ts, (i, imu_end), (p, end)));
        assert forall|k: int| 0 <= k < f.len() implies {
            let (ts, rows, run) = #[trigger] f[k];
            &&& i <= rows.0 <= rows.1 <= imu.len()
            &&& p <= run.0 < run.1 <= points.len()
            &&& forall|j: int| rows.0 <= j < rows.1 ==> imu[j] <= ts
            &&& rows.1 < imu.len() ==> imu[rows.1] > ts
            &&& forall|j: int| run.0 <= j < run.1 ==> points[j] == ts
            &&& run.1 < points.len() ==> points[run.1] != ts
        } by {
            if k > 0 {
                assert(f[k] == rest[k - 1]);
            }
        }
    }
}

/// In a recording in timestamp order the IMU rows that were fed when a frame is
/// shown are those up to its timestamp: no later one, and none is missing.
pub proof fn frames_split_the_imu_rows(points: Seq<u64>, imu: Seq<u64>, k: int, j: int)
    requires
        ordered(imu),
        0 <= k < playback::frames_from(points, imu, 0, 0).len(),
        0 <= j < imu.len(),
    ensures
        ({
            let f = playback::frames_from(points, imu, 0, 0);
            &&& j >= f[k].1.1 ==> imu[j] > f[k].0
            &&& ordered(points) && j < f[k].1.1 ==> imu[j] <= f[k].0
        }),
    decreases k,
{
    let f = playback::frames_from(points, imu, 0, 0);
    frames_feed_what_is_due(points, imu, 0, 0);
    playback::frames_cover_the_recording(points, imu, 0, 0);
    if j >= f[k].1.1 {
        assert(imu[f[k].1.1] <= imu[j]);
    } else if ordered(points) && j < f[k].1.0 {
        if k > 0 {
            assert(f[k - 1].1.1 == f[k].1.0);
            frames_split_the_imu_rows(points, imu, k - 1, j);
            assert(f[k - 1].2.1 == f[k].2.0);
            assert(points[f[k - 1].2.0] <= points[f[k].2.0]);
        }
    }
}

/// Every point row is shown in a frame with its timestamp.
pub proof fn every_point_is_in_a_frame(points: Seq<u64>, imu: Seq<u64>, p: int, i: int, j: int)
    requires
        0 <= p <= j < points.len(),
        0 <= i <= imu.len(),
    ensures
        exists|k: int|
            0 <= k < playback::frames_from(points, imu, p, i).len() && {
                let f = #[trigger] playback::frames_from(points, imu, p, i)[k];
                f.2.0 <= j < f.2.1 && f.0 == points[j]
            },
    decreases points.len() - p,
{
    let ts = points[p];
    let end = playback::run_end(points, p, ts);
    let imu_end = playback::due(imu, i, ts);
    playback::lemma_run_end(points, p, ts);
    playback::lemma_run_end(points, p + 1, ts);
    rows_are_due_up_to_a_later_one(imu, i, ts);
    let f = playback::frames_from(points, imu, p, i);
    let rest = playback::frames_from(points, imu, end, imu_end);
    if j < end {
        assert(f[0] == (ts, (i, imu_end), (p, end)));
    } else {
        every_point_is_in_a_frame(points, imu, end, imu_end, j);
        let k = choose|k: int|
            0 <= k < rest.len() && {
                let g = #[trigger] rest[k];
                g.2.0 <= j < g.2.1 && g.0 == points[j]
            };
        assert(f[k + 1] == rest[k]);
    }
}

/// A replay starts at the first point, playing, with nothing handed out. The end
/// of a recording in order is its latest row.
pub proof fn a_replay_spans_its_recording(points: Seq<u64>, imu: Seq<u64>)
    ensures
        ({
            let r = Replay::start(points, imu);
            &&& r.valid() && r.playing
            &&& r.points == points && r.imu == imu
            &&& r.next_point == 0 && r.next_imu == 0
            &&& r.playhead_ns == r.first_ts
            &&& points.len() > 0 ==> r.first_ts == points[0]
            &&& points.len() > 0 ==> r.last_ts >= points.last()
            &&& imu.len() > 0 ==> r.last_ts >= imu.last()
            &&& points.len() > 0 || imu.len() > 0 ==> points.contains(r.last_ts) || imu.contains(
                r.last_ts,
            ) || r.last_ts == r.first_ts
            &&& ordered(points) && ordered(imu) ==> forall|i: int|
                0 <= i < points.len() ==> r.first_ts <= #[trigger] points[i] <= r.last_ts
            &&& ordered(imu) ==> forall|i: int|
                0 <= i < imu.len() ==> #[trigger] imu[i] <= r.last_ts
            &&& r.elapsed() == 0
            &&& points.len() == 0 ==> r.first_ts == 0
            &&& points.len() == 0 && imu.len() == 0 ==> r.last_ts == 0
            &&& points.len() == 0 && imu.len() > 0 ==> r.last_ts == imu.last()
            &&& points.len() > 0 && imu.len() > 0 ==> r.last_ts == points.last() || r.last_ts
                == imu.last()
            &&& points.len() > 0 && imu.len() == 0 ==> r.last_ts >= points[0] && (r.last_ts
                == points.last() || r.last_ts == points[0])
        }),
{
    let r = Replay::start(points, imu);
    if points.len() > 0 {
        assert(points.contains(points.last()));
    }
    if imu.len() > 0 {
        assert(imu.contains(imu.last()));
    }
    if ordered(points) {
        assert forall|i: int| 0 <= i < points.len() implies r.first_ts <= #[trigger] points[i]
            <= r.last_ts by {
            assert(points[0] <= points[i]);
            assert(points[i] <= points[points.len() - 1]);
        }
    }
    if ordered(imu) {
        assert forall|i: int| 0 <= i < imu.len() implies #[trigger] imu[i] <= r.last_ts by {
            assert(imu[i] <= imu[imu.len() - 1]);
        }
    }
}

/// A step moves the playhead on by its time while playing, but not past the end,
/// and pauses just where it gets there. A paused replay stands still.
pub proof fn a_step_moves_the_playhead(r: Replay, advance_ns: u64)
    requires
        r.valid(),
    ensures
        ({
            let n = r.stepped(advance_ns);
            &&& n.points == r.points && n.imu == r.imu
            &&& n.first_ts == r.first_ts && n.last_ts == r.last_ts
            &&& r.playing && r.playhead_ns + advance_ns < r.last_ts ==> n.playing && n.playhead_ns
                - r.playhead_ns == advance_ns
            &&& r.playing && r.playhead_ns + advance_ns >= r.last_ts ==> !n.playing
                && n.playhead_ns == r.last_ts
            &&& !r.playing ==> !n.playing && n.playhead_ns == r.playhead_ns
            &&& r.playing && r.playhead_ns <= r.last_ts ==> r.playhead_ns <= n.playhead_ns
                <= r.last_ts
        }),
{
}

/// A step hands out the rows from where the last one stopped up to the first
/// that is later than the playhead, of the IMU samples as of the points.
pub proof fn a_step_hands_out_what_is_due(r: Replay, advance_ns: u64)
    requires
        r.valid(),
    ensures
        ({
            let n = r.stepped(advance_ns);
            &&& n.valid()
            &&& r.next_imu <= n.next_imu
            &&& forall|i: int| r.next_imu <= i < n.next_imu ==> r.imu[i] <= n.playhead_ns
            &&& n.next_imu < r.imu.len() ==> r.imu[n.next_imu] > n.playhead_ns
            &&& r.next_point <= n.next_point
            &&& n.next_point < r.points.len() ==> r.points[n.next_point] > n.playhead_ns
            &&& ordered(r.points) ==> forall|i: int|
                r.next_point <= i < n.next_point ==> r.points[i] <= n.playhead_ns
            &&& ordered(r.points) ==> forall|i: int|
                n.next_point <= i < r.points.len() ==> r.points[i] > n.playhead_ns
            &&& ordered(r.imu) ==> forall|i: int|
                n.next_imu <= i < r.imu.len() ==> r.imu[i] > n.playhead_ns
        }),
{
    let n = r.stepped(advance_ns);
    rows_are_due_up_to_a_later_one(r.imu, r.next_imu, n.playhead_ns);
    groups_are_due_up_to_a_later_one(r.points, r.next_point, n.playhead_ns, 0);
    if ordered(r.points) {
        playback::nothing_due_is_left(r.points, r.next_point, n.playhead_ns);
    }
    if ordered(r.imu) {
        playback::nothing_due_is_left(r.imu, r.next_imu, n.playhead_ns);
    }
}

/// Steps hand out adjoining rows: each goes on where the one before stopped, so
/// that none is handed out twice and none is passed over.
pub proof fn steps_adjoin(r: Replay, a: u64, b: u64)
    requires
        r.valid(),
    ensures
        ({
            let (imu, groups) = r.handed_out(a);
            let (later_imu, later_groups) = r.stepped(a).handed_out(b);
            &&& imu.0 == r.next_imu && imu.1 == r.stepped(a).next_imu
            &&& imu.1 == later_imu.0
            &&& groups.len() > 0 ==> groups[0].0 == r.next_point && groups.last().1
                == r.stepped(a).next_point
            &&& groups.len() == 0 ==> r.stepped(a).next_point == r.next_point
            &&& groups.len() > 0 && later_groups.len() > 0 ==> groups.last().1
                == later_groups[0].0
            &&& forall|k: int|
                0 <= k < groups.len() ==> r.points[(#[trigger] groups[k]).0]
                    <= r.stepped(a).playhead_ns
        }),
{
    let n = r.stepped(a);
    a_step_hands_out_what_is_due(r, a);
    playback::groups_are_whole_packets(r.points, r.next_point, n.playhead_ns);
    playback::groups_are_whole_packets(r.points, n.next_point, n.stepped(b).playhead_ns);
}

/// A step that reaches the end of a recording in order has handed out all of it.
pub proof fn the_end_has_everything(r: Replay, advance_ns: u64)
    requires
        r.valid(),
        ordered(r.points),
        ordered(r.imu),
        r.playing,
        r.playhead_ns + advance_ns >= r.last_ts,
    ensures
        r.stepped(advance_ns).next_point == r.points.len(),
        r.stepped(advance_ns).next_imu == r.imu.len(),
{
    a_step_hands_out_what_is_due(r, advance_ns);
    a_replay_spans_its_recording(r.points, r.imu);
}

/// A step after which nothing is due hands nothing out: stepping a paused replay
/// again changes nothing.
pub proof fn a_paused_replay_waits(r: Replay, a: u64, b: u64)
    requires
        r.valid(),
        !r.playing,
    ensures
        r.stepped(a).stepped(b) == r.stepped(a),
        playback::groups_due(
            r.points,
            r.stepped(a).next_point,
            r.stepped(a).stepped(b).playhead_ns,
        ).0.len() == 0,
{
    a_step_hands_out_what_is_due(r, a);
}

/// Pausing and playing again changes nothing, and neither moves the playhead.
pub proof fn toggling_twice_is_nothing(r: Replay)
    ensures
        r.toggled().toggled() == r,
        r.toggled().playing != r.playing,
        r.toggled().playhead_ns == r.playhead_ns,
        r.toggled().next_imu == r.next_imu,
        r.toggled().next_point == r.next_point,
{
}

/// The time that passed and the length of the recording are counted from its
/// start.
pub proof fn times_count_from_the_start(r: Replay)
    ensures
        r.playhead_ns >= r.first_ts ==> r.first_ts + r.elapsed() == r.playhead_ns,
        r.playhead_ns <= r.first_ts ==> r.elapsed() == 0,
        r.last_ts >= r.first_ts ==> r.first_ts + r.total() == r.last_ts,
        r.last_ts <= r.first_ts ==> r.total() == 0,
        r.playhead_ns <= r.last_ts ==> r.elapsed() <= r.total(),
{
}

} // verus!
