//! Rolling point-cloud buffer.
//!
//! Positions are kept with their packet timestamp and expire once they fall
//! outside the retention window.

use vstd::prelude::*;

verus! {

/// Hard cap on buffered points so a runaway stream never blows up memory.
pub const MAX_POINTS: usize = 600_000;

/// Accumulated point cloud with the latest timestamp, which expiry goes by.
#[derive(Debug)]
pub struct Cloud<P> {
    points: Vec<(P, u64)>,
    latest_ts: u64,
}

/// What a cloud holds.
#[verifier::ext_equal]
pub struct Buffer<P> {
    pub points: Seq<(P, u64)>,
    pub latest_ts: u64,
}

/// What a point must meet to stay: it is not from before the cutoff.
pub open spec fn young<P>(cutoff: u64) -> spec_fn((P, u64)) -> bool {
    |p: (P, u64)| p.1 >= cutoff
}

/// The points without the expired ones, in the order in which they arrived.
pub open spec fn unexpired<P>(points: Seq<(P, u64)>, cutoff: u64) -> Seq<(P, u64)> {
    points.filter(young(cutoff))
}

/// The newest points, at most as many as the cap allows.
pub open spec fn capped<P>(points: Seq<(P, u64)>) -> Seq<(P, u64)> {
    if points.len() > MAX_POINTS {
        points.subrange(points.len() - MAX_POINTS, points.len() as int)
    } else {
        points
    }
}

/// The later of two timestamps.
pub open spec fn later(a: u64, b: u64) -> u64 {
    if b > a {
        b
    } else {
        a
    }
}

/// The timestamp below which points are too old.
pub open spec fn cutoff(latest_ts: u64, max_age_ns: u64) -> u64 {
    if latest_ts >= max_age_ns {
        (latest_ts - max_age_ns) as u64
    } else {
        0
    }
}

/// One batch of positions, with its timestamp and the window that it is added
/// under.
pub struct Batch<P> {
    pub positions: Seq<P>,
    pub ts: u64,
    pub max_age_ns: u64,
}

/// Positions that share a timestamp.
pub open spec fn stamped<P>(positions: Seq<P>, ts: u64) -> Seq<(P, u64)> {
    positions.map_values(|p: P| (p, ts))
}

impl<P> Buffer<P> {
    /// The contents of a new cloud.
    pub open spec fn fresh() -> Buffer<P> {
        Buffer { points: Seq::empty(), latest_ts: 0 }
    }

    /// The contents after everything was forgotten.
    pub open spec fn cleared(self) -> Buffer<P> {
        Buffer::fresh()
    }

    /// The contents after a sequence of batches.
    pub open spec fn filled(self, batches: Seq<Batch<P>>) -> Buffer<P>
        decreases batches.len(),
    {
        if batches.len() == 0 {
            self
        } else {
            let last = batches.last();
            self.filled(batches.drop_last()).with_batch(last.positions, last.ts, last.max_age_ns)
        }
    }

    /// The contents after a batch from one packet.
    pub open spec fn with_batch(self, positions: Seq<P>, ts: u64, max_age_ns: u64) -> Buffer<P> {
        let latest_ts = later(self.latest_ts, ts);
        Buffer {
            points: capped(
                unexpired(
                    self.points + stamped(positions, ts),
                    cutoff(latest_ts, max_age_ns),
                ),
            ),
            latest_ts,
        }
    }

    /// The positions without timestamps.
    pub open spec fn positions(self) -> Seq<P> {
        self.points.map_values(|p: (P, u64)| p.0)
    }

    /// Whether the points lie in timestamp order and none is later than the
    /// latest timestamp.
    pub open spec fn ordered(self) -> bool {
        &&& forall|i: int, j: int|
            0 <= i <= j < self.points.len() ==> (#[trigger] self.points[i]).1 <= (
            #[trigger] self.points[j]).1
        &&& forall|i: int|
            0 <= i < self.points.len() ==> (#[trigger] self.points[i]).1 <= self.latest_ts
    }
}

impl<P> View for Cloud<P> {
    type V = Buffer<P>;

    closed spec fn view(&self) -> Buffer<P> {
        Buffer { points: self.points@, latest_ts: self.latest_ts }
    }
}

/// Drops the first `k` items.
fn drop_front<T: Copy>(v: &mut Vec<T>, k: usize)
    requires
        k <= old(v)@.len(),
    ensures
        final(v)@ == old(v)@.subrange(k as int, old(v)@.len() as int),
{
    let n: usize = v.len();
    let mut kept: Vec<T> = Vec::new();
    let mut i: usize = k;
    while i < n
        invariant
            k <= i <= n == v@.len(),
            v@ == old(v)@,
            kept@ == v@.subrange(k as int, i as int),
        decreases n - i,
    {
        kept.push(v[i]);
        i = i + 1;
    }
    *v = kept;
}

/// Drops the points from before the cutoff and closes the gaps.
fn keep_young<P: Copy>(v: &mut Vec<(P, u64)>, cutoff: u64)
    ensures
        final(v)@ == unexpired(old(v)@, cutoff),
{
    let n: usize = v.len();
    let mut kept: usize = 0;
    let mut i: usize = 0;
    proof {
        reveal(Seq::filter);
    }
    while i < n
        invariant
            kept <= i <= n == v@.len() == old(v)@.len(),
            v@.subrange(0, kept as int) == unexpired(old(v)@.subrange(0, i as int), cutoff),
            forall|k: int| i <= k < n ==> v@[k] == old(v)@[k],
        decreases n - i,
    {
        let ghost before = v@;
        proof {
            reveal(Seq::filter);
            let next = old(v)@.subrange(0, i + 1);
            assert(next.drop_last() == old(v)@.subrange(0, i as int));
            assert(next.last() == v@[i as int]);
        }
        let p: (P, u64) = v[i];
        if p.1 >= cutoff {
            v[kept] = p;
            kept = kept + 1;
            assert(v@.subrange(0, kept as int) == before.subrange(0, kept - 1).push(p));
        }
        i = i + 1;
    }
    assert(old(v)@.subrange(0, n as int) == old(v)@);
    v.truncate(kept);
}

impl<P: Copy> Cloud<P> {
    pub fn new() -> (cloud: Self)
        ensures
            cloud@ == Buffer::<P>::fresh(),
    {
        Cloud { points: Vec::new(), latest_ts: 0 }
    }

    /// Adds a batch of positions from one packet. Points older than
    /// `max_age_ns` are dropped afterwards, wherever they stand; the cap still
    /// bounds memory.
    pub fn add(&mut self, positions: &[P], ts: u64, max_age_ns: u64)
        ensures
            final(self)@ == old(self)@.with_batch(positions@, ts, max_age_ns),
    {
        if ts > self.latest_ts {
            self.latest_ts = ts;
        }
        let n: usize = positions.len();
        let mut i: usize = 0;
        while i < n
            invariant
                i <= n == positions@.len(),
                self.latest_ts == later(old(self)@.latest_ts, ts),
                self.points@ == old(self)@.points + stamped(positions@.subrange(0, i as int), ts),
            decreases n - i,
        {
            self.points.push((positions[i], ts));
            i = i + 1;
        }
        assert(positions@.subrange(0, n as int) == positions@);
        self.expire(max_age_ns);
        if self.points.len() > MAX_POINTS {
            let excess: usize = self.points.len() - MAX_POINTS;
            drop_front(&mut self.points, excess);
        }
    }

    fn expire(&mut self, max_age_ns: u64)
        ensures
            final(self)@.latest_ts == old(self)@.latest_ts,
            final(self)@.points == unexpired(
                old(self)@.points,
                cutoff(old(self)@.latest_ts, max_age_ns),
            ),
    {
        let limit: u64 = self.latest_ts.saturating_sub(max_age_ns);
        keep_young(&mut self.points, limit);
    }

    /// Forgets everything, so that the cloud begins fresh.
    pub fn clear(&mut self)
        ensures
            final(self)@ == old(self)@.cleared(),
    {
        self.points.clear();
        self.latest_ts = 0;
    }

    /// Number of buffered points.
    pub fn len(&self) -> (n: usize)
        ensures
            n == self@.points.len(),
    {
        self.points.len()
    }

    /// Whether the buffer is empty.
    pub fn is_empty(&self) -> (r: bool)
        ensures
            r == (self@.points.len() == 0),
    {
        self.points.len() == 0
    }

    /// Buffered points as (position, packet timestamp ns).
    pub fn points(&self) -> (points: &[(P, u64)])
        ensures
            points@ == self@.points,
    {
        self.points.as_slice()
    }

    /// Buffered positions without timestamps.
    pub fn positions(&self) -> (positions: Vec<P>)
        ensures
            positions@ == self@.points.map_values(|p: (P, u64)| p.0),
            positions@ == self@.positions(),
    {
        let n: usize = self.points.len();
        let mut positions: Vec<P> = Vec::new();
        let mut i: usize = 0;
        while i < n
            invariant
                i <= n == self.points@.len(),
                positions@ == self.points@.subrange(0, i as int).map_values(|p: (P, u64)| p.0),
            decreases n - i,
        {
            positions.push(self.points[i].0);
            i = i + 1;
        }
        assert(self.points@.subrange(0, n as int) == self.points@);
        positions
    }
}

proof fn lemma_unexpired<P>(points: Seq<(P, u64)>, limit: u64)
    ensures
        unexpired(points, limit).len() <= points.len(),
        forall|i: int|
            0 <= i < unexpired(points, limit).len() ==> (#[trigger] unexpired(
                points,
                limit,
            )[i]).1 >= limit,
        forall|i: int|
            0 <= i < points.len() ==> (unexpired(points, limit).contains(#[trigger] points[i])
                <==> points[i].1 >= limit),
{
    broadcast use vstd::seq_lib::group_filter_ensures;

    let kept = unexpired(points, limit);
    assert forall|i: int| 0 <= i < kept.len() implies (#[trigger] kept[i]).1 >= limit by {
        assert(young::<P>(limit)(points.filter(young(limit))[i]));
    }
    assert forall|i: int| 0 <= i < points.len() implies (kept.contains(#[trigger] points[i])
        <==> points[i].1 >= limit) by {
        if points[i].1 >= limit {
            assert(young::<P>(limit)(points[i]));
        } else if kept.contains(points[i]) {
            let k = choose|k: int| 0 <= k < kept.len() && kept[k] == points[i];
            assert(kept[k].1 >= limit);
        }
    }
}

/// No batch makes a cloud larger than the cap.
pub proof fn cloud_is_bounded<P>(b: Buffer<P>, positions: Seq<P>, ts: u64, max_age_ns: u64)
    ensures
        b.with_batch(positions, ts, max_age_ns).points.len() <= MAX_POINTS,
{
}

/// After each batch no point in the cloud is older than the window, in whatever
/// order the timestamps come. The window ends at the latest timestamp so far.
pub proof fn cloud_keeps_the_window<P>(b: Buffer<P>, positions: Seq<P>, ts: u64, max_age_ns: u64)
    ensures
        b.with_batch(positions, ts, max_age_ns).latest_ts == later(b.latest_ts, ts),
        forall|i: int|
            0 <= i < b.with_batch(positions, ts, max_age_ns).points.len() ==> (
            #[trigger] b.with_batch(positions, ts, max_age_ns).points[i]).1 + max_age_ns >= later(
                b.latest_ts,
                ts,
            ),
{
    let all = b.points + stamped(positions, ts);
    let limit = cutoff(later(b.latest_ts, ts), max_age_ns);
    lemma_unexpired(all, limit);
    let kept = unexpired(all, limit);
    let out = b.with_batch(positions, ts, max_age_ns).points;
    let skip = kept.len() - out.len();
    assert forall|i: int| 0 <= i < out.len() implies (#[trigger] out[i]).1 + max_age_ns >= later(
        b.latest_ts,
        ts,
    ) by {
        assert(out[i] == kept[skip + i]);
    }
}

/// Below the cap a batch drops exactly the points that are too old, wherever
/// they stand.
pub proof fn cloud_drops_only_old_points<P>(
    b: Buffer<P>,
    positions: Seq<P>,
    ts: u64,
    max_age_ns: u64,
)
    requires
        b.points.len() + positions.len() <= MAX_POINTS,
    ensures
        ({
            let all = b.points + stamped(positions, ts);
            let out = b.with_batch(positions, ts, max_age_ns).points;
            let limit = cutoff(later(b.latest_ts, ts), max_age_ns);
            &&& forall|i: int|
                0 <= i < all.len() ==> (out.contains(#[trigger] all[i]) <==> all[i].1 >= limit)
            &&& out.len() + all.filter(|p: (P, u64)| p.1 < limit).len() == all.len()
        }),
{
    let all = b.points + stamped(positions, ts);
    let limit = cutoff(later(b.latest_ts, ts), max_age_ns);
    lemma_unexpired(all, limit);
    lemma_young_and_old(all, limit);
}

proof fn lemma_young_and_old<P>(points: Seq<(P, u64)>, limit: u64)
    ensures
        unexpired(points, limit).len() + points.filter(|p: (P, u64)| p.1 < limit).len()
            == points.len(),
    decreases points.len(),
{
    reveal(Seq::filter);
    if points.len() > 0 {
        lemma_young_and_old(points.drop_last(), limit);
    }
}

proof fn lemma_unexpired_in_order<P>(points: Seq<(P, u64)>, limit: u64)
    requires
        forall|i: int, j: int|
            0 <= i <= j < points.len() ==> (#[trigger] points[i]).1 <= (#[trigger] points[j]).1,
    ensures
        ({
            let kept = unexpired(points, limit);
            &&& forall|i: int, j: int|
                0 <= i <= j < kept.len() ==> (#[trigger] kept[i]).1 <= (#[trigger] kept[j]).1
            &&& forall|i: int|
                0 <= i < kept.len() ==> (#[trigger] kept[i]).1 <= points.last().1
        }),
    decreases points.len(),
{
    reveal(Seq::filter);
    if points.len() > 0 {
        let front = points.drop_last();
        assert forall|i: int, j: int| 0 <= i <= j < front.len() implies (#[trigger] front[i]).1 <= (
        #[trigger] front[j]).1 by {
            assert(front[i] == points[i] && front[j] == points[j]);
        }
        lemma_unexpired_in_order(front, limit);
        let before = unexpired(front, limit);
        let kept = unexpired(points, limit);
        if front.len() > 0 {
            assert(points[front.len() - 1].1 <= points[points.len() - 1].1);
        }
        assert forall|i: int| 0 <= i < kept.len() implies (#[trigger] kept[i]).1
            <= points.last().1 by {
            if i < before.len() {
                assert(kept[i] == before[i]);
            }
        }
        assert forall|i: int, j: int| 0 <= i <= j < kept.len() implies (#[trigger] kept[i]).1 <= (
        #[trigger] kept[j]).1 by {
            if j < before.len() {
                assert(kept[i] == before[i] && kept[j] == before[j]);
            }
        }
    }
}

/// As long as batches arrive in timestamp order, the cloud stays in timestamp
/// order.
pub proof fn cloud_stays_in_order<P>(b: Buffer<P>, positions: Seq<P>, ts: u64, max_age_ns: u64)
    requires
        b.ordered(),
        b.latest_ts <= ts,
    ensures
        b.with_batch(positions, ts, max_age_ns).ordered(),
{
    let all = b.points + stamped(positions, ts);
    let limit = cutoff(ts, max_age_ns);
    assert forall|i: int, j: int| 0 <= i <= j < all.len() implies (#[trigger] all[i]).1 <= (
    #[trigger] all[j]).1 by {
        if j < b.points.len() {
            assert(all[i] == b.points[i] && all[j] == b.points[j]);
        } else if i < b.points.len() {
            assert(all[i] == b.points[i]);
        }
    }
    lemma_unexpired(all, limit);
    lemma_unexpired_in_order(all, limit);
    let kept = unexpired(all, limit);
    let out = b.with_batch(positions, ts, max_age_ns);
    let skip = kept.len() - out.points.len();
    assert(out.points == kept.subrange(skip, kept.len() as int));
    if all.len() > 0 {
        if positions.len() == 0 {
            assert(all.last() == b.points.last());
        }
        assert(all.last().1 <= ts);
    }
    assert forall|i: int| 0 <= i < out.points.len() implies (#[trigger] out.points[i]).1
        <= out.latest_ts by {
        assert(out.points[i] == kept[skip + i]);
    }
    assert forall|i: int, j: int| 0 <= i <= j < out.points.len() implies (
    #[trigger] out.points[i]).1 <= (#[trigger] out.points[j]).1 by {
        assert(out.points[i] == kept[skip + i] && out.points[j] == kept[skip + j]);
    }
}

/// A cleared cloud is filled as a new one is, whatever it held and whatever the
/// windows are.
pub proof fn cleared_cloud_fills_like_a_new_one<P>(b: Buffer<P>, batches: Seq<Batch<P>>)
    ensures
        b.cleared().filled(batches) == Buffer::<P>::fresh().filled(batches),
{
}

/// Whatever batches a new cloud was filled with, its latest timestamp is the
/// largest of theirs, and none of its points is older than the window of the
/// last batch.
pub proof fn filled_cloud_keeps_the_window<P>(batches: Seq<Batch<P>>)
    requires
        batches.len() > 0,
    ensures
        ({
            let out = Buffer::<P>::fresh().filled(batches);
            &&& forall|k: int| 0 <= k < batches.len() ==> (#[trigger] batches[k]).ts <= out.latest_ts
            &&& exists|k: int| 0 <= k < batches.len() && (#[trigger] batches[k]).ts == out.latest_ts
            &&& forall|i: int|
                0 <= i < out.points.len() ==> (#[trigger] out.points[i]).1
                    + batches.last().max_age_ns >= out.latest_ts
            &&& out.points.len() <= MAX_POINTS
        }),
    decreases batches.len(),
{
    let front = batches.drop_last();
    let last = batches.last();
    let before = Buffer::<P>::fresh().filled(front);
    let out = Buffer::<P>::fresh().filled(batches);
    cloud_keeps_the_window(before, last.positions, last.ts, last.max_age_ns);
    assert(batches[batches.len() - 1] == last);
    if front.len() > 0 {
        filled_cloud_keeps_the_window(front);
        let k = choose|k: int|
            0 <= k < front.len() && (#[trigger] front[k]).ts == before.latest_ts;
        assert(batches[k] == front[k]);
    }
    assert forall|k: int| 0 <= k < batches.len() implies (#[trigger] batches[k]).ts
        <= out.latest_ts by {
        if k < front.len() {
            assert(batches[k] == front[k]);
        }
    }
}

} // verus!
