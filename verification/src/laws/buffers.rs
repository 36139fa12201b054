//! What the buffers keep and hand out.

use vstd::prelude::*;

use crate::cloud::{self, Buffer};
use crate::imu::{self, Lookup};
use crate::laws::layout;
use crate::live;
use crate::wire;

verus! {

/// The `i`-th of the points that a cloud held and of those of a batch, in the
/// order in which they arrived.
pub open spec fn arrival<P>(b: Buffer<P>, positions: Seq<P>, ts: u64, i: int) -> (P, u64) {
    if i < b.points.len() {
        b.points[i]
    } else {
        (positions[i - b.points.len()], ts)
    }
}

/// A batch leaves the points that are not older than the window, each once and
/// in the order of arrival. Where these are more than the cap, those that
/// arrived first go; nothing else is lost. The places that the kept points had
/// are given back.
pub proof fn a_batch_keeps_the_newest<P>(
    b: Buffer<P>,
    positions: Seq<P>,
    ts: u64,
    max_age_ns: u64,
) -> (from: Seq<int>)
    ensures
        ({
            let out = b.with_batch(positions, ts, max_age_ns);
            let n = b.points.len() + positions.len();
            &&& out.latest_ts >= b.latest_ts && out.latest_ts >= ts
            &&& out.latest_ts == b.latest_ts || out.latest_ts == ts
            &&& out.points.len() == from.len() <= 600_000
            &&& forall|i: int|
                0 <= i < from.len() ==> {
                    &&& 0 <= #[trigger] from[i] < n
                    &&& out.points[i] == arrival(b, positions, ts, from[i])
                    &&& out.points[i].1 + max_age_ns >= out.latest_ts
                }
            &&& forall|i: int, j: int|
                0 <= i < j < from.len() ==> #[trigger] from[i] < #[trigger] from[j]
            &&& forall|k: int|
                0 <= k < n && (#[trigger] arrival(b, positions, ts, k)).1 + max_age_ns
                    >= out.latest_ts ==> from.contains(k) || (from.len() == 600_000 && k < from[0])
        }),
{
    let all = b.points + cloud::stamped(positions, ts);
    let latest = cloud::later(b.latest_ts, ts);
    let limit = cloud::cutoff(latest, max_age_ns);
    let young = cloud::unexpired(all, limit);
    let places = lemma_kept(all, limit);
    let out = b.with_batch(positions, ts, max_age_ns);
    assert forall|k: int| 0 <= k < all.len() implies all[k] == #[trigger] arrival(
        b,
        positions,
        ts,
        k,
    ) by {}
    let skip = young.len() - out.points.len();
    let from = places.subrange(skip, places.len() as int);
    assert forall|i: int| 0 <= i < from.len() implies {
        &&& 0 <= #[trigger] from[i] < all.len()
        &&& out.points[i] == arrival(b, positions, ts, from[i])
        &&& out.points[i].1 + max_age_ns >= out.latest_ts
    } by {
        assert(from[i] == places[skip + i]);
        assert(out.points[i] == young[skip + i]);
    }
    assert forall|i: int, j: int| 0 <= i < j < from.len() implies #[trigger] from[i]
        < #[trigger] from[j] by {
        assert(from[i] == places[skip + i] && from[j] == places[skip + j]);
    }
    assert forall|k: int|
        0 <= k < all.len() && (#[trigger] arrival(b, positions, ts, k)).1 + max_age_ns
            >= out.latest_ts implies from.contains(k) || (from.len() == 600_000 && k
        < from[0]) by {
        assert(all[k].1 >= limit);
        let m = choose|m: int| 0 <= m < places.len() && places[m] == k;
        if m >= skip {
            assert(from[m - skip] == k);
        } else {
            assert(from[0] == places[skip]);
        }
    }
    from
}

proof fn lemma_kept<P>(points: Seq<(P, u64)>, limit: u64) -> (places: Seq<int>)
    ensures
        places.len() == cloud::unexpired(points, limit).len(),
        forall|i: int|
            0 <= i < places.len() ==> 0 <= #[trigger] places[i] < points.len() && cloud::unexpired(
                points,
                limit,
            )[i] == points[places[i]] && points[places[i]].1 >= limit,
        forall|i: int, j: int|
            0 <= i < j < places.len() ==> #[trigger] places[i] < #[trigger] places[j],
        forall|k: int|
            0 <= k < points.len() && (#[trigger] points[k]).1 >= limit ==> places.contains(k),
    decreases points.len(),
{
    reveal(Seq::filter);
    if points.len() == 0 {
        Seq::empty()
    } else {
        let front = points.drop_last();
        let before = lemma_kept(front, limit);
        let last = points.len() - 1;
        let kept = cloud::unexpired(points, limit);
        let earlier = cloud::unexpired(front, limit);
        let places = if points[last].1 >= limit {
            before.push(last)
        } else {
            before
        };
        assert(cloud::young::<P>(limit)(points.last()) == (points[last].1 >= limit));
        assert forall|i: int| 0 <= i < places.len() implies 0 <= #[trigger] places[i]
            < points.len() && kept[i] == points[places[i]] && points[places[i]].1 >= limit by {
            if i < before.len() {
                assert(places[i] == before[i]);
                assert(kept[i] == earlier[i]);
                assert(front[before[i]] == points[before[i]]);
            }
        }
        assert forall|i: int, j: int| 0 <= i < j < places.len() implies #[trigger] places[i]
            < #[trigger] places[j] by {
            assert(places[i] == before[i]);
            if j < before.len() {
                assert(places[j] == before[j]);
            }
        }
        assert forall|k: int|
            0 <= k < points.len() && (#[trigger] points[k]).1 >= limit implies places.contains(
            k,
        ) by {
            if k < last {
                assert(front[k] == points[k]);
                let m = choose|m: int| 0 <= m < before.len() && before[m] == k;
                assert(places[m] == k);
            } else {
                assert(places[before.len() as int] == last);
            }
        }
        places
    }
}

/// The positions of a cloud are those of its points, in order.
pub proof fn positions_are_those_of_the_points<P>(b: Buffer<P>, i: int)
    requires
        0 <= i < b.points.len(),
    ensures
        b.positions().len() == b.points.len(),
        b.positions()[i] == b.points[i].0,
        b.cleared().points.len() == 0,
        b.cleared().latest_ts == 0,
{
}

/// The newest items are the end of the sequence, as long as asked for or as
/// there are.
pub proof fn the_newest_are_the_end<T>(s: Seq<T>, n: nat, i: int)
    ensures
        imu::newest(s, n).len() <= n,
        imu::newest(s, n).len() == n || imu::newest(s, n).len() == s.len(),
        s.len() <= n ==> imu::newest(s, n) == s,
        0 <= i < imu::newest(s, n).len() ==> imu::newest(s, n)[i] == s[s.len() - imu::newest(
            s,
            n,
        ).len() + i],
{
}

/// Adding orientations one by one keeps the last of all of them.
pub proof fn histories_keep_the_last<T>(s: Seq<T>, x: T, n: nat)
    ensures
        imu::newest(imu::newest(s, n).push(x), n) == imu::newest(s.push(x), n),
{
    let a = imu::newest(imu::newest(s, n).push(x), n);
    let b = imu::newest(s.push(x), n);
    assert(a =~= b);
}

/// The time since the last sample leads from it to the new one, and is nothing
/// where time went backwards.
pub proof fn time_passes_between_samples(prev: u64, ts: u64)
    ensures
        imu::since(None, ts) is None,
        imu::since(Some(prev), ts) matches Some(d) && (ts >= prev ==> prev + d == ts) && (ts <= prev
            ==> d == 0),
{
}

/// A timestamp that is not beyond the ends falls between two neighbouring
/// samples, and is told as far behind the first as it is, out of the time
/// between them. At and beyond an end it is that end's orientation.
pub proof fn lookups_lie_between_neighbours<Q>(samples: Seq<(u64, Q)>, ts: u64)
    ensures
        samples.len() == 0 ==> imu::lookup(samples, ts) is Empty,
        samples.len() > 0 && ts <= samples[0].0 ==> imu::lookup(samples, ts) == Lookup::At(
            samples[0].1,
        ),
        samples.len() > 0 && ts > samples[0].0 && ts >= samples.last().0 ==> imu::lookup(
            samples,
            ts,
        ) == Lookup::At(samples.last().1),
        samples.len() > 0 && samples[0].0 < ts < samples.last().0 ==> exists|i: int|
            0 <= i < samples.len() - 1 && (#[trigger] samples[i]).0 < ts <= samples[i + 1].0 && (
            forall|j: int|
                0 <= j < i ==> !((#[trigger] samples[j]).0 <= ts <= samples[j + 1].0)) && (
            imu::lookup(samples, ts) matches Lookup::Between { from, to, offset_ns, span_ns }
                && from == samples[i].1 && to == samples[i + 1].1 && samples[i].0 + offset_ns == ts
                && samples[i].0 + span_ns == samples[i + 1].0),
{
    if samples.len() > 0 && samples[0].0 < ts < samples.last().0 {
        imu::inner_timestamps_have_neighbours(samples, ts);
        let i = choose|i: int| imu::first_bracket(samples, ts, i);
        assert(imu::brackets(samples, ts, i));
        if samples[i].0 == ts {
            assert(i > 0);
            lemma_bracket_before(samples, ts, i);
            assert(false);
        }
        assert(samples[i].0 < ts);
        assert forall|j: int| 0 <= j < i implies !((#[trigger] samples[j]).0 <= ts <= samples[j
            + 1].0) by {
            assert(!imu::brackets(samples, ts, j));
        }
    }
}

/// Before a place that is reached exactly there is an earlier one.
proof fn lemma_bracket_before<Q>(samples: Seq<(u64, Q)>, ts: u64, k: int)
    requires
        0 < k < samples.len(),
        samples[0].0 < ts <= samples[k].0,
    ensures
        exists|j: int| 0 <= j < k && imu::brackets(samples, ts, j),
    decreases k,
{
    if samples[k - 1].0 <= ts {
        assert(imu::brackets(samples, ts, k - 1));
    } else {
        lemma_bracket_before(samples, ts, k - 1);
    }
}

/// The coordinates of points stand one behind the other, three to a point.
pub proof fn coordinates_stand_in_threes(points: Seq<[u32; 3]>)
    ensures
        live::coordinates(points).len() == 3 * points.len(),
        forall|i: int|
            0 <= i < points.len() ==> {
                let p = #[trigger] points[i]@;
                &&& live::coordinates(points)[3 * i] == p[0]
                &&& live::coordinates(points)[3 * i + 1] == p[1]
                &&& live::coordinates(points)[3 * i + 2] == p[2]
            },
    decreases points.len(),
{
    if points.len() > 0 {
        let front = points.drop_last();
        coordinates_stand_in_threes(front);
        assert forall|i: int| 0 <= i < points.len() implies {
            let p = #[trigger] points[i]@;
            &&& live::coordinates(points)[3 * i] == p[0]
            &&& live::coordinates(points)[3 * i + 1] == p[1]
            &&& live::coordinates(points)[3 * i + 2] == p[2]
        } by {
            if i < front.len() {
                assert(front[i]@ == points[i]@);
            }
        }
    }
}

/// Values stand one behind the other in the bytes, four to a value, with the low
/// byte of each first or the high byte of each first.
pub proof fn values_stand_in_fours(values: Seq<u32>)
    ensures
        live::low_byte_first(values).len() == 4 * values.len(),
        live::high_byte_first(values).len() == 4 * values.len(),
        forall|i: int|
            0 <= i < values.len() ==> layout::le4(live::low_byte_first(values), 4 * i)
                == #[trigger] values[i],
        forall|i: int, k: int|
            0 <= i < values.len() && 0 <= k < 4 ==> live::high_byte_first(values)[4 * i + k]
                == #[trigger] wire::u32_bytes(values[i])[3 - k],
    decreases values.len(),
{
    if values.len() > 0 {
        let front = values.drop_last();
        values_stand_in_fours(front);
        let low = live::low_byte_first(values);
        let last = values.len() - 1;
        wire::lemma_u32_stands(low, 4 * last, values.last());
        layout::fields_are_little_endian(low, 4 * last);
        assert forall|i: int| 0 <= i < values.len() implies layout::le4(low, 4 * i)
            == #[trigger] values[i] by {
            if i < last {
                assert(front[i] == values[i]);
                let before = live::low_byte_first(front);
                assert(layout::le4(low, 4 * i) == layout::le4(before, 4 * i));
            }
        }
        let high = live::high_byte_first(values);
        let tail = wire::u32_bytes(values.last()).reverse();
        assert forall|i: int, k: int| 0 <= i < values.len() && 0 <= k < 4 implies high[4 * i + k]
            == #[trigger] wire::u32_bytes(values[i])[3 - k] by {
            if i < last {
                assert(front[i] == values[i]);
                assert(wire::u32_bytes(front[i])[3 - k] == live::high_byte_first(front)[4 * i + k]);
            } else {
                assert(high[4 * i + k] == tail[k]);
            }
        }
    }
}

/// Nothing is lost between packets: what is handed out and what is kept are
/// together all that came in. A frame is handed out just where three thousand
/// points have come together, and then with all of them.
pub proof fn frames_hold_all_that_came(kept: Seq<u32>, points: Seq<[u32; 3]>)
    ensures
        ({
            let (frame, rest) = live::after_packet(kept, points);
            &&& frame is Some <==> kept.len() + 3 * points.len() >= 9000
            &&& frame matches Some(all) ==> all == kept + live::coordinates(points) && rest.len()
                == 0
            &&& frame is None ==> rest == kept + live::coordinates(points)
        }),
{
    coordinates_stand_in_threes(points);
}

} // verus!
