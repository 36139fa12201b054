//! How boxes are split, and where points go.

use vstd::prelude::*;

use crate::encode::{self, EncodeError};
use crate::text;

verus! {

/// A cloud is encoded where it has points and one to five rounds are asked for.
/// Where both are wrong, the missing points are what is told.
pub proof fn clouds_with_points_are_encoded(points: nat, rounds: u8)
    ensures
        encode::input_check(points, rounds) is Ok <==> points > 0 && 1 <= rounds <= 5,
        points == 0 ==> encode::input_check(points, rounds) == Err::<(), EncodeError>(
            EncodeError::EmptyCloud,
        ),
        points > 0 && !(1 <= rounds <= 5) ==> encode::input_check(points, rounds) == Err::<
            (),
            EncodeError,
        >(EncodeError::InvalidRounds(rounds)),
        (EncodeError::EmptyCloud).text() == "cannot encode an empty point cloud"@,
        (EncodeError::InvalidRounds(rounds)).text() == "rounds must be between 1 and 5, got "@
            + text::decimal(rounds as nat),
{
}

/// Each round multiplies the number of segments by eight.
pub proof fn rounds_multiply_by_eight(a: nat, b: nat)
    ensures
        encode::eight_to(0) == 1,
        encode::eight_to(1) == 8,
        encode::eight_to(a + b) == encode::eight_to(a) * encode::eight_to(b),
    decreases b,
{
    assert(encode::eight_to(1) == 8 * encode::eight_to(0));
    if b > 0 {
        rounds_multiply_by_eight(a, (b - 1) as nat);
        let x = encode::eight_to(a);
        let y = encode::eight_to((b - 1) as nat);
        assert(encode::eight_to(a + b) == 8 * (x * y));
        assert(8 * (x * y) == x * (8 * y)) by (nonlinear_arith);
    } else {
        assert(encode::eight_to(a) * 1 == encode::eight_to(a));
    }
}

/// The order of the octants: right and left alternate, then back and front, then
/// down and up.
pub proof fn octants_are_numbered()
    ensures
        encode::octant(false, false, false) == 0,
        encode::octant(true, false, false) == 1,
        encode::octant(false, false, true) == 2,
        encode::octant(true, false, true) == 3,
        encode::octant(false, true, false) == 4,
        encode::octant(true, true, false) == 5,
        encode::octant(false, true, true) == 6,
        encode::octant(true, true, true) == 7,
{
}

/// The box of an octant is, along each axis, the lower or the upper half: right
/// is the upper half of x, up that of y, front that of z.
pub proof fn octants_are_halves<T>(
    min: Seq<T>,
    mid: Seq<T>,
    max: Seq<T>,
    right: bool,
    up: bool,
    front: bool,
)
    ensures
        ({
            let o = encode::octant(right, up, front);
            let low = encode::child_min(min, mid, o);
            let high = encode::child_max(mid, max, o);
            &&& low.len() == 3 && high.len() == 3
            &&& right ==> low[0] == mid[0] && high[0] == max[0]
            &&& !right ==> low[0] == min[0] && high[0] == mid[0]
            &&& up ==> low[1] == mid[1] && high[1] == max[1]
            &&& !up ==> low[1] == min[1] && high[1] == mid[1]
            &&& front ==> low[2] == mid[2] && high[2] == max[2]
            &&& !front ==> low[2] == min[2] && high[2] == mid[2]
        }),
{
    encode::octants_and_sides(0, right, up, front);
}

/// Whether a point lies in a box.
pub open spec fn inside(p: Seq<int>, min: Seq<int>, max: Seq<int>) -> bool {
    forall|a: int| 0 <= a < 3 ==> min[a] <= #[trigger] p[a] <= max[a]
}

/// A point of a box lies in the child box of its octant. A point that is not on
/// a middle plane lies in no other child.
pub proof fn points_lie_in_their_octant(
    p: Seq<int>,
    min: Seq<int>,
    mid: Seq<int>,
    max: Seq<int>,
    other: int,
)
    requires
        p.len() == 3,
        inside(p, min, max),
        0 <= other < 8,
    ensures
        ({
            let o = encode::octant(p[0] >= mid[0], p[1] >= mid[1], p[2] >= mid[2]);
            &&& inside(p, encode::child_min(min, mid, o), encode::child_max(mid, max, o))
            &&& p[0] != mid[0] && p[1] != mid[1] && p[2] != mid[2] && inside(
                p,
                encode::child_min(min, mid, other),
                encode::child_max(mid, max, other),
            ) ==> other == o
        }),
{
    let right = p[0] >= mid[0];
    let up = p[1] >= mid[1];
    let front = p[2] >= mid[2];
    let o = encode::octant(right, up, front);
    octants_are_halves(min, mid, max, right, up, front);
    let low = encode::child_min(min, mid, o);
    let high = encode::child_max(mid, max, o);
    assert(min[0] <= p[0] <= max[0] && min[1] <= p[1] <= max[1] && min[2] <= p[2] <= max[2]);
    assert forall|a: int| 0 <= a < 3 implies low[a] <= #[trigger] p[a] <= high[a] by {
        assert(a == 0 || a == 1 || a == 2);
    }
    let r = encode::is_right(other);
    let u = encode::is_up(other);
    let f = encode::is_front(other);
    encode::octants_and_sides(other, r, u, f);
    octants_are_halves(min, mid, max, r, u, f);
    let l = encode::child_min(min, mid, other);
    let h = encode::child_max(mid, max, other);
    if p[0] != mid[0] && p[1] != mid[1] && p[2] != mid[2] && inside(p, l, h) {
        assert(l[0] <= p[0] <= h[0] && l[1] <= p[1] <= h[1] && l[2] <= p[2] <= h[2]);
    }
}

/// The points of a segment stand in the order of the cloud.
pub proof fn segments_keep_the_order(segments: Seq<usize>, n: nat, segment: int)
    requires
        n <= segments.len() <= usize::MAX,
    ensures
        forall|i: int, j: int|
            0 <= i < j < encode::members(segments, n, segment).len() ==> #[trigger] encode::members(
                segments,
                n,
                segment,
            )[i] < #[trigger] encode::members(segments, n, segment)[j],
    decreases n,
{
    if n > 0 {
        let m = (n - 1) as nat;
        let before = encode::members(segments, m, segment);
        let now = encode::members(segments, n, segment);
        segments_keep_the_order(segments, m, segment);
        encode::each_point_is_in_one_segment(segments, m, segment, 0);
        assert forall|i: int, j: int| 0 <= i < j < now.len() implies #[trigger] now[i]
            < #[trigger] now[j] by {
            assert(now[i] == before[i]);
            if j < before.len() {
                assert(now[j] == before[j]);
            }
        }
    }
}

/// The segment of a point is the number that the first octants of its way are in
/// base eight: the way down to it is the start of the point's way.
pub proof fn points_go_down_their_way(paths: Seq<Seq<usize>>, rounds: nat, k: int)
    requires
        rounds <= 5,
        encode::reach(paths, rounds),
        0 <= k < paths.len(),
    ensures
        encode::segments_at(paths, rounds).len() == paths.len(),
        encode::segments_at(paths, rounds)[k] < encode::eight_to(rounds),
        encode::path_to(encode::segments_at(paths, rounds)[k] as nat, rounds)
            == paths[k].subrange(0, rounds as int),
{
    let front = paths[k].subrange(0, rounds as int);
    encode::lemma_segment_at(paths[k], rounds);
    encode::paths_and_segments(front, 0, 0);
}

/// The last octant of a way is the remainder by eight, and the rest of the way
/// leads to the quotient.
pub proof fn ways_are_read_in_base_eight(path: Seq<usize>, segment: nat, rounds: nat)
    requires
        encode::valid_path(path),
        path.len() > 0,
        rounds > 0,
    ensures
        encode::segment_of(Seq::empty()) == 0,
        encode::segment_of(path) % 8 == path.last(),
        encode::segment_of(path) / 8 == encode::segment_of(path.drop_last()),
        encode::path_to(segment, rounds).last() == segment % 8,
        encode::path_to(segment, rounds).drop_last() == encode::path_to(
            segment / 8,
            (rounds - 1) as nat,
        ),
{
    assert(path[path.len() - 1] < 8);
    let front = encode::path_to(segment / 8, (rounds - 1) as nat);
    assert(front.push((segment % 8) as usize).drop_last() == front);
}

/// The values of each token stand in their order, four to a token.
pub proof fn tokens_stand_in_fours<T>(tokens: Seq<[T; 4]>, i: int, k: int)
    requires
        0 <= i < tokens.len(),
        0 <= k < 4,
    ensures
        encode::flattened(tokens).len() == 4 * tokens.len(),
        encode::flattened(tokens)[4 * i + k] == tokens[i]@[k],
{
    assert((4 * i + k) / 4 == i);
    assert((4 * i + k) % 4 == k);
}

} // verus!
