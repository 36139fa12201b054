//! The octree of the point-cloud tokenizer.
//!
//! A box is split into octants a number of rounds in a row, which gives
//! `8^rounds` leaf segments. Every segment becomes a token of four values: the
//! fraction of points in it and their centroid. Octants are always taken in
//! this order:
//!
//! ```text
//! 0 left_down_back    1 right_down_back
//! 2 left_down_front   3 right_down_front
//! 4 left_up_back      5 right_up_back
//! 6 left_up_front     7 right_up_front
//! ```
//!
//! From the second round on, each octant is replaced in place by its eight
//! children, in the same order. A point's way down the tree is the list of
//! octants that it falls into, from the whole box on, and its segment is that
//! list read as a number in base eight.
//!
//! Which side of a plane a point lies on, and what the values of a token are,
//! is computed by the caller.

use vstd::prelude::*;
use vstd::slice::slice_subrange;

use crate::text::{self, push_decimal};

verus! {

/// Minimum number of subdivision rounds.
pub const MIN_ROUNDS: u8 = 1;

/// Maximum number of subdivision rounds.
pub const MAX_ROUNDS: u8 = 5;

/// Values per segment: fraction and centroid (x, y, z).
pub const FLOATS_PER_SEGMENT: usize = 4;

/// Why a cloud cannot be encoded.
#[derive(Debug, Clone, Copy, PartialEq, Eq, Structural)]
pub enum EncodeError {
    EmptyCloud,
    InvalidRounds(u8),
}

impl EncodeError {
    /// The message for the user.
    pub open spec fn text(self) -> Seq<char> {
        match self {
            EncodeError::EmptyCloud => "cannot encode an empty point cloud"@,
            EncodeError::InvalidRounds(rounds) => "rounds must be between 1 and 5, got "@
                + text::decimal(rounds as nat),
        }
    }

    /// The message for the user.
    pub fn message(&self) -> (s: String)
        ensures
            s@ == self.text(),
    {
        match self {
            EncodeError::EmptyCloud => "cannot encode an empty point cloud".to_owned(),
            EncodeError::InvalidRounds(rounds) => {
                let mut s = "rounds must be between 1 and 5, got ".to_owned();
                push_decimal(&mut s, *rounds as u64);
                s
            },
        }
    }
}

/// Whether a number of rounds is allowed.
pub open spec fn valid_rounds(rounds: u8) -> bool {
    MIN_ROUNDS <= rounds <= MAX_ROUNDS
}

/// What is refused before anything is computed.
pub open spec fn input_check(points: nat, rounds: u8) -> Result<(), EncodeError> {
    if points == 0 {
        Err(EncodeError::EmptyCloud)
    } else if !valid_rounds(rounds) {
        Err(EncodeError::InvalidRounds(rounds))
    } else {
        Ok(())
    }
}

/// Checks the size of a cloud and the number of rounds.
pub fn check_input(points: usize, rounds: u8) -> (r: Result<(), EncodeError>)
    ensures
        r == input_check(points as nat, rounds),
{
    if points == 0 {
        return Err(EncodeError::EmptyCloud);
    }
    if rounds < MIN_ROUNDS || rounds > MAX_ROUNDS {
        return Err(EncodeError::InvalidRounds(rounds));
    }
    Ok(())
}

/// Eight to the power of `n`.
pub open spec fn eight_to(n: nat) -> nat
    decreases n,
{
    if n == 0 {
        1
    } else {
        8 * eight_to((n - 1) as nat)
    }
}

proof fn lemma_eight_to()
    ensures
        eight_to(0) == 1,
        eight_to(1) == 8,
        eight_to(2) == 64,
        eight_to(3) == 512,
        eight_to(4) == 4096,
        eight_to(5) == 32768,
{
    reveal_with_fuel(eight_to, 6);
}

/// The number of leaf segments.
pub fn segment_count(rounds: u8) -> (n: usize)
    requires
        rounds <= MAX_ROUNDS,
    ensures
        n == eight_to(rounds as nat),
        1 <= n <= 32768,
{
    proof {
        lemma_eight_to();
    }
    match rounds {
        0 => 1,
        1 => 8,
        2 => 64,
        3 => 512,
        4 => 4096,
        _ => 32768,
    }
}

/// The number of values in an encoding of so many rounds.
pub open spec fn values(rounds: nat) -> nat {
    4 * eight_to(rounds)
}

/// The number of values in an encoding.
pub fn token_count(rounds: u8) -> (n: usize)
    requires
        rounds <= MAX_ROUNDS,
    ensures
        n == 4 * eight_to(rounds as nat),
        n == values(rounds as nat),
{
    FLOATS_PER_SEGMENT * segment_count(rounds)
}

/// The octant on the given sides of the three middle planes.
pub open spec fn octant(right: bool, up: bool, front: bool) -> int {
    (if right {
        1int
    } else {
        0
    }) + (if front {
        2int
    } else {
        0
    }) + (if up {
        4int
    } else {
        0
    })
}

/// The octant of a point, given on which side of the middle planes it lies. A
/// point on a plane counts as right, up or front.
pub fn octant_index(right: bool, up: bool, front: bool) -> (index: usize)
    ensures
        index == octant(right, up, front),
        index < 8,
{
    let mut index: usize = 0;
    if right {
        index = index + 1;
    }
    if up {
        index = index + 4;
    }
    if front {
        index = index + 2;
    }
    index
}

/// Whether an octant lies on the right.
pub open spec fn is_right(index: int) -> bool {
    index % 2 == 1
}

/// Whether an octant lies up.
pub open spec fn is_up(index: int) -> bool {
    index / 4 % 2 == 1
}

/// Whether an octant lies in front.
pub open spec fn is_front(index: int) -> bool {
    index / 2 % 2 == 1
}

/// Every octant is that of its sides, and has the sides that it was made of.
pub proof fn octants_and_sides(index: int, right: bool, up: bool, front: bool)
    requires
        0 <= index < 8,
    ensures
        octant(is_right(index), is_up(index), is_front(index)) == index,
        is_right(octant(right, up, front)) == right,
        is_up(octant(right, up, front)) == up,
        is_front(octant(right, up, front)) == front,
{
}

/// The smallest corner of the child octant `index`.
pub open spec fn child_min<T>(min: Seq<T>, mid: Seq<T>, index: int) -> Seq<T> {
    seq![
        if is_right(index) {
            mid[0]
        } else {
            min[0]
        },
        if is_up(index) {
            mid[1]
        } else {
            min[1]
        },
        if is_front(index) {
            mid[2]
        } else {
            min[2]
        },
    ]
}

/// The largest corner of the child octant `index`.
pub open spec fn child_max<T>(mid: Seq<T>, max: Seq<T>, index: int) -> Seq<T> {
    seq![
        if is_right(index) {
            max[0]
        } else {
            mid[0]
        },
        if is_up(index) {
            max[1]
        } else {
            mid[1]
        },
        if is_front(index) {
            max[2]
        } else {
            mid[2]
        },
    ]
}

/// Bounds of the child octant `index` of the box from `min` to `max` that is
/// split at `mid`, as its own minimum and maximum.
pub fn child_bounds<T: Copy>(min: [T; 3], mid: [T; 3], max: [T; 3], index: usize) -> (r: (
    [T; 3],
    [T; 3],
))
    ensures
        r.0@ == seq![
            if is_right(index as int) {
                mid@[0]
            } else {
                min@[0]
            },
            if is_up(index as int) {
                mid@[1]
            } else {
                min@[1]
            },
            if is_front(index as int) {
                mid@[2]
            } else {
                min@[2]
            },
        ],
        r.1@ == seq![
            if is_right(index as int) {
                max@[0]
            } else {
                mid@[0]
            },
            if is_up(index as int) {
                max@[1]
            } else {
                mid@[1]
            },
            if is_front(index as int) {
                max@[2]
            } else {
                mid@[2]
            },
        ],
        r.0@ == child_min(min@, mid@, index as int),
        r.1@ == child_max(mid@, max@, index as int),
{
    let right: bool = index % 2 == 1;
    let up: bool = index / 4 % 2 == 1;
    let front: bool = index / 2 % 2 == 1;
    let child_min: [T; 3] = [
        if right {
            mid[0]
        } else {
            min[0]
        },
        if up {
            mid[1]
        } else {
            min[1]
        },
        if front {
            mid[2]
        } else {
            min[2]
        },
    ];
    let child_max: [T; 3] = [
        if right {
            max[0]
        } else {
            mid[0]
        },
        if up {
            max[1]
        } else {
            mid[1]
        },
        if front {
            max[2]
        } else {
            mid[2]
        },
    ];
    (child_min, child_max)
}

/// Whether a way down the tree names octants only.
pub open spec fn valid_path(path: Seq<usize>) -> bool {
    forall|i: int| 0 <= i < path.len() ==> #[trigger] path[i] < 8
}

/// The segment at the end of a way down the tree.
pub open spec fn segment_of(path: Seq<usize>) -> nat
    decreases path.len(),
{
    if path.len() == 0 {
        0
    } else {
        segment_of(path.drop_last()) * 8 + path.last() as nat
    }
}

/// The way down the tree to a segment.
pub open spec fn path_to(segment: nat, rounds: nat) -> Seq<usize>
    decreases rounds,
{
    if rounds == 0 {
        Seq::empty()
    } else {
        path_to(segment / 8, (rounds - 1) as nat).push((segment % 8) as usize)
    }
}

proof fn lemma_segment_bound(path: Seq<usize>)
    requires
        valid_path(path),
    ensures
        segment_of(path) < eight_to(path.len()),
    decreases path.len(),
{
    if path.len() > 0 {
        let front = path.drop_last();
        assert forall|i: int| 0 <= i < front.len() implies #[trigger] front[i] < 8 by {
            assert(front[i] == path[i]);
        }
        lemma_segment_bound(front);
        assert(path[path.len() - 1] < 8);
    }
}

/// Ways down the tree and segments are the same thing: each way leads to one
/// segment, and to each segment leads one way.
pub proof fn paths_and_segments(path: Seq<usize>, segment: nat, rounds: nat)
    ensures
        valid_path(path) ==> segment_of(path) < eight_to(path.len()) && path_to(
            segment_of(path),
            path.len(),
        ) == path,
        segment < eight_to(rounds) ==> valid_path(path_to(segment, rounds)) && path_to(
            segment,
            rounds,
        ).len() == rounds && segment_of(path_to(segment, rounds)) == segment,
{
    if valid_path(path) {
        lemma_segment_bound(path);
        lemma_path_round_trip(path);
    }
    if segment < eight_to(rounds) {
        lemma_segment_round_trip(segment, rounds);
    }
}

proof fn lemma_path_round_trip(path: Seq<usize>)
    requires
        valid_path(path),
    ensures
        path_to(segment_of(path), path.len()) == path,
    decreases path.len(),
{
    if path.len() > 0 {
        let front = path.drop_last();
        assert forall|i: int| 0 <= i < front.len() implies #[trigger] front[i] < 8 by {
            assert(front[i] == path[i]);
        }
        lemma_path_round_trip(front);
        assert(path[path.len() - 1] < 8);
        let n = segment_of(path);
        assert(n / 8 == segment_of(front) && n % 8 == path.last());
        assert(front.push(path.last()) == path);
    } else {
        assert(path == Seq::<usize>::empty());
    }
}

proof fn lemma_segment_round_trip(segment: nat, rounds: nat)
    requires
        segment < eight_to(rounds),
    ensures
        valid_path(path_to(segment, rounds)),
        path_to(segment, rounds).len() == rounds,
        segment_of(path_to(segment, rounds)) == segment,
    decreases rounds,
{
    if rounds > 0 {
        let front = path_to(segment / 8, (rounds - 1) as nat);
        lemma_segment_round_trip(segment / 8, (rounds - 1) as nat);
        let path = path_to(segment, rounds);
        assert(path.drop_last() == front);
        assert forall|i: int| 0 <= i < path.len() implies #[trigger] path[i] < 8 by {
            if i < front.len() {
                assert(path[i] == front[i]);
            }
        }
    }
}

/// The children of an octant take its place: below the first octant `o`, the
/// segments are those of the remaining rounds, shifted by `o` times their
/// number.
pub proof fn children_take_the_parents_place(o: usize, rest: Seq<usize>)
    ensures
        segment_of(seq![o] + rest) == o * eight_to(rest.len()) + segment_of(rest),
    decreases rest.len(),
{
    let path = seq![o] + rest;
    if rest.len() == 0 {
        assert(path.drop_last() == Seq::<usize>::empty());
        assert(segment_of(path.drop_last()) == 0);
        assert(path.last() == o);
        assert(eight_to(rest.len()) == 1);
        assert(o * 1 == o);
    } else {
        children_take_the_parents_place(o, rest.drop_last());
        assert(path.drop_last() == seq![o] + rest.drop_last());
        assert(path.last() == rest.last());
        let e = eight_to((rest.len() - 1) as nat);
        assert(eight_to(rest.len()) == 8 * e);
        assert((o * e) * 8 == o * (8 * e)) by (nonlinear_arith);
        assert((o * e + segment_of(rest.drop_last())) * 8 == (o * e) * 8 + segment_of(
            rest.drop_last(),
        ) * 8);
    }
}

/// The segment at the end of a way down the tree.
pub fn segment_index(path: &[usize]) -> (segment: usize)
    requires
        valid_path(path@),
        path@.len() <= MAX_ROUNDS,
    ensures
        segment == segment_of(path@),
        segment < eight_to(path@.len()),
{
    let n: usize = path.len();
    let mut segment: usize = 0;
    let mut i: usize = 0;
    proof {
        lemma_eight_to();
    }
    while i < n
        invariant
            i <= n == path@.len(),
            n <= MAX_ROUNDS,
            valid_path(path@),
            segment == segment_of(path@.subrange(0, i as int)),
            segment < eight_to(i as nat),
            eight_to(i as nat) <= 32768,
        decreases n - i,
    {
        proof {
            let next = path@.subrange(0, i + 1);
            assert(next.drop_last() == path@.subrange(0, i as int));
            assert(path@[i as int] < 8);
            lemma_eight_to();
        }
        segment = segment * 8 + path[i];
        i = i + 1;
    }
    assert(path@.subrange(0, n as int) == path@);
    segment
}

/// The way down the tree to a segment.
pub fn segment_path(segment: usize, rounds: u8) -> (path: Vec<usize>)
    ensures
        path@ == path_to(segment as nat, rounds as nat),
    decreases rounds,
{
    if rounds == 0 {
        Vec::new()
    } else {
        let mut path = segment_path(segment / 8, rounds - 1);
        path.push(segment % 8);
        path
    }
}

/// The points of a segment, in their order, among the first `n`.
pub open spec fn members(segments: Seq<usize>, n: nat, segment: int) -> Seq<usize>
    decreases n,
{
    if n == 0 {
        Seq::empty()
    } else {
        let before = members(segments, (n - 1) as nat, segment);
        if segments[n - 1] == segment {
            before.push((n - 1) as usize)
        } else {
            before
        }
    }
}

/// The contents of a list of groups.
pub open spec fn groups_of(groups: Seq<Vec<usize>>) -> Seq<Seq<usize>> {
    groups.map_values(|g: Vec<usize>| g@)
}

/// Sorts points into segments: for each segment the indices of its points, in
/// their order.
pub fn group_by_segment(segments: &[usize], rounds: u8) -> (groups: Vec<Vec<usize>>)
    requires
        rounds <= MAX_ROUNDS,
        forall|i: int| 0 <= i < segments@.len() ==> #[trigger] segments@[i] < eight_to(rounds as nat),
    ensures
        groups_of(groups@) == Seq::new(
            eight_to(rounds as nat),
            |s: int| members(segments@, segments@.len(), s),
        ),
{
    let count: usize = segment_count(rounds);
    let mut groups: Vec<Vec<usize>> = Vec::new();
    let mut s: usize = 0;
    while s < count
        invariant
            s <= count,
            groups_of(groups@) == Seq::new(s as nat, |k: int| Seq::<usize>::empty()),
        decreases count - s,
    {
        let ghost before = groups@;
        groups.push(Vec::new());
        assert(groups_of(groups@) == groups_of(before).push(Seq::<usize>::empty()));
        s = s + 1;
    }
    let n: usize = segments.len();
    let mut i: usize = 0;
    assert(groups_of(groups@) == Seq::new(count as nat, |k: int| members(segments@, 0, k)));
    while i < n
        invariant
            i <= n == segments@.len(),
            count == eight_to(rounds as nat),
            forall|k: int| 0 <= k < segments@.len() ==> #[trigger] segments@[k] < count,
            groups_of(groups@) == Seq::new(
                count as nat,
                |k: int| members(segments@, i as nat, k),
            ),
        decreases n - i,
    {
        let target: usize = segments[i];
        let ghost before = groups@;
        let ghost seen = groups_of(groups@);
        assert(segments@[i as int] < count);
        assert(groups@.len() == seen.len());
        groups[target].push(i);
        proof {
            let now = groups_of(groups@);
            assert forall|k: int| 0 <= k < count implies now[k] == members(
                segments@,
                (i + 1) as nat,
                k,
            ) by {
                assert(seen[k] == before[k]@);
                assert(seen[k] == members(segments@, i as nat, k));
            }
            assert(now == Seq::new(count as nat, |k: int| members(segments@, (i + 1) as nat, k)));
        }
        i = i + 1;
    }
    groups
}

/// Every point lies in the segment that it was sorted into and in no other, and
/// its segment lists it once.
pub proof fn each_point_is_in_one_segment(segments: Seq<usize>, n: nat, segment: int, i: usize)
    requires
        n <= segments.len() <= usize::MAX,
    ensures
        members(segments, n, segment).contains(i) <==> i < n && segments[i as int] == segment,
        members(segments, n, segment).no_duplicates(),
        forall|k: int|
            0 <= k < members(segments, n, segment).len() ==> #[trigger] members(
                segments,
                n,
                segment,
            )[k] < n,
    decreases n,
{
    if n > 0 {
        let m = (n - 1) as nat;
        let before = members(segments, m, segment);
        let now = members(segments, n, segment);
        each_point_is_in_one_segment(segments, m, segment, i);
        if segments[m as int] == segment {
            assert(now[before.len() as int] == m);
            if i == m {
                assert(now.contains(i));
            } else if before.contains(i) {
                let k = choose|k: int| 0 <= k < before.len() && before[k] == i;
                assert(now[k] == i);
            } else {
                assert(!now.contains(i)) by {
                    if now.contains(i) {
                        let k = choose|k: int| 0 <= k < now.len() && now[k] == i;
                        if k < before.len() {
                            assert(before[k] == i);
                        }
                    }
                }
            }
        }
    }
}

/// How many of the first `n` points lie in the first `count` segments.
pub open spec fn total_members(segments: Seq<usize>, n: nat, count: nat) -> nat
    decreases count,
{
    if count == 0 {
        0
    } else {
        total_members(segments, n, (count - 1) as nat) + members(segments, n, count - 1).len()
    }
}

/// The segments together hold every point: their sizes add up to the size of
/// the cloud, so their fractions add up to one.
pub proof fn segments_hold_the_cloud(segments: Seq<usize>, n: nat, count: nat)
    requires
        n <= segments.len(),
        forall|i: int| 0 <= i < segments.len() ==> #[trigger] segments[i] < count,
    ensures
        total_members(segments, n, count) == n,
    decreases n,
{
    if n == 0 {
        lemma_total_of_none(segments, count);
    } else {
        let m = (n - 1) as nat;
        segments_hold_the_cloud(segments, m, count);
        assert(segments[m as int] < count);
        lemma_total_grows(segments, n, count);
    }
}

proof fn lemma_total_of_none(segments: Seq<usize>, count: nat)
    ensures
        total_members(segments, 0, count) == 0,
    decreases count,
{
    if count > 0 {
        lemma_total_of_none(segments, (count - 1) as nat);
    }
}

proof fn lemma_total_grows(segments: Seq<usize>, n: nat, count: nat)
    requires
        0 < n <= segments.len(),
    ensures
        total_members(segments, n, count) == total_members(segments, (n - 1) as nat, count) + (if (
        segments[n - 1] as nat) < count {
            1nat
        } else {
            0
        }),
    decreases count,
{
    if count > 0 {
        lemma_total_grows(segments, n, (count - 1) as nat);
    }
}

/// How many of the first `n` points lie in the first `count` children of a
/// segment.
pub open spec fn children_members(segments: Seq<usize>, n: nat, parent: int, count: nat) -> nat
    decreases count,
{
    if count == 0 {
        0
    } else {
        children_members(segments, n, parent, (count - 1) as nat) + members(
            segments,
            n,
            8 * parent + count - 1,
        ).len()
    }
}

/// One more octant at the end of a way down the tree leads to a child of the
/// segment that the way led to.
pub proof fn one_more_round_leads_to_a_child(path: Seq<usize>, o: usize)
    requires
        o < 8,
    ensures
        segment_of(path.push(o)) == 8 * segment_of(path) + o,
        segment_of(path.push(o)) / 8 == segment_of(path),
{
    assert(path.push(o).drop_last() == path);
}

/// One more round splits each segment among its eight children: where every
/// point of `fine` lies in a child of its segment in `coarse`, a segment has as
/// many points as its children have together.
pub proof fn children_share_the_points(coarse: Seq<usize>, fine: Seq<usize>, n: nat, parent: int)
    requires
        n <= coarse.len(),
        n <= fine.len(),
        forall|k: int| 0 <= k < n ==> #[trigger] fine[k] / 8 == coarse[k],
    ensures
        members(coarse, n, parent).len() == children_members(fine, n, parent, 8),
    decreases n,
{
    if n == 0 {
        lemma_children_of_none(fine, parent, 8);
    } else {
        let m = (n - 1) as nat;
        children_share_the_points(coarse, fine, m, parent);
        lemma_children_grow(fine, n, parent, 8);
        assert(fine[m as int] / 8 == coarse[m as int]);
    }
}

/// The contents of a list of ways down the tree.
pub open spec fn paths_of(paths: Seq<Vec<usize>>) -> Seq<Seq<usize>> {
    paths.map_values(|p: Vec<usize>| p@)
}

/// Whether all ways go down at least the given number of rounds.
pub open spec fn reach(paths: Seq<Seq<usize>>, rounds: nat) -> bool {
    forall|k: int|
        0 <= k < paths.len() ==> valid_path(#[trigger] paths[k]) && paths[k].len() >= rounds
}

/// The segments that the ways of the points lead to in the given number of
/// rounds.
pub open spec fn segments_at(paths: Seq<Seq<usize>>, rounds: nat) -> Seq<usize> {
    Seq::new(paths.len(), |k: int| segment_of(paths[k].subrange(0, rounds as int)) as usize)
}

pub proof fn lemma_segment_at(path: Seq<usize>, rounds: nat)
    requires
        valid_path(path),
        rounds <= path.len(),
        rounds <= MAX_ROUNDS,
    ensures
        valid_path(path.subrange(0, rounds as int)),
        segment_of(path.subrange(0, rounds as int)) < eight_to(rounds) <= 32768,
{
    let front = path.subrange(0, rounds as int);
    assert forall|i: int| 0 <= i < front.len() implies #[trigger] front[i] < 8 by {
        assert(front[i] == path[i]);
    }
    lemma_segment_bound(front);
    lemma_eight_to();
}

/// The segment of each point after the given number of rounds.
pub fn point_segments(paths: &[Vec<usize>], rounds: u8) -> (segments: Vec<usize>)
    requires
        rounds <= MAX_ROUNDS,
        reach(paths_of(paths@), rounds as nat),
    ensures
        segments@ == segments_at(paths_of(paths@), rounds as nat),
        forall|k: int|
            0 <= k < segments@.len() ==> #[trigger] segments@[k] < eight_to(rounds as nat),
{
    let n: usize = paths.len();
    let ghost all = paths_of(paths@);
    let mut segments: Vec<usize> = Vec::new();
    let mut k: usize = 0;
    while k < n
        invariant
            k <= n == paths@.len(),
            all == paths_of(paths@),
            rounds <= MAX_ROUNDS,
            reach(all, rounds as nat),
            segments@ == segments_at(all, rounds as nat).subrange(0, k as int),
            forall|i: int| 0 <= i < k ==> #[trigger] segments@[i] < eight_to(rounds as nat),
        decreases n - k,
    {
        assert(all[k as int] == paths@[k as int]@);
        proof {
            lemma_segment_at(all[k as int], rounds as nat);
        }
        segments.push(segment_index(slice_subrange(paths[k].as_slice(), 0, rounds as usize)));
        k = k + 1;
    }
    segments
}

/// The leaves form an ordered tree: one more round replaces each segment in
/// place by its eight children, which together have exactly its points. In both
/// rounds the segments hold the whole cloud, so a segment's fraction of it is the
/// sum of its children's fractions.
pub proof fn each_round_splits_the_segments(paths: Seq<Seq<usize>>, rounds: nat, parent: int)
    requires
        rounds < MAX_ROUNDS,
        reach(paths, rounds + 1),
    ensures
        ({
            let n = paths.len();
            let coarse = segments_at(paths, rounds);
            let fine = segments_at(paths, rounds + 1);
            &&& members(coarse, n, parent).len() == children_members(fine, n, parent, 8)
            &&& total_members(coarse, n, eight_to(rounds)) == n
            &&& total_members(fine, n, eight_to(rounds + 1)) == n
        }),
{
    let n = paths.len();
    let coarse = segments_at(paths, rounds);
    let fine = segments_at(paths, rounds + 1);
    assert forall|k: int| 0 <= k < n implies #[trigger] fine[k] / 8 == coarse[k] && coarse[k]
        < eight_to(rounds) && fine[k] < eight_to(rounds + 1) by {
        let path = paths[k];
        let front = path.subrange(0, rounds as int);
        lemma_segment_at(path, rounds);
        lemma_segment_at(path, rounds + 1);
        one_more_round_leads_to_a_child(front, path[rounds as int]);
        assert(front.push(path[rounds as int]) == path.subrange(0, rounds + 1int));
    }
    assert forall|k: int| 0 <= k < n implies #[trigger] coarse[k] < eight_to(rounds) by {
        assert(fine[k] / 8 == coarse[k]);
    }
    children_share_the_points(coarse, fine, n, parent);
    segments_hold_the_cloud(coarse, n, eight_to(rounds));
    segments_hold_the_cloud(fine, n, eight_to(rounds + 1));
}

proof fn lemma_children_of_none(segments: Seq<usize>, parent: int, count: nat)
    ensures
        children_members(segments, 0, parent, count) == 0,
    decreases count,
{
    if count > 0 {
        lemma_children_of_none(segments, parent, (count - 1) as nat);
    }
}

proof fn lemma_children_grow(segments: Seq<usize>, n: nat, parent: int, count: nat)
    requires
        0 < n <= segments.len(),
    ensures
        children_members(segments, n, parent, count) == children_members(
            segments,
            (n - 1) as nat,
            parent,
            count,
        ) + (if 8 * parent <= segments[n - 1] < 8 * parent + count {
            1nat
        } else {
            0
        }),
    decreases count,
{
    if count > 0 {
        lemma_children_grow(segments, n, parent, (count - 1) as nat);
    }
}

/// The tokens of all segments one behind the other.
pub open spec fn flattened<T>(tokens: Seq<[T; 4]>) -> Seq<T> {
    Seq::new(4 * tokens.len(), |j: int| tokens[j / 4]@[j % 4])
}

/// Puts the tokens of all segments one behind the other.
pub fn flatten_tokens<T: Copy>(tokens: &[[T; 4]]) -> (out: Vec<T>)
    requires
        4 * tokens@.len() <= usize::MAX,
    ensures
        out@.len() == 4 * tokens@.len(),
        forall|i: int, k: int|
            0 <= i < tokens@.len() && 0 <= k < 4 ==> out@[4 * i + k] == #[trigger] tokens@[i]@[k],
        out@ == flattened(tokens@),
{
    let n: usize = tokens.len();
    let mut out: Vec<T> = Vec::new();
    let mut i: usize = 0;
    while i < n
        invariant
            i <= n == tokens@.len(),
            out@.len() == 4 * i,
            forall|j: int, k: int|
                0 <= j < i && 0 <= k < 4 ==> out@[4 * j + k] == #[trigger] tokens@[j]@[k],
        decreases n - i,
    {
        let token: [T; 4] = tokens[i];
        out.push(token[0]);
        out.push(token[1]);
        out.push(token[2]);
        out.push(token[3]);
        i = i + 1;
    }
    proof {
        assert forall|j: int| 0 <= j < out@.len() implies out@[j] == flattened(tokens@)[j] by {
            assert(j == 4 * (j / 4) + j % 4);
            assert(out@[4 * (j / 4) + j % 4] == tokens@[j / 4]@[j % 4]);
        }
        assert(out@ =~= flattened(tokens@));
    }
    out
}

} // verus!
