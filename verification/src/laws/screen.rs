//! What keys do, and which pixels are drawn.

use vstd::prelude::*;

use crate::viewer::{self, KeyAction};

verus! {

/// Which key asks for what. Four keys work in a replay only, and no other key
/// asks for anything.
pub proof fn keys_ask_for_actions(key: char, replaying: bool)
    ensures
        viewer::action_of(key, replaying) == KeyAction::Benchmark <==> key == 'B',
        viewer::action_of(key, replaying) == KeyAction::ToggleSaving <==> key == 'E',
        viewer::action_of(key, replaying) == KeyAction::ClearCloud <==> key == 'C',
        viewer::action_of(key, replaying) == KeyAction::TogglePlay <==> key == ' ' && replaying,
        viewer::action_of(key, replaying) == KeyAction::Restart <==> key == 'R' && replaying,
        viewer::action_of(key, replaying) == KeyAction::Slower <==> key == 'Z' && replaying,
        viewer::action_of(key, replaying) == KeyAction::Faster <==> key == 'X' && replaying,
{
}

/// The actions of some keys that wait until what works at any time is done.
pub open spec fn in_replay(keys: Seq<char>) -> Seq<KeyAction> {
    let all = viewer::actions_of(keys, true);
    all.subrange(viewer::actions_of(keys, false).len() as int, all.len() as int)
}

/// One key asks for its action, if for any.
pub proof fn one_key_is_one_action(key: char, replaying: bool)
    ensures
        viewer::actions_of(seq![key], replaying) == (if viewer::action_of(key, replaying)
            == KeyAction::Ignore {
            Seq::<KeyAction>::empty()
        } else {
            seq![viewer::action_of(key, replaying)]
        }),
        viewer::actions_of(Seq::empty(), replaying).len() == 0,
{
    reveal(Seq::filter);
    let all = seq![key].map_values(|k: char| viewer::action_of(k, replaying));
    assert(all.drop_last() == Seq::<KeyAction>::empty());
    let always = |a: KeyAction| viewer::works_always(a);
    let later = |a: KeyAction| viewer::works_in_replay(a);
    assert(Seq::<KeyAction>::empty().filter(always) == Seq::<KeyAction>::empty());
    assert(Seq::<KeyAction>::empty().filter(later) == Seq::<KeyAction>::empty());
    assert(all.last() == viewer::action_of(key, replaying));
    let none = Seq::<char>::empty().map_values(|k: char| viewer::action_of(k, replaying));
    assert(none == Seq::<KeyAction>::empty());
}

/// What works at any time is done first, in the order of the keys, whether or
/// not there is a replay; then what works in a replay, in the order of the keys.
pub proof fn keys_act_in_two_rounds(a: Seq<char>, b: Seq<char>)
    ensures
        viewer::actions_of(a + b, false) == viewer::actions_of(a, false) + viewer::actions_of(
            b,
            false,
        ),
        viewer::actions_of(a, true) == viewer::actions_of(a, false) + in_replay(a),
        viewer::actions_of(a + b, true) == viewer::actions_of(a, false) + viewer::actions_of(
            b,
            false,
        ) + in_replay(a) + in_replay(b),
        forall|i: int|
            0 <= i < viewer::actions_of(a, false).len() ==> {
                let x = #[trigger] viewer::actions_of(a, false)[i];
                x == KeyAction::Benchmark || x == KeyAction::ToggleSaving || x
                    == KeyAction::ClearCloud
            },
        forall|i: int|
            0 <= i < in_replay(a).len() ==> {
                let x = #[trigger] in_replay(a)[i];
                x == KeyAction::TogglePlay || x == KeyAction::Restart || x == KeyAction::Slower || x
                    == KeyAction::Faster
            },
{
    let always = |x: KeyAction| viewer::works_always(x);
    let later = |x: KeyAction| viewer::works_in_replay(x);
    let live = |k: char| viewer::action_of(k, false);
    let replay = |k: char| viewer::action_of(k, true);
    lemma_two_rounds(a);
    lemma_two_rounds(b);
    lemma_two_rounds(a + b);
    assert((a + b).map_values(live) == a.map_values(live) + b.map_values(live));
    assert((a + b).map_values(replay) == a.map_values(replay) + b.map_values(replay));
    Seq::filter_distributes_over_add(a.map_values(live), b.map_values(live), always);
    Seq::filter_distributes_over_add(a.map_values(replay), b.map_values(replay), later);
    let all = a.map_values(live);
    broadcast use vstd::seq_lib::group_filter_ensures;

    assert forall|i: int| 0 <= i < viewer::actions_of(a, false).len() implies {
        let x = #[trigger] viewer::actions_of(a, false)[i];
        x == KeyAction::Benchmark || x == KeyAction::ToggleSaving || x == KeyAction::ClearCloud
    } by {
        assert(always(all.filter(always)[i]));
    }
    let every = a.map_values(replay);
    assert forall|i: int| 0 <= i < in_replay(a).len() implies {
        let x = #[trigger] in_replay(a)[i];
        x == KeyAction::TogglePlay || x == KeyAction::Restart || x == KeyAction::Slower || x
            == KeyAction::Faster
    } by {
        assert(later(every.filter(later)[i]));
    }
}

proof fn lemma_two_rounds(keys: Seq<char>)
    ensures
        viewer::actions_of(keys, false) == keys.map_values(
            |k: char| viewer::action_of(k, false),
        ).filter(|x: KeyAction| viewer::works_always(x)),
        viewer::actions_of(keys, true) == viewer::actions_of(keys, false) + in_replay(keys),
        in_replay(keys) == keys.map_values(|k: char| viewer::action_of(k, true)).filter(
            |x: KeyAction| viewer::works_in_replay(x),
        ),
    decreases keys.len(),
{
    reveal(Seq::filter);
    let always = |x: KeyAction| viewer::works_always(x);
    let later = |x: KeyAction| viewer::works_in_replay(x);
    let live = |k: char| viewer::action_of(k, false);
    let replay = |k: char| viewer::action_of(k, true);
    lemma_filters(keys);
    let first = keys.map_values(live).filter(always);
    let second = keys.map_values(replay).filter(later);
    assert(viewer::actions_of(keys, false) == first + keys.map_values(live).filter(later));
    assert(first + Seq::<KeyAction>::empty() == first);
    assert(viewer::actions_of(keys, true) == keys.map_values(replay).filter(always) + second);
    assert((first + second).subrange(first.len() as int, (first + second).len() as int) == second);
}

proof fn lemma_filters(keys: Seq<char>)
    ensures
        keys.map_values(|k: char| viewer::action_of(k, false)).filter(
            |x: KeyAction| viewer::works_in_replay(x),
        ) == Seq::<KeyAction>::empty(),
        keys.map_values(|k: char| viewer::action_of(k, false)).filter(
            |x: KeyAction| viewer::works_always(x),
        ) == keys.map_values(|k: char| viewer::action_of(k, true)).filter(
            |x: KeyAction| viewer::works_always(x),
        ),
    decreases keys.len(),
{
    reveal(Seq::filter);
    let live = |k: char| viewer::action_of(k, false);
    let replay = |k: char| viewer::action_of(k, true);
    if keys.len() > 0 {
        let front = keys.drop_last();
        lemma_filters(front);
        assert(keys.map_values(live).drop_last() == front.map_values(live));
        assert(keys.map_values(replay).drop_last() == front.map_values(replay));
        assert(keys.map_values(live).last() == viewer::action_of(keys.last(), false));
        assert(keys.map_values(replay).last() == viewer::action_of(keys.last(), true));
    } else {
        assert(keys.map_values(live) == Seq::<KeyAction>::empty());
        assert(keys.map_values(replay) == Seq::<KeyAction>::empty());
    }
}

/// The window is 1024 by 768 pixels, and a visible pixel's place in the buffer
/// gives its column and row back.
pub proof fn places_give_pixels_back(x: int, y: int)
    ensures
        viewer::visible(x, y) <==> 0 <= x < 1024 && 0 <= y < 768,
        viewer::visible(x, y) ==> 0 <= viewer::pixel_index(x, y) < 1024 * 768
            && viewer::pixel_index(x, y) % 1024 == x && viewer::pixel_index(x, y) / 1024 == y,
{
}

/// How far apart two pixels are, going along rows and columns.
pub open spec fn apart(x0: int, y0: int, x1: int, y1: int) -> int {
    (if x0 <= x1 {
        x1 - x0
    } else {
        x0 - x1
    }) + (if y0 <= y1 {
        y1 - y0
    } else {
        y0 - y1
    })
}

/// A cross is the pixels of the window that are at most one step from its
/// middle, each once.
pub proof fn a_cross_is_a_pixel_and_its_neighbours(x: int, y: int, px: int, py: int)
    requires
        viewer::visible(px, py),
    ensures
        viewer::cross(x, y).contains((1024 * py + px) as usize) <==> apart(x, y, px, py) <= 1,
        viewer::cross(x, y).no_duplicates(),
        viewer::visible(x, y) ==> viewer::cross(x, y)[0] == 1024 * y + x,
        viewer::cross(x, y).len() <= 5,
{
    let a = viewer::pixel(x, y);
    let b = viewer::pixel(x + 1, y);
    let c = viewer::pixel(x - 1, y);
    let d = viewer::pixel(x, y + 1);
    let e = viewer::pixel(x, y - 1);
    let place = (1024 * py + px) as usize;
    let all = viewer::cross(x, y);
    assert(all == a + b + c + d + e);
    lemma_pixel(x, y, px, py);
    lemma_pixel(x + 1, y, px, py);
    lemma_pixel(x - 1, y, px, py);
    lemma_pixel(x, y + 1, px, py);
    lemma_pixel(x, y - 1, px, py);
    lemma_contains_of_parts(a, b, place);
    lemma_contains_of_parts(a + b, c, place);
    lemma_contains_of_parts(a + b + c, d, place);
    lemma_contains_of_parts(a + b + c + d, e, place);
    assert forall|i: int, j: int| 0 <= i < all.len() && 0 <= j < all.len() && i != j implies all[i]
        != all[j] by {}
}

proof fn lemma_pixel(x: int, y: int, px: int, py: int)
    requires
        viewer::visible(px, py),
    ensures
        viewer::pixel(x, y).contains((1024 * py + px) as usize) <==> x == px && y == py,
{
    if viewer::visible(x, y) {
        assert(viewer::pixel(x, y)[0] == (1024 * y + x) as usize);
    }
}

proof fn lemma_contains_of_parts(a: Seq<usize>, b: Seq<usize>, x: usize)
    ensures
        (a + b).contains(x) <==> a.contains(x) || b.contains(x),
{
    if a.contains(x) {
        let i = choose|i: int| 0 <= i < a.len() && a[i] == x;
        assert((a + b)[i] == x);
    }
    if b.contains(x) {
        let i = choose|i: int| 0 <= i < b.len() && b[i] == x;
        assert((a + b)[a.len() + i] == x);
    }
}

/// A line is drawn in as many steps as it has pixels along its longer side, and
/// in one at least. It takes the same number the other way round.
pub proof fn lines_step_along_their_longer_side(x0: int, y0: int, x1: int, y1: int)
    requires
        -0x4000_0000 <= x0 < 0x4000_0000,
        -0x4000_0000 <= y0 < 0x4000_0000,
        -0x4000_0000 <= x1 < 0x4000_0000,
        -0x4000_0000 <= y1 < 0x4000_0000,
    ensures
        ({
            let n = viewer::steps(x0, y0, x1, y1);
            &&& n >= 1
            &&& -n <= x1 - x0 <= n && -n <= y1 - y0 <= n
            &&& n == 1 || n == x1 - x0 || n == x0 - x1 || n == y1 - y0 || n == y0 - y1
            &&& n == viewer::steps(x1, y1, x0, y0)
        }),
{
    lemma_wrapped(x1 - x0);
    lemma_wrapped(y1 - y0);
    lemma_wrapped(x0 - x1);
    lemma_wrapped(y0 - y1);
}

proof fn lemma_wrapped(x: int)
    requires
        -0x8000_0000 <= x < 0x8000_0000,
    ensures
        viewer::wrapped(x) == x,
{
}

/// The number of steps is the largest of the two distances as a 32-bit register
/// holds them, and of one.
pub proof fn steps_are_the_larger_distance(x0: int, y0: int, x1: int, y1: int)
    ensures
        ({
            let n = viewer::steps(x0, y0, x1, y1);
            let dx = viewer::magnitude(viewer::wrapped(x1 - x0));
            let dy = viewer::magnitude(viewer::wrapped(y1 - y0));
            n >= 1 && n >= dx && n >= dy && (n == 1 || n == dx || n == dy)
        }),
{
}

/// What a 32-bit register holds is a 32-bit number that differs from the exact
/// one by whole turns.
pub proof fn registers_wrap_around(x: int)
    ensures
        -0x8000_0000 <= viewer::wrapped(x) < 0x8000_0000,
        (viewer::wrapped(x) - x) % 0x1_0000_0000 == 0,
        viewer::magnitude(-0x8000_0000) == -0x8000_0000,
        0 <= x < 0x8000_0000 ==> viewer::magnitude(x) == x && viewer::magnitude(-x) == x,
{
    let y = x + 0x8000_0000;
    let m = 0x1_0000_0000int;
    assert(y == m * (y / m) + y % m);
    assert((-(m * (y / m))) % m == 0) by (nonlinear_arith)
        requires
            m == 0x1_0000_0000,
    ;
}

/// A colour is opaque and holds its three parts, blue lowest.
pub proof fn colours_hold_their_parts(r: u8, g: u8, b: u8)
    ensures
        viewer::rgb(r, g, b) % 256 == b,
        viewer::rgb(r, g, b) / 256 % 256 == g,
        viewer::rgb(r, g, b) / 65536 % 256 == r,
        viewer::rgb(r, g, b) / 0x100_0000 == 255,
{
}

} // verus!
