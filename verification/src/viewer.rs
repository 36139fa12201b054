//! Keys and pixels of the viewer window.

use vstd::prelude::*;

verus! {

/// What a key press asks for.
#[derive(Debug, Clone, Copy, PartialEq, Eq, Structural)]
pub enum KeyAction {
    Ignore,
    /// Encode the current frame and print the time.
    Benchmark,
    /// Start or stop saving frame encodings.
    ToggleSaving,
    /// Clear the point buffer.
    ClearCloud,
    TogglePlay,
    Restart,
    Slower,
    Faster,
}

/// What a key asks for. The last four work in a replay only.
pub open spec fn action_of(key: char, replaying: bool) -> KeyAction {
    if key == 'B' {
        KeyAction::Benchmark
    } else if key == 'E' {
        KeyAction::ToggleSaving
    } else if key == 'C' {
        KeyAction::ClearCloud
    } else if replaying && key == ' ' {
        KeyAction::TogglePlay
    } else if replaying && key == 'R' {
        KeyAction::Restart
    } else if replaying && key == 'Z' {
        KeyAction::Slower
    } else if replaying && key == 'X' {
        KeyAction::Faster
    } else {
        KeyAction::Ignore
    }
}

/// What a key asks for.
pub fn key_action(key: char, replaying: bool) -> (action: KeyAction)
    ensures
        action == action_of(key, replaying),
{
    match key {
        'B' => KeyAction::Benchmark,
        'E' => KeyAction::ToggleSaving,
        'C' => KeyAction::ClearCloud,
        ' ' => if replaying {
            KeyAction::TogglePlay
        } else {
            KeyAction::Ignore
        },
        'R' => if replaying {
            KeyAction::Restart
        } else {
            KeyAction::Ignore
        },
        'Z' => if replaying {
            KeyAction::Slower
        } else {
            KeyAction::Ignore
        },
        'X' => if replaying {
            KeyAction::Faster
        } else {
            KeyAction::Ignore
        },
        _ => KeyAction::Ignore,
    }
}

/// What works at any time, as opposed to in a replay only.
pub open spec fn works_always(action: KeyAction) -> bool {
    action is Benchmark || action is ToggleSaving || action is ClearCloud
}

/// What works in a replay only.
pub open spec fn works_in_replay(action: KeyAction) -> bool {
    action is TogglePlay || action is Restart || action is Slower || action is Faster
}

/// What the keys of one frame ask for, in the order in which it is done: first
/// what works at any time, then what works in a replay, each in the order of the
/// keys. Other keys ask for nothing.
pub open spec fn actions_of(keys: Seq<char>, replaying: bool) -> Seq<KeyAction> {
    let all = keys.map_values(|k: char| action_of(k, replaying));
    all.filter(|a: KeyAction| works_always(a)) + all.filter(|a: KeyAction| works_in_replay(a))
}

/// What the keys of one frame ask for, in the order in which it is done.
pub fn frame_actions(keys: &[char], replaying: bool) -> (actions: Vec<KeyAction>)
    ensures
        actions@ == actions_of(keys@, replaying),
{
    let n: usize = keys.len();
    let ghost all = keys@.map_values(|k: char| action_of(k, replaying));
    let ghost always = |a: KeyAction| works_always(a);
    let ghost in_replay = |a: KeyAction| works_in_replay(a);
    let mut actions: Vec<KeyAction> = Vec::new();
    let mut later: Vec<KeyAction> = Vec::new();
    let mut i: usize = 0;
    proof {
        reveal(Seq::filter);
    }
    while i < n
        invariant
            i <= n == keys@.len(),
            all == keys@.map_values(|k: char| action_of(k, replaying)),
            always == (|a: KeyAction| works_always(a)),
            in_replay == (|a: KeyAction| works_in_replay(a)),
            actions@ == all.subrange(0, i as int).filter(always),
            later@ == all.subrange(0, i as int).filter(in_replay),
        decreases n - i,
    {
        proof {
            reveal(Seq::filter);
            let next = all.subrange(0, i + 1);
            assert(next.drop_last() == all.subrange(0, i as int));
            assert(next.last() == action_of(keys@[i as int], replaying));
        }
        let action = key_action(keys[i], replaying);
        match action {
            KeyAction::Ignore => {},
            KeyAction::Benchmark | KeyAction::ToggleSaving | KeyAction::ClearCloud => {
                actions.push(action);
            },
            KeyAction::TogglePlay | KeyAction::Restart | KeyAction::Slower | KeyAction::Faster => {
                later.push(action);
            },
        }
        i = i + 1;
    }
    assert(all.subrange(0, n as int) == all);
    let m: usize = later.len();
    let ghost first = actions@;
    let mut k: usize = 0;
    while k < m
        invariant
            k <= m == later@.len(),
            actions@ == first + later@.subrange(0, k as int),
        decreases m - k,
    {
        actions.push(later[k]);
        k = k + 1;
    }
    assert(later@.subrange(0, m as int) == later@);
    actions
}

pub const WIDTH: usize = 1024;

pub const HEIGHT: usize = 768;

/// Whether a pixel lies in the window.
pub open spec fn visible(x: int, y: int) -> bool {
    0 <= x < WIDTH && 0 <= y < HEIGHT
}

/// The place of a visible pixel in the frame buffer, row by row.
pub open spec fn pixel_index(x: int, y: int) -> int {
    y * WIDTH + x
}

/// The pixel in the buffer if it is visible, as a list of at most one.
pub open spec fn pixel(x: int, y: int) -> Seq<usize> {
    if visible(x, y) {
        seq![pixel_index(x, y) as usize]
    } else {
        Seq::empty()
    }
}

/// The pixels of a small cross: its middle, right, left, lower and upper one,
/// without those outside the window.
pub open spec fn cross(x: int, y: int) -> Seq<usize> {
    pixel(x, y) + pixel(x + 1, y) + pixel(x - 1, y) + pixel(x, y + 1) + pixel(x, y - 1)
}

fn push_pixel(out: &mut Vec<usize>, x: i64, y: i64)
    ensures
        final(out)@ == old(out)@ + pixel(x as int, y as int),
{
    if x >= 0 && x < WIDTH as i64 && y >= 0 && y < HEIGHT as i64 {
        out.push(y as usize * WIDTH + x as usize);
    }
}

/// The pixels of a small cross, so that individual points are visible.
pub fn cross_pixels(sx: i32, sy: i32) -> (pixels: Vec<usize>)
    ensures
        pixels@ == cross(sx as int, sy as int),
        forall|i: int| 0 <= i < pixels@.len() ==> #[trigger] pixels@[i] < WIDTH * HEIGHT,
{
    let mut pixels: Vec<usize> = Vec::new();
    let x: i64 = sx as i64;
    let y: i64 = sy as i64;
    push_pixel(&mut pixels, x, y);
    push_pixel(&mut pixels, x + 1, y);
    push_pixel(&mut pixels, x - 1, y);
    push_pixel(&mut pixels, x, y + 1);
    push_pixel(&mut pixels, x, y - 1);
    pixels
}

/// No two visible pixels share a place in the buffer.
pub proof fn pixels_have_their_own_place(x1: int, y1: int, x2: int, y2: int)
    requires
        visible(x1, y1),
        visible(x2, y2),
        pixel_index(x1, y1) == pixel_index(x2, y2),
    ensures
        x1 == x2,
        y1 == y2,
{
}

/// The value that a 32-bit register holds after a computation.
pub open spec fn wrapped(x: int) -> int {
    (x + 0x8000_0000) % 0x1_0000_0000 - 0x8000_0000
}

/// The magnitude of a 32-bit number; the smallest number keeps its sign.
pub open spec fn magnitude(x: int) -> int {
    if x < 0 {
        wrapped(-x)
    } else {
        x
    }
}

/// How many steps a line between two pixels is drawn in: as many as it has
/// pixels along its longer side, and at least one.
pub open spec fn steps(x0: int, y0: int, x1: int, y1: int) -> int {
    let dx = magnitude(wrapped(x1 - x0));
    let dy = magnitude(wrapped(y1 - y0));
    let longer = if dx >= dy {
        dx
    } else {
        dy
    };
    if longer >= 1 {
        longer
    } else {
        1
    }
}

fn distance(a: i32, b: i32) -> (d: i32)
    ensures
        d == magnitude(wrapped(b - a)),
{
    let d: i32 = b.wrapping_sub(a);
    if d < 0 {
        0i32.wrapping_sub(d)
    } else {
        d
    }
}

/// How many steps a line between two pixels is drawn in.
pub fn line_steps(x0: i32, y0: i32, x1: i32, y1: i32) -> (n: i32)
    ensures
        n == steps(x0 as int, y0 as int, x1 as int, y1 as int),
        n >= 1,
{
    let dx: i32 = distance(x0, x1);
    let dy: i32 = distance(y0, y1);
    let longer: i32 = if dx >= dy {
        dx
    } else {
        dy
    };
    if longer >= 1 {
        longer
    } else {
        1
    }
}

/// The number of an opaque colour.
pub open spec fn rgb(r: u8, g: u8, b: u8) -> u32 {
    (0xFF00_0000 + 0x1_0000 * r + 0x100 * g + b) as u32
}

/// An opaque colour.
pub fn pack_rgb(r: u8, g: u8, b: u8) -> (color: u32)
    ensures
        color == 0xFF00_0000 + 0x1_0000 * r + 0x100 * g + b,
        color == rgb(r, g, b),
{
    0xFF00_0000 + 0x1_0000 * (r as u32) + 0x100 * (g as u32) + (b as u32)
}

} // verus!
