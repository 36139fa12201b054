//! Point frames for live clients.
//!
//! Coordinates are collected as the bits of single-precision floats and handed
//! out as raw bytes once there are enough points for a frame.

use vstd::prelude::*;

use crate::wire;

verus! {

/// How many points a frame has at least.
pub const FRAME_POINTS: usize = 3000;

/// The bytes of the values, each with its low byte first.
pub open spec fn low_byte_first(values: Seq<u32>) -> Seq<u8>
    decreases values.len(),
{
    if values.len() == 0 {
        Seq::empty()
    } else {
        low_byte_first(values.drop_last()) + wire::u32_bytes(values.last())
    }
}

/// The bytes of the values, each with its high byte first.
pub open spec fn high_byte_first(values: Seq<u32>) -> Seq<u8>
    decreases values.len(),
{
    if values.len() == 0 {
        Seq::empty()
    } else {
        high_byte_first(values.drop_last()) + wire::u32_bytes(values.last()).reverse()
    }
}

/// Whether `bytes` are the values as this machine stores them.
pub open spec fn stored(values: Seq<u32>, bytes: Seq<u8>) -> bool {
    bytes == low_byte_first(values) || bytes == high_byte_first(values)
}

/// `bytemuck::cast_slice` reinterprets a slice in place, so its bytes are those
/// of the values one behind the other, each in the machine's byte order. Which
/// order that is depends on the machine and is left open. A cast to bytes has no
/// alignment or length that it could fail on.
#[verifier::external_body]
fn cast_to_bytes(values: &[u32]) -> (bytes: Vec<u8>)
    ensures
        stored(values@, bytes@),
{
    bytemuck::cast_slice::<u32, u8>(values).to_vec()
}

/// The coordinates of points, one behind the other.
pub open spec fn coordinates(points: Seq<[u32; 3]>) -> Seq<u32>
    decreases points.len(),
{
    if points.len() == 0 {
        Seq::empty()
    } else {
        coordinates(points.drop_last()) + points.last()@
    }
}

/// What is handed out when the points of a packet come in, and what is kept.
pub open spec fn after_packet(kept: Seq<u32>, points: Seq<[u32; 3]>) -> (
    Option<Seq<u32>>,
    Seq<u32>,
) {
    let all = kept + coordinates(points);
    if all.len() >= 3 * FRAME_POINTS {
        (Some(all), Seq::empty())
    } else {
        (None, all)
    }
}

/// Collects points for the next frame.
#[derive(Debug)]
pub struct LiveBuffer {
    values: Vec<u32>,
}

impl View for LiveBuffer {
    type V = Seq<u32>;

    closed spec fn view(&self) -> Seq<u32> {
        self.values@
    }
}

impl LiveBuffer {
    pub fn new() -> (buffer: Self)
        ensures
            buffer@ == Seq::<u32>::empty(),
    {
        LiveBuffer { values: Vec::new() }
    }

    /// Takes in the points of a packet. Once there are enough for a frame, hands
    /// out everything collected so far and starts over.
    pub fn add_packet(&mut self, points: &[[u32; 3]]) -> (frame: Option<Vec<u8>>)
        ensures
            ({
                let all = old(self)@ + coordinates(points@);
                if all.len() >= 3 * FRAME_POINTS {
                    &&& frame matches Some(bytes) && stored(all, bytes@)
                    &&& final(self)@ == Seq::<u32>::empty()
                } else {
                    &&& frame is None
                    &&& final(self)@ == all
                }
            }),
            final(self)@ == after_packet(old(self)@, points@).1,
            frame is Some <==> after_packet(old(self)@, points@).0 is Some,
            frame matches Some(bytes) ==> stored(
                after_packet(old(self)@, points@).0->0,
                bytes@,
            ),
    {
        let n: usize = points.len();
        let mut i: usize = 0;
        assert(points@.subrange(0, 0) == Seq::<[u32; 3]>::empty());
        while i < n
            invariant
                i <= n == points@.len(),
                self@ == old(self)@ + coordinates(points@.subrange(0, i as int)),
            decreases n - i,
        {
            let p: [u32; 3] = points[i];
            let ghost before = self@;
            self.values.push(p[0]);
            self.values.push(p[1]);
            self.values.push(p[2]);
            proof {
                let next = points@.subrange(0, i + 1);
                assert(next.drop_last() == points@.subrange(0, i as int));
                assert(next.last() == p);
                assert(self@ == before + p@);
            }
            i = i + 1;
        }
        assert(points@.subrange(0, n as int) == points@);
        if self.values.len() >= 3 * FRAME_POINTS {
            let bytes = cast_to_bytes(self.values.as_slice());
            self.values.clear();
            Some(bytes)
        } else {
            None
        }
    }
}

} // verus!
