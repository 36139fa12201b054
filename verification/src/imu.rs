//! Orientations over time.
//!
//! Attitude estimates come at the IMU rate and are looked up at point-packet
//! timestamps, which may fall between them.

use std::collections::VecDeque;

use vstd::prelude::*;

verus! {

/// Measures the time between IMU samples.
#[derive(Debug)]
pub struct SampleClock {
    last_ts: Option<u64>,
}

impl View for SampleClock {
    type V = Option<u64>;

    /// The timestamp of the last sample.
    closed spec fn view(&self) -> Option<u64> {
        self.last_ts
    }
}

/// The nanoseconds from the last sample to one at `ts`.
pub open spec fn since(last: Option<u64>, ts: u64) -> Option<u64> {
    match last {
        None => None,
        Some(prev) => Some(
            if ts >= prev {
                (ts - prev) as u64
            } else {
                0
            },
        ),
    }
}

impl SampleClock {
    pub fn new() -> (clock: Self)
        ensures
            clock@ == None::<u64>,
    {
        SampleClock { last_ts: None }
    }

    /// Takes the timestamp of a sample and gives the nanoseconds since the last
    /// one, zero if time went backwards. The first sample has none before it.
    pub fn tick(&mut self, ts: u64) -> (elapsed: Option<u64>)
        ensures
            final(self)@ == Some(ts),
            elapsed == (match old(self)@ {
                None => None,
                Some(prev) => Some(
                    if ts >= prev {
                        (ts - prev) as u64
                    } else {
                        0
                    },
                ),
            }),
            elapsed == since(old(self)@, ts),
    {
        let elapsed: Option<u64> = match self.last_ts {
            None => None,
            Some(prev) => Some(ts.saturating_sub(prev)),
        };
        self.last_ts = Some(ts);
        elapsed
    }
}

/// Where a timestamp falls among the orientations.
#[derive(Debug, Clone, Copy, PartialEq)]
pub enum Lookup<Q> {
    /// There are none.
    Empty,
    /// At or beyond an end: that orientation.
    At(Q),
    /// Between two neighbours: both, how far behind the first, and how far
    /// apart they are.
    Between { from: Q, to: Q, offset_ns: u64, span_ns: u64 },
}

/// Time-indexed buffer of orientations.
#[derive(Debug)]
pub struct OrientationHistory<Q> {
    samples: VecDeque<(u64, Q)>,
    max_len: usize,
}

/// The last `n` items.
pub open spec fn newest<T>(s: Seq<T>, n: nat) -> Seq<T> {
    if s.len() > n {
        s.subrange(s.len() - n, s.len() as int)
    } else {
        s
    }
}

/// Whether `ts` lies between the `i`-th sample and the next.
pub open spec fn brackets<Q>(samples: Seq<(u64, Q)>, ts: u64, i: int) -> bool {
    0 <= i < samples.len() - 1 && samples[i].0 <= ts <= samples[i + 1].0
}

/// The first place where `ts` lies between two neighbours.
pub open spec fn first_bracket<Q>(samples: Seq<(u64, Q)>, ts: u64, i: int) -> bool {
    brackets(samples, ts, i) && forall|j: int| 0 <= j < i ==> !brackets(samples, ts, j)
}

/// The place between the `i`-th sample and the next.
pub open spec fn place<Q>(samples: Seq<(u64, Q)>, ts: u64, i: int) -> Lookup<Q> {
    Lookup::Between {
        from: samples[i].1,
        to: samples[i + 1].1,
        offset_ns: (ts - samples[i].0) as u64,
        span_ns: (samples[i + 1].0 - samples[i].0) as u64,
    }
}

/// Where `ts` falls among the samples.
pub open spec fn lookup<Q>(samples: Seq<(u64, Q)>, ts: u64) -> Lookup<Q> {
    if samples.len() == 0 {
        Lookup::Empty
    } else if ts <= samples[0].0 {
        Lookup::At(samples[0].1)
    } else if ts >= samples.last().0 {
        Lookup::At(samples.last().1)
    } else {
        place(samples, ts, choose|i: int| first_bracket(samples, ts, i))
    }
}

/// There is one first place at most.
pub proof fn lemma_one_first_bracket<Q>(samples: Seq<(u64, Q)>, ts: u64, i: int)
    requires
        first_bracket(samples, ts, i),
    ensures
        (choose|k: int| first_bracket(samples, ts, k)) == i,
{
    let k = choose|k: int| first_bracket(samples, ts, k);
    assert(first_bracket(samples, ts, k));
    assert(brackets(samples, ts, i) && brackets(samples, ts, k));
}

impl<Q> OrientationHistory<Q> {
    /// The orientations with their timestamps, oldest first.
    pub closed spec fn samples(self) -> Seq<(u64, Q)> {
        self.samples@
    }

    /// How many orientations are kept.
    pub closed spec fn max_len(self) -> nat {
        self.max_len as nat
    }
}

impl<Q: Copy> OrientationHistory<Q> {
    pub fn new(max_len: usize) -> (history: Self)
        ensures
            history.samples() == Seq::<(u64, Q)>::empty(),
            history.max_len() == max_len,
    {
        OrientationHistory { samples: VecDeque::new(), max_len }
    }

    /// Adds an orientation and forgets the oldest beyond the limit.
    pub fn push(&mut self, ts: u64, q: Q)
        ensures
            final(self).samples() == newest(old(self).samples().push((ts, q)), old(self).max_len()),
            final(self).max_len() == old(self).max_len(),
            final(self).samples().len() <= final(self).max_len(),
    {
        self.samples.push_back((ts, q));
        let ghost all = self.samples@;
        let ghost mut dropped: int = 0;
        assert(all.subrange(0, all.len() as int) == all);
        while self.samples.len() > self.max_len
            invariant
                self.max_len == old(self).max_len,
                0 <= dropped <= all.len(),
                self.samples@ == all.subrange(dropped, all.len() as int),
                dropped == 0 || all.len() - dropped >= self.max_len,
            decreases self.samples@.len(),
        {
            self.samples.pop_front();
            proof {
                dropped = dropped + 1;
            }
        }
    }

    /// Finds the orientation at `ts`, clamping to the buffer ends.
    pub fn at(&self, ts: u64) -> (r: Lookup<Q>)
        ensures
            self.samples().len() == 0 ==> r == Lookup::<Q>::Empty,
            self.samples().len() > 0 && ts <= self.samples()[0].0 ==> r == Lookup::At(
                self.samples()[0].1,
            ),
            self.samples().len() > 0 && self.samples()[0].0 < ts && ts >= self.samples().last().0
                ==> r == Lookup::At(self.samples().last().1),
            self.samples().len() > 0 && self.samples()[0].0 < ts < self.samples().last().0
                ==> exists|i: int|
                #![trigger first_bracket(self.samples(), ts, i)]
                first_bracket(self.samples(), ts, i) && r == place(self.samples(), ts, i),
            r == lookup(self.samples(), ts),
    {
        let n: usize = self.samples.len();
        if n == 0 {
            return Lookup::Empty;
        }
        let first: (u64, Q) = self.samples[0];
        let last: (u64, Q) = self.samples[n - 1];
        if ts <= first.0 {
            return Lookup::At(first.1);
        }
        if ts >= last.0 {
            return Lookup::At(last.1);
        }
        let mut i: usize = 0;
        while i < n - 1
            invariant
                n == self.samples@.len(),
                i <= n - 1,
                self.samples@[0].0 < ts < self.samples@.last().0,
                self.samples@[i as int].0 < ts,
                forall|j: int| 0 <= j < i ==> !brackets(self.samples@, ts, j),
            decreases n - i,
        {
            let (t0, q0): (u64, Q) = self.samples[i];
            let (t1, q1): (u64, Q) = self.samples[i + 1];
            if ts >= t0 && ts <= t1 {
                assert(first_bracket(self.samples(), ts, i as int));
                proof {
                    lemma_one_first_bracket(self.samples(), ts, i as int);
                }
                return Lookup::Between {
                    from: q0,
                    to: q1,
                    offset_ns: ts - t0,
                    span_ns: t1 - t0,
                };
            }
            i = i + 1;
        }
        Lookup::At(last.1)
    }
}

/// A timestamp strictly between the ends always has two neighbours around it.
pub proof fn inner_timestamps_have_neighbours<Q>(samples: Seq<(u64, Q)>, ts: u64)
    requires
        samples.len() > 0,
        samples[0].0 < ts < samples.last().0,
    ensures
        exists|i: int| first_bracket(samples, ts, i),
{
    lemma_bracket_from(samples, ts, 0);
}

proof fn lemma_bracket_from<Q>(samples: Seq<(u64, Q)>, ts: u64, k: int)
    requires
        0 <= k < samples.len(),
        samples[k].0 < ts < samples.last().0,
        forall|j: int| 0 <= j < k ==> !brackets(samples, ts, j),
    ensures
        exists|i: int| first_bracket(samples, ts, i),
    decreases samples.len() - k,
{
    if brackets(samples, ts, k) {
        assert(first_bracket(samples, ts, k));
    } else {
        lemma_bracket_from(samples, ts, k + 1);
    }
}

} // verus!
