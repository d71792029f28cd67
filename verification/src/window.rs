//! Windowing of the trajectory into per-frame slices.
//!
//! A run renders one frame per window.  Windows are half-open index ranges
//! `[frame, frame + 4*skip)` into the sample table; successive windows start
//! `skip` indices apart, and a window is rendered only while its end stays
//! strictly below the effective end of the table.  The effective end is the
//! sample count, optionally capped by a configured frame limit (a limit of
//! zero means "unbounded").

use vstd::prelude::*;
use vstd::arithmetic::div_mod::lemma_fundamental_div_mod_converse_div;
use vstd::arithmetic::mul::lemma_mul_is_distributive_add_other_way;

verus! {

/// The index past which no window may reach: the sample count `n`, capped
/// by the frame limit `frames` when that limit is positive and smaller.
pub open spec fn effective_end(n: nat, frames: nat) -> nat {
    if 0 < frames && frames < n {
        frames
    } else {
        n
    }
}

/// The number of windows still to come when the next window would start at
/// `frame`: one for each start `frame, frame + skip, ...` whose window end
/// `start + 4*skip` lies strictly below `end`.
pub open spec fn count_from(frame: nat, end: nat, skip: nat) -> nat
    decreases end - frame,
    when skip > 0
{
    if frame + 4 * skip < end {
        (1 + count_from(frame + skip, end, skip)) as nat
    } else {
        0
    }
}

/// The total number of windows of a run, in closed form: with
/// `m = end - 4*skip` samples of room, there are `ceil(m / skip)` windows,
/// written with integer arithmetic as `(m + skip - 1) / skip`; no room
/// means no windows.
pub open spec fn window_count(end: nat, skip: nat) -> nat {
    if skip > 0 && 4 * skip < end {
        ((end - 4 * skip + skip - 1) / skip as int) as nat
    } else {
        0
    }
}

/// The remaining count is pinned between two multiples of the stride:
/// exactly the characterization of a ceiling division.
proof fn lemma_count_from_bounds(frame: nat, end: nat, skip: nat)
    requires
        skip > 0,
    ensures
        frame + 4 * skip >= end ==> count_from(frame, end, skip) == 0,
        frame + 4 * skip < end ==> {
            let c = count_from(frame, end, skip);
            let m = end - frame - 4 * skip;
            c >= 1 && (c - 1) * skip < m <= c * skip
        },
    decreases end - frame,
{
    if frame + 4 * skip < end {
        lemma_count_from_bounds(frame + skip, end, skip);
        let c = count_from(frame, end, skip);
        let cr = count_from(frame + skip, end, skip);
        assert(c == cr + 1);
        if frame + skip + 4 * skip < end {
            let mr = end - (frame + skip) - 4 * skip;
            assert((cr - 1) * skip < mr <= cr * skip);
            lemma_mul_is_distributive_add_other_way(skip as int, cr - 1, 1);
            lemma_mul_is_distributive_add_other_way(skip as int, cr as int, 1);
            assert((c - 1) * skip == (cr - 1) * skip + skip);
            assert(c * skip == cr * skip + skip);
        }
    }
}

/// The recursive count of a whole run equals the closed-form
/// `window_count`: the number of windows is the ceiling of the room left
/// after the first window, divided by the stride.
pub proof fn lemma_window_count(end: nat, skip: nat)
    requires
        skip > 0,
    ensures
        count_from(0, end, skip) == window_count(end, skip),
{
    lemma_count_from_bounds(0, end, skip);
    if 4 * skip < end {
        let c = count_from(0, end, skip) as int;
        let m = end - 4 * skip;
        let s = skip as int;
        // m + s - 1 written as c*s + r with 0 <= r < s pins the quotient.
        let r = m + s - 1 - c * s;
        assert((c - 1) * s == c * s - s) by (nonlinear_arith);
        assert(0 <= r < s);
        lemma_fundamental_div_mod_converse_div(m + s - 1, s, c, r);
    }
}

/// Capping the run at `frames` frames never increases the number of
/// windows, whatever the cap.
pub proof fn lemma_cap_never_increases(n: nat, frames: nat, skip: nat)
    requires
        skip > 0,
    ensures
        count_from(0, effective_end(n, frames), skip) <= count_from(0, n, skip),
        window_count(effective_end(n, frames), skip) <= window_count(n, skip),
{
    lemma_count_monotone_in_end(0, effective_end(n, frames), n, skip);
    lemma_window_count(effective_end(n, frames), skip);
    lemma_window_count(n, skip);
}

/// A longer run has at least as many windows.
pub proof fn lemma_count_monotone_in_end(frame: nat, end1: nat, end2: nat, skip: nat)
    requires
        skip > 0,
        end1 <= end2,
    ensures
        count_from(frame, end1, skip) <= count_from(frame, end2, skip),
    decreases end2 - frame,
{
    if frame + 4 * skip < end1 {
        lemma_count_monotone_in_end(frame + skip, end1, end2, skip);
    } else if frame + 4 * skip < end2 {
        lemma_count_monotone_in_end(frame + skip, end2, end2, skip);
    }
}

/// The lazy, non-restartable sequence of windows of one run.  Each call to
/// `next` either yields the next window and advances the start by the
/// stride, or reports that the run is over.
pub struct Windower {
    pub frame: usize,
    pub end: usize,
    pub skip: usize,
}

impl Windower {
    pub open spec fn wf(self) -> bool {
        &&& self.skip > 0
        &&& 4 * self.skip <= usize::MAX
    }

    /// Whether `next` would yield another window from this state.
    pub open spec fn spec_has_next(self) -> bool {
        self.frame + 4 * self.skip < self.end
    }

    /// A fresh windower over `n` samples, capped at `frames` frames when
    /// the cap is positive, with stride `skip`.
    pub fn new(n: usize, frames: usize, skip: usize) -> (w: Windower)
        requires
            skip > 0,
            4 * skip <= usize::MAX,
        ensures
            w.wf(),
            w.frame == 0,
            w.end == effective_end(n as nat, frames as nat),
            w.skip == skip,
    {
        let end: usize = if frames > 0 && frames < n {
            frames
        } else {
            n
        };
        Windower { frame: 0, end, skip }
    }

    pub fn has_next(&self) -> (r: bool)
        requires
            self.wf(),
        ensures
            r == self.spec_has_next(),
    {
        self.frame < self.end && self.end - self.frame > 4 * self.skip
    }

    /// Yield the next window `[frame, frame + 4*skip)`, or `None` once the
    /// window would reach the effective end.
    pub fn next(&mut self) -> (r: Option<(usize, usize)>)
        requires
            old(self).wf(),
        ensures
            final(self).wf(),
            final(self).end == old(self).end,
            final(self).skip == old(self).skip,
            old(self).spec_has_next() ==> {
                &&& r == Some((old(self).frame, (old(self).frame + 4 * old(self).skip) as usize))
                &&& final(self).frame == old(self).frame + old(self).skip
            },
            !old(self).spec_has_next() ==> r is None && final(self).frame == old(self).frame,
    {
        if self.frame < self.end && self.end - self.frame > 4 * self.skip {
            let start = self.frame;
            let window_end = self.frame + 4 * self.skip;
            self.frame = self.frame + self.skip;
            Some((start, window_end))
        } else {
            None
        }
    }
}

/// All windows of a run, eagerly: window `i` is
/// `[i*skip, i*skip + 4*skip)`, and there are `window_count` of them.
pub fn windows(n: usize, frames: usize, skip: usize) -> (r: Vec<(usize, usize)>)
    requires
        skip > 0,
        4 * skip <= usize::MAX,
    ensures
        r@.len() == window_count(effective_end(n as nat, frames as nat), skip as nat),
        forall|i: int|
            0 <= i < r@.len() ==> r@[i].0 == i * skip && r@[i].1 == i * skip + 4 * skip,
{
    let mut w = Windower::new(n, frames, skip);
    let ghost end = w.end as nat;
    let mut r: Vec<(usize, usize)> = Vec::new();
    proof {
        lemma_window_count(end, skip as nat);
    }
    while w.has_next()
        invariant
            w.wf(),
            w.skip == skip,
            w.end == end,
            w.frame == r@.len() * skip,
            count_from(w.frame as nat, end, skip as nat) + r@.len()
                == count_from(0, end, skip as nat),
            forall|i: int|
                0 <= i < r@.len() ==> r@[i].0 == i * skip && r@[i].1 == i * skip + 4 * skip,
        decreases w.end - w.frame,
    {
        let win = w.next();
        match win {
            Some(pair) => {
                r.push(pair);
                assert(r@.len() * skip == (r@.len() - 1) * skip + skip) by (nonlinear_arith);
            },
            None => {
                assert(false);
            },
        }
    }
    proof {
        lemma_window_count(end, skip as nat);
    }
    r
}

} // verus!
