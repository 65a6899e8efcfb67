//! Tick-driven frame animations.
//!
//! An [`Animation`] steps through an ordered list of source rectangles with
//! durations measured in ticks. It advances only when the caller hands it an
//! elapsed-tick value — it never reads a clock — so its behaviour is a pure
//! function of the ticks fed to it. A looping animation wraps around; a
//! non-looping one parks on its last frame.

use std::rc::Rc;

use vstd::prelude::*;

use crate::objects::Rect;
use crate::texture::clone_handle;

verus! {

/// The immutable description of an animation: frame source rectangles with
/// per-frame durations in ticks, and whether the animation loops.
pub struct AnimationData {
    pub frames: Vec<(Rect, u32)>,
    pub looping: bool,
}

/// Every frame lasts at least one tick and there is at least one frame; an
/// animation over an empty or zero-duration frame list must not be
/// constructed.
pub open spec fn frames_wf(frames: Seq<(Rect, u32)>) -> bool {
    &&& frames.len() > 0
    &&& forall|i: int| 0 <= i < frames.len() ==> (#[trigger] frames[i]).1 >= 1
}

/// The state an animation reaches from frame `idx` with `elapsed`
/// accumulated ticks: while the accumulated ticks cover the current frame's
/// duration, subtract it and move on — wrapping when looping, parking on the
/// last frame (with its duration as the resting elapsed value) when not.
pub open spec fn advance_from(
    frames: Seq<(Rect, u32)>,
    looping: bool,
    idx: int,
    elapsed: int,
) -> (int, int)
    decreases elapsed,
{
    if !(0 <= idx < frames.len()) || frames[idx].1 == 0 {
        (idx, elapsed)
    } else if elapsed < frames[idx].1 {
        (idx, elapsed)
    } else if !looping && idx == frames.len() - 1 {
        (idx, frames[idx].1 as int)
    } else {
        advance_from(
            frames,
            looping,
            if idx + 1 == frames.len() {
                0
            } else {
                idx + 1
            },
            elapsed - frames[idx].1,
        )
    }
}

/// The frame index reached from `idx` after `k` transitions, wrapping at
/// `len`.
pub open spec fn step_idx(len: int, idx: int, k: nat) -> int
    decreases k,
{
    if k == 0 {
        idx
    } else {
        step_idx(
            len,
            if idx + 1 == len {
                0
            } else {
                idx + 1
            },
            (k - 1) as nat,
        )
    }
}

/// The total duration of `k` consecutive frames starting at `idx`, wrapping
/// at the end of the frame list.
pub open spec fn sum_wrapped(frames: Seq<(Rect, u32)>, idx: int, k: nat) -> int
    decreases k,
{
    if k == 0 || !(0 <= idx < frames.len()) {
        0
    } else {
        frames[idx].1 + sum_wrapped(
            frames,
            if idx + 1 == frames.len() {
                0
            } else {
                idx + 1
            },
            (k - 1) as nat,
        )
    }
}

/// The total duration of one full cycle: the sum of all frame durations.
pub open spec fn total_duration(frames: Seq<(Rect, u32)>) -> int {
    sum_wrapped(frames, 0, frames.len())
}

proof fn lemma_sum_wrapped_nonneg(frames: Seq<(Rect, u32)>, idx: int, k: nat)
    ensures
        sum_wrapped(frames, idx, k) >= 0,
    decreases k,
{
    if k > 0 && 0 <= idx < frames.len() {
        lemma_sum_wrapped_nonneg(
            frames,
            if idx + 1 == frames.len() {
                0
            } else {
                idx + 1
            },
            (k - 1) as nat,
        );
    }
}

/// Splitting a wrapped run of `a + b` frames at `a`.
proof fn lemma_sum_wrapped_split(frames: Seq<(Rect, u32)>, idx: int, a: nat, b: nat)
    requires
        0 <= idx < frames.len(),
    ensures
        sum_wrapped(frames, idx, a + b) == sum_wrapped(frames, idx, a) + sum_wrapped(
            frames,
            step_idx(frames.len() as int, idx, a),
            b,
        ),
        0 <= step_idx(frames.len() as int, idx, a) < frames.len(),
    decreases a,
{
    if a == 0 {
    } else {
        let nidx = if idx + 1 == frames.len() as int {
            0
        } else {
            idx + 1
        };
        lemma_sum_wrapped_split(frames, nidx, (a - 1) as nat, b);
    }
}

/// Walking `len - idx` transitions from `idx` wraps to frame 0.
proof fn lemma_step_idx_to_zero(len: int, idx: int)
    requires
        0 <= idx < len,
    ensures
        step_idx(len, idx, (len - idx) as nat) == 0,
    decreases len - idx,
{
    if idx + 1 == len {
        assert(step_idx(len, 0, 0) == 0);
    } else {
        lemma_step_idx_to_zero(len, idx + 1);
    }
}

/// Walking `k < len - idx` transitions from `idx` does not wrap.
proof fn lemma_step_idx_no_wrap(len: int, idx: int, k: nat)
    requires
        0 <= idx,
        idx + k < len,
    ensures
        step_idx(len, idx, k) == idx + k,
    decreases k,
{
    if k > 0 {
        lemma_step_idx_no_wrap(len, idx + 1, (k - 1) as nat);
    }
}

/// A full cycle of `len` transitions returns to the same frame.
proof fn lemma_step_idx_full_cycle(len: int, idx: int)
    requires
        0 <= idx < len,
    ensures
        step_idx(len, idx, len as nat) == idx,
    decreases len,
{
    lemma_step_idx_split(len, idx, (len - idx) as nat, idx as nat);
    lemma_step_idx_to_zero(len, idx);
    lemma_step_idx_no_wrap(len, 0, idx as nat);
}

/// Transition walks compose.
proof fn lemma_step_idx_split(len: int, idx: int, a: nat, b: nat)
    requires
        0 <= idx < len,
    ensures
        step_idx(len, idx, a + b) == step_idx(len, step_idx(len, idx, a), b),
    decreases a,
{
    if a > 0 {
        let nidx = if idx + 1 == len {
            0
        } else {
            idx + 1
        };
        lemma_step_idx_split(len, nidx, (a - 1) as nat, b);
    }
}

/// Advancing a looping animation by the duration of `k` consecutive frames
/// performs exactly `k` transitions and keeps the residue `e`.
proof fn lemma_advance_wrapped(frames: Seq<(Rect, u32)>, idx: int, e: int, k: nat)
    requires
        frames_wf(frames),
        0 <= idx < frames.len(),
        0 <= e,
    ensures
        advance_from(frames, true, idx, e + sum_wrapped(frames, idx, k)) == advance_from(
            frames,
            true,
            step_idx(frames.len() as int, idx, k),
            e,
        ),
    decreases k,
{
    if k > 0 {
        let nidx = if idx + 1 == frames.len() as int {
            0
        } else {
            idx + 1
        };
        lemma_sum_wrapped_nonneg(frames, nidx, (k - 1) as nat);
        lemma_advance_wrapped(frames, nidx, e, (k - 1) as nat);
    }
}

/// Periodicity of a looping animation: advancing by the total of all frame
/// durations from any valid state returns to exactly that state; in
/// particular, a looping animation started at frame 0 returns to frame 0
/// with zero residue after one full cycle of ticks.
pub proof fn lemma_looping_periodicity(frames: Seq<(Rect, u32)>, idx: int, e: int)
    requires
        frames_wf(frames),
        0 <= idx < frames.len(),
        0 <= e < frames[idx].1,
    ensures
        advance_from(frames, true, idx, e + total_duration(frames)) == (idx, e),
{
    let len = frames.len() as int;
    lemma_sum_wrapped_split(frames, idx, (len - idx) as nat, idx as nat);
    lemma_step_idx_to_zero(len, idx);
    lemma_sum_wrapped_split(frames, 0, idx as nat, (len - idx) as nat);
    lemma_step_idx_no_wrap(len, 0, idx as nat);
    assert(sum_wrapped(frames, idx, len as nat) == total_duration(frames));
    lemma_advance_wrapped(frames, idx, e, len as nat);
    lemma_step_idx_full_cycle(len, idx);
}

/// The ticks needed to finish the animation from frame `idx`: the durations
/// of the frames `idx` through the last one.
pub open spec fn remaining_duration(frames: Seq<(Rect, u32)>, idx: int) -> int {
    sum_wrapped(frames, idx, (frames.len() - idx) as nat)
}

/// Clamping of a non-looping animation: advancing past the total remaining
/// duration parks it on the last frame.
pub proof fn lemma_nonlooping_clamps(frames: Seq<(Rect, u32)>, idx: int, e: int)
    requires
        frames_wf(frames),
        0 <= idx < frames.len(),
        e >= remaining_duration(frames, idx),
    ensures
        advance_from(frames, false, idx, e) == (
            frames.len() - 1,
            frames[frames.len() - 1].1 as int,
        ),
    decreases frames.len() - idx,
{
    let len = frames.len() as int;
    if idx == len - 1 {
        assert(sum_wrapped(frames, 0, 0) == 0);
        assert(remaining_duration(frames, idx) == frames[idx].1);
    } else {
        lemma_sum_wrapped_nonneg(frames, idx + 1, (len - idx - 1) as nat);
        lemma_nonlooping_clamps(frames, idx + 1, e - frames[idx].1);
    }
}

/// Once parked on the last frame, a non-looping animation stays there for
/// any further ticks.
pub proof fn lemma_parked_stays(frames: Seq<(Rect, u32)>, e: int)
    requires
        frames_wf(frames),
        e >= frames[frames.len() - 1].1,
    ensures
        advance_from(frames, false, frames.len() - 1, e) == (
            frames.len() - 1,
            frames[frames.len() - 1].1 as int,
        ),
{
}

/// Ticks accumulate: advancing by `a` and then by `b` reaches the same
/// state as advancing by `a + b` at once, so any split of a tick budget
/// over successive calls is equivalent.
pub proof fn lemma_advance_additive(
    frames: Seq<(Rect, u32)>,
    looping: bool,
    idx: int,
    e: int,
    b: int,
)
    requires
        frames_wf(frames),
        b >= 0,
    ensures
        ({
            let (i1, e1) = advance_from(frames, looping, idx, e);
            advance_from(frames, looping, i1, e1 + b) == advance_from(frames, looping, idx, e + b)
        }),
    decreases e,
{
    if !(0 <= idx < frames.len()) || frames[idx].1 == 0 {
    } else if e < frames[idx].1 {
    } else if !looping && idx == frames.len() - 1 {
    } else {
        let nidx = if idx + 1 == frames.len() as int {
            0
        } else {
            idx + 1
        };
        lemma_advance_additive(frames, looping, nidx, e - frames[idx].1, b);
    }
}

/// A per-sprite animation state: a shared handle on the frame data, the
/// current frame index, and the ticks accumulated within that frame.
pub struct Animation {
    pub data: Rc<AnimationData>,
    pub current_frame: usize,
    pub elapsed: u32,
}

impl Animation {
    /// The frame index is in bounds and the elapsed ticks never exceed the
    /// current frame's duration; they equal it only in the parked state of a
    /// non-looping animation.
    pub open spec fn wf(self) -> bool {
        &&& frames_wf(self.data.frames@)
        &&& (self.current_frame as int) < self.data.frames@.len()
        &&& self.elapsed <= self.data.frames@[self.current_frame as int].1
        &&& (self.elapsed == self.data.frames@[self.current_frame as int].1 ==> !self.data.looping
            && self.current_frame as int == self.data.frames@.len() - 1)
    }

    /// Starts an animation at frame 0 with no elapsed ticks.
    pub fn new(data: &Rc<AnimationData>) -> (a: Animation)
        requires
            frames_wf(data.frames@),
        ensures
            a.wf(),
            a.data == **data,
            a.current_frame == 0,
            a.elapsed == 0,
    {
        Animation { data: clone_handle(data), current_frame: 0, elapsed: 0 }
    }

    /// The source rectangle of the current frame.
    pub fn current_rect(&self) -> (r: Rect)
        requires
            self.wf(),
        ensures
            r == self.data.frames@[self.current_frame as int].0,
    {
        self.data.frames[self.current_frame].0
    }

    /// Accumulates `dt` ticks and performs the due transitions, as described
    /// by [`advance_from`].
    pub fn advance(&mut self, dt: u32)
        requires
            old(self).wf(),
        ensures
            final(self).wf(),
            final(self).data == old(self).data,
            (final(self).current_frame as int, final(self).elapsed as int) == advance_from(
                old(self).data.frames@,
                old(self).data.looping,
                old(self).current_frame as int,
                old(self).elapsed + dt,
            ),
    {
        let ghost frames = self.data.frames@;
        let ghost looping = self.data.looping;
        let n = self.data.frames.len();
        let mut idx = self.current_frame;
        let mut acc: u64 = self.elapsed as u64 + dt as u64;
        while acc >= self.data.frames[idx].1 as u64 && (self.data.looping || idx < n - 1)
            invariant
                self.data.frames@ == frames,
                self.data.looping == looping,
                frames_wf(frames),
                n == frames.len(),
                idx < n,
                acc <= old(self).elapsed + dt,
                advance_from(frames, looping, old(self).current_frame as int, old(self).elapsed + dt)
                    == advance_from(frames, looping, idx as int, acc as int),
            decreases acc,
        {
            acc = acc - self.data.frames[idx].1 as u64;
            idx = if idx + 1 == n {
                0
            } else {
                idx + 1
            };
        }
        if acc >= self.data.frames[idx].1 as u64 {
            acc = self.data.frames[idx].1 as u64;
        }
        self.current_frame = idx;
        self.elapsed = acc as u32;
    }
}

} // verus!
