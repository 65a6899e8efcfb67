//! Frequency-weighted obstacle generation.
//!
//! A set of obstacle pair templates, each with a spawn weight. Picking draws
//! a random value below the total weight and walks the weights until the
//! drawn value is used up; the selection for any given draw is fully
//! specified, only the draw itself is random.

use rand::Rng;
use vstd::prelude::*;

use crate::objects::MovingRect;

verus! {

/// The sum of the first `k` weights.
pub open spec fn prefix_sum(freqs: Seq<usize>, k: int) -> int
    decreases k,
{
    if k <= 0 {
        0
    } else {
        prefix_sum(freqs, k - 1) + freqs[k - 1]
    }
}

/// The index the weight walk stops at, starting at entry `k` with residual
/// draw `x`: the first entry whose weight exceeds the residue, or `count`
/// when the draw runs past every entry.
pub open spec fn pick_from(freqs: Seq<usize>, count: int, k: int, x: int) -> int
    decreases count - k,
{
    if k >= count {
        k
    } else if x < freqs[k] {
        k
    } else {
        pick_from(freqs, count, k + 1, x - freqs[k])
    }
}

proof fn lemma_prefix_sum_mono(freqs: Seq<usize>, i: int, j: int)
    requires
        0 <= i <= j <= freqs.len(),
    ensures
        prefix_sum(freqs, i) <= prefix_sum(freqs, j),
    decreases j - i,
{
    if i < j {
        lemma_prefix_sum_mono(freqs, i, j - 1);
    }
}

/// A table of obstacle pair templates (one for the top and one for the
/// bottom of the screen) with their relative spawn weights.
pub struct Obstacles {
    pub obstacles: Vec<(MovingRect, MovingRect)>,
    pub frequency_values: Vec<usize>,
}

/// Draws a uniformly random value in `[0, n)`.
///
/// Relies on `rand::Rng::gen_range` over the non-empty range `0..n` (from
/// `rand::thread_rng`): the result lies in the range; it panics only on an
/// empty range, which `n > 0` rules out.
#[verifier::external_body]
fn random_below(n: i32) -> (r: i32)
    requires
        n > 0,
    ensures
        0 <= r < n,
{
    rand::thread_rng().gen_range(0..n)
}

impl Obstacles {
    /// The total of all spawn weights.
    pub open spec fn total_weight(self) -> int {
        prefix_sum(self.frequency_values@, self.frequency_values@.len() as int)
    }

    /// The obstacle pair selected by a draw of `x`: the entry at which the
    /// weight walk stops, or the last entry when the walk runs past the end
    /// of the zipped weight/template lists.
    pub open spec fn spec_select(self, x: int) -> (MovingRect, MovingRect) {
        let count = if self.frequency_values@.len() <= self.obstacles@.len() {
            self.frequency_values@.len() as int
        } else {
            self.obstacles@.len() as int
        };
        let k = pick_from(self.frequency_values@, count, 0, x);
        if k < count {
            self.obstacles@[k]
        } else {
            self.obstacles@[self.obstacles@.len() - 1]
        }
    }

    /// Walks the weights with the already-drawn value `x` and returns the
    /// selected obstacle pair; deterministic in `x`.
    pub fn select_obstacle(&self, x: i32) -> (r: (MovingRect, MovingRect))
        requires
            self.obstacles@.len() > 0,
            x >= 0,
        ensures
            r == self.spec_select(x as int),
    {
        let count = if self.frequency_values.len() <= self.obstacles.len() {
            self.frequency_values.len()
        } else {
            self.obstacles.len()
        };
        let mut k: usize = 0;
        let mut residue: u64 = x as u64;
        while k < count && residue >= self.frequency_values[k] as u64
            invariant
                count <= self.frequency_values@.len(),
                count <= self.obstacles@.len(),
                0 <= k <= count,
                pick_from(self.frequency_values@, count as int, 0, x as int) == pick_from(
                    self.frequency_values@,
                    count as int,
                    k as int,
                    residue as int,
                ),
            decreases count - k,
        {
            residue = residue - self.frequency_values[k] as u64;
            k = k + 1;
        }
        if k < count {
            self.obstacles[k]
        } else {
            self.obstacles[self.obstacles.len() - 1]
        }
    }

    /// Randomly picks an obstacle pair, each entry with probability
    /// proportional to its weight: the selection for the drawn value is
    /// exact, the draw itself is uniform below the total weight.
    pub fn generate_obstacles(&self) -> (r: (MovingRect, MovingRect))
        requires
            self.obstacles@.len() > 0,
            0 < self.total_weight() <= i32::MAX,
        ensures
            exists|x: int| 0 <= x < self.total_weight() && r == self.spec_select(x),
    {
        let n = self.frequency_values.len();
        let mut total: u64 = 0;
        let mut i: usize = 0;
        while i < n
            invariant
                n == self.frequency_values@.len(),
                0 <= i <= n,
                total == prefix_sum(self.frequency_values@, i as int),
                self.total_weight() <= i32::MAX,
            decreases n - i,
        {
            proof {
                lemma_prefix_sum_mono(self.frequency_values@, i + 1, n as int);
            }
            total = total + self.frequency_values[i] as u64;
            i = i + 1;
        }
        let x = random_below(total as i32);
        let r = self.select_obstacle(x);
        proof {
            assert(0 <= x < self.total_weight() && r == self.spec_select(x as int));
        }
        r
    }
}

} // verus!
