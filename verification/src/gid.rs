//! Block allocation of ids. A counter in the key-value store hands out blocks
//! of consecutive ids; each process keeps its current block in an `IdMax` and
//! grows the next block when blocks run out quickly, shrinks it when they last.
use vstd::prelude::*;

verus! {

/// The largest block that is ever asked for.
pub const STEP_MAX: u64 = 65535;

/// Name of the hash in the key-value store that holds the counters.
pub const GID: &'static str = "gid";

/// A block counts as quickly used up when the next one is asked for less than
/// this many nanoseconds after it (the nanosecond gap, rounded to the nearest
/// `f32`, is below `6e11` exactly when it is below this bound).
pub const FAST_REFILL_NANOS: u64 = 599_999_938_561;

/// The block an allocator is taking ids from: ids `id + 1 ..= max` are still to
/// be handed out; `time` is when the block was granted (0 before the first
/// one) and `step` the size of the next block to ask for.
#[derive(Debug, Default)]
pub struct IdMax {
    pub id: u64,
    pub max: u64,
    pub time: u64,
    pub step: u64,
}

/// The size of the next block, given the current size and how long ago the
/// current block was granted: doubled (up to `STEP_MAX`) when that was less
/// than `FAST_REFILL_NANOS` ago, halved when it was longer ago and the size is
/// above 2, unchanged before the first block.
pub open spec fn next_step_spec(time: u64, step: u64, now: u64) -> u64 {
    if time > 0 {
        if now - time < FAST_REFILL_NANOS {
            if step * 2 < STEP_MAX {
                (step * 2) as u64
            } else {
                STEP_MAX
            }
        } else if step > 2 {
            (step / 2) as u64
        } else {
            step
        }
    } else {
        step
    }
}

impl IdMax {
    /// The allocator before its first block.
    pub fn new() -> (r: IdMax)
        ensures
            r == (IdMax { id: 0, max: 0, time: 0, step: 1 }),
    {
        IdMax { id: 0, max: 0, time: 0, step: 1 }
    }

    /// Sets the size of the next block for a request made at `now`, and
    /// returns it: the amount by which the store's counter is to be raised.
    pub fn next_step(&mut self, now: u64) -> (step: u64)
        requires
            old(self).step <= STEP_MAX,
            old(self).time > 0 ==> now >= old(self).time,
        ensures
            step == next_step_spec(old(self).time, old(self).step, now),
            *final(self) == (IdMax { step, ..*old(self) }),
            step <= STEP_MAX,
            old(self).step >= 1 ==> step >= 1,
    {
        if self.time > 0 {
            let diff = now - self.time;
            if diff < FAST_REFILL_NANOS {
                let doubled = self.step * 2;
                self.step = if doubled < STEP_MAX {
                    doubled
                } else {
                    STEP_MAX
                };
            } else {
                if self.step > 2 {
                    self.step = self.step / 2;
                }
            }
        }
        self.step
    }

    /// Takes the block that the store granted: the counter now stands at
    /// `max`, so the ids `max - step + 1 ..= max` are this process's.
    pub fn refill(&mut self, max: u64, now: u64)
        requires
            max >= old(self).step,
        ensures
            *final(self) == (IdMax {
                id: (max - old(self).step) as u64,
                max,
                time: now,
                step: old(self).step,
            }),
    {
        self.max = max;
        self.id = max - self.step;
        self.time = now;
    }

    /// Hands out the next id of the block, and says whether that was its last
    /// one, so that a new block is to be asked for before the next id.
    pub fn take(&mut self) -> (r: (u64, bool))
        requires
            old(self).id < old(self).max,
        ensures
            r.0 == old(self).id + 1,
            r.1 == (r.0 == old(self).max),
            *final(self) == (IdMax { id: r.0, ..*old(self) }),
    {
        self.id = self.id + 1;
        let r = self.id;
        (r, r == self.max)
    }
}

/// What `take` does to an allocator, as a value.
pub open spec fn take_spec(s: IdMax) -> (IdMax, u64, bool) {
    let r = (s.id + 1) as u64;
    (IdMax { id: r, ..s }, r, r == s.max)
}

/// `k` takes in a row.
pub open spec fn takes(s: IdMax, k: nat) -> IdMax
    decreases k,
{
    if k == 0 {
        s
    } else {
        take_spec(takes(s, (k - 1) as nat)).0
    }
}

/// After a block of `step` ids has been granted with the counter at `max`,
/// the `k`-th take (counting from 0) hands out `max - step + k + 1`: the ids
/// come out one by one, increasing, each of them new, and only the last one,
/// `max` itself, asks for a new block.
pub proof fn law_block_hands_out_its_ids(max: u64, now: u64, step: u64, k: nat)
    requires
        1 <= step <= max,
        k < step,
    ensures
        ({
            let s = IdMax { id: (max - step) as u64, max, time: now, step };
            let t = takes(s, k);
            &&& t.id == max - step + k
            &&& t.id < t.max
            &&& take_spec(t).1 == max - step + k + 1
            &&& take_spec(t).2 == (k + 1 == step)
            &&& t.max == max && t.step == step && t.time == now
        }),
    decreases k,
{
    if k > 0 {
        law_block_hands_out_its_ids(max, now, step, (k - 1) as nat);
    }
}

/// The size of a block stays between 1 and `STEP_MAX` from one block to the
/// next, and a block used up quickly is followed by a larger one unless the
/// size is already at its bound.
pub proof fn law_step_bounds(time: u64, step: u64, now: u64)
    requires
        1 <= step <= STEP_MAX,
        time > 0 ==> now >= time,
    ensures
        1 <= next_step_spec(time, step, now) <= STEP_MAX,
        time > 0 && now - time < FAST_REFILL_NANOS && step < STEP_MAX ==> next_step_spec(
            time,
            step,
            now,
        ) > step,
        time > 0 && now - time >= FAST_REFILL_NANOS && step > 2 ==> next_step_spec(
            time,
            step,
            now,
        ) < step,
{
}

} // verus!
