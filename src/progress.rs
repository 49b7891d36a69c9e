use vstd::prelude::*;

verus! {

/// The percentage shown after `step` of `max` steps, `step * 100 / max`, rounded down; 0 while
/// no total is known.
pub open spec fn percent(step: nat, max: nat) -> nat {
    if max == 0 {
        0
    } else {
        step * 100 / max
    }
}

/// Progress of the copy pass, as a throttled percentage.
#[derive(Debug)]
pub struct WorkingIndicator {
    pub max_step: u64,
    pub step: u64,
    pub last_percentage: u64,
}

impl WorkingIndicator {
    /// The shown percentage is that of the steps done.
    pub open spec fn wf(&self) -> bool {
        self.last_percentage == percent(self.step as nat, self.max_step as nat)
    }

    /// An indicator for `max` steps, none done yet.
    pub fn new(max: u64) -> (r: Self)
        ensures
            r.wf(),
            r.max_step == max,
            r.step == 0,
            r.last_percentage == 0,
    {
        proof {
            if max > 0 {
                assert(0nat * 100 / (max as nat) == 0) by (nonlinear_arith)
                    requires
                        max > 0,
                ;
            }
        }
        WorkingIndicator { max_step: max, step: 0, last_percentage: 0 }
    }

    /// Records `n` more steps done. Returns whether a new frame is to be drawn: when the shown
    /// percentage changed, or, while no total is known, whenever steps were done (the
    /// rotating indicator turns).
    pub fn update(&mut self, n: u64) -> (redraw: bool)
        requires
            old(self).wf(),
            old(self).step + n <= u64::MAX,
            percent((old(self).step + n) as nat, old(self).max_step as nat) <= u64::MAX,
        ensures
            final(self).wf(),
            final(self).max_step == old(self).max_step,
            final(self).step == old(self).step + n,
            redraw == if old(self).max_step == 0 {
                n > 0
            } else {
                final(self).last_percentage != old(self).last_percentage
            },
    {
        self.step = self.step + n;
        let p = Self::percentage_of(self.step, self.max_step);
        let redraw = if self.max_step == 0 {
            n > 0
        } else {
            p != self.last_percentage
        };
        self.last_percentage = p;
        redraw
    }

    /// Whether `n` more steps can be recorded with the step count and the percentage within a
    /// `u64`.
    pub fn can_advance(&self, n: u64) -> (r: bool)
        ensures
            r == (self.step + n <= u64::MAX && percent((self.step + n) as nat, self.max_step as nat)
                <= u64::MAX),
    {
        if self.step > u64::MAX - n {
            return false;
        }
        if self.max_step == 0 {
            return true;
        }
        let q: u128 = (self.step as u128 + n as u128) * 100 / (self.max_step as u128);
        q <= u64::MAX as u128
    }

    /// The frame of the rotating indicator shown while no total is known: one of four, turning
    /// with each step.
    pub fn frame(&self) -> (r: u64)
        ensures
            r == self.step % 4,
            r < 4,
    {
        self.step % 4
    }

    /// The percentage of `step` out of `max`.
    pub fn percentage_of(step: u64, max: u64) -> (r: u64)
        requires
            percent(step as nat, max as nat) <= u64::MAX,
        ensures
            r == percent(step as nat, max as nat),
    {
        if max == 0 {
            0
        } else {
            proof {
                assert((step as nat) * 100 <= u64::MAX * 100) by (nonlinear_arith)
                    requires
                        step <= u64::MAX,
                ;
            }
            let q: u128 = (step as u128) * 100 / (max as u128);
            q as u64
        }
    }
}

/// The shown percentage never decreases as steps are done.
pub proof fn lemma_percent_monotone(s1: nat, s2: nat, max: nat)
    requires
        s1 <= s2,
    ensures
        percent(s1, max) <= percent(s2, max),
{
    if max > 0 {
        assert(s1 * 100 / max <= s2 * 100 / max) by (nonlinear_arith)
            requires
                s1 <= s2,
                max > 0,
        ;
    }
}

} // verus!
