use vstd::prelude::*;

verus! {

/// `count + step`, wrapping around past `usize::MAX`.
pub open spec fn wrapped_sum(count: usize, step: usize) -> usize {
    if count + step > usize::MAX {
        (count + step - usize::MAX - 1) as usize
    } else {
        (count + step) as usize
    }
}

/// Simple counter, taking a configurable step size
#[derive(Clone, Copy, Debug)]
pub struct LineCounter {
    count: usize,
    step: usize,
}

impl LineCounter {
    /// The current value.
    pub closed spec fn spec_count(&self) -> usize {
        self.count
    }

    /// How much each `increment` adds.
    pub closed spec fn spec_step(&self) -> usize {
        self.step
    }

    /// New LineCounter
    ///
    /// # Arguments
    /// * step_size - how much to `increment` at a time
    pub fn new(step_size: usize) -> (r: Self)
        ensures
            r.spec_count() == 0,
            r.spec_step() == step_size,
    {
        LineCounter { count: 0, step: step_size }
    }

    /// Increment counter using the given step size; past `usize::MAX` it wraps.
    pub fn increment(&mut self)
        ensures
            final(self).spec_count() == wrapped_sum(old(self).spec_count(), old(self).spec_step()),
            final(self).spec_step() == old(self).spec_step(),
    {
        self.count = self.count.wrapping_add(self.step);
    }

    /// The current value.
    pub fn count(&self) -> (r: usize)
        ensures
            r == self.spec_count(),
    {
        self.count
    }

    /// How much each `increment` adds.
    pub fn step(&self) -> (r: usize)
        ensures
            r == self.spec_step(),
    {
        self.step
    }
}

impl Default for LineCounter {
    /// A counter that steps by 16, the default line width.
    fn default() -> (r: Self)
        ensures
            r.spec_count() == 0,
            r.spec_step() == 16,
    {
        LineCounter::new(16)
    }
}

} // verus!
