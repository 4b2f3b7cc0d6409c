//! The policy that decides on which steps the neighbour list is rebuilt.

use vstd::prelude::*;

verus! {

/// When to rebuild: on steps a multiple of `every` after the last rebuild,
/// not sooner than `delay` steps after it, and, if `check` is set, only once
/// an atom has moved too far.
pub struct UpdateSettings {
    pub every: usize,
    pub delay: usize,
    pub check: bool,
    last_update_step: usize,
}

impl UpdateSettings {
    pub closed spec fn spec_every(&self) -> usize {
        self.every
    }

    pub closed spec fn spec_delay(&self) -> usize {
        self.delay
    }

    pub closed spec fn spec_check(&self) -> bool {
        self.check
    }

    pub closed spec fn spec_last_update_step(&self) -> usize {
        self.last_update_step
    }

    /// Whether a rebuild is due at `step` as far as the step count goes: the
    /// steps since the last rebuild are a multiple of `every` and not fewer
    /// than `delay`.
    pub open spec fn spec_due(&self, step: usize) -> bool {
        let since = step - self.spec_last_update_step();
        since % (self.spec_every() as int) == 0 && since >= self.spec_delay()
    }

    /// Whether the list is rebuilt at `step`: a rebuild is due, and either
    /// the policy does not look at the atoms or one of them has moved too
    /// far.
    pub open spec fn spec_should_update(&self, step: usize, moved_too_far: bool) -> bool {
        self.spec_due(step) && (!self.spec_check() || moved_too_far)
    }

    /// A policy whose last rebuild is step zero.
    pub fn new(every: usize, delay: usize, check: bool) -> (s: Self)
        ensures
            s.spec_every() == every,
            s.spec_delay() == delay,
            s.spec_check() == check,
            s.spec_last_update_step() == 0,
    {
        UpdateSettings { every, delay, check, last_update_step: 0 }
    }

    /// The step of the last rebuild.
    pub fn last_update_step(&self) -> (step: usize)
        ensures
            step == self.spec_last_update_step(),
    {
        self.last_update_step
    }

    /// Whether a rebuild is due at `step` as far as the step count goes.
    pub fn should_update_neighbors(&self, step: usize) -> (b: bool)
        requires
            self.spec_every() > 0,
            step >= self.spec_last_update_step(),
        ensures
            b == self.spec_due(step),
    {
        let since: usize = step - self.last_update_step;
        (since % self.every == 0) && (since >= self.delay)
    }

    /// Whether the list is rebuilt at `step`, given whether an atom has
    /// moved farther than half the skin since the last rebuild.
    pub fn should_update(&self, step: usize, moved_too_far: bool) -> (b: bool)
        requires
            self.spec_every() > 0,
            step >= self.spec_last_update_step(),
        ensures
            b == self.spec_should_update(step, moved_too_far),
    {
        self.should_update_neighbors(step) && (!self.check || moved_too_far)
    }

    /// Notes that the list was rebuilt at `step`.
    pub fn record_update(&mut self, step: usize)
        ensures
            final(self).spec_last_update_step() == step,
            final(self).spec_every() == old(self).spec_every(),
            final(self).spec_delay() == old(self).spec_delay(),
            final(self).spec_check() == old(self).spec_check(),
    {
        self.last_update_step = step;
    }
}

} // verus!
