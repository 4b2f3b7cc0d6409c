//! The order of a time step. The driver says what is done next; whoever runs
//! the simulation does it and asks again.

use crate::neighbor::neighbor_update_settings::UpdateSettings;
use vstd::prelude::*;

verus! {

/// The stages of a time step, in their order.
#[derive(Clone, Copy, Debug, PartialEq, Eq, Structural)]
pub enum Phase {
    PreForward,
    ForwardComm,
    PostForward,
    RebuildCheck,
    PreForce,
    ForceCompute,
    PreReverse,
    ReverseComm,
    PostReverse,
    OutputCheck,
}

/// What is to be done at a stage.
#[derive(Clone, Copy, Debug, PartialEq, Eq, Structural)]
pub enum Action {
    /// Half a kick by the forces, then a drift by the new velocities.
    KickAndDrift,
    /// Publish the owned atoms near the faces as ghosts.
    ForwardComm,
    /// The hook after publishing.
    PostForward,
    /// Wrap the atoms around the periodic axes, exchange ownership and
    /// build the neighbour list anew.
    Rebuild,
    /// Keep the neighbour list as it is.
    KeepNeighbors,
    /// The hook before the forces.
    PreForce,
    /// Reset the forces and compute them.
    ComputeForces,
    /// The hook before the forces on ghosts go back.
    PreReverse,
    /// Return the forces on ghosts to the owners of the atoms.
    ReverseComm,
    /// The second half of the kick.
    Kick,
    /// Write the row of this step.
    WriteRow,
    /// Write nothing at this step.
    SkipRow,
    /// The run is over; nothing is left to do.
    Finished,
}

impl Phase {
    /// The place of the stage in a step, from zero.
    pub open spec fn spec_index(self) -> int {
        match self {
            Phase::PreForward => 0,
            Phase::ForwardComm => 1,
            Phase::PostForward => 2,
            Phase::RebuildCheck => 3,
            Phase::PreForce => 4,
            Phase::ForceCompute => 5,
            Phase::PreReverse => 6,
            Phase::ReverseComm => 7,
            Phase::PostReverse => 8,
            Phase::OutputCheck => 9,
        }
    }

    /// The stage that follows; after the last one a step begins anew.
    pub open spec fn spec_next(self) -> Phase {
        match self {
            Phase::PreForward => Phase::ForwardComm,
            Phase::ForwardComm => Phase::PostForward,
            Phase::PostForward => Phase::RebuildCheck,
            Phase::RebuildCheck => Phase::PreForce,
            Phase::PreForce => Phase::ForceCompute,
            Phase::ForceCompute => Phase::PreReverse,
            Phase::PreReverse => Phase::ReverseComm,
            Phase::ReverseComm => Phase::PostReverse,
            Phase::PostReverse => Phase::OutputCheck,
            Phase::OutputCheck => Phase::PreForward,
        }
    }

    /// The stage that follows; after the last one a step begins anew.
    pub fn next(&self) -> (p: Phase)
        ensures
            p == self.spec_next(),
            p.spec_index() == (self.spec_index() + 1) % 10,
    {
        match self {
            Phase::PreForward => Phase::ForwardComm,
            Phase::ForwardComm => Phase::PostForward,
            Phase::PostForward => Phase::RebuildCheck,
            Phase::RebuildCheck => Phase::PreForce,
            Phase::PreForce => Phase::ForceCompute,
            Phase::ForceCompute => Phase::PreReverse,
            Phase::PreReverse => Phase::ReverseComm,
            Phase::ReverseComm => Phase::PostReverse,
            Phase::PostReverse => Phase::OutputCheck,
            Phase::OutputCheck => Phase::PreForward,
        }
    }
}

/// Where a run stands: the step, the stage within it, and the policies that
/// decide about rebuilding the neighbour list and about output.
pub struct Driver {
    step: usize,
    num_steps: usize,
    phase: Phase,
    finished: bool,
    nl_update: UpdateSettings,
    output_every: usize,
}

impl Driver {
    pub closed spec fn spec_step(&self) -> usize {
        self.step
    }

    pub closed spec fn spec_num_steps(&self) -> usize {
        self.num_steps
    }

    pub closed spec fn spec_phase(&self) -> Phase {
        self.phase
    }

    pub closed spec fn spec_finished(&self) -> bool {
        self.finished
    }

    pub closed spec fn spec_nl_update(&self) -> UpdateSettings {
        self.nl_update
    }

    pub closed spec fn spec_output_every(&self) -> usize {
        self.output_every
    }

    /// The run has not gone past its last step, the neighbour list was not
    /// rebuilt in the future, and both policies count in steps of at least
    /// one.
    pub open spec fn wf(&self) -> bool {
        &&& self.spec_step() <= self.spec_num_steps()
        &&& self.spec_nl_update().spec_last_update_step() <= self.spec_step()
        &&& self.spec_nl_update().spec_every() > 0
        &&& self.spec_output_every() > 0
    }

    /// Whether the neighbour list is rebuilt in this step: it was never
    /// built, or the policy asks for it.
    pub open spec fn spec_rebuilds(&self, nl_built: bool, moved_too_far: bool) -> bool {
        !nl_built || self.spec_nl_update().spec_should_update(self.spec_step(), moved_too_far)
    }

    /// What is done at the stage the run is at.
    pub open spec fn spec_action(&self, nl_built: bool, moved_too_far: bool) -> Action {
        if self.spec_finished() {
            Action::Finished
        } else {
            match self.spec_phase() {
                Phase::PreForward => Action::KickAndDrift,
                Phase::ForwardComm => Action::ForwardComm,
                Phase::PostForward => Action::PostForward,
                Phase::RebuildCheck => if self.spec_rebuilds(nl_built, moved_too_far) {
                    Action::Rebuild
                } else {
                    Action::KeepNeighbors
                },
                Phase::PreForce => Action::PreForce,
                Phase::ForceCompute => Action::ComputeForces,
                Phase::PreReverse => Action::PreReverse,
                Phase::ReverseComm => Action::ReverseComm,
                Phase::PostReverse => Action::Kick,
                Phase::OutputCheck => if self.spec_step() % self.spec_output_every() == 0 {
                    Action::WriteRow
                } else {
                    Action::SkipRow
                },
            }
        }
    }

    /// A run of the steps `0` to `num_steps`, both included, at the start of
    /// step `0`. The neighbour list is considered every `every` steps, not
    /// sooner than `delay` steps after the last rebuild, and, with `check`,
    /// only once an atom has moved too far; a row is written every
    /// `output_every` steps.
    pub fn new(num_steps: usize, every: usize, delay: usize, check: bool, output_every: usize) -> (d:
        Self)
        requires
            every > 0,
            output_every > 0,
        ensures
            d.wf(),
            d.spec_step() == 0,
            d.spec_num_steps() == num_steps,
            d.spec_phase() == Phase::PreForward,
            !d.spec_finished(),
            d.spec_nl_update().spec_every() == every,
            d.spec_nl_update().spec_delay() == delay,
            d.spec_nl_update().spec_check() == check,
            d.spec_nl_update().spec_last_update_step() == 0,
            d.spec_output_every() == output_every,
    {
        Driver {
            step: 0,
            num_steps,
            phase: Phase::PreForward,
            finished: false,
            nl_update: UpdateSettings::new(every, delay, check),
            output_every,
        }
    }

    /// The step the run is in.
    pub fn step(&self) -> (s: usize)
        ensures
            s == self.spec_step(),
    {
        self.step
    }

    /// The stage the run is at.
    pub fn phase(&self) -> (p: Phase)
        ensures
            p == self.spec_phase(),
    {
        self.phase
    }

    /// Whether the run is over.
    pub fn is_finished(&self) -> (b: bool)
        ensures
            b == self.spec_finished(),
    {
        self.finished
    }

    /// Says what is done at the stage the run is at, and moves on to the
    /// next stage. `nl_built` tells whether the neighbour list was ever
    /// built, `moved_too_far` whether an atom has moved farther than half
    /// the skin since the last rebuild.
    ///
    /// A rebuild is noted as the last rebuild. After the last stage of a
    /// step the next step begins, and after the last stage of the last step
    /// the run is over and stays so.
    pub fn next(&mut self, nl_built: bool, moved_too_far: bool) -> (action: Action)
        requires
            old(self).wf(),
        ensures
            final(self).wf(),
            action == old(self).spec_action(nl_built, moved_too_far),
            final(self).spec_num_steps() == old(self).spec_num_steps(),
            final(self).spec_output_every() == old(self).spec_output_every(),
            final(self).spec_nl_update().spec_every() == old(self).spec_nl_update().spec_every(),
            final(self).spec_nl_update().spec_delay() == old(self).spec_nl_update().spec_delay(),
            final(self).spec_nl_update().spec_check() == old(self).spec_nl_update().spec_check(),
            final(self).spec_nl_update().spec_last_update_step() == if action == Action::Rebuild {
                old(self).spec_step()
            } else {
                old(self).spec_nl_update().spec_last_update_step()
            },
            old(self).spec_finished() ==> final(self).spec_finished() && final(self).spec_phase()
                == old(self).spec_phase() && final(self).spec_step() == old(self).spec_step(),
            !old(self).spec_finished() ==> {
                let last_stage = old(self).spec_phase() == Phase::OutputCheck;
                let last_step = old(self).spec_step() == old(self).spec_num_steps();
                &&& final(self).spec_finished() == (last_stage && last_step)
                &&& final(self).spec_phase() == old(self).spec_phase().spec_next()
                &&& final(self).spec_step() == if last_stage && !last_step {
                    old(self).spec_step() + 1
                } else {
                    old(self).spec_step() as int
                }
            },
    {
        if self.finished {
            return Action::Finished;
        }
        let action: Action = match self.phase {
            Phase::PreForward => Action::KickAndDrift,
            Phase::ForwardComm => Action::ForwardComm,
            Phase::PostForward => Action::PostForward,
            Phase::RebuildCheck => {
                if !nl_built || self.nl_update.should_update(self.step, moved_too_far) {
                    self.nl_update.record_update(self.step);
                    Action::Rebuild
                } else {
                    Action::KeepNeighbors
                }
            },
            Phase::PreForce => Action::PreForce,
            Phase::ForceCompute => Action::ComputeForces,
            Phase::PreReverse => Action::PreReverse,
            Phase::ReverseComm => Action::ReverseComm,
            Phase::PostReverse => Action::Kick,
            Phase::OutputCheck => {
                let due: bool = self.step % self.output_every == 0;
                if self.step == self.num_steps {
                    self.finished = true;
                } else {
                    self.step = self.step + 1;
                }
                if due {
                    Action::WriteRow
                } else {
                    Action::SkipRow
                }
            },
        };
        self.phase = self.phase.next();
        action
    }
}

} // verus!
