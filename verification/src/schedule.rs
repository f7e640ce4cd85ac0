//! The order of work in a run: the stages of a timestep, the warm-up in which
//! speeds are limited, the steps in which a frame is written, and the place
//! at which an interrupt ends the run.

use vstd::prelude::*;

verus! {

/// What a run does next.
#[derive(Clone, Copy, Debug, PartialEq, Eq, Structural)]
pub enum Stage {
    /// Integrate every particle before the forces are computed.
    PhaseA,
    /// Compute the forces from the current positions.
    Forces,
    /// Integrate every particle with the new forces.
    PhaseB,
    /// Report the energies and write a frame of the trajectory.
    Dump,
    /// Ask whether an interrupt has been received.
    Poll,
    /// Release the output; no further step is issued.
    Done,
}

/// A place in a run: a timestep and the stage that is due in it.
#[derive(Clone, Copy, Debug, PartialEq, Eq, Structural)]
pub struct Cursor {
    pub step: u32,
    pub stage: Stage,
}

/// The plan of a run.
#[derive(Clone, Copy, Debug, PartialEq, Eq, Structural)]
pub struct Schedule {
    /// Total number of timesteps.
    pub steps: u32,
    /// Number of timesteps at the start of the run in which speeds are limited.
    pub limit_steps: u32,
    /// A frame is written in every step whose number is a multiple of this.
    pub dump_interval: u32,
}

impl Schedule {
    /// A frame can only be written every so many steps if that is at least one.
    pub open spec fn wf(self) -> bool {
        self.dump_interval > 0
    }

    /// The speed limit is active in the first `limit_steps` steps.
    pub open spec fn limits(self, step: u32) -> bool {
        step < self.limit_steps
    }

    /// A frame is written in step 0 and then every `dump_interval` steps.
    pub open spec fn dumps(self, step: u32) -> bool {
        step % self.dump_interval == 0
    }

    /// Where a run starts: at the first phase of step 0, or at its end if it
    /// has no steps.
    pub open spec fn origin(self) -> Cursor {
        Cursor { step: 0, stage: if self.steps == 0 { Stage::Done } else { Stage::PhaseA } }
    }

    /// The place that follows `at`. Within a step the stages follow each other
    /// in a fixed order, whatever `interrupted` says; only when the interrupt
    /// is polled, at the end of a step, does it end the run.
    pub open spec fn after(self, at: Cursor, interrupted: bool) -> Cursor {
        match at.stage {
            Stage::PhaseA => Cursor { step: at.step, stage: Stage::Forces },
            Stage::Forces => Cursor { step: at.step, stage: Stage::PhaseB },
            Stage::PhaseB => Cursor {
                step: at.step,
                stage: if self.dumps(at.step) {
                    Stage::Dump
                } else {
                    Stage::Poll
                },
            },
            Stage::Dump => Cursor { step: at.step, stage: Stage::Poll },
            Stage::Poll => if !interrupted && at.step + 1 < self.steps {
                Cursor { step: (at.step + 1) as u32, stage: Stage::PhaseA }
            } else {
                Cursor { step: at.step, stage: Stage::Done }
            },
            Stage::Done => at,
        }
    }

    /// A bound on the number of stages between `at` and the end of the run: it
    /// is never negative and falls with every stage.
    pub open spec fn remaining(self, at: Cursor) -> int {
        let within: int = match at.stage {
            Stage::PhaseA => 5,
            Stage::Forces => 4,
            Stage::PhaseB => 3,
            Stage::Dump => 2,
            Stage::Poll => 1,
            Stage::Done => 0,
        };
        if at.stage == Stage::Done || at.step >= self.steps {
            within
        } else {
            5 * (self.steps - 1 - at.step) + within
        }
    }

    /// Tells whether the speed limit is active in `step`.
    pub fn speed_limited(&self, step: u32) -> (limited: bool)
        ensures
            limited == self.limits(step),
    {
        step < self.limit_steps
    }

    /// Where the run starts.
    pub fn start(&self) -> (at: Cursor)
        ensures
            at == self.origin(),
    {
        if self.steps == 0 {
            Cursor { step: 0, stage: Stage::Done }
        } else {
            Cursor { step: 0, stage: Stage::PhaseA }
        }
    }

    /// Moves on from `at`, whose stage has been carried out.
    /// * `interrupted` - whether an interrupt has been received
    pub fn advance(&self, at: Cursor, interrupted: bool) -> (next: Cursor)
        requires
            self.wf(),
        ensures
            next == self.after(at, interrupted),
            0 <= self.remaining(next),
            at.stage != Stage::Done ==> self.remaining(next) < self.remaining(at),
    {
        match at.stage {
            Stage::PhaseA => Cursor { step: at.step, stage: Stage::Forces },
            Stage::Forces => Cursor { step: at.step, stage: Stage::PhaseB },
            Stage::PhaseB => {
                if at.step % self.dump_interval == 0 {
                    Cursor { step: at.step, stage: Stage::Dump }
                } else {
                    Cursor { step: at.step, stage: Stage::Poll }
                }
            },
            Stage::Dump => Cursor { step: at.step, stage: Stage::Poll },
            Stage::Poll => {
                if !interrupted && at.step < u32::MAX && at.step + 1 < self.steps {
                    Cursor { step: at.step + 1, stage: Stage::PhaseA }
                } else {
                    Cursor { step: at.step, stage: Stage::Done }
                }
            },
            Stage::Done => at,
        }
    }
}

/// An interrupt is noticed between two steps and nowhere else: before the
/// poll at the end of a step, the run goes on as if there were none.
pub proof fn lemma_interrupt_waits_for_the_poll(schedule: Schedule, at: Cursor)
    requires
        at.stage != Stage::Poll,
    ensures
        schedule.after(at, true) == schedule.after(at, false),
{
}

/// A step that has begun runs through both phases, with the forces computed
/// between them, and reaches its poll, whatever interrupt arrives meanwhile.
pub proof fn lemma_step_is_carried_through(
    schedule: Schedule,
    step: u32,
    a: bool,
    b: bool,
    c: bool,
    d: bool,
)
    ensures
        ({
            let begun = Cursor { step, stage: Stage::PhaseA };
            let forces = schedule.after(begun, a);
            let second = schedule.after(forces, b);
            let third = schedule.after(second, c);
            let polled = if schedule.dumps(step) {
                schedule.after(third, d)
            } else {
                third
            };
            &&& forces == Cursor { step, stage: Stage::Forces }
            &&& second == Cursor { step, stage: Stage::PhaseB }
            &&& schedule.dumps(step) ==> third == Cursor { step, stage: Stage::Dump }
            &&& polled == Cursor { step, stage: Stage::Poll }
        }),
{
}

/// An interrupt seen at the poll ends the run there, and so does the last step.
pub proof fn lemma_poll_decides(schedule: Schedule, step: u32, interrupted: bool)
    ensures
        ({
            let next = schedule.after(Cursor { step, stage: Stage::Poll }, interrupted);
            if interrupted || step + 1 >= schedule.steps {
                next == Cursor { step, stage: Stage::Done }
            } else {
                next == Cursor { step: (step + 1) as u32, stage: Stage::PhaseA }
            }
        }),
{
}

} // verus!
