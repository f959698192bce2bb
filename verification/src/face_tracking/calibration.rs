//! Calibration steps and the frame count that moves from one to the next.

use vstd::prelude::*;

verus! {

/// Frames collected per calibration step (about one second at 90 fps).
pub const FRAMES_PER_STEP: usize = 90;

/// Calibration steps: each asks the user for one expression.
#[derive(Debug, Clone, Copy, PartialEq, Eq, Structural)]
pub enum CalibrationStep {
    /// Relax the face completely (baseline minimums).
    Relax,
    /// Open the mouth wide, raise the eyebrows (maximums).
    ExaggerateAll,
    /// Done: weights come from the collected range.
    Done,
}

pub open spec fn step_index(s: CalibrationStep) -> u8 {
    match s {
        CalibrationStep::Relax => 0,
        CalibrationStep::ExaggerateAll => 1,
        CalibrationStep::Done => 2,
    }
}

pub open spec fn step_next(s: CalibrationStep) -> CalibrationStep {
    match s {
        CalibrationStep::Relax => CalibrationStep::ExaggerateAll,
        CalibrationStep::ExaggerateAll => CalibrationStep::Done,
        CalibrationStep::Done => CalibrationStep::Done,
    }
}

impl CalibrationStep {
    pub fn index(self) -> (r: u8)
        ensures
            r == step_index(self),
    {
        match self {
            CalibrationStep::Relax => 0,
            CalibrationStep::ExaggerateAll => 1,
            CalibrationStep::Done => 2,
        }
    }

    /// The step after this one; `Done` stays `Done`.
    pub fn next(self) -> (r: Self)
        ensures
            r == step_next(self),
            step_index(r) == if step_index(self) < 2 { step_index(self) + 1 } else { 2 },
    {
        match self {
            CalibrationStep::Relax => CalibrationStep::ExaggerateAll,
            CalibrationStep::ExaggerateAll => CalibrationStep::Done,
            CalibrationStep::Done => CalibrationStep::Done,
        }
    }
}

/// Where a calibration stands: the step and the frames collected in it.
#[derive(Debug, Clone, Copy)]
pub struct CalibrationProgress {
    step: CalibrationStep,
    frames_collected: usize,
}

impl CalibrationProgress {
    #[verifier::type_invariant]
    spec fn inv(&self) -> bool {
        self.frames_collected < FRAMES_PER_STEP
    }

    pub closed spec fn step_spec(&self) -> CalibrationStep {
        self.step
    }

    pub closed spec fn frames_spec(&self) -> usize {
        self.frames_collected
    }

    pub fn new() -> (r: Self)
        ensures
            r.step_spec() == CalibrationStep::Relax,
            r.frames_spec() == 0,
    {
        CalibrationProgress { step: CalibrationStep::Relax, frames_collected: 0 }
    }

    pub fn current_step(&self) -> (r: CalibrationStep)
        ensures
            r == self.step_spec(),
    {
        self.step
    }

    pub fn frames_collected(&self) -> (r: usize)
        ensures
            r == self.frames_spec(),
            r < FRAMES_PER_STEP,
    {
        proof {
            use_type_invariant(self);
        }
        self.frames_collected
    }

    pub fn is_done(&self) -> (r: bool)
        ensures
            r == (self.step_spec() == CalibrationStep::Done),
    {
        match self.step {
            CalibrationStep::Done => true,
            _ => false,
        }
    }

    /// Count one frame; true when the step is complete (always, once
    /// done). The `FRAMES_PER_STEP`-th frame of a step moves to the next.
    pub fn record_frame(&mut self) -> (complete: bool)
        ensures
            old(self).step_spec() == CalibrationStep::Done ==> complete && final(self).step_spec()
                == CalibrationStep::Done && final(self).frames_spec() == old(self).frames_spec(),
            old(self).step_spec() != CalibrationStep::Done ==> {
                if old(self).frames_spec() + 1 >= FRAMES_PER_STEP {
                    &&& complete
                    &&& final(self).frames_spec() == 0
                    &&& final(self).step_spec() == step_next(old(self).step_spec())
                } else {
                    &&& !complete
                    &&& final(self).frames_spec() == old(self).frames_spec() + 1
                    &&& final(self).step_spec() == old(self).step_spec()
                }
            },
    {
        proof {
            use_type_invariant(&*self);
        }
        if self.is_done() {
            return true;
        }
        let n = self.frames_collected + 1;
        if n >= FRAMES_PER_STEP {
            self.frames_collected = 0;
            self.step = self.step.next();
            true
        } else {
            self.frames_collected = n;
            false
        }
    }
}

} // verus!
