//! The run loop's control states and their transitions. The loop itself
//! lives with the windowing collaborator; every decision it takes — when to
//! keep stepping, when to wait for a key, when nothing may run again — is
//! this one total transition function.

use vstd::prelude::*;
use crate::state::Fault;
use crate::state::StepOutcome;

verus! {

/// The control state of the run loop. No transition leaves `Halted`.
#[derive(Clone, Copy, Debug, PartialEq, Eq)]
pub enum RunState {
    /// Instructions are being stepped.
    Running,
    /// The machine waits for a key press whose code goes to this register;
    /// timers and stop requests stay live meanwhile.
    Blocked(u8),
    /// Terminal: a fault from the machine, or `None` after an external
    /// stop request.
    Halted(Option<Fault>),
}

/// What the run loop observed in one iteration.
#[derive(Clone, Copy, Debug, PartialEq, Eq)]
pub enum RunEvent {
    /// One step of the machine completed with this outcome.
    Stepped(StepOutcome),
    /// A key transitioned to pressed. While blocked, the loop also hands
    /// the key code to the machine's awaited register.
    KeyPressed(u8),
    /// The external collaborator asked to stop.
    StopRequested,
}

/// The control state a step outcome puts the loop in.
pub open spec fn outcome_state(outcome: StepOutcome) -> RunState {
    match outcome {
        StepOutcome::Continuing => RunState::Running,
        StepOutcome::BlockedOnKey(x) => RunState::Blocked(x),
        StepOutcome::Halted(f) => RunState::Halted(Some(f)),
    }
}

/// Advances the run loop's control state by one observed event: halting is
/// terminal, a stop request halts from any live state, a step outcome
/// drives the running state, a key press resumes a blocked machine, and a
/// blocked machine does not step.
pub fn run_transition(rs: RunState, ev: RunEvent) -> (next: RunState)
    ensures
        rs is Halted ==> next == rs,
        !(rs is Halted) && ev is StopRequested ==> next == RunState::Halted(None),
        rs is Running ==> (ev matches RunEvent::Stepped(outcome) ==> next == outcome_state(outcome)),
        !(rs is Halted) && ev is KeyPressed ==> next == RunState::Running,
        rs is Blocked && ev is Stepped ==> next == rs,
{
    match rs {
        RunState::Halted(_) => rs,
        _ => match ev {
            RunEvent::StopRequested => RunState::Halted(None),
            RunEvent::KeyPressed(_) => RunState::Running,
            RunEvent::Stepped(outcome) => match rs {
                RunState::Running => match outcome {
                    StepOutcome::Continuing => RunState::Running,
                    StepOutcome::BlockedOnKey(x) => RunState::Blocked(x),
                    StepOutcome::Halted(f) => RunState::Halted(Some(f)),
                },
                _ => rs,
            },
        },
    }
}

} // verus!
