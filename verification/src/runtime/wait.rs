//! Blocking waits on signals.
//!
//! A wait ends when the watched signals are satisfied, become unsatisfiable, or
//! the deadline expires. [`Waiter::wait`] decides what to do next; whoever runs
//! the wait queries signals, registers and cancels the watch, reads the clock
//! and parks.

use vstd::prelude::*;

use crate::runtime::error::CoreError;
use crate::runtime::signal::{Signals, SignalsState};

verus! {

/// A waiter for signal changes.
#[derive(Debug, Clone, Copy, PartialEq, Eq, Structural)]
pub struct Waiter {
    /// Whether a watch reported since the last park.
    pub woken: bool,
}

/// What happened in a wait.
#[derive(Debug, Clone, Copy, PartialEq, Eq, Structural)]
pub enum WaitEvent {
    /// The signals were queried, at the start of a round.
    Checked {
        /// The signal state.
        state: SignalsState,
        /// Whether the deadline has passed.
        expired: bool,
    },
    /// The signals were queried again after the watch was registered.
    Watching {
        /// The signal state.
        state: SignalsState,
        /// Whether the deadline has passed.
        expired: bool,
    },
    /// A park ended.
    Unparked {
        /// Whether it ended because the deadline passed.
        timed_out: bool,
    },
}

/// What to do next in a wait.
#[derive(Debug, Clone, Copy, PartialEq, Eq)]
pub enum WaitAction {
    /// Return the result.
    Done(Result<SignalsState, CoreError>),
    /// Cancel the watch and return the result.
    CancelAndDone(Result<SignalsState, CoreError>),
    /// Register a watch and query the signals again.
    StartWatch,
    /// Park until the watch reports or the deadline passes.
    Park,
    /// Cancel the watch and query the signals again.
    CancelAndCheck,
}

/// What the signal state says about a wait: it is over, or not.
pub open spec fn settled(state: SignalsState, signals: Signals) -> Option<
    Result<SignalsState, CoreError>,
> {
    if state.satisfied.has(signals) {
        Some(Ok(state))
    } else if state.never(signals) {
        Some(Err(CoreError::FailedPrecondition))
    } else {
        None
    }
}

/// The next action of a wait, and whether the waiter counts as woken after it.
pub open spec fn wait_step(woken: bool, signals: Signals, event: WaitEvent) -> (WaitAction, bool) {
    match event {
        WaitEvent::Checked { state, expired } => match settled(state, signals) {
            Some(r) => (WaitAction::Done(r), woken),
            None => if expired {
                (WaitAction::Done(Err(CoreError::DeadlineExceeded)), woken)
            } else {
                (WaitAction::StartWatch, woken)
            },
        },
        WaitEvent::Watching { state, expired } => match settled(state, signals) {
            Some(r) => (WaitAction::CancelAndDone(r), woken),
            None => if woken {
                (WaitAction::CancelAndCheck, false)
            } else if expired {
                (WaitAction::CancelAndDone(Err(CoreError::DeadlineExceeded)), woken)
            } else {
                (WaitAction::Park, woken)
            },
        },
        WaitEvent::Unparked { timed_out } => if timed_out && !woken {
            (WaitAction::CancelAndDone(Err(CoreError::DeadlineExceeded)), woken)
        } else {
            (WaitAction::CancelAndCheck, false)
        },
    }
}

impl Default for Waiter {
    fn default() -> (r: Waiter)
        ensures
            !r.woken,
    {
        Waiter { woken: false }
    }
}

fn settle(state: SignalsState, signals: Signals) -> (r: Option<Result<SignalsState, CoreError>>)
    ensures
        r == settled(state, signals),
{
    if state.is_satisfied(signals) {
        return Some(Ok(state));
    }
    if state.is_unsatisfiable(signals) {
        return Some(Err(CoreError::FailedPrecondition));
    }
    None
}

impl Waiter {
    /// Create a waiter.
    pub fn new() -> (r: Waiter)
        ensures
            !r.woken,
    {
        Waiter { woken: false }
    }

    /// Mark the waiter woken: its watch reported.
    pub fn wake(&mut self)
        ensures
            final(self).woken,
    {
        self.woken = true;
    }

    /// Decide what a wait for `signals` does next.
    ///
    /// The wait ends with the signal state once the signals are satisfied,
    /// with `FailedPrecondition` once they are unsatisfiable, and with
    /// `DeadlineExceeded` once the deadline expired. It starts with
    /// [`WaitEvent::Checked`].
    pub fn wait(&mut self, signals: Signals, event: WaitEvent) -> (r: WaitAction)
        ensures
            (r, final(self).woken) == wait_step(old(self).woken, signals, event),
    {
        match event {
            WaitEvent::Checked { state, expired } => match settle(state, signals) {
                Some(r) => WaitAction::Done(r),
                None => if expired {
                    WaitAction::Done(Err(CoreError::DeadlineExceeded))
                } else {
                    WaitAction::StartWatch
                },
            },
            WaitEvent::Watching { state, expired } => match settle(state, signals) {
                Some(r) => WaitAction::CancelAndDone(r),
                None => {
                    if self.woken {
                        self.woken = false;
                        WaitAction::CancelAndCheck
                    } else if expired {
                        WaitAction::CancelAndDone(Err(CoreError::DeadlineExceeded))
                    } else {
                        WaitAction::Park
                    }
                },
            },
            WaitEvent::Unparked { timed_out } => {
                if timed_out && !self.woken {
                    WaitAction::CancelAndDone(Err(CoreError::DeadlineExceeded))
                } else {
                    self.woken = false;
                    WaitAction::CancelAndCheck
                }
            },
        }
    }
}

/// A wait succeeds only in a state that satisfies the signals, and fails with
/// `FailedPrecondition` only in one that never can.
pub proof fn law_wait_result_is_true(
    woken: bool,
    signals: Signals,
    state: SignalsState,
    expired: bool,
)
    ensures
        wait_step(woken, signals, WaitEvent::Checked { state, expired }).0 matches WaitAction::Done(
            r,
        ) ==> match r {
            Ok(s) => s == state && state.satisfied.has(signals),
            Err(e) => e == CoreError::FailedPrecondition && state.never(signals) || e
                == CoreError::DeadlineExceeded && expired,
        },
        wait_step(woken, signals, WaitEvent::Watching { state, expired }).0
            matches WaitAction::CancelAndDone(r) ==> match r {
            Ok(s) => s == state && state.satisfied.has(signals),
            Err(e) => e == CoreError::FailedPrecondition && state.never(signals) || e
                == CoreError::DeadlineExceeded && expired,
        },
{
}

/// No wakeup is lost: a report that comes between the registration of the
/// watch and the park keeps the waiter from parking.
pub proof fn law_no_lost_wakeup(signals: Signals, state: SignalsState, expired: bool)
    ensures
        !(wait_step(true, signals, WaitEvent::Watching { state, expired }).0 is Park),
        wait_step(true, signals, WaitEvent::Unparked { timed_out: true }).0
            == WaitAction::CancelAndCheck,
{
}

/// A wait ends as soon as its signals are all satisfied, or cannot all be any
/// more, whether the deadline has passed or not; otherwise with the deadline;
/// and else it goes on. A waiter that a watch woke looks again.
pub proof fn law_wait_goes_on_until_decided(
    woken: bool,
    signals: Signals,
    state: SignalsState,
    expired: bool,
)
    ensures
        ({
            let there = state.satisfied.0 & signals.0 == signals.0;
            let hopeless = !there && state.satisfiable.0 & signals.0 != signals.0;
            let first = wait_step(woken, signals, WaitEvent::Checked { state, expired }).0;
            let then = wait_step(woken, signals, WaitEvent::Watching { state, expired }).0;
            let late = Err::<SignalsState, CoreError>(CoreError::DeadlineExceeded);
            let never = Err::<SignalsState, CoreError>(CoreError::FailedPrecondition);
            &&& there ==> first == WaitAction::Done(Ok(state)) && then
                == WaitAction::CancelAndDone(Ok(state))
            &&& hopeless ==> first == WaitAction::Done(never) && then
                == WaitAction::CancelAndDone(never)
            &&& !there && !hopeless && expired ==> first == WaitAction::Done(late)
            &&& !there && !hopeless && !expired ==> first == WaitAction::StartWatch
            &&& !there && !hopeless && woken ==> then == WaitAction::CancelAndCheck
            &&& !there && !hopeless && !woken && expired ==> then == WaitAction::CancelAndDone(late)
            &&& !there && !hopeless && !woken && !expired ==> then == WaitAction::Park
        }),
        wait_step(false, signals, WaitEvent::Unparked { timed_out: true }).0
            == WaitAction::CancelAndDone(Err(CoreError::DeadlineExceeded)),
        wait_step(woken, signals, WaitEvent::Unparked { timed_out: false }) == (
            WaitAction::CancelAndCheck,
            false,
        ),
{
}

} // verus!
