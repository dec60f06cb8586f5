//! The subscription lifecycle: the per-subscription state machine and
//! the rules for tearing down the scheduler and dispatcher tasks.
//!
//! A subscription joins the mesh, processes events, and ends either by
//! cancellation or on a fatal error.  The two tasks race against one
//! cancellation signal; whichever ends first decides the other's fate
//! and the caller's result.

use vstd::prelude::*;

use crate::errors::Error;

verus! {

/// The per-subscription phases: waiting for the join confirmation,
/// processing events, or finished.
#[derive(Clone, Copy, Debug, PartialEq, Eq, Structural)]
pub enum Phase {
    Joining,
    Active,
    Cancelled,
    Errored,
}

/// What moves a subscription between phases.
#[derive(Clone, Copy, Debug, PartialEq, Eq, Structural)]
pub enum PhaseEvent {
    JoinConfirmed,
    CancelRequested,
    FatalError,
}

/// A finished subscription never leaves its final phase.
pub open spec fn is_terminal(p: Phase) -> bool {
    p is Cancelled || p is Errored
}

/// The phase after `ev` fires in phase `p`.
pub open spec fn spec_phase_step(p: Phase, ev: PhaseEvent) -> Phase {
    if is_terminal(p) {
        p
    } else {
        match ev {
            PhaseEvent::JoinConfirmed => Phase::Active,
            PhaseEvent::CancelRequested => Phase::Cancelled,
            PhaseEvent::FatalError => Phase::Errored,
        }
    }
}

/// Advance the subscription phase on one event.
pub fn phase_step(p: Phase, ev: PhaseEvent) -> (r: Phase)
    ensures
        r == spec_phase_step(p, ev),
{
    if p == Phase::Cancelled || p == Phase::Errored {
        p
    } else {
        match ev {
            PhaseEvent::JoinConfirmed => Phase::Active,
            PhaseEvent::CancelRequested => Phase::Cancelled,
            PhaseEvent::FatalError => Phase::Errored,
        }
    }
}

/// Terminal phases absorb every further event.
pub proof fn lemma_terminal_absorbing(p: Phase, ev: PhaseEvent)
    requires
        is_terminal(p),
    ensures
        spec_phase_step(p, ev) == p,
{
}

/// Which contender of the subscription race ended first.
pub enum RaceWinner {
    /// The external cancellation signal fired.
    Cancelled,
    /// The dispatcher ended, successfully or with its error.
    DispatcherFinished(Option<Error>),
    /// The scheduler ended; it only ends with an error.
    SchedulerFinished(Option<Error>),
}

/// What the lifecycle manager must do once the race is decided.
pub struct RaceResolution {
    pub abort_scheduler: bool,
    pub abort_dispatcher: bool,
    /// The caller's result: `None` is success.
    pub outcome: Option<Error>,
}

/// Decide the subscription race: cancellation aborts both tasks and is
/// not an error; either task ending first aborts the other and its
/// result is the caller's result.
pub fn resolve_race(w: RaceWinner) -> (r: RaceResolution)
    ensures
        match w {
            RaceWinner::Cancelled => r.abort_scheduler && r.abort_dispatcher && r.outcome is None,
            RaceWinner::DispatcherFinished(e) => r.abort_scheduler && !r.abort_dispatcher
                && r.outcome == e,
            RaceWinner::SchedulerFinished(e) => !r.abort_scheduler && r.abort_dispatcher
                && r.outcome == e,
        },
{
    match w {
        RaceWinner::Cancelled => RaceResolution {
            abort_scheduler: true,
            abort_dispatcher: true,
            outcome: None,
        },
        RaceWinner::DispatcherFinished(e) => RaceResolution {
            abort_scheduler: true,
            abort_dispatcher: false,
            outcome: e,
        },
        RaceWinner::SchedulerFinished(e) => RaceResolution {
            abort_scheduler: false,
            abort_dispatcher: true,
            outcome: e,
        },
    }
}

/// Which message handlers a store failure terminates the dispatch loop
/// for.  Check-in handling treats membership integrity as load-bearing
/// and fails the loop; file handlers skip the offending item.
#[derive(Clone, Copy, Debug, PartialEq, Eq, Structural)]
pub enum HandlerKind {
    CheckIn,
    Chat,
    File,
    FileBatch,
}

/// Whether a store failure in a handler ends the loop or only skips the
/// item at hand.
#[derive(Clone, Copy, Debug, PartialEq, Eq, Structural)]
pub enum StoreErrorPolicy {
    Fatal,
    SkipItem,
}

/// The dispatcher's explicit store-failure policy, per handler.
pub fn store_error_policy(k: HandlerKind) -> (r: StoreErrorPolicy)
    ensures
        (k is CheckIn <==> r is Fatal),
{
    match k {
        HandlerKind::CheckIn => StoreErrorPolicy::Fatal,
        HandlerKind::Chat => StoreErrorPolicy::SkipItem,
        HandlerKind::File => StoreErrorPolicy::SkipItem,
        HandlerKind::FileBatch => StoreErrorPolicy::SkipItem,
    }
}

} // verus!
