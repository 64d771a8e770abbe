//! The device lifecycle as a state machine: the phases the program moves
//! through after the interface exists, the events the outside steps
//! report, and the action each transition asks for. The caller performs
//! the actions (printing, waiting, dropping the handle); the decisions
//! all stand here.

use vstd::prelude::*;

verus! {

/// Phase of the program once device creation has succeeded.
#[derive(Clone, Copy, Debug, PartialEq, Eq, Structural)]
pub enum LifecyclePhase {
    /// The interface exists; nothing has been reported yet.
    Created,
    /// The optional inspection step has run and its outcome was reported.
    Reported,
    /// The program is waiting for an interrupt signal.
    Running,
    /// A signal arrived, or the wait itself failed: the device handle is
    /// to be released. `clean` is whether the wait ended normally.
    ShuttingDown { clean: bool },
    /// The handle is released and the process is about to exit.
    Terminated,
}

/// Outcome of one outside step, reported back to the state machine.
#[derive(Clone, Copy, Debug, PartialEq, Eq, Structural)]
pub enum LifecycleEvent {
    /// The inspection command ran and exited successfully.
    InspectionSucceeded,
    /// The inspection command could not run or exited non-zero.
    InspectionFailed,
    /// The optional inspection step was disabled.
    InspectionSkipped,
    /// The inspection outcome has been reported.
    ReportEmitted,
    /// The awaited interrupt signal arrived.
    SignalReceived,
    /// The signal facility itself failed.
    SignalWaitFailed,
    /// The device handle has been released.
    DeviceReleased,
}

/// What the caller is to do next.
#[derive(Clone, Copy, Debug, PartialEq, Eq, Structural)]
pub enum LifecycleAction {
    /// Print the inspection command's captured standard output verbatim.
    PrintInspectionReport,
    /// Log the inspection command's captured standard error as a warning.
    WarnInspectionFailure,
    /// Suspend until an interrupt signal arrives.
    AwaitInterrupt,
    /// Let the device handle go out of scope.
    ReleaseDevice,
    /// Exit the process with status zero.
    ExitSuccess,
    /// Exit the process with a non-zero status.
    ExitFailure,
}

/// The transition table: the phase entered and the action to perform on
/// `event` in `phase`, or `None` where the event cannot occur in that
/// phase. Transitions are strictly sequential and irreversible; both
/// inspection outcomes proceed, only the wait outcome decides the exit
/// status.
pub open spec fn advance_spec(phase: LifecyclePhase, event: LifecycleEvent) -> Option<
    (LifecyclePhase, LifecycleAction),
> {
    match (phase, event) {
        (
            LifecyclePhase::Created,
            LifecycleEvent::InspectionSucceeded,
        ) => Some((LifecyclePhase::Reported, LifecycleAction::PrintInspectionReport)),
        (
            LifecyclePhase::Created,
            LifecycleEvent::InspectionFailed,
        ) => Some((LifecyclePhase::Reported, LifecycleAction::WarnInspectionFailure)),
        (
            LifecyclePhase::Created,
            LifecycleEvent::InspectionSkipped,
        ) => Some((LifecyclePhase::Running, LifecycleAction::AwaitInterrupt)),
        (
            LifecyclePhase::Reported,
            LifecycleEvent::ReportEmitted,
        ) => Some((LifecyclePhase::Running, LifecycleAction::AwaitInterrupt)),
        (
            LifecyclePhase::Running,
            LifecycleEvent::SignalReceived,
        ) => Some((LifecyclePhase::ShuttingDown { clean: true }, LifecycleAction::ReleaseDevice)),
        (
            LifecyclePhase::Running,
            LifecycleEvent::SignalWaitFailed,
        ) => Some((LifecyclePhase::ShuttingDown { clean: false }, LifecycleAction::ReleaseDevice)),
        (
            LifecyclePhase::ShuttingDown { clean: true },
            LifecycleEvent::DeviceReleased,
        ) => Some((LifecyclePhase::Terminated, LifecycleAction::ExitSuccess)),
        (
            LifecyclePhase::ShuttingDown { clean: false },
            LifecycleEvent::DeviceReleased,
        ) => Some((LifecyclePhase::Terminated, LifecycleAction::ExitFailure)),
        _ => None,
    }
}

/// One step of the lifecycle.
pub fn advance(phase: LifecyclePhase, event: LifecycleEvent) -> (r: Option<
    (LifecyclePhase, LifecycleAction),
>)
    ensures
        r == advance_spec(phase, event),
{
    match (phase, event) {
        (LifecyclePhase::Created, LifecycleEvent::InspectionSucceeded) => Some(
            (LifecyclePhase::Reported, LifecycleAction::PrintInspectionReport),
        ),
        (LifecyclePhase::Created, LifecycleEvent::InspectionFailed) => Some(
            (LifecyclePhase::Reported, LifecycleAction::WarnInspectionFailure),
        ),
        (LifecyclePhase::Created, LifecycleEvent::InspectionSkipped) => Some(
            (LifecyclePhase::Running, LifecycleAction::AwaitInterrupt),
        ),
        (LifecyclePhase::Reported, LifecycleEvent::ReportEmitted) => Some(
            (LifecyclePhase::Running, LifecycleAction::AwaitInterrupt),
        ),
        (LifecyclePhase::Running, LifecycleEvent::SignalReceived) => Some(
            (LifecyclePhase::ShuttingDown { clean: true }, LifecycleAction::ReleaseDevice),
        ),
        (LifecyclePhase::Running, LifecycleEvent::SignalWaitFailed) => Some(
            (LifecyclePhase::ShuttingDown { clean: false }, LifecycleAction::ReleaseDevice),
        ),
        (LifecyclePhase::ShuttingDown { clean: true }, LifecycleEvent::DeviceReleased) => Some(
            (LifecyclePhase::Terminated, LifecycleAction::ExitSuccess),
        ),
        (LifecyclePhase::ShuttingDown { clean: false }, LifecycleEvent::DeviceReleased) => Some(
            (LifecyclePhase::Terminated, LifecycleAction::ExitFailure),
        ),
        _ => None,
    }
}

/// Position of a phase in the one-way order
/// Created, Reported, Running, ShuttingDown, Terminated.
pub open spec fn phase_rank(phase: LifecyclePhase) -> int {
    match phase {
        LifecyclePhase::Created => 0,
        LifecyclePhase::Reported => 1,
        LifecyclePhase::Running => 2,
        LifecyclePhase::ShuttingDown { .. } => 3,
        LifecyclePhase::Terminated => 4,
    }
}

/// Transitions are strictly sequential and irreversible: every step
/// enters a strictly later phase, so no phase is ever entered twice.
pub proof fn lemma_phases_strictly_advance(phase: LifecyclePhase, event: LifecycleEvent)
    ensures
        advance_spec(phase, event) matches Some(step) ==> phase_rank(step.0) > phase_rank(phase),
{
}

/// The device handle is released exactly on leaving the wait: the
/// release action is asked for when and only when a wait outcome arrives
/// in the `Running` phase. With strict phase progress, `Running` is left
/// at most once, so no run releases the handle twice.
pub proof fn lemma_release_only_from_running(phase: LifecyclePhase, event: LifecycleEvent)
    ensures
        (advance_spec(phase, event) matches Some(step) && step.1 == LifecycleAction::ReleaseDevice)
            <==> phase == LifecyclePhase::Running && (event == LifecycleEvent::SignalReceived
            || event == LifecycleEvent::SignalWaitFailed),
{
}

/// A sequence of events that the table accepts step by step from `phase`.
pub open spec fn valid_run(phase: LifecyclePhase, events: Seq<LifecycleEvent>) -> bool
    decreases events.len(),
{
    events.len() == 0 || {
        &&& advance_spec(phase, events[0]) is Some
        &&& valid_run(advance_spec(phase, events[0])->Some_0.0, events.skip(1))
    }
}

/// The phase a valid run ends in.
pub open spec fn run_end_phase(phase: LifecyclePhase, events: Seq<LifecycleEvent>) -> LifecyclePhase
    recommends
        valid_run(phase, events),
    decreases events.len(),
{
    if events.len() == 0 {
        phase
    } else {
        run_end_phase(advance_spec(phase, events[0])->Some_0.0, events.skip(1))
    }
}

/// The actions a valid run asks for, in order.
pub open spec fn run_actions(phase: LifecyclePhase, events: Seq<LifecycleEvent>) -> Seq<
    LifecycleAction,
>
    recommends
        valid_run(phase, events),
    decreases events.len(),
{
    if events.len() == 0 {
        Seq::empty()
    } else {
        seq![advance_spec(phase, events[0])->Some_0.1] + run_actions(
            advance_spec(phase, events[0])->Some_0.0,
            events.skip(1),
        )
    }
}

/// The phase rank never falls along a valid run.
proof fn lemma_run_rank_monotonic(phase: LifecyclePhase, events: Seq<LifecycleEvent>)
    requires
        valid_run(phase, events),
    ensures
        phase_rank(run_end_phase(phase, events)) >= phase_rank(phase),
    decreases events.len(),
{
    if events.len() != 0 {
        let next = advance_spec(phase, events[0])->Some_0.0;
        lemma_phases_strictly_advance(phase, events[0]);
        lemma_run_rank_monotonic(next, events.skip(1));
    }
}

/// The release action is asked for exactly once on every valid run that
/// starts before the shutdown and reaches it — in particular exactly
/// once on a complete run from `Created` to `Terminated` — and never on
/// a run that stays on either side.
pub proof fn lemma_release_exactly_once(phase: LifecyclePhase, events: Seq<LifecycleEvent>)
    requires
        valid_run(phase, events),
    ensures
        run_actions(phase, events).filter(|a: LifecycleAction| a == LifecycleAction::ReleaseDevice)
            .len() == if phase_rank(phase) <= 2 && 3 <= phase_rank(run_end_phase(phase, events)) {
            1int
        } else {
            0int
        },
    decreases events.len(),
{
    broadcast use vstd::seq_lib::group_seq_lib_default;

    let released = |a: LifecycleAction| a == LifecycleAction::ReleaseDevice;
    if events.len() == 0 {
        assert(run_actions(phase, events).filter(released).len() == 0) by {
            reveal_with_fuel(Seq::<LifecycleAction>::filter, 2);
        }
    } else {
        let step = advance_spec(phase, events[0])->Some_0;
        let next = step.0;
        let head = seq![step.1];
        let tail = run_actions(next, events.skip(1));
        lemma_phases_strictly_advance(phase, events[0]);
        lemma_release_only_from_running(phase, events[0]);
        lemma_run_rank_monotonic(next, events.skip(1));
        lemma_release_exactly_once(next, events.skip(1));
        Seq::<LifecycleAction>::filter_distributes_over_add(head, tail, released);
        assert(head.filter(released).len() == if released(step.1) {
            1int
        } else {
            0int
        }) by {
            reveal_with_fuel(Seq::<LifecycleAction>::filter, 2);
            assert(head.drop_last() =~= Seq::<LifecycleAction>::empty());
        }
        assert(run_actions(phase, events) == head + tail);
        assert(run_end_phase(phase, events) == run_end_phase(next, events.skip(1)));
    }
}

/// The process exits zero exactly after a clean, signal-triggered
/// shutdown: the success exit follows the release when and only when the
/// wait ended with the interrupt signal itself.
pub proof fn lemma_exit_status(clean: bool)
    ensures
        advance_spec(LifecyclePhase::ShuttingDown { clean }, LifecycleEvent::DeviceReleased)
            matches Some(step) && step.1 == (if clean {
            LifecycleAction::ExitSuccess
        } else {
            LifecycleAction::ExitFailure
        }),
{
}

} // verus!
