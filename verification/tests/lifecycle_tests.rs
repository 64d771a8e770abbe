use tapctl::lifecycle::advance;
use tapctl::lifecycle::LifecycleAction;
use tapctl::lifecycle::LifecycleEvent;
use tapctl::lifecycle::LifecyclePhase;

#[test]
fn successful_inspection_is_printed() {
    let step = advance(LifecyclePhase::Created, LifecycleEvent::InspectionSucceeded);
    assert_eq!(
        step,
        Some((LifecyclePhase::Reported, LifecycleAction::PrintInspectionReport))
    );
}

#[test]
fn failed_inspection_warns_and_continues() {
    let step = advance(LifecyclePhase::Created, LifecycleEvent::InspectionFailed);
    assert_eq!(
        step,
        Some((LifecyclePhase::Reported, LifecycleAction::WarnInspectionFailure))
    );
    let step = advance(LifecyclePhase::Reported, LifecycleEvent::ReportEmitted);
    assert_eq!(step, Some((LifecyclePhase::Running, LifecycleAction::AwaitInterrupt)));
}

#[test]
fn skipped_inspection_goes_straight_to_waiting() {
    let step = advance(LifecyclePhase::Created, LifecycleEvent::InspectionSkipped);
    assert_eq!(step, Some((LifecyclePhase::Running, LifecycleAction::AwaitInterrupt)));
}

#[test]
fn interrupt_releases_the_device_once_and_exits_zero() {
    let mut phase = LifecyclePhase::Created;
    let events = [
        LifecycleEvent::InspectionSucceeded,
        LifecycleEvent::ReportEmitted,
        LifecycleEvent::SignalReceived,
        LifecycleEvent::DeviceReleased,
    ];
    let mut releases = 0;
    let mut last_action = None;
    for event in events.iter() {
        let (next, action) = advance(phase, *event).expect("valid transition");
        if action == LifecycleAction::ReleaseDevice {
            releases += 1;
        }
        phase = next;
        last_action = Some(action);
    }
    assert_eq!(releases, 1);
    assert_eq!(phase, LifecyclePhase::Terminated);
    assert_eq!(last_action, Some(LifecycleAction::ExitSuccess));
}

#[test]
fn failed_wait_still_releases_but_exits_nonzero() {
    let step = advance(LifecyclePhase::Running, LifecycleEvent::SignalWaitFailed);
    assert_eq!(
        step,
        Some((LifecyclePhase::ShuttingDown { clean: false }, LifecycleAction::ReleaseDevice))
    );
    let step = advance(
        LifecyclePhase::ShuttingDown { clean: false },
        LifecycleEvent::DeviceReleased,
    );
    assert_eq!(step, Some((LifecyclePhase::Terminated, LifecycleAction::ExitFailure)));
}

#[test]
fn out_of_order_events_are_refused() {
    assert_eq!(advance(LifecyclePhase::Created, LifecycleEvent::SignalReceived), None);
    assert_eq!(advance(LifecyclePhase::Running, LifecycleEvent::InspectionSucceeded), None);
    assert_eq!(advance(LifecyclePhase::Terminated, LifecycleEvent::DeviceReleased), None);
    assert_eq!(
        advance(LifecyclePhase::ShuttingDown { clean: true }, LifecycleEvent::SignalReceived),
        None
    );
}
