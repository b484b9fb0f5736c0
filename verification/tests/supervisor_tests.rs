use braid_node::status::{
    classify, exit_status, run_supervisor, supervise_step, Disposition, ExitReason, LoopInput,
    Severity, State,
};

#[test]
fn policy_table_is_exact() {
    assert_eq!(
        classify(&State::Healthy("ok".to_string())),
        (Severity::Info, Disposition::Continue)
    );
    assert_eq!(
        classify(&State::DownstreamShutdown("x".to_string())),
        (Severity::Error, Disposition::Continue)
    );
    assert_eq!(
        classify(&State::TemplateProviderShutdown("x".to_string())),
        (Severity::Error, Disposition::Break)
    );
    assert_eq!(
        classify(&State::DownstreamInstanceDropped(7)),
        (Severity::Warn, Disposition::Continue)
    );
}

#[test]
fn repeated_healthy_events_never_change_the_decision() {
    let inputs: Vec<LoopInput> =
        (0..10).map(|_| LoopInput::Status(State::Healthy("ok".to_string()))).collect();
    let (logs, exit) = run_supervisor(&inputs);
    assert_eq!(logs, vec![Severity::Info; 10]);
    assert_eq!(exit, None);
}

#[test]
fn upstream_shutdown_terminates_after_any_benign_prefix() {
    let inputs = vec![
        LoopInput::Status(State::Healthy("ok".to_string())),
        LoopInput::Status(State::DownstreamInstanceDropped(1)),
        LoopInput::Status(State::Healthy("ok".to_string())),
        LoopInput::Status(State::TemplateProviderShutdown("gone".to_string())),
    ];
    let (logs, exit) = run_supervisor(&inputs);
    assert_eq!(logs.len(), 4);
    assert_eq!(exit, Some(ExitReason::UpstreamShutdown));
}

#[test]
fn scenario_four_events_logged_then_terminates() {
    let inputs = vec![
        LoopInput::Status(State::Healthy("ok".to_string())),
        LoopInput::Status(State::DownstreamInstanceDropped(7)),
        LoopInput::Status(State::DownstreamShutdown("socket closed".to_string())),
        LoopInput::Status(State::TemplateProviderShutdown("rpc timeout".to_string())),
        LoopInput::Status(State::Healthy("never processed".to_string())),
    ];
    let (logs, exit) = run_supervisor(&inputs);
    // four lines at increasing severity, then termination: the fifth event
    // is never processed even though it was enqueued
    assert_eq!(logs, vec![Severity::Info, Severity::Warn, Severity::Error, Severity::Error]);
    assert_eq!(exit, Some(ExitReason::UpstreamShutdown));
}

#[test]
fn scenario_interrupt_on_empty_channel() {
    let (logs, exit) = run_supervisor(&vec![LoopInput::Interrupt]);
    assert_eq!(logs, vec![Severity::Info]);
    assert_eq!(exit, Some(ExitReason::Interrupted));
    assert_eq!(exit_status(&ExitReason::Interrupted), 0);
}

#[test]
fn downstream_shutdown_is_survived() {
    let inputs = vec![
        LoopInput::Status(State::DownstreamShutdown("x".to_string())),
        LoopInput::Status(State::Healthy("still here".to_string())),
    ];
    let (logs, exit) = run_supervisor(&inputs);
    assert_eq!(logs, vec![Severity::Error, Severity::Info]);
    assert_eq!(exit, None);
}

#[test]
fn signal_listen_failure_halts_with_nonzero_status() {
    let step = supervise_step(&LoopInput::InterruptUnavailable);
    assert_eq!(step, (Severity::Error, Some(ExitReason::SignalListenFailed)));
    assert_eq!(exit_status(&ExitReason::SignalListenFailed), 1);
}
