use embedded_server::event_text::{lifecycle_line, push_decimal};
use embedded_server::launch::{LaunchConfig, SpawnError};
use embedded_server::line::Origin;
use embedded_server::supervisor::{
    ExitStatus, KillOutcome, LifecycleEvent, ProcState, Supervisor, TerminateStep,
    TerminationError, WaitOutcome,
};

#[test]
fn normal_exit_with_code_zero() {
    let mut s = Supervisor::started();
    let ev = s.record_exit(WaitOutcome::Finished(ExitStatus::Code(0)));
    assert!(matches!(ev, LifecycleEvent::Exited { code: 0 }));
    assert_eq!(s.process(), ProcState::Exited(ExitStatus::Code(0)));
    let line = lifecycle_line(&ev);
    assert_eq!(line.origin, Origin::Lifecycle);
    assert_eq!(line.content, "backend exited with code 0");
}

#[test]
fn exit_code_is_encoded() {
    let mut s = Supervisor::started();
    let ev = s.record_exit(WaitOutcome::Finished(ExitStatus::Code(137)));
    assert_eq!(ev.describe(), "backend exited with code 137");
    assert_eq!(
        LifecycleEvent::Exited { code: -1 }.describe(),
        "backend exited with code -1"
    );
    assert_eq!(
        LifecycleEvent::Exited { code: i32::MIN }.describe(),
        "backend exited with code -2147483648"
    );
}

#[test]
fn decimal_formatting() {
    let mut s = String::from("n=");
    push_decimal(&mut s, 2147483647);
    assert_eq!(s, "n=2147483647");
    let mut z = String::new();
    push_decimal(&mut z, 10);
    assert_eq!(z, "10");
}

#[test]
fn kill_on_window_close_is_reported_as_kill() {
    let mut s = Supervisor::started();
    assert!(matches!(s.terminate(), TerminateStep::SendKill));
    assert_eq!(s.kill_done(KillOutcome::Delivered), Ok(()));
    assert_eq!(s.process(), ProcState::Running);
    let ev = s.record_exit(WaitOutcome::Finished(ExitStatus::Signal(9)));
    assert!(matches!(ev, LifecycleEvent::Killed));
    assert_eq!(s.process(), ProcState::Killed);
    assert_eq!(lifecycle_line(&ev).content, "backend killed on request");
}

#[test]
fn kill_is_not_reported_as_normal_exit() {
    let mut s = Supervisor::started();
    assert!(matches!(s.terminate(), TerminateStep::SendKill));
    assert_eq!(s.kill_done(KillOutcome::Delivered), Ok(()));
    let ev = s.record_exit(WaitOutcome::Finished(ExitStatus::Code(1)));
    assert!(matches!(ev, LifecycleEvent::Killed));
}

#[test]
fn second_terminate_repeats_first_answer() {
    let mut s = Supervisor::started();
    assert!(matches!(s.terminate(), TerminateStep::SendKill));
    assert_eq!(s.kill_done(KillOutcome::Delivered), Ok(()));
    assert!(matches!(s.terminate(), TerminateStep::Answer(Ok(()))));
    assert!(matches!(s.terminate(), TerminateStep::Answer(Ok(()))));
}

#[test]
fn refused_kill_is_reported_and_repeated() {
    let mut s = Supervisor::started();
    assert!(matches!(s.terminate(), TerminateStep::SendKill));
    let first = s.kill_done(KillOutcome::Refused(TerminationError::PermissionDenied));
    assert_eq!(first, Err(TerminationError::PermissionDenied));
    let ev = s.record_exit(WaitOutcome::Finished(ExitStatus::Code(3)));
    assert!(matches!(ev, LifecycleEvent::Exited { code: 3 }));
    match s.terminate() {
        TerminateStep::Answer(a) => assert_eq!(a, Ok(())),
        TerminateStep::SendKill => panic!("a second kill was asked for"),
    }
}

#[test]
fn refused_kill_repeated_while_child_runs() {
    let mut s = Supervisor::started();
    assert!(matches!(s.terminate(), TerminateStep::SendKill));
    let first = s.kill_done(KillOutcome::Refused(TerminationError::PermissionDenied));
    match s.terminate() {
        TerminateStep::Answer(a) => assert_eq!(a, first),
        TerminateStep::SendKill => panic!("a second kill was asked for"),
    }
    assert_eq!(s.process(), ProcState::Running);
}

#[test]
fn terminate_after_exit_is_success_without_kill() {
    let mut s = Supervisor::started();
    s.record_exit(WaitOutcome::Finished(ExitStatus::Code(0)));
    assert!(matches!(s.terminate(), TerminateStep::Answer(Ok(()))));
}

#[test]
fn already_exited_kill_counts_as_success() {
    let mut s = Supervisor::started();
    assert!(matches!(s.terminate(), TerminateStep::SendKill));
    assert_eq!(s.kill_done(KillOutcome::AlreadyExited), Ok(()));
    let ev = s.record_exit(WaitOutcome::Finished(ExitStatus::Code(0)));
    assert!(matches!(ev, LifecycleEvent::Exited { code: 0 }));
}

#[test]
fn os_error_on_kill() {
    let mut s = Supervisor::started();
    assert!(matches!(s.terminate(), TerminateStep::SendKill));
    assert_eq!(
        s.kill_done(KillOutcome::Refused(TerminationError::Os(3))),
        Err(TerminationError::Os(3))
    );
}

#[test]
fn signal_and_unknown_status() {
    let mut s = Supervisor::started();
    let ev = s.record_exit(WaitOutcome::Finished(ExitStatus::Signal(15)));
    assert_eq!(ev.describe(), "backend terminated by signal 15");
    let mut u = Supervisor::started();
    let ev = u.record_exit(WaitOutcome::Finished(ExitStatus::Unknown));
    assert_eq!(ev.describe(), "backend exited with an unknown status");
}

#[test]
fn wait_failure_becomes_a_lifecycle_line() {
    let mut s = Supervisor::started();
    let ev = s.record_exit(WaitOutcome::Failed("no child".to_string()));
    assert_eq!(s.process(), ProcState::WaitFailed);
    let line = lifecycle_line(&ev);
    assert_eq!(line.origin, Origin::Lifecycle);
    assert_eq!(line.content, "failed to wait for backend: no child");
}

#[test]
fn invalid_executable_path_is_refused() {
    let r = LaunchConfig::new(String::new(), vec![], None);
    assert_eq!(r.err(), Some(SpawnError::InvalidInput));
    let r = LaunchConfig::new("py\0thon".to_string(), vec![], None);
    assert_eq!(r.err(), Some(SpawnError::InvalidInput));
}

#[test]
fn nul_in_argument_or_directory_is_refused() {
    let r = LaunchConfig::new("python".to_string(), vec!["a\0b".to_string()], None);
    assert_eq!(r.err(), Some(SpawnError::InvalidInput));
    let r = LaunchConfig::new("python".to_string(), vec![], Some("/tmp\0".to_string()));
    assert_eq!(r.err(), Some(SpawnError::InvalidInput));
}

#[test]
fn valid_config_is_kept() {
    let c = LaunchConfig::new(
        "python".to_string(),
        vec!["../run_server.py".to_string()],
        Some("backend".to_string()),
    )
    .unwrap();
    assert_eq!(c.program(), "python");
    assert_eq!(c.args(), &vec!["../run_server.py".to_string()]);
    assert_eq!(c.working_dir(), &Some("backend".to_string()));
}
