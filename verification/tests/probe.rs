use flagpick::probe::{
    next_capture_action, CaptureAction, CaptureEvent,
    check_probe_limits, check_request, next_probe_action, CapturedOutput, ProbeAction, ProbeConfig,
    ProbeError, ProbeRunner, DEFAULT_STDERR_CAP, DEFAULT_STDOUT_CAP, MAX_STREAM_CAP,
};
use std::time::Duration;

fn config_message(result: Result<(), ProbeError>) -> &'static str {
    match result {
        Err(ProbeError::InvalidConfig(message)) => message,
        other => panic!("unexpected result {other:?}"),
    }
}

#[test]
fn default_config_is_valid_and_disabled() {
    let config = ProbeConfig::default();
    assert!(!config.execution_enabled);
    assert_eq!(config.timeout_nanos, Duration::from_secs(2).as_nanos());
    assert_eq!(config.stdout_cap, DEFAULT_STDOUT_CAP);
    assert_eq!(config.stderr_cap, DEFAULT_STDERR_CAP);
    assert!(config.validate().is_ok());
    assert!(ProbeRunner::new(config).is_ok());
}

#[test]
fn limits_are_checked_in_order() {
    assert_eq!(
        config_message(check_probe_limits(0, 1, 1)),
        "timeout must be greater than zero and at most 30 seconds"
    );
    assert_eq!(
        config_message(check_probe_limits(30_000_000_001, 1, 1)),
        "timeout must be greater than zero and at most 30 seconds"
    );
    assert!(check_probe_limits(30_000_000_000, MAX_STREAM_CAP, MAX_STREAM_CAP).is_ok());
    assert_eq!(
        config_message(check_probe_limits(1, 0, 1)),
        "stdout cap must be between 1 byte and 16 MiB"
    );
    assert_eq!(
        config_message(check_probe_limits(1, 1, MAX_STREAM_CAP + 1)),
        "stderr cap must be between 1 byte and 16 MiB"
    );
}

#[test]
fn invalid_configs_make_no_runner() {
    let config = ProbeConfig { timeout_nanos: Duration::ZERO.as_nanos(), ..ProbeConfig::default() };
    assert!(matches!(ProbeRunner::new(config), Err(ProbeError::InvalidConfig(_))));
    let config = ProbeConfig { timeout_nanos: Duration::from_secs(31).as_nanos(), ..ProbeConfig::default() };
    assert!(config.validate().is_err());
    let config = ProbeConfig { stdout_cap: 0, execution_enabled: true, ..ProbeConfig::default() };
    assert_eq!(
        config_message(config.validate()),
        "stdout cap must be between 1 byte and 16 MiB"
    );
    let runner = ProbeRunner::new(ProbeConfig { execution_enabled: true, ..ProbeConfig::default() }).unwrap();
    assert!(runner.config().execution_enabled);
}

#[test]
fn captures_keep_bytes_up_to_the_cap_and_count_all() {
    let mut captured = CapturedOutput::new();
    captured.absorb(b"abc", 5);
    assert_eq!(captured.bytes, b"abc");
    assert!(!captured.truncated);
    captured.absorb(b"defg", 5);
    assert_eq!(captured.bytes, b"abcde");
    assert_eq!(captured.total_bytes, 7);
    assert!(captured.truncated);
    captured.absorb(b"", 5);
    assert!(captured.truncated);
    assert_eq!(captured.total_bytes, 7);
    let mut saturated = CapturedOutput { bytes: Vec::new(), total_bytes: u64::MAX - 1, truncated: false };
    saturated.absorb(b"xyz", 10);
    assert_eq!(saturated.total_bytes, u64::MAX);
    assert_eq!(saturated.bytes, b"xyz");
}

#[test]
fn the_lifecycle_waits_then_finishes_or_times_out() {
    assert_eq!(next_probe_action(true, true, false, false), ProbeAction::Finish);
    assert_eq!(next_probe_action(true, true, true, false), ProbeAction::Finish);
    assert_eq!(next_probe_action(false, true, false, false), ProbeAction::Sleep);
    assert_eq!(next_probe_action(false, false, true, false), ProbeAction::CheckStatusAgain);
    assert_eq!(next_probe_action(false, false, true, true), ProbeAction::TimeOut);
    assert_eq!(next_probe_action(true, false, true, false), ProbeAction::TimeOut);
}

#[test]
fn requests_need_an_absolute_executable_and_nonempty_arguments() {
    assert!(matches!(
        check_request(true, false, &[]),
        Err(ProbeError::InvalidRequest("executable must not be empty"))
    ));
    assert!(matches!(
        check_request(false, false, &[]),
        Err(ProbeError::InvalidRequest("executable must be an absolute path"))
    ));
    assert!(matches!(check_request(false, true, &[false, true, true]), Err(ProbeError::EmptyArgument(1))));
    assert!(check_request(false, true, &[false, false]).is_ok());
}

#[test]
fn probe_errors_describe_themselves() {
    assert_eq!(ProbeError::ExecutionDisabled.message(), "probe execution is disabled");
    assert_eq!(ProbeError::EmptyArgument(3).message(), "probe argv element 3 is empty");
    assert_eq!(ProbeError::MissingPipe("stdout").message(), "probe stdout pipe is unavailable");
    assert_eq!(
        ProbeError::CaptureThreadPanic("stderr").message(),
        "probe stderr capture thread panicked"
    );
    assert_eq!(
        ProbeError::InvalidRequest("x").message(),
        "invalid probe request: x"
    );
    let error = std::io::Error::other("boom");
    assert_eq!(ProbeError::Spawn(error).message(), "failed to spawn probe: boom");
}

#[test]
fn readers_stop_at_the_end_or_when_cancelled() {
    assert_eq!(next_capture_action(CaptureEvent::Idle, false), CaptureAction::Continue);
    assert_eq!(next_capture_action(CaptureEvent::Idle, true), CaptureAction::StopTruncated);
    assert_eq!(next_capture_action(CaptureEvent::PipeError, true), CaptureAction::Fail);
    assert_eq!(next_capture_action(CaptureEvent::Read(0), true), CaptureAction::Stop);
    assert_eq!(next_capture_action(CaptureEvent::Read(4), false), CaptureAction::Continue);
    assert_eq!(next_capture_action(CaptureEvent::Read(4), true), CaptureAction::StopTruncated);
}

fn valid_config() -> ProbeConfig {
    ProbeConfig {
        execution_enabled: true,
        timeout_nanos: Duration::from_secs(5).as_nanos(),
        stdout_cap: 8192,
        stderr_cap: 8192,
    }
}

#[test]
fn invalid_configs_are_rejected_and_valid_ones_accepted() {
    for config in [
        ProbeConfig { timeout_nanos: Duration::ZERO.as_nanos(), ..valid_config() },
        ProbeConfig { stdout_cap: 0, ..valid_config() },
        ProbeConfig { stderr_cap: 0, ..valid_config() },
        ProbeConfig { timeout_nanos: Duration::from_secs(u64::MAX).as_nanos(), ..valid_config() },
        ProbeConfig { stdout_cap: usize::MAX, ..valid_config() },
        ProbeConfig { stderr_cap: usize::MAX, ..valid_config() },
    ] {
        assert!(matches!(ProbeRunner::new(config), Err(ProbeError::InvalidConfig(_))));
    }
    assert!(ProbeRunner::new(valid_config()).is_ok());
    assert!(ProbeRunner::new(ProbeConfig::default()).is_ok());
}

#[test]
fn runners_execute_only_when_enabled() {
    let disabled = ProbeRunner::new(ProbeConfig::default()).unwrap();
    assert!(matches!(disabled.check_execution(), Err(ProbeError::ExecutionDisabled)));
    let enabled = ProbeRunner::new(valid_config()).unwrap();
    assert!(enabled.check_execution().is_ok());
}
