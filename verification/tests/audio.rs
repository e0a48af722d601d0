use waywallen::audio::{
    AudioServiceState, AudioWorker, FrameDispatch, OpenResult, WakeAction, ACTIVE_POLL_INTERVAL_MS,
    INACTIVE_POLL_INTERVAL_MS, INITIAL_BACKOFF_MS, MAX_BACKOFF_MS,
};

/// Drives one wake-up with demand: opens through `open` when due and reports
/// the state the service would publish last.
fn wake(
    worker: &mut AudioWorker,
    now: u64,
    opens: &mut usize,
    open: OpenResult,
) -> Option<AudioServiceState> {
    match worker.on_wake(now) {
        WakeAction::Open => {
            *opens += 1;
            Some(worker.on_open_result(open, now))
        }
        WakeAction::Idle { close: true } => Some(AudioServiceState::Closed),
        _ => None,
    }
}

#[test]
fn warm_idle_reuses_then_closes_capture() {
    let mut worker = AudioWorker::new(40);
    let mut opens = 0;
    let mut state = AudioServiceState::Closed;

    let out = worker.on_demand(true, 0);
    assert!(out.changed);
    assert_eq!(out.report, None);
    if let Some(s) = wake(&mut worker, 0, &mut opens, OpenResult::Opened) {
        state = s;
    }
    assert_eq!(state, AudioServiceState::Active);

    let out = worker.on_demand(false, 15);
    assert_eq!(out.report, Some(AudioServiceState::WarmIdle));
    assert_eq!(wake(&mut worker, 25, &mut opens, OpenResult::Opened), None);
    let out = worker.on_demand(true, 25);
    assert!(out.reset_capture);
    assert_eq!(out.report, Some(AudioServiceState::Active));
    assert_eq!(worker.on_wake(35), WakeAction::Read);
    assert_eq!(opens, 1);

    worker.on_demand(false, 35);
    assert_eq!(worker.poll_timeout_ms(35), 40);
    assert_eq!(worker.on_wake(74), WakeAction::Idle { close: false });
    if let Some(s) = wake(&mut worker, 95, &mut opens, OpenResult::Opened) {
        state = s;
    }
    assert_eq!(state, AudioServiceState::Closed);
    assert!(!worker.backend_open);
    assert_eq!(worker.on_shutdown(), (AudioServiceState::Stopping, AudioServiceState::Closed));
}

#[test]
fn missing_library_is_latched_until_demand_cycles() {
    let mut worker = AudioWorker::new(10);
    let mut attempts = 0;
    worker.on_demand(true, 0);
    assert_eq!(
        wake(&mut worker, 0, &mut attempts, OpenResult::Unavailable),
        Some(AudioServiceState::Closed)
    );
    for t in 1..25 {
        assert_eq!(worker.on_wake(t), WakeAction::Wait);
    }
    assert_eq!(attempts, 1);
    worker.on_demand(false, 25);
    worker.on_demand(true, 25);
    wake(&mut worker, 25, &mut attempts, OpenResult::Unavailable);
    assert_eq!(attempts, 2);
}

#[test]
fn failures_back_off_doubling_up_to_the_cap() {
    let mut worker = AudioWorker::new(10);
    worker.on_demand(true, 0);
    let mut now = 0;
    let mut expected_delay = INITIAL_BACKOFF_MS;
    for _ in 0..8 {
        assert_eq!(worker.on_wake(now), WakeAction::Open);
        assert_eq!(
            worker.on_open_result(OpenResult::Failed, now),
            AudioServiceState::Backoff
        );
        assert_eq!(worker.retry_deadline_ms, Some(now + expected_delay));
        assert_eq!(worker.on_wake(now + expected_delay - 1), WakeAction::Wait);
        now += expected_delay;
        expected_delay = (expected_delay * 2).min(MAX_BACKOFF_MS);
    }
    assert_eq!(worker.backoff_ms, MAX_BACKOFF_MS);
    assert_eq!(worker.on_open_result(OpenResult::Opened, now), AudioServiceState::Active);
    assert_eq!(worker.backoff_ms, INITIAL_BACKOFF_MS);
    assert_eq!(worker.on_capture_failed(now), AudioServiceState::Backoff);
    assert_eq!(worker.retry_deadline_ms, Some(now + INITIAL_BACKOFF_MS));
    assert_eq!(worker.backoff_ms, 2 * INITIAL_BACKOFF_MS);
    assert!(!worker.backend_open);
}

#[test]
fn poll_timeouts_follow_demand_and_idle_deadline() {
    let mut worker = AudioWorker::new(30);
    assert_eq!(worker.poll_timeout_ms(0), INACTIVE_POLL_INTERVAL_MS);
    worker.on_demand(true, 0);
    assert_eq!(worker.poll_timeout_ms(0), ACTIVE_POLL_INTERVAL_MS);
    worker.on_open_result(OpenResult::Opened, 0);
    worker.on_demand(false, 10);
    assert_eq!(worker.poll_timeout_ms(10), 30);
    assert_eq!(worker.poll_timeout_ms(50), 0);
    let unchanged = worker.on_demand(false, 11);
    assert!(!unchanged.changed);
}

#[test]
fn losing_demand_without_capture_reports_closed() {
    let mut worker = AudioWorker::new(30);
    worker.on_demand(true, 0);
    let out = worker.on_demand(false, 1);
    assert_eq!(out.report, Some(AudioServiceState::Closed));
    assert_eq!(worker.idle_deadline_ms, None);
}

#[test]
fn frames_are_sent_once_and_again_after_demand_returns() {
    let mut d = FrameDispatch::new();
    assert!(!d.take(None));
    assert!(d.take(Some((1, 1))));
    assert!(!d.take(Some((1, 1))));
    assert!(d.take(Some((1, 2))));
    d.on_demand(true);
    assert!(!d.take(Some((1, 2))));
    d.on_demand(false);
    assert_eq!(d.last_sent, None);
    assert!(d.take(Some((1, 2))));
}
