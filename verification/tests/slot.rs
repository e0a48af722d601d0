use waywallen::slot::has_demand;
use waywallen::slot::{
    PausedRendererStatus, RendererProcessState, RendererRetention, RendererSlot, RendererStatus,
};

#[derive(Debug, Default, Clone, PartialEq)]
struct Request {
    wp_type: String,
}

fn slot() -> RendererSlot<Request> {
    RendererSlot {
        spawn_request: Default::default(),
        name: "image".into(),
        spec_revision: 1,
        process_generation: 7,
        process_state: RendererProcessState::Running,
        activity_state: RendererStatus::Playing,
        retention: RendererRetention::Keep,
        last_exit: None,
        restart_failures: 0,
    }
}

#[test]
fn stop_keeps_process_generation() {
    let mut slot = slot();
    assert_eq!(slot.begin_stop(RendererRetention::Keep), Some(7));
    assert_eq!(slot.process_state, RendererProcessState::Stopping);
    assert!(slot.retention.keep());
}

#[test]
fn replacing_spec_does_not_change_process_generation() {
    let mut slot = slot();
    slot.process_state = RendererProcessState::Stopped;
    slot.replace_spec(Default::default(), "video".into());
    assert_eq!(slot.spec_revision, 2);
    assert_eq!(slot.process_generation, 7);
    assert_eq!(slot.name, "video");
}

#[test]
fn process_state_names_and_presence() {
    let all = [
        (RendererProcessState::Starting, "starting", true),
        (RendererProcessState::Running, "running", true),
        (RendererProcessState::Stopping, "stopping", true),
        (RendererProcessState::Stopped, "stopped", false),
        (RendererProcessState::Killed, "killed", false),
        (RendererProcessState::Failed, "failed", false),
    ];
    for (state, name, has) in all {
        assert_eq!(state.as_str(), name);
        assert_eq!(state.has_process(), has);
    }
    assert!(RendererRetention::Keep.keep());
    assert!(!RendererRetention::Drop.keep());
}

#[test]
fn stop_without_process_changes_nothing() {
    let mut slot = slot();
    slot.process_state = RendererProcessState::Killed;
    assert_eq!(slot.begin_stop(RendererRetention::Drop), None);
    assert_eq!(slot.process_state, RendererProcessState::Killed);
    assert_eq!(slot.retention, RendererRetention::Keep);
    assert_eq!(slot.activity_state, RendererStatus::Playing);
}

#[test]
fn spec_revision_wraps_to_one() {
    let mut slot = slot();
    slot.spec_revision = u64::MAX;
    slot.restart_failures = 3;
    slot.replace_spec(Request { wp_type: "scene".into() }, "scene".into());
    assert_eq!(slot.spec_revision, 1);
    assert_eq!(slot.restart_failures, 0);
    assert_eq!(slot.spawn_request.wp_type, "scene");
    slot.bump_spec_revision();
    assert_eq!(slot.spec_revision, 2);
}

#[test]
fn begin_start_reports_revision_and_generation() {
    let mut slot = RendererSlot::stopped(Request::default(), "web".to_string());
    assert!(slot.may_start());
    slot.retention = RendererRetention::Drop;
    assert_eq!(slot.begin_start(12), (1, 12));
    assert_eq!(slot.process_state, RendererProcessState::Starting);
    assert_eq!(slot.retention, RendererRetention::Keep);
    assert!(!slot.may_start());
}

#[test]
fn attach_process_runs_the_new_generation() {
    let mut slot = RendererSlot::running(Request::default(), "a".to_string(), 1);
    slot.process_state = RendererProcessState::Failed;
    slot.attach_process(Request::default(), "b".to_string(), 9);
    assert_eq!(slot.process_generation, 9);
    assert_eq!(slot.process_state, RendererProcessState::Running);
    assert_eq!(slot.name, "b");
    assert_eq!(slot.last_exit, None);
}

#[test]
fn restarts_stop_at_the_limit() {
    let mut slot = slot();
    slot.process_state = RendererProcessState::Failed;
    assert_eq!(slot.schedule_restart(false, false, 2), None);
    assert_eq!(slot.schedule_restart(true, true, 2), None);
    assert_eq!(slot.restart_failures, 0);
    assert_eq!(slot.schedule_restart(false, true, 2), Some(1));
    assert_eq!(slot.schedule_restart(true, true, 2), None);
    assert_eq!(slot.restart_failures, 1);
    assert!(slot.restart_still_wanted(1, true));
    assert!(!slot.restart_still_wanted(2, true));
    assert_eq!(slot.retry_restart(1, true, 2), Some(2));
    assert_eq!(slot.retry_restart(1, true, 2), None);
    assert_eq!(slot.schedule_restart(false, true, 2), None);
    assert_eq!(slot.restart_failures, 2);
}

#[test]
fn failures_are_recorded_for_the_tracked_generation_only() {
    let mut slot = slot();
    slot.process_state = RendererProcessState::Starting;
    assert!(!slot.record_start_failure(6, "old".to_string()));
    assert_eq!(slot.process_state, RendererProcessState::Starting);
    assert!(slot.record_start_failure(7, "spawn failed".to_string()));
    assert_eq!(slot.process_state, RendererProcessState::Failed);
    let exit = slot.last_exit.clone().unwrap();
    assert_eq!(exit.reason, "spawn failed");
    assert_eq!(exit.code, None);
    assert!(slot.record_stop_failure(7, "stop failed".to_string()));
    assert_eq!(slot.last_exit.unwrap().reason, "stop failed");
}

#[test]
fn drop_stops_only_a_live_process() {
    let mut slot = slot();
    assert_eq!(slot.release_for_drop(false), None);
    assert_eq!(slot.retention, RendererRetention::Drop);
    assert_eq!(slot.process_state, RendererProcessState::Running);
    assert_eq!(slot.release_for_drop(true), Some(7));
    assert_eq!(slot.process_state, RendererProcessState::Stopping);
    assert_eq!(slot.stopping_generation(), Some(7));
}

#[test]
fn abandoned_spawn_is_stopped() {
    let mut slot = slot();
    assert!(!slot.reusable_for_assignment());
    assert!(!slot.abandon_spawn(7, false));
    assert!(!slot.abandon_spawn(8, true));
    assert!(slot.abandon_spawn(7, true));
    assert_eq!(slot.process_state, RendererProcessState::Stopping);
    assert!(slot.reusable_for_assignment());
    slot.retention = RendererRetention::Drop;
    assert!(!slot.reusable_for_assignment());
}

#[test]
fn paused_and_muted_activity() {
    let mut slot = slot();
    assert!(!slot.is_paused());
    slot.activity_state = RendererStatus::Paused(PausedRendererStatus::Paused);
    assert!(slot.is_paused());
    assert!(!slot.is_muted());
    slot.activity_state = RendererStatus::Paused(PausedRendererStatus::Muted);
    assert!(slot.is_muted());
}

#[test]
fn retained_start_needs_demand_and_no_live_process() {
    assert!(!has_demand(&vec![]));
    assert!(!has_demand(&vec![(true, false), (false, true)]));
    assert!(has_demand(&vec![(false, true), (true, true)]));
    let mut slot = slot();
    assert!(!slot.retained_start_due(true, false));
    slot.process_state = RendererProcessState::Killed;
    assert!(slot.retained_start_due(true, false));
    assert!(!slot.retained_start_due(false, false));
    assert!(!slot.retained_start_due(true, true));
}
