use waywallen::router::plan_retained_group;
use waywallen::router::plan_retained_group_with_new_id;
use waywallen::router::{
    all_auto_stopped, assignment_groups, auto_stop_plans, LifecycleFlags, ManualLifecycleState,
};

#[test]
fn manual_switches_report_changes() {
    let mut f = LifecycleFlags::new();
    assert!(!f.set_manual_pause(false));
    assert!(f.set_manual_pause(true));
    assert!(!f.set_manual_pause(true));
    assert!(!f.toggle_manual_pause());
    assert!(f.toggle_manual_pause());
    assert!(f.set_manual_mute(true));
    assert!(!f.toggle_manual_mute());
    assert!(f.toggle_manual_mute());
    assert_eq!(
        f.manual_lifecycle_state(),
        ManualLifecycleState {
            paused: true,
            muted: true
        }
    );
    assert!(f.set_other_playback_active(true));
    assert!(!f.set_other_playback_active(true));
}

#[test]
fn session_state_updates_only_given_flags() {
    let mut f = LifecycleFlags::new();
    assert!(!f.update_session_state(None, None));
    assert!(f.update_session_state(Some(true), None));
    assert!(f.session_locked);
    assert!(!f.session_inactive);
    assert!(!f.update_session_state(Some(true), Some(false)));
    assert!(f.update_session_state(None, Some(true)));
    assert!(f.session_locked && f.session_inactive);
}

#[test]
fn toggling_twice_restores() {
    let mut f = LifecycleFlags::new();
    let before = f;
    f.toggle_manual_pause();
    f.toggle_manual_pause();
    f.toggle_manual_mute();
    f.toggle_manual_mute();
    assert_eq!(f, before);
}

#[test]
fn auto_stop_checks_and_plans() {
    assert!(!all_auto_stopped(&vec![]));
    assert!(all_auto_stopped(&vec![Some(true), Some(true)]));
    assert!(!all_auto_stopped(&vec![Some(true), None]));
    assert!(!all_auto_stopped(&vec![Some(false)]));
    assert_eq!(
        auto_stop_plans(&vec![(1, true, false), (2, true, true), (3, false, true)]),
        vec![(1, true), (3, false)]
    );
}

#[test]
fn assignments_group_displays_by_duplication() {
    assert_eq!(assignment_groups(&vec![1, 2], true), vec![vec![1], vec![2]]);
    assert_eq!(assignment_groups(&vec![1, 2], false), vec![vec![1, 2]]);
    assert_eq!(assignment_groups(&vec![], false), vec![Vec::<u64>::new()]);
}

fn s(x: &str) -> String {
    x.to_string()
}

#[test]
fn retained_group_reuses_its_only_free_renderer() {
    let links = vec![(s("r1"), 1), (s("r1"), 2)];
    let slots = vec![(s("r1"), true, true)];
    let plan = plan_retained_group(&vec![1, 2], &links, &slots, s("fresh"));
    assert!(plan.reused);
    assert_eq!(plan.renderer_id, "r1");
    assert!(plan.drop_live.is_empty() && plan.remove.is_empty());
}

#[test]
fn retained_group_gets_a_fresh_renderer_and_retires_orphans() {
    let links = vec![(s("a"), 1), (s("b"), 2), (s("c"), 3), (s("c"), 9)];
    let slots = vec![(s("a"), true, true), (s("b"), true, false), (s("c"), true, true)];
    let plan = plan_retained_group(&vec![1, 2, 3], &links, &slots, s("fresh"));
    assert!(!plan.reused);
    assert_eq!(plan.renderer_id, "fresh");
    assert_eq!(plan.drop_live, vec![s("a")]);
    assert_eq!(plan.remove, vec![s("b")]);
    let busy = vec![(s("a"), false, true)];
    let plan = plan_retained_group(&vec![1], &vec![(s("a"), 1)], &busy, s("n"));
    assert!(!plan.reused);
    assert_eq!(plan.renderer_id, "n");
    assert_eq!(plan.drop_live, vec![s("a")]);
    let spread = plan_retained_group(&vec![1], &vec![(s("a"), 1), (s("a"), 2)], &slots, s("m"));
    assert!(!spread.reused);
    assert!(spread.drop_live.is_empty() && spread.remove.is_empty());
}

#[test]
fn retained_group_with_new_id_is_random_when_not_reused() {
    let plan = plan_retained_group_with_new_id(&vec![5], &vec![], &vec![]);
    assert!(!plan.reused);
    assert_eq!(plan.renderer_id.len(), 36);
    let reused = plan_retained_group_with_new_id(
        &vec![5],
        &vec![(s("r"), 5)],
        &vec![(s("r"), true, false)],
    );
    assert_eq!(reused.renderer_id, "r");
}
