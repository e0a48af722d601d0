use waywallen::playlist::{
    fan_out_status, keeps_current, plan_activation, resume_id, ActivationPlan, AttachStart,
    SessionRegistry,
};

#[test]
fn registry_release_of_last_member_ends_session() {
    let mut sessions = SessionRegistry::new();
    sessions.activate(&[10, 20], 1);
    assert!(sessions.is_owned(10));
    assert!(sessions.is_owned(20));
    sessions.release(&[10]);
    assert!(!sessions.is_owned(10));
    assert!(sessions.is_owned(20));
    assert_eq!(sessions.members(1), Some(vec![20]));
    sessions.release(&[20]);
    assert!(!sessions.is_owned(20));
    assert_eq!(sessions.members(1), None);
}

#[test]
fn registry_attach_start_cases() {
    let mut sessions = SessionRegistry::new();
    assert_eq!(sessions.attach_start(5, 99), AttachStart::NoSession);
    sessions.activate(&[5], 1);
    assert_eq!(sessions.attach_start(5, 1), AttachStart::AlreadyOwned);
    assert_eq!(sessions.attach_start(6, 1), AttachStart::Session);
    sessions.join(6, 1);
    assert_eq!(sessions.members(1), Some(vec![5, 6]));
    assert_eq!(sessions.session_for_display(6), Some(1));
}

#[test]
fn registry_deactivate_returns_members() {
    let mut sessions = SessionRegistry::new();
    sessions.activate(&[1, 2], 3);
    let members = sessions.deactivate_playlist(3);
    assert_eq!(members, vec![1, 2]);
    assert!(!sessions.is_owned(1));
    assert!(!sessions.is_owned(2));
    assert!(sessions.deactivate_playlist(3).is_empty());
    assert_eq!(sessions.attach_start(1, 3), AttachStart::NoSession);
}

#[test]
fn registry_activation_moves_displays_between_sessions() {
    let mut sessions = SessionRegistry::new();
    sessions.activate(&[1, 2], 7);
    sessions.activate(&[2, 3], 8);
    assert_eq!(sessions.members(7), Some(vec![1]));
    assert_eq!(sessions.members(8), Some(vec![2, 3]));
    assert_eq!(sessions.session_for_display(2), Some(8));
    sessions.activate(&[], 9);
    assert_eq!(sessions.members(9), None);
    sessions.activate(&[1], 8);
    assert_eq!(sessions.members(7), None);
    assert_eq!(sessions.members(8), Some(vec![1]));
}

#[test]
fn resume_picks_first_remembered_wallpaper_still_listed() {
    let items = vec!["a".to_string(), "b".to_string()];
    let remembered = vec![None, Some("z".to_string()), Some("b".to_string()), Some("a".to_string())];
    assert_eq!(resume_id(true, false, &remembered, &items), Some("b".to_string()));
    assert_eq!(resume_id(true, true, &remembered, &items), None);
    assert_eq!(resume_id(false, false, &remembered, &items), None);
    assert_eq!(resume_id(true, false, &vec![Some("z".to_string())], &items), None);
}

#[test]
fn status_fans_out_to_every_member() {
    let status = fan_out_status(&vec![100, 200], 8, 'S', 45, &Some("b".to_string()), 1, 2, 7);
    assert_eq!(status.len(), 2);
    for s in &status {
        assert_eq!(s.active_id, 8);
        assert_eq!(s.mode, 'S');
        assert_eq!(s.current_id.as_deref(), Some("b"));
        assert_eq!(s.position, 1);
        assert_eq!(s.count, 2);
        assert_eq!(s.interval_secs, 45);
        assert_eq!(s.remaining_secs, 7);
    }
    assert_eq!(status[0].display_id, 100);
    assert_eq!(status[1].display_id, 200);
}

#[test]
fn activation_targets_and_sharing() {
    assert!(matches!(plan_activation(&vec![], &vec![]), ActivationPlan::Nothing));
    assert!(matches!(plan_activation(&vec![], &vec![4]), ActivationPlan::Single(4)));
    match plan_activation(&vec![], &vec![4, 5]) {
        ActivationPlan::Shared(t) => assert_eq!(t, vec![4, 5]),
        _ => panic!("expected a shared session"),
    }
    assert!(matches!(plan_activation(&vec![9], &vec![4, 5]), ActivationPlan::Single(9)));
}

#[test]
fn rebuild_keeps_current_only_if_still_listed() {
    let items = vec!["a".to_string(), "b".to_string()];
    assert!(keeps_current(&Some("b".to_string()), &items));
    assert!(!keeps_current(&Some("c".to_string()), &items));
    assert!(!keeps_current(&None, &items));
}
