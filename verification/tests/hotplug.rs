use waywallen::hotplug::{display_key, group_by_playlist, resolve_playlist, HotplugWatcher};

#[test]
fn display_key_prefers_instance_id() {
    assert_eq!(display_key(Some("inst".into()), "DP-1".into()), "inst");
    assert_eq!(display_key(None, "DP-1".into()), "DP-1");
}

#[test]
fn playlist_resolution_falls_back_to_auto_attach() {
    assert_eq!(resolve_playlist(Some(3), Some(9)), Some(3));
    assert_eq!(resolve_playlist(None, Some(9)), Some(9));
    assert_eq!(resolve_playlist(None, None), None);
}

#[test]
fn displays_are_grouped_by_playlist_in_order() {
    let groups = group_by_playlist(&vec![(1, Some(7)), (2, None), (3, Some(8)), (4, Some(7))]);
    assert_eq!(groups, vec![(7, vec![1, 4]), (8, vec![3])]);
    assert!(group_by_playlist(&vec![(1, None)]).is_empty());
}

#[test]
fn new_displays_use_auto_attach_known_ones_only_their_preference() {
    let mut w = HotplugWatcher::new(&vec![1]);
    assert_eq!(w.on_display_upsert(2, false, None, Some(9)), Some(9));
    assert_eq!(w.on_display_upsert(2, false, None, Some(9)), None);
    assert_eq!(w.on_display_upsert(1, false, Some(4), Some(9)), Some(4));
    assert_eq!(w.on_display_upsert(5, true, Some(4), Some(9)), None);
    assert_eq!(w.on_display_upsert(5, false, None, Some(9)), None);
    w.on_display_removed(2);
    assert_eq!(w.on_display_upsert(2, false, None, Some(9)), Some(9));
    w.note_all(&vec![6, 7]);
    assert_eq!(w.on_display_upsert(6, false, None, Some(9)), None);
}
