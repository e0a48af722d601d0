use waywallen::routing::{Link, RetainedSlot, RoutingTable};
use waywallen::slot::{RendererProcessState, RendererRetention, RendererSlot};

#[derive(Debug, Default, Clone, PartialEq)]
struct Request {
    wp_type: String,
}

fn req(t: &str) -> Request {
    Request { wp_type: t.to_string() }
}

fn link(r: &str, d: u64, enabled: bool) -> Link {
    Link { renderer_id: r.to_string(), display_id: d, enabled }
}

fn slot_with(id: &str, state: RendererProcessState) -> RetainedSlot<Request> {
    let mut slot = RendererSlot::stopped(req("old"), "old".to_string());
    slot.process_state = state;
    RetainedSlot { renderer_id: id.to_string(), slot }
}

fn links_of(t: &RoutingTable<Request>, d: u64) -> Vec<(String, bool)> {
    t.links
        .iter()
        .filter(|l| l.display_id == d)
        .map(|l| (l.renderer_id.clone(), l.enabled))
        .collect()
}

fn slot_of<'a>(t: &'a RoutingTable<Request>, id: &str) -> Option<&'a RendererSlot<Request>> {
    t.slots.iter().find(|s| s.renderer_id == id).map(|s| &s.slot)
}

fn ids(v: &[&str]) -> Vec<String> {
    v.iter().map(|s| s.to_string()).collect()
}

#[test]
fn shared_assignment_links_every_display_to_one_new_renderer() {
    let mut t = RoutingTable { links: vec![link("x", 9, true)], slots: vec![], live: vec![], displays: vec![], restart_tasks: vec![] };
    let r = t.apply_retained_assignment(req("scene"), "Scene".into(), &vec![1, 2], false, &ids(&["f1", "f2"]));
    assert_eq!(r.renderer_id, "f1");
    assert_eq!(links_of(&t, 1), vec![("f1".to_string(), false)]);
    assert_eq!(links_of(&t, 2), vec![("f1".to_string(), false)]);
    assert_eq!(links_of(&t, 9), vec![("x".to_string(), true)]);
    let s = slot_of(&t, "f1").unwrap();
    assert_eq!(s.spawn_request, req("scene"));
    assert_eq!(s.name, "Scene");
    assert_eq!(s.retention, RendererRetention::Keep);
    assert_eq!(s.process_state, RendererProcessState::Stopped);
    assert!(r.removed.is_empty() && r.to_drop.is_empty());
}

#[test]
fn duplicated_assignment_gives_each_display_its_own_renderer() {
    let mut t = RoutingTable { links: vec![], slots: vec![], live: vec![], displays: vec![], restart_tasks: vec![] };
    let r = t.apply_retained_assignment(req("video"), "Video".into(), &vec![3, 4], true, &ids(&["a", "b"]));
    assert_eq!(r.renderer_id, "a");
    assert_eq!(links_of(&t, 3), vec![("a".to_string(), false)]);
    assert_eq!(links_of(&t, 4), vec![("b".to_string(), false)]);
    assert_eq!(r.applied_slots, ids(&["a", "b"]));
    assert_eq!(t.slots.len(), 2);
}

#[test]
fn an_idle_renderer_of_the_group_is_reused() {
    let mut t = RoutingTable {
        links: vec![link("old", 1, true), link("old", 2, true)],
        slots: vec![slot_with("old", RendererProcessState::Killed)],
        live: vec![],
        displays: vec![],
        restart_tasks: vec![],
    };
    let r = t.apply_retained_assignment(req("new"), "New".into(), &vec![1, 2], false, &ids(&["f1", "f2"]));
    assert_eq!(r.renderer_id, "old");
    assert_eq!(links_of(&t, 1), vec![("old".to_string(), false)]);
    let s = slot_of(&t, "old").unwrap();
    assert_eq!(s.spawn_request, req("new"));
    assert_eq!(s.name, "New");
    assert_eq!(s.spec_revision, 2);
    assert_eq!(s.process_state, RendererProcessState::Killed);
    assert_eq!(t.slots.len(), 1);
}

#[test]
fn replaced_renderers_are_dropped_or_forgotten() {
    let mut t = RoutingTable {
        links: vec![link("run", 1, true), link("idle", 2, true), link("wide", 2, true), link("wide", 5, true)],
        slots: vec![
            slot_with("run", RendererProcessState::Running),
            slot_with("idle", RendererProcessState::Stopped),
            slot_with("wide", RendererProcessState::Stopped),
        ],
        live: ids(&["run"]),
        displays: vec![],
        restart_tasks: vec![],
    };
    let r = t.apply_retained_assignment(req("n"), "N".into(), &vec![1, 2], false, &ids(&["f1", "f2"]));
    assert_eq!(r.renderer_id, "f1");
    assert_eq!(r.to_drop, ids(&["run"]));
    assert_eq!(r.removed, ids(&["idle"]));
    assert_eq!(slot_of(&t, "run").unwrap().retention, RendererRetention::Drop);
    assert!(slot_of(&t, "idle").is_none());
    // Still linked to display 5: kept as it was.
    assert_eq!(slot_of(&t, "wide").unwrap().retention, RendererRetention::Keep);
    assert_eq!(links_of(&t, 5), vec![("wide".to_string(), true)]);
}

#[test]
fn a_running_renderer_is_not_taken_over() {
    let mut t = RoutingTable {
        links: vec![link("run", 1, true)],
        slots: vec![slot_with("run", RendererProcessState::Running)],
        live: vec![],
        displays: vec![],
        restart_tasks: vec![],
    };
    let r = t.apply_retained_assignment(req("n"), "N".into(), &vec![1], true, &ids(&["f"]));
    assert_eq!(r.renderer_id, "f");
    assert_eq!(r.removed, ids(&["run"]));
    assert!(slot_of(&t, "run").is_none());
}

#[test]
fn new_ids_are_drawn_for_new_renderers() {
    let mut t = RoutingTable { links: vec![], slots: vec![], live: vec![], displays: vec![], restart_tasks: vec![] };
    let r = t.apply_retained_assignment_with_new_ids(req("n"), "N".into(), &vec![1, 2], true);
    assert_eq!(links_of(&t, 1), vec![(r.renderer_id.clone(), false)]);
    assert_ne!(links_of(&t, 1), links_of(&t, 2));
    assert_eq!(r.renderer_id.len(), 36);
}

#[test]
fn a_pending_restart_is_not_scheduled_twice() {
    let mut t = RoutingTable {
        links: vec![link("r", 1, true), link("r", 2, false)],
        slots: vec![slot_with("r", RendererProcessState::Failed)],
        live: vec![],
        displays: vec![1],
        restart_tasks: vec![],
    };
    assert_eq!(t.schedule_process_restart("r", 3), Some(1));
    assert_eq!(t.restart_tasks, ids(&["r"]));
    assert_eq!(t.schedule_process_restart("r", 3), None);
    assert_eq!(slot_of(&t, "r").unwrap().restart_failures, 1);
    t.end_restart_task("r");
    assert!(t.restart_tasks.is_empty());
    assert_eq!(t.schedule_process_restart("r", 3), Some(2));
    assert_eq!(t.schedule_process_restart("missing", 3), None);
}

#[test]
fn a_restart_needs_an_enabled_link_to_a_present_display() {
    let mut t = RoutingTable {
        links: vec![link("r", 1, false), link("r", 2, true)],
        slots: vec![slot_with("r", RendererProcessState::Killed)],
        live: vec![],
        displays: vec![1],
        restart_tasks: vec![],
    };
    assert_eq!(t.schedule_process_restart("r", 3), None);
    assert!(t.restart_tasks.is_empty());
    t.displays.push(2);
    assert_eq!(t.schedule_process_restart("r", 3), Some(1));
}
