//! The router's lifecycle switches: the user's pause and mute, other media
//! playing, the session being locked or inactive, and paused renderers. Each
//! change reports whether anything changed, since only a change makes the
//! router reconcile its renderers.

use vstd::prelude::*;
use crate::playlist::DisplayId;
use crate::text::{str_eq, strings_view};

verus! {

/// The user's pause and mute, as last set.
#[derive(Debug, Clone, Copy, PartialEq, Eq, Structural)]
pub struct ManualLifecycleState {
    pub paused: bool,
    pub muted: bool,
}

/// What the router's lifecycle depends on besides its displays.
#[derive(Debug, Clone, Copy, PartialEq, Eq, Structural)]
pub struct LifecycleFlags {
    pub manual_paused: bool,
    pub manual_muted: bool,
    pub other_playback_active: bool,
    pub session_locked: bool,
    pub session_inactive: bool,
}

impl LifecycleFlags {
    /// Nothing paused or muted, no other playback, an unlocked and active
    /// session.
    pub fn new() -> (f: Self)
        ensures
            f == (LifecycleFlags {
                manual_paused: false,
                manual_muted: false,
                other_playback_active: false,
                session_locked: false,
                session_inactive: false,
            }),
    {
        LifecycleFlags {
            manual_paused: false,
            manual_muted: false,
            other_playback_active: false,
            session_locked: false,
            session_inactive: false,
        }
    }

    /// Sets the user's pause; returns whether it changed.
    pub fn set_manual_pause(&mut self, paused: bool) -> (changed: bool)
        ensures
            changed == (old(self).manual_paused != paused),
            *final(self) == (LifecycleFlags { manual_paused: paused, ..*old(self) }),
    {
        if self.manual_paused == paused {
            false
        } else {
            self.manual_paused = paused;
            true
        }
    }

    /// Flips the user's pause; returns the new value.
    pub fn toggle_manual_pause(&mut self) -> (paused: bool)
        ensures
            paused == !old(self).manual_paused,
            *final(self) == (LifecycleFlags { manual_paused: paused, ..*old(self) }),
    {
        self.manual_paused = !self.manual_paused;
        self.manual_paused
    }

    /// Sets the user's mute; returns whether it changed.
    pub fn set_manual_mute(&mut self, muted: bool) -> (changed: bool)
        ensures
            changed == (old(self).manual_muted != muted),
            *final(self) == (LifecycleFlags { manual_muted: muted, ..*old(self) }),
    {
        if self.manual_muted == muted {
            false
        } else {
            self.manual_muted = muted;
            true
        }
    }

    /// Flips the user's mute; returns the new value.
    pub fn toggle_manual_mute(&mut self) -> (muted: bool)
        ensures
            muted == !old(self).manual_muted,
            *final(self) == (LifecycleFlags { manual_muted: muted, ..*old(self) }),
    {
        self.manual_muted = !self.manual_muted;
        self.manual_muted
    }

    /// Records whether other media plays; returns whether it changed.
    pub fn set_other_playback_active(&mut self, active: bool) -> (changed: bool)
        ensures
            changed == (old(self).other_playback_active != active),
            *final(self) == (LifecycleFlags { other_playback_active: active, ..*old(self) }),
    {
        if self.other_playback_active == active {
            false
        } else {
            self.other_playback_active = active;
            true
        }
    }

    /// Records what the session monitor saw; `None` leaves a flag as it is.
    /// Returns whether either flag changed.
    pub fn update_session_state(&mut self, locked: Option<bool>, inactive: Option<bool>) -> (changed:
        bool)
        ensures
            final(self).session_locked == (match locked {
                Some(v) => v,
                None => old(self).session_locked,
            }),
            final(self).session_inactive == (match inactive {
                Some(v) => v,
                None => old(self).session_inactive,
            }),
            final(self).manual_paused == old(self).manual_paused,
            final(self).manual_muted == old(self).manual_muted,
            final(self).other_playback_active == old(self).other_playback_active,
            changed == (final(self).session_locked != old(self).session_locked
                || final(self).session_inactive != old(self).session_inactive),
    {
        let mut changed = false;
        if let Some(v) = locked {
            if self.session_locked != v {
                self.session_locked = v;
                changed = true;
            }
        }
        if let Some(v) = inactive {
            if self.session_inactive != v {
                self.session_inactive = v;
                changed = true;
            }
        }
        changed
    }

    /// The user's pause and mute.
    pub fn manual_lifecycle_state(&self) -> (s: ManualLifecycleState)
        ensures
            s == (ManualLifecycleState { paused: self.manual_paused, muted: self.manual_muted }),
    {
        ManualLifecycleState { paused: self.manual_paused, muted: self.manual_muted }
    }
}

/// Flipping the user's pause or mute twice restores every flag.
pub proof fn lemma_toggle_twice_restores(f: LifecycleFlags)
    ensures
        ({
            let once = LifecycleFlags { manual_paused: !f.manual_paused, ..f };
            LifecycleFlags { manual_paused: !once.manual_paused, ..once } == f
        }),
        ({
            let once = LifecycleFlags { manual_muted: !f.manual_muted, ..f };
            LifecycleFlags { manual_muted: !once.manual_muted, ..once } == f
        }),
{
}

/// Whether every display in a non-empty list is stopped by its automatic
/// playback rules; `None` stands for a display that is not registered.
pub fn all_auto_stopped(stop_applied: &Vec<Option<bool>>) -> (r: bool)
    ensures
        r == (stop_applied@.len() > 0 && forall|i: int|
            0 <= i < stop_applied@.len() ==> #[trigger] stop_applied@[i] == Some(true)),
{
    if stop_applied.len() == 0 {
        return false;
    }
    let mut i: usize = 0;
    while i < stop_applied.len()
        invariant
            i <= stop_applied@.len(),
            forall|j: int| 0 <= j < i ==> #[trigger] stop_applied@[j] == Some(true),
        decreases stop_applied@.len() - i,
    {
        match stop_applied[i] {
            Some(true) => {},
            _ => {
                return false;
            },
        }
        i = i + 1;
    }
    true
}

/// The displays whose automatic stop must change: each with whether it is
/// now to be stopped, for those whose applied stop differs from the one
/// their rules ask for, in the order given.
pub fn auto_stop_plans(displays: &Vec<(DisplayId, bool, bool)>) -> (r: Vec<(DisplayId, bool)>)
    ensures
        r@ == auto_stop_plans_of(displays@),
{
    let mut out: Vec<(DisplayId, bool)> = Vec::new();
    let mut i: usize = 0;
    while i < displays.len()
        invariant
            i <= displays@.len(),
            out@ == auto_stop_plans_of(displays@.subrange(0, i as int)),
        decreases displays@.len() - i,
    {
        assert(displays@.subrange(0, i + 1).drop_last() =~= displays@.subrange(0, i as int));
        let (id, should_stop, stop_applied) = displays[i];
        if stop_applied != should_stop {
            out.push((id, should_stop));
        }
        i = i + 1;
    }
    assert(displays@.subrange(0, displays@.len() as int) =~= displays@);
    out
}

/// For displays given as (id, stop asked for, stop applied), the ones whose
/// stop must change, with the stop now asked for.
pub open spec fn auto_stop_plans_of(displays: Seq<(DisplayId, bool, bool)>) -> Seq<(DisplayId, bool)>
    decreases displays.len(),
{
    if displays.len() == 0 {
        Seq::empty()
    } else {
        let rest = auto_stop_plans_of(displays.drop_last());
        let (id, should_stop, stop_applied) = displays.last();
        if stop_applied != should_stop {
            rest.push((id, should_stop))
        } else {
            rest
        }
    }
}

/// How an assignment splits its displays among renderers: one renderer per
/// display when renderers are duplicated, else one for all of them.
pub fn assignment_groups(display_ids: &Vec<DisplayId>, duplicate_renderers: bool) -> (r: Vec<
    Vec<DisplayId>,
>)
    ensures
        duplicate_renderers ==> r@.len() == display_ids@.len() && forall|i: int|
            0 <= i < display_ids@.len() ==> #[trigger] r@[i]@ == seq![display_ids@[i]],
        !duplicate_renderers ==> r@.len() == 1 && r@[0]@ == display_ids@,
{
    let mut groups: Vec<Vec<DisplayId>> = Vec::new();
    if duplicate_renderers {
        let mut i: usize = 0;
        while i < display_ids.len()
            invariant
                i <= display_ids@.len(),
                groups@.len() == i,
                forall|j: int| 0 <= j < i ==> #[trigger] groups@[j]@ == seq![display_ids@[j]],
            decreases display_ids@.len() - i,
        {
            let mut single: Vec<DisplayId> = Vec::new();
            single.push(display_ids[i]);
            groups.push(single);
            i = i + 1;
        }
    } else {
        let mut all: Vec<DisplayId> = Vec::new();
        let mut i: usize = 0;
        while i < display_ids.len()
            invariant
                i <= display_ids@.len(),
                all@ == display_ids@.subrange(0, i as int),
            decreases display_ids@.len() - i,
        {
            all.push(display_ids[i]);
            i = i + 1;
        }
        assert(display_ids@.subrange(0, display_ids@.len() as int) =~= display_ids@);
        groups.push(all);
    }
    groups
}

/// A link from a renderer to a display, as characters and id.
pub open spec fn links_view(links: Seq<(String, DisplayId)>) -> Seq<(Seq<char>, DisplayId)> {
    links.map_values(|l: (String, DisplayId)| (l.0@, l.1))
}

/// A renderer slot as (renderer id, reusable by an assignment, has a live
/// process), with the id as characters.
pub open spec fn slots_view(slots: Seq<(String, bool, bool)>) -> Seq<(Seq<char>, bool, bool)> {
    slots.map_values(|t: (String, bool, bool)| (t.0@, t.1, t.2))
}

/// The renderers linked to a display of `group`, each once, in link order.
pub open spec fn group_renderers(links: Seq<(Seq<char>, DisplayId)>, group: Seq<DisplayId>) -> Seq<
    Seq<char>,
>
    decreases links.len(),
{
    if links.len() == 0 {
        Seq::empty()
    } else {
        let rest = group_renderers(links.drop_last(), group);
        let (r, d) = links.last();
        if group.contains(d) && !rest.contains(r) {
            rest.push(r)
        } else {
            rest
        }
    }
}

/// Every link of renderer `r` leads to a display of `group`.
pub open spec fn links_within(links: Seq<(Seq<char>, DisplayId)>, group: Seq<DisplayId>, r: Seq<
    char,
>) -> bool {
    forall|i: int| 0 <= i < links.len() && #[trigger] links[i].0 == r ==> group.contains(links[i].1)
}

/// The flags of the first slot of renderer `r`, if it has one.
pub open spec fn slot_of(slots: Seq<(Seq<char>, bool, bool)>, r: Seq<char>) -> Option<(bool, bool)>
    decreases slots.len(),
{
    if slots.len() == 0 {
        None
    } else if slots[0].0 == r {
        Some((slots[0].1, slots[0].2))
    } else {
        slot_of(slots.drop_first(), r)
    }
}

/// Whether the group's renderer is reused: it is the only one linked to the
/// group, all its links stay within the group, and its slot may be taken
/// over (kept, neither starting nor running).
pub open spec fn reuse_of(
    links: Seq<(Seq<char>, DisplayId)>,
    group: Seq<DisplayId>,
    slots: Seq<(Seq<char>, bool, bool)>,
) -> bool {
    let existing = group_renderers(links, group);
    &&& existing.len() == 1
    &&& links_within(links, group, existing[0])
    &&& slot_of(slots, existing[0]) matches Some((reusable, _)) && reusable
}

/// The earlier renderers of the group that lose all their links once the
/// group is relinked to `chosen`, and whose live process is `live`.
pub open spec fn orphans(
    existing: Seq<Seq<char>>,
    chosen: Seq<char>,
    links: Seq<(Seq<char>, DisplayId)>,
    group: Seq<DisplayId>,
    slots: Seq<(Seq<char>, bool, bool)>,
    live: bool,
) -> Seq<Seq<char>>
    decreases existing.len(),
{
    if existing.len() == 0 {
        Seq::empty()
    } else {
        let rest = orphans(existing.drop_last(), chosen, links, group, slots, live);
        let r = existing.last();
        let has_live = slot_of(slots, r) matches Some((_, l)) && l;
        if r != chosen && links_within(links, group, r) && has_live == live {
            rest.push(r)
        } else {
            rest
        }
    }
}

/// What relinking one group of displays to a retained renderer does.
pub struct GroupPlan {
    /// The renderer the group is linked to.
    pub renderer_id: String,
    /// Whether that renderer was linked to the group before.
    pub reused: bool,
    /// Earlier renderers left without links that still run: they are
    /// marked to be dropped and stopped.
    pub drop_live: Vec<String>,
    /// Earlier renderers left without links and without a process: they
    /// are forgotten at once.
    pub remove: Vec<String>,
}

fn group_has(group: &Vec<DisplayId>, d: DisplayId) -> (r: bool)
    ensures
        r == group@.contains(d),
{
    let mut i: usize = 0;
    while i < group.len()
        invariant
            i <= group@.len(),
            forall|j: int| 0 <= j < i ==> group@[j] != d,
        decreases group@.len() - i,
    {
        if group[i] == d {
            assert(group@[i as int] == d);
            return true;
        }
        i = i + 1;
    }
    false
}

fn contains_id(ids: &Vec<String>, r: &str) -> (b: bool)
    ensures
        b == strings_view(ids@).contains(r@),
{
    crate::text::contains_string(ids, r)
}

fn renderers_of_group(links: &Vec<(String, DisplayId)>, group: &Vec<DisplayId>) -> (r: Vec<String>)
    ensures
        strings_view(r@) == group_renderers(links_view(links@), group@),
{
    let mut out: Vec<String> = Vec::new();
    let mut i: usize = 0;
    while i < links.len()
        invariant
            i <= links@.len(),
            strings_view(out@) == group_renderers(links_view(links@.subrange(0, i as int)), group@),
        decreases links@.len() - i,
    {
        let ghost pre = links_view(links@.subrange(0, i as int));
        assert(links_view(links@.subrange(0, i + 1)).drop_last() =~= pre);
        assert(links_view(links@.subrange(0, i + 1)).last() == (links@[i as int].0@, links@[i as int].1));
        let d = links[i].1;
        if group_has(group, d) && !contains_id(&out, links[i].0.as_str()) {
            let id = links[i].0.clone();
            proof {
                assert(strings_view(out@.push(id)) =~= strings_view(out@).push(id@));
            }
            out.push(id);
        }
        i = i + 1;
    }
    assert(links@.subrange(0, links@.len() as int) =~= links@);
    out
}

fn all_links_within(links: &Vec<(String, DisplayId)>, group: &Vec<DisplayId>, r: &str) -> (b: bool)
    ensures
        b == links_within(links_view(links@), group@, r@),
{
    let mut i: usize = 0;
    while i < links.len()
        invariant
            i <= links@.len(),
            forall|j: int|
                0 <= j < i && #[trigger] links_view(links@)[j].0 == r@ ==> group@.contains(
                    links_view(links@)[j].1,
                ),
        decreases links@.len() - i,
    {
        if str_eq(links[i].0.as_str(), r) && !group_has(group, links[i].1) {
            assert(links_view(links@)[i as int].0 == r@);
            return false;
        }
        i = i + 1;
    }
    true
}

fn find_slot(slots: &Vec<(String, bool, bool)>, r: &str) -> (f: Option<(bool, bool)>)
    ensures
        f == slot_of(slots_view(slots@), r@),
{
    let mut i: usize = 0;
    assert(slots_view(slots@).subrange(0, slots@.len() as int) =~= slots_view(slots@));
    while i < slots.len()
        invariant
            i <= slots@.len(),
            slot_of(slots_view(slots@), r@) == slot_of(
                slots_view(slots@).subrange(i as int, slots@.len() as int),
                r@,
            ),
        decreases slots@.len() - i,
    {
        let ghost rest = slots_view(slots@).subrange(i as int, slots@.len() as int);
        assert(rest[0] == slots_view(slots@)[i as int]);
        assert(rest.drop_first() =~= slots_view(slots@).subrange(i + 1, slots@.len() as int));
        if str_eq(slots[i].0.as_str(), r) {
            return Some((slots[i].1, slots[i].2));
        }
        i = i + 1;
    }
    assert(slots_view(slots@).subrange(slots@.len() as int, slots@.len() as int) =~= Seq::<
        (Seq<char>, bool, bool),
    >::empty());
    None
}

fn reuses_group(
    existing: &Vec<String>,
    group: &Vec<DisplayId>,
    links: &Vec<(String, DisplayId)>,
    slots: &Vec<(String, bool, bool)>,
) -> (b: bool)
    requires
        strings_view(existing@) == group_renderers(links_view(links@), group@),
    ensures
        b == reuse_of(links_view(links@), group@, slots_view(slots@)),
{
    if existing.len() != 1 {
        return false;
    }
    assert(strings_view(existing@)[0] == existing@[0]@);
    if !all_links_within(links, group, existing[0].as_str()) {
        return false;
    }
    match find_slot(slots, existing[0].as_str()) {
        Some((reusable, _)) => reusable,
        None => false,
    }
}

/// Trusted: `uuid::Uuid::new_v4`, as text. The id is random, so nothing is
/// claimed of it.
#[verifier::external_body]
pub(crate) fn new_renderer_id() -> (id: String) {
    uuid::Uuid::new_v4().to_string()
}

/// Plans relinking one group of displays as [`plan_retained_group`] does,
/// taking a new random renderer id when the group's renderer is not
/// reused; nothing is known of that id.
pub fn plan_retained_group_with_new_id(
    group: &Vec<DisplayId>,
    links: &Vec<(String, DisplayId)>,
    slots: &Vec<(String, bool, bool)>,
) -> (r: GroupPlan)
    ensures
        r.reused == reuse_of(links_view(links@), group@, slots_view(slots@)),
        r.reused ==> r.renderer_id@ == group_renderers(links_view(links@), group@)[0],
        strings_view(r.drop_live@) == orphans(
            group_renderers(links_view(links@), group@),
            r.renderer_id@,
            links_view(links@),
            group@,
            slots_view(slots@),
            true,
        ),
        strings_view(r.remove@) == orphans(
            group_renderers(links_view(links@), group@),
            r.renderer_id@,
            links_view(links@),
            group@,
            slots_view(slots@),
            false,
        ),
{
    let existing = renderers_of_group(links, group);
    let fresh = if reuses_group(&existing, group, links, slots) {
        String::new()
    } else {
        new_renderer_id()
    };
    plan_retained_group(group, links, slots, fresh)
}

/// Plans relinking one group of displays to a retained renderer. The group
/// keeps its renderer when that renderer is the only one linked to it, has
/// no link outside it, and its slot may be taken over; otherwise it gets
/// the renderer `fresh_id`. Every earlier renderer of the group, other than
/// the chosen one, that is left without links is dropped when it has a live
/// process and forgotten otherwise. `links` are the current links as
/// (renderer, display); `slots` lists, as (renderer, reusable, live), the
/// retained renderers' slots and also every renderer that has a live
/// process without a slot (reusable false, live true): a renderer absent
/// from `slots` counts as having no live process.
pub fn plan_retained_group(
    group: &Vec<DisplayId>,
    links: &Vec<(String, DisplayId)>,
    slots: &Vec<(String, bool, bool)>,
    fresh_id: String,
) -> (r: GroupPlan)
    ensures
        r.reused == reuse_of(links_view(links@), group@, slots_view(slots@)),
        r.reused ==> r.renderer_id@ == group_renderers(links_view(links@), group@)[0],
        !r.reused ==> r.renderer_id@ == fresh_id@,
        strings_view(r.drop_live@) == orphans(
            group_renderers(links_view(links@), group@),
            r.renderer_id@,
            links_view(links@),
            group@,
            slots_view(slots@),
            true,
        ),
        strings_view(r.remove@) == orphans(
            group_renderers(links_view(links@), group@),
            r.renderer_id@,
            links_view(links@),
            group@,
            slots_view(slots@),
            false,
        ),
{
    let existing = renderers_of_group(links, group);
    let ghost ex = group_renderers(links_view(links@), group@);
    let reused = reuses_group(&existing, group, links, slots);
    let renderer_id = if reused {
        assert(strings_view(existing@)[0] == existing@[0]@);
        existing[0].clone()
    } else {
        fresh_id
    };
    let mut drop_live: Vec<String> = Vec::new();
    let mut remove: Vec<String> = Vec::new();
    let mut i: usize = 0;
    while i < existing.len()
        invariant
            i <= existing@.len(),
            strings_view(existing@) == ex,
            strings_view(drop_live@) == orphans(
                ex.subrange(0, i as int),
                renderer_id@,
                links_view(links@),
                group@,
                slots_view(slots@),
                true,
            ),
            strings_view(remove@) == orphans(
                ex.subrange(0, i as int),
                renderer_id@,
                links_view(links@),
                group@,
                slots_view(slots@),
                false,
            ),
        decreases existing@.len() - i,
    {
        assert(ex.subrange(0, i + 1).drop_last() =~= ex.subrange(0, i as int));
        assert(ex.subrange(0, i + 1).last() == existing@[i as int]@);
        let old = existing[i].as_str();
        if !str_eq(old, renderer_id.as_str()) && all_links_within(links, group, old) {
            let live = match find_slot(slots, old) {
                Some((_, l)) => l,
                None => false,
            };
            let id = existing[i].clone();
            if live {
                proof {
                    assert(strings_view(drop_live@.push(id)) =~= strings_view(drop_live@).push(id@));
                }
                drop_live.push(id);
            } else {
                proof {
                    assert(strings_view(remove@.push(id)) =~= strings_view(remove@).push(id@));
                }
                remove.push(id);
            }
        }
        i = i + 1;
    }
    assert(ex.subrange(0, ex.len() as int) =~= ex);
    GroupPlan { renderer_id, reused, drop_live, remove }
}

} // verus!
