//! The router's table of retained renderers: links from renderers to
//! displays, the slot of each retained renderer, and the renderers that have
//! a live process. Assigning a wallpaper to displays relinks them here.

use vstd::prelude::*;
use crate::playlist::DisplayId;
use crate::slot::{RendererProcessState, RendererRetention, RendererSlot};
use crate::router::{assignment_groups, new_renderer_id};
use crate::text::{contains_string, str_eq, strings_view};

verus! {

/// A link from a renderer to a display; a disabled link does not yet show
/// the renderer's frames.
pub struct Link {
    pub renderer_id: String,
    pub display_id: DisplayId,
    pub enabled: bool,
}

/// The slot of one retained renderer.
pub struct RetainedSlot<S> {
    pub renderer_id: String,
    pub slot: RendererSlot<S>,
}

/// The links, the retained renderers' slots (one per renderer id), the ids
/// of the renderers that have a live process, the displays that are
/// present, and the renderers with a process restart pending.
pub struct RoutingTable<S> {
    pub links: Vec<Link>,
    pub slots: Vec<RetainedSlot<S>>,
    pub live: Vec<String>,
    pub displays: Vec<DisplayId>,
    pub restart_tasks: Vec<String>,
}

/// The links as (renderer, display, enabled).
pub open spec fn link_views(links: Seq<Link>) -> Seq<(Seq<char>, DisplayId, bool)> {
    links.map_values(|l: Link| (l.renderer_id@, l.display_id, l.enabled))
}

/// Some link leads from renderer `r`.
pub open spec fn is_linked(lv: Seq<(Seq<char>, DisplayId, bool)>, r: Seq<char>) -> bool {
    exists|i: int| 0 <= i < lv.len() && (#[trigger] lv[i]).0 == r
}

/// The links of display `d`, in order.
pub open spec fn display_links(lv: Seq<(Seq<char>, DisplayId, bool)>, d: DisplayId) -> Seq<
    (Seq<char>, DisplayId, bool),
>
    decreases lv.len(),
{
    if lv.len() == 0 {
        Seq::empty()
    } else {
        let rest = display_links(lv.drop_last(), d);
        if lv.last().1 == d {
            rest.push(lv.last())
        } else {
            rest
        }
    }
}

/// Display `d` has exactly one link, a disabled one, from renderer `r`.
pub open spec fn assigned(lv: Seq<(Seq<char>, DisplayId, bool)>, d: DisplayId, r: Seq<char>) -> bool {
    display_links(lv, d) == seq![(r, d, false)]
}

/// The renderer of the first link of display `d`.
pub open spec fn renderer_of(lv: Seq<(Seq<char>, DisplayId, bool)>, d: DisplayId) -> Seq<char> {
    display_links(lv, d)[0].0
}

/// Fresh ids that differ from each other and from every renderer linked in
/// `lv`.
pub open spec fn fresh_unused(fresh: Seq<Seq<char>>, lv: Seq<(Seq<char>, DisplayId, bool)>) -> bool {
    &&& fresh.no_duplicates()
    &&& forall|i: int| 0 <= i < fresh.len() ==> !is_linked(lv, #[trigger] fresh[i])
}

proof fn lemma_display_links_push(lv: Seq<(Seq<char>, DisplayId, bool)>, t: (Seq<char>, DisplayId, bool), d: DisplayId)
    ensures
        display_links(lv.push(t), d) == if t.1 == d {
            display_links(lv, d).push(t)
        } else {
            display_links(lv, d)
        },
{
    assert(lv.push(t).drop_last() =~= lv);
}

/// A link of `lv` is among the links of its display, and back.
proof fn lemma_display_links_contains(lv: Seq<(Seq<char>, DisplayId, bool)>, t: (Seq<char>, DisplayId, bool))
    ensures
        lv.contains(t) <==> display_links(lv, t.1).contains(t),
    decreases lv.len(),
{
    if lv.len() > 0 {
        let p = lv.drop_last();
        lemma_display_links_contains(p, t);
        assert(lv =~= p.push(lv.last()));
        let dp = display_links(p, t.1);
        if lv.contains(t) {
            let i = choose|i: int| 0 <= i < lv.len() && lv[i] == t;
            if i < p.len() {
                assert(p[i] == t);
                let j = choose|j: int| 0 <= j < dp.len() && dp[j] == t;
                if lv.last().1 == t.1 {
                    assert(dp.push(lv.last())[j] == t);
                }
            } else {
                assert(dp.push(lv.last())[dp.len() as int] == t);
            }
        }
        if display_links(lv, t.1).contains(t) {
            let j = choose|j: int| 0 <= j < display_links(lv, t.1).len() && display_links(lv, t.1)[j] == t;
            if lv.last().1 == t.1 && j == dp.len() {
                assert(lv[lv.len() - 1] == t);
            } else {
                assert(dp[j] == t);
                assert(dp.contains(t));
                let i = choose|i: int| 0 <= i < p.len() && p[i] == t;
                assert(lv[i] == t);
            }
        }
    }
}

/// No two slots belong to the same renderer.
pub open spec fn slot_ids_distinct<S>(slots: Seq<RetainedSlot<S>>) -> bool {
    forall|i: int, j: int|
        0 <= i < slots.len() && 0 <= j < slots.len() && i != j ==> (#[trigger] slots[i]).renderer_id@
            != (#[trigger] slots[j]).renderer_id@
}

/// The slots by renderer id.
pub open spec fn slot_map<S>(slots: Seq<RetainedSlot<S>>) -> Map<Seq<char>, RendererSlot<S>> {
    Map::new(
        |r: Seq<char>| exists|i: int| 0 <= i < slots.len() && (#[trigger] slots[i]).renderer_id@ == r,
        |r: Seq<char>|
            slots[choose|i: int| 0 <= i < slots.len() && (#[trigger] slots[i]).renderer_id@ == r].slot,
    )
}

proof fn lemma_slot_map_at<S>(slots: Seq<RetainedSlot<S>>, k: int)
    requires
        slot_ids_distinct(slots),
        0 <= k < slots.len(),
    ensures
        slot_map(slots).dom().contains(slots[k].renderer_id@),
        slot_map(slots)[slots[k].renderer_id@] == slots[k].slot,
{
    let r = slots[k].renderer_id@;
    assert(slots[k].renderer_id@ == r);
    let c = choose|i: int| 0 <= i < slots.len() && (#[trigger] slots[i]).renderer_id@ == r;
    assert(c == k);
}

/// Replacing the slot at `k` by one of the same renderer changes only that
/// renderer's slot.
proof fn lemma_slot_map_update<S>(slots: Seq<RetainedSlot<S>>, k: int, e: RetainedSlot<S>)
    requires
        slot_ids_distinct(slots),
        0 <= k < slots.len(),
        e.renderer_id@ == slots[k].renderer_id@,
    ensures
        slot_ids_distinct(slots.update(k, e)),
        slot_map(slots.update(k, e)) == slot_map(slots).insert(e.renderer_id@, e.slot),
{
    let s2 = slots.update(k, e);
    assert forall|i: int, j: int|
        0 <= i < s2.len() && 0 <= j < s2.len() && i != j implies (#[trigger] s2[i]).renderer_id@
        != (#[trigger] s2[j]).renderer_id@ by {
        assert(slots[i] == slots[i]);
        assert(slots[j] == slots[j]);
    }
    lemma_slot_map_at(s2, k);
    assert forall|r: Seq<char>|
        #![trigger slot_map(s2).dom().contains(r)]
        #![trigger slot_map(slots).dom().contains(r)]
        r != e.renderer_id@ implies (slot_map(s2).dom().contains(r)
        <==> slot_map(slots).dom().contains(r)) && (slot_map(s2).dom().contains(r) ==> slot_map(
        s2,
    )[r] == slot_map(slots)[r]) by {
        if slot_map(slots).dom().contains(r) {
            let i = choose|i: int| 0 <= i < slots.len() && (#[trigger] slots[i]).renderer_id@ == r;
            assert(i != k);
            assert(s2[i] == slots[i]);
            lemma_slot_map_at(slots, i);
            lemma_slot_map_at(s2, i);
        }
        if slot_map(s2).dom().contains(r) {
            let i = choose|i: int| 0 <= i < s2.len() && (#[trigger] s2[i]).renderer_id@ == r;
            assert(i != k);
            assert(s2[i] == slots[i]);
        }
    }
    let m2 = slot_map(slots).insert(e.renderer_id@, e.slot);
    assert(slot_map(s2).dom() =~= m2.dom()) by {
        assert forall|r: Seq<char>| #[trigger] m2.dom().contains(r) <==> slot_map(s2).dom().contains(
            r,
        ) by {
            if r != e.renderer_id@ {
                assert(slot_map(s2).dom().contains(r) <==> slot_map(slots).dom().contains(r));
            }
        }
    }
    assert forall|r: Seq<char>| #[trigger] slot_map(s2).dom().contains(r) implies slot_map(s2)[r]
        == m2[r] by {
        if r != e.renderer_id@ {
            assert(slot_map(s2).dom().contains(r) <==> slot_map(slots).dom().contains(r));
        }
    }
    assert(slot_map(s2) =~= m2);
}

/// Adding the slot of a renderer without one adds just that slot.
proof fn lemma_slot_map_push<S>(slots: Seq<RetainedSlot<S>>, e: RetainedSlot<S>)
    requires
        slot_ids_distinct(slots),
        !slot_map(slots).dom().contains(e.renderer_id@),
    ensures
        slot_ids_distinct(slots.push(e)),
        slot_map(slots.push(e)) == slot_map(slots).insert(e.renderer_id@, e.slot),
{
    let s2 = slots.push(e);
    assert forall|i: int, j: int|
        0 <= i < s2.len() && 0 <= j < s2.len() && i != j implies (#[trigger] s2[i]).renderer_id@
        != (#[trigger] s2[j]).renderer_id@ by {
        if i < slots.len() {
            assert(s2[i] == slots[i]);
        }
        if j < slots.len() {
            assert(s2[j] == slots[j]);
        }
        if i == slots.len() {
            assert(slots[j].renderer_id@ == slots[j].renderer_id@);
        }
        if j == slots.len() {
            assert(slots[i].renderer_id@ == slots[i].renderer_id@);
        }
    }
    lemma_slot_map_at(s2, slots.len() as int);
    assert forall|r: Seq<char>|
        #![trigger slot_map(s2).dom().contains(r)]
        #![trigger slot_map(slots).dom().contains(r)]
        r != e.renderer_id@ implies (slot_map(s2).dom().contains(r)
        <==> slot_map(slots).dom().contains(r)) && (slot_map(s2).dom().contains(r) ==> slot_map(
        s2,
    )[r] == slot_map(slots)[r]) by {
        if slot_map(slots).dom().contains(r) {
            let i = choose|i: int| 0 <= i < slots.len() && (#[trigger] slots[i]).renderer_id@ == r;
            assert(s2[i] == slots[i]);
            lemma_slot_map_at(slots, i);
            lemma_slot_map_at(s2, i);
        }
        if slot_map(s2).dom().contains(r) {
            let i = choose|i: int| 0 <= i < s2.len() && (#[trigger] s2[i]).renderer_id@ == r;
            assert(i != slots.len());
            assert(s2[i] == slots[i]);
        }
    }
    let m2 = slot_map(slots).insert(e.renderer_id@, e.slot);
    assert(slot_map(s2).dom() =~= m2.dom()) by {
        assert forall|r: Seq<char>| #[trigger] m2.dom().contains(r) <==> slot_map(s2).dom().contains(
            r,
        ) by {
            if r != e.renderer_id@ {
                assert(slot_map(s2).dom().contains(r) <==> slot_map(slots).dom().contains(r));
            }
        }
    }
    assert forall|r: Seq<char>| #[trigger] slot_map(s2).dom().contains(r) implies slot_map(s2)[r]
        == m2[r] by {
        if r != e.renderer_id@ {
            assert(slot_map(s2).dom().contains(r) <==> slot_map(slots).dom().contains(r));
        }
    }
    assert(slot_map(s2) =~= m2);
}

/// Removing the slot at `k` removes just that renderer's slot.
proof fn lemma_slot_map_remove<S>(slots: Seq<RetainedSlot<S>>, k: int)
    requires
        slot_ids_distinct(slots),
        0 <= k < slots.len(),
    ensures
        slot_ids_distinct(slots.remove(k)),
        slot_map(slots.remove(k)) == slot_map(slots).remove(slots[k].renderer_id@),
{
    let s2 = slots.remove(k);
    let r0 = slots[k].renderer_id@;
    assert forall|i: int, j: int|
        0 <= i < s2.len() && 0 <= j < s2.len() && i != j implies (#[trigger] s2[i]).renderer_id@
        != (#[trigger] s2[j]).renderer_id@ by {
        let oi = if i < k {
            i
        } else {
            i + 1
        };
        let oj = if j < k {
            j
        } else {
            j + 1
        };
        assert(s2[i] == slots[oi]);
        assert(s2[j] == slots[oj]);
    }
    assert forall|r: Seq<char>|
        #![trigger slot_map(s2).dom().contains(r)]
        #![trigger slot_map(slots).dom().contains(r)]
        r != r0 implies (slot_map(s2).dom().contains(r) <==> slot_map(
        slots,
    ).dom().contains(r)) && (slot_map(s2).dom().contains(r) ==> slot_map(s2)[r] == slot_map(
        slots,
    )[r]) by {
        if slot_map(slots).dom().contains(r) {
            let i = choose|i: int| 0 <= i < slots.len() && (#[trigger] slots[i]).renderer_id@ == r;
            assert(i != k);
            let i2 = if i < k {
                i
            } else {
                i - 1
            };
            assert(s2[i2] == slots[i]);
            lemma_slot_map_at(slots, i);
            lemma_slot_map_at(s2, i2);
        }
    }
    assert forall|i: int| 0 <= i < s2.len() implies (#[trigger] s2[i]).renderer_id@ != r0 by {
        let oi = if i < k {
            i
        } else {
            i + 1
        };
        assert(s2[i] == slots[oi]);
    }
    let m2 = slot_map(slots).remove(r0);
    assert(slot_map(s2).dom() =~= m2.dom()) by {
        assert forall|r: Seq<char>| #[trigger] m2.dom().contains(r) <==> slot_map(s2).dom().contains(
            r,
        ) by {
            if r != r0 {
                assert(slot_map(s2).dom().contains(r) <==> slot_map(slots).dom().contains(r));
            }
        }
    }
    assert forall|r: Seq<char>| #[trigger] slot_map(s2).dom().contains(r) implies slot_map(s2)[r]
        == m2[r] by {
        if r != r0 {
            assert(slot_map(s2).dom().contains(r) <==> slot_map(slots).dom().contains(r));
        }
    }
    assert(slot_map(s2) =~= m2);
}

// ---------------------------------------------------------------------------
// Reading and changing the links.

/// Renderer `x` has a link to a display of `group`.
pub open spec fn touches(lv: Seq<(Seq<char>, DisplayId, bool)>, group: Seq<DisplayId>, x: Seq<char>) -> bool {
    exists|i: int| 0 <= i < lv.len() && (#[trigger] lv[i]).0 == x && group.contains(lv[i].1)
}

fn display_in(group: &Vec<DisplayId>, d: DisplayId) -> (r: bool)
    ensures
        r == group@.contains(d),
{
    let mut i: usize = 0;
    while i < group.len()
        invariant
            i <= group@.len(),
            forall|j: int| 0 <= j < i ==> group@[j] != d,
        decreases group@.len() - i,
    {
        if group[i] == d {
            assert(group@[i as int] == d);
            return true;
        }
        i = i + 1;
    }
    false
}

/// The renderers linked to a display of `group`, each once.
fn existing_renderers(links: &Vec<Link>, group: &Vec<DisplayId>) -> (r: Vec<String>)
    ensures
        strings_view(r@).no_duplicates(),
        forall|x: Seq<char>| #[trigger] strings_view(r@).contains(x) <==> touches(
            link_views(links@),
            group@,
            x,
        ),
{
    let ghost lv = link_views(links@);
    let mut out: Vec<String> = Vec::new();
    let mut i: usize = 0;
    while i < links.len()
        invariant
            i <= links@.len(),
            lv == link_views(links@),
            strings_view(out@).no_duplicates(),
            forall|x: Seq<char>| #[trigger] strings_view(out@).contains(x) <==> touches(
                lv.subrange(0, i as int),
                group@,
                x,
            ),
        decreases links@.len() - i,
    {
        let ghost pre = lv.subrange(0, i as int);
        let ghost next = lv.subrange(0, i + 1);
        assert(next[i as int] == lv[i as int]);
        assert forall|x: Seq<char>| touches(next, group@, x) <==> (touches(pre, group@, x) || (
        lv[i as int].0 == x && group@.contains(lv[i as int].1))) by {
            if touches(next, group@, x) {
                let j = choose|j: int|
                    0 <= j < next.len() && (#[trigger] next[j]).0 == x && group@.contains(next[j].1);
                if j < i {
                    assert(pre[j] == next[j]);
                }
            }
            if touches(pre, group@, x) {
                let j = choose|j: int|
                    0 <= j < pre.len() && (#[trigger] pre[j]).0 == x && group@.contains(pre[j].1);
                assert(next[j] == pre[j]);
            }
        }
        let ghost ov = strings_view(out@);
        let in_group = display_in(group, links[i].display_id);
        if in_group && !contains_string(&out, links[i].renderer_id.as_str()) {
            let id = links[i].renderer_id.clone();
            proof {
                let sv = strings_view(out@);
                assert(strings_view(out@.push(id)) =~= sv.push(id@));
                assert forall|a: int, b: int|
                    0 <= a < sv.push(id@).len() && 0 <= b < sv.push(id@).len() && a != b implies sv.push(
                    id@,
                )[a] != sv.push(id@)[b] by {
                    if a < sv.len() && b < sv.len() {
                    } else if a < sv.len() {
                        assert(sv.contains(sv[a]));
                    } else {
                        assert(sv.contains(sv[b]));
                    }
                }
            }
            out.push(id);
            proof {
                let nv = strings_view(out@);
                assert(nv =~= ov.push(lv[i as int].0));
                assert forall|x: Seq<char>| #[trigger] nv.contains(x) <==> touches(next, group@, x) by {
                    if nv.contains(x) {
                        let q = choose|q: int| 0 <= q < nv.len() && nv[q] == x;
                        if q < ov.len() {
                            assert(ov[q] == x);
                            assert(ov.contains(x));
                        }
                    }
                    if ov.contains(x) {
                        let q = choose|q: int| 0 <= q < ov.len() && ov[q] == x;
                        assert(nv[q] == x);
                    }
                    if x == lv[i as int].0 {
                        assert(nv[ov.len() as int] == x);
                    }
                }
            }
        } else {
            proof {
                assert forall|x: Seq<char>| #[trigger] ov.contains(x) <==> touches(next, group@, x) by {
                    if x == lv[i as int].0 && in_group {
                        assert(ov.contains(x) == touches(pre, group@, x));
                    }
                }
            }
        }
        i = i + 1;
    }
    assert(lv.subrange(0, lv.len() as int) =~= lv);
    out
}

fn renderer_linked(links: &Vec<Link>, r: &str) -> (b: bool)
    ensures
        b == is_linked(link_views(links@), r@),
{
    let ghost lv = link_views(links@);
    let mut i: usize = 0;
    while i < links.len()
        invariant
            i <= links@.len(),
            lv == link_views(links@),
            forall|j: int| 0 <= j < i ==> (#[trigger] lv[j]).0 != r@,
        decreases links@.len() - i,
    {
        if str_eq(links[i].renderer_id.as_str(), r) {
            assert(lv[i as int].0 == r@);
            return true;
        }
        i = i + 1;
    }
    false
}

fn copy_link(l: &Link) -> (c: Link)
    ensures
        c.renderer_id@ == l.renderer_id@,
        c.display_id == l.display_id,
        c.enabled == l.enabled,
{
    Link { renderer_id: l.renderer_id.clone(), display_id: l.display_id, enabled: l.enabled }
}

/// Gives every display of `group` a single disabled link from `rid`,
/// leaving the links of other displays as they were.
fn relink_group(links: &mut Vec<Link>, group: &Vec<DisplayId>, rid: &String)
    ensures
        forall|d: DisplayId| #[trigger] group@.contains(d) ==> assigned(link_views(final(links)@), d, rid@),
        forall|d: DisplayId|
            !group@.contains(d) ==> #[trigger] display_links(link_views(final(links)@), d) == display_links(
                link_views(old(links)@),
                d,
            ),
{
    let ghost lv0 = link_views(links@);
    let mut out: Vec<Link> = Vec::new();
    let mut i: usize = 0;
    while i < links.len()
        invariant
            i <= links@.len(),
            lv0 == link_views(links@),
            forall|d: DisplayId|
                !group@.contains(d) ==> #[trigger] display_links(link_views(out@), d) == display_links(
                    lv0.subrange(0, i as int),
                    d,
                ),
            forall|d: DisplayId|
                group@.contains(d) ==> #[trigger] display_links(link_views(out@), d) == Seq::<
                    (Seq<char>, DisplayId, bool),
                >::empty(),
        decreases links@.len() - i,
    {
        let ghost pre = lv0.subrange(0, i as int);
        let ghost ov = link_views(out@);
        assert(lv0.subrange(0, i + 1) =~= pre.push(lv0[i as int]));
        let keep = !display_in(group, links[i].display_id);
        if keep {
            let c = copy_link(&links[i]);
            proof {
                assert(link_views(out@.push(c)) =~= ov.push(lv0[i as int]));
            }
            out.push(c);
        }
        proof {
            let nv = link_views(out@);
            assert forall|d: DisplayId| #[trigger] display_links(nv, d) == (if group@.contains(d) {
                Seq::<(Seq<char>, DisplayId, bool)>::empty()
            } else {
                display_links(lv0.subrange(0, i + 1), d)
            }) by {
                lemma_display_links_push(pre, lv0[i as int], d);
                if keep {
                    lemma_display_links_push(ov, lv0[i as int], d);
                }
            }
        }
        i = i + 1;
    }
    assert(lv0.subrange(0, lv0.len() as int) =~= lv0);
    let mut k: usize = 0;
    while k < group.len()
        invariant
            k <= group@.len(),
            forall|d: DisplayId|
                !group@.contains(d) ==> #[trigger] display_links(link_views(out@), d) == display_links(lv0, d),
            forall|d: DisplayId|
                group@.contains(d) ==> #[trigger] display_links(link_views(out@), d) == if group@.subrange(
                    0,
                    k as int,
                ).contains(d) {
                    seq![(rid@, d, false)]
                } else {
                    Seq::<(Seq<char>, DisplayId, bool)>::empty()
                },
        decreases group@.len() - k,
    {
        let d = group[k];
        let ghost gp = group@.subrange(0, k as int);
        assert(group@.subrange(0, k + 1) =~= gp.push(d));
        assert(group@.contains(d)) by {
            assert(group@[k as int] == d);
        }
        let mut seen = false;
        let mut m: usize = 0;
        while m < k
            invariant
                m <= k < group@.len(),
                gp == group@.subrange(0, k as int),
                seen == gp.subrange(0, m as int).contains(d),
            decreases k - m,
        {
            assert(gp.subrange(0, m + 1) =~= gp.subrange(0, m as int).push(gp[m as int]));
            if group[m] == d {
                assert(gp.subrange(0, m + 1)[m as int] == d);
                seen = true;
            }
            m = m + 1;
        }
        assert(gp.subrange(0, k as int) =~= gp);
        let ghost ov = link_views(out@);
        if !seen {
            let l = Link { renderer_id: rid.clone(), display_id: d, enabled: false };
            proof {
                assert(link_views(out@.push(l)) =~= ov.push((rid@, d, false)));
            }
            out.push(l);
        }
        proof {
            let nv = link_views(out@);
            assert forall|e: DisplayId| #[trigger] display_links(nv, e) == if !group@.contains(e) {
                display_links(lv0, e)
            } else if gp.push(d).contains(e) {
                seq![(rid@, e, false)]
            } else {
                Seq::<(Seq<char>, DisplayId, bool)>::empty()
            } by {
                if !seen {
                    lemma_display_links_push(ov, (rid@, d, false), e);
                    if e == d {
                        assert(gp.push(d)[k as int] == d);
                        assert(!gp.contains(d));
                    }
                } else if e == d {
                    assert(gp.contains(d));
                }
                if gp.contains(e) {
                    let q = choose|q: int| 0 <= q < gp.len() && gp[q] == e;
                    assert(gp.push(d)[q] == e);
                }
                if gp.push(d).contains(e) && e != d {
                    let q = choose|q: int| 0 <= q < gp.push(d).len() && gp.push(d)[q] == e;
                    assert(gp[q] == e);
                }
            }
        }
        k = k + 1;
    }
    proof {
        assert(group@.subrange(0, group@.len() as int) =~= group@);
    }
    *links = out;
}

// ---------------------------------------------------------------------------
// Reading and changing the slots.

fn slot_index<S>(slots: &Vec<RetainedSlot<S>>, r: &str) -> (k: Option<usize>)
    ensures
        k matches Some(i) ==> i < slots@.len() && slots@[i as int].renderer_id@ == r@,
        k is None ==> !slot_map(slots@).dom().contains(r@),
{
    let mut i: usize = 0;
    while i < slots.len()
        invariant
            i <= slots@.len(),
            forall|j: int| 0 <= j < i ==> (#[trigger] slots@[j]).renderer_id@ != r@,
        decreases slots@.len() - i,
    {
        if str_eq(slots[i].renderer_id.as_str(), r) {
            return Some(i);
        }
        i = i + 1;
    }
    None
}

/// Makes `rid` a kept renderer with request `req` and name `name`: an
/// existing slot takes them over as a new revision (its process untouched);
/// otherwise a stopped slot is added.
fn keep_slot<S>(slots: &mut Vec<RetainedSlot<S>>, rid: &String, req: S, name: String)
    requires
        slot_ids_distinct(old(slots)@),
    ensures
        slot_ids_distinct(final(slots)@),
        slot_map(final(slots)@).dom() == slot_map(old(slots)@).dom().insert(rid@),
        forall|x: Seq<char>|
            x != rid@ && #[trigger] slot_map(old(slots)@).dom().contains(x) ==> slot_map(
                final(slots)@,
            )[x] == slot_map(old(slots)@)[x],
        slot_map(final(slots)@)[rid@].spawn_request == req,
        slot_map(final(slots)@)[rid@].name@ == name@,
        slot_map(final(slots)@)[rid@].retention == RendererRetention::Keep,
        slot_map(old(slots)@).dom().contains(rid@) ==> slot_map(final(slots)@)[rid@].process_state
            == slot_map(old(slots)@)[rid@].process_state,
        !slot_map(old(slots)@).dom().contains(rid@) ==> slot_map(final(slots)@)[rid@].process_state
            == RendererProcessState::Stopped,
{
    match slot_index(slots, rid.as_str()) {
        Some(k) => {
            let ghost s0 = slots@;
            let mut e = slots.remove(k);
            e.slot.replace_spec(req, name);
            e.slot.retention = RendererRetention::Keep;
            slots.insert(k, e);
            proof {
                assert(slots@ =~= s0.update(k as int, e));
                lemma_slot_map_at(s0, k as int);
                lemma_slot_map_update(s0, k as int, e);
            }
        },
        None => {
            let ghost s0 = slots@;
            let e = RetainedSlot { renderer_id: rid.clone(), slot: RendererSlot::stopped(req, name) };
            slots.push(e);
            proof {
                lemma_slot_map_push(s0, e);
            }
        },
    }
}

/// Lets go of renderer `r`, which lost its last link: with a live process
/// its slot (if any) is marked to be dropped; without one the slot is
/// forgotten.
fn retire_slot<S>(slots: &mut Vec<RetainedSlot<S>>, r: &str, live: bool)
    requires
        slot_ids_distinct(old(slots)@),
    ensures
        slot_ids_distinct(final(slots)@),
        forall|x: Seq<char>|
            x != r@ ==> (#[trigger] slot_map(final(slots)@).dom().contains(x) <==> slot_map(
                old(slots)@,
            ).dom().contains(x)),
        forall|x: Seq<char>|
            x != r@ && #[trigger] slot_map(old(slots)@).dom().contains(x) ==> slot_map(
                final(slots)@,
            )[x] == slot_map(old(slots)@)[x],
        live ==> (slot_map(final(slots)@).dom().contains(r@) <==> slot_map(
            old(slots)@,
        ).dom().contains(r@)),
        live && slot_map(old(slots)@).dom().contains(r@) ==> slot_map(final(slots)@)[r@].retention
            == RendererRetention::Drop,
        !live ==> !slot_map(final(slots)@).dom().contains(r@),
{
    let ghost s0 = slots@;
    match slot_index(slots, r) {
        Some(k) => {
            proof {
                lemma_slot_map_at(s0, k as int);
            }
            if live {
                let mut e = slots.remove(k);
                e.slot.retention = RendererRetention::Drop;
                slots.insert(k, e);
                proof {
                    assert(slots@ =~= s0.update(k as int, e));
                    lemma_slot_map_update(s0, k as int, e);
                }
            } else {
                slots.remove(k);
                proof {
                    lemma_slot_map_remove(s0, k as int);
                }
            }
        },
        None => {},
    }
}

/// Renderer `r` has an enabled link to a display that is present.
pub open spec fn has_demand_in(lv: Seq<(Seq<char>, DisplayId, bool)>, displays: Seq<DisplayId>, r: Seq<char>) -> bool {
    exists|i: int| 0 <= i < lv.len() && (#[trigger] lv[i]).0 == r && lv[i].2 && displays.contains(lv[i].1)
}

fn demand_for(links: &Vec<Link>, displays: &Vec<DisplayId>, r: &str) -> (b: bool)
    ensures
        b == has_demand_in(link_views(links@), displays@, r@),
{
    let ghost lv = link_views(links@);
    let mut i: usize = 0;
    while i < links.len()
        invariant
            i <= links@.len(),
            lv == link_views(links@),
            forall|j: int| 0 <= j < i && (#[trigger] lv[j]).0 == r@ && lv[j].2 ==> !displays@.contains(lv[j].1),
        decreases links@.len() - i,
    {
        if links[i].enabled && str_eq(links[i].renderer_id.as_str(), r) && display_in(displays, links[i].display_id) {
            assert(lv[i as int].0 == r@);
            return true;
        }
        i = i + 1;
    }
    false
}

// ---------------------------------------------------------------------------
// Assigning a retained renderer to displays.

/// Renderer `x` has a slot that is kept, with a clone of `req` as request
/// and `name` as name.
pub open spec fn slot_good<S: Clone>(
    m: Map<Seq<char>, RendererSlot<S>>,
    x: Seq<char>,
    req: S,
    name: Seq<char>,
) -> bool {
    &&& m.dom().contains(x)
    &&& m[x].retention == RendererRetention::Keep
    &&& cloned(req, m[x].spawn_request)
    &&& m[x].name@ == name
}

/// Renderer `x`, if it has no link left, was let go of: marked to be
/// dropped when it has a live process, forgotten otherwise.
pub open spec fn retired<S>(
    lv: Seq<(Seq<char>, DisplayId, bool)>,
    m: Map<Seq<char>, RendererSlot<S>>,
    live: Seq<Seq<char>>,
    x: Seq<char>,
) -> bool {
    !is_linked(lv, x) ==> if live.contains(x) {
        m.dom().contains(x) ==> m[x].retention == RendererRetention::Drop
    } else {
        !m.dom().contains(x)
    }
}

/// The slots of `x` in `m0` and `m1` are the same (or both absent).
pub open spec fn same_slot<S>(m0: Map<Seq<char>, RendererSlot<S>>, m1: Map<Seq<char>, RendererSlot<S>>, x: Seq<char>) -> bool {
    &&& m1.dom().contains(x) <==> m0.dom().contains(x)
    &&& m0.dom().contains(x) ==> m1[x] == m0[x]
}

/// Renderer `x` of `existing` lost its last link to a renderer other than
/// `rid`.
pub open spec fn orphaned(
    existing: Seq<Seq<char>>,
    rid: Seq<char>,
    lv: Seq<(Seq<char>, DisplayId, bool)>,
    x: Seq<char>,
) -> bool {
    existing.contains(x) && x != rid && !is_linked(lv, x)
}

proof fn lemma_assigned_linked(lv: Seq<(Seq<char>, DisplayId, bool)>, d: DisplayId, x: Seq<char>)
    requires
        assigned(lv, d, x),
    ensures
        is_linked(lv, x),
{
    assert(display_links(lv, d)[0] == (x, d, false));
    lemma_display_links_contains(lv, (x, d, false));
    let i = choose|i: int| 0 <= i < lv.len() && lv[i] == (x, d, false);
    assert(lv[i].0 == x);
}

/// A renderer with a link outside `group` keeps it when only the links of
/// `group` change.
proof fn lemma_link_kept(
    lv: Seq<(Seq<char>, DisplayId, bool)>,
    lv1: Seq<(Seq<char>, DisplayId, bool)>,
    group: Seq<DisplayId>,
    x: Seq<char>,
)
    requires
        forall|d: DisplayId| !group.contains(d) ==> #[trigger] display_links(lv1, d) == display_links(lv, d),
        is_linked(lv, x),
        !touches(lv, group, x),
    ensures
        is_linked(lv1, x),
{
    let i = choose|i: int| 0 <= i < lv.len() && (#[trigger] lv[i]).0 == x;
    let t = lv[i];
    assert(!group.contains(t.1));
    lemma_display_links_contains(lv, t);
    lemma_display_links_contains(lv1, t);
    assert(display_links(lv1, t.1) == display_links(lv, t.1));
    let j = choose|j: int| 0 <= j < lv1.len() && lv1[j] == t;
    assert(lv1[j].0 == x);
}

fn all_links_within(links: &Vec<Link>, group: &Vec<DisplayId>, r: &str) -> (b: bool)
    ensures
        b == forall|i: int|
            0 <= i < links@.len() && (#[trigger] link_views(links@)[i]).0 == r@ ==> group@.contains(
                link_views(links@)[i].1,
            ),
{
    let ghost lv = link_views(links@);
    let mut i: usize = 0;
    while i < links.len()
        invariant
            i <= links@.len(),
            lv == link_views(links@),
            forall|j: int| 0 <= j < i && (#[trigger] lv[j]).0 == r@ ==> group@.contains(lv[j].1),
        decreases links@.len() - i,
    {
        if str_eq(links[i].renderer_id.as_str(), r) && !display_in(group, links[i].display_id) {
            assert(lv[i as int].0 == r@);
            return false;
        }
        i = i + 1;
    }
    true
}

/// The group's renderer may be taken over: it is the only renderer linked
/// to the group, all its links lead into the group, and its slot is kept
/// with a process neither starting nor running.
pub open spec fn reusable_for_group<S>(
    lv: Seq<(Seq<char>, DisplayId, bool)>,
    m: Map<Seq<char>, RendererSlot<S>>,
    existing: Seq<Seq<char>>,
    group: Seq<DisplayId>,
) -> bool {
    &&& existing.len() == 1
    &&& forall|i: int| 0 <= i < lv.len() && (#[trigger] lv[i]).0 == existing[0] ==> group.contains(lv[i].1)
    &&& m.dom().contains(existing[0])
    &&& m[existing[0]].retention == RendererRetention::Keep
    &&& !(m[existing[0]].process_state is Starting || m[existing[0]].process_state is Running)
}

fn group_reusable<S>(
    links: &Vec<Link>,
    slots: &Vec<RetainedSlot<S>>,
    existing: &Vec<String>,
    group: &Vec<DisplayId>,
) -> (b: bool)
    requires
        slot_ids_distinct(slots@),
    ensures
        b == reusable_for_group(link_views(links@), slot_map(slots@), strings_view(existing@), group@),
{
    if existing.len() != 1 {
        return false;
    }
    assert(strings_view(existing@)[0] == existing@[0]@);
    if !all_links_within(links, group, existing[0].as_str()) {
        return false;
    }
    match slot_index(slots, existing[0].as_str()) {
        Some(k) => {
            proof {
                lemma_slot_map_at(slots@, k as int);
            }
            slots[k].slot.reusable_for_assignment()
        },
        None => false,
    }
}

fn retire_orphans<S>(
    slots: &mut Vec<RetainedSlot<S>>,
    live: &Vec<String>,
    links: &Vec<Link>,
    existing: &Vec<String>,
    rid: &String,
    removed: &mut Vec<String>,
    to_drop: &mut Vec<String>,
)
    requires
        slot_ids_distinct(old(slots)@),
    ensures
        slot_ids_distinct(final(slots)@),
        forall|x: Seq<char>|
            !orphaned(strings_view(existing@), rid@, link_views(links@), x) ==> #[trigger] same_slot(
                slot_map(old(slots)@),
                slot_map(final(slots)@),
                x,
            ),
        forall|x: Seq<char>|
            orphaned(strings_view(existing@), rid@, link_views(links@), x) ==> #[trigger] retired(
                link_views(links@),
                slot_map(final(slots)@),
                strings_view(live@),
                x,
            ),
        forall|y: Seq<char>|
            #[trigger] strings_view(final(removed)@).contains(y) <==> strings_view(
                old(removed)@,
            ).contains(y) || (orphaned(strings_view(existing@), rid@, link_views(links@), y)
                && !strings_view(live@).contains(y)),
        forall|y: Seq<char>|
            #[trigger] strings_view(final(to_drop)@).contains(y) <==> strings_view(
                old(to_drop)@,
            ).contains(y) || (orphaned(strings_view(existing@), rid@, link_views(links@), y)
                && strings_view(live@).contains(y)),
{
    let ghost lv = link_views(links@);
    let ghost ev = strings_view(existing@);
    let ghost m0 = slot_map(slots@);
    let ghost rem0 = strings_view(removed@);
    let ghost drop0 = strings_view(to_drop@);
    let ghost lvs = strings_view(live@);
    let mut j: usize = 0;
    while j < existing.len()
        invariant
            j <= existing@.len(),
            lv == link_views(links@),
            ev == strings_view(existing@),
            lvs == strings_view(live@),
            slot_ids_distinct(slots@),
            forall|x: Seq<char>|
                !orphaned(ev.subrange(0, j as int), rid@, lv, x) ==> #[trigger] same_slot(
                    m0,
                    slot_map(slots@),
                    x,
                ),
            forall|x: Seq<char>|
                orphaned(ev.subrange(0, j as int), rid@, lv, x) ==> #[trigger] retired(
                    lv,
                    slot_map(slots@),
                    lvs,
                    x,
                ),
            forall|y: Seq<char>|
                #[trigger] strings_view(removed@).contains(y) <==> rem0.contains(y) || (orphaned(
                    ev.subrange(0, j as int),
                    rid@,
                    lv,
                    y,
                ) && !lvs.contains(y)),
            forall|y: Seq<char>|
                #[trigger] strings_view(to_drop@).contains(y) <==> drop0.contains(y) || (orphaned(
                    ev.subrange(0, j as int),
                    rid@,
                    lv,
                    y,
                ) && lvs.contains(y)),
        decreases existing@.len() - j,
    {
        let ghost pre = ev.subrange(0, j as int);
        let ghost next = ev.subrange(0, j + 1);
        let ghost e = ev[j as int];
        assert(next =~= pre.push(e));
        assert(e == existing@[j as int]@);
        assert forall|x: Seq<char>| orphaned(next, rid@, lv, x) <==> (orphaned(pre, rid@, lv, x) || (x
            == e && x != rid@ && !is_linked(lv, x))) by {
            if next.contains(x) && x != e {
                let q = choose|q: int| 0 <= q < next.len() && next[q] == x;
                assert(pre[q] == x);
            }
            if pre.contains(x) {
                let q = choose|q: int| 0 <= q < pre.len() && pre[q] == x;
                assert(next[q] == x);
            }
            if x == e {
                assert(next[j as int] == x);
            }
        }
        let ghost ms = slot_map(slots@);
        let ghost rv = strings_view(removed@);
        let ghost dv = strings_view(to_drop@);
        let old_id = existing[j].as_str();
        if !str_eq(old_id, rid.as_str()) && !renderer_linked(links, old_id) {
            let is_live = contains_string(live, old_id);
            retire_slot(slots, old_id, is_live);
            let id = existing[j].clone();
            if is_live {
                proof {
                    assert(strings_view(to_drop@.push(id)) =~= dv.push(e));
                }
                to_drop.push(id);
            } else {
                proof {
                    assert(strings_view(removed@.push(id)) =~= rv.push(e));
                }
                removed.push(id);
            }
            proof {
                let m2 = slot_map(slots@);
                assert forall|x: Seq<char>| !orphaned(next, rid@, lv, x) implies #[trigger] same_slot(
                    m0,
                    m2,
                    x,
                ) by {
                    assert(same_slot(m0, ms, x));
                    assert(x != e);
                }
                assert forall|x: Seq<char>| orphaned(next, rid@, lv, x) implies #[trigger] retired(
                    lv,
                    m2,
                    lvs,
                    x,
                ) by {
                    if x != e {
                        assert(orphaned(pre, rid@, lv, x));
                        assert(retired(lv, ms, lvs, x));
                    }
                }
                assert forall|y: Seq<char>| #[trigger] strings_view(removed@).contains(y) <==> rem0.contains(
                    y,
                ) || (orphaned(next, rid@, lv, y) && !lvs.contains(y)) by {
                    if !is_live {
                        if rv.push(e).contains(y) && y != e {
                            let q = choose|q: int| 0 <= q < rv.push(e).len() && rv.push(e)[q] == y;
                            assert(rv[q] == y);
                        }
                        if rv.contains(y) {
                            let q = choose|q: int| 0 <= q < rv.len() && rv[q] == y;
                            assert(rv.push(e)[q] == y);
                        }
                        if y == e {
                            assert(rv.push(e)[rv.len() as int] == y);
                        }
                    }
                }
                assert forall|y: Seq<char>| #[trigger] strings_view(to_drop@).contains(y) <==> drop0.contains(
                    y,
                ) || (orphaned(next, rid@, lv, y) && lvs.contains(y)) by {
                    if is_live {
                        if dv.push(e).contains(y) && y != e {
                            let q = choose|q: int| 0 <= q < dv.push(e).len() && dv.push(e)[q] == y;
                            assert(dv[q] == y);
                        }
                        if dv.contains(y) {
                            let q = choose|q: int| 0 <= q < dv.len() && dv[q] == y;
                            assert(dv.push(e)[q] == y);
                        }
                        if y == e {
                            assert(dv.push(e)[dv.len() as int] == y);
                        }
                    }
                }
            }
        } else {
            proof {
                assert forall|x: Seq<char>| orphaned(next, rid@, lv, x) <==> orphaned(pre, rid@, lv, x) by {
                    if x == e && x != rid@ && !is_linked(lv, x) {
                        assert(false);
                    }
                }
            }
        }
        j = j + 1;
    }
    assert(ev.subrange(0, ev.len() as int) =~= ev);
}

/// Renderer `x` is the only renderer linked to the displays `g`, all its
/// links lead into `g`, and its slot is kept with a process neither starting
/// nor running: an assignment to `g` takes it over.
pub open spec fn idle_owner<S>(
    lv: Seq<(Seq<char>, DisplayId, bool)>,
    m: Map<Seq<char>, RendererSlot<S>>,
    g: Seq<DisplayId>,
    x: Seq<char>,
) -> bool {
    &&& touches(lv, g, x)
    &&& forall|y: Seq<char>| #[trigger] touches(lv, g, y) ==> y == x
    &&& forall|i: int| 0 <= i < lv.len() && (#[trigger] lv[i]).0 == x ==> g.contains(lv[i].1)
    &&& m.dom().contains(x)
    &&& m[x].retention == RendererRetention::Keep
    &&& !(m[x].process_state is Starting || m[x].process_state is Running)
}

/// The idle owner of a group is the renderer the reuse check picks.
proof fn lemma_idle_owner_reused<S>(
    lv: Seq<(Seq<char>, DisplayId, bool)>,
    m: Map<Seq<char>, RendererSlot<S>>,
    ev: Seq<Seq<char>>,
    g: Seq<DisplayId>,
    x: Seq<char>,
)
    requires
        idle_owner(lv, m, g, x),
        ev.no_duplicates(),
        forall|y: Seq<char>| #[trigger] ev.contains(y) <==> touches(lv, g, y),
    ensures
        reusable_for_group(lv, m, ev, g),
        ev[0] == x,
{
    assert(ev.contains(x));
    if ev.len() >= 2 {
        assert(ev.contains(ev[0]));
        assert(ev.contains(ev[1]));
        assert(touches(lv, g, ev[0]));
        assert(touches(lv, g, ev[1]));
        assert(false);
    }
    assert(ev.contains(ev[0]));
    assert(touches(lv, g, ev[0]));
}

/// The renderer the reuse check picks is the group's idle owner.
proof fn lemma_reused_is_idle_owner<S>(
    lv: Seq<(Seq<char>, DisplayId, bool)>,
    m: Map<Seq<char>, RendererSlot<S>>,
    ev: Seq<Seq<char>>,
    g: Seq<DisplayId>,
)
    requires
        reusable_for_group(lv, m, ev, g),
        forall|y: Seq<char>| #[trigger] ev.contains(y) <==> touches(lv, g, y),
    ensures
        idle_owner(lv, m, g, ev[0]),
{
    assert(ev.contains(ev[0]));
    assert forall|y: Seq<char>| #[trigger] touches(lv, g, y) implies y == ev[0] by {
        assert(ev.contains(y));
        let q = choose|q: int| 0 <= q < ev.len() && ev[q] == y;
    }
}

/// After relinking the displays `g` to `rid`, a link is either a new one
/// of `g` or an old one of another display.
proof fn lemma_relinked_link(
    lv: Seq<(Seq<char>, DisplayId, bool)>,
    lv1: Seq<(Seq<char>, DisplayId, bool)>,
    g: Seq<DisplayId>,
    rid: Seq<char>,
    t: (Seq<char>, DisplayId, bool),
)
    requires
        forall|e: DisplayId| #[trigger] g.contains(e) ==> assigned(lv1, e, rid),
        forall|e: DisplayId| !g.contains(e) ==> #[trigger] display_links(lv1, e) == display_links(lv, e),
        lv1.contains(t),
    ensures
        g.contains(t.1) ==> t == (rid, t.1, false),
        !g.contains(t.1) ==> lv.contains(t),
{
    lemma_display_links_contains(lv1, t);
    if g.contains(t.1) {
        assert(assigned(lv1, t.1, rid));
        let q = choose|q: int| 0 <= q < display_links(lv1, t.1).len() && display_links(lv1, t.1)[q] == t;
        assert(q == 0);
    } else {
        assert(display_links(lv1, t.1) == display_links(lv, t.1));
        lemma_display_links_contains(lv, t);
    }
}

/// Which renderers touch one display depends only on that display's links.
proof fn lemma_touch_one(
    lv: Seq<(Seq<char>, DisplayId, bool)>,
    lv1: Seq<(Seq<char>, DisplayId, bool)>,
    d: DisplayId,
    y: Seq<char>,
)
    requires
        display_links(lv1, d) == display_links(lv, d),
    ensures
        touches(lv1, seq![d], y) == touches(lv, seq![d], y),
{
    if touches(lv1, seq![d], y) {
        let q = choose|q: int| 0 <= q < lv1.len() && (#[trigger] lv1[q]).0 == y && seq![d].contains(lv1[q].1);
        let t = lv1[q];
        assert(seq![d][0] == d);
        assert(t.1 == d) by {
            let z = choose|z: int| 0 <= z < seq![d].len() && seq![d][z] == t.1;
        }
        lemma_display_links_contains(lv1, t);
        lemma_display_links_contains(lv, t);
        let q2 = choose|q2: int| 0 <= q2 < lv.len() && lv[q2] == t;
        assert(lv[q2].0 == y && seq![d].contains(lv[q2].1));
    }
    if touches(lv, seq![d], y) {
        let q = choose|q: int| 0 <= q < lv.len() && (#[trigger] lv[q]).0 == y && seq![d].contains(lv[q].1);
        let t = lv[q];
        assert(t.1 == d) by {
            let z = choose|z: int| 0 <= z < seq![d].len() && seq![d][z] == t.1;
        }
        lemma_display_links_contains(lv1, t);
        lemma_display_links_contains(lv, t);
        let q2 = choose|q2: int| 0 <= q2 < lv1.len() && lv1[q2] == t;
        assert(lv1[q2].0 == y && seq![d].contains(lv1[q2].1));
    }
}

/// What assigning a retained renderer to displays did.
pub struct RetainedAssignment {
    /// The renderer of the first display.
    pub renderer_id: String,
    /// Renderers left without links and without a live process: their
    /// slots are gone.
    pub removed: Vec<String>,
    /// Renderers left without links that still have a live process: their
    /// slots are marked to be dropped, and the process is to be stopped.
    pub to_drop: Vec<String>,
    /// The renderer chosen for each group of displays, in order.
    pub applied_slots: Vec<String>,
}

/// The displays whose groups are done after `gi` groups.
pub open spec fn done_ids(ids: Seq<DisplayId>, dup: bool, gi: int) -> Seq<DisplayId> {
    if dup {
        ids.subrange(0, gi)
    } else if gi == 0 {
        Seq::empty()
    } else {
        ids
    }
}

/// What assigning a retained renderer with request `req` and name `name`
/// to the displays `ids` leaves in the table, from `t0` to `t1`, and
/// reports in `r`.
pub open spec fn assignment_outcome<S: Clone>(
    t0: RoutingTable<S>,
    t1: RoutingTable<S>,
    req: S,
    name: Seq<char>,
    ids: Seq<DisplayId>,
    dup: bool,
    fresh: Seq<Seq<char>>,
    r: RetainedAssignment,
) -> bool {
    let lv0 = link_views(t0.links@);
    let lv1 = link_views(t1.links@);
    let m0 = slot_map(t0.slots@);
    let m1 = slot_map(t1.slots@);
    let live = strings_view(t0.live@);
    let rem = strings_view(r.removed@);
    let drp = strings_view(r.to_drop@);
    let app = strings_view(r.applied_slots@);
    &&& slot_ids_distinct(t1.slots@)
    &&& t1.live@ == t0.live@
    &&& t1.displays@ == t0.displays@
    &&& t1.restart_tasks@ == t0.restart_tasks@
    // Each display of the assignment has one disabled link, from a kept
    // renderer that carries the new request and name.
    &&& forall|d: DisplayId|
        ids.contains(d) ==> assigned(lv1, d, #[trigger] renderer_of(lv1, d)) && slot_good(
            m1,
            renderer_of(lv1, d),
            req,
            name,
        )
    // The links of other displays stay as they were.
    &&& forall|d: DisplayId| !ids.contains(d) ==> #[trigger] display_links(lv1, d) == display_links(lv0, d)
    // The result is the renderer of the first display.
    &&& (!dup || ids.no_duplicates()) ==> assigned(lv1, ids[0], r.renderer_id@)
    // Without duplication, all displays share that renderer.
    &&& !dup ==> forall|d: DisplayId| ids.contains(d) ==> #[trigger] assigned(lv1, d, r.renderer_id@)
    // Every renderer that lost its last link is reported, and let go of.
    &&& forall|x: Seq<char>|
        #[trigger] is_linked(lv0, x) && !is_linked(lv1, x) ==> rem.contains(x) || drp.contains(x)
    &&& forall|x: Seq<char>| #[trigger] rem.contains(x) ==> !live.contains(x) && retired(lv1, m1, live, x)
    &&& forall|x: Seq<char>| #[trigger] drp.contains(x) ==> live.contains(x) && retired(lv1, m1, live, x)
    // Other renderers' slots are untouched.
    &&& forall|x: Seq<char>|
        !app.contains(x) && !rem.contains(x) && !drp.contains(x) ==> #[trigger] same_slot(m0, m1, x)
    // A group's idle owner is kept: without duplication for all displays,
    // with duplication for each display (when the displays and fresh ids
    // are distinct and the fresh ids unused).
    &&& !dup ==> forall|x: Seq<char>| #[trigger] idle_owner(lv0, m0, ids, x) ==> r.renderer_id@ == x
    // Without duplication and without an idle owner, the displays get the
    // first fresh renderer.
    &&& !dup && (forall|x: Seq<char>| !#[trigger] idle_owner(lv0, m0, ids, x)) ==> r.renderer_id@ == fresh[0]
    &&& dup && ids.no_duplicates() && fresh_unused(fresh, lv0) ==> forall|i: int, x: Seq<char>|
        0 <= i < ids.len() && #[trigger] idle_owner(lv0, m0, seq![ids[i]], x) ==> renderer_of(
            lv1,
            ids[i],
        ) == x
    // With duplication, distinct displays get distinct renderers, when the
    // fresh ids are distinct and unused.
    &&& dup && ids.no_duplicates() && fresh_unused(fresh, lv0) ==> forall|i: int, j: int|
        0 <= i < j < ids.len() ==> #[trigger] renderer_of(lv1, ids[i]) != #[trigger] renderer_of(
            lv1,
            ids[j],
        )
}

/// An assignment keeps a group's idle renderer: when the only renderer
/// linked to the group has all its links inside it and a kept slot whose
/// process is neither starting nor running, the group stays linked to it,
/// with or without duplicated renderers (with duplication, for distinct
/// displays and fresh ids that are distinct and unused). Without such a
/// renderer a shared group gets the first fresh id. Whatever was chosen,
/// every display of the assignment ends with one disabled link from a kept
/// renderer carrying the new request and name.
pub proof fn lemma_assignment_keeps_idle_renderers<S: Clone>(
    t0: RoutingTable<S>,
    t1: RoutingTable<S>,
    req: S,
    name: Seq<char>,
    ids: Seq<DisplayId>,
    dup: bool,
    fresh: Seq<Seq<char>>,
    r: RetainedAssignment,
)
    requires
        assignment_outcome(t0, t1, req, name, ids, dup, fresh, r),
    ensures
        ({
            let lv0 = link_views(t0.links@);
            let lv1 = link_views(t1.links@);
            let m0 = slot_map(t0.slots@);
            let m1 = slot_map(t1.slots@);
            &&& forall|x: Seq<char>|
                !dup && #[trigger] idle_owner(lv0, m0, ids, x) ==> r.renderer_id@ == x && forall|d: DisplayId|
                    ids.contains(d) ==> #[trigger] assigned(lv1, d, x)
            &&& forall|i: int, x: Seq<char>|
                dup && ids.no_duplicates() && fresh_unused(fresh, lv0) && 0 <= i < ids.len()
                    && #[trigger] idle_owner(lv0, m0, seq![ids[i]], x) ==> assigned(lv1, ids[i], x)
                    && m1.dom().contains(x) && cloned(req, m1[x].spawn_request) && m1[x].name@ == name
            &&& forall|d: DisplayId|
                ids.contains(d) ==> #[trigger] assigned(lv1, d, renderer_of(lv1, d)) && slot_good(
                    m1,
                    renderer_of(lv1, d),
                    req,
                    name,
                )
        }),
{
    let lv0 = link_views(t0.links@);
    let lv1 = link_views(t1.links@);
    let m0 = slot_map(t0.slots@);
    assert forall|i: int, x: Seq<char>|
        dup && ids.no_duplicates() && fresh_unused(fresh, lv0) && 0 <= i < ids.len()
            && #[trigger] idle_owner(lv0, m0, seq![ids[i]], x) implies assigned(lv1, ids[i], x)
            && slot_map(t1.slots@).dom().contains(x) && cloned(req, slot_map(t1.slots@)[x].spawn_request)
            && slot_map(t1.slots@)[x].name@ == name by {
        assert(ids.contains(ids[i]));
        assert(renderer_of(lv1, ids[i]) == x);
    }
}

impl<S: Clone> RoutingTable<S> {
    /// Assigns a retained renderer, spawned from `spawn_request` under
    /// `renderer_name`, to the displays `display_ids`: one renderer per
    /// display when `duplicate_renderers`, else one for all. A group of
    /// displays keeps its renderer when that renderer is the only one linked
    /// to it, has no link outside it, and is kept with a process neither
    /// starting nor running; otherwise it takes the group's id from
    /// `fresh_ids` (the one at the group's first display). Each display of
    /// the group gets a single disabled link from that renderer, whose slot
    /// takes the request and name. Earlier renderers of the group left
    /// without links are marked to be dropped when they have a live process
    /// and forgotten otherwise. Returns the renderer of the first group.
    pub fn apply_retained_assignment(
        &mut self,
        spawn_request: S,
        renderer_name: String,
        display_ids: &Vec<DisplayId>,
        duplicate_renderers: bool,
        fresh_ids: &Vec<String>,
    ) -> (r: RetainedAssignment)
        requires
            display_ids@.len() > 0,
            fresh_ids@.len() == display_ids@.len(),
            slot_ids_distinct(old(self).slots@),
        ensures
            assignment_outcome(
                *old(self),
                *final(self),
                spawn_request,
                renderer_name@,
                display_ids@,
                duplicate_renderers,
                strings_view(fresh_ids@),
                r,
            ),
    {
        let ghost ids = display_ids@;
        let ghost dup = duplicate_renderers;
        let ghost lv0 = link_views(self.links@);
        let ghost m0 = slot_map(self.slots@);
        let ghost live0 = self.live@;
        let ghost displays0 = self.displays@;
        let ghost tasks0 = self.restart_tasks@;
        let ghost live = strings_view(self.live@);
        let ghost fresh = strings_view(fresh_ids@);
        let groups = assignment_groups(display_ids, duplicate_renderers);
        let mut first: Option<String> = None;
        let mut removed: Vec<String> = Vec::new();
        let mut to_drop: Vec<String> = Vec::new();
        let mut applied: Vec<String> = Vec::new();
        let mut gi: usize = 0;
        while gi < groups.len()
            invariant
                ids == display_ids@,
                ids.len() > 0,
                fresh_ids@.len() == ids.len(),
                dup ==> groups@.len() == ids.len() && forall|i: int|
                    0 <= i < ids.len() ==> #[trigger] groups@[i]@ == seq![ids[i]],
                !dup ==> groups@.len() == 1 && groups@[0]@ == ids,
                gi <= groups@.len(),
                self.live@ == live0,
                self.displays@ == displays0,
                self.restart_tasks@ == tasks0,
                live == strings_view(live0),
                slot_ids_distinct(self.slots@),
                forall|d: DisplayId|
                    done_ids(ids, dup, gi as int).contains(d) ==> assigned(
                        link_views(self.links@),
                        d,
                        #[trigger] renderer_of(link_views(self.links@), d),
                    ) && slot_good(
                        slot_map(self.slots@),
                        renderer_of(link_views(self.links@), d),
                        spawn_request,
                        renderer_name@,
                    ),
                fresh == strings_view(fresh_ids@),
                dup && ids.no_duplicates() && fresh_unused(fresh, lv0) ==> forall|i: int, j: int|
                    0 <= i < j < gi ==> #[trigger] renderer_of(link_views(self.links@), ids[i])
                        != #[trigger] renderer_of(link_views(self.links@), ids[j]),
                dup && ids.no_duplicates() && fresh_unused(fresh, lv0) ==> forall|i: int|
                    0 <= i < gi ==> is_linked(lv0, #[trigger] renderer_of(link_views(self.links@), ids[i]))
                        || renderer_of(link_views(self.links@), ids[i]) == fresh[i],
                gi == 0 ==> link_views(self.links@) == lv0 && slot_map(self.slots@) == m0,
                !dup && gi > 0 ==> forall|x: Seq<char>|
                    #[trigger] idle_owner(lv0, m0, ids, x) ==> first->0@ == x,
                !dup && gi > 0 && (forall|x: Seq<char>| !#[trigger] idle_owner(lv0, m0, ids, x))
                    ==> first->0@ == fresh[0],
                dup && ids.no_duplicates() && fresh_unused(fresh, lv0) ==> forall|i: int, x: Seq<char>|
                    0 <= i < gi && #[trigger] idle_owner(lv0, m0, seq![ids[i]], x) ==> renderer_of(
                        link_views(self.links@),
                        ids[i],
                    ) == x,
                dup && ids.no_duplicates() && fresh_unused(fresh, lv0) ==> forall|i: int, x: Seq<char>|
                    gi <= i < ids.len() && #[trigger] idle_owner(lv0, m0, seq![ids[i]], x) ==> idle_owner(
                        link_views(self.links@),
                        slot_map(self.slots@),
                        seq![ids[i]],
                        x,
                    ),
                dup && ids.no_duplicates() && fresh_unused(fresh, lv0) ==> forall|k: int|
                    gi <= k < ids.len() ==> !is_linked(link_views(self.links@), #[trigger] fresh[k]),
                forall|d: DisplayId|
                    !done_ids(ids, dup, gi as int).contains(d) ==> #[trigger] display_links(
                        link_views(self.links@),
                        d,
                    ) == display_links(lv0, d),
                gi > 0 ==> first is Some,
                gi == 0 ==> first is None,
                gi > 0 && (!dup || ids.no_duplicates()) ==> assigned(
                    link_views(self.links@),
                    ids[0],
                    first->0@,
                ),
                gi > 0 && !dup ==> forall|d: DisplayId|
                    ids.contains(d) ==> #[trigger] assigned(link_views(self.links@), d, first->0@),
                forall|x: Seq<char>|
                    #[trigger] is_linked(lv0, x) && !is_linked(link_views(self.links@), x) ==> strings_view(
                        removed@,
                    ).contains(x) || strings_view(to_drop@).contains(x),
                forall|x: Seq<char>|
                    #[trigger] strings_view(removed@).contains(x) ==> !live.contains(x) && retired(
                        link_views(self.links@),
                        slot_map(self.slots@),
                        live,
                        x,
                    ),
                forall|x: Seq<char>|
                    #[trigger] strings_view(to_drop@).contains(x) ==> live.contains(x) && retired(
                        link_views(self.links@),
                        slot_map(self.slots@),
                        live,
                        x,
                    ),
                forall|x: Seq<char>|
                    !strings_view(applied@).contains(x) && !strings_view(removed@).contains(x)
                        && !strings_view(to_drop@).contains(x) ==> #[trigger] same_slot(
                        m0,
                        slot_map(self.slots@),
                        x,
                    ),
            decreases groups@.len() - gi,
        {
            let group = &groups[gi];
            let ghost lv = link_views(self.links@);
            let ghost m = slot_map(self.slots@);
            let ghost rem = strings_view(removed@);
            let ghost drp = strings_view(to_drop@);
            let ghost app = strings_view(applied@);
            let ghost g = group@;
            let existing = existing_renderers(&self.links, group);
            let reuse = group_reusable(&self.links, &self.slots, &existing, group);
            let rid = if reuse {
                existing[0].clone()
            } else {
                fresh_ids[gi].clone()
            };
            keep_slot(&mut self.slots, &rid, spawn_request.clone(), renderer_name.clone());
            let ghost m1 = slot_map(self.slots@);
            relink_group(&mut self.links, group, &rid);
            let ghost lv1 = link_views(self.links@);
            retire_orphans(
                &mut self.slots,
                &self.live,
                &self.links,
                &existing,
                &rid,
                &mut removed,
                &mut to_drop,
            );
            let ghost m2 = slot_map(self.slots@);
            let ghost ev = strings_view(existing@);
            if first.is_none() {
                first = Some(rid.clone());
            }
            let ghost rid_v = rid@;
            proof {
                assert(strings_view(applied@.push(rid)) =~= app.push(rid_v));
            }
            applied.push(rid);
            proof {
                assert(link_views(self.links@) == lv1);
                assert(slot_map(self.slots@) == m2);
                let app2 = strings_view(applied@);
                let rem2 = strings_view(removed@);
                let drp2 = strings_view(to_drop@);
                let dn = done_ids(ids, dup, gi as int);
                let dn2 = done_ids(ids, dup, gi + 1);
                // The group is the next display, or all of them.
                assert(g.len() > 0 && g[0] == ids[gi as int]);
                assert(g.contains(g[0]));
                assert forall|d: DisplayId| #[trigger] dn2.contains(d) <==> dn.contains(d) || g.contains(d) by {
                    if dup {
                        assert(ids.subrange(0, gi + 1) =~= ids.subrange(0, gi as int).push(ids[gi as int]));
                        assert(g =~= seq![ids[gi as int]]);
                        if dn2.contains(d) && !dn.contains(d) {
                            let q = choose|q: int| 0 <= q < dn2.len() && dn2[q] == d;
                            if q < gi {
                                assert(dn[q] == d);
                            }
                        }
                        if dn.contains(d) {
                            let q = choose|q: int| 0 <= q < dn.len() && dn[q] == d;
                            assert(dn2[q] == d);
                        }
                        if g.contains(d) {
                            assert(dn2[gi as int] == d);
                        }
                    }
                }
                // The chosen renderer is linked, so it is no orphan.
                assert(assigned(lv1, g[0], rid_v));
                lemma_assigned_linked(lv1, g[0], rid_v);
                assert(slot_good(m1, rid_v, spawn_request, renderer_name@));
                assert(!orphaned(ev, rid_v, lv1, rid_v));
                assert(same_slot(m1, m2, rid_v));
                // Displays done.
                assert forall|d: DisplayId| dn2.contains(d) implies assigned(
                    lv1,
                    d,
                    #[trigger] renderer_of(lv1, d),
                ) && slot_good(m2, renderer_of(lv1, d), spawn_request, renderer_name@) by {
                    if g.contains(d) {
                        assert(assigned(lv1, d, rid_v));
                    } else {
                        assert(dn.contains(d));
                        let x = renderer_of(lv, d);
                        assert(assigned(lv, d, x) && slot_good(m, x, spawn_request, renderer_name@));
                        assert(display_links(lv1, d) == display_links(lv, d));
                        assert(assigned(lv1, d, x));
                        lemma_assigned_linked(lv1, d, x);
                        assert(!orphaned(ev, rid_v, lv1, x));
                        assert(same_slot(m1, m2, x));
                        if x != rid_v {
                            assert(m1.dom().contains(x));
                            assert(m1[x] == m[x]);
                        }
                        assert(slot_good(m2, x, spawn_request, renderer_name@));
                    }
                }
                // With duplication, renderers stay distinct.
                if dup && ids.no_duplicates() && fresh_unused(fresh, lv0) {
                    assert(g =~= seq![ids[gi as int]]);
                    let dj = ids[gi as int];
                    assert(renderer_of(lv1, dj) == rid_v);
                    assert(!dn.contains(dj)) by {
                        if dn.contains(dj) {
                            let q = choose|q: int| 0 <= q < dn.len() && dn[q] == dj;
                            assert(ids[q] == dj);
                        }
                    }
                    assert forall|i: int| 0 <= i < gi implies renderer_of(lv1, ids[i]) == renderer_of(
                        lv,
                        ids[i],
                    ) && renderer_of(lv, ids[i]) != rid_v by {
                        assert(dn[i] == ids[i]);
                        assert(dn.contains(ids[i]));
                        assert(!g.contains(ids[i]));
                        assert(display_links(lv1, ids[i]) == display_links(lv, ids[i]));
                        let x = renderer_of(lv, ids[i]);
                        assert(assigned(lv, ids[i], x));
                        assert(display_links(lv, ids[i])[0] == (x, ids[i], false));
                        lemma_display_links_contains(lv, (x, ids[i], false));
                        let k = choose|k: int| 0 <= k < lv.len() && lv[k] == (x, ids[i], false);
                        if reuse {
                            if x == rid_v {
                                assert(lv[k].0 == ev[0]);
                            }
                        } else {
                            assert(rid_v == fresh[gi as int]);
                            assert(!is_linked(lv0, fresh[gi as int]));
                            if x == rid_v {
                                assert(fresh[i] == x);
                            }
                        }
                    }
                    assert(is_linked(lv0, rid_v) || rid_v == fresh[gi as int]) by {
                        if reuse {
                            assert(ev.contains(ev[0]));
                            let k = choose|k: int| 0 <= k < lv.len() && (#[trigger] lv[k]).0 == ev[0] && g.contains(lv[k].1);
                            assert(lv[k].1 == dj);
                            lemma_display_links_contains(lv, lv[k]);
                            lemma_display_links_contains(lv0, lv[k]);
                            assert(display_links(lv, dj) == display_links(lv0, dj));
                            let k0 = choose|k0: int| 0 <= k0 < lv0.len() && lv0[k0] == lv[k];
                            assert(lv0[k0].0 == rid_v);
                        }
                    }
                    assert(ids.subrange(0, gi + 1).len() == gi + 1);
                }
                // The idle owner of a group is kept.
                if !dup {
                    assert(gi == 0);
                    assert(g =~= ids);
                    assert forall|x: Seq<char>| #[trigger] idle_owner(lv0, m0, ids, x) implies rid_v == x by {
                        lemma_idle_owner_reused(lv, m, ev, g, x);
                    }
                    if reuse {
                        lemma_reused_is_idle_owner(lv, m, ev, g);
                    } else {
                        assert(rid_v == fresh[0]);
                    }
                }
                if dup && ids.no_duplicates() && fresh_unused(fresh, lv0) {
                    let d = ids[gi as int];
                    assert(g =~= seq![d]);
                    assert forall|x: Seq<char>| #[trigger] idle_owner(lv0, m0, seq![ids[gi as int]], x) implies rid_v == x by {
                        assert(idle_owner(lv, m, g, x));
                        lemma_idle_owner_reused(lv, m, ev, g, x);
                    }
                    assert forall|i: int, x: Seq<char>|
                        0 <= i < gi + 1 && #[trigger] idle_owner(lv0, m0, seq![ids[i]], x) implies renderer_of(
                        lv1,
                        ids[i],
                    ) == x by {
                        if i == gi {
                            assert(idle_owner(lv, m, g, x));
                            lemma_idle_owner_reused(lv, m, ev, g, x);
                            assert(assigned(lv1, d, rid_v));
                        } else {
                            assert(ids[i] != d);
                            assert(!g.contains(ids[i]));
                            assert(display_links(lv1, ids[i]) == display_links(lv, ids[i]));
                        }
                    }
                    // The chosen renderer is no renderer of a later display.
                    assert(is_linked(lv, rid_v) || rid_v == fresh[gi as int]) by {
                        if reuse {
                            assert(ev.contains(ev[0]));
                            let k = choose|k: int| 0 <= k < lv.len() && (#[trigger] lv[k]).0 == ev[0] && g.contains(lv[k].1);
                        }
                    }
                    assert forall|i: int, x: Seq<char>|
                        gi + 1 <= i < ids.len() && #[trigger] idle_owner(lv0, m0, seq![ids[i]], x) implies idle_owner(
                        lv1,
                        m2,
                        seq![ids[i]],
                        x,
                    ) by {
                        let di = ids[i];
                        assert(di != d);
                        assert(!g.contains(di));
                        assert(idle_owner(lv, m, seq![di], x));
                        assert(display_links(lv1, di) == display_links(lv, di));
                        assert forall|y: Seq<char>| touches(lv1, seq![di], y) == touches(lv, seq![di], y) by {
                            lemma_touch_one(lv, lv1, di, y);
                        }
                        assert(touches(lv1, seq![di], x));
                        assert forall|y: Seq<char>| #[trigger] touches(lv1, seq![di], y) implies y == x by {
                            assert(touches(lv, seq![di], y));
                        }
                        // x has a link to di, so it is neither the chosen
                        // renderer nor linked to d.
                        let q0 = choose|q: int| 0 <= q < lv.len() && (#[trigger] lv[q]).0 == x && seq![di].contains(lv[q].1);
                        assert(is_linked(lv, x));
                        assert(x != rid_v) by {
                            if reuse {
                                assert(ev.contains(ev[0]));
                                let k = choose|k: int| 0 <= k < lv.len() && (#[trigger] lv[k]).0 == ev[0] && g.contains(lv[k].1);
                                if x == rid_v {
                                    assert(seq![di].contains(lv[k].1));
                                    let z = choose|z: int| 0 <= z < seq![di].len() && seq![di][z] == lv[k].1;
                                    assert(g.contains(lv[k].1));
                                    let z2 = choose|z2: int| 0 <= z2 < g.len() && g[z2] == lv[k].1;
                                }
                            } else {
                                assert(!is_linked(lv, fresh[gi as int]));
                            }
                        }
                        assert forall|q: int| 0 <= q < lv1.len() && (#[trigger] lv1[q]).0 == x implies seq![di].contains(
                            lv1[q].1,
                        ) by {
                            let t = lv1[q];
                            assert(lv1.contains(t));
                            lemma_relinked_link(lv, lv1, g, rid_v, t);
                            if !g.contains(t.1) {
                                let q2 = choose|q2: int| 0 <= q2 < lv.len() && lv[q2] == t;
                                assert(lv[q2].0 == x);
                            }
                        }
                        assert(!ev.contains(x)) by {
                            if ev.contains(x) {
                                let k = choose|k: int| 0 <= k < lv.len() && (#[trigger] lv[k]).0 == x && g.contains(lv[k].1);
                                assert(seq![di].contains(lv[k].1));
                                let z = choose|z: int| 0 <= z < seq![di].len() && seq![di][z] == lv[k].1;
                                let z2 = choose|z2: int| 0 <= z2 < g.len() && g[z2] == lv[k].1;
                            }
                        }
                        assert(!orphaned(ev, rid_v, lv1, x));
                        assert(same_slot(m1, m2, x));
                    }
                    assert forall|k: int| gi + 1 <= k < ids.len() implies !is_linked(lv1, #[trigger] fresh[k]) by {
                        assert(!is_linked(lv, fresh[k]));
                        assert(fresh[k] != fresh[gi as int]);
                        if is_linked(lv1, fresh[k]) {
                            let q = choose|q: int| 0 <= q < lv1.len() && (#[trigger] lv1[q]).0 == fresh[k];
                            let t = lv1[q];
                            assert(lv1.contains(t));
                            lemma_relinked_link(lv, lv1, g, rid_v, t);
                            if !g.contains(t.1) {
                                let q2 = choose|q2: int| 0 <= q2 < lv.len() && lv[q2] == t;
                                assert(lv[q2].0 == fresh[k]);
                            }
                        }
                    }
                }
                // Displays not done.
                assert forall|d: DisplayId| !dn2.contains(d) implies #[trigger] display_links(lv1, d)
                    == display_links(lv0, d) by {
                    assert(!g.contains(d));
                    assert(display_links(lv1, d) == display_links(lv, d));
                }
                // The first display.
                if gi == 0 {
                    assert(g.contains(ids[0]));
                    assert(assigned(lv1, ids[0], rid_v));
                    if !dup {
                        assert forall|d: DisplayId| ids.contains(d) implies #[trigger] assigned(
                            lv1,
                            d,
                            first->0@,
                        ) by {
                            assert(g.contains(d));
                        }
                    }
                } else {
                    assert(dup);
                    if ids.no_duplicates() {
                        assert(g =~= seq![ids[gi as int]]);
                        assert(!g.contains(ids[0]));
                        assert(display_links(lv1, ids[0]) == display_links(lv, ids[0]));
                    }
                }
                // Renderers that lost their last link.
                assert forall|x: Seq<char>| #[trigger] is_linked(lv0, x) && !is_linked(lv1, x) implies rem2.contains(
                    x,
                ) || drp2.contains(x) by {
                    if is_linked(lv, x) {
                        if !touches(lv, g, x) {
                            lemma_link_kept(lv, lv1, g, x);
                        }
                        assert(ev.contains(x));
                        assert(orphaned(ev, rid_v, lv1, x));
                    }
                }
                assert forall|x: Seq<char>| #[trigger] rem2.contains(x) implies !live.contains(x) && retired(
                    lv1,
                    m2,
                    live,
                    x,
                ) by {
                    if !orphaned(ev, rid_v, lv1, x) {
                        assert(rem.contains(x));
                        assert(same_slot(m1, m2, x));
                        if !is_linked(lv1, x) {
                            if is_linked(lv, x) {
                                if !touches(lv, g, x) {
                                    lemma_link_kept(lv, lv1, g, x);
                                }
                                assert(ev.contains(x));
                            }
                            assert(retired(lv, m, live, x));
                            assert(x != rid_v);
                        }
                    }
                }
                assert forall|x: Seq<char>| #[trigger] drp2.contains(x) implies live.contains(x) && retired(
                    lv1,
                    m2,
                    live,
                    x,
                ) by {
                    if !orphaned(ev, rid_v, lv1, x) {
                        assert(drp.contains(x));
                        assert(same_slot(m1, m2, x));
                        if !is_linked(lv1, x) {
                            if is_linked(lv, x) {
                                if !touches(lv, g, x) {
                                    lemma_link_kept(lv, lv1, g, x);
                                }
                                assert(ev.contains(x));
                            }
                            assert(retired(lv, m, live, x));
                            assert(x != rid_v);
                        }
                    }
                }
                // Slots of other renderers.
                assert forall|x: Seq<char>|
                    !app2.contains(x) && !rem2.contains(x) && !drp2.contains(x) implies #[trigger] same_slot(
                    m0,
                    m2,
                    x,
                ) by {
                    assert(app2[app.len() as int] == rid_v);
                    assert(x != rid_v);
                    if app.contains(x) {
                        let q = choose|q: int| 0 <= q < app.len() && app[q] == x;
                        assert(app2[q] == x);
                    }
                    assert(same_slot(m0, m, x));
                    assert(same_slot(m1, m2, x));
                }
            }
            gi = gi + 1;
        }
        let renderer_id = match first {
            Some(f) => f,
            None => String::new(),
        };
        proof {
            assert(done_ids(ids, dup, groups@.len() as int) =~= ids) by {
                if dup {
                    assert(ids.subrange(0, ids.len() as int) =~= ids);
                }
            }
        }
        RetainedAssignment { renderer_id, removed, to_drop, applied_slots: applied }
    }

    /// Assigns a retained renderer as [`RoutingTable::apply_retained_assignment`]
    /// does, drawing a new random renderer id for each display; nothing is
    /// known of those ids, so distinct displays are not promised distinct
    /// renderers.
    pub fn apply_retained_assignment_with_new_ids(
        &mut self,
        spawn_request: S,
        renderer_name: String,
        display_ids: &Vec<DisplayId>,
        duplicate_renderers: bool,
    ) -> (r: RetainedAssignment)
        requires
            display_ids@.len() > 0,
            slot_ids_distinct(old(self).slots@),
        ensures
            exists|fresh: Seq<Seq<char>>|
                assignment_outcome(
                    *old(self),
                    *final(self),
                    spawn_request,
                    renderer_name@,
                    display_ids@,
                    duplicate_renderers,
                    fresh,
                    r,
                ),
    {
        let mut fresh_ids: Vec<String> = Vec::new();
        let mut i: usize = 0;
        while i < display_ids.len()
            invariant
                i <= display_ids@.len(),
                fresh_ids@.len() == i,
            decreases display_ids@.len() - i,
        {
            fresh_ids.push(new_renderer_id());
            i = i + 1;
        }
        self.apply_retained_assignment(
            spawn_request,
            renderer_name,
            display_ids,
            duplicate_renderers,
            &fresh_ids,
        )
    }

    /// Schedules a process restart of `renderer_id` after its process died,
    /// unless a restart is already pending for it or it has no slot; the
    /// slot then decides as [`RendererSlot::schedule_restart`] does, with
    /// demand meaning an enabled link to a present display. A scheduled
    /// restart is recorded as pending. Returns the new failure count.
    pub fn schedule_process_restart(&mut self, renderer_id: &str, max_failures: u32) -> (r: Option<u32>)
        requires
            slot_ids_distinct(old(self).slots@),
        ensures
            ({
                let m0 = slot_map(old(self).slots@);
                let m1 = slot_map(final(self).slots@);
                let pending = strings_view(old(self).restart_tasks@).contains(renderer_id@);
                let demand = has_demand_in(link_views(old(self).links@), old(self).displays@, renderer_id@);
                let due = !pending && m0.dom().contains(renderer_id@) && demand
                    && m0[renderer_id@].retention == RendererRetention::Keep && (
                m0[renderer_id@].process_state is Killed || m0[renderer_id@].process_state is Failed)
                    && m0[renderer_id@].restart_failures < max_failures;
                &&& slot_ids_distinct(final(self).slots@)
                &&& final(self).links@ == old(self).links@
                &&& final(self).live@ == old(self).live@
                &&& final(self).displays@ == old(self).displays@
                &&& m1.dom() == m0.dom()
                &&& forall|x: Seq<char>| x != renderer_id@ && #[trigger] m0.dom().contains(x) ==> m1[x] == m0[x]
                &&& due ==> {
                    &&& r == Some((m0[renderer_id@].restart_failures + 1) as u32)
                    &&& m1[renderer_id@] == (RendererSlot {
                        restart_failures: (m0[renderer_id@].restart_failures + 1) as u32,
                        ..m0[renderer_id@]
                    })
                    &&& final(self).restart_tasks@ == old(self).restart_tasks@.push(
                        final(self).restart_tasks@.last(),
                    )
                    &&& final(self).restart_tasks@.last()@ == renderer_id@
                }
                &&& !due ==> r is None && m1 == m0 && final(self).restart_tasks@ == old(
                    self,
                ).restart_tasks@
            }),
    {
        if contains_string(&self.restart_tasks, renderer_id) {
            return None;
        }
        let demand = demand_for(&self.links, &self.displays, renderer_id);
        match slot_index(&self.slots, renderer_id) {
            None => None,
            Some(k) => {
                let ghost s0 = self.slots@;
                proof {
                    lemma_slot_map_at(s0, k as int);
                }
                let mut e = self.slots.remove(k);
                let r = e.slot.schedule_restart(false, demand, max_failures);
                self.slots.insert(k, e);
                proof {
                    assert(self.slots@ =~= s0.update(k as int, e));
                    lemma_slot_map_update(s0, k as int, e);
                }
                if r.is_some() {
                    self.restart_tasks.push(renderer_id.to_string());
                }
                r
            },
        }
    }

    /// The pending restart of `renderer_id` is over: it is no longer
    /// recorded as pending.
    pub fn end_restart_task(&mut self, renderer_id: &str)
        ensures
            forall|x: Seq<char>|
                #[trigger] strings_view(final(self).restart_tasks@).contains(x) <==> strings_view(
                    old(self).restart_tasks@,
                ).contains(x) && x != renderer_id@,
            final(self).links@ == old(self).links@,
            final(self).slots@ == old(self).slots@,
            final(self).live@ == old(self).live@,
            final(self).displays@ == old(self).displays@,
    {
        let ghost t0 = strings_view(self.restart_tasks@);
        let mut kept: Vec<String> = Vec::new();
        let mut i: usize = 0;
        while i < self.restart_tasks.len()
            invariant
                i <= self.restart_tasks@.len(),
                t0 == strings_view(self.restart_tasks@),
                forall|x: Seq<char>|
                    #[trigger] strings_view(kept@).contains(x) <==> t0.subrange(0, i as int).contains(x)
                        && x != renderer_id@,
            decreases self.restart_tasks@.len() - i,
        {
            let ghost pre = t0.subrange(0, i as int);
            let ghost kv = strings_view(kept@);
            assert(t0.subrange(0, i + 1) =~= pre.push(t0[i as int]));
            assert(t0[i as int] == self.restart_tasks@[i as int]@);
            if !str_eq(self.restart_tasks[i].as_str(), renderer_id) {
                let id = self.restart_tasks[i].clone();
                proof {
                    assert(strings_view(kept@.push(id)) =~= kv.push(id@));
                }
                kept.push(id);
            }
            proof {
                let nk = strings_view(kept@);
                let nx = pre.push(t0[i as int]);
                assert forall|x: Seq<char>| #[trigger] nk.contains(x) <==> nx.contains(x) && x != renderer_id@ by {
                    if nx.contains(x) && x != t0[i as int] {
                        let q = choose|q: int| 0 <= q < nx.len() && nx[q] == x;
                        assert(pre[q] == x);
                    }
                    if pre.contains(x) {
                        let q = choose|q: int| 0 <= q < pre.len() && pre[q] == x;
                        assert(nx[q] == x);
                    }
                    if x == t0[i as int] {
                        assert(nx[i as int] == x);
                    }
                    if nk.contains(x) && nk != kv {
                        let q = choose|q: int| 0 <= q < nk.len() && nk[q] == x;
                        if q < kv.len() {
                            assert(kv[q] == x);
                        }
                    }
                    if kv.contains(x) && nk != kv {
                        let q = choose|q: int| 0 <= q < kv.len() && kv[q] == x;
                        assert(nk[q] == x);
                    }
                    if x == t0[i as int] && x != renderer_id@ {
                        assert(nk[kv.len() as int] == x);
                    }
                }
            }
            i = i + 1;
        }
        assert(t0.subrange(0, t0.len() as int) =~= t0);
        self.restart_tasks = kept;
    }
}

} // verus!
