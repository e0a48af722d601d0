//! Restoring playlists on displays: which playlist a display comes back to,
//! how displays are grouped so that those on one playlist play together, and
//! what a display that appears later is given.

use vstd::prelude::*;
use std::collections::HashSet;
use crate::playlist::DisplayId;

verus! {

broadcast use vstd::std_specs::hash::group_hash_axioms;

/// The key under which a display's preferences are kept: its instance id
/// when it has one, else its name.
pub fn display_key(instance_id: Option<String>, name: String) -> (r: String)
    ensures
        match instance_id {
            Some(i) => r@ == i@,
            None => r@ == name@,
        },
{
    match instance_id {
        Some(i) => i,
        None => name,
    }
}

/// The playlist a display returns to: its own preference, else the
/// playlist set to attach to every display.
pub fn resolve_playlist(preferred: Option<i64>, auto_attach: Option<i64>) -> (r: Option<i64>)
    ensures
        r == (if preferred is Some {
            preferred
        } else {
            auto_attach
        }),
{
    match preferred {
        Some(p) => Some(p),
        None => auto_attach,
    }
}

/// Playlist groups, in order of first appearance: each playlist with the
/// displays on it, in the order given.
pub open spec fn group_entries(entries: Seq<(DisplayId, Option<i64>)>) -> Seq<(i64, Seq<DisplayId>)>
    decreases entries.len(),
{
    if entries.len() == 0 {
        Seq::empty()
    } else {
        let groups = group_entries(entries.drop_last());
        let (d, p) = entries.last();
        match p {
            None => groups,
            Some(pid) => add_to_group(groups, pid, d),
        }
    }
}

/// Display `d` added to the group of `pid`, or a new group for it at the end.
pub open spec fn add_to_group(groups: Seq<(i64, Seq<DisplayId>)>, pid: i64, d: DisplayId) -> Seq<
    (i64, Seq<DisplayId>),
> {
    if exists|k: int| 0 <= k < groups.len() && #[trigger] groups[k].0 == pid {
        let k = choose|k: int| 0 <= k < groups.len() && #[trigger] groups[k].0 == pid;
        groups.update(k, (pid, groups[k].1.push(d)))
    } else {
        groups.push((pid, seq![d]))
    }
}

/// No playlist has two groups.
pub open spec fn distinct_pids(groups: Seq<(i64, Seq<DisplayId>)>) -> bool {
    forall|i: int, j: int|
        0 <= i < groups.len() && 0 <= j < groups.len() && i != j ==> #[trigger] groups[i].0
            != #[trigger] groups[j].0
}

proof fn lemma_group_entries_distinct(entries: Seq<(DisplayId, Option<i64>)>)
    ensures
        distinct_pids(group_entries(entries)),
    decreases entries.len(),
{
    if entries.len() > 0 {
        lemma_group_entries_distinct(entries.drop_last());
    }
}

/// How many of `entries` resolve to a playlist.
pub open spec fn playlist_count(entries: Seq<(DisplayId, Option<i64>)>) -> nat
    decreases entries.len(),
{
    if entries.len() == 0 {
        0
    } else {
        playlist_count(entries.drop_last()) + if entries.last().1 is Some {
            1nat
        } else {
            0nat
        }
    }
}

/// How many displays the groups hold together.
pub open spec fn members_total(groups: Seq<(i64, Seq<DisplayId>)>) -> nat
    decreases groups.len(),
{
    if groups.len() == 0 {
        0
    } else {
        members_total(groups.drop_last()) + groups.last().1.len()
    }
}

proof fn lemma_members_total_update(groups: Seq<(i64, Seq<DisplayId>)>, k: int, x: (i64, Seq<DisplayId>))
    requires
        0 <= k < groups.len(),
    ensures
        members_total(groups.update(k, x)) == members_total(groups) - groups[k].1.len() + x.1.len(),
    decreases groups.len(),
{
    let u = groups.update(k, x);
    if k == groups.len() - 1 {
        assert(u.drop_last() =~= groups.drop_last());
    } else {
        assert(u.drop_last() =~= groups.drop_last().update(k, x));
        lemma_members_total_update(groups.drop_last(), k, x);
    }
}

/// Grouping by playlist loses no display and invents none: every display
/// with a playlist is in that playlist's group, every member of a group is
/// a display given with that playlist, the groups together hold as many
/// displays as resolve to a playlist, and no playlist has two groups.
pub proof fn lemma_grouping_keeps_every_display(entries: Seq<(DisplayId, Option<i64>)>)
    ensures
        ({
            let g = group_entries(entries);
            &&& forall|k: int|
                0 <= k < entries.len() && #[trigger] entries[k].1 is Some ==> exists|j: int|
                    0 <= j < g.len() && g[j].0 == entries[k].1->0 && #[trigger] g[j].1.contains(
                        entries[k].0,
                    )
            &&& forall|j: int, m: int|
                0 <= j < g.len() && 0 <= m < g[j].1.len() ==> exists|k: int|
                    0 <= k < entries.len() && #[trigger] entries[k] == (#[trigger] g[j].1[m], Some(
                        g[j].0,
                    ))
            &&& members_total(g) == playlist_count(entries)
            &&& distinct_pids(g)
        }),
    decreases entries.len(),
{
    lemma_group_entries_distinct(entries);
    if entries.len() > 0 {
        let e = entries;
        let p = e.drop_last();
        lemma_grouping_keeps_every_display(p);
        let g0 = group_entries(p);
        let g = group_entries(e);
        let (d, opt) = e.last();
        assert forall|k: int| 0 <= k < p.len() implies #[trigger] e[k] == p[k] by {}
        match opt {
            None => {
                assert(g == g0);
                assert forall|k: int|
                    0 <= k < e.len() && #[trigger] e[k].1 is Some implies exists|j: int|
                        0 <= j < g.len() && g[j].0 == e[k].1->0 && #[trigger] g[j].1.contains(
                            e[k].0,
                        ) by {
                    assert(k < p.len());
                    assert(e[k] == p[k]);
                    assert(p[k].1 is Some);
                }
                assert forall|j: int, m: int| 0 <= j < g.len() && 0 <= m < g[j].1.len() implies exists|k: int|
                    0 <= k < e.len() && #[trigger] e[k] == (#[trigger] g[j].1[m], Some(g[j].0)) by {
                    let k = choose|k: int| 0 <= k < p.len() && #[trigger] p[k] == (g0[j].1[m], Some(g0[j].0));
                    assert(e[k] == p[k]);
                }
            },
            Some(pid) => {
                if exists|k: int| 0 <= k < g0.len() && #[trigger] g0[k].0 == pid {
                    let k0 = choose|k: int| 0 <= k < g0.len() && #[trigger] g0[k].0 == pid;
                    let x = (pid, g0[k0].1.push(d));
                    assert(g == g0.update(k0, x));
                    lemma_members_total_update(g0, k0, x);
                    assert forall|k: int|
                        0 <= k < e.len() && #[trigger] e[k].1 is Some implies exists|j: int|
                            0 <= j < g.len() && g[j].0 == e[k].1->0 && #[trigger] g[j].1.contains(
                                e[k].0,
                            ) by {
                        if k == e.len() - 1 {
                            assert(g[k0].1[g0[k0].1.len() as int] == d);
                            assert(g[k0].1.contains(d));
                        } else {
                            assert(e[k] == p[k]);
                            assert(p[k].1 is Some);
                            let j = choose|j: int|
                                0 <= j < g0.len() && g0[j].0 == p[k].1->0 && #[trigger] g0[j].1.contains(
                                    p[k].0,
                                );
                            let q = choose|q: int| 0 <= q < g0[j].1.len() && g0[j].1[q] == p[k].0;
                            if j == k0 {
                                assert(g[j].1[q] == p[k].0);
                                assert(g[j].1.contains(e[k].0));
                            } else {
                                assert(g[j] == g0[j]);
                                assert(g[j].1.contains(e[k].0));
                            }
                        }
                    }
                    assert forall|j: int, m: int| 0 <= j < g.len() && 0 <= m < g[j].1.len() implies exists|k: int|
                        0 <= k < e.len() && #[trigger] e[k] == (#[trigger] g[j].1[m], Some(g[j].0)) by {
                        if j == k0 && m == g0[k0].1.len() {
                            assert(e[e.len() - 1] == (g[j].1[m], Some(g[j].0)));
                        } else {
                            assert(g0[j].1[m] == g[j].1[m]);
                            assert(g0[j].0 == g[j].0);
                            let k = choose|k: int| 0 <= k < p.len() && #[trigger] p[k] == (g0[j].1[m], Some(g0[j].0));
                            assert(e[k] == p[k]);
                        }
                    }
                } else {
                    let x = (pid, seq![d]);
                    assert(g == g0.push(x));
                    assert(g.drop_last() =~= g0);
                    assert forall|k: int|
                        0 <= k < e.len() && #[trigger] e[k].1 is Some implies exists|j: int|
                            0 <= j < g.len() && g[j].0 == e[k].1->0 && #[trigger] g[j].1.contains(
                                e[k].0,
                            ) by {
                        if k == e.len() - 1 {
                            assert(g[g0.len() as int].1[0] == d);
                            assert(g[g0.len() as int].1.contains(d));
                        } else {
                            assert(e[k] == p[k]);
                            assert(p[k].1 is Some);
                            let j = choose|j: int|
                                0 <= j < g0.len() && g0[j].0 == p[k].1->0 && #[trigger] g0[j].1.contains(
                                    p[k].0,
                                );
                            assert(g[j] == g0[j]);
                            assert(g[j].1.contains(e[k].0));
                        }
                    }
                    assert forall|j: int, m: int| 0 <= j < g.len() && 0 <= m < g[j].1.len() implies exists|k: int|
                        0 <= k < e.len() && #[trigger] e[k] == (#[trigger] g[j].1[m], Some(g[j].0)) by {
                        if j == g0.len() {
                            assert(e[e.len() - 1] == (g[j].1[m], Some(g[j].0)));
                        } else {
                            assert(g[j] == g0[j]);
                            let k = choose|k: int| 0 <= k < p.len() && #[trigger] p[k] == (g0[j].1[m], Some(g0[j].0));
                            assert(e[k] == p[k]);
                        }
                    }
                }
            },
        }
    }
}

fn copy_ids(v: &Vec<DisplayId>) -> (r: Vec<DisplayId>)
    ensures
        r@ == v@,
{
    let mut out: Vec<DisplayId> = Vec::new();
    let mut i: usize = 0;
    while i < v.len()
        invariant
            i <= v@.len(),
            out@ == v@.subrange(0, i as int),
        decreases v@.len() - i,
    {
        out.push(v[i]);
        i = i + 1;
    }
    assert(v@.subrange(0, v@.len() as int) =~= v@);
    out
}

fn find_group(pids: &Vec<i64>, pid: i64) -> (r: Option<usize>)
    ensures
        match r {
            Some(k) => k < pids@.len() && pids@[k as int] == pid,
            None => forall|k: int| 0 <= k < pids@.len() ==> pids@[k] != pid,
        },
{
    let mut k: usize = 0;
    while k < pids.len()
        invariant
            k <= pids@.len(),
            forall|j: int| 0 <= j < k ==> pids@[j] != pid,
        decreases pids@.len() - k,
    {
        if pids[k] == pid {
            return Some(k);
        }
        k = k + 1;
    }
    None
}

/// Groups displays by the playlist each resolves to, in order of first
/// appearance; displays without a playlist are left out.
pub fn group_by_playlist(entries: &Vec<(DisplayId, Option<i64>)>) -> (r: Vec<(i64, Vec<DisplayId>)>)
    ensures
        r@.len() == group_entries(entries@).len(),
        forall|k: int|
            0 <= k < r@.len() ==> #[trigger] r@[k].0 == group_entries(entries@)[k].0 && r@[k].1@
                == group_entries(entries@)[k].1,
{
    let mut pids: Vec<i64> = Vec::new();
    let mut members: Vec<Vec<DisplayId>> = Vec::new();
    let mut i: usize = 0;
    while i < entries.len()
        invariant
            i <= entries@.len(),
            pids@.len() == members@.len(),
            pids@.len() == group_entries(entries@.subrange(0, i as int)).len(),
            forall|k: int|
                0 <= k < pids@.len() ==> #[trigger] pids@[k] == group_entries(
                    entries@.subrange(0, i as int),
                )[k].0 && members@[k]@ == group_entries(entries@.subrange(0, i as int))[k].1,
        decreases entries@.len() - i,
    {
        let ghost before = group_entries(entries@.subrange(0, i as int));
        assert(entries@.subrange(0, i + 1).drop_last() =~= entries@.subrange(0, i as int));
        let (d, p) = entries[i];
        assert(entries@.subrange(0, i + 1).last() == (d, p));
        if let Some(pid) = p {
            match find_group(&pids, pid) {
                Some(k) => {
                    proof {
                        lemma_group_entries_distinct(entries@.subrange(0, i as int));
                        assert(before[k as int].0 == pid);
                        let c = choose|c: int| 0 <= c < before.len() && #[trigger] before[c].0 == pid;
                        assert(c == k);
                    }
                    let mut m = copy_ids(&members[k]);
                    m.push(d);
                    members.set(k, m);
                    proof {
                        let after = group_entries(entries@.subrange(0, i + 1));
                        assert(after == before.update(k as int, (pid, before[k as int].1.push(d))));
                        assert forall|j: int| 0 <= j < pids@.len() implies #[trigger] pids@[j]
                            == after[j].0 && members@[j]@ == after[j].1 by {
                            if j != k {
                                assert(pids@[j] == before[j].0);
                            }
                        }
                    }
                },
                None => {
                    proof {
                        assert forall|c: int| 0 <= c < before.len() implies #[trigger] before[c].0
                            != pid by {
                            assert(pids@[c] == before[c].0);
                        }
                    }
                    pids.push(pid);
                    let mut single: Vec<DisplayId> = Vec::new();
                    single.push(d);
                    members.push(single);
                    proof {
                        let after = group_entries(entries@.subrange(0, i + 1));
                        assert(after == before.push((pid, seq![d])));
                        assert forall|j: int| 0 <= j < pids@.len() implies #[trigger] pids@[j]
                            == after[j].0 && members@[j]@ == after[j].1 by {
                            if j < before.len() {
                                assert(pids@[j] == before[j].0);
                            }
                        }
                    }
                },
            }
        } else {
            assert(group_entries(entries@.subrange(0, i + 1)) == before);
        }
        i = i + 1;
    }
    assert(entries@.subrange(0, entries@.len() as int) =~= entries@);
    let mut out: Vec<(i64, Vec<DisplayId>)> = Vec::new();
    let mut k: usize = 0;
    while k < pids.len()
        invariant
            k <= pids@.len(),
            pids@.len() == members@.len(),
            pids@.len() == group_entries(entries@).len(),
            out@.len() == k,
            forall|j: int|
                0 <= j < pids@.len() ==> #[trigger] pids@[j] == group_entries(entries@)[j].0
                    && members@[j]@ == group_entries(entries@)[j].1,
            forall|j: int|
                0 <= j < k ==> #[trigger] out@[j].0 == group_entries(entries@)[j].0 && out@[j].1@
                    == group_entries(entries@)[j].1,
        decreases pids@.len() - k,
    {
        out.push((pids[k], copy_ids(&members[k])));
        k = k + 1;
    }
    out
}

/// The displays seen so far, so that one that appears again is told from a
/// new one.
pub struct HotplugWatcher {
    known: HashSet<DisplayId>,
}

impl HotplugWatcher {
    /// The displays seen so far.
    pub closed spec fn known(&self) -> Set<DisplayId> {
        self.known@
    }

    /// A watcher that has seen the displays `ids`.
    pub fn new(ids: &Vec<DisplayId>) -> (w: Self)
        ensures
            w.known() == ids@.to_set(),
    {
        let mut known: HashSet<DisplayId> = HashSet::new();
        let mut i: usize = 0;
        while i < ids.len()
            invariant
                i <= ids@.len(),
                known@ == ids@.subrange(0, i as int).to_set(),
            decreases ids@.len() - i,
        {
            known.insert(ids[i]);
            assert(ids@.subrange(0, i + 1) =~= ids@.subrange(0, i as int).push(ids@[i as int]));
            proof {
                Seq::lemma_to_set_insert_commutes(ids@.subrange(0, i as int), ids@[i as int]);
                assert(ids@.subrange(0, i as int) + seq![ids@[i as int]] =~= ids@.subrange(
                    0,
                    i + 1,
                ));
            }
            i = i + 1;
        }
        assert(ids@.subrange(0, ids@.len() as int) =~= ids@);
        HotplugWatcher { known }
    }

    /// Display `id` appeared or changed. Returns the playlist to start on it:
    /// none while it already plays one; for a display not seen before, its
    /// own preference or the playlist to attach to every display; for a
    /// display seen before, only its own preference. The display is known
    /// afterwards.
    pub fn on_display_upsert(
        &mut self,
        id: DisplayId,
        owned: bool,
        preferred: Option<i64>,
        auto_attach: Option<i64>,
    ) -> (r: Option<i64>)
        ensures
            final(self).known() == old(self).known().insert(id),
            owned ==> r is None,
            !owned && !old(self).known().contains(id) ==> r == (if preferred is Some {
                preferred
            } else {
                auto_attach
            }),
            !owned && old(self).known().contains(id) ==> r == preferred,
    {
        let is_new = self.known.insert(id);
        if owned {
            return None;
        }
        if is_new {
            resolve_playlist(preferred, auto_attach)
        } else {
            preferred
        }
    }

    /// Display `id` went away; it counts as new when it comes back.
    pub fn on_display_removed(&mut self, id: DisplayId)
        ensures
            final(self).known() == old(self).known().remove(id),
    {
        self.known.remove(&id);
    }

    /// Every display in `ids` is known afterwards, as after a fresh look at
    /// all displays.
    pub fn note_all(&mut self, ids: &Vec<DisplayId>)
        ensures
            final(self).known() == old(self).known().union(ids@.to_set()),
    {
        let mut i: usize = 0;
        while i < ids.len()
            invariant
                i <= ids@.len(),
                self.known() == old(self).known().union(ids@.subrange(0, i as int).to_set()),
            decreases ids@.len() - i,
        {
            self.known.insert(ids[i]);
            assert(ids@.subrange(0, i + 1) =~= ids@.subrange(0, i as int).push(ids@[i as int]));
            proof {
                Seq::lemma_to_set_insert_commutes(ids@.subrange(0, i as int), ids@[i as int]);
                assert(ids@.subrange(0, i as int) + seq![ids@[i as int]] =~= ids@.subrange(
                    0,
                    i + 1,
                ));
            }
            assert(self.known() =~= old(self).known().union(ids@.subrange(0, i + 1).to_set()));
            i = i + 1;
        }
        assert(ids@.subrange(0, ids@.len() as int) =~= ids@);
    }
}

} // verus!
