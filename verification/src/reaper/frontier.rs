//! The release frontier: resolved release points wait here until every point
//! before them has been published, so that a producer never sees a release
//! point signalled while an earlier one is still outstanding.

use vstd::prelude::*;
use std::collections::BTreeMap;

verus! {

broadcast use {vstd::std_specs::btree::group_btree_axioms, vstd::laws_cmp::group_laws_cmp};

/// Why a resolved point was refused by [`ReleaseFrontier::insert`].
#[derive(Debug, PartialEq, Eq, Structural)]
pub enum ReleaseFrontierInsertError {
    /// Point 0 is never a release point.
    InvalidPoint,
    /// The point lies before the next point to publish: it is already out.
    AlreadyPublished,
    /// The point is already waiting in the frontier.
    Duplicate,
}

/// The mathematical state of a frontier: the next point to publish and the
/// resolved points waiting for it, with their values.
pub struct FrontierModel<T> {
    pub next_point: u64,
    pub ready: Map<u64, T>,
}

/// The point after `p`, saturating at `u64::MAX`.
pub open spec fn point_after(p: u64) -> u64 {
    if p < u64::MAX {
        (p + 1) as u64
    } else {
        p
    }
}

impl<T> FrontierModel<T> {
    /// Points start at 1, and nothing before the next point waits.
    pub open spec fn wf(self) -> bool {
        &&& self.next_point >= 1
        &&& self.ready.dom().finite()
        &&& forall|p: u64| #[trigger] self.ready.contains_key(p) ==> p >= self.next_point
    }

    /// The refusal that an insert of `point` meets, if any.
    pub open spec fn insert_error(self, point: u64) -> Option<ReleaseFrontierInsertError> {
        if point == 0 {
            Some(ReleaseFrontierInsertError::InvalidPoint)
        } else if point < self.next_point {
            Some(ReleaseFrontierInsertError::AlreadyPublished)
        } else if self.ready.contains_key(point) {
            Some(ReleaseFrontierInsertError::Duplicate)
        } else {
            None
        }
    }

    /// The state after `point` was accepted with `value`.
    pub open spec fn with_inserted(self, point: u64, value: T) -> Self {
        FrontierModel { next_point: self.next_point, ready: self.ready.insert(point, value) }
    }

    /// The value that may be published now: the one at the next point.
    pub open spec fn next_value(self) -> Option<T> {
        if self.ready.contains_key(self.next_point) {
            Some(self.ready[self.next_point])
        } else {
            None
        }
    }

    /// The state after the next point was published, if it was ready.
    pub open spec fn after_commit(self) -> Self {
        if self.ready.contains_key(self.next_point) {
            FrontierModel {
                next_point: point_after(self.next_point),
                ready: self.ready.remove(self.next_point),
            }
        } else {
            self
        }
    }
}

/// Resolved release points, published strictly in order from point 1 on.
pub struct ReleaseFrontier<T> {
    next_point: u64,
    ready: BTreeMap<u64, T>,
}

impl<T> View for ReleaseFrontier<T> {
    type V = FrontierModel<T>;

    closed spec fn view(&self) -> FrontierModel<T> {
        FrontierModel { next_point: self.next_point, ready: self.ready@ }
    }
}

impl<T> ReleaseFrontier<T> {
    /// An empty frontier whose next point is 1.
    pub fn new() -> (f: Self)
        ensures
            f@.wf(),
            f@.next_point == 1,
            f@.ready == Map::<u64, T>::empty(),
    {
        ReleaseFrontier { next_point: 1, ready: BTreeMap::new() }
    }

    /// Accepts the resolved `point` with `value`, unless it is 0, already
    /// published, or already waiting; a refusal changes nothing.
    pub fn insert(&mut self, point: u64, value: T) -> (r: Result<(), ReleaseFrontierInsertError>)
        requires
            old(self)@.wf(),
        ensures
            final(self)@.wf(),
            match old(self)@.insert_error(point) {
                Some(e) => r == Err::<(), ReleaseFrontierInsertError>(e) && final(self)@ == old(
                    self,
                )@,
                None => r is Ok && final(self)@ == old(self)@.with_inserted(point, value),
            },
    {
        if point == 0 {
            return Err(ReleaseFrontierInsertError::InvalidPoint);
        }
        if point < self.next_point {
            return Err(ReleaseFrontierInsertError::AlreadyPublished);
        }
        if self.ready.contains_key(&point) {
            return Err(ReleaseFrontierInsertError::Duplicate);
        }
        self.ready.insert(point, value);
        Ok(())
    }

    /// The next point and its value, when that point has been resolved.
    pub fn next_ready(&self) -> (r: Option<(u64, &T)>)
        requires
            self@.wf(),
        ensures
            match self@.next_value() {
                Some(v) => r matches Some((p, w)) && p == self@.next_point && *w == v,
                None => r is None,
            },
    {
        match self.ready.get(&self.next_point) {
            Some(value) => Some((self.next_point, value)),
            None => None,
        }
    }

    /// Takes out the value of the next point, if it is resolved, and moves
    /// the next point on by one.
    pub fn commit_next(&mut self) -> (r: Option<T>)
        requires
            old(self)@.wf(),
        ensures
            final(self)@.wf(),
            r == old(self)@.next_value(),
            final(self)@ == old(self)@.after_commit(),
    {
        let value = match self.ready.remove(&self.next_point) {
            Some(v) => v,
            None => {
                assert(self.ready@ =~= old(self).ready@);
                return None;
            },
        };
        self.next_point = self.next_point.saturating_add(1);
        Some(value)
    }

    /// How many resolved points wait for publication.
    pub fn pending_count(&self) -> (n: usize)
        requires
            self@.wf(),
        ensures
            n == self@.ready.len(),
    {
        self.ready.len()
    }
}

/// While the next point is missing, accepting any other point makes nothing
/// publishable: the frontier never publishes across a gap.
pub proof fn lemma_frontier_never_skips_a_gap<T>(m: FrontierModel<T>, point: u64, value: T)
    requires
        m.wf(),
        !m.ready.contains_key(m.next_point),
        m.insert_error(point) is None,
        point != m.next_point,
    ensures
        m.with_inserted(point, value).next_value() is None,
        m.with_inserted(point, value).after_commit() == m.with_inserted(point, value),
{
}

/// A value accepted at the next point is the very value published next.
pub proof fn lemma_frontier_publishes_what_was_inserted<T>(m: FrontierModel<T>, value: T)
    requires
        m.wf(),
        m.insert_error(m.next_point) is None,
    ensures
        m.with_inserted(m.next_point, value).next_value() == Some(value),
{
}

/// Publishing moves the next point on by exactly one, and afterwards every
/// point up to the published one is refused as already published.
pub proof fn lemma_frontier_published_points_are_refused<T>(m: FrontierModel<T>, point: u64)
    requires
        m.wf(),
        m.next_value() is Some,
        m.next_point < u64::MAX,
        0 < point <= m.next_point,
    ensures
        m.after_commit().next_point == m.next_point + 1,
        m.after_commit().insert_error(point) == Some(ReleaseFrontierInsertError::AlreadyPublished),
{
}

/// Every operation keeps the frontier well formed.
pub proof fn lemma_frontier_wf_preserved<T>(m: FrontierModel<T>, point: u64, value: T)
    requires
        m.wf(),
    ensures
        m.after_commit().wf(),
        m.insert_error(point) is None ==> m.with_inserted(point, value).wf(),
{
}

/// One thing that happens to a reaper's frontier: a resolved point with its
/// value is offered, or the next point is published if it is ready.
pub enum FrontierEvent<T> {
    Offer(u64, T),
    Publish,
}

/// The frontier after `e`, and the point published by it, if any. An offer
/// the frontier refuses changes nothing.
pub open spec fn frontier_step<T>(m: FrontierModel<T>, e: FrontierEvent<T>) -> (FrontierModel<T>, Option<u64>) {
    match e {
        FrontierEvent::Offer(p, v) => if m.insert_error(p) is None {
            (m.with_inserted(p, v), None)
        } else {
            (m, None)
        },
        FrontierEvent::Publish => if m.next_value() is Some {
            (m.after_commit(), Some(m.next_point))
        } else {
            (m, None)
        },
    }
}

/// The frontier after the events `evs`, and the points published, in order.
pub open spec fn frontier_run<T>(m: FrontierModel<T>, evs: Seq<FrontierEvent<T>>) -> (FrontierModel<T>, Seq<u64>)
    decreases evs.len(),
{
    if evs.len() == 0 {
        (m, Seq::empty())
    } else {
        let (m1, pubs) = frontier_run(m, evs.drop_last());
        let (m2, o) = frontier_step(m1, evs.last());
        (
            m2,
            match o {
                Some(p) => pubs.push(p),
                None => pubs,
            },
        )
    }
}

/// Whatever resolved points are offered and whenever publishing is tried,
/// the frontier publishes the points from its next one on, in order, with
/// no gap and none twice (records handled by the reaper do not touch the
/// frontier). From a new reaper, the points published are 1, 2, 3, ...
pub proof fn lemma_frontier_publishes_in_order<T>(m: FrontierModel<T>, evs: Seq<FrontierEvent<T>>)
    requires
        m.wf(),
        m.next_point + evs.len() <= u64::MAX,
    ensures
        ({
            let (mf, pubs) = frontier_run(m, evs);
            &&& mf.wf()
            &&& mf.next_point == m.next_point + pubs.len()
            &&& forall|k: int| 0 <= k < pubs.len() ==> #[trigger] pubs[k] == m.next_point + k
        }),
    decreases evs.len(),
{
    if evs.len() > 0 {
        lemma_frontier_publishes_in_order(m, evs.drop_last());
        let (m1, pubs) = frontier_run(m, evs.drop_last());
        assert(pubs.len() <= evs.len() - 1) by {
            lemma_frontier_run_len(m, evs.drop_last());
        }
        match evs.last() {
            FrontierEvent::Offer(p, v) => {
                lemma_frontier_wf_preserved(m1, p, v);
            },
            FrontierEvent::Publish => {
                if m1.next_value() is Some {
                    assert(m1.next_point < u64::MAX);
                    let pubs2 = pubs.push(m1.next_point);
                    assert forall|k: int| 0 <= k < pubs2.len() implies #[trigger] pubs2[k] == m.next_point + k by {
                        if k < pubs.len() {
                            assert(pubs2[k] == pubs[k]);
                        }
                    }
                }
            },
        }
    }
}

proof fn lemma_frontier_run_len<T>(m: FrontierModel<T>, evs: Seq<FrontierEvent<T>>)
    ensures
        frontier_run(m, evs).1.len() <= evs.len(),
    decreases evs.len(),
{
    if evs.len() > 0 {
        lemma_frontier_run_len(m, evs.drop_last());
    }
}

} // verus!
