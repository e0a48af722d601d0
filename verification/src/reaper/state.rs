//! The reaper's decisions: which frame records it accepts, when a frame's
//! bucket is complete and handed out to wait on, and which resolved release
//! points may be published to the producer.

use vstd::prelude::*;
use std::collections::HashMap;
use crate::reaper::bucket::{Bucket, BucketModel, FrameIdentity, SyncobjHandle};
use crate::reaper::frontier::{FrontierModel, ReleaseFrontier, ReleaseFrontierInsertError};

verus! {

broadcast use vstd::std_specs::hash::group_hash_axioms;

/// What a consumer reports about one frame.
pub enum FrameRecord {
    /// The frame was handed to `expected_members` consumers.
    Register { identity: FrameIdentity, expected_members: u32 },
    /// A consumer is done with the frame and hands in its release handle.
    Released { identity: FrameIdentity, member_index: u32, consumer_handle: SyncobjHandle },
    /// A consumer dropped the frame without using it.
    Skipped { identity: FrameIdentity, member_index: u32 },
}

/// The frame a record speaks of.
pub open spec fn record_identity(r: FrameRecord) -> FrameIdentity {
    match r {
        FrameRecord::Register { identity, .. } => identity,
        FrameRecord::Released { identity, .. } => identity,
        FrameRecord::Skipped { identity, .. } => identity,
    }
}

/// The bucket after `r` was applied to `b`, with the refusal if there was one.
pub open spec fn apply_record(b: BucketModel, r: FrameRecord) -> (Option<Seq<char>>, BucketModel) {
    match r {
        FrameRecord::Register { expected_members, .. } => match b.register_error(expected_members) {
            Some(m) => (Some(m), b),
            None => (None, b.registered(expected_members)),
        },
        FrameRecord::Released { member_index, consumer_handle, .. } => match b.complete_error(
            member_index,
        ) {
            Some(m) => (Some(m), b),
            None => (None, b.completed(member_index, Some(consumer_handle))),
        },
        FrameRecord::Skipped { member_index, .. } => match b.complete_error(member_index) {
            Some(m) => (Some(m), b),
            None => (None, b.completed(member_index, None)),
        },
    }
}

impl FrameRecord {
    /// The frame this record speaks of.
    pub fn identity(&self) -> (i: FrameIdentity)
        ensures
            i == record_identity(*self),
    {
        match self {
            FrameRecord::Register { identity, .. } => *identity,
            FrameRecord::Released { identity, .. } => *identity,
            FrameRecord::Skipped { identity, .. } => *identity,
        }
    }
}

/// What the reaper made of one record.
pub enum RecordOutcome {
    /// Release point 0 is never waited on.
    RejectedZeroPoint,
    /// A bucket for the same release point holds another frame.
    RejectedIdentityMismatch,
    /// The bucket refused the update, for the reason given.
    RejectedUpdate(&'static str),
    /// Accepted; the frame still waits for members.
    Pending,
    /// Accepted, and every member is done: the bucket left the reaper and is
    /// handed out to wait on its release handles.
    Ready(Bucket),
}

/// The reaper of one renderer: open buckets by release point, and the
/// frontier of resolved points.
pub struct ReaperState {
    buckets: HashMap<u64, Bucket>,
    frontier: ReleaseFrontier<SyncobjHandle>,
}

impl ReaperState {
    /// The open buckets, by release point, as models.
    pub closed spec fn buckets(&self) -> Map<u64, BucketModel> {
        Map::new(|p: u64| self.buckets@.contains_key(p), |p: u64| self.buckets@[p]@)
    }

    /// The frontier of resolved points.
    pub closed spec fn frontier(&self) -> FrontierModel<SyncobjHandle> {
        self.frontier@
    }

    /// Every open bucket is well formed, keyed by its own release point, and
    /// still waiting: a bucket that is ready never stays.
    pub open spec fn wf(&self) -> bool {
        &&& self.frontier().wf()
        &&& self.buckets().dom().finite()
        &&& forall|p: u64| #[trigger]
            self.buckets().contains_key(p) ==> {
                &&& self.buckets()[p].wf()
                &&& self.buckets()[p].identity.release_point == p
                &&& !self.buckets()[p].is_ready()
            }
    }

    /// No open bucket and an empty frontier whose next point is 1.
    pub fn new() -> (s: Self)
        ensures
            s.wf(),
            s.buckets() == Map::<u64, BucketModel>::empty(),
            s.frontier().next_point == 1,
            s.frontier().ready == Map::<u64, SyncobjHandle>::empty(),
    {
        let s = ReaperState { buckets: HashMap::new(), frontier: ReleaseFrontier::new() };
        assert(s.buckets() =~= Map::<u64, BucketModel>::empty());
        s
    }

    /// Applies one record. A record for point 0, or for a point whose bucket
    /// holds another frame, is refused and changes nothing. Otherwise the
    /// bucket of the point (a fresh one if there is none) takes the update;
    /// a bucket that becomes ready leaves the reaper in the outcome.
    pub fn handle_record(&mut self, record: FrameRecord) -> (r: RecordOutcome)
        requires
            old(self).wf(),
        ensures
            final(self).wf(),
            final(self).frontier() == old(self).frontier(),
            ({
                let id = record_identity(record);
                let p = id.release_point;
                let b = if old(self).buckets().contains_key(p) {
                    old(self).buckets()[p]
                } else {
                    BucketModel::fresh(id)
                };
                if p == 0 {
                    r is RejectedZeroPoint && final(self).buckets() == old(self).buckets()
                } else if b.identity != id {
                    r is RejectedIdentityMismatch && final(self).buckets() == old(self).buckets()
                } else {
                    match apply_record(b, record) {
                        (Some(m), _) => r matches RecordOutcome::RejectedUpdate(s) && s@ == m
                            && final(self).buckets() == old(self).buckets().insert(p, b),
                        (None, nb) => if nb.is_ready() {
                            r matches RecordOutcome::Ready(out) && out@ == nb
                                && final(self).buckets() == old(self).buckets().remove(p)
                        } else {
                            r is Pending && final(self).buckets() == old(self).buckets().insert(
                                p,
                                nb,
                            )
                        },
                    }
                }
            }),
    {
        let identity = record.identity();
        let point = identity.release_point;
        if point == 0 {
            return RecordOutcome::RejectedZeroPoint;
        }
        let ghost old_buckets = self.buckets();
        let mut bucket = match self.buckets.remove(&point) {
            Some(b) => b,
            None => Bucket::new(identity),
        };
        let ghost b = bucket@;
        assert(self.buckets() =~= old_buckets.remove(point));
        if bucket.identity() != identity {
            self.buckets.insert(point, bucket);
            assert(self.buckets() =~= old_buckets);
            return RecordOutcome::RejectedIdentityMismatch;
        }
        let update = match record {
            FrameRecord::Register { expected_members, .. } => bucket.register(expected_members),
            FrameRecord::Released { member_index, consumer_handle, .. } => bucket.complete(
                member_index,
                Some(consumer_handle),
            ),
            FrameRecord::Skipped { member_index, .. } => bucket.complete(member_index, None),
        };
        match update {
            Err(e) => {
                self.buckets.insert(point, bucket);
                assert(self.buckets() =~= old_buckets.insert(point, b));
                RecordOutcome::RejectedUpdate(e)
            },
            Ok(()) => {
                if bucket.ready() {
                    RecordOutcome::Ready(bucket)
                } else {
                    let ghost nb = bucket@;
                    self.buckets.insert(point, bucket);
                    assert(self.buckets() =~= old_buckets.insert(point, nb));
                    RecordOutcome::Pending
                }
            },
        }
    }

    /// Accepts the resolved `point` with its release `handle` into the
    /// frontier, on the frontier's terms.
    pub fn accept_resolved(&mut self, point: u64, handle: SyncobjHandle) -> (r: Result<
        (),
        ReleaseFrontierInsertError,
    >)
        requires
            old(self).wf(),
        ensures
            final(self).wf(),
            final(self).buckets() == old(self).buckets(),
            match old(self).frontier().insert_error(point) {
                Some(e) => r == Err::<(), ReleaseFrontierInsertError>(e) && final(self).frontier()
                    == old(self).frontier(),
                None => r is Ok && final(self).frontier() == old(self).frontier().with_inserted(
                    point,
                    handle,
                ),
            },
    {
        let r = self.frontier.insert(point, handle);
        assert(self.buckets() =~= old(self).buckets());
        r
    }

    /// The next release point to publish and its handle, once resolved.
    pub fn next_release(&self) -> (r: Option<(u64, &SyncobjHandle)>)
        requires
            self.wf(),
        ensures
            match self.frontier().next_value() {
                Some(v) => r matches Some((p, w)) && p == self.frontier().next_point && *w == v,
                None => r is None,
            },
    {
        self.frontier.next_ready()
    }

    /// Marks the next release point as published, handing back its handle.
    pub fn commit_release(&mut self) -> (r: Option<SyncobjHandle>)
        requires
            old(self).wf(),
        ensures
            final(self).wf(),
            final(self).buckets() == old(self).buckets(),
            r == old(self).frontier().next_value(),
            final(self).frontier() == old(self).frontier().after_commit(),
    {
        let r = self.frontier.commit_next();
        assert(self.buckets() =~= old(self).buckets());
        r
    }

    /// How many buckets are open and how many resolved points wait.
    pub fn pending(&self) -> (r: (usize, usize))
        requires
            self.wf(),
        ensures
            r.0 == self.buckets().len(),
            r.1 == self.frontier().ready.len(),
    {
        assert(self.buckets().dom() =~= self.buckets@.dom());
        (self.buckets.len(), self.frontier.pending_count())
    }
}

} // verus!
