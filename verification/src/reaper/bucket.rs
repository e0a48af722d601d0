//! One frame's bucket: the consumers that must hand a frame back before its
//! release point can be resolved, and the release handles they handed in.

use vstd::prelude::*;
use std::collections::HashSet;

verus! {

broadcast use vstd::std_specs::hash::group_hash_axioms;

/// Which frame a record speaks of: the buffer generation, the buffer within
/// it, and the release point that the producer waits on.
#[derive(Clone, Copy, Debug, PartialEq, Eq, Hash, Structural)]
pub struct FrameIdentity {
    pub buffer_generation: u64,
    pub buffer_index: u32,
    pub release_point: u64,
}

/// A DRM synchronisation object, by its handle on the device.
#[derive(Debug, PartialEq, Eq)]
pub struct SyncobjHandle {
    pub raw: u32,
}

/// `n` as a member count, saturating at `u32::MAX`.
pub open spec fn saturated_count(n: nat) -> u32 {
    if n < u32::MAX {
        n as u32
    } else {
        u32::MAX
    }
}

/// The mathematical state of a bucket.
pub struct BucketModel {
    pub identity: FrameIdentity,
    pub expected_members: Option<u32>,
    pub completed_members: u32,
    pub completed_indices: Set<u32>,
    pub handles: Seq<SyncobjHandle>,
}

impl BucketModel {
    /// The completed count is the number of distinct completed members.
    pub open spec fn wf(self) -> bool {
        &&& self.completed_indices.finite()
        &&& self.completed_members == saturated_count(self.completed_indices.len())
    }

    /// An empty bucket for `identity`, not yet registered.
    pub open spec fn fresh(identity: FrameIdentity) -> Self {
        BucketModel {
            identity,
            expected_members: None,
            completed_members: 0,
            completed_indices: Set::empty(),
            handles: Seq::empty(),
        }
    }

    /// The refusal that registering `expected` members meets, if any.
    pub open spec fn register_error(self, expected: u32) -> Option<Seq<char>> {
        match self.expected_members {
            Some(existing) => if existing != expected {
                Some("member count mismatch"@)
            } else {
                Some("duplicate registration"@)
            },
            None => None,
        }
    }

    /// The bucket once `expected` members were registered.
    pub open spec fn registered(self, expected: u32) -> Self {
        BucketModel { expected_members: Some(expected), ..self }
    }

    /// The refusal that completing member `index` meets, if any.
    pub open spec fn complete_error(self, index: u32) -> Option<Seq<char>> {
        if self.expected_members matches Some(e) && index >= e {
            Some("member index out of range"@)
        } else if self.completed_indices.contains(index) {
            Some("duplicate member completion"@)
        } else {
            None
        }
    }

    /// The bucket once member `index` completed, handing in `handle` if any.
    pub open spec fn completed(self, index: u32, handle: Option<SyncobjHandle>) -> Self {
        BucketModel {
            completed_members: saturated_count(self.completed_indices.len() + 1),
            completed_indices: self.completed_indices.insert(index),
            handles: match handle {
                Some(h) => self.handles.push(h),
                None => self.handles,
            },
            ..self
        }
    }

    /// Registered, and as many members completed as were expected.
    pub open spec fn is_ready(self) -> bool {
        self.expected_members matches Some(e) && self.completed_members == e
    }
}

/// The members of one frame that have handed it back so far.
pub struct Bucket {
    identity: FrameIdentity,
    expected_members: Option<u32>,
    completed_members: u32,
    completed_indices: HashSet<u32>,
    handles: Vec<SyncobjHandle>,
}

impl View for Bucket {
    type V = BucketModel;

    closed spec fn view(&self) -> BucketModel {
        BucketModel {
            identity: self.identity,
            expected_members: self.expected_members,
            completed_members: self.completed_members,
            completed_indices: self.completed_indices@,
            handles: self.handles@,
        }
    }
}

impl Bucket {
    /// An empty bucket for the frame `identity`.
    pub fn new(identity: FrameIdentity) -> (b: Self)
        ensures
            b@ == BucketModel::fresh(identity),
            b@.wf(),
    {
        Bucket {
            identity,
            expected_members: None,
            completed_members: 0,
            completed_indices: HashSet::new(),
            handles: Vec::new(),
        }
    }

    /// The frame this bucket is for.
    pub fn identity(&self) -> (i: FrameIdentity)
        ensures
            i == self@.identity,
    {
        self.identity
    }

    /// Records how many members the frame was handed to; a second
    /// registration is refused and changes nothing.
    pub fn register(&mut self, expected_members: u32) -> (r: Result<(), &'static str>)
        requires
            old(self)@.wf(),
        ensures
            final(self)@.wf(),
            match old(self)@.register_error(expected_members) {
                Some(msg) => r matches Err(s) && s@ == msg && final(self)@ == old(self)@,
                None => r is Ok && final(self)@ == old(self)@.registered(expected_members),
            },
    {
        match self.expected_members {
            Some(existing) => {
                if existing != expected_members {
                    Err("member count mismatch")
                } else {
                    Err("duplicate registration")
                }
            },
            None => {
                self.expected_members = Some(expected_members);
                Ok(())
            },
        }
    }

    /// Records that member `member_index` handed the frame back, with its
    /// release handle if it has one. An index beyond the registered count,
    /// or one that already completed, is refused and changes nothing.
    pub fn complete(&mut self, member_index: u32, handle: Option<SyncobjHandle>) -> (r: Result<
        (),
        &'static str,
    >)
        requires
            old(self)@.wf(),
        ensures
            final(self)@.wf(),
            match old(self)@.complete_error(member_index) {
                Some(msg) => r matches Err(s) && s@ == msg && final(self)@ == old(self)@,
                None => r is Ok && final(self)@ == old(self)@.completed(member_index, handle),
            },
    {
        if let Some(expected) = self.expected_members {
            if member_index >= expected {
                return Err("member index out of range");
            }
        }
        if !self.completed_indices.insert(member_index) {
            assert(self.completed_indices@ =~= old(self).completed_indices@);
            return Err("duplicate member completion");
        }
        proof {
            vstd::set::axiom_set_insert_len(old(self).completed_indices@, member_index);
        }
        self.completed_members = self.completed_members.saturating_add(1);
        if let Some(handle) = handle {
            self.handles.push(handle);
        }
        Ok(())
    }

    /// Whether every expected member has completed.
    pub fn ready(&self) -> (r: bool)
        ensures
            r == self@.is_ready(),
    {
        match self.expected_members {
            Some(expected) => self.completed_members == expected,
            None => false,
        }
    }

    /// Gives up the bucket, handing out its release handles in the order
    /// the members completed.
    pub fn into_handles(self) -> (h: Vec<SyncobjHandle>)
        ensures
            h@ == self@.handles,
    {
        self.handles
    }
}

/// The member indices below `n`.
pub open spec fn members_below(n: u32) -> Set<u32> {
    Set::new(|i: u32| i < n)
}

proof fn lemma_members_below(n: u32)
    ensures
        members_below(n).finite(),
        members_below(n).len() == n,
    decreases n,
{
    if n == 0 {
        assert(members_below(0) =~= Set::<u32>::empty());
    } else {
        let m = (n - 1) as u32;
        lemma_members_below(m);
        assert(members_below(n) =~= members_below(m).insert(m));
    }
}

/// Once a bucket is registered before its members complete, so that every
/// completed index lies below the registered count, it is ready exactly when
/// every member index below that count has completed, each once.
pub proof fn lemma_bucket_ready_iff_every_member(b: BucketModel)
    requires
        b.wf(),
        b.expected_members is Some,
        forall|i: u32| #[trigger] b.completed_indices.contains(i) ==> i < b.expected_members->0,
    ensures
        b.is_ready() <==> b.completed_indices == members_below(b.expected_members->0),
{
    let e = b.expected_members->0;
    lemma_members_below(e);
    assert(b.completed_indices.subset_of(members_below(e)));
    vstd::set_lib::lemma_len_subset(b.completed_indices, members_below(e));
    if b.is_ready() {
        if b.completed_indices.len() < e {
            assert(b.completed_members == b.completed_indices.len());
        }
        assert(b.completed_indices.len() == e);
        vstd::set_lib::lemma_subset_equality(b.completed_indices, members_below(e));
    }
}

/// A register followed by completions keeps every completed index below the
/// registered count, the condition under which readiness means that every
/// member completed.
pub proof fn lemma_bucket_completions_stay_in_range(b: BucketModel, index: u32, handle: Option<
    SyncobjHandle,
>)
    requires
        b.expected_members is Some,
        forall|i: u32| #[trigger] b.completed_indices.contains(i) ==> i < b.expected_members->0,
        b.complete_error(index) is None,
    ensures
        forall|i: u32| #[trigger]
            b.completed(index, handle).completed_indices.contains(i) ==> i
                < b.expected_members->0,
{
}

} // verus!
