//! One consumer's share of a frame: it reports the frame back exactly once,
//! either released with its release handle or skipped. A share dropped
//! without a report counts as skipped.

use vstd::prelude::*;
use crate::reaper::bucket::{FrameIdentity, SyncobjHandle};
use crate::reaper::state::FrameRecord;

verus! {

/// A consumer's share of a frame, and whether it still owes its report.
pub struct FrameConsumerMember {
    identity: FrameIdentity,
    member_index: u32,
    pending: bool,
}

impl FrameConsumerMember {
    /// Whether the report is still owed.
    pub closed spec fn is_pending(&self) -> bool {
        self.pending
    }

    /// The frame this share is of.
    pub closed spec fn frame(&self) -> FrameIdentity {
        self.identity
    }

    /// The consumer's index among the frame's members.
    pub closed spec fn index(&self) -> u32 {
        self.member_index
    }

    /// The frame this share is of.
    pub fn identity(&self) -> (i: FrameIdentity)
        ensures
            i == self.frame(),
    {
        self.identity
    }

    /// The consumer's index among the frame's members.
    pub fn member_index(&self) -> (i: u32)
        ensures
            i == self.index(),
    {
        self.member_index
    }

    /// The share once its report was made.
    pub closed spec fn reported(self) -> Self {
        FrameConsumerMember { pending: false, ..self }
    }

    /// Whether the report is still owed.
    pub fn pending(&self) -> (r: bool)
        ensures
            r == self.is_pending(),
    {
        self.pending
    }

    /// The consumer is done with the frame: the release report, if none was
    /// made yet. Afterwards nothing is owed.
    pub fn released(&mut self, consumer_handle: SyncobjHandle) -> (r: Option<FrameRecord>)
        ensures
            !final(self).is_pending(),
            final(self).frame() == old(self).frame(),
            final(self).index() == old(self).index(),
            *final(self) == old(self).reported(),
            old(self).is_pending() ==> (r matches Some(
                FrameRecord::Released { identity, member_index, consumer_handle: h },
            ) && identity == old(self).frame() && member_index == old(self).index() && h
                == consumer_handle),
            !old(self).is_pending() ==> r is None,
    {
        if !self.pending {
            return None;
        }
        self.pending = false;
        Some(
            FrameRecord::Released {
                identity: self.identity,
                member_index: self.member_index,
                consumer_handle,
            },
        )
    }

    /// The consumer drops the frame unused, or the share is dropped: the
    /// skip report, if none was made yet. Afterwards nothing is owed.
    pub fn skip(&mut self) -> (r: Option<FrameRecord>)
        ensures
            !final(self).is_pending(),
            final(self).frame() == old(self).frame(),
            final(self).index() == old(self).index(),
            *final(self) == old(self).reported(),
            old(self).is_pending() ==> (r matches Some(FrameRecord::Skipped { identity, member_index })
                && identity == old(self).frame() && member_index == old(self).index()),
            !old(self).is_pending() ==> r is None,
    {
        if !self.pending {
            return None;
        }
        self.pending = false;
        Some(FrameRecord::Skipped { identity: self.identity, member_index: self.member_index })
    }
}

/// Registers a frame handed to `expected_members` consumers: the register
/// record, and one pending share per member index, from 0 up.
pub fn register_frame(identity: FrameIdentity, expected_members: u32) -> (r: (
    FrameRecord,
    Vec<FrameConsumerMember>,
))
    ensures
        r.0 matches FrameRecord::Register { identity: id, expected_members: n } && id == identity
            && n == expected_members,
        r.1@.len() == expected_members,
        forall|i: int|
            0 <= i < r.1@.len() ==> {
                &&& (#[trigger] r.1@[i]).frame() == identity
                &&& r.1@[i].index() == i
                &&& r.1@[i].is_pending()
            },
{
    let mut members: Vec<FrameConsumerMember> = Vec::new();
    let mut i: u32 = 0;
    while i < expected_members
        invariant
            i <= expected_members,
            members@.len() == i,
            forall|j: int|
                0 <= j < i ==> {
                    &&& (#[trigger] members@[j]).frame() == identity
                    &&& members@[j].index() == j
                    &&& members@[j].is_pending()
                },
        decreases expected_members - i,
    {
        members.push(FrameConsumerMember { identity, member_index: i, pending: true });
        i = i + 1;
    }
    (FrameRecord::Register { identity, expected_members }, members)
}

/// A share reports at most once: once a report was made, released or
/// skipped, the share owes nothing, and a second report is none.
pub proof fn lemma_member_reports_once(m: FrameConsumerMember)
    ensures
        !m.reported().is_pending(),
        m.reported().reported() == m.reported(),
        m.reported().frame() == m.frame(),
        m.reported().index() == m.index(),
{
}

} // verus!
