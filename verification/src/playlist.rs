//! Shared playlist sessions: which displays a playlist plays on together, and
//! which playlist owns each display. A display belongs to at most one
//! session; a session lives as long as it has a member.

use vstd::prelude::*;
use std::collections::HashMap;
use crate::text::{contains_string, strings_view};

verus! {

broadcast use vstd::std_specs::hash::group_hash_axioms;

/// A display, by its id.
pub type DisplayId = u64;

/// The mathematical state of the sessions: each playlist's members, in the
/// order they joined, and each owned display's playlist.
pub struct RegistryModel {
    pub playlists: Map<i64, Seq<DisplayId>>,
    pub owners: Map<DisplayId, i64>,
}

/// `members` without any occurrence of `d`.
pub open spec fn without(members: Seq<DisplayId>, d: DisplayId) -> Seq<DisplayId>
    decreases members.len(),
{
    if members.len() == 0 {
        members
    } else if members.last() == d {
        without(members.drop_last(), d)
    } else {
        without(members.drop_last(), d).push(members.last())
    }
}

/// `s` with `v` appended holds exactly the elements of `s` and `v`.
pub proof fn lemma_push_contains<A>(s: Seq<A>, v: A, x: A)
    ensures
        s.push(v).contains(x) <==> (s.contains(x) || x == v),
{
    if s.push(v).contains(x) {
        let k = choose|k: int| 0 <= k < s.len() + 1 && s.push(v)[k] == x;
        if k < s.len() {
            assert(s[k] == x);
        }
    }
    if s.contains(x) {
        let k = choose|k: int| 0 <= k < s.len() && s[k] == x;
        assert(s.push(v)[k] == x);
    }
    if x == v {
        assert(s.push(v)[s.len() as int] == x);
    }
}

/// The members left after `d` leaves are the others.
pub proof fn lemma_without(members: Seq<DisplayId>, d: DisplayId)
    ensures
        forall|x: DisplayId| #[trigger]
            without(members, d).contains(x) <==> (members.contains(x) && x != d),
    decreases members.len(),
{
    if members.len() > 0 {
        let pre = members.drop_last();
        let l = members.last();
        lemma_without(pre, d);
        assert(members =~= pre.push(l));
        assert forall|x: DisplayId| #[trigger]
            without(members, d).contains(x) <==> (members.contains(x) && x != d) by {
            lemma_push_contains(pre, l, x);
            lemma_push_contains(without(pre, d), l, x);
        }
    }
}

/// Display `d` leaves session `p`; the session ends when it has no member
/// left.
pub open spec fn detach(playlists: Map<i64, Seq<DisplayId>>, d: DisplayId, p: i64) -> Map<
    i64,
    Seq<DisplayId>,
> {
    if playlists.contains_key(p) {
        let rest = without(playlists[p], d);
        if rest.len() == 0 {
            playlists.remove(p)
        } else {
            playlists.insert(p, rest)
        }
    } else {
        playlists
    }
}

/// The sessions after display `d` was released.
pub open spec fn release_one(s: RegistryModel, d: DisplayId) -> RegistryModel {
    if s.owners.contains_key(d) {
        RegistryModel {
            playlists: detach(s.playlists, d, s.owners[d]),
            owners: s.owners.remove(d),
        }
    } else {
        s
    }
}

/// The sessions after the displays `ids` were released, one after another.
pub open spec fn release_all(s: RegistryModel, ids: Seq<DisplayId>) -> RegistryModel
    decreases ids.len(),
{
    if ids.len() == 0 {
        s
    } else {
        release_one(release_all(s, ids.drop_last()), ids.last())
    }
}

/// The sessions after `targets` were handed to a session of playlist `p`:
/// they are released from where they were, and then form the new session.
pub open spec fn activate_model(s: RegistryModel, targets: Seq<DisplayId>, p: i64) -> RegistryModel {
    if targets.len() == 0 {
        s
    } else {
        let r = release_all(s, targets);
        RegistryModel {
            playlists: r.playlists.insert(p, targets),
            owners: own_all(r.owners, targets, p),
        }
    }
}

/// `owners` with each of `targets`, one after another, owned by `p`.
pub open spec fn own_all(owners: Map<DisplayId, i64>, targets: Seq<DisplayId>, p: i64) -> Map<
    DisplayId,
    i64,
>
    decreases targets.len(),
{
    if targets.len() == 0 {
        owners
    } else {
        own_all(owners, targets.drop_last(), p).insert(targets.last(), p)
    }
}

proof fn lemma_own_all(owners: Map<DisplayId, i64>, targets: Seq<DisplayId>, p: i64)
    ensures
        forall|d: DisplayId| #[trigger]
            own_all(owners, targets, p).contains_key(d) <==> (owners.contains_key(d)
                || targets.contains(d)),
        forall|d: DisplayId| #[trigger]
            targets.contains(d) ==> own_all(owners, targets, p)[d] == p,
        forall|d: DisplayId|
            !targets.contains(d) && owners.contains_key(d) ==> #[trigger] own_all(
                owners,
                targets,
                p,
            )[d] == owners[d],
    decreases targets.len(),
{
    if targets.len() > 0 {
        let prefix = targets.drop_last();
        lemma_own_all(owners, prefix, p);
        assert(targets =~= prefix.push(targets.last()));
        let m = own_all(owners, targets, p);
        assert(m == own_all(owners, prefix, p).insert(targets.last(), p));
        assert forall|d: DisplayId| #[trigger] m.contains_key(d) <==> (owners.contains_key(d)
            || targets.contains(d)) by {
            lemma_push_contains(prefix, targets.last(), d);
        }
        assert forall|d: DisplayId| #[trigger] targets.contains(d) implies m[d] == p by {
            lemma_push_contains(prefix, targets.last(), d);
        }
        assert forall|d: DisplayId|
            !targets.contains(d) && owners.contains_key(d) implies #[trigger] m[d] == owners[d] by {
            lemma_push_contains(prefix, targets.last(), d);
        }
    }
}

/// The sessions after display `d` joined the session of playlist `p`.
pub open spec fn join_model(s: RegistryModel, d: DisplayId, p: i64) -> RegistryModel {
    RegistryModel {
        playlists: if s.playlists.contains_key(p) {
            s.playlists.insert(p, s.playlists[p].push(d))
        } else {
            s.playlists
        },
        owners: s.owners.insert(d, p),
    }
}

/// Ownership and membership agree: an owned display is a member of its
/// owner's session, every member of a session is owned by it, and no
/// session is empty.
pub open spec fn consistent(s: RegistryModel) -> bool {
    &&& forall|d: DisplayId| #[trigger]
        s.owners.contains_key(d) ==> s.playlists.contains_key(s.owners[d])
            && s.playlists[s.owners[d]].contains(d)
    &&& forall|p: i64, d: DisplayId|
        s.playlists.contains_key(p) && #[trigger] s.playlists[p].contains(d) ==> s.owners.contains_key(
            d,
        ) && s.owners[d] == p
    &&& forall|p: i64| #[trigger] s.playlists.contains_key(p) ==> s.playlists[p].len() > 0
}

/// How joining a playlist's session starts.
#[derive(Debug, Clone, Copy, PartialEq, Eq, Structural)]
pub enum AttachStart {
    /// The display already belongs to a session.
    AlreadyOwned,
    /// The playlist has no session to join.
    NoSession,
    /// The display may join the playlist's session.
    Session,
}

/// Which session each display belongs to.
pub struct SessionRegistry {
    by_playlist: HashMap<i64, Vec<DisplayId>>,
    by_display: HashMap<DisplayId, i64>,
}

impl View for SessionRegistry {
    type V = RegistryModel;

    closed spec fn view(&self) -> RegistryModel {
        RegistryModel {
            playlists: Map::new(
                |p: i64| self.by_playlist@.contains_key(p),
                |p: i64| self.by_playlist@[p]@,
            ),
            owners: self.by_display@,
        }
    }
}

impl SessionRegistry {
    /// No session and no owned display.
    pub fn new() -> (r: Self)
        ensures
            r@.playlists == Map::<i64, Seq<DisplayId>>::empty(),
            r@.owners == Map::<DisplayId, i64>::empty(),
    {
        let r = SessionRegistry { by_playlist: HashMap::new(), by_display: HashMap::new() };
        assert(r@.playlists =~= Map::<i64, Seq<DisplayId>>::empty());
        r
    }

    /// Whether display `d` belongs to a session.
    pub fn is_owned(&self, d: DisplayId) -> (r: bool)
        ensures
            r == self@.owners.contains_key(d),
    {
        self.by_display.contains_key(&d)
    }

    /// The playlist whose session display `d` belongs to.
    pub fn session_for_display(&self, d: DisplayId) -> (r: Option<i64>)
        ensures
            r == (if self@.owners.contains_key(d) {
                Some(self@.owners[d])
            } else {
                None
            }),
    {
        match self.by_display.get(&d) {
            Some(p) => Some(*p),
            None => None,
        }
    }

    /// The members of playlist `p`'s session, if it has one.
    pub fn members(&self, p: i64) -> (r: Option<Vec<DisplayId>>)
        ensures
            match r {
                Some(m) => self@.playlists.contains_key(p) && m@ == self@.playlists[p],
                None => !self@.playlists.contains_key(p),
            },
    {
        match self.by_playlist.get(&p) {
            Some(m) => Some(m.clone()),
            None => None,
        }
    }

    fn remove_member(v: &Vec<DisplayId>, d: DisplayId) -> (r: Vec<DisplayId>)
        ensures
            r@ == without(v@, d),
    {
        let mut out: Vec<DisplayId> = Vec::new();
        let mut i: usize = 0;
        while i < v.len()
            invariant
                i <= v@.len(),
                out@ == without(v@.subrange(0, i as int), d),
            decreases v@.len() - i,
        {
            assert(v@.subrange(0, i + 1).drop_last() =~= v@.subrange(0, i as int));
            if v[i] != d {
                out.push(v[i]);
            }
            i = i + 1;
        }
        assert(v@.subrange(0, v@.len() as int) =~= v@);
        out
    }

    fn copy_ids(ids: &[DisplayId]) -> (r: Vec<DisplayId>)
        ensures
            r@ == ids@,
    {
        let mut out: Vec<DisplayId> = Vec::new();
        let mut i: usize = 0;
        while i < ids.len()
            invariant
                i <= ids@.len(),
                out@ == ids@.subrange(0, i as int),
            decreases ids@.len() - i,
        {
            out.push(ids[i]);
            i = i + 1;
        }
        out
    }

    fn release_display(&mut self, d: DisplayId)
        ensures
            final(self)@ == release_one(old(self)@, d),
    {
        let owner = self.by_display.remove(&d);
        if let Some(p) = owner {
            let ghost old_playlists = old(self)@.playlists;
            let members = self.by_playlist.remove(&p);
            if let Some(m) = members {
                let rest = Self::remove_member(&m, d);
                if rest.len() > 0 {
                    self.by_playlist.insert(p, rest);
                    assert(self@.playlists =~= old_playlists.insert(p, without(m@, d)));
                } else {
                    assert(self@.playlists =~= old_playlists.remove(p));
                }
            } else {
                assert(self@.playlists =~= old_playlists);
            }
        } else {
            assert(self.by_display@ =~= old(self).by_display@);
            assert(self@.playlists =~= old(self)@.playlists);
        }
    }

    /// Releases the displays `ids` from their sessions, one after another;
    /// a session whose last member leaves ends.
    pub fn release(&mut self, ids: &[DisplayId])
        ensures
            final(self)@ == release_all(old(self)@, ids@),
    {
        let mut i: usize = 0;
        while i < ids.len()
            invariant
                i <= ids@.len(),
                self@ == release_all(old(self)@, ids@.subrange(0, i as int)),
            decreases ids@.len() - i,
        {
            assert(ids@.subrange(0, i + 1).drop_last() =~= ids@.subrange(0, i as int));
            self.release_display(ids[i]);
            i = i + 1;
        }
        assert(ids@.subrange(0, ids@.len() as int) =~= ids@);
    }

    /// Hands `targets` to a new session of playlist `p`: they leave their
    /// sessions first. With no target nothing happens.
    pub fn activate(&mut self, targets: &[DisplayId], p: i64)
        ensures
            final(self)@ == activate_model(old(self)@, targets@, p),
    {
        if targets.len() == 0 {
            return;
        }
        self.release(targets);
        let ghost r = self@;
        let members = Self::copy_ids(targets);
        self.by_playlist.insert(p, members);
        let mut i: usize = 0;
        while i < targets.len()
            invariant
                i <= targets@.len(),
                targets@.len() > 0,
                self@.playlists == r.playlists.insert(p, targets@),
                self@.owners == own_all(r.owners, targets@.subrange(0, i as int), p),
            decreases targets@.len() - i,
        {
            assert(targets@.subrange(0, i + 1).drop_last() =~= targets@.subrange(0, i as int));
            self.by_display.insert(targets[i], p);
            i = i + 1;
        }
        assert(targets@.subrange(0, targets@.len() as int) =~= targets@);
        assert(self@.playlists =~= r.playlists.insert(p, targets@));
    }

    /// How display `d` joining playlist `p`'s session starts: a display in a
    /// session already stays there, and a playlist without a session cannot
    /// be joined.
    pub fn attach_start(&self, d: DisplayId, p: i64) -> (r: AttachStart)
        ensures
            r == (if self@.owners.contains_key(d) {
                AttachStart::AlreadyOwned
            } else if self@.playlists.contains_key(p) {
                AttachStart::Session
            } else {
                AttachStart::NoSession
            }),
    {
        if self.by_display.contains_key(&d) {
            AttachStart::AlreadyOwned
        } else if self.by_playlist.contains_key(&p) {
            AttachStart::Session
        } else {
            AttachStart::NoSession
        }
    }

    /// Display `d` joins playlist `p`'s session as its last member and is
    /// owned by it.
    pub fn join(&mut self, d: DisplayId, p: i64)
        ensures
            final(self)@ == join_model(old(self)@, d, p),
    {
        let ghost old_playlists = self@.playlists;
        let members = self.by_playlist.remove(&p);
        if let Some(mut m) = members {
            m.push(d);
            self.by_playlist.insert(p, m);
            assert(self@.playlists =~= old_playlists.insert(p, old_playlists[p].push(d)));
        } else {
            assert(self@.playlists =~= old_playlists);
        }
        self.by_display.insert(d, p);
    }

    /// Ends playlist `p`'s session: its members are released and returned.
    /// A playlist without a session returns none.
    pub fn deactivate_playlist(&mut self, p: i64) -> (r: Vec<DisplayId>)
        ensures
            old(self)@.playlists.contains_key(p) ==> r@ == old(self)@.playlists[p],
            !old(self)@.playlists.contains_key(p) ==> r@.len() == 0,
            final(self)@ == release_all(old(self)@, r@),
    {
        let members = match self.by_playlist.get(&p) {
            Some(m) => m.clone(),
            None => Vec::new(),
        };
        self.release(members.as_slice());
        members
    }
}

/// Releasing one display keeps ownership and membership in agreement.
proof fn lemma_release_one_consistent(s: RegistryModel, d: DisplayId)
    requires
        consistent(s),
    ensures
        consistent(release_one(s, d)),
        !release_one(s, d).owners.contains_key(d),
        forall|x: DisplayId| x != d && s.owners.contains_key(x) ==> #[trigger] release_one(
            s,
            d,
        ).owners.contains_key(x) && release_one(s, d).owners[x] == s.owners[x],
{
    if s.owners.contains_key(d) {
        let p = s.owners[d];
        lemma_without(s.playlists[p], d);
        let t = release_one(s, d);
        assert forall|x: DisplayId| #[trigger] t.owners.contains_key(x) implies t.playlists.contains_key(
            t.owners[x],
        ) && t.playlists[t.owners[x]].contains(x) by {
            let q = s.owners[x];
            if q == p {
                assert(without(s.playlists[p], d).contains(x));
            }
        }
        assert forall|q: i64, x: DisplayId|
            t.playlists.contains_key(q) && #[trigger] t.playlists[q].contains(x) implies t.owners.contains_key(
            x,
        ) && t.owners[x] == q by {
            if q == p {
                assert(s.playlists[p].contains(x));
            }
        }
    }
}

/// Releasing any displays keeps ownership and membership in agreement; none
/// of the released displays belongs to a session afterwards, and every other
/// display keeps its session.
pub proof fn lemma_release_keeps_sessions_consistent(s: RegistryModel, ids: Seq<DisplayId>)
    requires
        consistent(s),
    ensures
        consistent(release_all(s, ids)),
        forall|d: DisplayId| #[trigger] ids.contains(d) ==> !release_all(s, ids).owners.contains_key(d),
        forall|x: DisplayId|
            !ids.contains(x) && s.owners.contains_key(x) ==> #[trigger] release_all(
                s,
                ids,
            ).owners.contains_key(x) && release_all(s, ids).owners[x] == s.owners[x],
    decreases ids.len(),
{
    if ids.len() > 0 {
        let prefix = ids.drop_last();
        lemma_release_keeps_sessions_consistent(s, prefix);
        let r = release_all(s, prefix);
        lemma_release_one_consistent(r, ids.last());
        assert(ids =~= prefix.push(ids.last()));
        assert forall|d: DisplayId| #[trigger] ids.contains(d) implies !release_all(
            s,
            ids,
        ).owners.contains_key(d) by {
            lemma_push_contains(prefix, ids.last(), d);
        }
        assert forall|x: DisplayId|
            !ids.contains(x) && s.owners.contains_key(x) implies #[trigger] release_all(
            s,
            ids,
        ).owners.contains_key(x) && release_all(s, ids).owners[x] == s.owners[x] by {
            lemma_push_contains(prefix, ids.last(), x);
        }
    }
}

/// Activating a playlist on some displays keeps ownership and membership in
/// agreement, and afterwards every target belongs to that playlist's session,
/// which holds exactly the targets. This needs every display of an earlier
/// session of the same playlist to be among the targets: otherwise the new
/// session replaces the old one while its other displays still name it.
pub proof fn lemma_activate_keeps_sessions_consistent(
    s: RegistryModel,
    targets: Seq<DisplayId>,
    p: i64,
)
    requires
        consistent(s),
        targets.len() > 0,
        s.playlists.contains_key(p) ==> forall|d: DisplayId| #[trigger]
            s.playlists[p].contains(d) ==> targets.contains(d),
    ensures
        consistent(activate_model(s, targets, p)),
        activate_model(s, targets, p).playlists[p] == targets,
        forall|d: DisplayId| #[trigger]
            targets.contains(d) ==> activate_model(s, targets, p).owners[d] == p,
{
    lemma_release_keeps_sessions_consistent(s, targets);
    let r = release_all(s, targets);
    assert(!r.playlists.contains_key(p)) by {
        if r.playlists.contains_key(p) {
            let d = r.playlists[p][0];
            assert(r.playlists[p].contains(d));
            assert(r.owners.contains_key(d) && r.owners[d] == p);
            assert(s.owners.contains_key(d) && s.owners[d] == p) by {
                if !s.owners.contains_key(d) || s.owners[d] != p {
                    lemma_release_owner_source(s, targets, d);
                }
            }
            assert(s.playlists[p].contains(d));
            assert(targets.contains(d));
        }
    }
    let t = activate_model(s, targets, p);
    lemma_own_all(r.owners, targets, p);
    assert forall|d: DisplayId| #[trigger] t.owners.contains_key(d) implies t.playlists.contains_key(
        t.owners[d],
    ) && t.playlists[t.owners[d]].contains(d) by {
        if !targets.contains(d) {
            assert(r.owners.contains_key(d));
        }
    }
    assert forall|q: i64, x: DisplayId|
        t.playlists.contains_key(q) && #[trigger] t.playlists[q].contains(x) implies t.owners.contains_key(
        x,
    ) && t.owners[x] == q by {
        if q != p {
            assert(r.playlists[q].contains(x));
            assert(!targets.contains(x));
        }
    }
}

/// A display owned after releasing some displays was owned, by the same
/// playlist, before.
proof fn lemma_release_owner_source(s: RegistryModel, ids: Seq<DisplayId>, d: DisplayId)
    ensures
        release_all(s, ids).owners.contains_key(d) ==> s.owners.contains_key(d) && s.owners[d]
            == release_all(s, ids).owners[d],
    decreases ids.len(),
{
    if ids.len() > 0 {
        lemma_release_owner_source(s, ids.drop_last(), d);
    }
}

/// A display that joins an existing session while in none keeps ownership
/// and membership in agreement, and belongs to that session afterwards.
pub proof fn lemma_join_keeps_sessions_consistent(s: RegistryModel, d: DisplayId, p: i64)
    requires
        consistent(s),
        !s.owners.contains_key(d),
        s.playlists.contains_key(p),
    ensures
        consistent(join_model(s, d, p)),
        join_model(s, d, p).owners[d] == p,
        join_model(s, d, p).playlists[p] == s.playlists[p].push(d),
{
    let t = join_model(s, d, p);
    assert forall|x: DisplayId| #[trigger] t.owners.contains_key(x) implies t.playlists.contains_key(
        t.owners[x],
    ) && t.playlists[t.owners[x]].contains(x) by {
        if x == d {
            assert(t.playlists[p][s.playlists[p].len() as int] == d);
        } else if s.owners[x] == p {
            let k = choose|k: int| 0 <= k < s.playlists[p].len() && s.playlists[p][k] == x;
            assert(t.playlists[p][k] == x);
        }
    }
    assert forall|q: i64, x: DisplayId|
        t.playlists.contains_key(q) && #[trigger] t.playlists[q].contains(x) implies t.owners.contains_key(
        x,
    ) && t.owners[x] == q by {
        if q == p {
            lemma_push_contains(s.playlists[p], d, x);
        }
    }
}

/// Ending a playlist's session releases all of its displays and ends the
/// session, keeping ownership and membership in agreement.
pub proof fn lemma_deactivate_ends_session(s: RegistryModel, p: i64)
    requires
        consistent(s),
        s.playlists.contains_key(p),
    ensures
        consistent(release_all(s, s.playlists[p])),
        !release_all(s, s.playlists[p]).playlists.contains_key(p),
        forall|d: DisplayId| #[trigger]
            s.playlists[p].contains(d) ==> !release_all(s, s.playlists[p]).owners.contains_key(d),
{
    lemma_release_keeps_sessions_consistent(s, s.playlists[p]);
    let r = release_all(s, s.playlists[p]);
    if r.playlists.contains_key(p) {
        let d = r.playlists[p][0];
        assert(r.playlists[p].contains(d));
        lemma_release_owner_source(s, s.playlists[p], d);
        assert(s.playlists[p].contains(d));
    }
}

/// The last wallpaper to resume a playlist with: the first display's
/// remembered wallpaper, in target order, that the playlist still holds.
pub open spec fn resume_choice(remembered: Seq<Option<String>>, items: Seq<Seq<char>>) -> Option<
    Seq<char>,
>
    decreases remembered.len(),
{
    if remembered.len() == 0 {
        None
    } else {
        match remembered[0] {
            Some(id) if items.contains(id@) => Some(id@),
            _ => resume_choice(remembered.drop_first(), items),
        }
    }
}

/// The wallpaper a playlist resumes with, when resuming is asked for and
/// the playlist is not shuffled: of the targets' remembered wallpapers, in
/// target order, the first one the playlist still holds.
pub fn resume_id(resume: bool, random: bool, remembered: &Vec<Option<String>>, items: &Vec<String>) -> (r:
    Option<String>)
    ensures
        !resume || random ==> r is None,
        resume && !random ==> match resume_choice(remembered@, strings_view(items@)) {
            Some(id) => r matches Some(s) && s@ == id,
            None => r is None,
        },
{
    if !resume || random {
        return None;
    }
    let mut i: usize = 0;
    assert(remembered@.subrange(0, remembered@.len() as int) =~= remembered@);
    while i < remembered.len()
        invariant
            resume && !random,
            i <= remembered@.len(),
            resume_choice(remembered@, strings_view(items@)) == resume_choice(
                remembered@.subrange(i as int, remembered@.len() as int),
                strings_view(items@),
            ),
        decreases remembered@.len() - i,
    {
        let ghost rest = remembered@.subrange(i as int, remembered@.len() as int);
        assert(rest[0] == remembered@[i as int]);
        assert(rest.drop_first() =~= remembered@.subrange(i + 1, remembered@.len() as int));
        if let Some(id) = &remembered[i] {
            if contains_string(items, id.as_str()) {
                return Some(id.clone());
            }
        }
        i = i + 1;
    }
    None
}

/// One display's view of the playlist it plays: `M` is the playlist's
/// ordering mode.
#[derive(Debug, Clone)]
pub struct DisplayStatus<M> {
    pub display_id: DisplayId,
    pub active_id: i64,
    pub mode: M,
    pub interval_secs: u32,
    pub current_id: Option<String>,
    pub position: u32,
    pub count: u32,
    pub remaining_secs: u32,
}

/// The characters of an optional string.
pub open spec fn opt_string_view(s: Option<String>) -> Option<Seq<char>> {
    match s {
        Some(x) => Some(x@),
        None => None,
    }
}

fn clone_opt(s: &Option<String>) -> (r: Option<String>)
    ensures
        opt_string_view(r) == opt_string_view(*s),
{
    match s {
        Some(x) => Some(x.clone()),
        None => None,
    }
}

/// The status of a shared session as each of its members sees it: one
/// entry per member, in member order, all with the session's playlist,
/// mode, interval, current wallpaper, position, count and remaining time.
pub fn fan_out_status<M: Copy>(
    members: &Vec<DisplayId>,
    active_id: i64,
    mode: M,
    interval_secs: u32,
    current_id: &Option<String>,
    position: u32,
    count: u32,
    remaining_secs: u32,
) -> (r: Vec<DisplayStatus<M>>)
    ensures
        r@.len() == members@.len(),
        forall|i: int|
            0 <= i < members@.len() ==> {
                let e = #[trigger] r@[i];
                &&& e.display_id == members@[i]
                &&& e.active_id == active_id
                &&& e.mode == mode
                &&& e.interval_secs == interval_secs
                &&& opt_string_view(e.current_id) == opt_string_view(*current_id)
                &&& e.position == position
                &&& e.count == count
                &&& e.remaining_secs == remaining_secs
            },
{
    let mut out: Vec<DisplayStatus<M>> = Vec::new();
    let mut i: usize = 0;
    while i < members.len()
        invariant
            i <= members@.len(),
            out@.len() == i,
            forall|j: int|
                0 <= j < i ==> {
                    let e = #[trigger] out@[j];
                    &&& e.display_id == members@[j]
                    &&& e.active_id == active_id
                    &&& e.mode == mode
                    &&& e.interval_secs == interval_secs
                    &&& opt_string_view(e.current_id) == opt_string_view(*current_id)
                    &&& e.position == position
                    &&& e.count == count
                    &&& e.remaining_secs == remaining_secs
                },
        decreases members@.len() - i,
    {
        out.push(
            DisplayStatus {
                display_id: members[i],
                active_id,
                mode,
                interval_secs,
                current_id: clone_opt(current_id),
                position,
                count,
                remaining_secs,
            },
        );
        i = i + 1;
    }
    out
}

/// How a playlist is started on displays.
pub enum ActivationPlan {
    /// There is no display to start it on.
    Nothing,
    /// Two or more displays share one session, so that they stay in step.
    Shared(Vec<DisplayId>),
    /// A single display gets a rotation of its own.
    Single(DisplayId),
}

/// The displays a playlist is started on: those asked for, or every
/// registered display when none is asked for; and whether they share a
/// session.
pub fn plan_activation(requested: &Vec<DisplayId>, registered: &Vec<DisplayId>) -> (r:
    ActivationPlan)
    ensures
        ({
            let targets = if requested@.len() > 0 {
                requested@
            } else {
                registered@
            };
            &&& targets.len() == 0 ==> r is Nothing
            &&& targets.len() == 1 ==> (r matches ActivationPlan::Single(d) && d == targets[0])
            &&& targets.len() >= 2 ==> (r matches ActivationPlan::Shared(t) && t@ == targets)
        }),
{
    let targets = if requested.len() > 0 {
        SessionRegistry::copy_ids(requested.as_slice())
    } else {
        SessionRegistry::copy_ids(registered.as_slice())
    };
    if targets.len() == 0 {
        ActivationPlan::Nothing
    } else if targets.len() == 1 {
        ActivationPlan::Single(targets[0])
    } else {
        ActivationPlan::Shared(targets)
    }
}

/// Whether a rebuilt playlist keeps showing `current`: only while it still
/// holds that wallpaper; otherwise it starts over from its first one.
pub fn keeps_current(current: &Option<String>, items: &Vec<String>) -> (r: bool)
    ensures
        r == (current matches Some(c) && strings_view(items@).contains(c@)),
{
    match current {
        Some(c) => contains_string(items, c.as_str()),
        None => false,
    }
}

} // verus!
