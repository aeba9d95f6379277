//! Committees: the storage nodes that are authoritative for one epoch, and
//! the shards each of them holds.

use crate::assignment::{all_in_range, first_unmarked, mark_shards};
use crate::identity::PublicKey;
use vstd::prelude::*;

verus! {

/// Number of one committee's reign. Epochs only grow.
pub type Epoch = u64;

/// Number of a shard, counted from zero.
pub type ShardIndex = u16;

/// One storage node of a committee.
#[derive(Debug)]
pub struct Member {
    /// The node's identity.
    pub public_key: PublicKey,
    /// Where the node can be reached.
    pub network_address: String,
    /// The shards assigned to the node, in the order of the assignment.
    pub shard_ids: Vec<ShardIndex>,
}

/// What a [`Member`] is, as a mathematical value.
pub ghost struct MemberView {
    pub public_key: Seq<u8>,
    pub network_address: Seq<char>,
    pub shard_ids: Seq<ShardIndex>,
}

impl View for Member {
    type V = MemberView;

    open spec fn view(&self) -> MemberView {
        MemberView {
            public_key: self.public_key@,
            network_address: self.network_address@,
            shard_ids: self.shard_ids@,
        }
    }
}

/// The members of a list, each as a mathematical value.
pub open spec fn members_view(members: Seq<Member>) -> Seq<MemberView> {
    Seq::new(members.len(), |i: int| members[i]@)
}

/// Position `p` of member `m`'s shard list exists.
pub open spec fn assigned_at(members: Seq<MemberView>, m: int, p: int) -> bool {
    0 <= m < members.len() && 0 <= p < members[m].shard_ids.len()
}

/// Position `p` of member `m`'s shard list holds `shard`.
pub open spec fn holds_at(members: Seq<MemberView>, m: int, p: int, shard: ShardIndex) -> bool {
    assigned_at(members, m, p) && members[m].shard_ids[p] == shard
}

/// Member `m` holds shard `shard`.
pub open spec fn member_holds(members: Seq<MemberView>, m: int, shard: ShardIndex) -> bool {
    exists|p: int| #[trigger] holds_at(members, m, p, shard)
}

/// Some member holds shard `shard`.
pub open spec fn shard_is_assigned(members: Seq<MemberView>, shard: ShardIndex) -> bool {
    exists|m: int, p: int| #[trigger] holds_at(members, m, p, shard)
}

/// Every assigned shard index lies below `n_shards`.
pub open spec fn shards_in_range(members: Seq<MemberView>, n_shards: u16) -> bool {
    forall|m: int, p: int, s: ShardIndex| #[trigger] holds_at(members, m, p, s) ==> s < n_shards
}

/// No shard index stands at two places of the assignment.
pub open spec fn shards_distinct(members: Seq<MemberView>) -> bool {
    forall|m1: int, p1: int, m2: int, p2: int, s: ShardIndex|
        #[trigger] holds_at(members, m1, p1, s) && #[trigger] holds_at(members, m2, p2, s) ==> m1
            == m2 && p1 == p2
}

/// Every shard below `n_shards` is held by some member.
pub open spec fn shards_covered(members: Seq<MemberView>, n_shards: u16) -> bool {
    forall|s: ShardIndex| s < n_shards ==> #[trigger] shard_is_assigned(members, s)
}

/// The shard lists of `members` split the shards `0 .. n_shards` among them:
/// each shard belongs to exactly one member.
pub open spec fn valid_assignment(members: Seq<MemberView>, n_shards: u16) -> bool {
    &&& n_shards > 0
    &&& shards_in_range(members, n_shards)
    &&& shards_distinct(members)
    &&& shards_covered(members, n_shards)
}

/// Some member of the list has the identity `key`.
pub open spec fn has_member(members: Seq<MemberView>, key: Seq<u8>) -> bool {
    exists|m: int| 0 <= m < members.len() && #[trigger] members[m].public_key == key
}

/// Compares two shard lists position by position.
pub fn shards_equal(a: &Vec<ShardIndex>, b: &Vec<ShardIndex>) -> (r: bool)
    ensures
        r == (a@ == b@),
{
    if a.len() != b.len() {
        return false;
    }
    let mut i: usize = 0;
    while i < a.len()
        invariant
            a.len() == b.len(),
            i <= a.len(),
            forall|j: int| 0 <= j < i ==> a@[j] == b@[j],
        decreases a.len() - i,
    {
        if a[i] != b[i] {
            return false;
        }
        i += 1;
    }
    assert(a@ =~= b@);
    true
}

impl Clone for Member {
    fn clone(&self) -> (r: Self)
        ensures
            r@ == self@,
    {
        let shard_ids = self.shard_ids.clone();
        assert(shard_ids@ =~= self.shard_ids@);
        Member {
            public_key: self.public_key.clone(),
            network_address: self.network_address.clone(),
            shard_ids,
        }
    }
}

impl PartialEq for Member {
    fn eq(&self, other: &Self) -> (r: bool) {
        self.public_key == other.public_key && self.network_address == other.network_address
            && shards_equal(&self.shard_ids, &other.shard_ids)
    }
}

impl Eq for Member {

}

impl vstd::std_specs::cmp::PartialEqSpecImpl for Member {
    open spec fn obeys_eq_spec() -> bool {
        true
    }

    open spec fn eq_spec(&self, other: &Self) -> bool {
        self@ == other@
    }
}

/// Why a list of members with their shards is no committee.
#[derive(Debug, Clone, Copy, PartialEq, Eq, Structural)]
pub enum InvalidCommittee {
    /// The epoch is the last one that can be written, so none could follow.
    EpochTooLarge,
    /// The shard space is empty.
    NoShards,
    /// A member is assigned a shard index outside the shard space.
    ShardOutOfRange,
    /// A shard is assigned more than once.
    ShardAssignedTwice,
    /// A shard of the shard space is assigned to no member.
    ShardUnassigned,
}

/// The first reason, in the order of [`InvalidCommittee`]'s variants, for which
/// `members` with `n_shards` shards is no committee of `epoch`; none when it
/// is one.
pub open spec fn assignment_fault(
    members: Seq<MemberView>,
    epoch: Epoch,
    n_shards: u16,
) -> Option<InvalidCommittee> {
    if epoch == u64::MAX {
        Some(InvalidCommittee::EpochTooLarge)
    } else if n_shards == 0 {
        Some(InvalidCommittee::NoShards)
    } else if !shards_in_range(members, n_shards) {
        Some(InvalidCommittee::ShardOutOfRange)
    } else if !shards_distinct(members) {
        Some(InvalidCommittee::ShardAssignedTwice)
    } else if !shards_covered(members, n_shards) {
        Some(InvalidCommittee::ShardUnassigned)
    } else {
        None
    }
}

/// The storage nodes that are authoritative for one epoch. A committee is a
/// value: a new epoch takes a new committee.
#[derive(Debug)]
pub struct Committee {
    members: Vec<Member>,
    epoch: Epoch,
    n_shards: u16,
}

/// What a [`Committee`] is, as a mathematical value.
pub ghost struct CommitteeView {
    pub epoch: Epoch,
    pub members: Seq<MemberView>,
    pub n_shards: u16,
}

impl CommitteeView {
    /// The shards `0 .. n_shards` are split among the members, and an epoch
    /// can follow this one.
    pub open spec fn valid(self) -> bool {
        self.epoch < u64::MAX && valid_assignment(self.members, self.n_shards)
    }

    /// Some member has the identity `key`.
    pub open spec fn contains(self, key: Seq<u8>) -> bool {
        has_member(self.members, key)
    }
}

impl View for Committee {
    type V = CommitteeView;

    closed spec fn view(&self) -> CommitteeView {
        CommitteeView {
            epoch: self.epoch,
            members: members_view(self.members@),
            n_shards: self.n_shards,
        }
    }
}

impl Committee {
    /// The invariant of a committee: each shard belongs to exactly one member,
    /// and the epoch is not the last one that can be written.
    pub open spec fn wf(&self) -> bool {
        self@.valid()
    }

    /// Makes the committee of `epoch` from its members, if their shard lists
    /// split the shards `0 .. n_shards` among them.
    pub fn new(members: Vec<Member>, epoch: Epoch, n_shards: u16) -> (r: Result<
        Committee,
        InvalidCommittee,
    >)
        ensures
            r is Ok <==> assignment_fault(members_view(members@), epoch, n_shards) is None,
            r matches Ok(c) ==> c.wf() && c@ == (CommitteeView {
                epoch,
                members: members_view(members@),
                n_shards,
            }),
            r matches Err(e) ==> assignment_fault(members_view(members@), epoch, n_shards) == Some(
                e,
            ),
    {
        let ghost mv = members_view(members@);
        if epoch == u64::MAX {
            return Err(InvalidCommittee::EpochTooLarge);
        }
        if n_shards == 0 {
            return Err(InvalidCommittee::NoShards);
        }
        if !all_in_range(&members, n_shards) {
            return Err(InvalidCommittee::ShardOutOfRange);
        }
        match mark_shards(&members, n_shards) {
            None => Err(InvalidCommittee::ShardAssignedTwice),
            Some(seen) => match first_unmarked(&seen) {
                Some(s) => {
                    assert(!shard_is_assigned(mv, s));
                    Err(InvalidCommittee::ShardUnassigned)
                },
                None => {
                    assert(shards_covered(mv, n_shards)) by {
                        assert forall|s: ShardIndex| s < n_shards implies #[trigger]
                            shard_is_assigned(mv, s) by {
                            assert(seen@[s as int]);
                        }
                    }
                    Ok(Committee { members, epoch, n_shards })
                },
            },
        }
    }

    /// The epoch that the committee is authoritative for.
    pub fn epoch(&self) -> (r: Epoch)
        ensures
            r == self@.epoch,
    {
        self.epoch
    }

    /// The number of shards of the shard space.
    pub fn n_shards(&self) -> (r: u16)
        ensures
            r == self@.n_shards,
    {
        self.n_shards
    }

    /// The members, in the committee's order.
    pub fn members(&self) -> (r: &Vec<Member>)
        ensures
            members_view(r@) == self@.members,
    {
        &self.members
    }

    /// The place of the first member with the identity `key`.
    pub fn find_member(&self, key: &PublicKey) -> (r: Option<usize>)
        ensures
            r is Some <==> self@.contains(key@),
            r matches Some(i) ==> i < self@.members.len() && self@.members[i as int].public_key
                == key@ && forall|j: int| 0 <= j < i ==> self@.members[j].public_key != key@,
    {
        let mut i: usize = 0;
        while i < self.members.len()
            invariant
                i <= self.members.len(),
                forall|j: int| 0 <= j < i ==> self@.members[j].public_key != key@,
            decreases self.members.len() - i,
        {
            if self.members[i].public_key == *key {
                assert(self@.members[i as int].public_key == key@);
                return Some(i);
            }
            i += 1;
        }
        None
    }

    /// Tells whether some member has the identity `key`.
    pub fn contains(&self, key: &PublicKey) -> (r: bool)
        ensures
            r == self@.contains(key@),
    {
        self.find_member(key).is_some()
    }

    /// The place of the member that holds `shard`: there is one for each shard
    /// of the shard space, and none for any other index.
    pub fn member_index_for_shard(&self, shard: ShardIndex) -> (r: Option<usize>)
        requires
            self.wf(),
        ensures
            r is Some <==> shard < self@.n_shards,
            r matches Some(i) ==> i < self@.members.len() && member_holds(
                self@.members,
                i as int,
                shard,
            ) && forall|j: int| member_holds(self@.members, j, shard) ==> j == i,
    {
        let ghost mv = self@.members;
        let mut m: usize = 0;
        while m < self.members.len()
            invariant
                m <= self.members.len(),
                mv == self@.members,
                self.wf(),
                forall|m1: int, p1: int| #[trigger] holds_at(mv, m1, p1, shard) ==> m1 >= m,
            decreases self.members.len() - m,
        {
            let ids = &self.members[m].shard_ids;
            let mut p: usize = 0;
            while p < ids.len()
                invariant
                    m < self.members.len(),
                    p <= ids.len(),
                    mv == self@.members,
                    ids@ == mv[m as int].shard_ids,
                    self.wf(),
                    forall|m1: int, p1: int| #[trigger]
                        holds_at(mv, m1, p1, shard) ==> m1 > m || (m1 == m && p1 >= p),
                decreases ids.len() - p,
            {
                if ids[p] == shard {
                    assert(holds_at(mv, m as int, p as int, shard));
                    assert forall|j: int| member_holds(mv, j, shard) implies j == m by {
                        let q = choose|q: int| #[trigger] holds_at(mv, j, q, shard);
                        assert(holds_at(mv, j, q, shard));
                    }
                    return Some(m);
                }
                p += 1;
            }
            m += 1;
        }
        assert(!shard_is_assigned(mv, shard));
        None
    }
}

impl Clone for Committee {
    fn clone(&self) -> (r: Self)
        ensures
            r@ == self@,
    {
        let mut members: Vec<Member> = Vec::new();
        let mut i: usize = 0;
        while i < self.members.len()
            invariant
                i <= self.members.len(),
                members@.len() == i,
                forall|j: int| 0 <= j < i ==> members@[j]@ == self.members@[j]@,
            decreases self.members.len() - i,
        {
            members.push(self.members[i].clone());
            i += 1;
        }
        assert(members_view(members@) =~= members_view(self.members@));
        Committee { members, epoch: self.epoch, n_shards: self.n_shards }
    }
}

impl PartialEq for Committee {
    fn eq(&self, other: &Self) -> (r: bool) {
        if self.epoch != other.epoch || self.n_shards != other.n_shards || self.members.len()
            != other.members.len() {
            assert(members_view(self.members@).len() == self.members.len());
            assert(members_view(other.members@).len() == other.members.len());
            return false;
        }
        let mut i: usize = 0;
        while i < self.members.len()
            invariant
                self.members.len() == other.members.len(),
                i <= self.members.len(),
                forall|j: int| 0 <= j < i ==> self.members@[j]@ == other.members@[j]@,
            decreases self.members.len() - i,
        {
            if self.members[i] != other.members[i] {
                assert(members_view(self.members@)[i as int] != members_view(other.members@)[i as int]);
                return false;
            }
            i += 1;
        }
        assert(members_view(self.members@) =~= members_view(other.members@));
        true
    }
}

impl Eq for Committee {

}

impl vstd::std_specs::cmp::PartialEqSpecImpl for Committee {
    open spec fn obeys_eq_spec() -> bool {
        true
    }

    open spec fn eq_spec(&self, other: &Self) -> bool {
        self@ == other@
    }
}

} // verus!
