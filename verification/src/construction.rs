//! Filling a registry with the handles that were made for a committee.
//!
//! Making a handle for a storage node may take long and may fail, so it is
//! done by the caller, member by member. What is decided here is what becomes
//! of the outcomes.

use crate::committee::{members_view, Committee, MemberView};
use crate::errors::AllServicesFailed;
use crate::registry::ServiceRegistry;
use vstd::prelude::*;

verus! {

/// The registry `base` after the outcomes for the first `n` members were taken
/// in, in the members' order: a handle that was made is entered under the
/// member's identity, in place of any earlier one; a failure is passed over.
pub open spec fn with_created<T>(
    base: Map<Seq<u8>, T>,
    members: Seq<MemberView>,
    outcomes: Seq<Option<T>>,
    n: int,
) -> Map<Seq<u8>, T>
    decreases n,
{
    if n <= 0 {
        base
    } else {
        let before = with_created(base, members, outcomes, n - 1);
        match outcomes[n - 1] {
            Some(service) => before.insert(members[n - 1].public_key, service),
            None => before,
        }
    }
}

/// A handle was made for one of the first `n` members.
pub open spec fn created_among<T>(outcomes: Seq<Option<T>>, n: int) -> bool {
    exists|i: int| 0 <= i < n && i < outcomes.len() && (#[trigger] outcomes[i]) is Some
}

/// A handle was made for at least one member.
pub open spec fn any_created<T>(outcomes: Seq<Option<T>>) -> bool {
    created_among(outcomes, outcomes.len() as int)
}

/// Where no handle was made, the registry stays as it was.
pub proof fn lemma_none_created<T>(
    base: Map<Seq<u8>, T>,
    members: Seq<MemberView>,
    outcomes: Seq<Option<T>>,
    n: int,
)
    requires
        0 <= n <= outcomes.len(),
        !created_among(outcomes, n),
    ensures
        with_created(base, members, outcomes, n) == base,
    decreases n,
{
    if n > 0 {
        assert(!created_among(outcomes, n - 1)) by {
            if created_among(outcomes, n - 1) {
                let i = choose|i: int|
                    0 <= i < n - 1 && i < outcomes.len() && (#[trigger] outcomes[i]) is Some;
                assert(outcomes[i] is Some);
            }
        }
        lemma_none_created(base, members, outcomes, n - 1);
        assert(outcomes[n - 1] is None);
    }
}

/// A handle was made for the member at place `i`, whose identity is `key`.
pub open spec fn is_created_at<T>(
    members: Seq<MemberView>,
    outcomes: Seq<Option<T>>,
    i: int,
    key: Seq<u8>,
) -> bool {
    0 <= i < members.len() && i < outcomes.len() && outcomes[i] is Some && members[i].public_key
        == key
}

/// A handle was made for one of the first `n` members with the identity `key`.
pub open spec fn created_for<T>(
    members: Seq<MemberView>,
    outcomes: Seq<Option<T>>,
    n: int,
    key: Seq<u8>,
) -> bool {
    exists|i: int| 0 <= i < n && #[trigger] is_created_at(members, outcomes, i, key)
}

/// The number of handles that were made for the first `n` members.
pub open spec fn created_count<T>(outcomes: Seq<Option<T>>, n: int) -> nat
    decreases n,
{
    if n <= 0 {
        0
    } else {
        created_count(outcomes, n - 1) + if outcomes[n - 1] is Some {
            1nat
        } else {
            0nat
        }
    }
}

/// No two members have the same identity.
pub open spec fn distinct_members(members: Seq<MemberView>) -> bool {
    forall|i: int, j: int|
        0 <= i < j < members.len() ==> #[trigger] members[i].public_key
            != #[trigger] members[j].public_key
}

/// After the outcomes were taken in, a node has a handle exactly if it had one
/// before or one was made for it.
pub proof fn lemma_created_dom<T>(
    base: Map<Seq<u8>, T>,
    members: Seq<MemberView>,
    outcomes: Seq<Option<T>>,
    n: int,
    key: Seq<u8>,
)
    requires
        0 <= n <= outcomes.len(),
        n <= members.len(),
    ensures
        with_created(base, members, outcomes, n).dom().contains(key) <==> base.dom().contains(key)
            || created_for(members, outcomes, n, key),
    decreases n,
{
    if n > 0 {
        lemma_created_dom(base, members, outcomes, n - 1, key);
        if created_for(members, outcomes, n, key) {
            let i = choose|i: int| 0 <= i < n && #[trigger] is_created_at(members, outcomes, i, key);
            if i < n - 1 {
                assert(is_created_at(members, outcomes, i, key));
            }
        }
        if created_for(members, outcomes, n - 1, key) {
            let i = choose|i: int|
                0 <= i < n - 1 && #[trigger] is_created_at(members, outcomes, i, key);
            assert(is_created_at(members, outcomes, i, key));
        }
        if is_created_at(members, outcomes, n - 1, key) {
            assert(created_for(members, outcomes, n, key));
        }
    }
}

/// Where no two members have the same identity, the handle that was made for
/// a member is the one that the registry holds for it.
pub proof fn lemma_created_value<T>(
    base: Map<Seq<u8>, T>,
    members: Seq<MemberView>,
    outcomes: Seq<Option<T>>,
    n: int,
    i: int,
)
    requires
        0 <= i < n <= outcomes.len(),
        n <= members.len(),
        distinct_members(members),
        outcomes[i] is Some,
    ensures
        with_created(base, members, outcomes, n).dom().contains(members[i].public_key),
        with_created(base, members, outcomes, n)[members[i].public_key] == outcomes[i]->Some_0,
    decreases n,
{
    if i < n - 1 {
        lemma_created_value(base, members, outcomes, n - 1, i);
        assert(members[i].public_key != members[n - 1].public_key);
    }
}

/// Where no two members have the same identity, a registry that was empty
/// holds as many handles as were made.
pub proof fn lemma_created_len<T>(members: Seq<MemberView>, outcomes: Seq<Option<T>>, n: int)
    requires
        0 <= n <= outcomes.len(),
        n <= members.len(),
        distinct_members(members),
    ensures
        with_created(Map::<Seq<u8>, T>::empty(), members, outcomes, n).dom().finite(),
        with_created(Map::<Seq<u8>, T>::empty(), members, outcomes, n).dom().len()
            == created_count(outcomes, n),
    decreases n,
{
    if n > 0 {
        lemma_created_len(members, outcomes, n - 1);
        let key = members[n - 1].public_key;
        let before = with_created(Map::<Seq<u8>, T>::empty(), members, outcomes, n - 1);
        lemma_created_dom(Map::<Seq<u8>, T>::empty(), members, outcomes, n - 1, key);
        if created_for(members, outcomes, n - 1, key) {
            let i = choose|i: int|
                0 <= i < n - 1 && #[trigger] is_created_at(members, outcomes, i, key);
            assert(members[i].public_key != members[n - 1].public_key);
        }
        assert(!before.dom().contains(key));
    }
}

/// Tells whether a handle was made for at least one member.
pub fn any_service_created<T>(outcomes: &Vec<Option<T>>) -> (r: bool)
    ensures
        r == any_created(outcomes@),
{
    let mut i: usize = 0;
    while i < outcomes.len()
        invariant
            i <= outcomes@.len(),
            !created_among(outcomes@, i as int),
        decreases outcomes@.len() - i,
    {
        if outcomes[i].is_some() {
            assert(outcomes@[i as int] is Some);
            return true;
        }
        assert(!created_among(outcomes@, i + 1)) by {
            if created_among(outcomes@, i + 1) {
                let j = choose|j: int|
                    0 <= j < i + 1 && j < outcomes@.len() && (#[trigger] outcomes@[j]) is Some;
                assert(outcomes@[j] is Some);
            }
        }
        i += 1;
    }
    false
}

/// Takes the outcomes of making a handle for each member of `committee` into
/// `services`: `outcomes[i]` is the handle that was made for the member at
/// place `i`, or nothing where that failed. A failure is passed over. The
/// whole fails only where no handle was made at all.
pub fn add_members_from_committee<T>(
    services: &mut ServiceRegistry<T>,
    committee: &Committee,
    outcomes: Vec<Option<T>>,
) -> (r: Result<(), AllServicesFailed>)
    requires
        old(services).wf(),
        outcomes@.len() == committee@.members.len(),
    ensures
        final(services).wf(),
        final(services)@ == with_created(
            old(services)@,
            committee@.members,
            outcomes@,
            outcomes@.len() as int,
        ),
        r is Ok <==> any_created(outcomes@),
        r is Err ==> final(services)@ == old(services)@,
{
    let members = committee.members();
    let ghost mv = committee@.members;
    let ghost outs = outcomes@;
    let ghost base = services@;
    let total: usize = outcomes.len();
    let mut n_created: usize = 0;
    let mut i: usize = 0;
    for outcome in it: outcomes
        invariant
            i == it.index(),
            it.seq() == outs,
            members_view(members@) == mv,
            outs.len() == mv.len(),
            outs.len() == total,
            services.wf(),
            services@ == with_created(base, mv, outs, i as int),
            n_created <= i,
            n_created > 0 <==> created_among(outs, i as int),
    {
        assert(i < outs.len() && outcome == outs[i as int]);
        match outcome {
            Some(service) => {
                n_created += 1;
                services.insert(members[i].public_key.clone(), service);
            },
            None => {
                assert(!created_among(outs, i + 1) || created_among(outs, i as int)) by {
                    if created_among(outs, i + 1) {
                        let j = choose|j: int|
                            0 <= j < i + 1 && j < outs.len() && (#[trigger] outs[j]) is Some;
                        assert(outs[j] is Some);
                    }
                }
            },
        }
        i += 1;
    }
    if n_created == 0 {
        proof {
            lemma_none_created(base, mv, outs, outs.len() as int);
        }
        Err(AllServicesFailed)
    } else {
        Ok(())
    }
}

/// Makes the registry of the handles that were made for the members of
/// `committee`. Fails where no handle was made at all.
pub fn create_services_from_committee<T>(committee: &Committee, outcomes: Vec<Option<T>>) -> (r:
    Result<ServiceRegistry<T>, AllServicesFailed>)
    requires
        outcomes@.len() == committee@.members.len(),
    ensures
        r is Ok <==> any_created(outcomes@),
        r matches Ok(services) ==> services.wf() && services@ == with_created(
            Map::<Seq<u8>, T>::empty(),
            committee@.members,
            outcomes@,
            outcomes@.len() as int,
        ),
{
    let mut services = ServiceRegistry::new();
    match add_members_from_committee(&mut services, committee, outcomes) {
        Ok(()) => Ok(services),
        Err(e) => Err(e),
    }
}

} // verus!
