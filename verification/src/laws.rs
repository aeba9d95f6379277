//! What holds of the committee service whatever it is asked: the laws of the
//! change of committee, proved from the definitions that the contracts use.

use crate::active_committees::{StartChangeError, TrackerView};
use crate::committee::{has_member, CommitteeView, Epoch, MemberView};
use crate::committee_change::{after_begin, after_end, begin_epoch_fault, end_fault};
use crate::committee_service::ServiceView;
use crate::construction::{
    any_created, created_count, created_for, distinct_members, is_created_at, lemma_created_dom,
    lemma_created_len, lemma_created_value, with_created,
};
use crate::errors::BeginCommitteeChangeError;
use vstd::prelude::*;

verus! {

/// A change of committee may begin only towards the epoch after the current
/// one. An epoch beyond it is not sequential, the current epoch is the same as
/// the current one, and an epoch before it is less.
pub proof fn law_begin_only_next_epoch(current_epoch: Epoch, new_epoch: Epoch)
    requires
        current_epoch < u64::MAX,
    ensures
        begin_epoch_fault(current_epoch, new_epoch) is None <==> new_epoch == current_epoch + 1,
        new_epoch > current_epoch + 1 ==> begin_epoch_fault(current_epoch, new_epoch) == Some(
            BeginCommitteeChangeError::EpochIsNotSequential {
                expected: (current_epoch + 1) as Epoch,
                actual: new_epoch,
            },
        ),
        new_epoch == current_epoch ==> begin_epoch_fault(current_epoch, new_epoch) == Some(
            BeginCommitteeChangeError::EpochIsTheSameAsCurrent,
        ),
        new_epoch < current_epoch ==> begin_epoch_fault(current_epoch, new_epoch) == Some(
            BeginCommitteeChangeError::EpochIsLess {
                expected: (current_epoch + 1) as Epoch,
                actual: new_epoch,
            },
        ),
{
}

/// A tracker is in exactly one of three states: stable, with the next
/// committee known, or changing.
pub proof fn law_one_state(tracker: TrackerView)
    requires
        tracker.valid(),
    ensures
        tracker.is_stable() || tracker.is_next_known() || tracker.is_changing(),
        !(tracker.is_stable() && tracker.is_next_known()),
        !(tracker.is_stable() && tracker.is_changing()),
        !(tracker.is_next_known() && tracker.is_changing()),
        tracker.is_next_known() ==> tracker.after_start_change().is_changing(),
        tracker.is_changing() ==> tracker.after_end_change().is_stable(),
{
}

/// Of two attempts in a row to start the change, at most one succeeds, and
/// the one after a success is told that a change is in progress. Where the
/// next committee is known and no change is under way, the first succeeds.
pub proof fn law_start_change_once(tracker: TrackerView)
    requires
        tracker.valid(),
    ensures
        tracker.after_start_change().valid(),
        !(tracker.start_change_outcome() is Ok
            && tracker.after_start_change().start_change_outcome() is Ok),
        tracker.start_change_outcome() is Ok
            ==> tracker.after_start_change().start_change_outcome() == Err::<(), StartChangeError>(
            StartChangeError::ChangeInProgress,
        ),
        tracker.is_next_known() ==> tracker.start_change_outcome() is Ok,
{
}

/// A failed attempt to start or to end the change leaves the tracker as it
/// was.
pub proof fn law_failed_step_changes_nothing(tracker: TrackerView)
    requires
        tracker.valid(),
    ensures
        tracker.start_change_outcome() is Err ==> tracker.after_start_change() == tracker,
        !tracker.change_in_progress ==> tracker.after_end_change() == tracker,
{
}

/// After the change to a committee was begun with success, the registry holds
/// a handle for every member for which one was made, and the current epoch is
/// what it was: the epoch advances only when the change ends. Where no two
/// members have the same identity, the handle held for a member is the one
/// that was made for it.
pub proof fn law_begin_registers_members<T>(
    service: ServiceView<T>,
    committee: CommitteeView,
    outcomes: Seq<Option<T>>,
    i: int,
)
    requires
        service.tracker.valid(),
        outcomes.len() == committee.members.len(),
        any_created(outcomes),
        !service.tracker.change_in_progress,
        0 <= i < outcomes.len(),
        outcomes[i] is Some,
    ensures
        after_begin(service, committee, outcomes).services.dom().contains(
            committee.members[i].public_key,
        ),
        distinct_members(committee.members) ==> after_begin(
            service,
            committee,
            outcomes,
        ).services[committee.members[i].public_key] == outcomes[i]->Some_0,
        after_begin(service, committee, outcomes).tracker.committees.epoch()
            == service.tracker.committees.epoch(),
        after_begin(service, committee, outcomes).tracker.committees.current
            == service.tracker.committees.current,
        after_begin(service, committee, outcomes).tracker.change_in_progress,
        after_begin(service, committee, outcomes).tracker.committees.next is Some,
        service.tracker.committees.next is None ==> after_begin(
            service,
            committee,
            outcomes,
        ).tracker.committees.next == Some(committee),
        forall|key: Seq<u8>|
            service.services.dom().contains(key) ==> #[trigger] after_begin(
                service,
                committee,
                outcomes,
            ).services.dom().contains(key),
{
    let key = committee.members[i].public_key;
    let n = outcomes.len() as int;
    lemma_created_dom(Map::<Seq<u8>, T>::empty(), committee.members, outcomes, n, key);
    assert(is_created_at(committee.members, outcomes, i, key));
    if distinct_members(committee.members) {
        lemma_created_value(Map::<Seq<u8>, T>::empty(), committee.members, outcomes, n, i);
    }
}

/// A change that cannot begin, for want of a handle or because one is under
/// way, leaves the service as it was.
pub proof fn law_failed_begin_changes_nothing<T>(
    service: ServiceView<T>,
    committee: CommitteeView,
    outcomes: Seq<Option<T>>,
)
    requires
        !any_created(outcomes) || service.tracker.change_in_progress,
    ensures
        after_begin(service, committee, outcomes) == service,
{
}

/// After the change was ended at the current epoch, the current committee is
/// the one that was next, the previous committee is the one that was current,
/// no next committee is known and no change is under way. The registry holds
/// no handle for a node that was a member of the retired committee alone, and
/// every other handle is as it was.
pub proof fn law_end_promotes<T>(service: ServiceView<T>, epoch: Epoch)
    requires
        service.tracker.valid(),
        end_fault(service.tracker, epoch) is None,
    ensures
        epoch == service.tracker.committees.epoch(),
        service.tracker.committees.next is Some,
        after_end(service, epoch).tracker.valid(),
        after_end(service, epoch).tracker.committees.current
            == service.tracker.committees.next->Some_0,
        after_end(service, epoch).tracker.committees.previous == Some(
            service.tracker.committees.current,
        ),
        after_end(service, epoch).tracker.committees.next is None,
        !after_end(service, epoch).tracker.change_in_progress,
        after_end(service, epoch).tracker.committees.epoch() == epoch + 1,
        forall|key: Seq<u8>|
            has_member(service.tracker.committees.current.members, key) && !has_member(
                service.tracker.committees.next->Some_0.members,
                key,
            ) ==> !(#[trigger] after_end(service, epoch).services.dom().contains(key)),
        forall|key: Seq<u8>|
            service.services.dom().contains(key) && (has_member(
                service.tracker.committees.next->Some_0.members,
                key,
            ) || !has_member(service.tracker.committees.current.members, key)) ==> (
            #[trigger] after_end(service, epoch).services.dom().contains(key)) && after_end(
                service,
                epoch,
            ).services[key] == service.services[key],
{
}

/// An attempt to end the change that is not due, at another epoch than the
/// current one or with no change under way, leaves the service as it was.
pub proof fn law_failed_end_changes_nothing<T>(service: ServiceView<T>, epoch: Epoch)
    requires
        end_fault(service.tracker, epoch) is Some,
    ensures
        after_end(service, epoch) == service,
{
}

/// To offer the same committee for the next epoch a second time changes
/// nothing.
pub proof fn law_set_next_idempotent(tracker: TrackerView, committee: CommitteeView)
    ensures
        tracker.with_next(committee).with_next(committee) == tracker.with_next(committee),
        tracker.committees.next == Some(committee) ==> tracker.with_next(committee) == tracker,
        tracker.committees.next is None ==> tracker.with_next(committee).committees.next == Some(
            committee,
        ),
{
}

/// The number of handles that were made where exactly the member at place
/// `missing` got none.
pub proof fn lemma_count_one_missing<T>(outcomes: Seq<Option<T>>, missing: int, n: int)
    requires
        0 <= missing < outcomes.len(),
        0 <= n <= outcomes.len(),
        forall|i: int| 0 <= i < outcomes.len() ==> ((#[trigger] outcomes[i]) is None <==> i == missing),
    ensures
        created_count(outcomes, n) == if missing < n {
            n - 1
        } else {
            n
        },
    decreases n,
{
    if n > 0 {
        lemma_count_one_missing(outcomes, missing, n - 1);
        assert(outcomes[n - 1] is None <==> n - 1 == missing);
    }
}

/// Where handles are made for a committee of at least two members with
/// distinct identities and exactly one attempt fails, the attempt as a whole
/// succeeds, and a registry that was empty holds one handle for each of the
/// other members.
pub proof fn law_one_failure_leaves_the_rest<T>(
    members: Seq<MemberView>,
    outcomes: Seq<Option<T>>,
    missing: int,
)
    requires
        members.len() == outcomes.len(),
        outcomes.len() >= 2,
        distinct_members(members),
        0 <= missing < outcomes.len(),
        forall|i: int| 0 <= i < outcomes.len() ==> ((#[trigger] outcomes[i]) is None <==> i == missing),
    ensures
        any_created(outcomes),
        with_created(
            Map::<Seq<u8>, T>::empty(),
            members,
            outcomes,
            outcomes.len() as int,
        ).dom().finite(),
        with_created(
            Map::<Seq<u8>, T>::empty(),
            members,
            outcomes,
            outcomes.len() as int,
        ).dom().len() == outcomes.len() - 1,
        !with_created(
            Map::<Seq<u8>, T>::empty(),
            members,
            outcomes,
            outcomes.len() as int,
        ).dom().contains(members[missing].public_key),
        forall|i: int|
            0 <= i < outcomes.len() && i != missing ==> with_created(
                Map::<Seq<u8>, T>::empty(),
                members,
                outcomes,
                outcomes.len() as int,
            ).dom().contains(#[trigger] members[i].public_key) && with_created(
                Map::<Seq<u8>, T>::empty(),
                members,
                outcomes,
                outcomes.len() as int,
            )[members[i].public_key] == outcomes[i]->Some_0,
{
    let n = outcomes.len() as int;
    let empty = Map::<Seq<u8>, T>::empty();
    lemma_created_len(members, outcomes, n);
    lemma_count_one_missing(outcomes, missing, n);
    let other = if missing == 0 { 1int } else { 0int };
    assert(outcomes[other] is Some);
    lemma_not_created_for_missing(members, outcomes, missing);
    lemma_created_dom(empty, members, outcomes, n, members[missing].public_key);
    assert forall|i: int| 0 <= i < outcomes.len() && i != missing implies with_created(
        empty,
        members,
        outcomes,
        n,
    ).dom().contains(#[trigger] members[i].public_key) && with_created(empty, members, outcomes, n)[
        members[i].public_key] == outcomes[i]->Some_0 by {
        assert(outcomes[i] is Some);
        lemma_created_value(empty, members, outcomes, n, i);
    }
}

/// Where no two members have the same identity and the member at place
/// `missing` got no handle, no handle was made for its identity.
pub proof fn lemma_not_created_for_missing<T>(
    members: Seq<MemberView>,
    outcomes: Seq<Option<T>>,
    missing: int,
)
    requires
        members.len() == outcomes.len(),
        distinct_members(members),
        0 <= missing < outcomes.len(),
        outcomes[missing] is None,
    ensures
        !created_for(members, outcomes, outcomes.len() as int, members[missing].public_key),
{
    let key = members[missing].public_key;
    if created_for(members, outcomes, outcomes.len() as int, key) {
        let i = choose|i: int|
            0 <= i < outcomes.len() && #[trigger] is_created_at(members, outcomes, i, key);
        if i < missing {
            assert(members[i].public_key != members[missing].public_key);
        } else if missing < i {
            assert(members[missing].public_key != members[i].public_key);
        }
    }
}

/// Where a change begins to a committee of at least two members with distinct
/// identities, none of which has a handle yet, and exactly one attempt to make
/// a handle fails, the change is under way, the registry has gained the
/// handles of the other members and no more, the member whose attempt failed
/// has no handle, and every handle that was held before is held as it was.
pub proof fn law_begin_one_failure<T>(
    service: ServiceView<T>,
    committee: CommitteeView,
    outcomes: Seq<Option<T>>,
    missing: int,
)
    requires
        !service.tracker.change_in_progress,
        committee.members.len() == outcomes.len(),
        outcomes.len() >= 2,
        distinct_members(committee.members),
        0 <= missing < outcomes.len(),
        forall|i: int| 0 <= i < outcomes.len() ==> ((#[trigger] outcomes[i]) is None <==> i == missing),
        forall|i: int|
            0 <= i < outcomes.len() ==> !service.services.dom().contains(
                #[trigger] committee.members[i].public_key,
            ),
    ensures
        any_created(outcomes),
        after_begin(service, committee, outcomes).tracker.change_in_progress,
        !after_begin(service, committee, outcomes).services.dom().contains(
            committee.members[missing].public_key,
        ),
        forall|i: int|
            0 <= i < outcomes.len() && i != missing ==> after_begin(
                service,
                committee,
                outcomes,
            ).services.dom().contains(#[trigger] committee.members[i].public_key) && after_begin(
                service,
                committee,
                outcomes,
            ).services[committee.members[i].public_key] == outcomes[i]->Some_0,
        forall|key: Seq<u8>|
            service.services.dom().contains(key) ==> (#[trigger] after_begin(
                service,
                committee,
                outcomes,
            ).services.dom().contains(key)) && after_begin(service, committee, outcomes).services[key]
                == service.services[key],
        forall|key: Seq<u8>|
            (#[trigger] after_begin(service, committee, outcomes).services.dom().contains(key))
                ==> service.services.dom().contains(key) || created_for(
                committee.members,
                outcomes,
                outcomes.len() as int,
                key,
            ),
        service.services.dom().finite() ==> after_begin(
            service,
            committee,
            outcomes,
        ).services.dom().finite() && after_begin(service, committee, outcomes).services.dom().len()
            == service.services.dom().len() + outcomes.len() - 1,
{
    let n = outcomes.len() as int;
    let members = committee.members;
    let empty = Map::<Seq<u8>, T>::empty();
    let created = with_created(empty, members, outcomes, n);
    let after = after_begin(service, committee, outcomes).services;
    law_one_failure_leaves_the_rest(members, outcomes, missing);
    assert(after == service.services.union_prefer_right(created));
    assert forall|key: Seq<u8>| created.dom().contains(key) implies !service.services.dom().contains(
        key,
    ) by {
        lemma_created_dom(empty, members, outcomes, n, key);
        let i = choose|i: int| 0 <= i < n && #[trigger] is_created_at(members, outcomes, i, key);
        assert(!service.services.dom().contains(members[i].public_key));
    }
    assert forall|key: Seq<u8>| #[trigger] after.dom().contains(key) implies service.services.dom().contains(
        key,
    ) || created_for(members, outcomes, n, key) by {
        lemma_created_dom(empty, members, outcomes, n, key);
    }
    if service.services.dom().finite() {
        assert(after.dom() =~= service.services.dom() + created.dom());
        assert(service.services.dom().disjoint(created.dom()));
        vstd::set_lib::lemma_set_disjoint_lens(service.services.dom(), created.dom());
    }
}

/// Where every attempt to make a handle fails, the attempt as a whole fails.
pub proof fn law_all_failures_fail<T>(outcomes: Seq<Option<T>>)
    requires
        forall|i: int| 0 <= i < outcomes.len() ==> (#[trigger] outcomes[i]) is None,
    ensures
        !any_created(outcomes),
{
}

} // verus!
