//! The two steps that change the committee: to begin the change, and to end
//! it.
//!
//! The steps are apart because the members of the new committee must be
//! reachable before the epoch advances: while the change is under way both
//! committees are at hand, so that shards can move from the old one to the new
//! one.

use crate::active_committees::{ActiveCommittees, TrackerView};
use crate::committee::{has_member, members_view, Committee, CommitteeView, Epoch, MemberView};
use crate::committee_service::{identity_view, NodeCommitteeService, ServiceView};
use crate::construction::{
    any_created, any_service_created, create_services_from_committee, with_created,
};
use crate::errors::{BeginCommitteeChangeError, EndCommitteeChangeError};
use vstd::prelude::*;

verus! {

/// Why a change to `new_epoch` cannot begin in `current_epoch`; nothing where
/// `new_epoch` is the epoch after `current_epoch`.
pub open spec fn begin_epoch_fault(current_epoch: Epoch, new_epoch: Epoch) -> Option<
    BeginCommitteeChangeError,
> {
    if new_epoch > current_epoch + 1 {
        Some(
            BeginCommitteeChangeError::EpochIsNotSequential {
                expected: (current_epoch + 1) as Epoch,
                actual: new_epoch,
            },
        )
    } else if new_epoch == current_epoch {
        Some(BeginCommitteeChangeError::EpochIsTheSameAsCurrent)
    } else if new_epoch < current_epoch {
        Some(
            BeginCommitteeChangeError::EpochIsLess {
                expected: (current_epoch + 1) as Epoch,
                actual: new_epoch,
            },
        )
    } else {
        None
    }
}

/// The service after the change to `committee` was begun with the handles of
/// `outcomes`. Where a handle was made and no change was under way, the
/// committee is the next one, the change is under way, and the handles have
/// joined the registry, each in place of the one its node had. Otherwise
/// nothing has changed.
pub open spec fn after_begin<T>(
    service: ServiceView<T>,
    committee: CommitteeView,
    outcomes: Seq<Option<T>>,
) -> ServiceView<T> {
    if any_created(outcomes) && !service.tracker.change_in_progress {
        ServiceView {
            tracker: service.tracker.with_next(committee).after_start_change(),
            services: service.services.union_prefer_right(
                with_created(
                    Map::<Seq<u8>, T>::empty(),
                    committee.members,
                    outcomes,
                    outcomes.len() as int,
                ),
            ),
            config: service.config,
            n_shards: service.n_shards,
            local_identity: service.local_identity,
        }
    } else {
        service
    }
}

/// What a change to `committee` with the handles of `outcomes` asks of the
/// service. There is one outcome for each member. Where a handle was made, the
/// committee is that of the next epoch, and where the next committee is known
/// already, it is that one: the committee of an epoch never changes once it
/// was seen. Where no handle was made the tracker is not looked at.
pub open spec fn may_begin<T>(
    service: ServiceView<T>,
    committee: CommitteeView,
    outcomes: Seq<Option<T>>,
) -> bool {
    &&& outcomes.len() == committee.members.len()
    &&& any_created(outcomes) ==> {
        &&& committee.epoch == service.tracker.next_epoch()
        &&& (service.tracker.committees.next matches Some(known) ==> known == committee)
    }
}

/// Why the change cannot end at `epoch`; nothing where `epoch` is the current
/// epoch and a change is under way.
pub open spec fn end_fault(tracker: TrackerView, epoch: Epoch) -> Option<EndCommitteeChangeError> {
    let current = tracker.committees.epoch();
    if epoch > current {
        Some(EndCommitteeChangeError::ProvidedEpochIsInTheFuture { provided: epoch, expected: current })
    } else if epoch < current {
        Some(EndCommitteeChangeError::ProvidedEpochIsInThePast { provided: epoch, expected: current })
    } else if !tracker.change_in_progress {
        Some(EndCommitteeChangeError::EpochChangeAlreadyDone)
    } else {
        None
    }
}

/// One of the first `n` members has the identity `key`.
pub open spec fn among_first(members: Seq<MemberView>, n: int, key: Seq<u8>) -> bool {
    exists|m: int| 0 <= m < n && m < members.len() && #[trigger] members[m].public_key == key
}

/// The identities of those among the first `n` members of `outgoing` that are
/// no members of `current`.
pub open spec fn exclusive_among(
    outgoing: Seq<MemberView>,
    current: Seq<MemberView>,
    n: int,
) -> Set<Seq<u8>> {
    Set::new(|key: Seq<u8>| among_first(outgoing, n, key) && !has_member(current, key))
}

/// The identities of the members of `outgoing` that are no members of
/// `current`.
pub open spec fn exclusive_keys(outgoing: Seq<MemberView>, current: Seq<MemberView>) -> Set<
    Seq<u8>,
> {
    Set::new(|key: Seq<u8>| has_member(outgoing, key) && !has_member(current, key))
}

/// The service after the change was ended at `epoch`. Where that was due, the
/// next committee is the current one, the one that was current is the previous
/// one, and the nodes that were members of the retired committee alone have
/// left the registry. Otherwise nothing has changed.
pub open spec fn after_end<T>(service: ServiceView<T>, epoch: Epoch) -> ServiceView<T> {
    if end_fault(service.tracker, epoch) is None && service.tracker.committees.next is Some {
        ServiceView {
            tracker: service.tracker.after_end_change(),
            services: service.services.remove_keys(
                exclusive_keys(
                    service.tracker.committees.current.members,
                    service.tracker.committees.next->Some_0.members,
                ),
            ),
            config: service.config,
            n_shards: service.n_shards,
            local_identity: service.local_identity,
        }
    } else {
        service
    }
}

/// Taking one more member into account adds its identity, where it is no
/// member of `current`.
pub proof fn lemma_exclusive_step(outgoing: Seq<MemberView>, current: Seq<MemberView>, n: int)
    requires
        0 <= n < outgoing.len(),
    ensures
        has_member(current, outgoing[n].public_key) ==> exclusive_among(outgoing, current, n + 1)
            == exclusive_among(outgoing, current, n),
        !has_member(current, outgoing[n].public_key) ==> exclusive_among(outgoing, current, n + 1)
            == exclusive_among(outgoing, current, n).insert(outgoing[n].public_key),
{
    let k = outgoing[n].public_key;
    assert forall|key: Seq<u8>|
        among_first(outgoing, n + 1, key) <==> among_first(outgoing, n, key) || key == k by {
        if among_first(outgoing, n + 1, key) {
            let m = choose|m: int|
                0 <= m < n + 1 && m < outgoing.len() && #[trigger] outgoing[m].public_key == key;
            if m < n {
                assert(outgoing[m].public_key == key);
            }
        }
        if among_first(outgoing, n, key) {
            let m = choose|m: int|
                0 <= m < n && m < outgoing.len() && #[trigger] outgoing[m].public_key == key;
            assert(outgoing[m].public_key == key);
        }
        if key == k {
            assert(outgoing[n].public_key == key);
        }
    }
    if has_member(current, k) {
        assert(exclusive_among(outgoing, current, n + 1) =~= exclusive_among(outgoing, current, n));
    } else {
        assert(exclusive_among(outgoing, current, n + 1) =~= exclusive_among(
            outgoing,
            current,
            n,
        ).insert(k));
    }
}

/// Once every member is taken into account, the identities are those of the
/// members of `outgoing` that are no members of `current`.
pub proof fn lemma_exclusive_all(outgoing: Seq<MemberView>, current: Seq<MemberView>)
    ensures
        exclusive_among(outgoing, current, 0) == Set::<Seq<u8>>::empty(),
        exclusive_among(outgoing, current, outgoing.len() as int) == exclusive_keys(
            outgoing,
            current,
        ),
{
    assert(exclusive_among(outgoing, current, 0) =~= Set::<Seq<u8>>::empty());
    let n = outgoing.len() as int;
    assert forall|key: Seq<u8>| among_first(outgoing, n, key) <==> has_member(outgoing, key) by {
        if among_first(outgoing, n, key) {
            let m = choose|m: int|
                0 <= m < n && m < outgoing.len() && #[trigger] outgoing[m].public_key == key;
            assert(outgoing[m].public_key == key);
        }
        if has_member(outgoing, key) {
            let m = choose|m: int| 0 <= m < outgoing.len() && #[trigger] outgoing[m].public_key == key;
            assert(outgoing[m].public_key == key);
        }
    }
    assert(exclusive_among(outgoing, current, n) =~= exclusive_keys(outgoing, current));
}

/// Tells what the lookup of the latest committees means for a change to
/// `expected_epoch`: the committee to change to, if the lookup succeeded and
/// its current committee is that of `expected_epoch`.
pub fn latest_committee_for_change(
    expected_epoch: Epoch,
    lookup: Result<ActiveCommittees, String>,
) -> (r: Result<Committee, BeginCommitteeChangeError>)
    ensures
        match lookup {
            Err(account) => r == Err::<Committee, BeginCommitteeChangeError>(
                BeginCommitteeChangeError::LookupError(account),
            ),
            Ok(latest) => if latest@.current.epoch == expected_epoch {
                r matches Ok(committee) && committee@ == latest@.current
            } else {
                r matches Err(
                    BeginCommitteeChangeError::LatestCommitteeEpochDiffers {
                        latest_committee,
                        expected_epoch: expected,
                    },
                ) && latest_committee@ == latest@.current && expected == expected_epoch
            },
        },
{
    match lookup {
        Err(account) => Err(BeginCommitteeChangeError::LookupError(account)),
        Ok(latest) => {
            let committee = latest.into_current();
            if committee.epoch() != expected_epoch {
                Err(
                    BeginCommitteeChangeError::LatestCommitteeEpochDiffers {
                        latest_committee: committee,
                        expected_epoch,
                    },
                )
            } else {
                Ok(committee)
            }
        },
    }
}

impl<T> NodeCommitteeService<T> {
    /// Tells whether a change to `new_epoch` may begin: only the epoch after
    /// the current one will do. Gives the epoch whose committee is to be
    /// looked up.
    pub fn begin_committee_change(&self, new_epoch: Epoch) -> (r: Result<
        Epoch,
        BeginCommitteeChangeError,
    >)
        requires
            self.wf(),
        ensures
            r is Ok <==> new_epoch == self@.tracker.next_epoch(),
            r == match begin_epoch_fault(self@.tracker.committees.epoch(), new_epoch) {
                Some(fault) => Err::<Epoch, BeginCommitteeChangeError>(fault),
                None => Ok::<Epoch, BeginCommitteeChangeError>(new_epoch),
            },
    {
        let current_epoch: Epoch = self.get_epoch();
        let expected_next_epoch: Epoch = self.inner.committee_tracker.next_epoch();
        if new_epoch > expected_next_epoch {
            Err(
                BeginCommitteeChangeError::EpochIsNotSequential {
                    expected: expected_next_epoch,
                    actual: new_epoch,
                },
            )
        } else if new_epoch == current_epoch {
            Err(BeginCommitteeChangeError::EpochIsTheSameAsCurrent)
        } else if new_epoch < current_epoch {
            Err(
                BeginCommitteeChangeError::EpochIsLess {
                    expected: expected_next_epoch,
                    actual: new_epoch,
                },
            )
        } else {
            Ok(expected_next_epoch)
        }
    }

    /// Tells whether the change to `next_committee` with the handles of
    /// `outcomes` may be asked for: whether they meet what
    /// [`Self::begin_committee_change_to`] asks of its caller.
    pub fn may_begin_committee_change_to(
        &self,
        next_committee: &Committee,
        outcomes: &Vec<Option<T>>,
    ) -> (r: bool)
        requires
            self.wf(),
        ensures
            r == may_begin(self@, next_committee@, outcomes@),
    {
        let members = next_committee.members();
        assert(members_view(members@).len() == members@.len());
        if outcomes.len() != members.len() {
            return false;
        }
        if !any_service_created(outcomes) {
            return true;
        }
        if next_committee.epoch() != self.inner.committee_tracker.next_epoch() {
            return false;
        }
        match self.inner.committee_tracker.committees().next_committee() {
            Some(known) => *known == *next_committee,
            None => true,
        }
    }

    /// Begins the change to `next_committee`, the committee of the next epoch,
    /// with the outcomes of making a handle for each of its members. The
    /// committee is recorded as the next one, the change is marked as under
    /// way, and the handles join the registry. Where no handle was made, or a
    /// change is under way already, nothing changes and the handles are
    /// dropped.
    ///
    /// The committee of an epoch never changes once it was seen: where a
    /// handle was made and the next committee is known already,
    /// `next_committee` must be that one.
    pub fn begin_committee_change_to(
        &mut self,
        next_committee: Committee,
        outcomes: Vec<Option<T>>,
    ) -> (r: Result<(), BeginCommitteeChangeError>)
        requires
            old(self).wf(),
            next_committee.wf(),
            may_begin(old(self)@, next_committee@, outcomes@),
        ensures
            final(self).wf(),
            final(self)@ == after_begin(old(self)@, next_committee@, outcomes@),
            final(self).inner.rng == old(self).inner.rng,
            r is Ok <==> any_created(outcomes@) && !old(self)@.tracker.change_in_progress,
            !any_created(outcomes@) ==> r == Err::<(), BeginCommitteeChangeError>(
                BeginCommitteeChangeError::AllServicesFailed,
            ),
            any_created(outcomes@) && old(self)@.tracker.change_in_progress ==> r == Err::<
                (),
                BeginCommitteeChangeError,
            >(BeginCommitteeChangeError::ChangeAlreadyInProgress),
    {
        let new_services = match create_services_from_committee(&next_committee, outcomes) {
            Ok(services) => services,
            Err(_) => {
                return Err(BeginCommitteeChangeError::AllServicesFailed);
            },
        };
        let _ = self.inner.committee_tracker.set_committee_for_next_epoch(next_committee);
        match self.inner.committee_tracker.start_change() {
            Ok(()) => {
                self.inner.services.extend(new_services);
                Ok(())
            },
            Err(_) => Err(BeginCommitteeChangeError::ChangeAlreadyInProgress),
        }
    }

    /// Ends the change of committee at `epoch`, which must be the current
    /// epoch.
    pub fn end_committee_change(&mut self, epoch: Epoch) -> (r: Result<(), EndCommitteeChangeError>)
        requires
            old(self).wf(),
        ensures
            final(self).wf(),
            final(self)@ == after_end(old(self)@, epoch),
            final(self).inner.rng == old(self).inner.rng,
            r == match end_fault(old(self)@.tracker, epoch) {
                Some(fault) => Err::<(), EndCommitteeChangeError>(fault),
                None => Ok::<(), EndCommitteeChangeError>(()),
            },
    {
        self.end_committee_change_to(epoch)
    }

    /// Ends the change of committee at `epoch`, which must be the current
    /// epoch: the next committee becomes the current one, and the nodes that
    /// were members of the retired committee but are none of the new one leave
    /// the registry. A node that serves the new committee stays, also where it
    /// served the old one.
    pub fn end_committee_change_to(&mut self, epoch: Epoch) -> (r: Result<
        (),
        EndCommitteeChangeError,
    >)
        requires
            old(self).wf(),
        ensures
            final(self).wf(),
            final(self)@ == after_end(old(self)@, epoch),
            final(self).inner.rng == old(self).inner.rng,
            r == match end_fault(old(self)@.tracker, epoch) {
                Some(fault) => Err::<(), EndCommitteeChangeError>(fault),
                None => Ok::<(), EndCommitteeChangeError>(()),
            },
    {
        let current_epoch: Epoch = self.get_epoch();
        if epoch > current_epoch {
            return Err(
                EndCommitteeChangeError::ProvidedEpochIsInTheFuture {
                    provided: epoch,
                    expected: current_epoch,
                },
            );
        }
        if epoch < current_epoch {
            return Err(
                EndCommitteeChangeError::ProvidedEpochIsInThePast {
                    provided: epoch,
                    expected: current_epoch,
                },
            );
        }
        let retired = match self.inner.committee_tracker.end_change() {
            Ok(retired) => retired,
            Err(_) => {
                return Err(EndCommitteeChangeError::EpochChangeAlreadyDone);
            },
        };
        let ghost before = old(self)@;
        let ghost outgoing_view = before.tracker.committees.current.members;
        let ghost current_view = before.tracker.committees.next->Some_0.members;
        proof {
            lemma_exclusive_all(outgoing_view, current_view);
            assert(before.services.remove_keys(exclusive_among(outgoing_view, current_view, 0))
                =~= before.services);
        }
        let outgoing = retired.members();
        let mut i: usize = 0;
        while i < outgoing.len()
            invariant
                i <= outgoing@.len(),
                members_view(outgoing@) == outgoing_view,
                self.inner.committee_tracker.wf(),
                self.inner.committee_tracker@ == before.tracker.after_end_change(),
                self.inner.committee_tracker@.committees.current.members == current_view,
                self.inner.services.wf(),
                self.inner.services@ == before.services.remove_keys(
                    exclusive_among(outgoing_view, current_view, i as int),
                ),
                self.inner.config == before.config,
                self.inner.encoding_config.spec_n_shards() == before.n_shards,
                identity_view(self.inner.local_identity) == before.local_identity,
                self.inner.rng == old(self).inner.rng,
            decreases outgoing@.len() - i,
        {
            let key = &outgoing[i].public_key;
            proof {
                lemma_exclusive_step(outgoing_view, current_view, i as int);
            }
            if !self.inner.committee_tracker.committees().current_committee().contains(key) {
                self.inner.services.remove(key);
                assert(before.services.remove_keys(
                    exclusive_among(outgoing_view, current_view, i as int),
                ).remove(key@) =~= before.services.remove_keys(
                    exclusive_among(outgoing_view, current_view, i + 1),
                ));
            }
            i += 1;
        }
        Ok(())
    }
}

} // verus!
