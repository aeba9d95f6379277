//! Handing a shard over: finding the node that held a shard in the epoch
//! before, and reading what it answers.
//!
//! The request itself is sent by the caller. Nothing is tried again here: a
//! failure goes back to the caller, who decides.

use crate::active_committees::ActiveCommitteesView;
use crate::committee::{member_holds, CommitteeView, Epoch, Member, ShardIndex};
use crate::committee_service::NodeCommitteeService;
use crate::errors::{NodeServiceError, SyncShardClientError};
use vstd::prelude::*;

verus! {

/// The committee that held the shards before `current_epoch`: that of the
/// epoch before it, as far as the window holds it. No epoch lies before the
/// first.
pub open spec fn sync_committee(committees: ActiveCommitteesView, current_epoch: Epoch) -> Option<
    CommitteeView,
> {
    if current_epoch == 0 {
        None
    } else {
        committees.committee_for_epoch((current_epoch - 1) as Epoch)
    }
}

/// The node to fetch a shard from, with a handle for it where the registry
/// holds one. Where it holds none, a handle is still to be made.
#[derive(Debug, PartialEq, Eq)]
pub struct ShardSyncSource<T> {
    /// The member that held the shard.
    pub member: Member,
    /// A handle for that member, if the registry holds one.
    pub service: Option<T>,
}

impl<T: Clone> NodeCommitteeService<T> {
    /// Finds the node from which `shard` is to be fetched as of
    /// `current_epoch`: the member that held it in the epoch before. Fails
    /// where the committee of that epoch is not at hand.
    ///
    /// `shard` must be a shard of that committee.
    pub fn sync_shard_as_of_epoch(&self, shard: ShardIndex, current_epoch: Epoch) -> (r: Result<
        ShardSyncSource<T>,
        SyncShardClientError,
    >)
        requires
            self.wf(),
            sync_committee(self@.tracker.committees, current_epoch) matches Some(committee)
                ==> shard < committee.n_shards,
        ensures
            match sync_committee(self@.tracker.committees, current_epoch) {
                None => r matches Err(SyncShardClientError::NoSyncClient),
                Some(committee) => r matches Ok(source) && (exists|m: int|
                    member_holds(committee.members, m, shard) && #[trigger] committee.members[m]
                        == source.member@) && (source.service is Some
                    <==> self@.services.dom().contains(source.member@.public_key)) && (
                source.service matches Some(service) ==> cloned(
                    self@.services[source.member@.public_key],
                    service,
                )),
            },
    {
        if current_epoch == 0 {
            return Err(SyncShardClientError::NoSyncClient);
        }
        let committee = match self.inner.committee_tracker.committees().committee_for_epoch(
            current_epoch - 1,
        ) {
            Some(committee) => committee,
            None => {
                return Err(SyncShardClientError::NoSyncClient);
            },
        };
        match committee.member_index_for_shard(shard) {
            Some(index) => {
                let member = committee.members()[index].clone();
                let service = self.inner.services.get_cloned(&member.public_key);
                assert(committee@.members[index as int] == member@);
                Ok(ShardSyncSource { member, service })
            },
            None => {
                assert(false);
                Err(SyncShardClientError::NoSyncClient)
            },
        }
    }
}

/// Tells what the attempt to make a handle for the node of a shard means: the
/// handle, or that there is no node to fetch from.
pub fn created_sync_service<T>(outcome: Option<T>) -> (r: Result<T, SyncShardClientError>)
    ensures
        match outcome {
            Some(service) => r == Ok::<T, SyncShardClientError>(service),
            None => r == Err::<T, SyncShardClientError>(SyncShardClientError::NoSyncClient),
        },
{
    match outcome {
        Some(service) => Ok(service),
        None => Err(SyncShardClientError::NoSyncClient),
    }
}

/// Reads the answer to the request for a shard: what the node sent, or what
/// the request failed with, told apart by whether the node itself answered.
pub fn sync_shard_response<V>(response: Result<V, NodeServiceError>) -> (r: Result<
    V,
    SyncShardClientError,
>)
    ensures
        match response {
            Ok(slivers) => r == Ok::<V, SyncShardClientError>(slivers),
            Err(NodeServiceError::Node(account)) => r == Err::<V, SyncShardClientError>(
                SyncShardClientError::RequestError(account),
            ),
            Err(NodeServiceError::Other(account)) => r == Err::<V, SyncShardClientError>(
                SyncShardClientError::Other(account),
            ),
        },
{
    match response {
        Ok(slivers) => Ok(slivers),
        Err(NodeServiceError::Node(account)) => Err(SyncShardClientError::RequestError(account)),
        Err(NodeServiceError::Other(account)) => Err(SyncShardClientError::Other(account)),
    }
}

} // verus!
