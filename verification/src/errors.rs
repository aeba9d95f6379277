//! What the committee service answers when it cannot do what was asked.

use crate::committee::{Committee, Epoch};
use vstd::prelude::*;

verus! {

/// No handle could be made for any member of a committee.
#[derive(Debug, Clone, Copy, PartialEq, Eq, Structural)]
pub struct AllServicesFailed;

impl AllServicesFailed {
    /// The error in words.
    pub fn message(&self) -> (r: &'static str)
        ensures
            r@ == "failed to create any service from the committee"@,
    {
        "failed to create any service from the committee"
    }
}

/// Why a change of committee could not begin.
#[derive(Debug, PartialEq, Eq)]
pub enum BeginCommitteeChangeError {
    /// The epoch asked for lies beyond the next epoch.
    EpochIsNotSequential { expected: Epoch, actual: Epoch },
    /// The epoch asked for is the current epoch.
    EpochIsTheSameAsCurrent,
    /// The epoch asked for lies before the current epoch.
    EpochIsLess { expected: Epoch, actual: Epoch },
    /// The committee that the lookup gave is not that of the next epoch.
    LatestCommitteeEpochDiffers { latest_committee: Committee, expected_epoch: Epoch },
    /// A change of committee is already under way.
    ChangeAlreadyInProgress,
    /// No handle could be made for any member of the new committee.
    AllServicesFailed,
    /// The lookup of the committee failed, with this account of it.
    LookupError(String),
}

/// Why a change of committee could not end.
#[derive(Debug, Clone, Copy, PartialEq, Eq, Structural)]
pub enum EndCommitteeChangeError {
    /// No change is under way: it has ended already.
    EpochChangeAlreadyDone,
    /// The epoch given lies after the current epoch.
    ProvidedEpochIsInTheFuture { provided: Epoch, expected: Epoch },
    /// The epoch given lies before the current epoch.
    ProvidedEpochIsInThePast { provided: Epoch, expected: Epoch },
}

/// What a request to a storage node failed with: an answer of the node itself,
/// or anything else on the way to it.
#[derive(Debug, PartialEq, Eq)]
pub enum NodeServiceError {
    /// The node answered with an error, with this account of it.
    Node(String),
    /// The request failed otherwise, with this account of it.
    Other(String),
}

/// Why the contents of a shard could not be fetched from the node that held it.
#[derive(Debug, PartialEq, Eq)]
pub enum SyncShardClientError {
    /// No node is known to fetch from, or no handle could be made for it.
    NoSyncClient,
    /// The node answered the request with an error, with this account of it.
    RequestError(String),
    /// The request failed otherwise, with this account of it.
    Other(String),
}

} // verus!
