//! Timeouts and limits of the requests that are sent to a committee.

use vstd::prelude::*;

verus! {

/// Timeouts and limits, read by whatever sends requests to committee members.
/// Times are in milliseconds.
#[derive(Debug, Clone, Copy, PartialEq, Eq, Structural)]
pub struct CommitteeServiceConfig {
    /// The shortest pause before a request is tried again.
    pub retry_interval_min_ms: u64,
    /// The longest pause before a request is tried again.
    pub retry_interval_max_ms: u64,
    /// How long a request for metadata may take.
    pub metadata_request_timeout_ms: u64,
    /// How many requests for metadata may be under way at once.
    pub max_concurrent_metadata_requests: u32,
    /// How long a request for a sliver may take.
    pub sliver_request_timeout_ms: u64,
    /// How long a request to attest an invalid blob may take.
    pub invalidity_sync_timeout_ms: u64,
    /// How long making a handle for a storage node may take.
    pub node_connect_timeout_ms: u64,
}

impl CommitteeServiceConfig {
    /// The configuration that is used where none is given.
    pub open spec fn spec_default() -> CommitteeServiceConfig {
        CommitteeServiceConfig {
            retry_interval_min_ms: 1_000,
            retry_interval_max_ms: 3_600_000,
            metadata_request_timeout_ms: 5_000,
            max_concurrent_metadata_requests: 1,
            sliver_request_timeout_ms: 300_000,
            invalidity_sync_timeout_ms: 300_000,
            node_connect_timeout_ms: 1_000,
        }
    }
}

impl Default for CommitteeServiceConfig {
    fn default() -> (r: Self)
        ensures
            r == CommitteeServiceConfig::spec_default(),
    {
        CommitteeServiceConfig {
            retry_interval_min_ms: 1_000,
            retry_interval_max_ms: 3_600_000,
            metadata_request_timeout_ms: 5_000,
            max_concurrent_metadata_requests: 1,
            sliver_request_timeout_ms: 300_000,
            invalidity_sync_timeout_ms: 300_000,
            node_connect_timeout_ms: 1_000,
        }
    }
}

/// The parameters of the encoding that the whole system shares. They follow
/// from the number of shards.
#[derive(Debug, Clone, Copy, PartialEq, Eq, Structural)]
pub struct EncodingConfig {
    n_shards: u16,
}

impl EncodingConfig {
    /// The number of shards, as a mathematical value.
    pub closed spec fn spec_n_shards(&self) -> u16 {
        self.n_shards
    }

    /// The parameters for `n_shards` shards, of which there is at least one.
    pub fn new(n_shards: u16) -> (r: Self)
        requires
            n_shards > 0,
        ensures
            r.spec_n_shards() == n_shards,
    {
        EncodingConfig { n_shards }
    }

    /// The number of shards.
    pub fn n_shards(&self) -> (r: u16)
        ensures
            r == self.spec_n_shards(),
    {
        self.n_shards
    }
}

} // verus!
