//! The committee service: the committees at hand, the handles of their
//! members, and the protocol that changes the committee.
//!
//! The service owns its state. Whoever shares it between tasks puts it behind
//! a lock of its own and calls one function of the service at a time: each
//! function either does all of its work or leaves the state as it was.

use crate::active_committees::{ActiveCommittees, CommitteeTracker, TrackerView};
use crate::committee::{Committee, Epoch};
use crate::config::{CommitteeServiceConfig, EncodingConfig};
use crate::construction::{any_created, create_services_from_committee, with_created};
use crate::errors::AllServicesFailed;
use crate::identity::PublicKey;
use crate::randomness::{random_seed, rng_from_seed};
use crate::registry::ServiceRegistry;
use rand::rngs::StdRng;
use vstd::prelude::*;

verus! {

/// An optional identity, as a mathematical value.
pub open spec fn identity_view(identity: Option<PublicKey>) -> Option<Seq<u8>> {
    match identity {
        Some(key) => Some(key@),
        None => None,
    }
}

/// What a committee service is, as a mathematical value.
pub ghost struct ServiceView<T> {
    pub tracker: TrackerView,
    pub services: Map<Seq<u8>, T>,
    pub config: CommitteeServiceConfig,
    pub n_shards: u16,
    pub local_identity: Option<Seq<u8>>,
}

/// The state of the committee service that is shared with whatever sends
/// requests to the committee.
#[derive(Debug)]
pub struct NodeCommitteeServiceInner<T> {
    /// The committees at hand and the state of the change between them.
    pub committee_tracker: CommitteeTracker,
    /// The handles of the members of the committees at hand.
    pub services: ServiceRegistry<T>,
    /// Timeouts and limits of requests.
    pub config: CommitteeServiceConfig,
    /// The parameters of the encoding, which the whole system shares.
    pub encoding_config: EncodingConfig,
    /// Shared randomness.
    pub rng: StdRng,
    /// The identity of this node within and across committees.
    pub local_identity: Option<PublicKey>,
}

impl<T> View for NodeCommitteeServiceInner<T> {
    type V = ServiceView<T>;

    open spec fn view(&self) -> ServiceView<T> {
        ServiceView {
            tracker: self.committee_tracker@,
            services: self.services@,
            config: self.config,
            n_shards: self.encoding_config.spec_n_shards(),
            local_identity: identity_view(self.local_identity),
        }
    }
}

impl<T> NodeCommitteeServiceInner<T> {
    /// The invariant of the state.
    pub open spec fn wf(&self) -> bool {
        &&& self.committee_tracker.wf()
        &&& self.services.wf()
    }

    /// Makes the state from the committees that are tracked and from the
    /// outcomes of making a handle for each member of the current committee:
    /// `created[i]` is the handle that was made for the member at place `i`,
    /// or nothing where that failed. A member without a handle is passed over;
    /// one handle at least is needed.
    pub fn new(
        committee_tracker: CommitteeTracker,
        created: Vec<Option<T>>,
        config: CommitteeServiceConfig,
        encoding_config: EncodingConfig,
        local_identity: Option<PublicKey>,
        rng: StdRng,
    ) -> (r: Result<Self, AllServicesFailed>)
        requires
            committee_tracker.wf(),
            created@.len() == committee_tracker@.committees.current.members.len(),
        ensures
            r is Ok <==> any_created(created@),
            r matches Ok(inner) ==> inner.wf() && inner.rng == rng && inner@ == (ServiceView {
                tracker: committee_tracker@,
                services: with_created(
                    Map::<Seq<u8>, T>::empty(),
                    committee_tracker@.committees.current.members,
                    created@,
                    created@.len() as int,
                ),
                config,
                n_shards: encoding_config.spec_n_shards(),
                local_identity: identity_view(local_identity),
            }),
    {
        let current = committee_tracker.committees().current_committee();
        let services = match create_services_from_committee(current, created) {
            Ok(services) => services,
            Err(e) => {
                return Err(e);
            },
        };
        Ok(
            NodeCommitteeServiceInner {
                committee_tracker,
                services,
                config,
                encoding_config,
                rng,
                local_identity,
            },
        )
    }

    /// Tells whether `id` is the identity of this node.
    pub fn is_local(&self, id: &PublicKey) -> (r: bool)
        ensures
            r == (self@.local_identity == Some(id@)),
    {
        match &self.local_identity {
            Some(key) => *key == *id,
            None => false,
        }
    }
}

impl<T: Clone> NodeCommitteeServiceInner<T> {
    /// A clone of the handle of the node `id`, if the registry holds one.
    pub fn get_node_service_by_id(&self, id: &PublicKey) -> (r: Option<T>)
        requires
            self.wf(),
        ensures
            r is Some <==> self@.services.dom().contains(id@),
            r matches Some(service) ==> cloned(self@.services[id@], service),
    {
        self.services.get_cloned(id)
    }
}

/// What a builder holds, as a mathematical value.
pub ghost struct BuilderView {
    pub config: CommitteeServiceConfig,
    pub local_identity: Option<Seq<u8>>,
}

/// Collects what a [`NodeCommitteeService`] is made from.
#[derive(Debug)]
pub struct NodeCommitteeServiceBuilder {
    local_identity: Option<PublicKey>,
    rng: StdRng,
    config: CommitteeServiceConfig,
}

impl View for NodeCommitteeServiceBuilder {
    type V = BuilderView;

    closed spec fn view(&self) -> BuilderView {
        BuilderView { config: self.config, local_identity: identity_view(self.local_identity) }
    }
}

impl NodeCommitteeServiceBuilder {
    /// The generator that the service will be given.
    pub closed spec fn generator(&self) -> StdRng {
        self.rng
    }
}

impl Default for NodeCommitteeServiceBuilder {
    /// A builder without a local identity, with the default configuration and
    /// with a generator that is seeded at random.
    fn default() -> (r: Self)
        ensures
            r@ == (BuilderView {
                config: CommitteeServiceConfig::spec_default(),
                local_identity: None,
            }),
    {
        NodeCommitteeServiceBuilder {
            local_identity: None,
            rng: rng_from_seed(random_seed()),
            config: CommitteeServiceConfig::default(),
        }
    }
}

impl NodeCommitteeServiceBuilder {
    /// Sets the identity of this node.
    pub fn local_identity(self, id: PublicKey) -> (r: Self)
        ensures
            r@ == (BuilderView { config: self@.config, local_identity: Some(id@) }),
            r.generator() == self.generator(),
    {
        NodeCommitteeServiceBuilder { local_identity: Some(id), rng: self.rng, config: self.config }
    }

    /// Sets the configuration of requests.
    pub fn config(self, config: CommitteeServiceConfig) -> (r: Self)
        ensures
            r@ == (BuilderView { config, local_identity: self@.local_identity }),
            r.generator() == self.generator(),
    {
        NodeCommitteeServiceBuilder { local_identity: self.local_identity, rng: self.rng, config }
    }

    /// Sets the generator of the shared randomness.
    pub fn randomness(self, rng: StdRng) -> (r: Self)
        ensures
            r@ == self@,
            r.generator() == rng,
    {
        NodeCommitteeServiceBuilder { local_identity: self.local_identity, rng, config: self.config }
    }

    /// Makes the service from the committees that the lookup gave and from the
    /// outcomes of making a handle for each member of the current committee.
    /// The encoding is that of the current committee's number of shards.
    pub fn build<T>(self, committees: ActiveCommittees, created: Vec<Option<T>>) -> (r: Result<NodeCommitteeService<T>, AllServicesFailed>)
        requires
            committees.wf(),
            created@.len() == committees@.current.members.len(),
        ensures
            r is Ok <==> any_created(created@),
            r matches Ok(service) ==> service.wf() && service.inner.rng == self.generator()
                && service@ == (ServiceView {
                tracker: TrackerView { committees: committees@, change_in_progress: false },
                services: with_created(
                    Map::<Seq<u8>, T>::empty(),
                    committees@.current.members,
                    created@,
                    created@.len() as int,
                ),
                config: self@.config,
                n_shards: committees@.current.n_shards,
                local_identity: self@.local_identity,
            }),
    {
        let committee_tracker = CommitteeTracker::new(committees);
        let encoding_config = EncodingConfig::new(
            committee_tracker.committees().current_committee().n_shards(),
        );
        match NodeCommitteeServiceInner::new(
            committee_tracker,
            created,
            self.config,
            encoding_config,
            self.local_identity,
            self.rng,
        ) {
            Ok(inner) => Ok(NodeCommitteeService { inner }),
            Err(e) => Err(e),
        }
    }
}

/// The committee service of a storage node.
#[derive(Debug)]
pub struct NodeCommitteeService<T> {
    /// The state that is shared with whatever sends requests.
    pub inner: NodeCommitteeServiceInner<T>,
}

impl<T> View for NodeCommitteeService<T> {
    type V = ServiceView<T>;

    open spec fn view(&self) -> ServiceView<T> {
        self.inner@
    }
}

impl<T> NodeCommitteeService<T> {
    /// The invariant of the service.
    pub open spec fn wf(&self) -> bool {
        self.inner.wf()
    }

    /// A builder with a generator that is seeded at random.
    pub fn builder() -> (r: NodeCommitteeServiceBuilder)
        ensures
            r@ == (BuilderView {
                config: CommitteeServiceConfig::spec_default(),
                local_identity: None,
            }),
    {
        NodeCommitteeServiceBuilder::default()
    }

    /// Makes the service of the node `local_identity` from the committees that
    /// the lookup gave and from the outcomes of making a handle for each
    /// member of the current committee.
    pub fn new(
        committees: ActiveCommittees,
        created: Vec<Option<T>>,
        local_identity: PublicKey,
        config: CommitteeServiceConfig,
    ) -> (r: Result<Self, AllServicesFailed>)
        requires
            committees.wf(),
            created@.len() == committees@.current.members.len(),
        ensures
            r is Ok <==> any_created(created@),
            r matches Ok(service) ==> service.wf() && service@ == (ServiceView {
                tracker: TrackerView { committees: committees@, change_in_progress: false },
                services: with_created(
                    Map::<Seq<u8>, T>::empty(),
                    committees@.current.members,
                    created@,
                    created@.len() as int,
                ),
                config,
                n_shards: committees@.current.n_shards,
                local_identity: Some(local_identity@),
            }),
    {
        Self::builder().local_identity(local_identity).config(config).build(committees, created)
    }

    /// The current epoch.
    pub fn get_epoch(&self) -> (r: Epoch)
        ensures
            r == self@.tracker.committees.epoch(),
    {
        self.inner.committee_tracker.committees().epoch()
    }

    /// The number of shards of the encoding.
    pub fn get_shard_count(&self) -> (r: u16)
        ensures
            r == self@.n_shards,
    {
        self.inner.encoding_config.n_shards()
    }

    /// The parameters of the encoding.
    pub fn encoding_config(&self) -> (r: &EncodingConfig)
        ensures
            r.spec_n_shards() == self@.n_shards,
    {
        &self.inner.encoding_config
    }

    /// The committee of the current epoch.
    pub fn committee(&self) -> (r: Committee)
        ensures
            r@ == self@.tracker.committees.current,
    {
        self.inner.committee_tracker.committees().current_committee().clone()
    }

    /// The committees at hand.
    pub fn active_committees(&self) -> (r: ActiveCommittees)
        ensures
            r@ == self@.tracker.committees,
    {
        self.inner.committee_tracker.committees().clone()
    }

    /// Tells whether the node `public_key` is a storage node of the network:
    /// a member of the previous, the current or the next committee.
    pub fn is_walrus_storage_node(&self, public_key: &PublicKey) -> (r: bool)
        ensures
            r == self@.tracker.committees.contains(public_key@),
    {
        self.inner.committee_tracker.committees().contains(public_key)
    }
}

} // verus!
