use committee_service::active_committees::{ActiveCommittees, CommitteeTracker};
use committee_service::committee::{Committee, Member};
use committee_service::committee_change::latest_committee_for_change;
use committee_service::committee_service::{
    NodeCommitteeService, NodeCommitteeServiceBuilder, NodeCommitteeServiceInner,
};
use committee_service::config::{CommitteeServiceConfig, EncodingConfig};
use committee_service::construction::{
    add_members_from_committee, any_service_created, create_services_from_committee,
};
use committee_service::errors::{
    AllServicesFailed, BeginCommitteeChangeError, EndCommitteeChangeError, NodeServiceError,
    SyncShardClientError,
};
use committee_service::identity::PublicKey;
use committee_service::registry::ServiceRegistry;
use committee_service::shard_sync::{created_sync_service, sync_shard_response, ShardSyncSource};

fn key(byte: u8) -> PublicKey {
    PublicKey::new(vec![byte; 48])
}

fn member(byte: u8, shards: &[u16]) -> Member {
    Member {
        public_key: key(byte),
        network_address: format!("node-{byte}.example:9185"),
        shard_ids: shards.to_vec(),
    }
}

const A: u8 = 1;
const B: u8 = 2;
const C: u8 = 3;

fn c0() -> Committee {
    Committee::new(vec![member(A, &[0, 1, 2, 3, 4]), member(B, &[5, 6, 7, 8, 9])], 0, 10).unwrap()
}

fn c1() -> Committee {
    Committee::new(vec![member(A, &[0, 2, 4, 6, 8]), member(C, &[1, 3, 5, 7, 9])], 1, 10).unwrap()
}

fn c2() -> Committee {
    Committee::new(vec![member(A, &[0, 1, 2]), member(C, &[3, 4, 5, 6, 7, 8, 9])], 2, 10).unwrap()
}

fn window(current: Committee) -> ActiveCommittees {
    ActiveCommittees::new(current, None, None).unwrap()
}

/// A service at epoch 0 with the handles "a0" and "b0".
fn service() -> NodeCommitteeService<String> {
    NodeCommitteeServiceBuilder::default()
        .local_identity(key(A))
        .build(window(c0()), vec![Some("a0".to_string()), Some("b0".to_string())])
        .unwrap()
}

fn handle(service: &NodeCommitteeService<String>, byte: u8) -> Option<String> {
    service.inner.get_node_service_by_id(&key(byte))
}

#[test]
fn registry_starts_empty() {
    let registry: ServiceRegistry<u32> = ServiceRegistry::new();
    assert_eq!(registry.len(), 0);
    assert_eq!(registry.get(&key(1)), None);
    assert!(!registry.contains_key(&key(1)));
    assert!(registry.keys().is_empty());
}

#[test]
fn registry_insert_replaces() {
    let mut registry = ServiceRegistry::new();
    assert_eq!(registry.insert(key(1), 10u32), None);
    assert_eq!(registry.insert(key(2), 20), None);
    assert_eq!(registry.insert(key(1), 11), Some(10));
    assert_eq!(registry.len(), 2);
    assert_eq!(registry.get(&key(1)), Some(&11));
    assert_eq!(registry.get(&key(2)), Some(&20));
    assert_eq!(registry.get_cloned(&key(2)), Some(20));
    assert_eq!(registry.get_cloned(&key(3)), None);
    assert!(registry.contains_key(&key(2)));
}

#[test]
fn registry_remove_takes_one_entry() {
    let mut registry = ServiceRegistry::new();
    registry.insert(key(1), 10u32);
    registry.insert(key(2), 20);
    registry.insert(key(3), 30);
    assert_eq!(registry.remove(&key(2)), Some(20));
    assert_eq!(registry.remove(&key(2)), None);
    assert_eq!(registry.remove(&key(9)), None);
    assert_eq!(registry.len(), 2);
    assert_eq!(registry.get(&key(1)), Some(&10));
    assert_eq!(registry.get(&key(3)), Some(&30));
    assert_eq!(registry.keys().len(), 2);
    assert!(registry.keys().contains(&key(1)));
    assert!(registry.keys().contains(&key(3)));
}

#[test]
fn registry_extend_prefers_the_new_handles() {
    let mut registry = ServiceRegistry::new();
    registry.insert(key(1), 10u32);
    registry.insert(key(2), 20);
    let mut other = ServiceRegistry::new();
    other.insert(key(2), 21);
    other.insert(key(3), 31);
    registry.extend(other);
    assert_eq!(registry.len(), 3);
    assert_eq!(registry.get(&key(1)), Some(&10));
    assert_eq!(registry.get(&key(2)), Some(&21));
    assert_eq!(registry.get(&key(3)), Some(&31));
    registry.extend(ServiceRegistry::new());
    assert_eq!(registry.len(), 3);
}

#[test]
fn construction_passes_over_a_failure() {
    let committee = Committee::new(
        vec![member(1, &[0]), member(2, &[1]), member(3, &[2]), member(4, &[3])],
        0,
        4,
    )
    .unwrap();
    let services =
        create_services_from_committee(&committee, vec![Some(10u32), Some(20), None, Some(40)])
            .unwrap();
    assert_eq!(services.len(), 3);
    assert_eq!(services.get(&key(1)), Some(&10));
    assert_eq!(services.get(&key(2)), Some(&20));
    assert_eq!(services.get(&key(3)), None);
    assert_eq!(services.get(&key(4)), Some(&40));
}

#[test]
fn construction_fails_when_every_attempt_fails() {
    let committee = c0();
    let outcome = create_services_from_committee::<u32>(&committee, vec![None, None]);
    assert_eq!(outcome.unwrap_err(), AllServicesFailed);
    assert_eq!(
        AllServicesFailed.message(),
        "failed to create any service from the committee"
    );
    let mut registry = ServiceRegistry::new();
    registry.insert(key(9), 90u32);
    assert_eq!(
        add_members_from_committee(&mut registry, &committee, vec![None, None]),
        Err(AllServicesFailed)
    );
    assert_eq!(registry.len(), 1);
    assert_eq!(registry.get(&key(9)), Some(&90));
}

#[test]
fn construction_with_one_member() {
    let committee = Committee::new(vec![member(1, &[0])], 0, 1).unwrap();
    assert!(create_services_from_committee::<u32>(&committee, vec![None]).is_err());
    let services = create_services_from_committee(&committee, vec![Some(1u32)]).unwrap();
    assert_eq!(services.len(), 1);
}

#[test]
fn construction_replaces_handles_at_hand() {
    let committee = c0();
    let mut registry = ServiceRegistry::new();
    registry.insert(key(A), 1u32);
    registry.insert(key(9), 9);
    assert_eq!(add_members_from_committee(&mut registry, &committee, vec![Some(2), None]), Ok(()));
    assert_eq!(registry.len(), 2);
    assert_eq!(registry.get(&key(A)), Some(&2));
    assert_eq!(registry.get(&key(B)), None);
    assert_eq!(registry.get(&key(9)), Some(&9));
}

#[test]
fn construction_lets_the_later_member_of_one_identity_win() {
    let committee = Committee::new(vec![member(1, &[0]), member(1, &[1])], 0, 2).unwrap();
    let services = create_services_from_committee(&committee, vec![Some(10u32), Some(11)]).unwrap();
    assert_eq!(services.len(), 1);
    assert_eq!(services.get(&key(1)), Some(&11));
    let services = create_services_from_committee(&committee, vec![Some(10u32), None]).unwrap();
    assert_eq!(services.get(&key(1)), Some(&10));
}

#[test]
fn config_defaults() {
    let config = CommitteeServiceConfig::default();
    assert_eq!(config.retry_interval_min_ms, 1_000);
    assert_eq!(config.retry_interval_max_ms, 3_600_000);
    assert_eq!(config.metadata_request_timeout_ms, 5_000);
    assert_eq!(config.max_concurrent_metadata_requests, 1);
    assert_eq!(config.sliver_request_timeout_ms, 300_000);
    assert_eq!(config.invalidity_sync_timeout_ms, 300_000);
    assert_eq!(config.node_connect_timeout_ms, 1_000);
    assert_eq!(EncodingConfig::new(10).n_shards(), 10);
}

#[test]
fn builder_makes_a_service() {
    let config = CommitteeServiceConfig { sliver_request_timeout_ms: 7, ..Default::default() };
    let built = NodeCommitteeService::<String>::builder()
        .config(config)
        .local_identity(key(B))
        .build(window(c0()), vec![Some("a".to_string()), Some("b".to_string())])
        .unwrap();
    assert_eq!(built.get_epoch(), 0);
    assert_eq!(built.get_shard_count(), 10);
    assert_eq!(built.encoding_config().n_shards(), 10);
    assert_eq!(built.committee(), c0());
    assert_eq!(built.active_committees().current_committee(), &c0());
    assert_eq!(built.active_committees().next_committee(), None);
    assert_eq!(built.inner.config, config);
    assert!(built.inner.is_local(&key(B)));
    assert!(!built.inner.is_local(&key(A)));
    assert_eq!(built.inner.services.len(), 2);
    assert_eq!(handle(&built, A), Some("a".to_string()));
    assert_eq!(handle(&built, B), Some("b".to_string()));
    assert!(!built.inner.committee_tracker.is_change_in_progress());
}

#[test]
fn builder_takes_a_generator() {
    let first = NodeCommitteeServiceBuilder::default();
    let second = NodeCommitteeServiceBuilder::default();
    let taken =
        NodeCommitteeService::<u32>::builder().build(window(c0()), vec![Some(1), Some(2)]).unwrap();
    let rng = taken.inner.rng.clone();
    let built =
        first.randomness(rng.clone()).build(window(c0()), vec![Some(1u32), Some(2)]).unwrap();
    assert_eq!(built.inner.rng, rng);
    assert!(!built.inner.is_local(&key(A)));
    assert_eq!(built.inner.config, CommitteeServiceConfig::default());
    // Two builders are seeded apart from each other.
    let other = second.build(window(c0()), vec![Some(1u32), Some(2)]).unwrap();
    assert_ne!(other.inner.rng, rng);
}

fn four_members() -> Committee {
    Committee::new(
        vec![member(1, &[0]), member(2, &[1]), member(3, &[2]), member(4, &[3])],
        0,
        4,
    )
    .unwrap()
}

#[test]
fn startup_passes_over_a_failed_member() {
    let built = NodeCommitteeService::new(
        window(c0()),
        vec![Some(1u32), None],
        key(A),
        CommitteeServiceConfig::default(),
    )
    .unwrap();
    assert_eq!(built.inner.services.len(), 1);
    assert_eq!(built.inner.get_node_service_by_id(&key(A)), Some(1));
    assert_eq!(built.inner.get_node_service_by_id(&key(B)), None);
    assert!(built.inner.is_local(&key(A)));
    assert_eq!(built.get_epoch(), 0);

    // Whichever of four attempts fails, the other three handles are held.
    for failed in 0..4usize {
        let created: Vec<Option<u32>> =
            (0..4usize).map(|i| if i == failed { None } else { Some(10 * (i as u32 + 1)) }).collect();
        let tracker = CommitteeTracker::new(window(four_members()));
        let inner = NodeCommitteeServiceInner::new(
            tracker,
            created,
            CommitteeServiceConfig::default(),
            EncodingConfig::new(4),
            None,
            service().inner.rng.clone(),
        )
        .unwrap();
        assert_eq!(inner.services.len(), 3);
        for i in 0..4usize {
            let expected = if i == failed { None } else { Some(10 * (i as u32 + 1)) };
            assert_eq!(inner.get_node_service_by_id(&key(i as u8 + 1)), expected);
        }
    }
}

#[test]
fn startup_needs_a_handle() {
    let none: Vec<Option<u32>> = vec![None, None];
    assert_eq!(
        NodeCommitteeServiceBuilder::default().build(window(c0()), none.clone()).unwrap_err(),
        AllServicesFailed
    );
    assert_eq!(
        NodeCommitteeService::new(
            window(c0()),
            none.clone(),
            key(A),
            CommitteeServiceConfig::default()
        )
        .unwrap_err(),
        AllServicesFailed
    );
    let tracker = CommitteeTracker::new(window(c0()));
    let rng = service().inner.rng.clone();
    assert_eq!(
        NodeCommitteeServiceInner::new(
            tracker,
            none,
            CommitteeServiceConfig::default(),
            EncodingConfig::new(10),
            None,
            rng,
        )
        .unwrap_err(),
        AllServicesFailed
    );
    let one = Committee::new(vec![member(1, &[0])], 0, 1).unwrap();
    assert!(NodeCommitteeServiceBuilder::default().build::<u32>(window(one), vec![None]).is_err());
}

#[test]
fn outcomes_with_and_without_a_handle() {
    assert!(!any_service_created::<u32>(&vec![]));
    assert!(!any_service_created::<u32>(&vec![None, None, None]));
    assert!(any_service_created(&vec![None, None, Some(3u32)]));
    assert!(any_service_created(&vec![Some(1u32), None]));
}

#[test]
fn begin_may_be_asked_for_the_next_committee() {
    let mut service = service();
    let made = vec![Some("a1".to_string()), Some("c1".to_string())];
    let none: Vec<Option<String>> = vec![None, None];
    assert!(service.may_begin_committee_change_to(&c1(), &made));
    // One outcome for each member.
    assert!(!service.may_begin_committee_change_to(&c1(), &vec![Some("a1".to_string())]));
    assert!(!service.may_begin_committee_change_to(&c1(), &vec![]));
    // The committee of the next epoch, and no other.
    assert!(!service.may_begin_committee_change_to(&c2(), &made));
    assert!(!service.may_begin_committee_change_to(&c0(), &made));
    // Where no handle was made the tracker is not looked at.
    assert!(service.may_begin_committee_change_to(&c2(), &none));
    assert!(service.may_begin_committee_change_to(&c0(), &none));

    service.begin_committee_change_to(c1(), made.clone()).unwrap();
    // The next committee is known now: only that one may be offered again.
    let other =
        Committee::new(vec![member(A, &[0, 1, 2, 3, 4]), member(C, &[5, 6, 7, 8, 9])], 1, 10)
            .unwrap();
    assert!(service.may_begin_committee_change_to(&c1(), &made));
    assert!(!service.may_begin_committee_change_to(&other, &made));
    assert!(service.may_begin_committee_change_to(&other, &none));
}

#[test]
fn begin_without_any_handle_does_not_look_at_the_tracker() {
    let mut service = service();
    service
        .begin_committee_change_to(c1(), vec![Some("a1".to_string()), Some("c1".to_string())])
        .unwrap();
    let other =
        Committee::new(vec![member(A, &[0, 1, 2, 3, 4]), member(C, &[5, 6, 7, 8, 9])], 1, 10)
            .unwrap();
    assert_eq!(
        service.begin_committee_change_to(other, vec![None, None]),
        Err(BeginCommitteeChangeError::AllServicesFailed)
    );
    assert_eq!(service.active_committees().next_committee(), Some(&c1()));
    assert!(service.inner.committee_tracker.is_change_in_progress());
    assert_eq!(service.inner.services.len(), 3);
    assert_eq!(
        service.begin_committee_change_to(c2(), vec![None, None]),
        Err(BeginCommitteeChangeError::AllServicesFailed)
    );
    assert_eq!(service.get_epoch(), 0);
}

#[test]
fn begin_with_one_failure_gains_the_other_members() {
    let current = Committee::new(vec![member(9, &[0, 1, 2, 3])], 0, 4).unwrap();
    let next = Committee::new(
        vec![member(1, &[0]), member(2, &[1]), member(3, &[2]), member(4, &[3])],
        1,
        4,
    )
    .unwrap();
    for failed in 0..4usize {
        let mut service =
            NodeCommitteeServiceBuilder::default().build(window(current.clone()), vec![Some(90u32)]).unwrap();
        let outcomes: Vec<Option<u32>> =
            (0..4usize).map(|i| if i == failed { None } else { Some(10 * (i as u32 + 1)) }).collect();
        assert_eq!(service.begin_committee_change_to(next.clone(), outcomes), Ok(()));
        assert!(service.inner.committee_tracker.is_change_in_progress());
        assert_eq!(service.get_epoch(), 0);
        assert_eq!(service.committee(), current);
        assert_eq!(service.active_committees().next_committee(), Some(&next));
        assert_eq!(service.inner.services.len(), 1 + 3);
        assert_eq!(service.inner.get_node_service_by_id(&key(9)), Some(90));
        for i in 0..4usize {
            let expected = if i == failed { None } else { Some(10 * (i as u32 + 1)) };
            assert_eq!(service.inner.get_node_service_by_id(&key(i as u8 + 1)), expected);
        }
    }
}

#[test]
fn begin_takes_only_the_next_epoch() {
    let service = service();
    assert_eq!(service.begin_committee_change(1), Ok(1));
    assert_eq!(
        service.begin_committee_change(2),
        Err(BeginCommitteeChangeError::EpochIsNotSequential { expected: 1, actual: 2 })
    );
    assert_eq!(
        service.begin_committee_change(u64::MAX),
        Err(BeginCommitteeChangeError::EpochIsNotSequential { expected: 1, actual: u64::MAX })
    );
    assert_eq!(
        service.begin_committee_change(0),
        Err(BeginCommitteeChangeError::EpochIsTheSameAsCurrent)
    );
    assert_eq!(service.get_epoch(), 0);
    assert!(!service.inner.committee_tracker.is_change_in_progress());
    assert_eq!(service.active_committees().next_committee(), None);
}

#[test]
fn begin_tells_an_earlier_epoch() {
    let mut service = service();
    service
        .begin_committee_change_to(c1(), vec![Some("a1".to_string()), Some("c1".to_string())])
        .unwrap();
    service.end_committee_change(0).unwrap();
    assert_eq!(service.get_epoch(), 1);
    assert_eq!(
        service.begin_committee_change(0),
        Err(BeginCommitteeChangeError::EpochIsLess { expected: 2, actual: 0 })
    );
    assert_eq!(
        service.begin_committee_change(1),
        Err(BeginCommitteeChangeError::EpochIsTheSameAsCurrent)
    );
    assert_eq!(service.begin_committee_change(2), Ok(2));
    assert_eq!(
        service.begin_committee_change(3),
        Err(BeginCommitteeChangeError::EpochIsNotSequential { expected: 2, actual: 3 })
    );
}

#[test]
fn lookup_must_give_the_expected_epoch() {
    assert_eq!(latest_committee_for_change(1, Ok(window(c1()))), Ok(c1()));
    assert_eq!(
        latest_committee_for_change(1, Ok(window(c0()))),
        Err(BeginCommitteeChangeError::LatestCommitteeEpochDiffers {
            latest_committee: c0(),
            expected_epoch: 1
        })
    );
    assert_eq!(
        latest_committee_for_change(1, Ok(window(c2()))),
        Err(BeginCommitteeChangeError::LatestCommitteeEpochDiffers {
            latest_committee: c2(),
            expected_epoch: 1
        })
    );
    assert_eq!(
        latest_committee_for_change(1, Err("chain unreachable".to_string())),
        Err(BeginCommitteeChangeError::LookupError("chain unreachable".to_string()))
    );
}

#[test]
fn begin_registers_the_new_members() {
    let mut service = service();
    assert_eq!(
        service
            .begin_committee_change_to(c1(), vec![Some("a1".to_string()), Some("c1".to_string())]),
        Ok(())
    );
    assert_eq!(service.get_epoch(), 0);
    assert_eq!(service.committee(), c0());
    assert!(service.inner.committee_tracker.is_change_in_progress());
    assert_eq!(service.active_committees().next_committee(), Some(&c1()));
    assert_eq!(service.inner.services.len(), 3);
    assert_eq!(handle(&service, A), Some("a1".to_string()));
    assert_eq!(handle(&service, B), Some("b0".to_string()));
    assert_eq!(handle(&service, C), Some("c1".to_string()));
}

#[test]
fn begin_passes_over_a_failed_member() {
    let mut service = service();
    assert_eq!(service.begin_committee_change_to(c1(), vec![None, Some("c1".to_string())]), Ok(()));
    assert_eq!(service.inner.services.len(), 3);
    assert_eq!(handle(&service, A), Some("a0".to_string()));
    assert_eq!(handle(&service, C), Some("c1".to_string()));
    assert!(service.inner.committee_tracker.is_change_in_progress());
}

#[test]
fn begin_fails_without_any_handle() {
    let mut service = service();
    assert_eq!(
        service.begin_committee_change_to(c1(), vec![None, None]),
        Err(BeginCommitteeChangeError::AllServicesFailed)
    );
    assert_eq!(service.get_epoch(), 0);
    assert!(!service.inner.committee_tracker.is_change_in_progress());
    assert_eq!(service.active_committees().next_committee(), None);
    assert_eq!(service.inner.services.len(), 2);
    assert_eq!(handle(&service, C), None);
}

#[test]
fn begin_twice_is_told_a_change_is_in_progress() {
    let mut service = service();
    service.begin_committee_change_to(c1(), vec![Some("a1".to_string()), None]).unwrap();
    assert_eq!(
        service
            .begin_committee_change_to(c1(), vec![Some("a2".to_string()), Some("c2".to_string())]),
        Err(BeginCommitteeChangeError::ChangeAlreadyInProgress)
    );
    // The handles of the second attempt are dropped.
    assert_eq!(service.inner.services.len(), 2);
    assert_eq!(handle(&service, A), Some("a1".to_string()));
    assert_eq!(handle(&service, C), None);
    assert!(service.inner.committee_tracker.is_change_in_progress());
    assert_eq!(service.active_committees().next_committee(), Some(&c1()));
    assert_eq!(service.get_epoch(), 0);
}

#[test]
fn end_takes_only_the_current_epoch() {
    let mut service = service();
    service
        .begin_committee_change_to(c1(), vec![Some("a1".to_string()), Some("c1".to_string())])
        .unwrap();
    assert_eq!(
        service.end_committee_change(1),
        Err(EndCommitteeChangeError::ProvidedEpochIsInTheFuture { provided: 1, expected: 0 })
    );
    assert_eq!(
        service.end_committee_change_to(u64::MAX),
        Err(EndCommitteeChangeError::ProvidedEpochIsInTheFuture {
            provided: u64::MAX,
            expected: 0
        })
    );
    assert!(service.inner.committee_tracker.is_change_in_progress());
    assert_eq!(service.inner.services.len(), 3);
    assert_eq!(service.end_committee_change(0), Ok(()));
    assert_eq!(
        service.end_committee_change(0),
        Err(EndCommitteeChangeError::ProvidedEpochIsInThePast { provided: 0, expected: 1 })
    );
    assert_eq!(service.end_committee_change(1), Err(EndCommitteeChangeError::EpochChangeAlreadyDone));
    assert_eq!(service.get_epoch(), 1);
    assert_eq!(service.inner.services.len(), 2);
}

#[test]
fn end_without_a_change_is_already_done() {
    let mut service = service();
    assert_eq!(service.end_committee_change(0), Err(EndCommitteeChangeError::EpochChangeAlreadyDone));
    assert_eq!(service.get_epoch(), 0);
    assert_eq!(service.inner.services.len(), 2);
    assert_eq!(service.committee(), c0());
}

#[test]
fn end_promotes_and_drops_the_retired_members() {
    let mut service = service();
    service
        .begin_committee_change_to(c1(), vec![Some("a1".to_string()), Some("c1".to_string())])
        .unwrap();
    assert_eq!(service.end_committee_change_to(0), Ok(()));
    assert_eq!(service.get_epoch(), 1);
    assert_eq!(service.committee(), c1());
    assert_eq!(service.active_committees().previous_committee(), Some(&c0()));
    assert_eq!(service.active_committees().next_committee(), None);
    assert!(!service.inner.committee_tracker.is_change_in_progress());
    assert_eq!(service.inner.services.len(), 2);
    assert_eq!(handle(&service, A), Some("a1".to_string()));
    assert_eq!(handle(&service, B), None);
    assert_eq!(handle(&service, C), Some("c1".to_string()));
    assert_eq!(service.get_shard_count(), 10);
}

#[test]
fn change_of_committee_from_end_to_end() {
    let mut service = service();
    assert!(service.is_walrus_storage_node(&key(A)));
    assert!(service.is_walrus_storage_node(&key(B)));
    assert!(!service.is_walrus_storage_node(&key(C)));

    // The lookup gives the committee of epoch 1, in which C takes B's place.
    let expected = service.begin_committee_change(1).unwrap();
    let next = latest_committee_for_change(expected, Ok(window(c1()))).unwrap();
    service
        .begin_committee_change_to(next, vec![Some("a1".to_string()), Some("c1".to_string())])
        .unwrap();
    assert_eq!(service.inner.services.len(), 3);
    assert!(service.inner.services.contains_key(&key(A)));
    assert!(service.inner.services.contains_key(&key(B)));
    assert!(service.inner.services.contains_key(&key(C)));
    assert!(service.is_walrus_storage_node(&key(C)));
    assert_eq!(service.get_epoch(), 0);

    // The change ends at the epoch that is current while it is under way.
    service.end_committee_change(service.get_epoch()).unwrap();
    assert_eq!(service.get_epoch(), 1);
    assert_eq!(service.inner.services.len(), 2);
    assert!(service.inner.services.contains_key(&key(A)));
    assert!(!service.inner.services.contains_key(&key(B)));
    assert!(service.inner.services.contains_key(&key(C)));

    // B is still a member of the previous committee.
    assert!(service.is_walrus_storage_node(&key(B)));

    // After one more change B is in none of the three committees.
    let expected = service.begin_committee_change(2).unwrap();
    let next = latest_committee_for_change(expected, Ok(window(c2()))).unwrap();
    service
        .begin_committee_change_to(next, vec![Some("a2".to_string()), Some("c2".to_string())])
        .unwrap();
    assert!(service.is_walrus_storage_node(&key(B)));
    service.end_committee_change(1).unwrap();
    assert_eq!(service.get_epoch(), 2);
    assert!(!service.is_walrus_storage_node(&key(B)));
    assert!(service.is_walrus_storage_node(&key(A)));
    assert!(service.is_walrus_storage_node(&key(C)));
    assert_eq!(service.inner.services.len(), 2);
}

#[test]
fn shard_sync_needs_the_previous_committee() {
    let service = service();
    let none: Result<ShardSyncSource<String>, SyncShardClientError> =
        Err(SyncShardClientError::NoSyncClient);
    // No epoch lies before the first.
    assert_eq!(service.sync_shard_as_of_epoch(3, 0), none);
    // The committee of an epoch that is not at hand.
    assert_eq!(service.sync_shard_as_of_epoch(3, 3), none);
    assert_eq!(service.sync_shard_as_of_epoch(3, u64::MAX), none);
}

#[test]
fn shard_sync_asks_the_member_that_held_the_shard() {
    let mut service = service();
    // As of epoch 1 the shards are fetched from the committee of epoch 0.
    assert_eq!(
        service.sync_shard_as_of_epoch(7, 1),
        Ok(ShardSyncSource { member: member(B, &[5, 6, 7, 8, 9]), service: Some("b0".to_string()) })
    );
    assert_eq!(
        service.sync_shard_as_of_epoch(0, 1),
        Ok(ShardSyncSource { member: member(A, &[0, 1, 2, 3, 4]), service: Some("a0".to_string()) })
    );
    service
        .begin_committee_change_to(c1(), vec![Some("a1".to_string()), Some("c1".to_string())])
        .unwrap();
    // As of epoch 2 they are fetched from the next committee.
    assert_eq!(
        service.sync_shard_as_of_epoch(7, 2),
        Ok(ShardSyncSource { member: member(C, &[1, 3, 5, 7, 9]), service: Some("c1".to_string()) })
    );
    service.end_committee_change(0).unwrap();
    // B has left the registry: a handle is still to be made.
    assert_eq!(
        service.sync_shard_as_of_epoch(7, 1),
        Ok(ShardSyncSource { member: member(B, &[5, 6, 7, 8, 9]), service: None })
    );
    assert_eq!(
        service.sync_shard_as_of_epoch(7, 2),
        Ok(ShardSyncSource { member: member(C, &[1, 3, 5, 7, 9]), service: Some("c1".to_string()) })
    );
}

#[test]
fn shard_sync_reads_the_outcome_of_making_a_handle() {
    assert_eq!(created_sync_service(Some(5u32)), Ok(5));
    assert_eq!(created_sync_service::<u32>(None), Err(SyncShardClientError::NoSyncClient));
}

#[test]
fn shard_sync_tells_the_failures_apart() {
    assert_eq!(sync_shard_response(Ok(vec![(1u8, 2u8)])), Ok(vec![(1u8, 2u8)]));
    assert_eq!(
        sync_shard_response::<u8>(Err(NodeServiceError::Node("shard not held".to_string()))),
        Err(SyncShardClientError::RequestError("shard not held".to_string()))
    );
    assert_eq!(
        sync_shard_response::<u8>(Err(NodeServiceError::Other("timed out".to_string()))),
        Err(SyncShardClientError::Other("timed out".to_string()))
    );
}
