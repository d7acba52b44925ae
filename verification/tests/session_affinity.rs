//! Sessions that stay on one worker.

use dynamo_llm::extensions::SessionAffinityId;
use dynamo_llm::session_affinity::coordinator::{
    AffinityAcquire, AffinityCoordinator, AffinityInitialization, AffinityLease, AffinityStep,
    Selection,
};
use dynamo_llm::session_affinity::types::{
    cancelled, validate_bound_target, AffinityErrorType, AffinityTarget, AffinityVersion,
    ReplicaApplyOutcome, SessionAffinityUpdate, MAX_SESSION_AFFINITY_TTL_SECS,
};

const SECOND: u64 = 1_000_000_000;

fn id(text: &str) -> SessionAffinityId {
    SessionAffinityId::new(text.to_string())
}

fn session_id() -> SessionAffinityId {
    id("session-1")
}

fn target(worker_id: u64, dp_rank: Option<u32>) -> AffinityTarget {
    AffinityTarget { worker_id, dp_rank }
}

fn coordinator() -> AffinityCoordinator {
    AffinityCoordinator::new(10 * SECOND as u128, 1).unwrap()
}

fn with_test_limits(max_entries: usize, max_id_bytes: usize) -> AffinityCoordinator {
    AffinityCoordinator::new_with_limits(10 * SECOND as u128, max_entries, max_id_bytes, 1)
        .unwrap()
}

fn acquire(
    coordinator: &mut AffinityCoordinator,
    session: &SessionAffinityId,
    now: u64,
) -> AffinityAcquire {
    match coordinator.acquire(session, None, now) {
        Ok(AffinityStep::Acquired(acquired)) => acquired,
        Ok(AffinityStep::Wait { .. }) => panic!("the session is being initialized"),
        Err(error) => panic!("{}", error.message),
    }
}

fn initialize(coordinator: &mut AffinityCoordinator, now: u64) -> AffinityInitialization {
    match acquire(coordinator, &session_id(), now) {
        AffinityAcquire::Initialize(initialization) => initialization,
        AffinityAcquire::Bound { .. } => panic!("first request must initialize"),
    }
}

fn lease(coordinator: &mut AffinityCoordinator, now: u64) -> AffinityLease {
    match acquire(coordinator, &session_id(), now) {
        AffinityAcquire::Bound { lease, .. } => lease,
        AffinityAcquire::Initialize(_) => panic!("continuation must acquire the binding"),
    }
}

/// Binds the session to a worker and ends the request that did.
fn bind(coordinator: &mut AffinityCoordinator, to: AffinityTarget, now: u64) {
    let committed = initialize(coordinator, now).commit(coordinator, to, now).unwrap();
    let _ = committed.release(coordinator, now);
}

fn select(
    coordinator: &mut AffinityCoordinator,
    selected: AffinityTarget,
    now: u64,
) -> Selection {
    acquire(coordinator, &session_id(), now)
        .complete_selection(coordinator, selected, now)
        .unwrap()
}

fn update(
    session: &str,
    to: AffinityTarget,
    epoch: u64,
    counter: u64,
    router_id: u64,
) -> SessionAffinityUpdate {
    SessionAffinityUpdate {
        session_id: session.to_string(),
        worker_id: to.worker_id,
        dp_rank: to.dp_rank,
        router_id,
        version_epoch: epoch,
        version_counter: counter,
        version_router_id: router_id,
    }
}

#[test]
fn session_affinity_initialization_is_atomic() {
    let mut coordinator = coordinator();
    let first = initialize(&mut coordinator, 0);
    match coordinator.acquire(&session_id(), None, 0) {
        Ok(AffinityStep::Wait { revision }) => assert_eq!(revision, first.revision()),
        _ => panic!("the second request must wait"),
    }

    let first_lease = first.commit(&mut coordinator, target(7, Some(0)), 0).unwrap();
    match acquire(&mut coordinator, &session_id(), 0) {
        AffinityAcquire::Bound { target: second_target, lease } => {
            assert_eq!(second_target, target(7, Some(0)));
            let _ = lease.release(&mut coordinator, 0);
        }
        AffinityAcquire::Initialize(_) => panic!("waiter must acquire the committed binding"),
    }
    let _ = first_lease.release(&mut coordinator, 0);
}

#[test]
fn session_affinity_initializer_cancellation_wakes_waiter() {
    let mut coordinator = coordinator();
    let first = initialize(&mut coordinator, 0);
    assert_eq!(first.session_id(), "session-1");
    assert!(matches!(
        coordinator.acquire(&session_id(), None, 0),
        Ok(AffinityStep::Wait { .. })
    ));
    first.cancel(&mut coordinator);

    let next = acquire(&mut coordinator, &session_id(), 0);
    assert!(matches!(&next, AffinityAcquire::Initialize(_)));
    next.invalidate(&mut coordinator);
    assert_eq!(coordinator.entry_count(), 0);
    assert!(matches!(
        acquire(&mut coordinator, &session_id(), 0),
        AffinityAcquire::Initialize(_)
    ));
}

#[test]
fn a_cancelled_wait_has_an_error_of_its_own() {
    let error = cancelled("request-1");
    assert_eq!(error.error_type, AffinityErrorType::Cancelled);
    assert_eq!(
        error.message,
        "request request-1 was cancelled while waiting for session affinity"
    );
}

#[test]
fn session_affinity_validates_worker_and_rank_contract() {
    let mut coordinator = coordinator();
    match coordinator.acquire(&session_id(), Some(target(7, None)), 0) {
        Ok(AffinityStep::Acquired(AffinityAcquire::Initialize(initializer))) => {
            let committed = initializer.commit(&mut coordinator, target(7, None), 0).unwrap();
            let _ = committed.release(&mut coordinator, 0);
        }
        _ => panic!("first request must initialize"),
    }
    assert!(coordinator.acquire(&session_id(), Some(target(8, None)), 0).is_err());
    assert!(coordinator.acquire(&session_id(), Some(target(7, Some(0))), 0).is_err());
    assert!(coordinator.acquire(&session_id(), Some(target(7, None)), 0).is_ok());
}

#[test]
fn a_request_for_another_worker_is_refused() {
    let bound = target(7, Some(0));
    assert!(validate_bound_target("s", bound, None).is_ok());
    assert!(validate_bound_target("s", bound, Some(target(7, Some(0)))).is_ok());
    let worker = validate_bound_target("s", bound, Some(target(8, Some(0)))).unwrap_err();
    assert_eq!(worker.error_type, AffinityErrorType::InvalidArgument);
    let rank = validate_bound_target("s", bound, Some(target(7, Some(1)))).unwrap_err();
    assert_eq!(rank.error_type, AffinityErrorType::InvalidArgument);
    assert_ne!(worker.message, rank.message);
}

#[test]
fn session_affinity_failed_bound_operation_invalidates_binding() {
    let mut coordinator = coordinator();
    bind(&mut coordinator, target(7, Some(0)), 0);

    let operation = acquire(&mut coordinator, &session_id(), 0);
    assert_eq!(operation.target(), Some(target(7, Some(0))));
    operation.invalidate(&mut coordinator);

    assert_eq!(coordinator.query_target(&session_id(), None, 0).unwrap(), None);
    assert_eq!(coordinator.entry_count(), 0);
    assert!(matches!(
        acquire(&mut coordinator, &session_id(), 0),
        AffinityAcquire::Initialize(_)
    ));
}

#[test]
fn session_affinity_bound_lease_drop_refreshes_idle_ttl() {
    let mut coordinator = coordinator();
    bind(&mut coordinator, target(7, Some(0)), 0);

    let held = lease(&mut coordinator, 9 * SECOND);
    assert_eq!(
        coordinator.query_target(&session_id(), None, 11 * SECOND).unwrap(),
        Some(target(7, Some(0)))
    );
    let _ = held.release(&mut coordinator, 11 * SECOND);

    assert_eq!(
        coordinator.query_target(&session_id(), None, 20 * SECOND).unwrap(),
        Some(target(7, Some(0)))
    );
    assert_eq!(coordinator.query_target(&session_id(), None, 22 * SECOND).unwrap(), None);
}

#[test]
fn session_affinity_query_is_read_only() {
    let mut coordinator = coordinator();
    assert_eq!(coordinator.query_target(&session_id(), None, 0).unwrap(), None);
    assert_eq!(coordinator.entry_count(), 0);

    let initializing = initialize(&mut coordinator, 0);
    assert_eq!(coordinator.query_target(&session_id(), None, 0).unwrap(), None);
    assert_eq!(coordinator.entry_count(), 1);
    initializing.cancel(&mut coordinator);
    assert_eq!(coordinator.entry_count(), 0);

    bind(&mut coordinator, target(7, Some(0)), 0);
    assert_eq!(
        coordinator.query_target(&session_id(), None, 0).unwrap(),
        Some(target(7, Some(0)))
    );
    assert_eq!(coordinator.query_target(&session_id(), None, 10 * SECOND).unwrap(), None);
    assert_eq!(coordinator.entry_count(), 1);
}

#[test]
fn reaping_removes_idle_entries() {
    let mut coordinator = coordinator();
    bind(&mut coordinator, target(7, Some(0)), 0);
    assert_eq!(coordinator.reap_period(), 10 * SECOND);
    coordinator.reap(9 * SECOND);
    assert_eq!(coordinator.entry_count(), 1);
    coordinator.reap(10 * SECOND);
    assert_eq!(coordinator.entry_count(), 0);
}

#[test]
fn the_reaper_leaves_running_and_new_sessions_alone() {
    let mut coordinator = coordinator();
    bind(&mut coordinator, target(7, None), 0);
    let held = lease(&mut coordinator, SECOND);
    let other = acquire(&mut coordinator, &id("other"), SECOND);
    coordinator.reap(100 * SECOND);
    assert_eq!(coordinator.entry_count(), 2);
    let _ = held.release(&mut coordinator, 100 * SECOND);
    other.invalidate(&mut coordinator);
    assert_eq!(coordinator.entry_count(), 1);
    coordinator.reap(110 * SECOND);
    assert_eq!(coordinator.entry_count(), 0);
}

#[test]
fn session_affinity_rejects_invalid_ttl_before_starting_reaper() {
    for ttl in [0, (MAX_SESSION_AFFINITY_TTL_SECS as u128 + 1) * SECOND as u128] {
        match AffinityCoordinator::new(ttl, 1) {
            Ok(_) => panic!("invalid TTL must fail coordinator construction"),
            Err(error) => {
                assert_eq!(error.error_type, AffinityErrorType::InvalidArgument);
                assert!(error.message.contains("session affinity TTL"));
            }
        }
    }
}

#[test]
fn long_lived_sessions_are_looked_at_every_half_minute() {
    let ttl = MAX_SESSION_AFFINITY_TTL_SECS as u128 * SECOND as u128;
    let coordinator = AffinityCoordinator::new(ttl, 1).unwrap();
    assert_eq!(coordinator.ttl() as u128, ttl);
    assert_eq!(coordinator.reap_period(), 30 * SECOND);
}

#[test]
fn session_affinity_enforces_id_and_entry_limits() {
    let mut coordinator = with_test_limits(1, 8);
    match coordinator.acquire(&id("123456789"), None, 0) {
        Ok(_) => panic!("oversized session ID must fail"),
        Err(error) => assert_eq!(error.error_type, AffinityErrorType::InvalidArgument),
    }
    assert_eq!(coordinator.entry_count(), 0);

    let first = acquire(&mut coordinator, &id("first"), 0);
    match coordinator.acquire(&id("second"), None, 0) {
        Ok(_) => panic!("entry limit must reject a second session"),
        Err(error) => assert_eq!(error.error_type, AffinityErrorType::ResourceExhausted),
    }

    first.invalidate(&mut coordinator);
    assert_eq!(coordinator.entry_count(), 0);
    assert!(matches!(
        acquire(&mut coordinator, &id("second"), 0),
        AffinityAcquire::Initialize(_)
    ));
}

#[test]
fn session_affinity_replica_newer_rebind_converges() {
    let mut coordinator = coordinator();
    let local = target(7, Some(0));
    let conflicting = target(8, Some(1));
    let mut apply =
        |to, counter, router| {
            coordinator.apply_replica_update(&update("replicated", to, 1, counter, router), 0)
        };
    assert_eq!(apply(local, 1, 10), ReplicaApplyOutcome::Inserted);
    assert_eq!(apply(conflicting, 2, 20), ReplicaApplyOutcome::ReplacedNewer);
    assert_eq!(apply(local, 1, 10), ReplicaApplyOutcome::IgnoredStale);
    assert_eq!(
        coordinator.query_target(&id("replicated"), None, 0).unwrap(),
        Some(conflicting)
    );
}

#[test]
fn session_affinity_replica_restart_epoch_supersedes_old_counter() {
    let mut coordinator = coordinator();
    let old_target = target(7, Some(0));
    let restarted = target(8, Some(1));
    assert_eq!(
        coordinator.apply_replica_update(&update("replicated", old_target, 100, 50, 10), 0),
        ReplicaApplyOutcome::Inserted
    );
    assert_eq!(
        coordinator.apply_replica_update(&update("replicated", restarted, 200, 1, 20), 0),
        ReplicaApplyOutcome::ReplacedNewer
    );
    assert_eq!(
        coordinator.apply_replica_update(&update("replicated", old_target, 100, 51, 10), 0),
        ReplicaApplyOutcome::IgnoredStale
    );
    assert_eq!(
        coordinator.query_target(&id("replicated"), None, 0).unwrap(),
        Some(restarted)
    );
}

#[test]
fn session_affinity_replica_duplicate_refreshes_local_ttl() {
    let mut coordinator = coordinator();
    let replicated = target(7, Some(0));
    let told = update("replicated", replicated, 1, 1, 10);
    assert_eq!(coordinator.apply_replica_update(&told, 0), ReplicaApplyOutcome::Inserted);
    assert_eq!(
        coordinator.apply_replica_update(&told, 9 * SECOND),
        ReplicaApplyOutcome::Refreshed
    );
    assert_eq!(
        coordinator.query_target(&id("replicated"), None, 11 * SECOND).unwrap(),
        Some(replicated)
    );
    assert_eq!(coordinator.query_target(&id("replicated"), None, 20 * SECOND).unwrap(), None);
}

#[test]
fn session_affinity_replica_ignores_initializing_sessions() {
    let mut coordinator = coordinator();
    let initializing = initialize(&mut coordinator, 0);
    assert_eq!(
        coordinator.apply_replica_update(&update("session-1", target(7, Some(0)), 1, 1, 10), 0),
        ReplicaApplyOutcome::IgnoredInitializing
    );
    assert_eq!(coordinator.query_target(&session_id(), None, 0).unwrap(), None);
    initializing.cancel(&mut coordinator);
}

#[test]
fn session_affinity_replica_enforces_id_and_entry_limits() {
    let mut coordinator = with_test_limits(1, 8);
    let mut apply = |session: &str, worker| {
        coordinator.apply_replica_update(&update(session, target(worker, Some(0)), 1, 1, 10), 0)
    };
    assert_eq!(apply("123456789", 7), ReplicaApplyOutcome::RejectedSessionId);
    assert_eq!(apply("first", 7), ReplicaApplyOutcome::Inserted);
    assert_eq!(apply("second", 8), ReplicaApplyOutcome::RejectedCapacity);
    assert_eq!(coordinator.entry_count(), 1);
}

#[test]
fn session_affinity_publishes_after_selection_and_lease_completion() {
    let mut coordinator = coordinator();
    coordinator.enable_replica_sync(99).unwrap();
    let selected = target(7, Some(0));
    let selection = select(&mut coordinator, selected, 0);

    let after_dispatch = selection.update.unwrap();
    assert_eq!(after_dispatch.session_id, "session-1");
    assert_eq!(after_dispatch.worker_id, selected.worker_id);
    assert_eq!(after_dispatch.dp_rank, selected.dp_rank);
    assert_eq!(after_dispatch.router_id, 99);

    let lease = selection.lease.unwrap();
    assert_eq!(lease.publish(&coordinator, selected), Some(after_dispatch.clone()));
    let after_completion = lease.release(&mut coordinator, 0).unwrap();
    assert_eq!(after_completion, after_dispatch);
}

#[test]
fn a_coordinator_without_peers_publishes_nothing() {
    let mut coordinator = coordinator();
    let selection = select(&mut coordinator, target(7, None), 0);
    assert_eq!(selection.update, None);
    assert_eq!(selection.lease.unwrap().release(&mut coordinator, 0), None);
    coordinator.enable_replica_sync(1).unwrap();
    let error = coordinator.enable_replica_sync(2).unwrap_err();
    assert_eq!(error.error_type, AffinityErrorType::Internal);
}

#[test]
fn session_affinity_local_rebind_publishes_newer_version() {
    let mut origin = coordinator();
    origin.enable_replica_sync(99).unwrap();
    let mut replica = coordinator();
    let original_target = target(7, Some(0));
    let rebound_target = target(8, Some(1));

    let selection = select(&mut origin, original_target, 0);
    let original = selection.update.unwrap();
    assert_eq!(replica.apply_replica_update(&original, 0), ReplicaApplyOutcome::Inserted);
    assert!(selection.lease.unwrap().release(&mut origin, 0).is_some());

    let selection = select(&mut origin, rebound_target, 0);
    let rebound = selection.update.unwrap();
    assert!(rebound.version_counter > original.version_counter);
    assert_eq!(replica.apply_replica_update(&rebound, 0), ReplicaApplyOutcome::ReplacedNewer);
    assert_eq!(replica.apply_replica_update(&original, 0), ReplicaApplyOutcome::IgnoredStale);
    assert_eq!(
        replica.query_target(&session_id(), None, 0).unwrap(),
        Some(rebound_target)
    );
    let _ = selection.lease.unwrap().release(&mut origin, 0);
}

#[test]
fn session_affinity_concurrent_rebind_keeps_first_newer_binding() {
    let mut coordinator = coordinator();
    let first_rebind = target(8, Some(1));
    let second_rebind = target(9, Some(2));
    let selection = select(&mut coordinator, target(7, Some(0)), 0);
    let _ = selection.lease.unwrap().release(&mut coordinator, 0);

    let first = acquire(&mut coordinator, &session_id(), 0);
    let second = acquire(&mut coordinator, &session_id(), 0);
    let first_selection = first.complete_selection(&mut coordinator, first_rebind, 0).unwrap();
    let second_selection =
        second.complete_selection(&mut coordinator, second_rebind, 0).unwrap();
    assert!(second_selection.lease.is_none());
    assert_eq!(
        coordinator.query_target(&session_id(), None, 0).unwrap(),
        Some(first_rebind)
    );
    let _ = first_selection.lease.unwrap().release(&mut coordinator, 0);
}

#[test]
fn session_affinity_completion_restores_expired_remote_binding() {
    let mut origin = coordinator();
    origin.enable_replica_sync(99).unwrap();
    let mut replica = coordinator();
    let replicated = target(7, Some(0));
    let selection = select(&mut origin, replicated, 0);
    let after_dispatch = selection.update.unwrap();
    assert_eq!(
        replica.apply_replica_update(&after_dispatch, 0),
        ReplicaApplyOutcome::Inserted
    );
    assert_eq!(replica.query_target(&session_id(), None, 11 * SECOND).unwrap(), None);

    let after_completion = selection.lease.unwrap().release(&mut origin, 11 * SECOND).unwrap();
    assert_eq!(
        replica.apply_replica_update(&after_completion, 11 * SECOND),
        ReplicaApplyOutcome::ReplacedExpired
    );
    assert_eq!(
        replica.query_target(&session_id(), None, 11 * SECOND).unwrap(),
        Some(replicated)
    );
}

#[test]
fn updates_commute() {
    let first = update("replicated", target(7, Some(0)), 1, 5, 10);
    let second = update("replicated", target(8, Some(1)), 1, 5, 20);
    let mut forward = coordinator();
    forward.apply_replica_update(&first, 0);
    forward.apply_replica_update(&second, 0);
    let mut backward = coordinator();
    backward.apply_replica_update(&second, 0);
    backward.apply_replica_update(&first, 0);
    let session = id("replicated");
    assert_eq!(
        forward.query_target(&session, None, 0).unwrap(),
        Some(target(8, Some(1)))
    );
    assert_eq!(
        backward.query_target(&session, None, 0).unwrap(),
        Some(target(8, Some(1)))
    );
}

#[test]
fn versions_are_ordered_by_epoch_counter_and_router() {
    let version = |epoch, counter, router_id| AffinityVersion { epoch, counter, router_id };
    assert!(version(2, 0, 0).at_least(&version(1, 9, 9)));
    assert!(version(1, 2, 0).at_least(&version(1, 1, 9)));
    assert!(version(1, 1, 2).at_least(&version(1, 1, 1)));
    assert!(version(1, 1, 1).at_least(&version(1, 1, 1)));
    assert!(!version(1, 1, 1).at_least(&version(1, 1, 2)));
}

#[test]
fn coordinators_say_what_they_have_room_for() {
    let mut coordinator = coordinator();
    assert!(coordinator.can_version());
    assert!(coordinator.can_lease(&session_id()));
    bind(&mut coordinator, target(7, None), 0);
    assert!(coordinator.can_lease(&session_id()));
}

/// Two updates of a session leave one entry, bound to the target of the newer one, in either
/// order and at different times.
#[test]
fn replicas_converge_in_either_order() {
    let older = update("session-1", target(7, Some(0)), 1, 9, 1);
    let newer = update("session-1", target(8, Some(1)), 2, 1, 1);
    for (first, second) in [(&older, &newer), (&newer, &older)] {
        let mut replica = coordinator();
        assert_eq!(replica.entry_count(), 0);
        assert_eq!(replica.apply_replica_update(first, SECOND), ReplicaApplyOutcome::Inserted);
        replica.apply_replica_update(second, 4 * SECOND);
        assert_eq!(replica.entry_count(), 1);
        assert_eq!(
            replica.query_target(&session_id(), None, 10 * SECOND).unwrap(),
            Some(target(8, Some(1)))
        );
    }
}

/// An update in the version of the binding replaces it only once it has expired, so there the
/// time at which it comes decides.
#[test]
fn a_second_target_in_one_version_waits_for_the_binding_to_expire() {
    let held = update("session-1", target(7, None), 2, 1, 1);
    let again = update("session-1", target(8, None), 2, 1, 1);
    let mut replica = coordinator();
    replica.apply_replica_update(&held, 0);
    assert_eq!(
        replica.apply_replica_update(&again, 9 * SECOND),
        ReplicaApplyOutcome::IgnoredStale
    );
    assert_eq!(
        replica.apply_replica_update(&again, 10 * SECOND),
        ReplicaApplyOutcome::ReplacedExpired
    );
}
