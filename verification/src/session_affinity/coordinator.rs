//! The coordinator: the table of sessions, and the requests that hold leases on them.

use vstd::prelude::*;

use dashmap::DashMap;

use crate::extensions::SessionAffinityId;
use crate::session_affinity::entries::{
    count_entries, entries_of, entry_at, no_entries, put_entry, remove_entry, remove_expired,
};
use crate::session_affinity::state::{
    begin, commit_error, fresh_coordinator, id_error, on_acquire, on_cancel, on_commit,
    on_invalidate, on_publish, on_reap, on_rebind, on_release, on_select, on_update, target_of,
    ttl_error, update_of, valid_ttl, AcquireView, CoordinatorState, SelectionView,
};
use crate::session_affinity::types::{
    invalid_argument, resource_exhausted, validate_bound_target, AffinityEntry, AffinityError,
    AffinityErrorType, AffinityTarget, AffinityVersion, ErrorView, ReplicaApplyOutcome,
    SessionAffinityUpdate, MAX_SESSION_AFFINITY_ENTRIES, MAX_SESSION_AFFINITY_ID_BYTES,
    MAX_SESSION_AFFINITY_TTL_SECS, NANOS_PER_SEC,
};
use crate::text::{bytes_in, concat3, decimal_text};

verus! {

/// The sessions of a router and what they are bound to. Times are in nanoseconds from a
/// common start.
pub struct AffinityCoordinator {
    entries: DashMap<String, AffinityEntry>,
    ttl: u64,
    max_entries: usize,
    max_session_id_bytes: usize,
    entry_count: usize,
    next_revision: u64,
    epoch: u64,
    counter: u64,
    router_id: Option<u64>,
}

impl View for AffinityCoordinator {
    type V = CoordinatorState;

    closed spec fn view(&self) -> CoordinatorState {
        CoordinatorState {
            entries: entries_of(self.entries),
            ttl: self.ttl as nat,
            max_entries: self.max_entries as nat,
            max_id_bytes: self.max_session_id_bytes as nat,
            next_revision: self.next_revision,
            epoch: self.epoch,
            counter: self.counter,
            router_id: self.router_id,
        }
    }
}

/// A request that is to select a worker for a session.
pub struct AffinityInitialization {
    session_id: String,
    revision: u64,
    requested_target: Option<AffinityTarget>,
}

/// Keeps a binding alive until the request that holds it has ended.
pub struct AffinityLease {
    session_id: String,
    revision: u64,
}

/// What a request that asks for a session gets.
pub enum AffinityAcquire {
    Initialize(AffinityInitialization),
    Bound { target: AffinityTarget, lease: AffinityLease },
}

/// What a request that asks for a session is to do.
pub enum AffinityStep {
    /// Go on with what it got.
    Acquired(AffinityAcquire),
    /// Wait until the initialization of the given revision has ended, and ask again.
    Wait { revision: u64 },
}

impl AffinityInitialization {
    /// The session.
    pub closed spec fn session(&self) -> Seq<char> {
        self.session_id@
    }

    /// The revision of its entry.
    pub closed spec fn at(&self) -> u64 {
        self.revision
    }

    /// The target that the request asks for.
    pub closed spec fn requested(&self) -> Option<AffinityTarget> {
        self.requested_target
    }

    /// The session.
    pub fn session_id(&self) -> (id: &str)
        ensures
            id@ == self.session(),
    {
        self.session_id.as_str()
    }

    /// The revision that requests which wait for this one wait for.
    pub fn revision(&self) -> (revision: u64)
        ensures
            revision == self.at(),
    {
        self.revision
    }
}

impl AffinityLease {
    /// The session.
    pub closed spec fn session(&self) -> Seq<char> {
        self.session_id@
    }

    /// The revision of its binding.
    pub closed spec fn at(&self) -> u64 {
        self.revision
    }
}

impl DeepView for AffinityAcquire {
    type V = AcquireView;

    open spec fn deep_view(&self) -> AcquireView {
        match self {
            AffinityAcquire::Initialize(first) => AcquireView::Initialize {
                session_id: first.session(),
                revision: first.at(),
                requested: first.requested(),
            },
            AffinityAcquire::Bound { target, lease } => AcquireView::Bound {
                session_id: lease.session(),
                target: *target,
                revision: lease.at(),
            },
        }
    }
}

/// What a request is told, as a value.
pub open spec fn step_view(step: Result<AffinityStep, AffinityError>) -> AcquireView {
    match step {
        Ok(AffinityStep::Acquired(acquired)) => acquired.deep_view(),
        Ok(AffinityStep::Wait { revision }) => AcquireView::Wait { revision },
        Err(error) => AcquireView::Failed(error.deep_view()),
    }
}

impl AffinityCoordinator {
    /// The coordinator is in order: there are no more sessions than there may be, and it
    /// knows how many there are.
    pub open spec fn wf(&self) -> bool {
        &&& self@.wf()
        &&& self.counted() == self@.entries.dom().len()
    }

    /// The number of sessions that the coordinator keeps.
    pub closed spec fn counted(&self) -> nat {
        self.entry_count as nat
    }

    /// A coordinator that holds no session. `epoch` is the time at which it starts, in
    /// nanoseconds since 1970.
    pub fn new(ttl: u128, epoch: u64) -> (result: Result<AffinityCoordinator, AffinityError>)
        ensures
            result is Ok == valid_ttl(ttl as nat),
            result matches Ok(coordinator) ==> {
                &&& coordinator.wf()
                &&& coordinator@ == fresh_coordinator(
                    ttl as nat,
                    MAX_SESSION_AFFINITY_ENTRIES as nat,
                    MAX_SESSION_AFFINITY_ID_BYTES as nat,
                    epoch,
                )
            },
            result matches Err(error) ==> error.deep_view() == ttl_error(),
    {
        Self::new_with_limits(
            ttl,
            MAX_SESSION_AFFINITY_ENTRIES,
            MAX_SESSION_AFFINITY_ID_BYTES,
            epoch,
        )
    }

    /// A coordinator with other limits.
    pub fn new_with_limits(
        ttl: u128,
        max_entries: usize,
        max_session_id_bytes: usize,
        epoch: u64,
    ) -> (result: Result<AffinityCoordinator, AffinityError>)
        ensures
            result is Ok == valid_ttl(ttl as nat),
            result matches Ok(coordinator) ==> {
                &&& coordinator.wf()
                &&& coordinator@ == fresh_coordinator(
                    ttl as nat,
                    max_entries as nat,
                    max_session_id_bytes as nat,
                    epoch,
                )
            },
            result matches Err(error) ==> error.deep_view() == ttl_error(),
    {
        let longest: u128 = MAX_SESSION_AFFINITY_TTL_SECS as u128 * NANOS_PER_SEC;
        if ttl < NANOS_PER_SEC || ttl > longest {
            return Err(
                invalid_argument(
                    "session affinity TTL must be between 1 and 31536000 seconds".to_owned(),
                ),
            );
        }
        let coordinator = AffinityCoordinator {
            entries: no_entries(),
            ttl: ttl as u64,
            max_entries,
            max_session_id_bytes,
            entry_count: 0,
            next_revision: 1,
            epoch,
            counter: 0,
            router_id: None,
        };
        assert(coordinator@ =~= fresh_coordinator(
            ttl as nat,
            max_entries as nat,
            max_session_id_bytes as nat,
            epoch,
        ));
        Ok(coordinator)
    }

    /// From now on others are told of bindings, under the given id. This can be done once.
    pub fn enable_replica_sync(&mut self, router_id: u64) -> (result: Result<(), AffinityError>)
        requires
            old(self).wf(),
        ensures
            final(self).wf(),
            result is Ok == (old(self)@.router_id is None),
            result is Ok ==> final(self)@ == (CoordinatorState {
                router_id: Some(router_id),
                ..old(self)@
            }),
            result matches Err(error) ==> final(self)@ == old(self)@ && error.deep_view() == (
            ErrorView {
                error_type: AffinityErrorType::Internal,
                message: "session affinity replica sync already enabled"@,
            }),
    {
        if self.router_id.is_some() {
            return Err(
                AffinityError {
                    error_type: AffinityErrorType::Internal,
                    message: "session affinity replica sync already enabled".to_owned(),
                },
            );
        }
        self.router_id = Some(router_id);
        Ok(())
    }

    /// How many sessions are held.
    pub fn entry_count(&self) -> (count: usize)
        requires
            self.wf(),
        ensures
            count == self@.entries.dom().len(),
    {
        self.entry_count
    }

    /// How long an idle session stays bound.
    pub fn ttl(&self) -> (ttl: u64)
        ensures
            ttl == self@.ttl,
    {
        self.ttl
    }

    /// How often to look for idle sessions: as long as one may be idle, but every 30 seconds.
    pub fn reap_period(&self) -> (period: u64)
        ensures
            period == if self@.ttl < 30_000_000_000 {
                self@.ttl
            } else {
                30_000_000_000
            },
    {
        if self.ttl < 30_000_000_000 {
            self.ttl
        } else {
            30_000_000_000
        }
    }

    /// Whether one more version can be given out.
    pub fn can_version(&self) -> (can: bool)
        ensures
            can == (self@.counter < u64::MAX),
    {
        self.counter < 0xffff_ffff_ffff_ffff
    }

    /// Whether the session can have one more lease.
    pub fn can_lease(&self, session_id: &SessionAffinityId) -> (can: bool)
        ensures
            can == has_lease_room(self@, session_id@),
    {
        match entry_at(&self.entries, session_id.as_str()) {
            Some(AffinityEntry::Bound { active_leases, .. }) => active_leases < usize::MAX,
            _ => true,
        }
    }

    /// A session id may not be too long.
    fn validate_session_id(&self, session_id: &str) -> (result: Result<(), AffinityError>)
        ensures
            result is Ok == (id_error(self@, session_id@) is None),
            result matches Err(error) ==> id_error(self@, session_id@) == Some(error.deep_view()),
    {
        if bytes_in(session_id) > self.max_session_id_bytes {
            return Err(
                invalid_argument(
                    concat3(
                        "session affinity ID must not exceed ",
                        decimal_text(self.max_session_id_bytes as u64).as_str(),
                        " bytes",
                    ),
                ),
            );
        }
        Ok(())
    }

    /// Takes the place of one more session, if there is one.
    fn reserve_entry(&mut self) -> (reserved: bool)
        ensures
            reserved == (old(self).entry_count < old(self).max_entries),
            *final(self) == (AffinityCoordinator {
                entry_count: if reserved {
                    (old(self).entry_count + 1) as usize
                } else {
                    old(self).entry_count
                },
                ..*old(self)
            }),
    {
        if self.entry_count < self.max_entries {
            self.entry_count = self.entry_count + 1;
            true
        } else {
            false
        }
    }

    /// Gives out a revision.
    fn take_revision(&mut self) -> (revision: u64)
        ensures
            revision == old(self)@.next_revision,
            final(self)@ == old(self)@.past_revision(),
            final(self).entry_count == old(self).entry_count,
    {
        let revision: u64 = self.next_revision;
        self.next_revision = if revision == 0xffff_ffff_ffff_ffff {
            0
        } else {
            revision + 1
        };
        revision
    }

    /// Gives out a version.
    fn next_affinity_version(&mut self) -> (version: AffinityVersion)
        requires
            old(self)@.counter < u64::MAX,
        ensures
            version == old(self)@.next_version(),
            final(self)@ == old(self)@.past_version(),
            final(self).entry_count == old(self).entry_count,
    {
        self.counter = self.counter + 1;
        AffinityVersion {
            epoch: self.epoch,
            counter: self.counter,
            router_id: match self.router_id {
                Some(router_id) => router_id,
                None => 0,
            },
        }
    }

    /// Takes note of a version of another router.
    fn observe_affinity_version(&mut self, version: AffinityVersion)
        ensures
            final(self)@ == old(self)@.observed(version),
            final(self).entry_count == old(self).entry_count,
    {
        if version.epoch > self.epoch {
            self.epoch = version.epoch;
            self.counter = version.counter;
        } else if version.epoch == self.epoch && version.counter > self.counter {
            self.counter = version.counter;
        }
    }

    /// Replaces the entry of a session, or makes one.
    fn set_entry(&mut self, session_id: &str, entry: AffinityEntry)
        ensures
            final(self)@ == old(self)@.with_entry(session_id@, entry),
            final(self).entry_count == old(self).entry_count,
    {
        put_entry(&mut self.entries, session_id.to_owned(), entry);
    }

    /// The initialization of a session whose place is taken.
    fn begin_initialization(
        &mut self,
        session_id: &str,
        requested_target: Option<AffinityTarget>,
    ) -> (first: AffinityInitialization)
        ensures
            (final(self)@, AffinityAcquire::Initialize(first).deep_view()) == begin(
                old(self)@,
                session_id@,
                requested_target,
            ),
            final(self).entry_count == old(self).entry_count,
    {
        let revision: u64 = self.take_revision();
        self.set_entry(session_id, AffinityEntry::Initializing { revision });
        AffinityInitialization { session_id: session_id.to_owned(), revision, requested_target }
    }

    /// A request asks for a session. The first one, and the first after the session has
    /// expired, is to select a worker; requests that come meanwhile are to wait; later ones
    /// get the worker that was selected.
    pub fn acquire(
        &mut self,
        session_id: &SessionAffinityId,
        requested_target: Option<AffinityTarget>,
        now: u64,
    ) -> (step: Result<AffinityStep, AffinityError>)
        requires
            old(self).wf(),
            has_lease_room(old(self)@, session_id@),
        ensures
            final(self).wf(),
            (final(self)@, step_view(step)) == on_acquire(
                old(self)@,
                session_id@,
                requested_target,
                now,
            ),
    {
        let id = session_id.as_str();
        match self.validate_session_id(id) {
            Err(error) => {
                return Err(error);
            },
            Ok(()) => {},
        }
        match entry_at(&self.entries, id) {
            None => {
                if !self.reserve_entry() {
                    return Err(
                        resource_exhausted("session affinity entry limit reached".to_owned()),
                    );
                }
                let first = self.begin_initialization(id, requested_target);
                Ok(AffinityStep::Acquired(AffinityAcquire::Initialize(first)))
            },
            Some(AffinityEntry::Initializing { revision }) => Ok(AffinityStep::Wait { revision }),
            Some(
                AffinityEntry::Bound { target, version, revision, active_leases, idle_deadline },
            ) => {
                if active_leases == 0 && idle_deadline <= now {
                    let first = self.begin_initialization(id, requested_target);
                    return Ok(AffinityStep::Acquired(AffinityAcquire::Initialize(first)));
                }
                match validate_bound_target(id, target, requested_target) {
                    Err(error) => {
                        return Err(error);
                    },
                    Ok(()) => {},
                }
                self.set_entry(
                    id,
                    AffinityEntry::Bound {
                        target,
                        version,
                        revision,
                        active_leases: active_leases + 1,
                        idle_deadline,
                    },
                );
                let lease = AffinityLease { session_id: id.to_owned(), revision };
                Ok(AffinityStep::Acquired(AffinityAcquire::Bound { target, lease }))
            },
        }
    }

    /// The target that a session is bound to, if it is. This changes nothing.
    pub fn query_target(
        &self,
        session_id: &SessionAffinityId,
        requested_target: Option<AffinityTarget>,
        now: u64,
    ) -> (result: Result<Option<AffinityTarget>, AffinityError>)
        ensures
            match result {
                Ok(target) => target_of(self@, session_id@, requested_target, now) == Ok::<
                    Option<AffinityTarget>,
                    ErrorView,
                >(target),
                Err(error) => target_of(self@, session_id@, requested_target, now) == Err::<
                    Option<AffinityTarget>,
                    ErrorView,
                >(error.deep_view()),
            },
    {
        let id = session_id.as_str();
        match self.validate_session_id(id) {
            Err(error) => {
                return Err(error);
            },
            Ok(()) => {},
        }
        match entry_at(&self.entries, id) {
            Some(AffinityEntry::Bound { target, active_leases, idle_deadline, .. }) => {
                if active_leases == 0 && idle_deadline <= now {
                    return Ok(None);
                }
                match validate_bound_target(id, target, requested_target) {
                    Err(error) => Err(error),
                    Ok(()) => Ok(Some(target)),
                }
            },
            _ => Ok(None),
        }
    }

    /// An update of another router comes in. It binds the session unless a binding that is
    /// newer, or a request that is selecting a worker, stands.
    pub fn apply_replica_update(
        &mut self,
        update: &SessionAffinityUpdate,
        now: u64,
    ) -> (outcome: ReplicaApplyOutcome)
        requires
            old(self).wf(),
            now + old(self)@.ttl <= u64::MAX,
        ensures
            final(self).wf(),
            (final(self)@, outcome) == on_update(old(self)@, update.deep_view(), now),
    {
        let id = update.session_id.as_str();
        if bytes_in(id) > self.max_session_id_bytes {
            return ReplicaApplyOutcome::RejectedSessionId;
        }
        let target = AffinityTarget { worker_id: update.worker_id, dp_rank: update.dp_rank };
        let version = AffinityVersion {
            epoch: update.version_epoch,
            counter: update.version_counter,
            router_id: if update.version_counter == 0 {
                update.router_id
            } else {
                update.version_router_id
            },
        };
        self.observe_affinity_version(version);
        let idle_deadline: u64 = now + self.ttl;
        let outcome = match entry_at(&self.entries, id) {
            None => {
                if !self.reserve_entry() {
                    return ReplicaApplyOutcome::RejectedCapacity;
                }
                ReplicaApplyOutcome::Inserted
            },
            Some(AffinityEntry::Initializing { .. }) => {
                return ReplicaApplyOutcome::IgnoredInitializing;
            },
            Some(
                AffinityEntry::Bound {
                    target: held,
                    version: current,
                    revision,
                    active_leases,
                    idle_deadline: deadline,
                },
            ) => {
                if active_leases == 0 && deadline <= now && version.at_least(&current) {
                    ReplicaApplyOutcome::ReplacedExpired
                } else if held == target && version.at_least(&current) {
                    self.set_entry(
                        id,
                        AffinityEntry::Bound {
                            target,
                            version,
                            revision,
                            active_leases,
                            idle_deadline,
                        },
                    );
                    return ReplicaApplyOutcome::Refreshed;
                } else if version.at_least(&current) && version != current {
                    ReplicaApplyOutcome::ReplacedNewer
                } else {
                    return ReplicaApplyOutcome::IgnoredStale;
                }
            },
        };
        let revision: u64 = self.take_revision();
        self.set_entry(
            id,
            AffinityEntry::Bound { target, version, revision, active_leases: 0, idle_deadline },
        );
        outcome
    }

    /// What to tell others of a binding.
    fn replica_update(
        &self,
        session_id: &str,
        target: AffinityTarget,
        version: AffinityVersion,
    ) -> (update: Option<SessionAffinityUpdate>)
        ensures
            update.deep_view() == update_of(self@, session_id@, target, version),
    {
        match self.router_id {
            Some(router_id) => Some(
                SessionAffinityUpdate {
                    session_id: session_id.to_owned(),
                    worker_id: target.worker_id,
                    dp_rank: target.dp_rank,
                    router_id,
                    version_epoch: version.epoch,
                    version_counter: version.counter,
                    version_router_id: version.router_id,
                },
            ),
            None => None,
        }
    }

    /// Removes the binding, or with `bound` false the initialization, of a session, if it
    /// stands at the given revision.
    fn remove_at(&mut self, session_id: &str, revision: u64, bound: bool)
        requires
            old(self).wf(),
        ensures
            final(self).wf(),
            final(self)@ == if old(self)@.holds_at(session_id@, revision, bound) {
                old(self)@.without_entry(session_id@)
            } else {
                old(self)@
            },
    {
        if remove_entry(&mut self.entries, session_id, revision, bound) {
            assert(old(self)@.entries.dom().len() > 0) by {
                assert(old(self)@.entries.dom().remove(session_id@).len()
                    == old(self)@.entries.dom().len() - 1);
            }
            self.entry_count = self.entry_count - 1;
        }
    }

    /// Drops the idle sessions whose time is over.
    pub fn reap(&mut self, now: u64)
        requires
            old(self).wf(),
        ensures
            final(self).wf(),
            final(self)@ == on_reap(old(self)@, now),
    {
        remove_expired(&mut self.entries, now);
        proof {
            let kept = self@.entries.dom();
            let before = old(self)@.entries.dom();
            assert(kept.subset_of(before));
            vstd::set_lib::lemma_len_subset(kept, before);
        }
        self.entry_count = count_entries(&self.entries);
    }
}

/// Whether a session can have one more lease.
pub open spec fn has_lease_room(state: CoordinatorState, session_id: Seq<char>) -> bool {
    state.holds(session_id) ==> (state.entries[session_id] matches AffinityEntry::Bound {
        active_leases,
        ..
    } ==> active_leases < usize::MAX)
}

impl AffinityInitialization {
    /// The session is bound to the selected target, and the request holds a lease on it. Where
    /// that cannot be, the initialization is given up.
    pub fn commit(
        self,
        coordinator: &mut AffinityCoordinator,
        target: AffinityTarget,
        now: u64,
    ) -> (result: Result<AffinityLease, AffinityError>)
        requires
            old(coordinator).wf(),
            old(coordinator)@.counter < u64::MAX,
            now + old(coordinator)@.ttl <= u64::MAX,
        ensures
            final(coordinator).wf(),
            final(coordinator)@ == on_commit(
                old(coordinator)@,
                self.session(),
                self.at(),
                self.requested(),
                target,
                now,
            ),
            match result {
                Ok(lease) => {
                    &&& commit_error(
                        old(coordinator)@,
                        self.session(),
                        self.at(),
                        self.requested(),
                        target,
                    ) is None
                    &&& lease.session() == self.session()
                    &&& lease.at() == self.at()
                },
                Err(error) => commit_error(
                    old(coordinator)@,
                    self.session(),
                    self.at(),
                    self.requested(),
                    target,
                ) == Some(error.deep_view()),
            },
    {
        let id = self.session_id.as_str();
        match validate_bound_target(id, target, self.requested_target) {
            Err(error) => {
                coordinator.remove_at(id, self.revision, false);
                return Err(error);
            },
            Ok(()) => {},
        }
        match entry_at(&coordinator.entries, id) {
            None => {
                return Err(
                    invalid_argument("session affinity initialization was cancelled".to_owned()),
                );
            },
            Some(entry) => {
                if !entry.stands_at(self.revision, false) {
                    return Err(
                        invalid_argument("session affinity initialization changed".to_owned()),
                    );
                }
            },
        }
        let version = coordinator.next_affinity_version();
        coordinator.set_entry(
            id,
            AffinityEntry::Bound {
                target,
                version,
                revision: self.revision,
                active_leases: 1,
                idle_deadline: now + coordinator.ttl,
            },
        );
        proof {
            let before = old(coordinator)@.entries.dom();
            assert(before.insert(self.session_id@) =~= before);
        }
        Ok(AffinityLease { session_id: id.to_owned(), revision: self.revision })
    }

    /// The initialization is given up.
    pub fn cancel(self, coordinator: &mut AffinityCoordinator)
        requires
            old(coordinator).wf(),
        ensures
            final(coordinator).wf(),
            final(coordinator)@ == on_cancel(old(coordinator)@, self.session(), self.at()),
    {
        coordinator.remove_at(self.session_id.as_str(), self.revision, false);
    }
}

impl AffinityLease {
    /// What to tell others of a target that the request was sent to.
    pub fn publish(
        &self,
        coordinator: &AffinityCoordinator,
        target: AffinityTarget,
    ) -> (update: Option<SessionAffinityUpdate>)
        ensures
            update.deep_view() == on_publish(coordinator@, self.session(), self.at(), target),
    {
        match entry_at(&coordinator.entries, self.session_id.as_str()) {
            Some(AffinityEntry::Bound { target: current, version, revision, .. }) => {
                if revision == self.revision && current == target {
                    coordinator.replica_update(self.session_id.as_str(), target, version)
                } else {
                    None
                }
            },
            _ => None,
        }
    }

    /// The binding moves to another target, unless it has moved or gone since the lease was
    /// given.
    pub fn rebind(
        self,
        coordinator: &mut AffinityCoordinator,
        target: AffinityTarget,
        now: u64,
    ) -> (rebound: Option<AffinityLease>)
        requires
            old(coordinator).wf(),
            old(coordinator)@.counter < u64::MAX,
            now + old(coordinator)@.ttl <= u64::MAX,
        ensures
            final(coordinator).wf(),
            rebound is Some == old(coordinator)@.holds_at(self.session(), self.at(), true),
            rebound is None ==> final(coordinator)@ == old(coordinator)@,
            rebound matches Some(lease) ==> {
                &&& final(coordinator)@ == on_rebind(
                    old(coordinator)@,
                    self.session(),
                    target,
                    now,
                )
                &&& lease.session() == self.session()
                &&& lease.at() == old(coordinator)@.next_revision
            },
    {
        let id = self.session_id.as_str();
        match entry_at(&coordinator.entries, id) {
            None => {
                return None;
            },
            Some(entry) => {
                if !entry.stands_at(self.revision, true) {
                    return None;
                }
            },
        }
        let revision: u64 = coordinator.take_revision();
        let version = coordinator.next_affinity_version();
        coordinator.set_entry(
            id,
            AffinityEntry::Bound {
                target,
                version,
                revision,
                active_leases: 1,
                idle_deadline: now + coordinator.ttl,
            },
        );
        proof {
            let before = old(coordinator)@.entries.dom();
            assert(before.insert(self.session_id@) =~= before);
        }
        Some(AffinityLease { session_id: id.to_owned(), revision })
    }

    /// The request has ended. The result is what to tell others.
    pub fn release(
        self,
        coordinator: &mut AffinityCoordinator,
        now: u64,
    ) -> (update: Option<SessionAffinityUpdate>)
        requires
            old(coordinator).wf(),
            now + old(coordinator)@.ttl <= u64::MAX,
        ensures
            final(coordinator).wf(),
            (final(coordinator)@, update.deep_view()) == on_release(
                old(coordinator)@,
                self.session(),
                self.at(),
                now,
            ),
    {
        let id = self.session_id.as_str();
        match entry_at(&coordinator.entries, id) {
            Some(AffinityEntry::Bound { target, version, revision, active_leases, .. }) => {
                if revision != self.revision || active_leases == 0 {
                    return None;
                }
                coordinator.set_entry(
                    id,
                    AffinityEntry::Bound {
                        target,
                        version,
                        revision,
                        active_leases: active_leases - 1,
                        idle_deadline: now + coordinator.ttl,
                    },
                );
                proof {
                    let before = old(coordinator)@.entries.dom();
                    assert(before.insert(self.session_id@) =~= before);
                }
                coordinator.replica_update(id, target, version)
            },
            _ => None,
        }
    }

    /// The binding turned out to be of no use, and is dropped if it stands.
    pub fn invalidate(self, coordinator: &mut AffinityCoordinator)
        requires
            old(coordinator).wf(),
        ensures
            final(coordinator).wf(),
            final(coordinator)@ == on_invalidate(old(coordinator)@, self.session(), self.at()),
    {
        coordinator.remove_at(self.session_id.as_str(), self.revision, true);
    }
}

/// What a request that has selected a target goes on with: a lease on its session, unless the
/// session has moved or gone meanwhile, and what to tell others.
pub struct Selection {
    pub lease: Option<AffinityLease>,
    pub update: Option<SessionAffinityUpdate>,
}

impl DeepView for Selection {
    type V = SelectionView;

    open spec fn deep_view(&self) -> SelectionView {
        SelectionView {
            lease: match self.lease {
                Some(lease) => Some(lease.at()),
                None => None,
            },
            update: self.update.deep_view(),
        }
    }
}

impl AffinityAcquire {
    /// The session that was acquired.
    pub open spec fn session(&self) -> Seq<char> {
        match self {
            AffinityAcquire::Initialize(first) => first.session(),
            AffinityAcquire::Bound { lease, .. } => lease.session(),
        }
    }

    /// The target that the session is bound to, if it is.
    pub fn target(&self) -> (target: Option<AffinityTarget>)
        ensures
            target == match *self {
                AffinityAcquire::Initialize(_) => None,
                AffinityAcquire::Bound { target, .. } => Some(target),
            },
    {
        match self {
            AffinityAcquire::Initialize(_) => None,
            AffinityAcquire::Bound { target, .. } => Some(*target),
        }
    }

    /// The request failed: a binding that it was given is dropped, and a session that it was
    /// to initialize is given up.
    pub fn invalidate(self, coordinator: &mut AffinityCoordinator)
        requires
            old(coordinator).wf(),
        ensures
            final(coordinator).wf(),
            final(coordinator)@ == match self {
                AffinityAcquire::Initialize(first) => on_cancel(
                    old(coordinator)@,
                    first.session(),
                    first.at(),
                ),
                AffinityAcquire::Bound { lease, .. } => on_invalidate(
                    old(coordinator)@,
                    lease.session(),
                    lease.at(),
                ),
            },
    {
        match self {
            AffinityAcquire::Initialize(first) => first.cancel(coordinator),
            AffinityAcquire::Bound { lease, .. } => lease.invalidate(coordinator),
        }
    }

    /// The request has selected a target.
    pub fn complete_selection(
        self,
        coordinator: &mut AffinityCoordinator,
        selected_target: AffinityTarget,
        now: u64,
    ) -> (result: Result<Selection, AffinityError>)
        requires
            old(coordinator).wf(),
            old(coordinator)@.counter < u64::MAX,
            now + old(coordinator)@.ttl <= u64::MAX,
        ensures
            final(coordinator).wf(),
            match result {
                Ok(selection) => {
                    &&& (final(coordinator)@, Ok::<SelectionView, ErrorView>(selection.deep_view()))
                        == on_select(old(coordinator)@, self.deep_view(), selected_target, now)
                    &&& selection.lease matches Some(lease) ==> lease.session() == self.session()
                },
                Err(error) => (
                    final(coordinator)@,
                    Err::<SelectionView, ErrorView>(error.deep_view()),
                ) == on_select(old(coordinator)@, self.deep_view(), selected_target, now),
            },
    {
        match self {
            AffinityAcquire::Initialize(first) => match first.commit(
                coordinator,
                selected_target,
                now,
            ) {
                Ok(lease) => {
                    let update = lease.publish(coordinator, selected_target);
                    Ok(Selection { lease: Some(lease), update })
                },
                Err(error) => Err(error),
            },
            AffinityAcquire::Bound { target, lease } => {
                let other_rank = match target.dp_rank {
                    Some(rank) => match selected_target.dp_rank {
                        Some(selected) => rank != selected,
                        None => true,
                    },
                    None => false,
                };
                if target.worker_id != selected_target.worker_id || other_rank {
                    match lease.rebind(coordinator, selected_target, now) {
                        Some(rebound) => {
                            let update = rebound.publish(coordinator, selected_target);
                            Ok(Selection { lease: Some(rebound), update })
                        },
                        None => Ok(Selection { lease: None, update: None }),
                    }
                } else {
                    let update = lease.publish(coordinator, target);
                    Ok(Selection { lease: Some(lease), update })
                }
            },
        }
    }
}

} // verus!
