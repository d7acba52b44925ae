//! What a coordinator holds, and what each of its operations makes of it.

use vstd::prelude::*;

use crate::session_affinity::entries::unexpired;
use crate::session_affinity::types::{
    target_error, AffinityEntry, AffinityErrorType, AffinityTarget, AffinityVersion, ErrorView,
    ReplicaApplyOutcome, UpdateView, MAX_SESSION_AFFINITY_TTL_SECS, NANOS_PER_SEC,
};
use crate::text::{byte_len, decimal};

verus! {

/// What a coordinator holds. Times are in nanoseconds.
#[verifier::ext_equal]
pub struct CoordinatorState {
    pub entries: Map<Seq<char>, AffinityEntry>,
    /// How long an idle session stays bound.
    pub ttl: nat,
    pub max_entries: nat,
    pub max_id_bytes: nat,
    pub next_revision: u64,
    /// The clock of the versions.
    pub epoch: u64,
    pub counter: u64,
    /// The id under which the coordinator tells others of its bindings, if it does.
    pub router_id: Option<u64>,
}

/// Whether a time to live is within its bounds.
pub open spec fn valid_ttl(ttl: nat) -> bool {
    NANOS_PER_SEC <= ttl <= MAX_SESSION_AFFINITY_TTL_SECS * NANOS_PER_SEC
}

impl CoordinatorState {
    /// There are no more sessions than there may be.
    pub open spec fn wf(self) -> bool {
        &&& self.entries.dom().finite()
        &&& self.entries.dom().len() <= self.max_entries
        &&& self.max_entries <= usize::MAX
        &&& valid_ttl(self.ttl)
    }

    /// Whether a session is held.
    pub open spec fn holds(self, session_id: Seq<char>) -> bool {
        self.entries.dom().contains(session_id)
    }

    /// Whether the entry of a session is the binding, or with `bound` false the
    /// initialization, of the given revision.
    pub open spec fn holds_at(self, session_id: Seq<char>, revision: u64, bound: bool) -> bool {
        self.holds(session_id) && self.entries[session_id].is_at(revision, bound)
    }

    /// The state with the entry of a session replaced.
    pub open spec fn with_entry(self, session_id: Seq<char>, entry: AffinityEntry) -> Self {
        CoordinatorState { entries: self.entries.insert(session_id, entry), ..self }
    }

    /// The state without the entry of a session.
    pub open spec fn without_entry(self, session_id: Seq<char>) -> Self {
        CoordinatorState { entries: self.entries.remove(session_id), ..self }
    }

    /// The state after a revision was given out. Revisions start over at the machine limit.
    pub open spec fn past_revision(self) -> Self {
        CoordinatorState {
            next_revision: if self.next_revision == u64::MAX {
                0
            } else {
                (self.next_revision + 1) as u64
            },
            ..self
        }
    }

    /// The next version of a binding.
    pub open spec fn next_version(self) -> AffinityVersion {
        AffinityVersion {
            epoch: self.epoch,
            counter: (self.counter + 1) as u64,
            router_id: self.router_id.unwrap_or(0),
        }
    }

    /// The state after a version was given out.
    pub open spec fn past_version(self) -> Self {
        CoordinatorState { counter: (self.counter + 1) as u64, ..self }
    }

    /// The state after a version of another router was seen: versions that are given out later
    /// are newer.
    pub open spec fn observed(self, version: AffinityVersion) -> Self {
        if version.epoch > self.epoch {
            CoordinatorState { epoch: version.epoch, counter: version.counter, ..self }
        } else if version.epoch == self.epoch && version.counter > self.counter {
            CoordinatorState { counter: version.counter, ..self }
        } else {
            self
        }
    }

    /// When a session that is idle from `now` on expires.
    pub open spec fn deadline(self, now: u64) -> u64 {
        (now + self.ttl) as u64
    }

    /// A binding.
    pub open spec fn bound(
        self,
        target: AffinityTarget,
        version: AffinityVersion,
        revision: u64,
        active_leases: usize,
        now: u64,
    ) -> AffinityEntry {
        AffinityEntry::Bound {
            target,
            version,
            revision,
            active_leases,
            idle_deadline: self.deadline(now),
        }
    }
}

/// A coordinator that holds no session.
pub open spec fn fresh_coordinator(
    ttl: nat,
    max_entries: nat,
    max_id_bytes: nat,
    epoch: u64,
) -> CoordinatorState {
    CoordinatorState {
        entries: Map::empty(),
        ttl,
        max_entries,
        max_id_bytes,
        next_revision: 1,
        epoch,
        counter: 0,
        router_id: None,
    }
}

/// The error of a time to live that is out of bounds.
pub open spec fn ttl_error() -> ErrorView {
    ErrorView {
        error_type: AffinityErrorType::InvalidArgument,
        message: "session affinity TTL must be between 1 and 31536000 seconds"@,
    }
}

/// The error of a session id that is too long, if it is.
pub open spec fn id_error(state: CoordinatorState, session_id: Seq<char>) -> Option<ErrorView> {
    if byte_len(session_id) > state.max_id_bytes {
        Some(
            ErrorView {
                error_type: AffinityErrorType::InvalidArgument,
                message: "session affinity ID must not exceed "@ + decimal(state.max_id_bytes)
                    + " bytes"@,
            },
        )
    } else {
        None
    }
}

/// The error where there is no place for one more session.
pub open spec fn limit_error() -> ErrorView {
    ErrorView {
        error_type: AffinityErrorType::ResourceExhausted,
        message: "session affinity entry limit reached"@,
    }
}

/// What a request that asks for a session gets.
pub enum AcquireView {
    /// It is to select a worker.
    Initialize { session_id: Seq<char>, revision: u64, requested: Option<AffinityTarget> },
    /// It is to use the worker that the session is bound to.
    Bound { session_id: Seq<char>, target: AffinityTarget, revision: u64 },
    /// It is to wait for another request that is selecting a worker, and to ask again.
    Wait { revision: u64 },
    /// It is refused.
    Failed(ErrorView),
}

/// A session that a request begins to initialize.
pub open spec fn begin(
    state: CoordinatorState,
    session_id: Seq<char>,
    requested: Option<AffinityTarget>,
) -> (CoordinatorState, AcquireView) {
    let revision = state.next_revision;
    (
        state.past_revision().with_entry(session_id, AffinityEntry::Initializing { revision }),
        AcquireView::Initialize { session_id, revision, requested },
    )
}

/// A request asks for a session.
pub open spec fn on_acquire(
    state: CoordinatorState,
    session_id: Seq<char>,
    requested: Option<AffinityTarget>,
    now: u64,
) -> (CoordinatorState, AcquireView) {
    if let Some(error) = id_error(state, session_id) {
        (state, AcquireView::Failed(error))
    } else if !state.holds(session_id) {
        if state.entries.dom().len() < state.max_entries {
            begin(state, session_id, requested)
        } else {
            (state, AcquireView::Failed(limit_error()))
        }
    } else {
        let entry = state.entries[session_id];
        match entry {
            AffinityEntry::Initializing { revision } => (state, AcquireView::Wait { revision }),
            AffinityEntry::Bound { target, version, revision, active_leases, idle_deadline } => {
                if entry.expired(now) {
                    begin(state, session_id, requested)
                } else if let Some(error) = target_error(session_id, target, requested) {
                    (state, AcquireView::Failed(error))
                } else {
                    (
                        state.with_entry(
                            session_id,
                            AffinityEntry::Bound {
                                target,
                                version,
                                revision,
                                active_leases: (active_leases + 1) as usize,
                                idle_deadline,
                            },
                        ),
                        AcquireView::Bound { session_id, target, revision },
                    )
                }
            },
        }
    }
}

/// The target that a session is bound to, if it is.
pub open spec fn target_of(
    state: CoordinatorState,
    session_id: Seq<char>,
    requested: Option<AffinityTarget>,
    now: u64,
) -> Result<Option<AffinityTarget>, ErrorView> {
    if let Some(error) = id_error(state, session_id) {
        Err(error)
    } else if !state.holds(session_id) || state.entries[session_id].expired(now) {
        Ok(None)
    } else {
        match state.entries[session_id] {
            AffinityEntry::Initializing { .. } => Ok(None),
            AffinityEntry::Bound { target, .. } => match target_error(
                session_id,
                target,
                requested,
            ) {
                Some(error) => Err(error),
                None => Ok(Some(target)),
            },
        }
    }
}

/// An update of another router comes in.
pub open spec fn on_update(state: CoordinatorState, update: UpdateView, now: u64) -> (
    CoordinatorState,
    ReplicaApplyOutcome,
) {
    let session_id = update.session_id;
    let target = update.target();
    let version = update.version();
    if byte_len(session_id) > state.max_id_bytes {
        (state, ReplicaApplyOutcome::RejectedSessionId)
    } else {
        let seen = state.observed(version);
        let replaced = seen.past_revision().with_entry(
            session_id,
            state.bound(target, version, state.next_revision, 0, now),
        );
        if !state.holds(session_id) {
            if state.entries.dom().len() < state.max_entries {
                (replaced, ReplicaApplyOutcome::Inserted)
            } else {
                (seen, ReplicaApplyOutcome::RejectedCapacity)
            }
        } else {
            let entry = state.entries[session_id];
            match entry {
                AffinityEntry::Initializing { .. } => (
                    seen,
                    ReplicaApplyOutcome::IgnoredInitializing,
                ),
                AffinityEntry::Bound { target: held, version: current, revision, active_leases, .. } => {
                    if entry.expired(now) && version.covers(current) {
                        (replaced, ReplicaApplyOutcome::ReplacedExpired)
                    } else if held == target && version.covers(current) {
                        (
                            seen.with_entry(
                                session_id,
                                state.bound(held, version, revision, active_leases, now),
                            ),
                            ReplicaApplyOutcome::Refreshed,
                        )
                    } else if version.covers(current) && version != current {
                        (replaced, ReplicaApplyOutcome::ReplacedNewer)
                    } else {
                        (seen, ReplicaApplyOutcome::IgnoredStale)
                    }
                },
            }
        }
    }
}

/// What the coordinator tells of a binding, if it tells others.
pub open spec fn update_of(
    state: CoordinatorState,
    session_id: Seq<char>,
    target: AffinityTarget,
    version: AffinityVersion,
) -> Option<UpdateView> {
    match state.router_id {
        Some(router_id) => Some(
            UpdateView {
                session_id,
                worker_id: target.worker_id,
                dp_rank: target.dp_rank,
                router_id,
                version_epoch: version.epoch,
                version_counter: version.counter,
                version_router_id: version.router_id,
            },
        ),
        None => None,
    }
}

/// An initialization is given up: its entry goes, if it is still there.
pub open spec fn on_cancel(
    state: CoordinatorState,
    session_id: Seq<char>,
    revision: u64,
) -> CoordinatorState {
    if state.holds_at(session_id, revision, false) {
        state.without_entry(session_id)
    } else {
        state
    }
}

/// Why an initialization cannot become a binding, if it cannot.
pub open spec fn commit_error(
    state: CoordinatorState,
    session_id: Seq<char>,
    revision: u64,
    requested: Option<AffinityTarget>,
    target: AffinityTarget,
) -> Option<ErrorView> {
    if let Some(error) = target_error(session_id, target, requested) {
        Some(error)
    } else if !state.holds(session_id) {
        Some(
            ErrorView {
                error_type: AffinityErrorType::InvalidArgument,
                message: "session affinity initialization was cancelled"@,
            },
        )
    } else if !state.holds_at(session_id, revision, false) {
        Some(
            ErrorView {
                error_type: AffinityErrorType::InvalidArgument,
                message: "session affinity initialization changed"@,
            },
        )
    } else {
        None
    }
}

/// An initialization becomes a binding with one lease. Where it cannot, it is given up.
pub open spec fn on_commit(
    state: CoordinatorState,
    session_id: Seq<char>,
    revision: u64,
    requested: Option<AffinityTarget>,
    target: AffinityTarget,
    now: u64,
) -> CoordinatorState {
    if commit_error(state, session_id, revision, requested, target) is Some {
        on_cancel(state, session_id, revision)
    } else {
        state.past_version().with_entry(
            session_id,
            state.bound(target, state.next_version(), revision, 1, now),
        )
    }
}

/// What a lease tells others of a target: its binding, where that stands and has the target.
pub open spec fn on_publish(
    state: CoordinatorState,
    session_id: Seq<char>,
    at: u64,
    told: AffinityTarget,
) -> Option<UpdateView> {
    if !state.holds(session_id) {
        None
    } else {
        match state.entries[session_id] {
            AffinityEntry::Bound { target, version, revision, .. } if revision == at && target
                == told => update_of(state, session_id, target, version),
            _ => None,
        }
    }
}

/// A binding that stands moves to another target, with one lease.
pub open spec fn on_rebind(
    state: CoordinatorState,
    session_id: Seq<char>,
    target: AffinityTarget,
    now: u64,
) -> CoordinatorState {
    state.past_revision().past_version().with_entry(
        session_id,
        state.bound(target, state.next_version(), state.next_revision, 1, now),
    )
}

/// A lease ends: its binding, where it stands, has one fewer and is idle from `now` on.
pub open spec fn on_release(
    state: CoordinatorState,
    session_id: Seq<char>,
    at: u64,
    now: u64,
) -> (CoordinatorState, Option<UpdateView>) {
    if !state.holds(session_id) {
        (state, None)
    } else {
        match state.entries[session_id] {
            AffinityEntry::Bound { target, version, revision, active_leases, .. } if revision
                == at && active_leases > 0 => (
                state.with_entry(
                    session_id,
                    state.bound(target, version, revision, (active_leases - 1) as usize, now),
                ),
                update_of(state, session_id, target, version),
            ),
            _ => (state, None),
        }
    }
}

/// A binding is dropped, where it stands.
pub open spec fn on_invalidate(
    state: CoordinatorState,
    session_id: Seq<char>,
    revision: u64,
) -> CoordinatorState {
    if state.holds_at(session_id, revision, true) {
        state.without_entry(session_id)
    } else {
        state
    }
}

/// Idle sessions whose time is over are dropped.
pub open spec fn on_reap(state: CoordinatorState, now: u64) -> CoordinatorState {
    CoordinatorState { entries: unexpired(state.entries, now), ..state }
}

/// Whether a selected target is another than the one that a session is bound to. A binding
/// without a rank takes any rank of its worker.
pub open spec fn moves(bound: AffinityTarget, selected: AffinityTarget) -> bool {
    ||| bound.worker_id != selected.worker_id
    ||| bound.dp_rank is Some && bound.dp_rank != selected.dp_rank
}

/// What a request that has selected a target goes on with: the revision of its lease, if it
/// has one, and what to tell others.
#[verifier::ext_equal]
pub struct SelectionView {
    pub lease: Option<u64>,
    pub update: Option<UpdateView>,
}

/// A request has selected a target. A session that it was to initialize is bound to it; one
/// that is bound to another target moves, unless it has moved or gone meanwhile.
pub open spec fn on_select(
    state: CoordinatorState,
    acquired: AcquireView,
    selected: AffinityTarget,
    now: u64,
) -> (CoordinatorState, Result<SelectionView, ErrorView>) {
    match acquired {
        AcquireView::Initialize { session_id, revision, requested } => {
            let after = on_commit(state, session_id, revision, requested, selected, now);
            match commit_error(state, session_id, revision, requested, selected) {
                Some(error) => (after, Err(error)),
                None => (
                    after,
                    Ok(
                        SelectionView {
                            lease: Some(revision),
                            update: on_publish(after, session_id, revision, selected),
                        },
                    ),
                ),
            }
        },
        AcquireView::Bound { session_id, target, revision } => {
            if !moves(target, selected) {
                (
                    state,
                    Ok(
                        SelectionView {
                            lease: Some(revision),
                            update: on_publish(state, session_id, revision, target),
                        },
                    ),
                )
            } else if state.holds_at(session_id, revision, true) {
                let after = on_rebind(state, session_id, selected, now);
                (
                    after,
                    Ok(
                        SelectionView {
                            lease: Some(state.next_revision),
                            update: on_publish(after, session_id, state.next_revision, selected),
                        },
                    ),
                )
            } else {
                (state, Ok(SelectionView { lease: None, update: None }))
            }
        },
        AcquireView::Wait { .. } => (state, Ok(SelectionView { lease: None, update: None })),
        AcquireView::Failed(error) => (state, Err(error)),
    }
}

} // verus!
