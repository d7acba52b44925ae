//! What the requests of a session and the replicas of a router can rely on: how leases are
//! counted, who is refused and why, how long a binding lasts, and that sessions are apart.

use vstd::prelude::*;

use crate::session_affinity::coordinator::has_lease_room;
use crate::session_affinity::state::{
    commit_error, on_acquire, on_cancel, on_commit, on_invalidate, on_publish, on_reap, on_rebind,
    on_release, on_select, on_update, target_of, AcquireView, CoordinatorState,
};
use crate::session_affinity::types::{
    target_error, AffinityEntry, AffinityErrorType, AffinityTarget, AffinityVersion,
    ReplicaApplyOutcome, UpdateView,
};
use crate::text::{byte_len, decimal};

verus! {

/// Whether a session is bound to a target, in a version and at a revision, with a number of
/// leases and a time at which it expires if it is idle.
pub open spec fn is_bound(
    state: CoordinatorState,
    session_id: Seq<char>,
    target: AffinityTarget,
    version: AffinityVersion,
    revision: u64,
    leases: int,
    deadline: int,
) -> bool {
    &&& state.entries.dom().contains(session_id)
    &&& state.entries[session_id] matches AffinityEntry::Bound {
        target: held,
        version: of,
        revision: at,
        active_leases,
        idle_deadline,
    } && {
        &&& held == target
        &&& of == version
        &&& at == revision
        &&& active_leases == leases
        &&& idle_deadline == deadline
    }
}

/// Whether two states hold the same of every session but one.
pub open spec fn same_but(
    before: CoordinatorState,
    after: CoordinatorState,
    session_id: Seq<char>,
) -> bool {
    forall|other: Seq<char>|
        other != session_id ==> {
            &&& (#[trigger] after.entries.dom().contains(other)) == before.entries.dom().contains(
                other,
            )
            &&& before.entries.dom().contains(other) ==> after.entries[other]
                == before.entries[other]
        }
}

/// Whether a session answers with a target at every time, and no reaper drops it.
pub open spec fn stays_bound(
    state: CoordinatorState,
    session_id: Seq<char>,
    target: AffinityTarget,
) -> bool {
    forall|later: u64|
        {
            &&& (#[trigger] target_of(state, session_id, None, later)) matches Ok(Some(held))
                && held == target
            &&& on_reap(state, later).entries.dom().contains(session_id)
        }
}

/// A request that gets a bound session adds one lease to it and changes nothing else of it.
pub proof fn law_acquiring_adds_one_lease(
    state: CoordinatorState,
    session_id: Seq<char>,
    target: AffinityTarget,
    version: AffinityVersion,
    revision: u64,
    leases: int,
    deadline: int,
    now: u64,
)
    requires
        byte_len(session_id) <= state.max_id_bytes,
        is_bound(state, session_id, target, version, revision, leases, deadline),
        leases < usize::MAX,
        leases > 0 || now < deadline,
    ensures
        ({
            let (after, got) = on_acquire(state, session_id, None, now);
            &&& got == AcquireView::Bound { session_id, target, revision }
            &&& is_bound(after, session_id, target, version, revision, leases + 1, deadline)
            &&& stays_bound(after, session_id, target)
            &&& same_but(state, after, session_id)
            &&& after.next_revision == state.next_revision
            &&& after.epoch == state.epoch
            &&& after.counter == state.counter
        }),
{
}

/// The end of one lease takes one lease from a session and starts its clock anew. A session
/// that has another lease stays bound for as long as that lasts.
pub proof fn law_releasing_takes_one_lease(
    state: CoordinatorState,
    session_id: Seq<char>,
    target: AffinityTarget,
    version: AffinityVersion,
    revision: u64,
    leases: int,
    deadline: int,
    now: u64,
)
    requires
        byte_len(session_id) <= state.max_id_bytes,
        is_bound(state, session_id, target, version, revision, leases, deadline),
        leases > 0,
        now + state.ttl <= u64::MAX,
    ensures
        ({
            let (after, told) = on_release(state, session_id, revision, now);
            &&& is_bound(
                after,
                session_id,
                target,
                version,
                revision,
                leases - 1,
                now + state.ttl,
            )
            &&& leases > 1 ==> stays_bound(after, session_id, target)
            &&& same_but(state, after, session_id)
            &&& after.next_revision == state.next_revision
            &&& after.counter == state.counter
            &&& told is Some == state.router_id is Some
            &&& told matches Some(update) ==> {
                &&& update.session_id == session_id
                &&& update.worker_id == target.worker_id
                &&& update.dp_rank == target.dp_rank
                &&& update.router_id == state.router_id->0
                &&& update.version_epoch == version.epoch
                &&& update.version_counter == version.counter
                &&& update.version_router_id == version.router_id
            }
        }),
{
}

/// The state after requests have got a session, at the given times.
pub open spec fn after_acquires(
    state: CoordinatorState,
    session_id: Seq<char>,
    times: Seq<u64>,
) -> CoordinatorState
    decreases times.len(),
{
    if times.len() == 0 {
        state
    } else {
        on_acquire(
            after_acquires(state, session_id, times.drop_last()),
            session_id,
            None,
            times.last(),
        ).0
    }
}

/// The state after leases on a session have ended, at the given times.
pub open spec fn after_releases(
    state: CoordinatorState,
    session_id: Seq<char>,
    revision: u64,
    times: Seq<u64>,
) -> CoordinatorState
    decreases times.len(),
{
    if times.len() == 0 {
        state
    } else {
        on_release(
            after_releases(state, session_id, revision, times.drop_last()),
            session_id,
            revision,
            times.last(),
        ).0
    }
}

proof fn lemma_acquires(
    state: CoordinatorState,
    session_id: Seq<char>,
    target: AffinityTarget,
    version: AffinityVersion,
    revision: u64,
    leases: int,
    deadline: int,
    times: Seq<u64>,
)
    requires
        byte_len(session_id) <= state.max_id_bytes,
        is_bound(state, session_id, target, version, revision, leases, deadline),
        leases + times.len() <= usize::MAX,
        leases > 0 || forall|i: int| 0 <= i < times.len() ==> #[trigger] times[i] < deadline,
    ensures
        ({
            let after = after_acquires(state, session_id, times);
            &&& is_bound(
                after,
                session_id,
                target,
                version,
                revision,
                leases + times.len(),
                deadline,
            )
            &&& after.max_id_bytes == state.max_id_bytes
            &&& after.ttl == state.ttl
        }),
    decreases times.len(),
{
    if times.len() > 0 {
        let rest = times.drop_last();
        assert forall|i: int| 0 <= i < rest.len() implies #[trigger] rest[i] == times[i] by {}
        lemma_acquires(state, session_id, target, version, revision, leases, deadline, rest);
        assert(times[times.len() - 1] == times.last());
        law_acquiring_adds_one_lease(
            after_acquires(state, session_id, rest),
            session_id,
            target,
            version,
            revision,
            leases + rest.len(),
            deadline,
            times.last(),
        );
    }
}

proof fn lemma_releases(
    state: CoordinatorState,
    session_id: Seq<char>,
    target: AffinityTarget,
    version: AffinityVersion,
    revision: u64,
    leases: int,
    deadline: int,
    times: Seq<u64>,
)
    requires
        byte_len(session_id) <= state.max_id_bytes,
        is_bound(state, session_id, target, version, revision, leases, deadline),
        times.len() <= leases,
        forall|i: int| 0 <= i < times.len() ==> #[trigger] times[i] + state.ttl <= u64::MAX,
    ensures
        ({
            let after = after_releases(state, session_id, revision, times);
            &&& is_bound(
                after,
                session_id,
                target,
                version,
                revision,
                leases - times.len(),
                if times.len() == 0 {
                    deadline
                } else {
                    times.last() + state.ttl
                },
            )
            &&& after.max_id_bytes == state.max_id_bytes
            &&& after.ttl == state.ttl
        }),
    decreases times.len(),
{
    if times.len() > 0 {
        let rest = times.drop_last();
        assert forall|i: int| 0 <= i < rest.len() implies #[trigger] rest[i] == times[i] by {}
        lemma_releases(state, session_id, target, version, revision, leases, deadline, rest);
        assert(times[times.len() - 1] == times.last());
        law_releasing_takes_one_lease(
            after_releases(state, session_id, revision, rest),
            session_id,
            target,
            version,
            revision,
            leases - rest.len(),
            if rest.len() == 0 {
                deadline
            } else {
                rest.last() + state.ttl
            },
            times.last(),
        );
    }
}

/// As many leases as were taken have to end before a session can expire: until then it stays
/// bound at any time, and from the last of them on for the time to live and no longer.
pub proof fn law_every_lease_has_to_end(
    state: CoordinatorState,
    session_id: Seq<char>,
    target: AffinityTarget,
    version: AffinityVersion,
    revision: u64,
    leases: int,
    deadline: int,
    acquired: Seq<u64>,
    released: Seq<u64>,
    later: u64,
)
    requires
        byte_len(session_id) <= state.max_id_bytes,
        is_bound(state, session_id, target, version, revision, leases, deadline),
        leases + acquired.len() <= usize::MAX,
        leases > 0 || forall|i: int| 0 <= i < acquired.len() ==> #[trigger] acquired[i] < deadline,
        0 < released.len() <= leases + acquired.len(),
        forall|i: int|
            0 <= i < released.len() ==> #[trigger] released[i] + state.ttl <= u64::MAX,
    ensures
        ({
            let after = after_releases(
                after_acquires(state, session_id, acquired),
                session_id,
                revision,
                released,
            );
            &&& released.len() < leases + acquired.len() ==> stays_bound(after, session_id, target)
            &&& released.len() == leases + acquired.len() ==> {
                let kept = later < released.last() + state.ttl;
                &&& kept ==> (target_of(after, session_id, None, later) matches Ok(Some(held))
                    && held == target)
                &&& !kept ==> (target_of(after, session_id, None, later) matches Ok(held)
                    && held is None)
                &&& on_reap(after, later).entries.dom().contains(session_id) == kept
            }
        }),
{
    lemma_acquires(state, session_id, target, version, revision, leases, deadline, acquired);
    lemma_releases(
        after_acquires(state, session_id, acquired),
        session_id,
        target,
        version,
        revision,
        leases + acquired.len(),
        deadline,
        released,
    );
}

/// A lease ends only the binding that it was taken on: with another revision, on a session that
/// is being initialized or on one that is not held, nothing happens and nothing is told.
pub proof fn law_stray_leases_change_nothing(
    state: CoordinatorState,
    session_id: Seq<char>,
    revision: u64,
    target: AffinityTarget,
    now: u64,
)
    requires
        !state.entries.dom().contains(session_id) || !(
        state.entries[session_id] matches AffinityEntry::Bound { revision: at, .. } && at
            == revision),
    ensures
        on_release(state, session_id, revision, now).0 == state,
        on_release(state, session_id, revision, now).1 is None,
        on_publish(state, session_id, revision, target) is None,
        on_invalidate(state, session_id, revision) == state,
{
}

/// A binding that is given up is gone, and the next request is to select a worker.
pub proof fn law_invalidated_sessions_are_gone(
    state: CoordinatorState,
    session_id: Seq<char>,
    target: AffinityTarget,
    version: AffinityVersion,
    revision: u64,
    leases: int,
    deadline: int,
    requested: Option<AffinityTarget>,
    later: u64,
)
    requires
        state.wf(),
        byte_len(session_id) <= state.max_id_bytes,
        is_bound(state, session_id, target, version, revision, leases, deadline),
    ensures
        ({
            let after = on_invalidate(state, session_id, revision);
            &&& !after.entries.dom().contains(session_id)
            &&& after.entries.dom().len() == state.entries.dom().len() - 1
            &&& same_but(state, after, session_id)
            &&& target_of(after, session_id, requested, later) matches Ok(held) && held is None
            &&& on_acquire(after, session_id, requested, later).1 is Initialize
        }),
{
    let after = on_invalidate(state, session_id, revision);
    assert(after.entries.dom() =~= state.entries.dom().remove(session_id));
}

/// Whether a request may have a session that is bound: it asks for nothing, or for the worker
/// and, if it names a rank, for the rank that the session is bound to.
pub open spec fn may_have(bound: AffinityTarget, requested: Option<AffinityTarget>) -> bool {
    requested matches Some(wanted) ==> {
        &&& wanted.worker_id == bound.worker_id
        &&& wanted.dp_rank matches Some(rank) ==> bound.dp_rank == Some(rank)
    }
}

/// Who asks for a bound session gets it exactly if it asks for nothing else than the session is
/// bound to, and is otherwise refused as a wrong argument. A refusal changes nothing.
pub proof fn law_other_targets_are_refused(
    state: CoordinatorState,
    session_id: Seq<char>,
    target: AffinityTarget,
    version: AffinityVersion,
    revision: u64,
    leases: int,
    deadline: int,
    requested: Option<AffinityTarget>,
    now: u64,
)
    requires
        byte_len(session_id) <= state.max_id_bytes,
        is_bound(state, session_id, target, version, revision, leases, deadline),
        leases > 0 || now < deadline,
    ensures
        ({
            let (after, got) = on_acquire(state, session_id, requested, now);
            let asked = target_of(state, session_id, requested, now);
            &&& may_have(target, requested) ==> {
                &&& got == AcquireView::Bound { session_id, target, revision }
                &&& asked matches Ok(Some(held)) && held == target
            }
            &&& !may_have(target, requested) ==> {
                &&& got matches AcquireView::Failed(error) && error.error_type
                    == AffinityErrorType::InvalidArgument
                &&& asked matches Err(error) && error.error_type
                    == AffinityErrorType::InvalidArgument
                &&& after == state
            }
        }),
{
}

/// A session that is not held, or has expired, is for the request to initialize, at a revision
/// that was not given out before; where the table is full and the session is not in it the
/// request is refused. An id that is too long is always refused, and nothing changes.
pub proof fn law_free_sessions_are_initialized(
    state: CoordinatorState,
    session_id: Seq<char>,
    requested: Option<AffinityTarget>,
    now: u64,
)
    requires
        !state.entries.dom().contains(session_id) || (
        state.entries[session_id] matches AffinityEntry::Bound { active_leases, idle_deadline, .. }
            && active_leases == 0 && idle_deadline <= now),
    ensures
        ({
            let (after, got) = on_acquire(state, session_id, requested, now);
            let long = byte_len(session_id) > state.max_id_bytes;
            let full = !state.entries.dom().contains(session_id) && state.entries.dom().len()
                >= state.max_entries;
            &&& long ==> {
                &&& got matches AcquireView::Failed(error) && error.error_type
                    == AffinityErrorType::InvalidArgument
                &&& target_of(state, session_id, requested, now) is Err
                &&& after == state
            }
            &&& !long ==> (target_of(state, session_id, requested, now) matches Ok(held)
                && held is None)
            &&& !long && full ==> {
                &&& got matches AcquireView::Failed(error) && error.error_type
                    == AffinityErrorType::ResourceExhausted
                &&& after == state
            }
            &&& !long && !full ==> {
                &&& got == AcquireView::Initialize {
                    session_id,
                    revision: state.next_revision,
                    requested,
                }
                &&& after.entries.dom().contains(session_id)
                &&& after.entries[session_id] == AffinityEntry::Initializing {
                    revision: state.next_revision,
                }
                &&& after.next_revision != state.next_revision
                &&& same_but(state, after, session_id)
            }
        }),
{
}

/// A request that selects a worker binds the session to it with one lease and in a version of
/// its own, if it asked for nothing else; the session is then bound until the lease ends.
/// Otherwise the selection fails and the session is free again.
pub proof fn law_commits_bind_with_one_lease(
    state: CoordinatorState,
    session_id: Seq<char>,
    revision: u64,
    requested: Option<AffinityTarget>,
    selected: AffinityTarget,
    now: u64,
)
    requires
        byte_len(session_id) <= state.max_id_bytes,
        state.entries.dom().contains(session_id),
        state.entries[session_id] == (AffinityEntry::Initializing { revision }),
        now + state.ttl <= u64::MAX,
        state.counter < u64::MAX,
    ensures
        ({
            let acquired = AcquireView::Initialize { session_id, revision, requested };
            let (after, result) = on_select(state, acquired, selected, now);
            &&& same_but(state, after, session_id)
            &&& after == on_commit(state, session_id, revision, requested, selected, now)
            &&& may_have(selected, requested) ==> {
                &&& is_bound(
                    after,
                    session_id,
                    selected,
                    AffinityVersion {
                        epoch: state.epoch,
                        counter: (state.counter + 1) as u64,
                        router_id: match state.router_id {
                            Some(id) => id,
                            None => 0,
                        },
                    },
                    revision,
                    1,
                    now + state.ttl,
                )
                &&& after.counter == state.counter + 1
                &&& stays_bound(after, session_id, selected)
                &&& result matches Ok(selection) && {
                    &&& selection.lease == Some(revision)
                    &&& selection.update is Some == state.router_id is Some
                    &&& selection.update matches Some(update) ==> {
                        &&& update.session_id == session_id
                        &&& update.worker_id == selected.worker_id
                        &&& update.dp_rank == selected.dp_rank
                        &&& update.version_epoch == state.epoch
                        &&& update.version_counter == state.counter + 1
                    }
                }
            }
            &&& !may_have(selected, requested) ==> {
                &&& result matches Err(error) && error.error_type
                    == AffinityErrorType::InvalidArgument
                &&& !after.entries.dom().contains(session_id)
            }
        }),
{
}

/// A request that was given a bound session and selects the worker that it is bound to leaves
/// the binding as it is and keeps its lease. A binding without a rank takes any rank.
pub proof fn law_selecting_the_bound_worker_changes_nothing(
    state: CoordinatorState,
    session_id: Seq<char>,
    target: AffinityTarget,
    version: AffinityVersion,
    revision: u64,
    leases: int,
    deadline: int,
    selected: AffinityTarget,
    now: u64,
)
    requires
        is_bound(state, session_id, target, version, revision, leases, deadline),
        now + state.ttl <= u64::MAX,
        state.counter < u64::MAX,
    ensures
        ({
            let acquired = AcquireView::Bound { session_id, target, revision };
            let (after, result) = on_select(state, acquired, selected, now);
            let stays = selected.worker_id == target.worker_id && (target.dp_rank is None
                || target.dp_rank == selected.dp_rank);
            &&& result is Ok
            &&& stays ==> {
                &&& after == state
                &&& result->Ok_0.lease == Some(revision)
                &&& result->Ok_0.update matches Some(update) ==> update.worker_id
                    == target.worker_id && update.dp_rank == target.dp_rank
                    && update.version_counter == version.counter && update.version_epoch
                    == version.epoch
            }
            &&& !stays ==> {
                &&& is_bound(
                    after,
                    session_id,
                    selected,
                    AffinityVersion {
                        epoch: state.epoch,
                        counter: (state.counter + 1) as u64,
                        router_id: match state.router_id {
                            Some(id) => id,
                            None => 0,
                        },
                    },
                    state.next_revision,
                    1,
                    now + state.ttl,
                )
                &&& result->Ok_0.lease == Some(state.next_revision)
                &&& result->Ok_0.update matches Some(update) ==> update.worker_id
                    == selected.worker_id && update.dp_rank == selected.dp_rank
                    && update.version_counter == state.counter + 1
                &&& after.next_revision != state.next_revision
                &&& after.counter == state.counter + 1
            }
            &&& result->Ok_0.update is Some == state.router_id is Some
            &&& same_but(state, after, session_id)
        }),
{
}

/// A commit of another revision, or of a session that is not being initialized, fails and
/// changes nothing.
pub proof fn law_late_commits_fail(
    state: CoordinatorState,
    session_id: Seq<char>,
    revision: u64,
    requested: Option<AffinityTarget>,
    selected: AffinityTarget,
    now: u64,
)
    requires
        !state.entries.dom().contains(session_id) || state.entries[session_id] != (
        AffinityEntry::Initializing { revision }),
    ensures
        ({
            let acquired = AcquireView::Initialize { session_id, revision, requested };
            &&& on_select(state, acquired, selected, now).0 == state
            &&& on_select(state, acquired, selected, now).1 matches Err(error)
                && error.error_type == AffinityErrorType::InvalidArgument
            &&& on_cancel(state, session_id, revision) == state
        }),
{
}

/// A reaper drops exactly the sessions that are idle and whose time is over, and leaves all
/// else as it is.
pub proof fn law_reapers_drop_what_has_expired(
    state: CoordinatorState,
    session_id: Seq<char>,
    now: u64,
)
    ensures
        ({
            let after = on_reap(state, now);
            let dropped = state.entries.dom().contains(session_id) && (
            state.entries[session_id] matches AffinityEntry::Bound {
                active_leases,
                idle_deadline,
                ..
            } && active_leases == 0 && idle_deadline <= now);
            &&& after.entries.dom().contains(session_id) == (state.entries.dom().contains(
                session_id,
            ) && !dropped)
            &&& after.entries.dom().contains(session_id) ==> after.entries[session_id]
                == state.entries[session_id]
            &&& after.next_revision == state.next_revision
            &&& after.counter == state.counter
            &&& after.epoch == state.epoch
        }),
{
}

/// A version is newer by its epoch first, by its counter where the epochs are the same, and by
/// its router where both are.
pub proof fn law_epochs_count_before_counters(a: AffinityVersion, b: AffinityVersion)
    ensures
        a.epoch > b.epoch ==> a.covers(b) && !b.covers(a),
        a.epoch == b.epoch && a.counter > b.counter ==> a.covers(b) && !b.covers(a),
        a.epoch == b.epoch && a.counter == b.counter && a.router_id > b.router_id ==> a.covers(b)
            && !b.covers(a),
        a == b ==> a.covers(b),
{
}

/// Whether a version is newer than another, or the same: by epoch, counter and router.
pub open spec fn not_older(a: AffinityVersion, b: AffinityVersion) -> bool {
    ||| a.epoch > b.epoch
    ||| a.epoch == b.epoch && a.counter > b.counter
    ||| a.epoch == b.epoch && a.counter == b.counter && a.router_id >= b.router_id
}

/// What an update of another router does to a session that is bound. A newer one binds it to
/// the target that is told, at a new revision and without leases; one of the same target, newer
/// or not, as long as it is not older, only renews it and leaves its leases alone; an older one
/// does nothing.
pub proof fn law_updates_bind_what_they_tell(
    state: CoordinatorState,
    update: UpdateView,
    target: AffinityTarget,
    version: AffinityVersion,
    revision: u64,
    leases: int,
    deadline: int,
    now: u64,
)
    requires
        byte_len(update.session_id) <= state.max_id_bytes,
        is_bound(state, update.session_id, target, version, revision, leases, deadline),
        now + state.ttl <= u64::MAX,
    ensures
        ({
            let (after, outcome) = on_update(state, update, now);
            let told = AffinityTarget { worker_id: update.worker_id, dp_rank: update.dp_rank };
            let of = AffinityVersion {
                epoch: update.version_epoch,
                counter: update.version_counter,
                router_id: if update.version_counter == 0 {
                    update.router_id
                } else {
                    update.version_router_id
                },
            };
            let idle = leases == 0 && deadline <= now;
            &&& same_but(state, after, update.session_id)
            &&& !not_older(of, version) ==> {
                &&& outcome == ReplicaApplyOutcome::IgnoredStale
                &&& after.entries == state.entries
            }
            &&& not_older(of, version) && !idle && told == target ==> {
                &&& outcome == ReplicaApplyOutcome::Refreshed
                &&& is_bound(
                    after,
                    update.session_id,
                    target,
                    of,
                    revision,
                    leases,
                    now + state.ttl,
                )
            }
            &&& not_older(of, version) && (idle || told != target && of != version) ==> {
                &&& outcome == if idle {
                    ReplicaApplyOutcome::ReplacedExpired
                } else {
                    ReplicaApplyOutcome::ReplacedNewer
                }
                &&& is_bound(
                    after,
                    update.session_id,
                    told,
                    of,
                    state.next_revision,
                    0,
                    now + state.ttl,
                )
                &&& after.next_revision != state.next_revision
            }
            &&& of == version && told != target && !idle ==> {
                &&& outcome == ReplicaApplyOutcome::IgnoredStale
                &&& after.entries == state.entries
            }
        }),
{
}

/// What an update of another router does to a session that is not bound: it binds one that is
/// not held, if there is a place for it, and leaves one that is being initialized alone. An id
/// that is too long is refused.
pub proof fn law_updates_bind_new_sessions(state: CoordinatorState, update: UpdateView, now: u64)
    requires
        now + state.ttl <= u64::MAX,
    ensures
        ({
            let (after, outcome) = on_update(state, update, now);
            let held = state.entries.dom().contains(update.session_id);
            let full = state.entries.dom().len() >= state.max_entries;
            let long = byte_len(update.session_id) > state.max_id_bytes;
            &&& long ==> outcome == ReplicaApplyOutcome::RejectedSessionId && after == state
            &&& !long && !held && full ==> {
                &&& outcome == ReplicaApplyOutcome::RejectedCapacity
                &&& after.entries == state.entries
            }
            &&& !long && !held && !full ==> {
                &&& outcome == ReplicaApplyOutcome::Inserted
                &&& is_bound(
                    after,
                    update.session_id,
                    AffinityTarget { worker_id: update.worker_id, dp_rank: update.dp_rank },
                    AffinityVersion {
                        epoch: update.version_epoch,
                        counter: update.version_counter,
                        router_id: if update.version_counter == 0 {
                            update.router_id
                        } else {
                            update.version_router_id
                        },
                    },
                    state.next_revision,
                    0,
                    now + state.ttl,
                )
            }
            &&& !long && held && state.entries[update.session_id] is Initializing ==> {
                &&& outcome == ReplicaApplyOutcome::IgnoredInitializing
                &&& after.entries == state.entries
            }
            &&& same_but(state, after, update.session_id)
            &&& !long ==> not_older(
                AffinityVersion { epoch: after.epoch, counter: after.counter, router_id: 0 },
                AffinityVersion {
                    epoch: update.version_epoch,
                    counter: update.version_counter,
                    router_id: 0,
                },
            )
        }),
{
}

/// What is done for one session leaves all other sessions as they are.
pub proof fn law_sessions_are_apart(
    state: CoordinatorState,
    session_id: Seq<char>,
    requested: Option<AffinityTarget>,
    target: AffinityTarget,
    acquired: AcquireView,
    revision: u64,
    now: u64,
)
    requires
        acquired matches AcquireView::Bound { session_id: of, .. } ==> of == session_id,
        acquired matches AcquireView::Initialize { session_id: of, .. } ==> of == session_id,
    ensures
        same_but(state, on_acquire(state, session_id, requested, now).0, session_id),
        same_but(state, on_commit(state, session_id, revision, requested, target, now), session_id),
        same_but(state, on_cancel(state, session_id, revision), session_id),
        same_but(state, on_rebind(state, session_id, target, now), session_id),
        same_but(state, on_release(state, session_id, revision, now).0, session_id),
        same_but(state, on_invalidate(state, session_id, revision), session_id),
        same_but(state, on_select(state, acquired, target, now).0, session_id),
{
}

/// A request may have one more lease exactly where the count of them does not reach its end.
pub proof fn law_lease_room_is_what_the_count_has_left(
    state: CoordinatorState,
    session_id: Seq<char>,
    target: AffinityTarget,
    version: AffinityVersion,
    revision: u64,
    leases: int,
    deadline: int,
)
    requires
        is_bound(state, session_id, target, version, revision, leases, deadline),
    ensures
        has_lease_room(state, session_id) == (leases < usize::MAX),
{
}

/// A refusal says what the session is bound to and what was asked for: another worker, another
/// rank of its worker, or a rank where the session has none. Nothing else is refused.
pub proof fn law_refusals_say_what_is_bound(
    session_id: Seq<char>,
    bound: AffinityTarget,
    requested: Option<AffinityTarget>,
)
    ensures
        target_error(session_id, bound, requested) is None <==> may_have(bound, requested),
        target_error(session_id, bound, requested) matches Some(error) ==> {
            let wanted = requested->0;
            let session = "session "@ + session_id;
            &&& error.error_type == AffinityErrorType::InvalidArgument
            &&& wanted.worker_id != bound.worker_id ==> error.message == session
                + " is bound to worker "@ + decimal(bound.worker_id as nat) + ", not "@ + decimal(
                wanted.worker_id as nat,
            )
            &&& wanted.worker_id == bound.worker_id && bound.dp_rank is Some ==> error.message
                == session + " is bound to DP rank "@ + decimal(bound.dp_rank->0 as nat)
                + ", not "@ + decimal(wanted.dp_rank->0 as nat)
            &&& wanted.worker_id == bound.worker_id && bound.dp_rank is None ==> error.message
                == session + " has worker-only affinity and cannot add DP rank "@ + decimal(
                wanted.dp_rank->0 as nat,
            )
        },
{
}

/// A request whose session id is too long is told the limit, and one that finds no place is told
/// that there is none. Who commits what is no longer there, or has changed, is told which.
pub proof fn law_errors_say_what_is_wrong(
    state: CoordinatorState,
    session_id: Seq<char>,
    revision: u64,
    requested: Option<AffinityTarget>,
    target: AffinityTarget,
    now: u64,
)
    ensures
        byte_len(session_id) > state.max_id_bytes ==> (on_acquire(
            state,
            session_id,
            requested,
            now,
        ).1 matches AcquireView::Failed(error) && error.error_type
            == AffinityErrorType::InvalidArgument && error.message
            == "session affinity ID must not exceed "@ + decimal(state.max_id_bytes) + " bytes"@),
        byte_len(session_id) <= state.max_id_bytes && !state.entries.dom().contains(session_id)
            && state.entries.dom().len() >= state.max_entries ==> (on_acquire(
            state,
            session_id,
            requested,
            now,
        ).1 matches AcquireView::Failed(error) && error.error_type
            == AffinityErrorType::ResourceExhausted && error.message
            == "session affinity entry limit reached"@),
        may_have(target, requested) ==> match commit_error(
            state,
            session_id,
            revision,
            requested,
            target,
        ) {
            Some(error) => {
                &&& error.error_type == AffinityErrorType::InvalidArgument
                &&& !state.entries.dom().contains(session_id) ==> error.message
                    == "session affinity initialization was cancelled"@
                &&& state.entries.dom().contains(session_id) ==> error.message
                    == "session affinity initialization changed"@ && !(
                state.entries[session_id] matches AffinityEntry::Initializing { revision: at }
                    && at == revision)
            },
            None => state.entries.dom().contains(session_id) && (
            state.entries[session_id] matches AffinityEntry::Initializing { revision: at } && at
                == revision),
        },
        !may_have(target, requested) ==> commit_error(
            state,
            session_id,
            revision,
            requested,
            target,
        ) == target_error(session_id, target, requested),
{
}

} // verus!
