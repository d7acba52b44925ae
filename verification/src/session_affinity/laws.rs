//! What holds of every coordinator: how versions order bindings, who may touch an entry, and
//! how long a session stays bound.

use vstd::prelude::*;

use crate::session_affinity::state::{
    begin, id_error, on_acquire, on_cancel, on_commit, on_invalidate, on_publish, on_reap,
    on_rebind, on_release, on_select, on_update, target_of, update_of, AcquireView,
    CoordinatorState,
};
use crate::session_affinity::types::{
    AffinityEntry, AffinityTarget, AffinityVersion, ErrorView, ReplicaApplyOutcome, UpdateView,
};

verus! {

/// A target and the version of its binding.
pub struct Binding {
    pub target: AffinityTarget,
    pub version: AffinityVersion,
}

/// What a session is bound to, expired or not.
pub open spec fn binding(state: CoordinatorState, session_id: Seq<char>) -> Option<Binding> {
    if !state.holds(session_id) {
        None
    } else {
        match state.entries[session_id] {
            AffinityEntry::Bound { target, version, .. } => Some(
                Binding { target, version },
            ),
            AffinityEntry::Initializing { .. } => None,
        }
    }
}

/// Versions are in a total order.
pub proof fn law_versions_are_ordered(a: AffinityVersion, b: AffinityVersion, c: AffinityVersion)
    ensures
        a.covers(a),
        a.covers(b) || b.covers(a),
        a.covers(b) && b.covers(a) ==> a == b,
        a.covers(b) && b.covers(c) ==> a.covers(c),
{
}

/// A binding that a coordinator makes is newer than everything that it has seen.
pub proof fn law_new_versions_are_newer(state: CoordinatorState, seen: AffinityVersion)
    requires
        state.observed(seen).counter < u64::MAX,
    ensures
        state.observed(seen).next_version().covers(seen),
        state.observed(seen).next_version() != seen,
{
}

/// An update never replaces a binding by an older one, and never touches another session.
pub proof fn law_updates_never_go_back(
    state: CoordinatorState,
    update: UpdateView,
    now: u64,
    session_id: Seq<char>,
)
    ensures
        ({
            let after = on_update(state, update, now).0;
            &&& session_id != update.session_id ==> binding(after, session_id) == binding(
                state,
                session_id,
            ) && after.holds(session_id) == state.holds(session_id)
            &&& binding(state, session_id) matches Some(before) ==> {
                &&& binding(after, session_id) matches Some(binding)
                &&& binding.version.covers(before.version)
            }
        }),
{
}

/// Whether it depends on the time at which an update comes what it does: the session is bound
/// in the same version to another target, and the binding expires between the two times.
pub open spec fn expires_between(
    state: CoordinatorState,
    update: UpdateView,
    at: u64,
    later: u64,
) -> bool {
    binding(state, update.session_id) matches Some(held) && {
        &&& held.version == update.version()
        &&& held.target != update.target()
        &&& state.entries[update.session_id].expired(at)
            != state.entries[update.session_id].expired(later)
    }
}

/// Coordinators converge: two updates of one session leave the same binding in either order
/// and whenever they come, if they do not share a version. The newer of them may not be a
/// second binding in the version that the session is bound in, where that binding expires
/// between the times at which the update comes.
pub proof fn law_updates_commute(
    state: CoordinatorState,
    first: UpdateView,
    second: UpdateView,
    first_at: u64,
    second_later: u64,
    second_at: u64,
    first_later: u64,
)
    requires
        first.session_id == second.session_id,
        first.version() != second.version(),
        first.version().covers(second.version()) ==> !expires_between(
            state,
            first,
            first_at,
            first_later,
        ),
        second.version().covers(first.version()) ==> !expires_between(
            state,
            second,
            second_at,
            second_later,
        ),
    ensures
        binding(
            on_update(on_update(state, first, first_at).0, second, second_later).0,
            first.session_id,
        ) == binding(
            on_update(on_update(state, second, second_at).0, first, first_later).0,
            first.session_id,
        ),
{
}

/// Two updates of a session that was not held, one at `at` and the other at `later`, leave one
/// more session, which is bound to the target of the newer one until the time to live is over.
pub open spec fn binds_newer(
    state: CoordinatorState,
    first: UpdateView,
    second: UpdateView,
    at: u64,
    later: u64,
    asked: u64,
) -> bool {
    let after = on_update(on_update(state, first, at).0, second, later).0;
    let newer = if first.version().covers(second.version()) {
        first
    } else {
        second
    };
    &&& after.entries.dom().len() == state.entries.dom().len() + 1
    &&& target_of(after, first.session_id, None, asked) == Ok::<Option<AffinityTarget>, ErrorView>(
        Some(newer.target()),
    )
}

/// Replicas converge: two updates of a session that was not held, in either order, leave one
/// more session, and until the time to live is over it is bound to the target of the newer one.
pub proof fn law_replicas_converge(
    state: CoordinatorState,
    first: UpdateView,
    second: UpdateView,
    at: u64,
    later: u64,
    asked: u64,
)
    requires
        state.wf(),
        first.session_id == second.session_id,
        first.version() != second.version(),
        !state.holds(first.session_id),
        id_error(state, first.session_id) is None,
        state.entries.dom().len() < state.max_entries,
        at <= later,
        later + state.ttl <= u64::MAX,
        asked < at + state.ttl,
    ensures
        binds_newer(state, first, second, at, later, asked),
        binds_newer(state, second, first, at, later, asked),
{
    let session_id = first.session_id;
    assert(state.entries.dom().insert(session_id).insert(session_id) =~= state.entries.dom().insert(
        session_id,
    ));
}

/// What a coordinator tells of a binding is the binding, and another coordinator that holds
/// nothing of the session is bound by it to the same target in the same version.
pub proof fn law_told_bindings_arrive(
    state: CoordinatorState,
    other: CoordinatorState,
    session_id: Seq<char>,
    target: AffinityTarget,
    version: AffinityVersion,
    now: u64,
)
    requires
        version.counter > 0,
        state.router_id is Some,
        !other.holds(session_id),
        other.entries.dom().len() < other.max_entries,
        id_error(other, session_id) is None,
    ensures
        update_of(state, session_id, target, version) matches Some(update) && {
            &&& on_update(other, update, now).1 == ReplicaApplyOutcome::Inserted
            &&& binding(on_update(other, update, now).0, session_id) == Some(
                Binding { target, version },
            )
        },
{
}

/// Every entry was made at a revision that was given out.
pub open spec fn revisions_given(state: CoordinatorState) -> bool {
    forall|session_id: Seq<char>| #[trigger]
        state.holds(session_id) ==> state.entries[session_id].made_at() < state.next_revision
}

proof fn lemma_given(before: CoordinatorState, after: CoordinatorState, session_id: Seq<char>)
    requires
        revisions_given(before),
        before.next_revision <= after.next_revision,
        after.entries.remove(session_id) == before.entries.remove(session_id),
        after.holds(session_id) ==> after.entries[session_id].made_at() < after.next_revision,
    ensures
        revisions_given(after),
{
    assert forall|id: Seq<char>| #[trigger]
        after.holds(id) implies after.entries[id].made_at() < after.next_revision by {
        if id != session_id {
            assert(after.entries.remove(session_id).dom().contains(id));
            assert(after.entries.remove(session_id)[id] == after.entries[id]);
            assert(before.holds(id));
        }
    }
}

/// Every operation keeps to revisions that were given out, as long as they last.
pub proof fn law_revisions_stay_given(
    state: CoordinatorState,
    session_id: Seq<char>,
    requested: Option<AffinityTarget>,
    target: AffinityTarget,
    update: UpdateView,
    revision: u64,
    now: u64,
)
    requires
        revisions_given(state),
        state.next_revision < u64::MAX,
    ensures
        revisions_given(on_acquire(state, session_id, requested, now).0),
        revisions_given(on_update(state, update, now).0),
        revisions_given(on_commit(state, session_id, revision, requested, target, now)),
        revisions_given(on_cancel(state, session_id, revision)),
        revisions_given(on_rebind(state, session_id, target, now)),
        revisions_given(on_release(state, session_id, revision, now).0),
        revisions_given(on_invalidate(state, session_id, revision)),
        revisions_given(on_reap(state, now)),
{
    let acquired = on_acquire(state, session_id, requested, now).0;
    assert(acquired.entries.remove(session_id) =~= state.entries.remove(session_id));
    assert(state.holds(session_id) ==> state.entries[session_id].made_at() < state.next_revision);
    lemma_given(state, acquired, session_id);
    let updated = on_update(state, update, now).0;
    assert(updated.entries.remove(update.session_id) =~= state.entries.remove(update.session_id));
    assert(state.holds(update.session_id) ==> state.entries[update.session_id].made_at()
        < state.next_revision);
    lemma_given(state, updated, update.session_id);
    let committed = on_commit(state, session_id, revision, requested, target, now);
    assert(committed.entries.remove(session_id) =~= state.entries.remove(session_id));
    lemma_given(state, committed, session_id);
    let rebound = on_rebind(state, session_id, target, now);
    assert(rebound.entries.remove(session_id) =~= state.entries.remove(session_id));
    lemma_given(state, rebound, session_id);
    let released = on_release(state, session_id, revision, now).0;
    assert(released.entries.remove(session_id) =~= state.entries.remove(session_id));
    lemma_given(state, released, session_id);
    let gone = state.without_entry(session_id);
    assert(gone.entries.remove(session_id) =~= state.entries.remove(session_id));
    lemma_given(state, gone, session_id);
    let reaped = on_reap(state, now);
    assert forall|id: Seq<char>| #[trigger]
        reaped.holds(id) implies reaped.entries[id].made_at() < reaped.next_revision by {
        assert(state.holds(id));
    }
}

/// Of two requests that were given the same binding and select another target, the first
/// moves it. The second neither moves nor releases nor drops what the first has made.
pub proof fn law_first_rebind_stands(
    state: CoordinatorState,
    session_id: Seq<char>,
    revision: u64,
    bound: AffinityTarget,
    first: AffinityTarget,
    second: AffinityTarget,
    now: u64,
)
    requires
        revisions_given(state),
        state.holds_at(session_id, revision, true),
        crate::session_affinity::state::moves(bound, second),
    ensures
        ({
            let moved = on_rebind(state, session_id, first, now);
            let late = AcquireView::Bound { session_id, target: bound, revision };
            &&& binding(moved, session_id) == Some(
                Binding { target: first, version: state.next_version() },
            )
            &&& on_select(moved, late, second, now).0 == moved
            &&& on_select(moved, late, second, now).1 matches Ok(selection) && selection.lease
                is None
            &&& on_release(moved, session_id, revision, now).0 == moved
            &&& on_invalidate(moved, session_id, revision) == moved
        }),
{
}

/// While one request selects a worker for a session, all others wait for it, and updates of
/// other routers leave the session alone.
pub proof fn law_initialization_excludes_others(
    state: CoordinatorState,
    session_id: Seq<char>,
    requested: Option<AffinityTarget>,
    wanted: Option<AffinityTarget>,
    update: UpdateView,
    now: u64,
    later: u64,
)
    requires
        id_error(state, session_id) is None,
        on_acquire(state, session_id, requested, now).1 is Initialize,
    ensures
        ({
            let (begun, first) = on_acquire(state, session_id, requested, now);
            let revision = state.next_revision;
            &&& first == AcquireView::Initialize { session_id, revision, requested }
            &&& on_acquire(begun, session_id, wanted, later) == (
                begun,
                AcquireView::Wait { revision },
            )
            &&& target_of(begun, session_id, wanted, later) == Ok::<
                Option<AffinityTarget>,
                crate::session_affinity::types::ErrorView,
            >(None)
            &&& on_update(begun, update, later).0.holds_at(session_id, revision, false)
            &&& on_reap(begun, later).holds_at(session_id, revision, false)
        }),
{
}

/// A request that selects a worker for a session binds it: whoever asks then gets that
/// worker, without waiting.
pub proof fn law_selection_binds(
    state: CoordinatorState,
    session_id: Seq<char>,
    target: AffinityTarget,
    now: u64,
    then: u64,
    later: u64,
)
    requires
        id_error(state, session_id) is None,
        on_acquire(state, session_id, None, now).1 is Initialize,
    ensures
        ({
            let (begun, first) = on_acquire(state, session_id, None, now);
            let (bound, result) = on_select(begun, first, target, then);
            &&& result is Ok
            &&& binding(bound, session_id) == Some(
                Binding { target, version: begun.next_version() },
            )
            &&& on_acquire(bound, session_id, None, later).1 == (AcquireView::Bound {
                session_id,
                target,
                revision: state.next_revision,
            })
        }),
{
}

/// An initialization that is given up leaves the table as it was found.
pub proof fn law_cancel_undoes_initialization(
    state: CoordinatorState,
    session_id: Seq<char>,
    requested: Option<AffinityTarget>,
)
    requires
        !state.holds(session_id),
    ensures
        on_cancel(
            begin(state, session_id, requested).0,
            session_id,
            state.next_revision,
        ).entries == state.entries,
{
    assert(begin(state, session_id, requested).0.entries.remove(session_id) =~= state.entries);
}

/// A session stays bound while a request holds a lease on it, however long that is.
pub proof fn law_leases_keep_bindings(
    state: CoordinatorState,
    session_id: Seq<char>,
    target: AffinityTarget,
    revision: u64,
    now: u64,
    later: u64,
)
    requires
        on_acquire(state, session_id, None, now).1 == (AcquireView::Bound {
            session_id,
            target,
            revision,
        }),
        crate::session_affinity::coordinator::has_lease_room(state, session_id),
    ensures
        ({
            let held = on_acquire(state, session_id, None, now).0;
            &&& target_of(held, session_id, None, later) == Ok::<
                Option<AffinityTarget>,
                crate::session_affinity::types::ErrorView,
            >(Some(target))
            &&& on_reap(held, later).entries.dom().contains(session_id)
        }),
{
}

/// When the last lease on a session ends, the session stays bound for the time to live and
/// no longer.
pub proof fn law_last_release_starts_the_clock(
    state: CoordinatorState,
    session_id: Seq<char>,
    target: AffinityTarget,
    version: AffinityVersion,
    revision: u64,
    idle_deadline: u64,
    now: u64,
    later: u64,
)
    requires
        id_error(state, session_id) is None,
        state.holds(session_id),
        state.entries[session_id] == (AffinityEntry::Bound {
            target,
            version,
            revision,
            active_leases: 1,
            idle_deadline,
        }),
        now + state.ttl <= u64::MAX,
    ensures
        ({
            let after = on_release(state, session_id, revision, now).0;
            &&& target_of(after, session_id, None, later) == Ok::<
                Option<AffinityTarget>,
                crate::session_affinity::types::ErrorView,
            >(
                if later < now + state.ttl {
                    Some(target)
                } else {
                    None
                },
            )
            &&& on_reap(after, later).holds(session_id) == (later < now + state.ttl)
        }),
{
}

/// What a coordinator tells at the end of a request is what it told when the request was
/// sent, where nothing has moved the session meanwhile.
pub proof fn law_completion_repeats_the_update(
    state: CoordinatorState,
    session_id: Seq<char>,
    revision: u64,
    target: AffinityTarget,
    now: u64,
)
    requires
        on_publish(state, session_id, revision, target) is Some,
        state.entries[session_id]->active_leases > 0,
    ensures
        on_release(state, session_id, revision, now).1 == on_publish(
            state,
            session_id,
            revision,
            target,
        ),
{
}

} // verus!
