//! Targets, versions, bindings and errors.

use vstd::prelude::*;

use crate::text::{concat3, decimal, decimal_text};

verus! {

/// The longest time, in seconds, that an idle session can stay bound.
pub const MAX_SESSION_AFFINITY_TTL_SECS: u64 = 31_536_000;

/// How many sessions a coordinator holds.
pub const MAX_SESSION_AFFINITY_ENTRIES: usize = 262_144;

/// How many bytes a session id may have.
pub const MAX_SESSION_AFFINITY_ID_BYTES: usize = 256;

/// Nanoseconds in a second.
pub const NANOS_PER_SEC: u128 = 1_000_000_000;

/// The worker that a session is bound to, and the data parallel rank on it where one was
/// selected.
#[derive(Clone, Copy, Debug, PartialEq, Eq, Structural)]
pub struct AffinityTarget {
    pub worker_id: u64,
    pub dp_rank: Option<u32>,
}

/// The version of a binding: when the router that made it started, how many it had made or
/// heard of, and which router it is.
#[derive(Clone, Copy, Debug, PartialEq, Eq, Structural)]
pub struct AffinityVersion {
    pub epoch: u64,
    pub counter: u64,
    pub router_id: u64,
}

impl AffinityVersion {
    /// Whether a version is the same as another or newer: by epoch, then by counter, then by
    /// router.
    pub open spec fn covers(self, other: AffinityVersion) -> bool {
        if self.epoch != other.epoch {
            self.epoch > other.epoch
        } else if self.counter != other.counter {
            self.counter > other.counter
        } else {
            self.router_id >= other.router_id
        }
    }

    /// Whether a version is the same as another or newer.
    pub fn at_least(&self, other: &AffinityVersion) -> (covers: bool)
        ensures
            covers == self.covers(*other),
    {
        if self.epoch != other.epoch {
            self.epoch > other.epoch
        } else if self.counter != other.counter {
            self.counter > other.counter
        } else {
            self.router_id >= other.router_id
        }
    }
}

/// What a coordinator holds of a session. Times are in nanoseconds.
#[derive(Clone, Copy, Debug, PartialEq, Eq, Structural)]
pub enum AffinityEntry {
    /// A request is selecting a worker for it.
    Initializing { revision: u64 },
    /// It is bound.
    Bound {
        target: AffinityTarget,
        version: AffinityVersion,
        revision: u64,
        active_leases: usize,
        idle_deadline: u64,
    },
}

impl AffinityEntry {
    /// Whether a binding has been idle for too long.
    pub open spec fn expired(self, now: u64) -> bool {
        self matches AffinityEntry::Bound { active_leases, idle_deadline, .. } && active_leases == 0
            && idle_deadline <= now
    }

    /// Whether a binding has been idle for too long.
    pub fn is_expired(&self, now: u64) -> (expired: bool)
        ensures
            expired == self.expired(now),
    {
        match self {
            AffinityEntry::Bound { active_leases, idle_deadline, .. } => *active_leases == 0
                && *idle_deadline <= now,
            AffinityEntry::Initializing { .. } => false,
        }
    }

    /// The revision at which the entry was made.
    pub open spec fn made_at(self) -> u64 {
        match self {
            AffinityEntry::Initializing { revision } => revision,
            AffinityEntry::Bound { revision, .. } => revision,
        }
    }

    /// Whether the entry is the binding, or with `bound` false the initialization, of the
    /// given revision.
    pub open spec fn is_at(self, revision: u64, bound: bool) -> bool {
        self.made_at() == revision && (self is Bound) == bound
    }

    /// Whether the entry is the binding, or with `bound` false the initialization, of the
    /// given revision.
    pub fn stands_at(&self, at: u64, bound: bool) -> (stands: bool)
        ensures
            stands == self.is_at(at, bound),
    {
        match self {
            AffinityEntry::Initializing { revision } => !bound && *revision == at,
            AffinityEntry::Bound { revision, .. } => bound && *revision == at,
        }
    }
}

/// What a router tells the others of a binding.
#[derive(Clone, Debug, PartialEq, Eq)]
pub struct SessionAffinityUpdate {
    pub session_id: String,
    pub worker_id: u64,
    pub dp_rank: Option<u32>,
    pub router_id: u64,
    pub version_epoch: u64,
    pub version_counter: u64,
    pub version_router_id: u64,
}

/// An update as a value.
#[verifier::ext_equal]
pub struct UpdateView {
    pub session_id: Seq<char>,
    pub worker_id: u64,
    pub dp_rank: Option<u32>,
    pub router_id: u64,
    pub version_epoch: u64,
    pub version_counter: u64,
    pub version_router_id: u64,
}

impl DeepView for SessionAffinityUpdate {
    type V = UpdateView;

    open spec fn deep_view(&self) -> UpdateView {
        UpdateView {
            session_id: self.session_id@,
            worker_id: self.worker_id,
            dp_rank: self.dp_rank,
            router_id: self.router_id,
            version_epoch: self.version_epoch,
            version_counter: self.version_counter,
            version_router_id: self.version_router_id,
        }
    }
}

impl UpdateView {
    /// The target that an update tells.
    pub open spec fn target(self) -> AffinityTarget {
        AffinityTarget { worker_id: self.worker_id, dp_rank: self.dp_rank }
    }

    /// The version that an update tells. One without a counter comes from a router that knows
    /// no versions, and counts as made by the router that sent it.
    pub open spec fn version(self) -> AffinityVersion {
        AffinityVersion {
            epoch: self.version_epoch,
            counter: self.version_counter,
            router_id: if self.version_counter == 0 {
                self.router_id
            } else {
                self.version_router_id
            },
        }
    }
}

/// What became of an update.
#[derive(Clone, Copy, Debug, PartialEq, Eq, Structural)]
pub enum ReplicaApplyOutcome {
    Inserted,
    Refreshed,
    ReplacedExpired,
    ReplacedNewer,
    IgnoredInitializing,
    IgnoredStale,
    RejectedSessionId,
    RejectedCapacity,
}

/// The kind of an error.
#[derive(Clone, Copy, Debug, PartialEq, Eq, Structural)]
pub enum AffinityErrorType {
    InvalidArgument,
    ResourceExhausted,
    Cancelled,
    Internal,
}

/// An error of session affinity.
#[derive(Clone, Debug, PartialEq, Eq)]
pub struct AffinityError {
    pub error_type: AffinityErrorType,
    pub message: String,
}

/// An error as a value.
#[verifier::ext_equal]
pub struct ErrorView {
    pub error_type: AffinityErrorType,
    pub message: Seq<char>,
}

impl DeepView for AffinityError {
    type V = ErrorView;

    open spec fn deep_view(&self) -> ErrorView {
        ErrorView { error_type: self.error_type, message: self.message@ }
    }
}

/// An argument is wrong.
pub fn invalid_argument(message: String) -> (error: AffinityError)
    ensures
        error.deep_view() == (ErrorView {
            error_type: AffinityErrorType::InvalidArgument,
            message: message@,
        }),
{
    AffinityError { error_type: AffinityErrorType::InvalidArgument, message }
}

/// A limit is reached.
pub fn resource_exhausted(message: String) -> (error: AffinityError)
    ensures
        error.deep_view() == (ErrorView {
            error_type: AffinityErrorType::ResourceExhausted,
            message: message@,
        }),
{
    AffinityError { error_type: AffinityErrorType::ResourceExhausted, message }
}

/// A request was cancelled while it waited for another to select a worker.
pub fn cancelled(context_id: &str) -> (error: AffinityError)
    ensures
        error.deep_view() == (ErrorView {
            error_type: AffinityErrorType::Cancelled,
            message: "request "@ + context_id@
                + " was cancelled while waiting for session affinity"@,
        }),
{
    AffinityError {
        error_type: AffinityErrorType::Cancelled,
        message: concat3(
            "request ",
            context_id,
            " was cancelled while waiting for session affinity",
        ),
    }
}

/// The error of a request that asks for another target than a session is bound to, if it is
/// one: another worker, another rank, or a rank where none was selected.
pub open spec fn target_error(
    session_id: Seq<char>,
    bound: AffinityTarget,
    requested: Option<AffinityTarget>,
) -> Option<ErrorView> {
    match requested {
        None => None,
        Some(wanted) => {
            let message = if bound.worker_id != wanted.worker_id {
                Some(
                    "session "@ + session_id + " is bound to worker "@ + decimal(
                        bound.worker_id as nat,
                    ) + ", not "@ + decimal(wanted.worker_id as nat),
                )
            } else {
                match (bound.dp_rank, wanted.dp_rank) {
                    (Some(held), Some(rank)) if held != rank => Some(
                        "session "@ + session_id + " is bound to DP rank "@ + decimal(held as nat)
                            + ", not "@ + decimal(rank as nat),
                    ),
                    (None, Some(rank)) => Some(
                        "session "@ + session_id
                            + " has worker-only affinity and cannot add DP rank "@ + decimal(
                            rank as nat,
                        ),
                    ),
                    _ => None,
                }
            };
            match message {
                Some(text) => Some(
                    ErrorView { error_type: AffinityErrorType::InvalidArgument, message: text },
                ),
                None => None,
            }
        },
    }
}

/// A request may ask only for what a session is bound to.
pub fn validate_bound_target(
    session_id: &str,
    bound: AffinityTarget,
    requested: Option<AffinityTarget>,
) -> (result: Result<(), AffinityError>)
    ensures
        result matches Err(error) ==> target_error(session_id@, bound, requested) == Some(
            error.deep_view(),
        ),
        result is Ok ==> target_error(session_id@, bound, requested) is None,
{
    let wanted = match requested {
        None => {
            return Ok(());
        },
        Some(wanted) => wanted,
    };
    let mut message = concat3("session ", session_id, "");
    assert(message@ =~= "session "@ + session_id@) by {
        reveal_strlit("");
    }
    if bound.worker_id != wanted.worker_id {
        message.append(" is bound to worker ");
        message.append(decimal_text(bound.worker_id).as_str());
        message.append(", not ");
        message.append(decimal_text(wanted.worker_id).as_str());
        return Err(invalid_argument(message));
    }
    match (bound.dp_rank, wanted.dp_rank) {
        (Some(held), Some(rank)) => {
            if held != rank {
                message.append(" is bound to DP rank ");
                message.append(decimal_text(held as u64).as_str());
                message.append(", not ");
                message.append(decimal_text(rank as u64).as_str());
                return Err(invalid_argument(message));
            }
            Ok(())
        },
        (None, Some(rank)) => {
            message.append(" has worker-only affinity and cannot add DP rank ");
            message.append(decimal_text(rank as u64).as_str());
            Err(invalid_argument(message))
        },
        _ => Ok(()),
    }
}

} // verus!
