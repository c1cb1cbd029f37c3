//! The lifecycle of one fetch operation.
//!
//! A fetch attempt moves `Initialized -> Loading -> {Complete | Failed}`.
//! `Loading` may be re-entered from `Complete` or `Failed` by dispatching
//! again; the machine has no terminal state. The only triggers are a
//! controller dispatch (which always moves to `Loading`) and a
//! fetch-completion event (which moves a `Loading` machine to `Complete`, or
//! to `Failed` for the single-item variant only).

use vstd::prelude::*;

verus! {

/// Lifecycle position of one fetch attempt.
#[derive(Clone, Copy, Debug, PartialEq, Eq, Structural)]
pub enum UseFetchStatus {
    Initialized,
    Loading,
    Failed,
    Complete,
}

impl Default for UseFetchStatus {
    /// A fetch that was never dispatched.
    fn default() -> (r: Self)
        ensures
            r == UseFetchStatus::Initialized,
    {
        UseFetchStatus::Initialized
    }
}

/// Which of the two hook variants a state machine belongs to: the single-item
/// hook surfaces transport failure as `Failed`, the collection hook swallows
/// it.
#[derive(Clone, Copy, Debug, PartialEq, Eq, Structural)]
pub enum HookKind {
    Single,
    Collection,
}

/// The only events that may move the status.
#[derive(Clone, Copy, Debug, PartialEq, Eq, Structural)]
pub enum FetchEvent {
    /// A controller `dispatch()` call.
    Dispatch,
    /// The transport completed successfully.
    Succeed,
    /// The transport reported a failure.
    Fail,
}

/// The transition function of one fetch attempt's lifecycle: `None` means the
/// event does not move the machine from this state.
pub open spec fn next_status(kind: HookKind, s: UseFetchStatus, e: FetchEvent) -> Option<
    UseFetchStatus,
> {
    match e {
        FetchEvent::Dispatch => Some(UseFetchStatus::Loading),
        FetchEvent::Succeed => if s == UseFetchStatus::Loading {
            Some(UseFetchStatus::Complete)
        } else {
            None
        },
        FetchEvent::Fail => if s == UseFetchStatus::Loading && kind == HookKind::Single {
            Some(UseFetchStatus::Failed)
        } else {
            None
        },
    }
}

/// Executable form of [`next_status`].
pub fn apply_event(kind: HookKind, s: UseFetchStatus, e: FetchEvent) -> (r: Option<UseFetchStatus>)
    ensures
        r == next_status(kind, s, e),
{
    match e {
        FetchEvent::Dispatch => Some(UseFetchStatus::Loading),
        FetchEvent::Succeed => if s == UseFetchStatus::Loading {
            Some(UseFetchStatus::Complete)
        } else {
            None
        },
        FetchEvent::Fail => if s == UseFetchStatus::Loading && kind == HookKind::Single {
            Some(UseFetchStatus::Failed)
        } else {
            None
        },
    }
}

/// Coverage of the lifecycle: from `Initialized` only `Loading` is reachable;
/// from `Loading` both `Complete` and `Failed` are reachable for the
/// single-item variant but only `Complete` for the collection variant; from
/// `Complete` or `Failed` the machine moves only back to `Loading`, and only
/// by a re-dispatch.
pub proof fn lemma_status_machine_coverage()
    ensures
        forall|kind: HookKind, e: FetchEvent|
            #[trigger] next_status(kind, UseFetchStatus::Initialized, e) matches Some(t) ==> t
                == UseFetchStatus::Loading,
        forall|kind: HookKind|
            #[trigger] next_status(kind, UseFetchStatus::Loading, FetchEvent::Succeed) == Some(
                UseFetchStatus::Complete,
            ),
        next_status(HookKind::Single, UseFetchStatus::Loading, FetchEvent::Fail) == Some(
            UseFetchStatus::Failed,
        ),
        next_status(HookKind::Collection, UseFetchStatus::Loading, FetchEvent::Fail) is None,
        forall|kind: HookKind, s: UseFetchStatus, e: FetchEvent|
            (s == UseFetchStatus::Complete || s == UseFetchStatus::Failed) ==> (#[trigger] next_status(
                kind,
                s,
                e,
            ) matches Some(t) ==> t == UseFetchStatus::Loading && e == FetchEvent::Dispatch),
{
}

} // verus!
