//! The app handle registry, the deferred-dispatch scheduler, and the fetch
//! hooks built on them.
//!
//! All shared state lives in one explicitly constructed [`Runtime`] context
//! object: the keyed hook-state store, the registry of application handles
//! (one per message/model pairing), the two deferral queues, the requests
//! handed to the host transport, and the updates delivered to registered
//! applications.
//!
//! Deferral is modelled as an explicit task system. A controller
//! `dispatch()` synchronously moves the call site's state to `Loading` and
//! macro-defers a start task; the start task looks up the registry and, if
//! an application is registered, micro-defers the launch of the network
//! call and immediately delivers a no-op update so the `Loading` state is
//! rendered; the launch task hands the request to the host. The host
//! performs the transfer and feeds the outcome back through
//! [`Runtime::complete_fetch`], which writes the result into the store and
//! deliberately delivers no update — re-entering the update entry point from
//! a completion is exactly what the deferral layers exist to prevent. The
//! host drains the queues with [`Runtime::step`] or [`Runtime::run_to_idle`]
//! only between render passes, so the update entry point is never re-entered
//! synchronously.

use crate::fetch::FailureInfo;
use crate::fetch::Method;
use crate::fetch::UseFetch;
use crate::fetch::UseFetchCollection;
use crate::fetch::UseFetchCollectionV;
use crate::fetch::UseFetchV;
use crate::json::envelope_json;
use crate::json::envelope_parsable;
use crate::json::jstr_ok;
use crate::json::parse_array_response;
use crate::json::parse_person;
use crate::json::person_json;
use crate::json::person_parsable;
use crate::json::query_json;
use crate::json::serialize_send_message_request_body;
use crate::json::ArrayResponse;
use crate::json::Item;
use crate::json::Person;
use crate::json::SendMessageRequestBody;
use crate::status::UseFetchStatus;
use crate::store::clone_chars;
use crate::store::kind_of;
use crate::store::use_state_tr;
use crate::store::use_state_value;
use crate::store::CallSiteId;
use crate::store::ListState;
use crate::store::HookStore;
use crate::store::HookValue;
use crate::store::HookValueV;
use crate::store::StateAccess;
use vstd::pervasive::unreached;
use vstd::prelude::*;

verus! {

/// The message an application receives when the runtime only needs it to
/// re-render: a no-op/default update.
pub const DEFAULT_MSG: u64 = 0;

/// A cloneable handle to a running application's update entry point, keyed
/// by the message/model pairing it serves.
#[derive(Clone, Copy, Debug, PartialEq, Eq, Structural)]
pub struct AppHandle {
    pub pairing: u64,
}

/// One update delivered to a registered application.
#[derive(Clone, Copy, Debug, PartialEq, Eq, Structural)]
pub struct Update {
    pub pairing: u64,
    pub msg: u64,
}

/// A deferred action awaiting its turn of a queue.
#[derive(Clone, Copy, Debug, PartialEq, Eq, Structural)]
pub enum Task {
    /// Macro-deferred start of a dispatched fetch: runs once the dispatching
    /// call stack has unwound.
    StartDispatch { id: CallSiteId, pairing: u64 },
    /// Micro-deferred launch of the network call of a started dispatch.
    LaunchFetch { id: CallSiteId },
    /// Macro-deferred delivery of an arbitrary message to an application.
    DeferredUpdate { pairing: u64, msg: u64 },
}

/// A network request the runtime has handed to the host transport.
#[derive(Debug)]
pub struct FetchRequest {
    pub id: CallSiteId,
    pub url: Vec<char>,
    pub method: Method,
    pub body: Option<Vec<char>>,
}

/// Mathematical view of [`FetchRequest`].
pub ghost struct FetchRequestV {
    pub id: CallSiteId,
    pub url: Seq<char>,
    pub method: Method,
    pub body: Option<Seq<char>>,
}

impl View for FetchRequest {
    type V = FetchRequestV;

    open spec fn view(&self) -> FetchRequestV {
        FetchRequestV {
            id: self.id,
            url: self.url@,
            method: self.method,
            body: match self.body {
                Some(b) => Some(b@),
                None => None,
            },
        }
    }
}

/// Mathematical view of the whole runtime.
#[verifier::ext_equal]
pub ghost struct RuntimeV {
    pub store: Map<CallSiteId, HookValueV>,
    pub registry: Set<u64>,
    pub macro_queue: Seq<Task>,
    pub micro_queue: Seq<Task>,
    pub in_flight: Seq<FetchRequestV>,
    pub delivered: Seq<Update>,
}

/// The runtime context: every piece of state the hooks share.
pub struct Runtime {
    store: HookStore,
    registry: Vec<u64>,
    macro_queue: Vec<Task>,
    micro_queue: Vec<Task>,
    in_flight: Vec<FetchRequest>,
    delivered: Vec<Update>,
}

impl View for Runtime {
    type V = RuntimeV;

    closed spec fn view(&self) -> RuntimeV {
        RuntimeV {
            store: self.store@,
            registry: Set::new(|p: u64| self.registry@.contains(p)),
            macro_queue: self.macro_queue@,
            micro_queue: self.micro_queue@,
            in_flight: self.in_flight@.map_values(|r: FetchRequest| r@),
            delivered: self.delivered@,
        }
    }
}

/// A fetch state reset for a re-dispatch: `Loading`, with the payload and
/// failure fields cleared and the request parameters kept.
pub open spec fn dispatch_value(v: HookValueV) -> HookValueV {
    match v {
        HookValueV::Single(f) => HookValueV::Single(
            UseFetchV {
                status: UseFetchStatus::Loading,
                string_response: None,
                fail_reason: None,
                url: f.url,
                method: f.method,
            },
        ),
        HookValueV::Collection(c) => HookValueV::Collection(
            UseFetchCollectionV {
                status: UseFetchStatus::Loading,
                string_response: None,
                json_body: c.json_body,
                url: c.url,
                method: c.method,
            },
        ),
        HookValueV::ListSlot(l) => HookValueV::ListSlot(l),
    }
}

/// The runtime state after a controller `dispatch()`: the call site is
/// synchronously `Loading` (visible to the next render pass) and the start
/// of the fetch is macro-deferred; nothing else moves yet.
pub open spec fn dispatch_tr(rt: RuntimeV, id: CallSiteId, pairing: u64) -> RuntimeV {
    RuntimeV {
        store: rt.store.insert(id, dispatch_value(rt.store[id])),
        macro_queue: rt.macro_queue.push(Task::StartDispatch { id, pairing }),
        ..rt
    }
}

/// The runtime state after one popped task runs.
pub open spec fn run_task_tr(rt: RuntimeV, t: Task) -> RuntimeV {
    match t {
        Task::StartDispatch { id, pairing } => if rt.registry.contains(pairing) {
            RuntimeV {
                micro_queue: rt.micro_queue.push(Task::LaunchFetch { id }),
                delivered: rt.delivered.push(Update { pairing, msg: DEFAULT_MSG }),
                ..rt
            }
        } else {
            rt
        },
        Task::LaunchFetch { id } => if rt.store.dom().contains(id) {
            match rt.store[id] {
                HookValueV::Single(f) => RuntimeV {
                    in_flight: rt.in_flight.push(
                        FetchRequestV { id, url: f.url, method: f.method, body: None },
                    ),
                    ..rt
                },
                HookValueV::Collection(c) => RuntimeV {
                    in_flight: rt.in_flight.push(
                        FetchRequestV {
                            id,
                            url: c.url,
                            method: c.method,
                            body: Some(query_json(c.json_body)),
                        },
                    ),
                    ..rt
                },
                HookValueV::ListSlot(_) => rt,
            }
        } else {
            rt
        },
        Task::DeferredUpdate { pairing, msg } => if rt.registry.contains(pairing) {
            RuntimeV { delivered: rt.delivered.push(Update { pairing, msg }), ..rt }
        } else {
            rt
        },
    }
}

/// The runtime state after one event-loop step: the front of the microtask
/// queue runs first; only when it is empty does the front of the macro
/// (timer) queue run.
pub open spec fn step_tr(rt: RuntimeV) -> RuntimeV {
    if rt.micro_queue.len() > 0 {
        run_task_tr(
            RuntimeV { micro_queue: rt.micro_queue.drop_first(), ..rt },
            rt.micro_queue[0],
        )
    } else if rt.macro_queue.len() > 0 {
        run_task_tr(
            RuntimeV { macro_queue: rt.macro_queue.drop_first(), ..rt },
            rt.macro_queue[0],
        )
    } else {
        rt
    }
}

/// A well-formed microtask queue: the runtime micro-defers launch tasks and
/// nothing else.
pub open spec fn micro_wf(q: Seq<Task>) -> bool {
    forall|i: int| 0 <= i < q.len() ==> (#[trigger] q[i]) is LaunchFetch
}

/// The runtime state once both queues have drained.
pub open spec fn drain_tr(rt: RuntimeV) -> RuntimeV
    decreases rt.macro_queue.len(), rt.micro_queue.len(),
        when micro_wf(rt.micro_queue)
        via drain_tr_decreases
{
    if rt.micro_queue.len() == 0 && rt.macro_queue.len() == 0 {
        rt
    } else {
        drain_tr(step_tr(rt))
    }
}

#[via_fn]
proof fn drain_tr_decreases(rt: RuntimeV) {
    if !(rt.micro_queue.len() == 0 && rt.macro_queue.len() == 0) {
        let n = step_tr(rt);
        if rt.micro_queue.len() > 0 {
            assert(rt.micro_queue[0] is LaunchFetch);
            assert(n.macro_queue == rt.macro_queue);
            assert(n.micro_queue == rt.micro_queue.drop_first());
            assert forall|i: int| 0 <= i < n.micro_queue.len() implies (
            #[trigger] n.micro_queue[i]) is LaunchFetch by {
                assert(n.micro_queue[i] == rt.micro_queue[i + 1]);
            }
        } else {
            assert(n.macro_queue == rt.macro_queue.drop_first());
            assert forall|i: int| 0 <= i < n.micro_queue.len() implies (
            #[trigger] n.micro_queue[i]) is LaunchFetch by {
                if i < rt.micro_queue.len() {
                    assert(n.micro_queue[i] == rt.micro_queue[i]);
                }
            }
        }
    }
}

/// A fetch state after the host reports a transport outcome. A success
/// stores the payload and moves to `Complete`. A failure moves a single-item
/// state to `Failed` with the reason, but is swallowed by a collection
/// state, which stays as it was.
pub open spec fn complete_value(
    v: HookValueV,
    outcome: Result<Seq<char>, FailureInfo>,
) -> HookValueV {
    match v {
        HookValueV::Single(f) => match outcome {
            Ok(data) => HookValueV::Single(
                UseFetchV {
                    status: UseFetchStatus::Complete,
                    string_response: Some(data),
                    fail_reason: f.fail_reason,
                    url: f.url,
                    method: f.method,
                },
            ),
            Err(e) => HookValueV::Single(
                UseFetchV {
                    status: UseFetchStatus::Failed,
                    string_response: f.string_response,
                    fail_reason: Some(e),
                    url: f.url,
                    method: f.method,
                },
            ),
        },
        HookValueV::Collection(c) => match outcome {
            Ok(data) => HookValueV::Collection(
                UseFetchCollectionV {
                    status: UseFetchStatus::Complete,
                    string_response: Some(data),
                    json_body: c.json_body,
                    url: c.url,
                    method: c.method,
                },
            ),
            Err(_) => HookValueV::Collection(c),
        },
        HookValueV::ListSlot(l) => HookValueV::ListSlot(l),
    }
}

/// The view of a transport outcome.
pub open spec fn outcome_view(o: Result<Vec<char>, FailureInfo>) -> Result<Seq<char>, FailureInfo> {
    match o {
        Ok(data) => Ok(data@),
        Err(e) => Err(e),
    }
}

/// The runtime state after the host reports the outcome of the in-flight
/// request at position `k`: the request leaves the transport, and the store
/// slot it was issued for — if it still exists — takes the outcome. No
/// update is delivered: the completion never re-enters the update entry
/// point.
pub open spec fn complete_fetch_tr(
    rt: RuntimeV,
    k: int,
    outcome: Result<Seq<char>, FailureInfo>,
) -> RuntimeV {
    let req = rt.in_flight[k];
    if rt.store.dom().contains(req.id) {
        RuntimeV {
            in_flight: rt.in_flight.remove(k),
            store: rt.store.insert(req.id, complete_value(rt.store[req.id], outcome)),
            ..rt
        }
    } else {
        RuntimeV { in_flight: rt.in_flight.remove(k), ..rt }
    }
}

/// The state a single-item fetch hook seeds its call site with.
pub open spec fn init_single(url: Seq<char>, method: Method) -> HookValueV {
    HookValueV::Single(
        UseFetchV {
            status: UseFetchStatus::Initialized,
            string_response: None,
            fail_reason: None,
            url,
            method,
        },
    )
}

/// The state a collection fetch hook seeds its call site with.
pub open spec fn init_collection(url: Seq<char>, body: Seq<char>, method: Method) -> HookValueV {
    HookValueV::Collection(
        UseFetchCollectionV {
            status: UseFetchStatus::Initialized,
            json_body: body,
            string_response: None,
            url,
            method,
        },
    )
}

/// The state the list composition seeds its list call site with.
pub open spec fn init_list() -> HookValueV {
    HookValueV::ListSlot(crate::store::ListStateV { items: Seq::empty(), seeded: false })
}

/// Membership of a pushed element.
proof fn lemma_push_contains(s: Seq<u64>, v: u64)
    ensures
        forall|x: u64| #[trigger] s.push(v).contains(x) <==> (s.contains(x) || x == v),
{
    assert forall|x: u64| #[trigger] s.push(v).contains(x) implies (s.contains(x) || x == v) by {
        let i = choose|i: int| 0 <= i < s.push(v).len() && s.push(v)[i] == x;
        if i < s.len() {
            assert(s[i] == x);
        }
    }
    assert forall|x: u64| (s.contains(x) || x == v) implies #[trigger] s.push(v).contains(x) by {
        if x == v {
            assert(s.push(v)[s.len() as int] == x);
        } else {
            let i = choose|i: int| 0 <= i < s.len() && s[i] == x;
            assert(s.push(v)[i] == x);
        }
    }
}

impl Runtime {
    /// The runtime's internal soundness: a sound store, and only launch
    /// tasks on the microtask queue.
    pub closed spec fn wf(&self) -> bool {
        self.store.wf() && micro_wf(self.micro_queue@)
    }

    /// A fresh runtime: empty store, no application registered, idle queues.
    pub fn new() -> (r: Runtime)
        ensures
            r.wf(),
            r@ == (RuntimeV {
                store: Map::empty(),
                registry: Set::empty(),
                macro_queue: Seq::empty(),
                micro_queue: Seq::empty(),
                in_flight: Seq::empty(),
                delivered: Seq::empty(),
            }),
    {
        let r = Runtime {
            store: HookStore::new(),
            registry: Vec::new(),
            macro_queue: Vec::new(),
            micro_queue: Vec::new(),
            in_flight: Vec::new(),
            delivered: Vec::new(),
        };
        proof {
            assert(r@.registry =~= Set::<u64>::empty());
            assert(r@.in_flight =~= Seq::<FetchRequestV>::empty());
            assert(r@ =~= (RuntimeV {
                store: Map::empty(),
                registry: Set::empty(),
                macro_queue: Seq::empty(),
                micro_queue: Seq::empty(),
                in_flight: Seq::empty(),
                delivered: Seq::empty(),
            }));
        }
        r
    }

    /// Stores a clone of the application handle, replacing any handle
    /// registered earlier for the same pairing; reachable from any execution
    /// context that holds the runtime.
    pub fn init(&mut self, handle: AppHandle)
        requires
            old(self).wf(),
        ensures
            final(self).wf(),
            final(self)@ == (RuntimeV {
                registry: old(self)@.registry.insert(handle.pairing),
                ..old(self)@
            }),
    {
        let present = self.get_app(handle.pairing).is_some();
        if !present {
            let ghost before = self.registry@;
            self.registry.push(handle.pairing);
            proof {
                lemma_push_contains(before, handle.pairing);
                assert(self@.registry =~= old(self)@.registry.insert(handle.pairing));
                assert(self@ =~= (RuntimeV {
                    registry: old(self)@.registry.insert(handle.pairing),
                    ..old(self)@
                }));
            }
        } else {
            proof {
                assert(self@.registry =~= old(self)@.registry.insert(handle.pairing));
                assert(self@ =~= (RuntimeV {
                    registry: old(self)@.registry.insert(handle.pairing),
                    ..old(self)@
                }));
            }
        }
    }

    /// A clone of the registered handle for the pairing, or nothing if no
    /// application has registered for it.
    pub fn get_app(&self, pairing: u64) -> (r: Option<AppHandle>)
        ensures
            r matches Some(h) ==> self@.registry.contains(pairing) && h.pairing == pairing,
            r is None <==> !self@.registry.contains(pairing),
    {
        let mut k: usize = 0;
        while k < self.registry.len()
            invariant
                k <= self.registry@.len(),
                forall|m: int| 0 <= m < k ==> self.registry@[m] != pairing,
            decreases self.registry@.len() - k,
        {
            if self.registry[k] == pairing {
                proof {
                    assert(self.registry@.contains(pairing));
                }
                return Some(AppHandle { pairing });
            }
            k = k + 1;
        }
        proof {
            assert(!self.registry@.contains(pairing)) by {
                if self.registry@.contains(pairing) {
                    let i = choose|i: int|
                        0 <= i < self.registry@.len() && self.registry@[i] == pairing;
                }
            }
        }
        None
    }

    /// Macro-defers the delivery of an arbitrary message to the application
    /// registered for the pairing: the message reaches the application only
    /// after the current call stack has unwound, and only if an application
    /// is registered when the deferred task runs.
    pub fn schedule_update(&mut self, pairing: u64, msg: u64)
        requires
            old(self).wf(),
        ensures
            final(self).wf(),
            final(self)@ == (RuntimeV {
                macro_queue: old(self)@.macro_queue.push(Task::DeferredUpdate { pairing, msg }),
                ..old(self)@
            }),
    {
        self.macro_queue.push(Task::DeferredUpdate { pairing, msg });
        proof {
            assert(self@ =~= (RuntimeV {
                macro_queue: old(self)@.macro_queue.push(Task::DeferredUpdate { pairing, msg }),
                ..old(self)@
            }));
        }
    }

    /// A sound runtime has a well-formed microtask queue.
    pub proof fn lemma_wf_micro(&self)
        requires
            self.wf(),
        ensures
            micro_wf(self@.micro_queue),
    {
    }

    /// Obtains the state stored at `id`, storing `init` first if the call
    /// site has none yet; the store's `use_state`, reached through the
    /// runtime context. Re-using a call site with a value of another shape
    /// is refused explicitly.
    pub fn use_state(&mut self, id: CallSiteId, init: HookValue) -> (r: Result<
        (HookValue, StateAccess),
        crate::store::HookError,
    >)
        requires
            old(self).wf(),
        ensures
            final(self).wf(),
            r is Ok <==> (!old(self)@.store.dom().contains(id) || kind_of(old(self)@.store[id])
                == kind_of(init@)),
            r matches Err(e) ==> e == crate::store::HookError::StateTypeMismatch && final(self)@
                == old(self)@,
            r matches Ok(p) ==> p.1.id == id && final(self)@ == (RuntimeV {
                store: use_state_tr(old(self)@.store, id, init@),
                ..old(self)@
            }) && p.0@ == use_state_value(old(self)@.store, id, init@),
    {
        let r = self.store.use_state(id, init);
        proof {
            if r is Ok {
                assert(self@ =~= (RuntimeV {
                    store: use_state_tr(old(self)@.store, id, init@),
                    ..old(self)@
                }));
            } else {
                assert(self@ =~= old(self)@);
            }
        }
        r
    }

    /// A snapshot of the state a token refers to, or nothing if its call
    /// site has been evicted.
    pub fn read_by_token(&self, token: StateAccess) -> (r: Option<HookValue>)
        requires
            self.wf(),
        ensures
            r matches Some(v) ==> self@.store.dom().contains(token.id) && v@ == self@.store[token.id],
            r is None <==> !self@.store.dom().contains(token.id),
    {
        self.store.read_by_token(token)
    }

    /// Replaces the state a token refers to, keeping its shape and keeping a
    /// seeded list slot seeded; a stale token, a value of another shape, or
    /// an attempt to undo the once-guard applies nothing.
    pub fn update_by_token(&mut self, token: StateAccess, v: HookValue) -> (applied: bool)
        requires
            old(self).wf(),
        ensures
            final(self).wf(),
            applied <==> (old(self)@.store.dom().contains(token.id) && kind_of(
                old(self)@.store[token.id],
            ) == kind_of(v@) && crate::store::seed_kept(old(self)@.store[token.id], v@)),
            applied ==> final(self)@ == (RuntimeV {
                store: old(self)@.store.insert(token.id, v@),
                ..old(self)@
            }),
            !applied ==> final(self)@ == old(self)@,
    {
        let applied = self.store.update_by_token(token, v);
        proof {
            if applied {
                assert(self@ =~= (RuntimeV {
                    store: old(self)@.store.insert(token.id, v@),
                    ..old(self)@
                }));
            } else {
                assert(self@ =~= old(self)@);
            }
        }
        applied
    }

    /// Removes the entry keyed `id`, if any: the call site's component
    /// subtree was torn down, and tokens to it become stale.
    pub fn evict(&mut self, id: CallSiteId)
        requires
            old(self).wf(),
        ensures
            final(self).wf(),
            final(self)@ == (RuntimeV { store: old(self)@.store.remove(id), ..old(self)@ }),
    {
        self.store.evict(id);
        proof {
            assert(self@ =~= (RuntimeV { store: old(self)@.store.remove(id), ..old(self)@ }));
        }
    }

    /// The current status of the fetch state a token refers to.
    pub fn status(&self, token: StateAccess) -> (r: UseFetchStatus)
        requires
            self.wf(),
            self@.store.dom().contains(token.id),
            !(self@.store[token.id] is ListSlot),
        ensures
            self@.store[token.id] matches HookValueV::Single(f) ==> r == f.status,
            self@.store[token.id] matches HookValueV::Collection(c) ==> r == c.status,
    {
        match self.store.read_by_token(token) {
            Some(HookValue::Single(f)) => f.status,
            Some(HookValue::Collection(c)) => c.status,
            _ => unreached(),
        }
    }

    /// A controller `dispatch()`: synchronously resets the call site's fetch
    /// state to `Loading` — visible to the next render pass — and
    /// macro-defers the start of the fetch on behalf of the application
    /// registered for `pairing`, so the fetch never starts inside the call
    /// stack that requested it.
    pub fn dispatch(&mut self, token: StateAccess, pairing: u64)
        requires
            old(self).wf(),
            old(self)@.store.dom().contains(token.id),
            !(old(self)@.store[token.id] is ListSlot),
        ensures
            final(self).wf(),
            final(self)@ == dispatch_tr(old(self)@, token.id, pairing),
    {
        let current = match self.store.read_by_token(token) {
            Some(v) => v,
            None => unreached(),
        };
        let loading: HookValue = match current {
            HookValue::Single(f) => HookValue::Single(
                UseFetch {
                    status: UseFetchStatus::Loading,
                    string_response: None,
                    fail_reason: None,
                    url: f.url,
                    method: f.method,
                },
            ),
            HookValue::Collection(c) => HookValue::Collection(
                UseFetchCollection {
                    status: UseFetchStatus::Loading,
                    string_response: None,
                    json_body: c.json_body,
                    url: c.url,
                    method: c.method,
                },
            ),
            HookValue::ListSlot(_) => unreached(),
        };
        proof {
            assert(loading@ == dispatch_value(old(self)@.store[token.id]));
        }
        let applied = self.store.update_by_token(token, loading);
        proof {
            assert(applied);
        }
        self.macro_queue.push(Task::StartDispatch { id: token.id, pairing });
        proof {
            assert(self@ =~= dispatch_tr(old(self)@, token.id, pairing));
        }
    }

    /// A controller dispatch for an application that drives the fetch
    /// itself: synchronously resets the call site's fetch state to `Loading`
    /// and macro-defers the delivery of `msg` — a caller-built message
    /// identifying the call site and its request — to the application
    /// registered for `pairing`. The host builds `msg` from the token and
    /// the stored request, and performs the fetch when the message reaches
    /// its application.
    pub fn dispatch_with_seed(&mut self, token: StateAccess, pairing: u64, msg: u64)
        requires
            old(self).wf(),
            old(self)@.store.dom().contains(token.id),
            !(old(self)@.store[token.id] is ListSlot),
        ensures
            final(self).wf(),
            final(self)@ == (RuntimeV {
                store: old(self)@.store.insert(
                    token.id,
                    dispatch_value(old(self)@.store[token.id]),
                ),
                macro_queue: old(self)@.macro_queue.push(Task::DeferredUpdate { pairing, msg }),
                ..old(self)@
            }),
    {
        let current = match self.store.read_by_token(token) {
            Some(v) => v,
            None => unreached(),
        };
        let loading: HookValue = match current {
            HookValue::Single(f) => HookValue::Single(
                UseFetch {
                    status: UseFetchStatus::Loading,
                    string_response: None,
                    fail_reason: None,
                    url: f.url,
                    method: f.method,
                },
            ),
            HookValue::Collection(c) => HookValue::Collection(
                UseFetchCollection {
                    status: UseFetchStatus::Loading,
                    string_response: None,
                    json_body: c.json_body,
                    url: c.url,
                    method: c.method,
                },
            ),
            HookValue::ListSlot(_) => unreached(),
        };
        proof {
            assert(loading@ == dispatch_value(old(self)@.store[token.id]));
        }
        let applied = self.store.update_by_token(token, loading);
        proof {
            assert(applied);
        }
        self.macro_queue.push(Task::DeferredUpdate { pairing, msg });
        proof {
            assert(self@ =~= (RuntimeV {
                store: old(self)@.store.insert(
                    token.id,
                    dispatch_value(old(self)@.store[token.id]),
                ),
                macro_queue: old(self)@.macro_queue.push(Task::DeferredUpdate { pairing, msg }),
                ..old(self)@
            }));
        }
    }

    /// Runs one already-popped deferred task.
    fn run_task(&mut self, t: Task)
        requires
            old(self).wf(),
        ensures
            final(self).wf(),
            final(self)@ == run_task_tr(old(self)@, t),
    {
        match t {
            Task::StartDispatch { id, pairing } => {
                if self.get_app(pairing).is_some() {
                    self.micro_queue.push(Task::LaunchFetch { id });
                    self.delivered.push(Update { pairing, msg: DEFAULT_MSG });
                    proof {
                        assert forall|i: int| 0 <= i < self.micro_queue@.len() implies (
                        #[trigger] self.micro_queue@[i]) is LaunchFetch by {
                            if i < old(self).micro_queue@.len() {
                                assert(self.micro_queue@[i] == old(self).micro_queue@[i]);
                            }
                        }
                        assert(self@ =~= run_task_tr(old(self)@, t));
                    }
                } else {
                    proof {
                        assert(self@ =~= run_task_tr(old(self)@, t));
                    }
                }
            },
            Task::LaunchFetch { id } => {
                match self.store.read_by_token(StateAccess { id }) {
                    Some(HookValue::Single(f)) => {
                        self.in_flight.push(
                            FetchRequest { id, url: f.url, method: f.method, body: None },
                        );
                        proof {
                            assert(self@.in_flight =~= old(self)@.in_flight.push(
                                FetchRequestV {
                                    id,
                                    url: old(self)@.store[id]->Single_0.url,
                                    method: old(self)@.store[id]->Single_0.method,
                                    body: None,
                                },
                            ));
                            assert(self@ =~= run_task_tr(old(self)@, t));
                        }
                    },
                    Some(HookValue::Collection(c)) => {
                        let body = serialize_send_message_request_body(&c.json_body);
                        self.in_flight.push(
                            FetchRequest { id, url: c.url, method: c.method, body: Some(body) },
                        );
                        proof {
                            assert(self@.in_flight =~= old(self)@.in_flight.push(
                                FetchRequestV {
                                    id,
                                    url: old(self)@.store[id]->Collection_0.url,
                                    method: old(self)@.store[id]->Collection_0.method,
                                    body: Some(
                                        query_json(old(self)@.store[id]->Collection_0.json_body),
                                    ),
                                },
                            ));
                            assert(self@ =~= run_task_tr(old(self)@, t));
                        }
                    },
                    Some(HookValue::ListSlot(_)) => {
                        proof {
                            assert(self@ =~= run_task_tr(old(self)@, t));
                        }
                    },
                    None => {
                        proof {
                            assert(self@ =~= run_task_tr(old(self)@, t));
                        }
                    },
                }
            },
            Task::DeferredUpdate { pairing, msg } => {
                if self.get_app(pairing).is_some() {
                    self.delivered.push(Update { pairing, msg });
                    proof {
                        assert(self@ =~= run_task_tr(old(self)@, t));
                    }
                } else {
                    proof {
                        assert(self@ =~= run_task_tr(old(self)@, t));
                    }
                }
            },
        }
    }

    /// One turn of the event loop: runs the front of the microtask queue,
    /// or, when none is pending, the front of the macro (timer) queue.
    /// Returns whether any task ran.
    pub fn step(&mut self) -> (progressed: bool)
        requires
            old(self).wf(),
        ensures
            final(self).wf(),
            final(self)@ == step_tr(old(self)@),
            progressed == (old(self)@.micro_queue.len() > 0 || old(self)@.macro_queue.len() > 0),
    {
        if self.micro_queue.len() > 0 {
            let t = self.micro_queue.remove(0);
            proof {
                assert(self.micro_queue@ =~= old(self).micro_queue@.drop_first());
                assert forall|i: int| 0 <= i < self.micro_queue@.len() implies (
                #[trigger] self.micro_queue@[i]) is LaunchFetch by {
                    assert(self.micro_queue@[i] == old(self).micro_queue@[i + 1]);
                }
            }
            let ghost popped = RuntimeV {
                micro_queue: old(self)@.micro_queue.drop_first(),
                ..old(self)@
            };
            proof {
                assert(self@ =~= popped);
            }
            self.run_task(t);
            true
        } else if self.macro_queue.len() > 0 {
            let t = self.macro_queue.remove(0);
            let ghost popped = RuntimeV {
                macro_queue: old(self)@.macro_queue.drop_first(),
                ..old(self)@
            };
            proof {
                assert(self.macro_queue@ =~= old(self).macro_queue@.drop_first());
                assert(self@ =~= popped);
            }
            self.run_task(t);
            true
        } else {
            false
        }
    }

    /// Drains both deferral queues, microtasks first.
    pub fn run_to_idle(&mut self)
        requires
            old(self).wf(),
        ensures
            final(self).wf(),
            final(self)@ == drain_tr(old(self)@),
            final(self)@.micro_queue.len() == 0,
            final(self)@.macro_queue.len() == 0,
    {
        proof {
            self.lemma_wf_micro();
        }
        while self.micro_queue.len() > 0 || self.macro_queue.len() > 0
            invariant
                self.wf(),
                micro_wf(self@.micro_queue),
                drain_tr(self@) == drain_tr(old(self)@),
            decreases self@.macro_queue.len(), self@.micro_queue.len(),
        {
            proof {
                self.lemma_wf_micro();
            }
            let ghost before = self@;
            self.step();
            proof {
                assert(drain_tr(before) == drain_tr(self@));
                self.lemma_wf_micro();
            }
        }
        proof {
            assert(drain_tr(self@) == self@);
        }
    }

    /// How many requests the runtime has handed to the host transport and
    /// not yet seen completed.
    pub fn pending_fetches(&self) -> (n: usize)
        ensures
            n == self@.in_flight.len(),
    {
        self.in_flight.len()
    }

    /// The URL of the in-flight request at position `k`.
    pub fn fetch_url(&self, k: usize) -> (r: Vec<char>)
        requires
            k < self@.in_flight.len(),
        ensures
            r@ == self@.in_flight[k as int].url,
    {
        clone_chars(&self.in_flight[k].url)
    }

    /// The method of the in-flight request at position `k`.
    pub fn fetch_method(&self, k: usize) -> (r: Method)
        requires
            k < self@.in_flight.len(),
        ensures
            r == self@.in_flight[k as int].method,
    {
        self.in_flight[k].method
    }

    /// The serialized request body of the in-flight request at position
    /// `k`, if it carries one.
    pub fn fetch_body(&self, k: usize) -> (r: Option<Vec<char>>)
        requires
            k < self@.in_flight.len(),
        ensures
            (r matches Some(b) ==> self@.in_flight[k as int].body == Some(b@)),
            r is None <==> self@.in_flight[k as int].body is None,
    {
        match &self.in_flight[k].body {
            Some(b) => Some(clone_chars(b)),
            None => None,
        }
    }

    /// How many updates have been delivered to registered applications.
    pub fn delivered_count(&self) -> (n: usize)
        ensures
            n == self@.delivered.len(),
    {
        self.delivered.len()
    }

    /// The update delivered at position `k`, oldest first.
    pub fn delivered_at(&self, k: usize) -> (r: Update)
        requires
            k < self@.delivered.len(),
        ensures
            r == self@.delivered[k as int],
    {
        self.delivered[k]
    }

    /// Takes the in-flight request at position `k` off the transport and
    /// writes its outcome into the store slot it was issued for, if that
    /// slot still exists — a success stores the payload as `Complete`, a
    /// failure marks a single-item fetch `Failed` and is swallowed by a
    /// collection fetch. Deliberately delivers no update: the next render is
    /// triggered by the application itself, never from inside a completion.
    pub fn complete_fetch(&mut self, k: usize, outcome: Result<Vec<char>, FailureInfo>)
        requires
            old(self).wf(),
            k < old(self)@.in_flight.len(),
        ensures
            final(self).wf(),
            final(self)@ == complete_fetch_tr(old(self)@, k as int, outcome_view(outcome)),
    {
        let req = self.in_flight.remove(k);
        proof {
            assert(self@.in_flight =~= old(self)@.in_flight.remove(k as int));
            assert(req@ == old(self)@.in_flight[k as int]);
        }
        let token = StateAccess { id: req.id };
        match self.store.read_by_token(token) {
            None => {
                proof {
                    assert(self@ =~= complete_fetch_tr(old(self)@, k as int, outcome_view(outcome)));
                }
            },
            Some(current) => {
                let updated: HookValue = match current {
                    HookValue::Single(f) => match outcome {
                        Ok(data) => HookValue::Single(
                            UseFetch {
                                status: UseFetchStatus::Complete,
                                string_response: Some(data),
                                fail_reason: f.fail_reason,
                                url: f.url,
                                method: f.method,
                            },
                        ),
                        Err(e) => HookValue::Single(
                            UseFetch {
                                status: UseFetchStatus::Failed,
                                string_response: f.string_response,
                                fail_reason: Some(e),
                                url: f.url,
                                method: f.method,
                            },
                        ),
                    },
                    HookValue::Collection(c) => match outcome {
                        Ok(data) => HookValue::Collection(
                            UseFetchCollection {
                                status: UseFetchStatus::Complete,
                                string_response: Some(data),
                                json_body: c.json_body,
                                url: c.url,
                                method: c.method,
                            },
                        ),
                        Err(_) => HookValue::Collection(c),
                    },
                    HookValue::ListSlot(l) => HookValue::ListSlot(l),
                };
                proof {
                    assert(updated@ == complete_value(
                        old(self)@.store[req@.id],
                        outcome_view(outcome),
                    ));
                }
                let applied = self.store.update_by_token(token, updated);
                proof {
                    assert(applied);
                    assert(self@ =~= complete_fetch_tr(old(self)@, k as int, outcome_view(outcome)));
                }
            },
        }
    }

    /// The single-item fetch hook: obtains or creates this call site's fetch
    /// state, and — when a completed response is present — its payload
    /// parsed as a single record. Dispatching is the returned token's job.
    ///
    /// The supported payload spelling is the codec's canonical form
    /// ([`person_json`]): no insignificant whitespace, no string escapes,
    /// the field in canonical order. A completed payload in any other
    /// spelling cannot be parsed, which the design treats as a fatal
    /// programming error of the transport pairing; it is therefore excluded
    /// up front, as is re-using the call site for another hook variant.
    pub fn use_fetch(&mut self, id: CallSiteId, url: Vec<char>, method: Method) -> (r: (
        Option<Person>,
        StateAccess,
    ))
        requires
            old(self).wf(),
            old(self)@.store.dom().contains(id) ==> old(self)@.store[id] is Single,
            ({
                let v = use_state_value(old(self)@.store, id, init_single(url@, method));
                (v is Single && v->Single_0.status == UseFetchStatus::Complete
                    && v->Single_0.string_response is Some) ==> person_parsable(
                    v->Single_0.string_response.unwrap(),
                )
            }),
        ensures
            final(self).wf(),
            final(self)@ == (RuntimeV {
                store: use_state_tr(old(self)@.store, id, init_single(url@, method)),
                ..old(self)@
            }),
            r.1.id == id,
            ({
                let f = use_state_value(
                    old(self)@.store,
                    id,
                    init_single(url@, method),
                )->Single_0;
                &&& (r.0 is Some <==> (f.status == UseFetchStatus::Complete
                    && f.string_response is Some))
                &&& (r.0 matches Some(p) ==> jstr_ok(p.name@) && f.string_response == Some(
                    person_json(p.name@),
                ))
            }),
    {
        let ghost u = url@;
        let init = HookValue::Single(UseFetch::new(url, method));
        match self.store.use_state(id, init) {
            Err(_) => unreached(),
            Ok((value, token)) => {
                let maybe: Option<Person> = match value {
                    HookValue::Single(f) => {
                        if f.status == UseFetchStatus::Complete {
                            match f.string_response {
                                Some(resp) => match parse_person(&resp) {
                                    Some(p) => Some(p),
                                    None => {
                                        proof {
                                            let name = choose|name: Seq<char>|
                                                jstr_ok(name) && resp@ == person_json(name);
                                            assert(false);
                                        }
                                        unreached()
                                    },
                                },
                                None => None,
                            }
                        } else {
                            None
                        }
                    },
                    _ => unreached(),
                };
                proof {
                    assert(self@ =~= (RuntimeV {
                        store: use_state_tr(old(self)@.store, id, init_single(u, method)),
                        ..old(self)@
                    }));
                }
                (maybe, token)
            },
        }
    }

    /// The collection fetch hook: like [`Runtime::use_fetch`], but the
    /// stored request additionally carries the query body sent on each
    /// dispatch, and a completed payload parses as an enveloped collection,
    /// again in the codec's canonical spelling ([`envelope_json`]).
    pub fn use_fetch_collection(
        &mut self,
        id: CallSiteId,
        url: Vec<char>,
        method: Method,
        json: SendMessageRequestBody,
    ) -> (r: (Option<ArrayResponse>, StateAccess))
        requires
            old(self).wf(),
            old(self)@.store.dom().contains(id) ==> old(self)@.store[id] is Collection,
            ({
                let v = use_state_value(
                    old(self)@.store,
                    id,
                    init_collection(url@, json.query@, method),
                );
                (v is Collection && v->Collection_0.status == UseFetchStatus::Complete
                    && v->Collection_0.string_response is Some) ==> envelope_parsable(
                    v->Collection_0.string_response.unwrap(),
                )
            }),
        ensures
            final(self).wf(),
            final(self)@ == (RuntimeV {
                store: use_state_tr(
                    old(self)@.store,
                    id,
                    init_collection(url@, json.query@, method),
                ),
                ..old(self)@
            }),
            r.1.id == id,
            ({
                let c = use_state_value(
                    old(self)@.store,
                    id,
                    init_collection(url@, json.query@, method),
                )->Collection_0;
                &&& (r.0 is Some <==> (c.status == UseFetchStatus::Complete
                    && c.string_response is Some))
                &&& (r.0 matches Some(a) ==> c.string_response == Some(envelope_json(a.data@)))
            }),
    {
        let ghost u = url@;
        let ghost q = json.query@;
        let init = HookValue::Collection(UseFetchCollection::new(url, json, method));
        match self.store.use_state(id, init) {
            Err(_) => unreached(),
            Ok((value, token)) => {
                let maybe: Option<ArrayResponse> = match value {
                    HookValue::Collection(c) => {
                        if c.status == UseFetchStatus::Complete {
                            match c.string_response {
                                Some(resp) => match parse_array_response(&resp) {
                                    Some(a) => Some(a),
                                    None => {
                                        proof {
                                            let items = choose|items: Seq<Item>|
                                                resp@ == envelope_json(items);
                                            assert(false);
                                        }
                                        unreached()
                                    },
                                },
                                None => None,
                            }
                        } else {
                            None
                        }
                    },
                    _ => unreached(),
                };
                proof {
                    assert(self@ =~= (RuntimeV {
                        store: use_state_tr(old(self)@.store, id, init_collection(u, q, method)),
                        ..old(self)@
                    }));
                }
                (maybe, token)
            },
        }
    }

    /// After the host reports an outcome for a request whose single-item
    /// slot still exists, that slot's status is terminal: `Complete` on
    /// success, `Failed` on failure — however many dispatches raced, each
    /// completion leaves exactly one terminal status and the last write
    /// wins.
    pub proof fn lemma_single_completion_terminal(
        rt: RuntimeV,
        k: int,
        outcome: Result<Seq<char>, FailureInfo>,
    )
        requires
            0 <= k < rt.in_flight.len(),
            rt.store.dom().contains(rt.in_flight[k].id),
            rt.store[rt.in_flight[k].id] is Single,
        ensures
            ({
                let f = complete_fetch_tr(rt, k, outcome).store[rt.in_flight[k].id]->Single_0;
                (outcome is Ok ==> f.status == UseFetchStatus::Complete && f.string_response
                    == Some(outcome.unwrap())) && (outcome is Err ==> f.status
                    == UseFetchStatus::Failed)
            }),
    {
    }
}

/// A dispatch whose macro-deferred start finds no registered application is
/// a silent no-op beyond the synchronous `Loading` transition: once the
/// queues drain, the call site's status is `Loading` (not reverted), and no
/// request was issued, no update delivered, no task left behind.
pub proof fn lemma_noop_dispatch(rt: RuntimeV, id: CallSiteId, pairing: u64)
    requires
        rt.store.dom().contains(id),
        rt.store[id] is Collection,
        !rt.registry.contains(pairing),
        rt.micro_queue.len() == 0,
        rt.macro_queue.len() == 0,
    ensures
        ({
            let fin = drain_tr(dispatch_tr(rt, id, pairing));
            &&& fin.store == rt.store.insert(id, dispatch_value(rt.store[id]))
            &&& fin.store[id]->Collection_0.status == UseFetchStatus::Loading
            &&& fin.in_flight == rt.in_flight
            &&& fin.delivered == rt.delivered
            &&& fin.micro_queue.len() == 0
            &&& fin.macro_queue.len() == 0
        }),
{
    let d = dispatch_tr(rt, id, pairing);
    assert(micro_wf(d.micro_queue));
    let popped = RuntimeV { macro_queue: d.macro_queue.drop_first(), ..d };
    assert(popped.macro_queue =~= Seq::<Task>::empty());
    assert(d.macro_queue[0] == Task::StartDispatch { id, pairing });
    let s1 = step_tr(d);
    assert(s1 == run_task_tr(popped, Task::StartDispatch { id, pairing }));
    assert(s1 == popped);
    assert(micro_wf(s1.micro_queue));
    assert(drain_tr(d) == drain_tr(s1));
    assert(drain_tr(s1) == s1);
}

} // verus!
