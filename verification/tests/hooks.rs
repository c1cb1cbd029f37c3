use fetch_hooks::fetch::{FailureInfo, Method};
use fetch_hooks::json::Item;
use fetch_hooks::runtime::{AppHandle, Runtime};
use fetch_hooks::status::UseFetchStatus;
use fetch_hooks::store::{CallSiteId, HookValue, ListState};

fn chars(s: &str) -> Vec<char> {
    s.chars().collect()
}

const PAIRING: u64 = 7;

fn ready_runtime() -> Runtime {
    let mut rt = Runtime::new();
    rt.init(AppHandle { pairing: PAIRING });
    rt
}

#[test]
fn single_fetch_initial_render() {
    let mut rt = ready_runtime();
    let id = CallSiteId { path: 1, sibling: 0 };
    let (value, token) = rt.use_fetch(id, chars("/api/person/1"), Method::Get);
    assert!(value.is_none());
    assert_eq!(rt.status(token), UseFetchStatus::Initialized);
    assert_eq!(rt.pending_fetches(), 0);
}

#[test]
fn single_fetch_success_scenario() {
    let mut rt = ready_runtime();
    let id = CallSiteId { path: 1, sibling: 0 };
    let (value, token) = rt.use_fetch(id, chars("/api/person/1"), Method::Get);
    assert!(value.is_none());
    rt.dispatch(token, PAIRING);
    // the Loading transition is synchronous, before any deferred work runs
    assert_eq!(rt.status(token), UseFetchStatus::Loading);
    rt.run_to_idle();
    // the start task delivered a no-op update and launched the request
    assert_eq!(rt.delivered_count(), 1);
    assert_eq!(rt.delivered_at(0).pairing, PAIRING);
    assert_eq!(rt.pending_fetches(), 1);
    assert_eq!(rt.fetch_url(0), chars("/api/person/1"));
    assert_eq!(rt.fetch_method(0), Method::Get);
    assert!(rt.fetch_body(0).is_none());
    // host transport succeeds
    rt.complete_fetch(0, Ok(chars("{\"name\":\"Ada\"}")));
    assert_eq!(rt.pending_fetches(), 0);
    // completion delivers no update by design
    assert_eq!(rt.delivered_count(), 1);
    // next render sees the parsed value
    let (value, token) = rt.use_fetch(id, chars("/api/person/1"), Method::Get);
    assert_eq!(rt.status(token), UseFetchStatus::Complete);
    let person = value.expect("completed fetch should surface a value");
    assert_eq!(person.name, chars("Ada"));
}

#[test]
fn single_fetch_failure_scenario() {
    let mut rt = ready_runtime();
    let id = CallSiteId { path: 1, sibling: 0 };
    let (_, token) = rt.use_fetch(id, chars("/api/person/1"), Method::Get);
    rt.dispatch(token, PAIRING);
    rt.run_to_idle();
    rt.complete_fetch(0, Err(FailureInfo { code: 500 }));
    let (value, token) = rt.use_fetch(id, chars("/api/person/1"), Method::Get);
    assert_eq!(rt.status(token), UseFetchStatus::Failed);
    assert!(value.is_none());
    match rt.read_by_token(token) {
        Some(HookValue::Single(f)) => {
            assert_eq!(f.fail_reason, Some(FailureInfo { code: 500 }));
            assert!(f.string_response.is_none());
        }
        _ => panic!("expected a single-item slot"),
    }
}

#[test]
fn collection_fetch_envelope_scenario() {
    let mut rt = ready_runtime();
    let id = CallSiteId { path: 2, sibling: 0 };
    let body = fetch_hooks::json::SendMessageRequestBody { query: chars("items") };
    let (value, token) = rt.use_fetch_collection(id, chars("/api/items"), Method::Post, body);
    assert!(value.is_none());
    rt.dispatch(token, PAIRING);
    rt.run_to_idle();
    assert_eq!(rt.pending_fetches(), 1);
    // the request carries the serialized query body
    assert_eq!(rt.fetch_body(0), Some(chars("{\"query\":\"items\"}")));
    rt.complete_fetch(0, Ok(chars("{\"data\":[{\"id\":1},{\"id\":2}]}")));
    let body = fetch_hooks::json::SendMessageRequestBody { query: chars("items") };
    let (value, token) = rt.use_fetch_collection(id, chars("/api/items"), Method::Post, body);
    assert_eq!(rt.status(token), UseFetchStatus::Complete);
    let envelope = value.expect("completed fetch should surface the envelope");
    assert_eq!(envelope.data, vec![Item { id: 1 }, Item { id: 2 }]);
}

#[test]
fn collection_fetch_swallows_transport_failure() {
    let mut rt = ready_runtime();
    let id = CallSiteId { path: 2, sibling: 0 };
    let body = fetch_hooks::json::SendMessageRequestBody { query: chars("items") };
    let (_, token) = rt.use_fetch_collection(id, chars("/api/items"), Method::Post, body);
    rt.dispatch(token, PAIRING);
    rt.run_to_idle();
    rt.complete_fetch(0, Err(FailureInfo { code: 500 }));
    // the failure is swallowed: the state never reaches Complete, and no
    // failure is surfaced for the collection variant
    assert_eq!(rt.status(token), UseFetchStatus::Loading);
    let body = fetch_hooks::json::SendMessageRequestBody { query: chars("items") };
    let (value, _) = rt.use_fetch_collection(id, chars("/api/items"), Method::Post, body);
    assert!(value.is_none());
}

#[test]
fn noop_dispatch_without_registry() {
    // no application ever registered
    let mut rt = Runtime::new();
    let id = CallSiteId { path: 3, sibling: 0 };
    let body = fetch_hooks::json::SendMessageRequestBody { query: chars("items") };
    let (_, token) = rt.use_fetch_collection(id, chars("/api/items"), Method::Post, body);
    rt.dispatch(token, PAIRING);
    rt.run_to_idle();
    // Loading is not reverted, and nothing else happened
    assert_eq!(rt.status(token), UseFetchStatus::Loading);
    assert_eq!(rt.pending_fetches(), 0);
    assert_eq!(rt.delivered_count(), 0);
}

#[test]
fn racing_dispatches_end_in_one_terminal_status() {
    let mut rt = ready_runtime();
    let id = CallSiteId { path: 1, sibling: 0 };
    let (_, token) = rt.use_fetch(id, chars("/api/person/1"), Method::Get);
    // two dispatches back-to-back before either completes
    rt.dispatch(token, PAIRING);
    rt.dispatch(token, PAIRING);
    rt.run_to_idle();
    assert_eq!(rt.pending_fetches(), 2);
    // both eventually write into the same slot; the last write wins
    rt.complete_fetch(1, Ok(chars("{\"name\":\"Ada\"}")));
    rt.complete_fetch(0, Ok(chars("{\"name\":\"Grace\"}")));
    assert_eq!(rt.pending_fetches(), 0);
    let (value, token) = rt.use_fetch(id, chars("/api/person/1"), Method::Get);
    assert_eq!(rt.status(token), UseFetchStatus::Complete);
    assert_eq!(value.expect("one terminal status").name, chars("Grace"));
}

#[test]
fn redispatch_resets_payload_and_failure() {
    let mut rt = ready_runtime();
    let id = CallSiteId { path: 1, sibling: 0 };
    let (_, token) = rt.use_fetch(id, chars("/api/person/1"), Method::Get);
    rt.dispatch(token, PAIRING);
    rt.run_to_idle();
    rt.complete_fetch(0, Err(FailureInfo { code: 404 }));
    assert_eq!(rt.status(token), UseFetchStatus::Failed);
    // re-dispatch from Failed: back to Loading with cleared fields
    rt.dispatch(token, PAIRING);
    assert_eq!(rt.status(token), UseFetchStatus::Loading);
    match rt.read_by_token(token) {
        Some(HookValue::Single(f)) => {
            assert!(f.string_response.is_none());
            assert!(f.fail_reason.is_none());
            assert_eq!(f.url, chars("/api/person/1"));
        }
        _ => panic!("expected a single-item slot"),
    }
}

#[test]
fn schedule_update_reaches_registered_app_after_unwind() {
    let mut rt = ready_runtime();
    rt.schedule_update(PAIRING, 42);
    // nothing delivered until the deferred task runs
    assert_eq!(rt.delivered_count(), 0);
    rt.run_to_idle();
    assert_eq!(rt.delivered_count(), 1);
    assert_eq!(rt.delivered_at(0).pairing, PAIRING);
    assert_eq!(rt.delivered_at(0).msg, 42);
}

#[test]
fn schedule_update_without_registry_is_silent() {
    let mut rt = Runtime::new();
    rt.schedule_update(PAIRING, 42);
    rt.run_to_idle();
    assert_eq!(rt.delivered_count(), 0);
}

#[test]
fn init_overwrites_same_pairing() {
    let mut rt = Runtime::new();
    assert!(rt.get_app(PAIRING).is_none());
    rt.init(AppHandle { pairing: PAIRING });
    rt.init(AppHandle { pairing: PAIRING });
    let h = rt.get_app(PAIRING).expect("registered");
    assert_eq!(h.pairing, PAIRING);
    assert!(rt.get_app(8).is_none());
}

#[test]
fn evicted_token_is_stale_not_fatal() {
    let mut rt = ready_runtime();
    let id = CallSiteId { path: 9, sibling: 0 };
    let init = HookValue::ListSlot(ListState { items: vec![Item { id: 3 }], seeded: false });
    let (_, token) = rt.use_state(id, init).expect("fresh slot");
    rt.evict(id);
    assert!(rt.read_by_token(token).is_none());
    let replacement = HookValue::ListSlot(ListState { items: vec![], seeded: false });
    assert!(!rt.update_by_token(token, replacement));
}

#[test]
fn dispatch_with_seed_defers_the_callers_message() {
    let mut rt = ready_runtime();
    let id = CallSiteId { path: 6, sibling: 0 };
    let (_, token) = rt.use_fetch(id, chars("/api/person/1"), Method::Get);
    // the application drives the fetch itself: a caller-built message stands
    // for (call site, url, method)
    rt.dispatch_with_seed(token, PAIRING, 31);
    assert_eq!(rt.status(token), UseFetchStatus::Loading);
    assert_eq!(rt.delivered_count(), 0);
    rt.run_to_idle();
    assert_eq!(rt.delivered_count(), 1);
    assert_eq!(rt.delivered_at(0).msg, 31);
    // the runtime issues no request of its own for this variant
    assert_eq!(rt.pending_fetches(), 0);
}

#[test]
fn dispatch_with_seed_without_registry_only_loads() {
    let mut rt = Runtime::new();
    let id = CallSiteId { path: 6, sibling: 1 };
    let (_, token) = rt.use_fetch(id, chars("/api/person/1"), Method::Get);
    rt.dispatch_with_seed(token, PAIRING, 31);
    rt.run_to_idle();
    assert_eq!(rt.status(token), UseFetchStatus::Loading);
    assert_eq!(rt.delivered_count(), 0);
}

#[test]
fn completion_after_eviction_is_a_noop() {
    let mut rt = ready_runtime();
    let id = CallSiteId { path: 4, sibling: 0 };
    let (_, token) = rt.use_fetch(id, chars("/api/person/1"), Method::Get);
    rt.dispatch(token, PAIRING);
    rt.run_to_idle();
    assert_eq!(rt.pending_fetches(), 1);
    // the owning component unmounts while the request is in flight
    rt.evict(id);
    rt.complete_fetch(0, Ok(chars("{\"name\":\"Ada\"}")));
    assert_eq!(rt.pending_fetches(), 0);
    assert!(rt.read_by_token(token).is_none());
}

#[test]
fn microtasks_run_before_remaining_macro_tasks() {
    let mut rt = ready_runtime();
    let id = CallSiteId { path: 1, sibling: 0 };
    let (_, token) = rt.use_fetch(id, chars("/api/person/1"), Method::Get);
    rt.dispatch(token, PAIRING);
    rt.schedule_update(PAIRING, 9);
    // first macro task: the deferred start delivers the no-op update and
    // micro-defers the launch
    assert!(rt.step());
    assert_eq!(rt.delivered_count(), 1);
    assert_eq!(rt.pending_fetches(), 0);
    // the micro-deferred launch runs before the remaining macro task
    assert!(rt.step());
    assert_eq!(rt.pending_fetches(), 1);
    assert_eq!(rt.delivered_count(), 1);
    // only then does the scheduled update reach the application
    assert!(rt.step());
    assert_eq!(rt.delivered_count(), 2);
    assert_eq!(rt.delivered_at(1).msg, 9);
    assert!(!rt.step());
}

#[test]
fn it_works() {
    assert_eq!(2 + 2, 4);
}
