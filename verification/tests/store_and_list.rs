use fetch_hooks::fetch::Method;
use fetch_hooks::json::Item;
use fetch_hooks::list::use_graphql_list;
use fetch_hooks::runtime::{AppHandle, Runtime};
use fetch_hooks::status::{apply_event, FetchEvent, HookKind, UseFetchStatus};
use FetchEvent::{Dispatch, Fail, Succeed};
use HookKind::{Collection, Single};
use UseFetchStatus::{Complete, Failed, Initialized, Loading};
use fetch_hooks::fetch::UseFetch;
use fetch_hooks::store::{CallSiteId, HookError, HookStore, HookValue, ListState, SlotKind};

fn chars(s: &str) -> Vec<char> {
    s.chars().collect()
}

const PAIRING: u64 = 7;

fn list_value(ids: &[u64], seeded: bool) -> HookValue {
    HookValue::ListSlot(ListState {
        items: ids.iter().map(|&id| Item { id }).collect(),
        seeded,
    })
}

#[test]
fn use_state_initializes_once() {
    let mut rt = Runtime::new();
    let id = CallSiteId { path: 5, sibling: 0 };
    let (first, _) = rt.use_state(id, list_value(&[1], false)).expect("fresh");
    match first {
        HookValue::ListSlot(l) => assert_eq!(l.items, vec![Item { id: 1 }]),
        _ => panic!("expected the list slot"),
    }
    // a later render with another initial value still sees the first one
    let (second, _) = rt.use_state(id, list_value(&[2, 3], false)).expect("same shape");
    match second {
        HookValue::ListSlot(l) => assert_eq!(l.items, vec![Item { id: 1 }]),
        _ => panic!("expected the list slot"),
    }
}

#[test]
fn distinct_call_sites_are_independent() {
    let mut rt = Runtime::new();
    for sibling in 0..3u64 {
        let id = CallSiteId { path: 5, sibling };
        rt.use_state(id, list_value(&[sibling], false)).expect("fresh");
    }
    for sibling in 0..3u64 {
        let id = CallSiteId { path: 5, sibling };
        let (v, _) = rt.use_state(id, list_value(&[99], false)).expect("stored");
        match v {
            HookValue::ListSlot(l) => assert_eq!(l.items, vec![Item { id: sibling }]),
            _ => panic!("expected the list slot"),
        }
    }
}

#[test]
fn lazy_initializer_runs_exactly_once() {
    let mut store = HookStore::new();
    let id = CallSiteId { path: 11, sibling: 0 };
    let mut runs = 0u32;
    let (first, _) = store
        .use_state_with(id, SlotKind::ListSlot, || {
            runs += 1;
            list_value(&[4], false)
        })
        .expect("fresh");
    assert_eq!(runs, 1);
    match first {
        HookValue::ListSlot(l) => assert_eq!(l.items, vec![Item { id: 4 }]),
        _ => panic!("expected the list slot"),
    }
    // a later render neither re-runs the initializer nor replaces the value
    let (second, _) = store
        .use_state_with(id, SlotKind::ListSlot, || {
            runs += 1;
            list_value(&[5], false)
        })
        .expect("stored");
    assert_eq!(runs, 1);
    match second {
        HookValue::ListSlot(l) => assert_eq!(l.items, vec![Item { id: 4 }]),
        _ => panic!("expected the list slot"),
    }
    // an incompatible shape fails fast, still without running the initializer
    let clash = store.use_state_with(id, SlotKind::Single, || {
        runs += 1;
        HookValue::Single(UseFetch::new(chars("/u"), Method::Get))
    });
    assert_eq!(clash.unwrap_err(), HookError::StateTypeMismatch);
    assert_eq!(runs, 1);
}

#[test]
fn use_state_reports_type_mismatch() {
    let mut rt = Runtime::new();
    let id = CallSiteId { path: 6, sibling: 1 };
    rt.use_state(id, list_value(&[], false)).expect("fresh");
    let init = HookValue::Single(fetch_hooks::fetch::UseFetch::new(chars("/u"), Method::Get));
    assert_eq!(rt.use_state(id, init).unwrap_err(), HookError::StateTypeMismatch);
}

#[test]
fn graphql_list_full_cycle() {
    let mut rt = Runtime::new();
    rt.init(AppHandle { pairing: PAIRING });
    let list_id = CallSiteId { path: 10, sibling: 0 };
    let fetch_id = CallSiteId { path: 10, sibling: 1 };
    let (items, control) =
        use_graphql_list(&mut rt, list_id, fetch_id, chars("items"), chars("/graphql"));
    assert!(items.is_empty());
    assert_eq!(control.status(&rt), Initialized);
    control.dispatch(&mut rt, PAIRING);
    assert_eq!(control.status(&rt), Loading);
    rt.run_to_idle();
    assert_eq!(rt.pending_fetches(), 1);
    assert_eq!(rt.fetch_method(0), Method::Post);
    assert_eq!(rt.fetch_body(0), Some(chars("{\"query\":\"items\"}")));
    rt.complete_fetch(0, Ok(chars("{\"data\":[{\"id\":1},{\"id\":2}]}")));
    // the next render seeds the list, once
    let (items, control) =
        use_graphql_list(&mut rt, list_id, fetch_id, chars("items"), chars("/graphql"));
    assert_eq!(control.status(&rt), Complete);
    assert_eq!(items, vec![Item { id: 1 }, Item { id: 2 }]);
    // a further render does not seed again
    let (items, control) =
        use_graphql_list(&mut rt, list_id, fetch_id, chars("items"), chars("/graphql"));
    assert_eq!(items, vec![Item { id: 1 }, Item { id: 2 }]);
    assert_eq!(control.get_list(&rt), vec![Item { id: 1 }, Item { id: 2 }]);
}

#[test]
fn graphql_seeding_appends_to_prior_items() {
    let mut rt = Runtime::new();
    rt.init(AppHandle { pairing: PAIRING });
    let list_id = CallSiteId { path: 12, sibling: 0 };
    let fetch_id = CallSiteId { path: 12, sibling: 1 };
    // the caller put an item into the list slot before any fetch completed
    rt.use_state(list_id, list_value(&[7], false)).expect("fresh list slot");
    let (items, control) =
        use_graphql_list(&mut rt, list_id, fetch_id, chars("items"), chars("/graphql"));
    assert_eq!(items, vec![Item { id: 7 }]);
    control.dispatch(&mut rt, PAIRING);
    rt.run_to_idle();
    rt.complete_fetch(0, Ok(chars("{\"data\":[{\"id\":1},{\"id\":2}]}")));
    // the fetched items follow the prior contents, and seed only once
    let (items, _) =
        use_graphql_list(&mut rt, list_id, fetch_id, chars("items"), chars("/graphql"));
    assert_eq!(items, vec![Item { id: 7 }, Item { id: 1 }, Item { id: 2 }]);
    let (items, _) =
        use_graphql_list(&mut rt, list_id, fetch_id, chars("items"), chars("/graphql"));
    assert_eq!(items, vec![Item { id: 7 }, Item { id: 1 }, Item { id: 2 }]);
}

#[test]
fn seeded_guard_cannot_be_reset() {
    let mut rt = Runtime::new();
    let id = CallSiteId { path: 13, sibling: 0 };
    let (_, token) = rt.use_state(id, list_value(&[1], true)).expect("fresh");
    // undoing the once-guard is refused; everything else still applies
    assert!(!rt.update_by_token(token, list_value(&[2], false)));
    assert!(rt.update_by_token(token, list_value(&[2], true)));
    match rt.read_by_token(token) {
        Some(HookValue::ListSlot(l)) => {
            assert!(l.seeded);
            assert_eq!(l.items, vec![Item { id: 2 }]);
        }
        _ => panic!("expected the list slot"),
    }
}

#[test]
fn status_machine_coverage_by_event() {
    // from Initialized, only Loading is reachable
    assert_eq!(apply_event(Single, Initialized, Dispatch), Some(Loading));
    assert_eq!(apply_event(Single, Initialized, Succeed), None);
    assert_eq!(apply_event(Single, Initialized, Fail), None);
    // from Loading, both outcomes for the single-item variant
    assert_eq!(apply_event(Single, Loading, Succeed), Some(Complete));
    assert_eq!(apply_event(Single, Loading, Fail), Some(Failed));
    // only Complete for the collection variant
    assert_eq!(apply_event(Collection, Loading, Succeed), Some(Complete));
    assert_eq!(apply_event(Collection, Loading, Fail), None);
    // from the terminal-looking states, only a re-dispatch moves the machine
    for s in [Complete, Failed] {
        assert_eq!(apply_event(Single, s, Dispatch), Some(Loading));
        assert_eq!(apply_event(Single, s, Succeed), None);
        assert_eq!(apply_event(Single, s, Fail), None);
    }
}

#[test]
fn default_status_is_initialized() {
    assert_eq!(UseFetchStatus::default(), Initialized);
}
