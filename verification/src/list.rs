//! The query/list composition: one call that fetches an enveloped
//! collection with a query request body and seeds an ordered list with the
//! extracted items — appended once, after any items the list already held —
//! when the fetch completes. A transport failure is a permanent no-op for
//! this composition: the state simply never reaches `Complete`.

use crate::fetch::Method;
use crate::json::envelope_json;
use crate::json::SendMessageRequestBody;
use crate::runtime::dispatch_tr;
use crate::json::envelope_items_of;
use crate::json::envelope_parsable;
use crate::runtime::init_collection;
use crate::runtime::init_list;
use crate::runtime::Runtime;
use crate::runtime::RuntimeV;
use crate::status::UseFetchStatus;
use crate::store::append_items;
use crate::store::use_state_tr;
use crate::store::use_state_value;
use crate::store::CallSiteId;
use crate::store::HookValue;
use crate::store::HookValueV;
use crate::store::ListState;
use crate::store::ListStateV;
use crate::store::StateAccess;
use crate::json::IntoList;
use crate::json::Item;
use vstd::pervasive::unreached;
use vstd::prelude::*;

verus! {

/// The store after one render of the query/list composition: both call
/// sites seeded, and the fetched envelope's items appended — once — to
/// whatever the list slot already held, when the fetch has completed.
pub open spec fn graphql_store_tr(
    m: Map<CallSiteId, HookValueV>,
    list_id: CallSiteId,
    fetch_id: CallSiteId,
    url: Seq<char>,
    query: Seq<char>,
) -> Map<CallSiteId, HookValueV> {
    let m1 = use_state_tr(m, list_id, init_list());
    let m2 = use_state_tr(m1, fetch_id, init_collection(url, query, Method::Post));
    let fv = use_state_value(m1, fetch_id, init_collection(url, query, Method::Post));
    let lv = use_state_value(m, list_id, init_list());
    if fv is Collection && fv->Collection_0.status == UseFetchStatus::Complete
        && fv->Collection_0.string_response is Some && lv is ListSlot && !lv->ListSlot_0.seeded {
        m2.insert(
            list_id,
            HookValueV::ListSlot(
                ListStateV {
                    items: lv->ListSlot_0.items + envelope_items_of(
                        fv->Collection_0.string_response.unwrap(),
                    ),
                    seeded: true,
                },
            ),
        )
    } else {
        m2
    }
}

/// The caller-facing control of a query-backed list: tokens for its list
/// slot and its fetch slot.
#[derive(Clone, Copy, Debug, PartialEq, Eq, Structural)]
pub struct GraphQLListControl {
    pub list: StateAccess,
    pub fetcher: StateAccess,
}

impl GraphQLListControl {
    /// The items the list currently holds, in order.
    pub fn get_list(&self, rt: &Runtime) -> (r: Vec<Item>)
        requires
            rt.wf(),
            rt@.store.dom().contains(self.list.id),
            rt@.store[self.list.id] is ListSlot,
        ensures
            r@ == rt@.store[self.list.id]->ListSlot_0.items,
    {
        match rt.read_by_token(self.list) {
            Some(HookValue::ListSlot(l)) => l.items,
            _ => unreached(),
        }
    }

    /// Re-dispatches the backing collection fetch.
    pub fn dispatch(&self, rt: &mut Runtime, pairing: u64)
        requires
            old(rt).wf(),
            old(rt)@.store.dom().contains(self.fetcher.id),
            old(rt)@.store[self.fetcher.id] is Collection,
        ensures
            final(rt).wf(),
            final(rt)@ == dispatch_tr(old(rt)@, self.fetcher.id, pairing),
    {
        rt.dispatch(self.fetcher, pairing);
    }

    /// The status of the backing collection fetch.
    pub fn status(&self, rt: &Runtime) -> (r: UseFetchStatus)
        requires
            rt.wf(),
            rt@.store.dom().contains(self.fetcher.id),
            rt@.store[self.fetcher.id] is Collection,
        ensures
            r == rt@.store[self.fetcher.id]->Collection_0.status,
    {
        rt.status(self.fetcher)
    }
}

/// One render of the query/list composition: obtains or creates a list slot
/// and a collection fetch slot keyed by the two distinct call sites, pushes
/// a completed fetch's items onto the list — once, after any items it
/// already held — and hands back the list's items with the control. As for
/// the hooks, a completed payload must be in the codec's canonical spelling
/// ([`envelope_json`]).
pub fn use_graphql_list(
    rt: &mut Runtime,
    list_id: CallSiteId,
    fetch_id: CallSiteId,
    query: Vec<char>,
    url: Vec<char>,
) -> (r: (Vec<Item>, GraphQLListControl))
    requires
        old(rt).wf(),
        list_id != fetch_id,
        old(rt)@.store.dom().contains(list_id) ==> old(rt)@.store[list_id] is ListSlot,
        old(rt)@.store.dom().contains(fetch_id) ==> old(rt)@.store[fetch_id] is Collection,
        ({
            let v = use_state_value(
                old(rt)@.store,
                fetch_id,
                init_collection(url@, query@, Method::Post),
            );
            (v is Collection && v->Collection_0.status == UseFetchStatus::Complete
                && v->Collection_0.string_response is Some) ==> envelope_parsable(
                v->Collection_0.string_response.unwrap(),
            )
        }),
    ensures
        final(rt).wf(),
        final(rt)@ == (RuntimeV {
            store: graphql_store_tr(old(rt)@.store, list_id, fetch_id, url@, query@),
            ..old(rt)@
        }),
        r.1.list.id == list_id,
        r.1.fetcher.id == fetch_id,
        r.0@ == graphql_store_tr(
            old(rt)@.store,
            list_id,
            fetch_id,
            url@,
            query@,
        )[list_id]->ListSlot_0.items,
{
    let ghost m0 = old(rt)@.store;
    let ghost q = query@;
    let ghost u = url@;
    let init_l = HookValue::ListSlot(ListState { items: Vec::new(), seeded: false });
    let (list_val, list_token) = match rt.use_state(list_id, init_l) {
        Ok(p) => p,
        Err(_) => unreached(),
    };
    let json_request = SendMessageRequestBody { query };
    let (fetched, fetch_token) = rt.use_fetch_collection(fetch_id, url, Method::Post, json_request);
    let control = GraphQLListControl { list: list_token, fetcher: fetch_token };
    let prior = match list_val {
        HookValue::ListSlot(l) => l,
        _ => unreached(),
    };
    match fetched {
        Some(envelope) => {
            if !prior.seeded {
                let mut new_items = prior.items;
                let fetched_items = envelope.items();
                append_items(&mut new_items, &fetched_items);
                proof {
                    let resp = use_state_value(
                        use_state_tr(m0, list_id, init_list()),
                        fetch_id,
                        init_collection(u, q, Method::Post),
                    )->Collection_0.string_response.unwrap();
                    assert(resp == envelope_json(envelope.data@));
                    let w = envelope_items_of(resp);
                    assert(resp == envelope_json(w));
                    crate::json::lemma_envelope_json_injective(w, envelope.data@);
                    assert(envelope_items_of(resp) == envelope.data@);
                    assert(new_items@ == use_state_value(
                        m0,
                        list_id,
                        init_list(),
                    )->ListSlot_0.items + envelope_items_of(resp));
                }
                let applied = rt.update_by_token(
                    list_token,
                    HookValue::ListSlot(ListState { items: new_items, seeded: true }),
                );
                proof {
                    assert(applied);
                }
                let out = control.get_list(rt);
                proof {
                    assert(rt@ =~= (RuntimeV {
                        store: graphql_store_tr(m0, list_id, fetch_id, u, q),
                        ..old(rt)@
                    }));
                }
                (out, control)
            } else {
                let out = prior.items;
                proof {
                    assert(rt@ =~= (RuntimeV {
                        store: graphql_store_tr(m0, list_id, fetch_id, u, q),
                        ..old(rt)@
                    }));
                }
                (out, control)
            }
        },
        None => {
            let out = prior.items;
            proof {
                assert(rt@ =~= (RuntimeV {
                    store: graphql_store_tr(m0, list_id, fetch_id, u, q),
                    ..old(rt)@
                }));
            }
            (out, control)
        },
    }
}

} // verus!
