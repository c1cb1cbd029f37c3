//! The keyed hook-state store: per-call-site state that survives repeated
//! synchronous re-renders.
//!
//! A call site is identified by an explicit, caller-constructed key
//! ([`CallSiteId`]): the same structural position yields the same key on
//! every render, distinct sibling invocations yield distinct keys. The store
//! maps each key to one [`HookValue`] and hands callers a copyable
//! [`StateAccess`] token for later out-of-band reads and updates; a token
//! whose entry has been evicted yields an explicit "unavailable" result,
//! never a crash.
//!
//! Abstractly the store is a `Map<CallSiteId, HookValueV>`; every operation
//! is specified against that map.

use crate::fetch::UseFetch;
use crate::fetch::UseFetchCollection;
use crate::fetch::UseFetchCollectionV;
use crate::fetch::UseFetchV;
use crate::json::Item;
use vstd::prelude::*;

verus! {

/// A stable identifier for one hook invocation: the component path reaching
/// the invocation and the sibling index disambiguating repeated invocations
/// at the same position (for example, loop iterations).
#[derive(Clone, Copy, Debug, PartialEq, Eq, Structural)]
pub struct CallSiteId {
    pub path: u64,
    pub sibling: u64,
}

/// A copyable token for out-of-band access to one call site's state.
#[derive(Clone, Copy, Debug, PartialEq, Eq, Structural)]
pub struct StateAccess {
    pub id: CallSiteId,
}

/// The error a hook reports when a call site is re-used with an incompatible
/// state shape: a programming error that must fail fast, never coerce.
#[derive(Clone, Copy, Debug, PartialEq, Eq, Structural)]
pub enum HookError {
    StateTypeMismatch,
}

/// State of an ordered-list slot: the seeded flag records whether a fetched
/// collection has already been pushed into it, so seeding happens once.
#[derive(Debug)]
pub struct ListState {
    pub items: Vec<Item>,
    pub seeded: bool,
}

/// Mathematical view of [`ListState`].
pub ghost struct ListStateV {
    pub items: Seq<Item>,
    pub seeded: bool,
}

impl View for ListState {
    type V = ListStateV;

    open spec fn view(&self) -> ListStateV {
        ListStateV { items: self.items@, seeded: self.seeded }
    }
}

/// One stored hook value: the store keeps the state of every hook variant
/// under a single value type, so a call site's shape is checkable.
#[derive(Debug)]
pub enum HookValue {
    Single(UseFetch),
    Collection(UseFetchCollection),
    ListSlot(ListState),
}

/// Mathematical view of [`HookValue`].
pub ghost enum HookValueV {
    Single(UseFetchV),
    Collection(UseFetchCollectionV),
    ListSlot(ListStateV),
}

impl View for HookValue {
    type V = HookValueV;

    open spec fn view(&self) -> HookValueV {
        match self {
            HookValue::Single(f) => HookValueV::Single(f@),
            HookValue::Collection(c) => HookValueV::Collection(c@),
            HookValue::ListSlot(l) => HookValueV::ListSlot(l@),
        }
    }
}

/// The shape of a stored hook value.
#[derive(Clone, Copy, Debug, PartialEq, Eq, Structural)]
pub enum SlotKind {
    Single,
    Collection,
    ListSlot,
}

/// The shape of a hook value's view.
pub open spec fn kind_of(v: HookValueV) -> SlotKind {
    match v {
        HookValueV::Single(_) => SlotKind::Single,
        HookValueV::Collection(_) => SlotKind::Collection,
        HookValueV::ListSlot(_) => SlotKind::ListSlot,
    }
}

/// The shape of a stored hook value, executably.
pub fn kind_of_value(v: &HookValue) -> (k: SlotKind)
    ensures
        k == kind_of(v@),
{
    match v {
        HookValue::Single(_) => SlotKind::Single,
        HookValue::Collection(_) => SlotKind::Collection,
        HookValue::ListSlot(_) => SlotKind::ListSlot,
    }
}

/// Copies a character vector.
pub fn clone_chars(v: &Vec<char>) -> (r: Vec<char>)
    ensures
        r@ == v@,
{
    let mut out: Vec<char> = Vec::new();
    let mut k: usize = 0;
    while k < v.len()
        invariant
            k <= v@.len(),
            out@ == v@.subrange(0, k as int),
        decreases v@.len() - k,
    {
        out.push(v[k]);
        proof {
            assert(out@ =~= v@.subrange(0, k + 1));
        }
        k = k + 1;
    }
    proof {
        assert(out@ =~= v@);
    }
    out
}

/// Copies an item vector.
pub fn clone_items(v: &Vec<Item>) -> (r: Vec<Item>)
    ensures
        r@ == v@,
{
    let mut out: Vec<Item> = Vec::new();
    let mut k: usize = 0;
    while k < v.len()
        invariant
            k <= v@.len(),
            out@ == v@.subrange(0, k as int),
        decreases v@.len() - k,
    {
        out.push(v[k]);
        proof {
            assert(out@ =~= v@.subrange(0, k + 1));
        }
        k = k + 1;
    }
    proof {
        assert(out@ =~= v@);
    }
    out
}

/// Appends the items of `src` to `dst`, keeping order.
pub fn append_items(dst: &mut Vec<Item>, src: &Vec<Item>)
    ensures
        final(dst)@ == old(dst)@ + src@,
{
    let mut k: usize = 0;
    while k < src.len()
        invariant
            k <= src@.len(),
            dst@ == old(dst)@ + src@.subrange(0, k as int),
        decreases src@.len() - k,
    {
        dst.push(src[k]);
        proof {
            assert(dst@ =~= old(dst)@ + src@.subrange(0, k + 1));
        }
        k = k + 1;
    }
    proof {
        assert(dst@ =~= old(dst)@ + src@);
    }
}

/// Copies an optional character vector.
fn clone_opt_chars(v: &Option<Vec<char>>) -> (r: Option<Vec<char>>)
    ensures
        (r matches Some(x) && v matches Some(y) && x@ == y@) || (r is None && v is None),
{
    match v {
        Some(x) => Some(clone_chars(x)),
        None => None,
    }
}

/// Copies a stored hook value, contents and all.
pub fn clone_hook_value(v: &HookValue) -> (r: HookValue)
    ensures
        r@ == v@,
{
    match v {
        HookValue::Single(f) => HookValue::Single(
            UseFetch {
                status: f.status,
                string_response: clone_opt_chars(&f.string_response),
                fail_reason: f.fail_reason,
                url: clone_chars(&f.url),
                method: f.method,
            },
        ),
        HookValue::Collection(c) => HookValue::Collection(
            UseFetchCollection {
                status: c.status,
                json_body: crate::json::SendMessageRequestBody { query: clone_chars(&c.json_body.query) },
                string_response: clone_opt_chars(&c.string_response),
                url: clone_chars(&c.url),
                method: c.method,
            },
        ),
        HookValue::ListSlot(l) => HookValue::ListSlot(
            ListState { items: clone_items(&l.items), seeded: l.seeded },
        ),
    }
}

/// The map denoted by a sequence of keyed entries, later entries winning.
pub open spec fn entries_map(s: Seq<(CallSiteId, HookValue)>) -> Map<CallSiteId, HookValueV>
    decreases s.len(),
{
    if s.len() == 0 {
        Map::empty()
    } else {
        entries_map(s.drop_last()).insert(s.last().0, s.last().1@)
    }
}

/// Whether some entry of `s` carries the key `id`.
pub open spec fn has_key(s: Seq<(CallSiteId, HookValue)>, id: CallSiteId) -> bool {
    exists|k: int| 0 <= k < s.len() && (#[trigger] s[k]).0 == id
}

/// Whether the keys of `s` are pairwise distinct.
pub open spec fn keys_distinct(s: Seq<(CallSiteId, HookValue)>) -> bool {
    forall|a: int, b: int| 0 <= a < b < s.len() ==> (#[trigger] s[a]).0 != (#[trigger] s[b]).0
}

/// The denoted map's domain is exactly the keys present, and under distinct
/// keys each entry denotes its own value.
pub proof fn lemma_entries_map(s: Seq<(CallSiteId, HookValue)>)
    ensures
        forall|id: CallSiteId| #[trigger] entries_map(s).dom().contains(id) <==> has_key(s, id),
        keys_distinct(s) ==> forall|k: int|
            0 <= k < s.len() ==> entries_map(s)[(#[trigger] s[k]).0] == s[k].1@,
    decreases s.len(),
{
    if s.len() > 0 {
        lemma_entries_map(s.drop_last());
        assert forall|id: CallSiteId| #[trigger] entries_map(s).dom().contains(id) implies has_key(
            s,
            id,
        ) by {
            if id == s.last().0 {
                assert((s[s.len() - 1]).0 == id);
            } else {
                assert(entries_map(s.drop_last()).dom().contains(id));
                let k = choose|k: int|
                    0 <= k < s.drop_last().len() && (#[trigger] s.drop_last()[k]).0 == id;
                assert((s[k]).0 == id);
            }
        }
        assert forall|id: CallSiteId| has_key(s, id) implies entries_map(s).dom().contains(id) by {
            let k = choose|k: int| 0 <= k < s.len() && (#[trigger] s[k]).0 == id;
            if k < s.len() - 1 {
                assert((s.drop_last()[k]).0 == id);
                assert(has_key(s.drop_last(), id));
            }
        }
        if keys_distinct(s) {
            assert(keys_distinct(s.drop_last()));
            assert forall|k: int| 0 <= k < s.len() implies entries_map(s)[(#[trigger] s[k]).0]
                == s[k].1@ by {
                if k < s.len() - 1 {
                    assert((s[k]).0 != s.last().0);
                    assert(s.drop_last()[k] == s[k]);
                }
            }
        }
    }
}

/// The store state after one `use_state` call: untouched where the call site
/// already has an entry, extended by the initial value where it has none.
pub open spec fn use_state_tr(
    m: Map<CallSiteId, HookValueV>,
    id: CallSiteId,
    init: HookValueV,
) -> Map<CallSiteId, HookValueV> {
    if m.dom().contains(id) {
        m
    } else {
        m.insert(id, init)
    }
}

/// The value one `use_state` call hands back: the stored value where the
/// call site already has an entry, the initial value where it has none.
pub open spec fn use_state_value(
    m: Map<CallSiteId, HookValueV>,
    id: CallSiteId,
    init: HookValueV,
) -> HookValueV {
    if m.dom().contains(id) {
        m[id]
    } else {
        init
    }
}

/// The store state after a sequence of renders that each call `use_state`
/// at the same call site with the initial values given, in order.
pub open spec fn renders_tr(
    m: Map<CallSiteId, HookValueV>,
    id: CallSiteId,
    inits: Seq<HookValueV>,
) -> Map<CallSiteId, HookValueV>
    decreases inits.len(),
{
    if inits.len() == 0 {
        m
    } else {
        renders_tr(use_state_tr(m, id, inits[0]), id, inits.drop_first())
    }
}

/// The values such a sequence of renders hands back, in order.
pub open spec fn render_values(
    m: Map<CallSiteId, HookValueV>,
    id: CallSiteId,
    inits: Seq<HookValueV>,
) -> Seq<HookValueV>
    decreases inits.len(),
{
    if inits.len() == 0 {
        Seq::empty()
    } else {
        seq![use_state_value(m, id, inits[0])] + render_values(
            use_state_tr(m, id, inits[0]),
            id,
            inits.drop_first(),
        )
    }
}

/// Once a call site holds a value, further renders neither move the store
/// nor hand back anything but that value.
pub proof fn lemma_renders_after_init(
    m: Map<CallSiteId, HookValueV>,
    id: CallSiteId,
    inits: Seq<HookValueV>,
)
    requires
        m.dom().contains(id),
    ensures
        renders_tr(m, id, inits) == m,
        render_values(m, id, inits).len() == inits.len(),
        forall|k: int| 0 <= k < inits.len() ==> render_values(m, id, inits)[k] == m[id],
    decreases inits.len(),
{
    if inits.len() > 0 {
        lemma_renders_after_init(m, id, inits.drop_first());
    }
}

/// At a stable call site the initial value is stored by the first render
/// alone: every later render in the sequence leaves the store unchanged and
/// hands back that first value, until an explicit update occurs.
pub proof fn lemma_initializer_runs_once(
    m: Map<CallSiteId, HookValueV>,
    id: CallSiteId,
    inits: Seq<HookValueV>,
)
    requires
        !m.dom().contains(id),
        inits.len() >= 1,
    ensures
        renders_tr(m, id, inits) == m.insert(id, inits[0]),
        render_values(m, id, inits).len() == inits.len(),
        forall|k: int| 0 <= k < inits.len() ==> render_values(m, id, inits)[k] == inits[0],
{
    let m1 = m.insert(id, inits[0]);
    lemma_renders_after_init(m1, id, inits.drop_first());
    assert(use_state_tr(m, id, inits[0]) == m1);
    assert(use_state_value(m, id, inits[0]) == inits[0]);
}

/// The store state after one render pass that evaluates `use_state` at each
/// of the call sites given, in order, with the initial values given.
pub open spec fn multi_use_state_tr(
    m: Map<CallSiteId, HookValueV>,
    ids: Seq<CallSiteId>,
    inits: Seq<HookValueV>,
) -> Map<CallSiteId, HookValueV>
    recommends
        ids.len() == inits.len(),
    decreases ids.len(),
{
    if ids.len() == 0 {
        m
    } else {
        multi_use_state_tr(use_state_tr(m, ids[0], inits[0]), ids.drop_first(), inits.drop_first())
    }
}

/// Distinct call sites evaluated within one render pass create that many
/// distinct entries, each independently addressable under its own key, and
/// touch nothing else in the store.
pub proof fn lemma_distinct_call_sites(
    m: Map<CallSiteId, HookValueV>,
    ids: Seq<CallSiteId>,
    inits: Seq<HookValueV>,
)
    requires
        ids.len() == inits.len(),
        forall|a: int, b: int| 0 <= a < b < ids.len() ==> ids[a] != ids[b],
        forall|k: int| 0 <= k < ids.len() ==> !m.dom().contains(#[trigger] ids[k]),
    ensures
        forall|k: int|
            0 <= k < ids.len() ==> multi_use_state_tr(m, ids, inits).dom().contains(
                #[trigger] ids[k],
            ) && multi_use_state_tr(m, ids, inits)[ids[k]] == inits[k],
        forall|id: CallSiteId|
            !ids.contains(id) ==> (multi_use_state_tr(m, ids, inits).dom().contains(id)
                <==> m.dom().contains(id)) && (m.dom().contains(id)
                ==> multi_use_state_tr(m, ids, inits)[id] == m[id]),
    decreases ids.len(),
{
    if ids.len() > 0 {
        let m1 = use_state_tr(m, ids[0], inits[0]);
        assert(m1 == m.insert(ids[0], inits[0]));
        assert forall|k: int| 0 <= k < ids.drop_first().len() implies !m1.dom().contains(
            #[trigger] ids.drop_first()[k],
        ) by {
            assert(ids.drop_first()[k] == ids[k + 1]);
        }
        lemma_distinct_call_sites(m1, ids.drop_first(), inits.drop_first());
        assert(!ids.drop_first().contains(ids[0])) by {
            if ids.drop_first().contains(ids[0]) {
                let j = choose|j: int|
                    0 <= j < ids.drop_first().len() && ids.drop_first()[j] == ids[0];
                assert(ids[j + 1] == ids[0]);
            }
        }
        assert forall|k: int| 0 <= k < ids.len() implies multi_use_state_tr(
            m,
            ids,
            inits,
        ).dom().contains(#[trigger] ids[k]) && multi_use_state_tr(m, ids, inits)[ids[k]]
            == inits[k] by {
            if k == 0 {
                assert(multi_use_state_tr(m, ids, inits) == multi_use_state_tr(
                    m1,
                    ids.drop_first(),
                    inits.drop_first(),
                ));
            } else {
                assert(ids.drop_first()[k - 1] == ids[k]);
                assert(inits.drop_first()[k - 1] == inits[k]);
            }
        }
        assert forall|id: CallSiteId| !ids.contains(id) implies (multi_use_state_tr(
            m,
            ids,
            inits,
        ).dom().contains(id) <==> m.dom().contains(id)) && (m.dom().contains(id)
            ==> multi_use_state_tr(m, ids, inits)[id] == m[id]) by {
            assert(id != ids[0]);
            assert(!ids.drop_first().contains(id)) by {
                if ids.drop_first().contains(id) {
                    let j = choose|j: int|
                        0 <= j < ids.drop_first().len() && ids.drop_first()[j] == id;
                    assert(ids[j + 1] == id);
                }
            }
        }
    }
}

/// A seeded list slot stays seeded: once the list composition's one-time
/// seeding has happened, no store update may undo its guard.
pub open spec fn seed_kept(prev: HookValueV, next: HookValueV) -> bool {
    (prev is ListSlot && prev->ListSlot_0.seeded) ==> (next is ListSlot
        && next->ListSlot_0.seeded)
}

/// The keyed hook-state store.
pub struct HookStore {
    entries: Vec<(CallSiteId, HookValue)>,
}

impl View for HookStore {
    type V = Map<CallSiteId, HookValueV>;

    closed spec fn view(&self) -> Map<CallSiteId, HookValueV> {
        entries_map(self.entries@)
    }
}

impl HookStore {
    /// The store's internal soundness: entry keys are pairwise distinct.
    pub closed spec fn wf(&self) -> bool {
        keys_distinct(self.entries@)
    }

    /// An empty store.
    pub fn new() -> (r: HookStore)
        ensures
            r.wf(),
            r@ == Map::<CallSiteId, HookValueV>::empty(),
    {
        HookStore { entries: Vec::new() }
    }

    /// The position of the entry keyed `id`, or nothing if none exists.
    fn find_index(&self, id: CallSiteId) -> (r: Option<usize>)
        requires
            self.wf(),
        ensures
            r matches Some(k) ==> k < self.entries@.len() && (self.entries@[k as int]).0 == id
                && self@.dom().contains(id) && self@[id] == self.entries@[k as int].1@,
            r is None <==> !self@.dom().contains(id),
    {
        proof {
            lemma_entries_map(self.entries@);
        }
        let mut k: usize = 0;
        while k < self.entries.len()
            invariant
                self.wf(),
                k <= self.entries@.len(),
                forall|m: int| 0 <= m < k ==> (#[trigger] self.entries@[m]).0 != id,
            decreases self.entries@.len() - k,
        {
            if self.entries[k].0 == id {
                proof {
                    lemma_entries_map(self.entries@);
                    assert((self.entries@[k as int]).0 == id);
                    assert(has_key(self.entries@, id));
                }
                return Some(k);
            }
            k = k + 1;
        }
        proof {
            assert(!has_key(self.entries@, id));
        }
        None
    }

    /// Obtains the state stored at `id`, storing `init` first if the call
    /// site has none yet; hands back the current value with an access token.
    /// Re-using a call site with a value of another shape is refused
    /// explicitly.
    pub fn use_state(&mut self, id: CallSiteId, init: HookValue) -> (r: Result<
        (HookValue, StateAccess),
        HookError,
    >)
        requires
            old(self).wf(),
        ensures
            final(self).wf(),
            r is Ok <==> (!old(self)@.dom().contains(id) || kind_of(old(self)@[id]) == kind_of(
                init@,
            )),
            r matches Err(e) ==> e == HookError::StateTypeMismatch && final(self)@ == old(self)@,
            r matches Ok(p) ==> p.1.id == id && final(self)@ == use_state_tr(
                old(self)@,
                id,
                init@,
            ) && p.0@ == use_state_value(old(self)@, id, init@),
    {
        match self.find_index(id) {
            Some(k) => {
                let stored = &self.entries[k].1;
                if kind_of_value(stored) == kind_of_value(&init) {
                    let value = clone_hook_value(stored);
                    Ok((value, StateAccess { id }))
                } else {
                    Err(HookError::StateTypeMismatch)
                }
            },
            None => {
                let value = clone_hook_value(&init);
                let ghost before = self.entries@;
                self.entries.push((id, init));
                proof {
                    assert(self.entries@.drop_last() =~= before);
                    assert(final(self)@ == old(self)@.insert(id, init@));
                    assert forall|a: int, b: int| 0 <= a < b < self.entries@.len() implies (
                    #[trigger] self.entries@[a]).0 != (#[trigger] self.entries@[b]).0 by {
                        if b == self.entries@.len() - 1 {
                            lemma_entries_map(before);
                            if (self.entries@[a]).0 == id {
                                assert(has_key(before, id));
                            }
                        }
                    }
                }
                Ok((value, StateAccess { id }))
            },
        }
    }

    /// Like [`HookStore::use_state`], but with a lazy initializer: the
    /// closure runs only on the first evaluation at the call site, when no
    /// entry exists yet. The `kind` argument declares the shape the
    /// initializer produces, so re-use with an incompatible shape still
    /// fails fast without running it.
    pub fn use_state_with<F: FnOnce() -> HookValue>(
        &mut self,
        id: CallSiteId,
        kind: SlotKind,
        init: F,
    ) -> (r: Result<(HookValue, StateAccess), HookError>)
        requires
            old(self).wf(),
            call_requires(init, ()),
            forall|v: HookValue| #[trigger] call_ensures(init, (), v) ==> kind_of(v@) == kind,
        ensures
            final(self).wf(),
            r is Ok <==> (!old(self)@.dom().contains(id) || kind_of(old(self)@[id]) == kind),
            r matches Err(e) ==> e == HookError::StateTypeMismatch && final(self)@ == old(self)@,
            r matches Ok(p) ==> p.1.id == id && (old(self)@.dom().contains(id) ==> final(self)@
                == old(self)@ && p.0@ == old(self)@[id]) && (!old(self)@.dom().contains(id)
                ==> exists|v: HookValue|
                    #[trigger] call_ensures(init, (), v) && final(self)@ == old(self)@.insert(
                        id,
                        v@,
                    ) && p.0@ == v@),
    {
        match self.find_index(id) {
            Some(k) => {
                if kind_of_value(&self.entries[k].1) == kind {
                    let value = clone_hook_value(&self.entries[k].1);
                    Ok((value, StateAccess { id }))
                } else {
                    Err(HookError::StateTypeMismatch)
                }
            },
            None => {
                let produced = init();
                let value = clone_hook_value(&produced);
                let ghost before = self.entries@;
                self.entries.push((id, produced));
                proof {
                    assert(self.entries@.drop_last() =~= before);
                    assert forall|a: int, b: int| 0 <= a < b < self.entries@.len() implies (
                    #[trigger] self.entries@[a]).0 != (#[trigger] self.entries@[b]).0 by {
                        if b == self.entries@.len() - 1 {
                            lemma_entries_map(before);
                            if (self.entries@[a]).0 == id {
                                assert(has_key(before, id));
                            }
                        }
                    }
                }
                Ok((value, StateAccess { id }))
            },
        }
    }

    /// A snapshot of the state a token refers to, or nothing if its call
    /// site has been evicted.
    pub fn read_by_token(&self, token: StateAccess) -> (r: Option<HookValue>)
        requires
            self.wf(),
        ensures
            r matches Some(v) ==> self@.dom().contains(token.id) && v@ == self@[token.id],
            r is None <==> !self@.dom().contains(token.id),
    {
        match self.find_index(token.id) {
            Some(k) => Some(clone_hook_value(&self.entries[k].1)),
            None => None,
        }
    }

    /// Replaces the state a token refers to, keeping its shape and keeping a
    /// seeded list slot seeded; a stale token, a value of another shape, or
    /// an attempt to undo the once-guard applies nothing (the owning
    /// component may have unmounted).
    pub fn update_by_token(&mut self, token: StateAccess, v: HookValue) -> (applied: bool)
        requires
            old(self).wf(),
        ensures
            final(self).wf(),
            applied <==> (old(self)@.dom().contains(token.id) && kind_of(old(self)@[token.id])
                == kind_of(v@) && seed_kept(old(self)@[token.id], v@)),
            applied ==> final(self)@ == old(self)@.insert(token.id, v@),
            !applied ==> final(self)@ == old(self)@,
    {
        match self.find_index(token.id) {
            Some(k) => {
                let unseeding = match (&self.entries[k].1, &v) {
                    (HookValue::ListSlot(prev), HookValue::ListSlot(next)) => prev.seeded
                        && !next.seeded,
                    _ => false,
                };
                if unseeding {
                    return false;
                }
                if kind_of_value(&self.entries[k].1) == kind_of_value(&v) {
                    let ghost before = self.entries@;
                    self.entries.remove(k);
                    self.entries.insert(k, (token.id, v));
                    proof {
                        assert(self.entries@ =~= before.update(
                            k as int,
                            self.entries@[k as int],
                        ));
                        assert((self.entries@[k as int]).0 == (before[k as int]).0);
                        lemma_update_entry(before, k as int, self.entries@[k as int].1);
                    }
                    true
                } else {
                    false
                }
            },
            None => false,
        }
    }

    /// Removes the entry keyed `id`, if any: the call site's lifecycle ended.
    pub fn evict(&mut self, id: CallSiteId)
        requires
            old(self).wf(),
        ensures
            final(self).wf(),
            final(self)@ == old(self)@.remove(id),
    {
        match self.find_index(id) {
            Some(k) => {
                let ghost before = self.entries@;
                self.entries.remove(k);
                proof {
                    lemma_remove_entry(before, k as int);
                }
            },
            None => {
                proof {
                    assert(self@ =~= old(self)@.remove(id));
                }
            },
        }
    }
}

/// Removing one entry of a distinct-keyed sequence removes exactly its key
/// from the denoted map.
pub proof fn lemma_remove_entry(s: Seq<(CallSiteId, HookValue)>, k: int)
    requires
        keys_distinct(s),
        0 <= k < s.len(),
    ensures
        keys_distinct(s.remove(k)),
        entries_map(s.remove(k)) == entries_map(s).remove((s[k]).0),
{
    lemma_entries_map(s);
    let t = s.remove(k);
    assert forall|a: int, b: int| 0 <= a < b < t.len() implies (#[trigger] t[a]).0 != (
    #[trigger] t[b]).0 by {
        let a2: int = if a < k {
            a
        } else {
            a + 1
        };
        let b2: int = if b < k {
            b
        } else {
            b + 1
        };
        assert(t[a] == s[a2] && t[b] == s[b2]);
    }
    lemma_entries_map(t);
    assert forall|id: CallSiteId| #[trigger] entries_map(t).dom().contains(id) implies entries_map(
        s,
    ).remove((s[k]).0).dom().contains(id) && entries_map(t)[id] == entries_map(s)[id] by {
        let j = choose|j: int| 0 <= j < t.len() && (#[trigger] t[j]).0 == id;
        let j2: int = if j < k {
            j
        } else {
            j + 1
        };
        assert(t[j] == s[j2]);
        assert((s[j2]).0 == id);
        assert(id != (s[k]).0);
        assert(has_key(s, id));
        assert(entries_map(t)[id] == t[j].1@);
        assert(entries_map(s)[id] == s[j2].1@);
    }
    assert forall|id: CallSiteId| #[trigger] entries_map(s).remove((s[k]).0).dom().contains(id)
        implies entries_map(t).dom().contains(id) by {
        let j = choose|j: int| 0 <= j < s.len() && (#[trigger] s[j]).0 == id;
        assert(j != k);
        let j2: int = if j < k {
            j
        } else {
            j - 1
        };
        assert(t[j2] == s[j]);
        assert(has_key(t, id));
    }
    assert(entries_map(s.remove(k)) =~= entries_map(s).remove((s[k]).0));
}

/// Replacing one entry's value in a distinct-keyed sequence updates exactly
/// its key in the denoted map.
pub proof fn lemma_update_entry(s: Seq<(CallSiteId, HookValue)>, k: int, w: HookValue)
    requires
        keys_distinct(s),
        0 <= k < s.len(),
    ensures
        keys_distinct(s.update(k, ((s[k]).0, w))),
        entries_map(s.update(k, ((s[k]).0, w))) == entries_map(s).insert((s[k]).0, w@),
{
    lemma_entries_map(s);
    let t = s.update(k, ((s[k]).0, w));
    assert(forall|j: int| 0 <= j < t.len() ==> (#[trigger] t[j]).0 == (s[j]).0);
    assert(keys_distinct(t));
    lemma_entries_map(t);
    assert forall|id: CallSiteId| #[trigger] entries_map(t).dom().contains(id) implies entries_map(
        s,
    ).insert((s[k]).0, w@).dom().contains(id) && entries_map(t)[id] == entries_map(s).insert(
        (s[k]).0,
        w@,
    )[id] by {
        let j = choose|j: int| 0 <= j < t.len() && (#[trigger] t[j]).0 == id;
        assert((s[j]).0 == id);
        assert(has_key(s, id));
        if id == (s[k]).0 {
            assert(j == k);
            assert(entries_map(t)[id] == t[k].1@);
        } else {
            assert(j != k);
            assert(t[j] == s[j]);
            assert(entries_map(t)[id] == t[j].1@);
            assert(entries_map(s)[id] == s[j].1@);
        }
    }
    assert forall|id: CallSiteId| #[trigger] entries_map(s).insert((s[k]).0, w@).dom().contains(id)
        implies entries_map(t).dom().contains(id) by {
        if id == (s[k]).0 {
            assert((t[k]).0 == id);
            assert(has_key(t, id));
        } else {
            let j = choose|j: int| 0 <= j < s.len() && (#[trigger] s[j]).0 == id;
            assert((t[j]).0 == id);
            assert(has_key(t, id));
        }
    }
    assert(entries_map(t) =~= entries_map(s).insert((s[k]).0, w@));
}

} // verus!
