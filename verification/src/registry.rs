use vstd::prelude::*;

use std::sync::Arc;

use vstd::rwlock::RwLock;
use vstd::rwlock::RwLockPredicate;

use crate::chain::arc_borrow;
use crate::chain::arc_clone;
use crate::chain::SwapChain;
use crate::context::Context;
use crate::context::ContextId;
use crate::device::Device;
use crate::error::Error;
use crate::provider::SurfaceProvider;
use crate::surface::Size;

verus! {

/// The identity of a swap chain, stable for the registry's lifetime.
#[derive(Clone, Copy, PartialEq, Eq, Structural, Debug, Hash)]
pub struct SwapChainId(pub u64);

/// The registry's state: a table from swap-chain identity to swap chain,
/// and a secondary index from owning-context identity to the identities of
/// the swap chains created under it, for bulk teardown. Both live under one
/// lock (see [`SwapChains`]), so the index is kept exactly consistent with
/// the table: [`Self::wf`] is an invariant of every operation.
pub struct SwapChainsCore<P: SurfaceProvider> {
    /// The swap chains, indexed by swap-chain identity (unique keys, in
    /// order of insertion).
    table: Vec<(SwapChainId, SwapChain<P>)>,
    /// The swap-chain identities, indexed by owning-context identity
    /// (unique keys; each list free of duplicates).
    ids: Vec<(ContextId, Vec<SwapChainId>)>,
}

impl<P: SurfaceProvider> SwapChainsCore<P> {
    /// The table as a sequence of (identity, swap chain) pairs.
    pub closed spec fn table_s(&self) -> Seq<(SwapChainId, SwapChain<P>)> {
        self.table@
    }

    /// The context index as a sequence of (context identity, swap-chain
    /// identities) pairs.
    pub closed spec fn index_s(&self) -> Seq<(ContextId, Seq<SwapChainId>)> {
        self.ids@.map_values(|e: (ContextId, Vec<SwapChainId>)| (e.0, e.1@))
    }

    /// Whether the table holds a swap chain under `id`.
    pub open spec fn contains_id(&self, id: SwapChainId) -> bool {
        exists|t: int| 0 <= t < self.table_s().len() && (#[trigger] self.table_s()[t]).0 == id
    }

    /// Whether the context index lists `id` under `ctx`.
    pub open spec fn indexed(&self, ctx: ContextId, id: SwapChainId) -> bool {
        exists|k: int|
            0 <= k < self.index_s().len() && (#[trigger] self.index_s()[k]).0 == ctx
                && self.index_s()[k].1.contains(id)
    }

    /// Whether the table holds, under `id`, a swap chain whose producer
    /// context is `ctx`.
    pub open spec fn entry_for(&self, id: SwapChainId, ctx: ContextId) -> bool {
        exists|t: int|
            0 <= t < self.table_s().len() && (#[trigger] self.table_s()[t]).0 == id
                && self.table_s()[t].1.spec_context_id() == ctx
    }

    /// Table keys are unique.
    pub open spec fn table_keys_unique(&self) -> bool {
        forall|i: int, j: int|
            #![trigger self.table_s()[i], self.table_s()[j]]
            0 <= i < j < self.table_s().len() ==> self.table_s()[i].0 != self.table_s()[j].0
    }

    /// Context-index keys are unique.
    pub open spec fn index_keys_unique(&self) -> bool {
        forall|i: int, j: int|
            #![trigger self.index_s()[i], self.index_s()[j]]
            0 <= i < j < self.index_s().len() ==> self.index_s()[i].0 != self.index_s()[j].0
    }

    /// No identity appears twice in one context's list.
    pub open spec fn lists_unique(&self) -> bool {
        forall|k: int, a: int, b: int|
            #![trigger self.index_s()[k].1[a], self.index_s()[k].1[b]]
            0 <= k < self.index_s().len() && 0 <= a < b < self.index_s()[k].1.len()
                ==> self.index_s()[k].1[a] != self.index_s()[k].1[b]
    }

    /// Every table entry is indexed under its swap chain's producer context.
    pub open spec fn table_indexed(&self) -> bool {
        forall|t: int|
            #![trigger self.table_s()[t]]
            0 <= t < self.table_s().len() ==> self.indexed(
                self.table_s()[t].1.spec_context_id(),
                self.table_s()[t].0,
            )
    }

    /// Every indexed identity is in the table, owned by the context that
    /// indexes it.
    pub open spec fn index_backed(&self) -> bool {
        forall|k: int, j: int|
            #![trigger self.index_s()[k].1[j]]
            0 <= k < self.index_s().len() && 0 <= j < self.index_s()[k].1.len() ==> self.entry_for(
                self.index_s()[k].1[j],
                self.index_s()[k].0,
            )
    }

    /// Well-formedness: unique keys throughout, and the table and the
    /// context index list exactly the same (identity, owning context)
    /// pairs.
    pub open spec fn wf(&self) -> bool {
        &&& self.table_keys_unique()
        &&& self.index_keys_unique()
        &&& self.lists_unique()
        &&& self.table_indexed()
        &&& self.index_backed()
    }

    /// An empty registry.
    pub fn new() -> (r: Self)
        ensures
            r.table_s() == Seq::<(SwapChainId, SwapChain<P>)>::empty(),
            r.index_s() == Seq::<(ContextId, Seq<SwapChainId>)>::empty(),
            r.wf(),
    {
        let r = SwapChainsCore { table: Vec::new(), ids: Vec::new() };
        proof {
            assert(r.index_s() =~= Seq::<(ContextId, Seq<SwapChainId>)>::empty());
        }
        r
    }

    /// Where `id` sits in the table, if anywhere.
    fn find_table_index(&self, id: SwapChainId) -> (r: Option<usize>)
        ensures
            r matches Some(t) ==> t < self.table_s().len() && self.table_s()[t as int].0 == id,
            r is None ==> !self.contains_id(id),
    {
        let n = self.table.len();
        let mut i: usize = 0;
        while i < n
            invariant
                i <= n,
                n == self.table_s().len(),
                forall|j: int| 0 <= j < i ==> (#[trigger] self.table_s()[j]).0 != id,
            decreases n - i,
        {
            if self.table[i].0 == id {
                return Some(i);
            }
            i = i + 1;
        }
        None
    }

    /// Where `ctx` sits in the context index, if anywhere.
    fn find_index_entry(&self, ctx: ContextId) -> (r: Option<usize>)
        ensures
            r matches Some(k) ==> k < self.index_s().len() && self.index_s()[k as int].0 == ctx,
            r is None ==> forall|k: int|
                0 <= k < self.index_s().len() ==> (#[trigger] self.index_s()[k]).0 != ctx,
    {
        let n = self.ids.len();
        let mut i: usize = 0;
        while i < n
            invariant
                i <= n,
                n == self.index_s().len(),
                forall|j: int| 0 <= j < i ==> (#[trigger] self.index_s()[j]).0 != ctx,
            decreases n - i,
        {
            if self.ids[i].0 == ctx {
                return Some(i);
            }
            i = i + 1;
        }
        None
    }

    /// Look a swap chain up by identity: a handle to the registered chain,
    /// or nothing when the identity is unknown.
    pub fn get(&self, id: SwapChainId) -> (r: Option<SwapChain<P>>)
        ensures
            r is Some <==> self.contains_id(id),
            r matches Some(c) ==> exists|t: int|
                0 <= t < self.table_s().len() && #[trigger] self.table_s()[t] == (id, c),
    {
        match self.find_table_index(id) {
            Some(t) => Some(self.table[t].1.clone()),
            None => None,
        }
    }

    /// Put a freshly created chain in the table and index it under its
    /// context.
    fn insert_entry(&mut self, id: SwapChainId, ctx: ContextId, chain: SwapChain<P>)
        requires
            old(self).wf(),
            !old(self).contains_id(id),
            chain.spec_context_id() == ctx,
        ensures
            final(self).wf(),
            final(self).table_s() == old(self).table_s().push((id, chain)),
            forall|c: ContextId, i: SwapChainId|
                #![trigger final(self).indexed(c, i)]
                final(self).indexed(c, i) <==> (old(self).indexed(c, i) || (c == ctx && i == id)),
    {
        let ghost pre = *self;
        match self.find_index_entry(ctx) {
            Some(k) => {
                let mut entry = self.ids.remove(k);
                entry.1.push(id);
                self.ids.insert(k, entry);
                proof {
                    assert(self.index_s() =~= pre.index_s().update(
                        k as int,
                        (ctx, pre.index_s()[k as int].1.push(id)),
                    ));
                }
            },
            None => {
                let mut list: Vec<SwapChainId> = Vec::new();
                list.push(id);
                self.ids.push((ctx, list));
                proof {
                    assert(self.index_s() =~= pre.index_s().push((ctx, seq![id])));
                }
            },
        }
        let ghost mid = *self;
        self.table.push((id, chain));
        proof {
            self.lemma_insert_entry_wf(pre, mid, id, ctx, chain);
        }
    }

    /// The bookkeeping facts behind [`Self::insert_entry`]: pushing the pair
    /// into the table and adding the identity to its context's list keeps
    /// the registry well formed and changes the index by exactly one
    /// membership.
    proof fn lemma_insert_entry_wf(
        &self,
        pre: Self,
        mid: Self,
        id: SwapChainId,
        ctx: ContextId,
        chain: SwapChain<P>,
    )
        requires
            pre.wf(),
            !pre.contains_id(id),
            chain.spec_context_id() == ctx,
            self.table_s() == pre.table_s().push((id, chain)),
            mid.table_s() == pre.table_s(),
            self.index_s() == mid.index_s(),
            (exists|k: int|
                0 <= k < pre.index_s().len() && (#[trigger] pre.index_s()[k]).0 == ctx
                    && mid.index_s() == pre.index_s().update(
                    k,
                    (ctx, pre.index_s()[k].1.push(id)),
                )) || ((forall|k: int|
                0 <= k < pre.index_s().len() ==> (#[trigger] pre.index_s()[k]).0 != ctx)
                && mid.index_s() == pre.index_s().push((ctx, seq![id]))),
        ensures
            self.wf(),
            forall|c: ContextId, i: SwapChainId|
                #![trigger self.indexed(c, i)]
                self.indexed(c, i) <==> (pre.indexed(c, i) || (c == ctx && i == id)),
    {
        // The new identity is not in any list: every listed identity is
        // backed by a table entry, and the table does not contain `id`.
        assert forall|k: int, j: int|
            0 <= k < pre.index_s().len() && 0 <= j < pre.index_s()[k].1.len() implies (
        #[trigger] pre.index_s()[k].1[j]) != id by {
            if pre.index_s()[k].1[j] == id {
                assert(pre.entry_for(id, pre.index_s()[k].0));
                assert(pre.contains_id(id));
            }
        }

        // How each index entry of `self` relates to one of `pre`.
        if exists|k: int|
            0 <= k < pre.index_s().len() && (#[trigger] pre.index_s()[k]).0 == ctx
                && mid.index_s() == pre.index_s().update(k, (ctx, pre.index_s()[k].1.push(id))) {
            let k = choose|k: int|
                0 <= k < pre.index_s().len() && (#[trigger] pre.index_s()[k]).0 == ctx
                    && mid.index_s() == pre.index_s().update(
                    k,
                    (ctx, pre.index_s()[k].1.push(id)),
                );
            assert forall|c: ContextId, i: SwapChainId|
                #![trigger self.indexed(c, i)]
                self.indexed(c, i) <==> (pre.indexed(c, i) || (c == ctx && i == id)) by {
                if self.indexed(c, i) {
                    let m = choose|m: int|
                        0 <= m < self.index_s().len() && (#[trigger] self.index_s()[m]).0 == c
                            && self.index_s()[m].1.contains(i);
                    if m == k {
                        if i != id {
                            let j = choose|j: int|
                                0 <= j < self.index_s()[k].1.len() && self.index_s()[k].1[j] == i;
                            assert(pre.index_s()[k].1[j] == i);
                            assert(pre.index_s()[k].1.contains(i));
                            assert(pre.indexed(c, i));
                        }
                    } else {
                        assert(pre.index_s()[m] == self.index_s()[m]);
                        assert(pre.indexed(c, i));
                    }
                }
                if pre.indexed(c, i) {
                    let m = choose|m: int|
                        0 <= m < pre.index_s().len() && (#[trigger] pre.index_s()[m]).0 == c
                            && pre.index_s()[m].1.contains(i);
                    if m == k {
                        let j = choose|j: int|
                            0 <= j < pre.index_s()[k].1.len() && pre.index_s()[k].1[j] == i;
                        assert(self.index_s()[k].1[j] == i);
                        assert(self.index_s()[k].1.contains(i));
                        assert(self.indexed(c, i));
                    } else {
                        assert(self.index_s()[m] == pre.index_s()[m]);
                        assert(self.indexed(c, i));
                    }
                }
                if c == ctx && i == id {
                    assert(self.index_s()[k].1.last() == id);
                    assert(self.index_s()[k].1.contains(id));
                    assert(self.indexed(c, i));
                }
            }
            // Uniqueness within the updated list.
            assert(self.lists_unique()) by {
                assert forall|m: int, a: int, b: int|
                    0 <= m < self.index_s().len() && 0 <= a < b < self.index_s()[m].1.len() implies (
                #[trigger] self.index_s()[m].1[a]) != (#[trigger] self.index_s()[m].1[b]) by {
                    if m == k {
                        if b < self.index_s()[k].1.len() - 1 {
                            assert(pre.index_s()[k].1[a] != pre.index_s()[k].1[b]);
                        } else {
                            assert(self.index_s()[k].1[b] == id);
                            assert(self.index_s()[k].1[a] == pre.index_s()[k].1[a]);
                        }
                    } else {
                        assert(pre.index_s()[m] == self.index_s()[m]);
                    }
                }
            }
        } else {
            let k = self.index_s().len() - 1;
            assert(self.index_s()[k] == (ctx, seq![id]));
            assert forall|c: ContextId, i: SwapChainId|
                #![trigger self.indexed(c, i)]
                self.indexed(c, i) <==> (pre.indexed(c, i) || (c == ctx && i == id)) by {
                if self.indexed(c, i) {
                    let m = choose|m: int|
                        0 <= m < self.index_s().len() && (#[trigger] self.index_s()[m]).0 == c
                            && self.index_s()[m].1.contains(i);
                    if m == k {
                        assert(seq![id].contains(i) ==> i == id);
                    } else {
                        assert(pre.index_s()[m] == self.index_s()[m]);
                        assert(pre.indexed(c, i));
                    }
                }
                if pre.indexed(c, i) {
                    let m = choose|m: int|
                        0 <= m < pre.index_s().len() && (#[trigger] pre.index_s()[m]).0 == c
                            && pre.index_s()[m].1.contains(i);
                    assert(self.index_s()[m] == pre.index_s()[m]);
                    assert(self.indexed(c, i));
                }
                if c == ctx && i == id {
                    assert(self.index_s()[k].1[0] == id);
                    assert(self.index_s()[k].1.contains(id));
                    assert(self.indexed(c, i));
                }
            }
            assert(self.lists_unique()) by {
                assert forall|m: int, a: int, b: int|
                    0 <= m < self.index_s().len() && 0 <= a < b < self.index_s()[m].1.len() implies (
                #[trigger] self.index_s()[m].1[a]) != (#[trigger] self.index_s()[m].1[b]) by {
                    if m < k {
                        assert(pre.index_s()[m] == self.index_s()[m]);
                    } else {
                        assert(self.index_s()[k].1.len() == 1);
                    }
                }
            }
        }

        // The table keeps unique keys: the new key was absent.
        assert(self.table_keys_unique()) by {
            assert forall|i: int, j: int|
                0 <= i < j < self.table_s().len() implies (#[trigger] self.table_s()[i]).0 != (
            #[trigger] self.table_s()[j]).0 by {
                if j == self.table_s().len() - 1 {
                    if self.table_s()[i].0 == id {
                        assert(pre.table_s()[i] == self.table_s()[i]);
                        assert(pre.contains_id(id));
                    }
                } else {
                    assert(pre.table_s()[i] == self.table_s()[i]);
                    assert(pre.table_s()[j] == self.table_s()[j]);
                }
            }
        }

        // Every table entry is still indexed.
        assert(self.table_indexed()) by {
            assert forall|t: int| 0 <= t < self.table_s().len() implies self.indexed(
                (#[trigger] self.table_s()[t]).1.spec_context_id(),
                self.table_s()[t].0,
            ) by {
                if t < self.table_s().len() - 1 {
                    assert(pre.table_s()[t] == self.table_s()[t]);
                    assert(pre.indexed(
                        pre.table_s()[t].1.spec_context_id(),
                        pre.table_s()[t].0,
                    ));
                } else {
                    assert(self.table_s()[t] == (id, chain));
                    assert(self.indexed(ctx, id));
                }
            }
        }

        // Every indexed identity is still backed by a table entry.
        assert(self.index_backed()) by {
            assert forall|k2: int, j: int|
                0 <= k2 < self.index_s().len() && 0 <= j < self.index_s()[k2].1.len() implies self.entry_for(
                (#[trigger] self.index_s()[k2].1[j]),
                self.index_s()[k2].0,
            ) by {
                let i = self.index_s()[k2].1[j];
                let c = self.index_s()[k2].0;
                assert(self.indexed(c, i));
                if pre.indexed(c, i) {
                    let m = choose|m: int|
                        0 <= m < pre.index_s().len() && (#[trigger] pre.index_s()[m]).0 == c
                            && pre.index_s()[m].1.contains(i);
                    let j2 = choose|j2: int|
                        0 <= j2 < pre.index_s()[m].1.len() && pre.index_s()[m].1[j2] == i;
                    assert(pre.entry_for(i, c));
                    let t = choose|t: int|
                        0 <= t < pre.table_s().len() && (#[trigger] pre.table_s()[t]).0 == i
                            && pre.table_s()[t].1.spec_context_id() == c;
                    assert(self.table_s()[t] == pre.table_s()[t]);
                    assert(self.entry_for(i, c));
                } else {
                    assert(c == ctx && i == id);
                    assert(self.table_s().last() == (id, chain));
                    assert(self.entry_for(i, c));
                }
            }
        }
    }

    /// Where `id` sits in one context's list, if anywhere.
    fn find_in_list(list: &Vec<SwapChainId>, id: SwapChainId) -> (r: Option<usize>)
        ensures
            r matches Some(p) ==> p < list@.len() && list@[p as int] == id,
            r is None ==> !list@.contains(id),
    {
        let n = list.len();
        let mut i: usize = 0;
        while i < n
            invariant
                i <= n,
                n == list@.len(),
                forall|j: int| 0 <= j < i ==> list@[j] != id,
            decreases n - i,
        {
            if list[i] == id {
                return Some(i);
            }
            i = i + 1;
        }
        None
    }

    /// Drop `id` from every context's list, leaving the table alone.
    fn unindex(&mut self, id: SwapChainId)
        requires
            old(self).lists_unique(),
        ensures
            final(self).table_s() == old(self).table_s(),
            final(self).index_s().len() == old(self).index_s().len(),
            forall|k: int|
                0 <= k < final(self).index_s().len() ==> (#[trigger] final(self).index_s()[k]).0
                    == old(self).index_s()[k].0,
            forall|k: int, i: SwapChainId|
                #![trigger final(self).index_s()[k].1.contains(i)]
                0 <= k < final(self).index_s().len() ==> (final(self).index_s()[k].1.contains(i)
                    <==> (old(self).index_s()[k].1.contains(i) && i != id)),
            final(self).lists_unique(),
    {
        let ghost pre = *self;
        let n = self.ids.len();
        let mut k: usize = 0;
        while k < n
            invariant
                k <= n,
                n == self.index_s().len(),
                self.table_s() == pre.table_s(),
                self.index_s().len() == pre.index_s().len(),
                forall|m: int|
                    0 <= m < n ==> (#[trigger] self.index_s()[m]).0 == pre.index_s()[m].0,
                forall|m: int| k <= m < n ==> #[trigger] self.index_s()[m] == pre.index_s()[m],
                forall|m: int, i: SwapChainId|
                    #![trigger self.index_s()[m].1.contains(i)]
                    0 <= m < k ==> (self.index_s()[m].1.contains(i) <==> (
                    pre.index_s()[m].1.contains(i) && i != id)),
                self.lists_unique(),
            decreases n - k,
        {
            let ghost loop_pre = *self;
            let mut entry = self.ids.remove(k);
            match Self::find_in_list(&entry.1, id) {
                Some(p) => {
                    let ghost list0 = entry.1@;
                    entry.1.remove(p);
                    proof {
                        assert(list0 == loop_pre.index_s()[k as int].1);
                        assert forall|a: int, b: int|
                            0 <= a < b < list0.len() implies #[trigger] list0[a] != #[trigger] list0[b] by {
                            assert(loop_pre.index_s()[k as int].1[a] != loop_pre.index_s()[
                                k as int
                            ].1[b]);
                        }
                        Self::lemma_list_remove(list0, entry.1@, p as int, id);
                    }
                },
                None => {},
            }
            self.ids.insert(k, entry);
            proof {
                assert(self.index_s() =~= loop_pre.index_s().update(
                    k as int,
                    (loop_pre.index_s()[k as int].0, entry.1@),
                ));
            }
            k = k + 1;
        }
    }

    /// Removing position `p` (holding `id`) from a duplicate-free list keeps
    /// it duplicate-free, keeps every other element, and drops `id`.
    proof fn lemma_list_remove(list0: Seq<SwapChainId>, list1: Seq<SwapChainId>, p: int, id: SwapChainId)
        requires
            0 <= p < list0.len(),
            list0[p] == id,
            forall|a: int, b: int|
                #![trigger list0[a], list0[b]]
                0 <= a < b < list0.len() ==> list0[a] != list0[b],
            list1 == list0.remove(p),
        ensures
            forall|i: SwapChainId| #[trigger]
                list1.contains(i) <==> (list0.contains(i) && i != id),
            forall|a: int, b: int|
                #![trigger list1[a], list1[b]]
                0 <= a < b < list1.len() ==> list1[a] != list1[b],
    {
        assert forall|i: SwapChainId| #[trigger]
            list1.contains(i) <==> (list0.contains(i) && i != id) by {
            if list1.contains(i) {
                let a = choose|a: int| 0 <= a < list1.len() && list1[a] == i;
                if a < p {
                    assert(list0[a] == i);
                } else {
                    assert(list0[a + 1] == i);
                }
                assert(list0.contains(i));
                assert(i != id);
            }
            if list0.contains(i) && i != id {
                let a = choose|a: int| 0 <= a < list0.len() && list0[a] == i;
                if a < p {
                    assert(list1[a] == i);
                } else {
                    assert(list1[a - 1] == i);
                }
                assert(list1.contains(i));
            }
        }
        assert forall|a: int, b: int|
            0 <= a < b < list1.len() implies (#[trigger] list1[a]) != (#[trigger] list1[b]) by {
            let a0: int = if a < p {
                a
            } else {
                a + 1
            };
            let b0: int = if b < p {
                b
            } else {
                b + 1
            };
            assert(list0[a0] == list1[a]);
            assert(list0[b0] == list1[b]);
        }
    }

    /// Destroy a swap chain. The entry's producer context is validated
    /// first: a context mismatch fails with `IncompatibleContext` and the
    /// registry is exactly unchanged, with no surface destroyed. On a match
    /// the chain is removed from the table and from its context's index
    /// entry and its resources are destroyed; the bookkeeping is completed
    /// whether or not the destruction succeeds. A missing identity is a
    /// silent no-op, not an error.
    pub fn destroy<D: Device>(
        &mut self,
        id: SwapChainId,
        device: &mut D,
        context: &Context,
    ) -> (r: Result<(), Error>)
        requires
            old(self).wf(),
        ensures
            final(self).wf(),
            r == Err::<(), Error>(Error::IncompatibleContext) <==> exists|t: int|
                0 <= t < old(self).table_s().len() && (#[trigger] old(self).table_s()[t]).0 == id
                    && old(self).table_s()[t].1.spec_context_id() != context.id,
            r == Err::<(), Error>(Error::IncompatibleContext) ==> *final(self) == *old(self)
                && *final(device) == *old(device),
            r != Err::<(), Error>(Error::IncompatibleContext) ==> !final(self).contains_id(id),
            r != Err::<(), Error>(Error::IncompatibleContext) ==> forall|i: SwapChainId|
                #![trigger final(self).contains_id(i)]
                i != id ==> (final(self).contains_id(i) <==> old(self).contains_id(i)),
            r != Err::<(), Error>(Error::IncompatibleContext) ==> forall|c: ContextId, i: SwapChainId|
                #![trigger final(self).indexed(c, i)]
                final(self).indexed(c, i) <==> (old(self).indexed(c, i) && i != id),
            r != Err::<(), Error>(Error::IncompatibleContext) ==> forall|t0: int|
                #![trigger old(self).table_s()[t0]]
                0 <= t0 < old(self).table_s().len() && old(self).table_s()[t0].0 != id
                    ==> final(self).table_s().contains(old(self).table_s()[t0]),
            !old(self).contains_id(id) ==> r is Ok && *final(self) == *old(self) && *final(device)
                == *old(device),
            r is Err ==> r->Err_0 == Error::IncompatibleContext || r->Err_0 is Backend,
    {
        let t = match self.find_table_index(id) {
            None => {
                proof {
                    assert forall|c: ContextId, i: SwapChainId|
                        #![trigger self.indexed(c, i)]
                        self.indexed(c, i) <==> (self.indexed(c, i) && i != id) by {
                        if self.indexed(c, i) && i == id {
                            let m = choose|m: int|
                                0 <= m < self.index_s().len() && (#[trigger] self.index_s()[m]).0
                                    == c && self.index_s()[m].1.contains(i);
                            let j = choose|j: int|
                                0 <= j < self.index_s()[m].1.len() && self.index_s()[m].1[j] == i;
                            assert(self.entry_for(id, c));
                            assert(self.contains_id(id));
                        }
                    }
                    assert forall|t0: int|
                        #![trigger self.table_s()[t0]]
                        0 <= t0 < self.table_s().len() && self.table_s()[t0].0 != id implies self.table_s().contains(
                        self.table_s()[t0],
                    ) by {}
                }
                return Ok(());
            },
            Some(t) => t,
        };
        // Fail fast with zero mutation when the caller is not the chain's
        // producer.
        if self.table[t].1.context_id() != context.context_id() {
            return Err(Error::IncompatibleContext);
        }
        proof {
            // The table holds `id` only at `t`, so no entry under `id` has
            // another producer context.
            assert forall|t1: int|
                0 <= t1 < self.table_s().len() && (#[trigger] self.table_s()[t1]).0 == id implies self.table_s()[
                t1
            ].1.spec_context_id() == context.id by {
                if t1 != t as int {
                    assert(self.table_s()[t1].0 != self.table_s()[t as int].0);
                }
            }
        }
        let ghost pre = *self;
        let entry = self.table.remove(t);
        self.unindex(id);
        proof {
            self.lemma_destroy_wf(pre, t as int, id);
        }
        entry.1.destroy(device, context)
    }

    /// The bookkeeping facts behind [`Self::destroy`]: removing the one
    /// table entry holding `id` and dropping `id` from the index keeps the
    /// registry well formed and removes exactly that identity.
    proof fn lemma_destroy_wf(&self, pre: Self, t: int, id: SwapChainId)
        requires
            pre.wf(),
            0 <= t < pre.table_s().len(),
            pre.table_s()[t].0 == id,
            self.table_s() == pre.table_s().remove(t),
            self.index_s().len() == pre.index_s().len(),
            forall|k: int|
                0 <= k < self.index_s().len() ==> (#[trigger] self.index_s()[k]).0
                    == pre.index_s()[k].0,
            forall|k: int, i: SwapChainId|
                #![trigger self.index_s()[k].1.contains(i)]
                0 <= k < self.index_s().len() ==> (self.index_s()[k].1.contains(i) <==> (
                pre.index_s()[k].1.contains(i) && i != id)),
            self.lists_unique(),
        ensures
            self.wf(),
            !self.contains_id(id),
            forall|i: SwapChainId|
                #![trigger self.contains_id(i)]
                i != id ==> (self.contains_id(i) <==> pre.contains_id(i)),
            forall|c: ContextId, i: SwapChainId|
                #![trigger self.indexed(c, i)]
                self.indexed(c, i) <==> (pre.indexed(c, i) && i != id),
            forall|t0: int|
                #![trigger pre.table_s()[t0]]
                0 <= t0 < pre.table_s().len() && pre.table_s()[t0].0 != id ==> self.table_s().contains(
                    pre.table_s()[t0],
                ),
    {
        // Every entry other than the removed one survives, as the same pair.
        assert forall|t0: int|
            #![trigger pre.table_s()[t0]]
            0 <= t0 < pre.table_s().len() && pre.table_s()[t0].0 != id implies self.table_s().contains(
            pre.table_s()[t0],
        ) by {
            let x: int = if t0 < t {
                t0
            } else {
                t0 - 1
            };
            assert(t0 != t);
            assert(self.table_s()[x] == pre.table_s()[t0]);
        }

        // Element-level view of the table removal.
        assert forall|x: int| 0 <= x < self.table_s().len() implies #[trigger] self.table_s()[x]
            == (if x < t {
            pre.table_s()[x]
        } else {
            pre.table_s()[x + 1]
        }) by {}

        assert(!self.contains_id(id)) by {
            if self.contains_id(id) {
                let x = choose|x: int|
                    0 <= x < self.table_s().len() && (#[trigger] self.table_s()[x]).0 == id;
                let x0: int = if x < t {
                    x
                } else {
                    x + 1
                };
                assert(pre.table_s()[x0].0 == id);
                assert(pre.table_s()[t].0 == id);
            }
        }

        assert forall|i: SwapChainId|
            i != id implies ((#[trigger] self.contains_id(i)) <==> pre.contains_id(i)) by {
            if self.contains_id(i) {
                let x = choose|x: int|
                    0 <= x < self.table_s().len() && (#[trigger] self.table_s()[x]).0 == i;
                assert(pre.contains_id(i));
            }
            if pre.contains_id(i) {
                let x0 = choose|x0: int|
                    0 <= x0 < pre.table_s().len() && (#[trigger] pre.table_s()[x0]).0 == i;
                let x: int = if x0 < t {
                    x0
                } else {
                    x0 - 1
                };
                assert(self.table_s()[x].0 == i);
                assert(self.contains_id(i));
            }
        }

        assert forall|c: ContextId, i: SwapChainId|
            #![trigger self.indexed(c, i)]
            self.indexed(c, i) <==> (pre.indexed(c, i) && i != id) by {
            if self.indexed(c, i) {
                let m = choose|m: int|
                    0 <= m < self.index_s().len() && (#[trigger] self.index_s()[m]).0 == c
                        && self.index_s()[m].1.contains(i);
                assert(pre.index_s()[m].1.contains(i) && i != id);
                assert(pre.indexed(c, i));
            }
            if pre.indexed(c, i) && i != id {
                let m = choose|m: int|
                    0 <= m < pre.index_s().len() && (#[trigger] pre.index_s()[m]).0 == c
                        && pre.index_s()[m].1.contains(i);
                assert(self.index_s()[m].1.contains(i));
                assert(self.indexed(c, i));
            }
        }

        assert(self.table_keys_unique()) by {
            assert forall|a: int, b: int|
                0 <= a < b < self.table_s().len() implies (#[trigger] self.table_s()[a]).0 != (
            #[trigger] self.table_s()[b]).0 by {
                let a0: int = if a < t {
                    a
                } else {
                    a + 1
                };
                let b0: int = if b < t {
                    b
                } else {
                    b + 1
                };
                assert(pre.table_s()[a0] == self.table_s()[a]);
                assert(pre.table_s()[b0] == self.table_s()[b]);
            }
        }

        assert(self.index_keys_unique()) by {
            assert forall|a: int, b: int|
                0 <= a < b < self.index_s().len() implies (#[trigger] self.index_s()[a]).0 != (
            #[trigger] self.index_s()[b]).0 by {
                assert(pre.index_s()[a].0 != pre.index_s()[b].0);
            }
        }

        assert(self.table_indexed()) by {
            assert forall|x: int| 0 <= x < self.table_s().len() implies self.indexed(
                (#[trigger] self.table_s()[x]).1.spec_context_id(),
                self.table_s()[x].0,
            ) by {
                let x0: int = if x < t {
                    x
                } else {
                    x + 1
                };
                assert(pre.table_s()[x0] == self.table_s()[x]);
                assert(pre.indexed(
                    pre.table_s()[x0].1.spec_context_id(),
                    pre.table_s()[x0].0,
                ));
                if self.table_s()[x].0 == id {
                    assert(pre.table_s()[t].0 == id);
                    assert(x0 != t ==> pre.table_s()[x0].0 != pre.table_s()[t].0);
                }
            }
        }

        assert(self.index_backed()) by {
            assert forall|k: int, j: int|
                0 <= k < self.index_s().len() && 0 <= j < self.index_s()[k].1.len() implies self.entry_for(
                (#[trigger] self.index_s()[k].1[j]),
                self.index_s()[k].0,
            ) by {
                let i = self.index_s()[k].1[j];
                let c = self.index_s()[k].0;
                assert(self.index_s()[k].1.contains(i));
                assert(pre.index_s()[k].1.contains(i) && i != id);
                let j0 = choose|j0: int|
                    0 <= j0 < pre.index_s()[k].1.len() && pre.index_s()[k].1[j0] == i;
                assert(pre.entry_for(i, c));
                let t0 = choose|t0: int|
                    0 <= t0 < pre.table_s().len() && (#[trigger] pre.table_s()[t0]).0 == i
                        && pre.table_s()[t0].1.spec_context_id() == c;
                assert(t0 != t);
                let x: int = if t0 < t {
                    t0
                } else {
                    t0 - 1
                };
                assert(self.table_s()[x] == pre.table_s()[t0]);
                assert(self.entry_for(i, c));
            }
        }
    }

    /// Destroy every swap chain indexed under the given context: each is
    /// removed from the table, the context's index entry is cleared, and
    /// each chain's resources are destroyed. The bookkeeping is completed
    /// for every chain even when a destruction fails; the first backend
    /// error, if any, is returned.
    pub fn destroy_all<D: Device>(&mut self, device: &mut D, context: &Context) -> (r: Result<
        (),
        Error,
    >)
        requires
            old(self).wf(),
        ensures
            final(self).wf(),
            forall|i: SwapChainId| !(#[trigger] final(self).indexed(context.id, i)),
            forall|i: SwapChainId|
                #![trigger final(self).contains_id(i)]
                final(self).contains_id(i) <==> (old(self).contains_id(i) && !old(self).indexed(
                    context.id,
                    i,
                )),
            forall|c: ContextId, i: SwapChainId|
                #![trigger final(self).indexed(c, i)]
                c != context.id ==> (final(self).indexed(c, i) <==> old(self).indexed(c, i)),
            forall|t0: int|
                #![trigger old(self).table_s()[t0]]
                0 <= t0 < old(self).table_s().len() && !old(self).indexed(
                    context.id,
                    old(self).table_s()[t0].0,
                ) ==> final(self).table_s().contains(old(self).table_s()[t0]),
            r matches Err(e) ==> e is Backend,
    {
        let ghost pre = *self;
        let k = match self.find_index_entry(context.context_id()) {
            None => {
                proof {
                    assert forall|i: SwapChainId| !(#[trigger] self.indexed(context.id, i)) by {}
                    assert forall|i: SwapChainId|
                        #![trigger self.contains_id(i)]
                        self.contains_id(i) <==> (self.contains_id(i) && !self.indexed(
                            context.id,
                            i,
                        )) by {}
                    assert forall|t0: int|
                        #![trigger self.table_s()[t0]]
                        0 <= t0 < self.table_s().len() implies self.table_s().contains(
                        self.table_s()[t0],
                    ) by {}
                }
                return Ok(());
            },
            Some(k) => k,
        };
        let entry = self.ids.remove(k);
        let list = entry.1;
        let ghost listg = list@;
        proof {
            assert(listg == pre.index_s()[k as int].1);
            assert(self.index_s() =~= pre.index_s().remove(k as int));
        }
        let ghost mid = *self;
        proof {
            assert(self.table_s() == pre.table_s());
            assert(self.table_keys_unique()) by {
                assert forall|a: int, b: int|
                    0 <= a < b < self.table_s().len() implies (#[trigger] self.table_s()[a]).0 != (
                #[trigger] self.table_s()[b]).0 by {
                    assert(pre.table_s()[a] == self.table_s()[a]);
                    assert(pre.table_s()[b] == self.table_s()[b]);
                }
            }
            assert(listg.subrange(0, 0) =~= Seq::<SwapChainId>::empty());
            assert forall|i: SwapChainId|
                #![trigger self.contains_id(i)]
                self.contains_id(i) <==> (pre.contains_id(i) && !listg.subrange(0, 0).contains(
                    i,
                )) by {
                if self.contains_id(i) {
                    let t = choose|t: int|
                        0 <= t < self.table_s().len() && (#[trigger] self.table_s()[t]).0 == i;
                    assert(pre.table_s()[t].0 == i);
                }
                if pre.contains_id(i) {
                    let t = choose|t: int|
                        0 <= t < pre.table_s().len() && (#[trigger] pre.table_s()[t]).0 == i;
                    assert(self.table_s()[t].0 == i);
                }
            }
            assert forall|x: int|
                0 <= x < self.table_s().len() implies pre.table_s().contains(
                #[trigger] self.table_s()[x],
            ) by {
                assert(pre.table_s()[x] == self.table_s()[x]);
            }
            assert forall|t0: int|
                #![trigger pre.table_s()[t0]]
                0 <= t0 < pre.table_s().len() && !listg.subrange(0, 0).contains(
                    pre.table_s()[t0].0,
                ) implies self.table_s().contains(pre.table_s()[t0]) by {
                assert(self.table_s()[t0] == pre.table_s()[t0]);
            }
        }

        // Remove every listed identity from the table, keeping the chains to
        // destroy.
        let mut chains: Vec<SwapChain<P>> = Vec::new();
        let n = list.len();
        let mut j: usize = 0;
        while j < n
            invariant
                j <= n,
                n == listg.len(),
                listg == pre.index_s()[k as int].1,
                0 <= k < pre.index_s().len(),
                pre.index_s()[k as int].0 == context.id,
                pre.wf(),
                mid.table_s() == pre.table_s(),
                mid.index_s() == pre.index_s().remove(k as int),
                self.index_s() == mid.index_s(),
                list@ == listg,
                self.table_keys_unique(),
                forall|i: SwapChainId|
                    #![trigger self.contains_id(i)]
                    self.contains_id(i) <==> (pre.contains_id(i) && !listg.subrange(
                        0,
                        j as int,
                    ).contains(i)),
                forall|x: int|
                    0 <= x < self.table_s().len() ==> pre.table_s().contains(
                        #[trigger] self.table_s()[x],
                    ),
                forall|t0: int|
                    #![trigger pre.table_s()[t0]]
                    0 <= t0 < pre.table_s().len() && !listg.subrange(0, j as int).contains(
                        pre.table_s()[t0].0,
                    ) ==> self.table_s().contains(pre.table_s()[t0]),
                forall|x: int|
                    0 <= x < chains@.len() ==> (#[trigger] chains@[x]).spec_context_id()
                        == context.id,
            decreases n - j,
        {
            let ghost step_pre = *self;
            let id = list[j];
            match self.find_table_index(id) {
                Some(t) => {
                    let removed = self.table.remove(t);
                    proof {
                        // The removed pair sits in the original table, under
                        // the context that indexes it.
                        assert(pre.table_s().contains(step_pre.table_s()[t as int]));
                        let t0 = choose|t0: int|
                            0 <= t0 < pre.table_s().len() && #[trigger] pre.table_s()[t0]
                                == step_pre.table_s()[t as int];
                        assert(pre.index_s()[k as int].1[j as int] == id);
                        assert(pre.entry_for(id, context.id));
                        let t1 = choose|t1: int|
                            0 <= t1 < pre.table_s().len() && (#[trigger] pre.table_s()[t1]).0 == id
                                && pre.table_s()[t1].1.spec_context_id() == context.id;
                        if t0 != t1 {
                            assert(pre.table_s()[t0].0 != pre.table_s()[t1].0);
                        }
                        assert(removed.1.spec_context_id() == context.id);
                    }
                    chains.push(removed.1);
                    proof {
                        assert forall|x: int|
                            0 <= x < self.table_s().len() implies #[trigger] self.table_s()[x]
                            == (if x < t {
                            step_pre.table_s()[x]
                        } else {
                            step_pre.table_s()[x + 1]
                        }) by {}
                        Self::lemma_table_step(pre, step_pre, *self, listg, j as int, t as int, id);
                    }
                },
                None => {
                    proof {
                        assert forall|i: SwapChainId|
                            #![trigger self.contains_id(i)]
                            self.contains_id(i) <==> (pre.contains_id(i) && !listg.subrange(
                                0,
                                j as int + 1,
                            ).contains(i)) by {
                            if listg.subrange(0, j as int + 1).contains(i) && !listg.subrange(
                                0,
                                j as int,
                            ).contains(i) {
                                assert(i == id);
                            }
                            if listg.subrange(0, j as int).contains(i) {
                                let y = choose|y: int|
                                    0 <= y < j && #[trigger] listg.subrange(0, j as int)[y] == i;
                                assert(listg.subrange(0, j as int + 1)[y] == i);
                            }
                        }
                        assert forall|t0: int|
                            #![trigger pre.table_s()[t0]]
                            0 <= t0 < pre.table_s().len() && !listg.subrange(
                                0,
                                j as int + 1,
                            ).contains(pre.table_s()[t0].0) implies self.table_s().contains(
                            pre.table_s()[t0],
                        ) by {
                            if listg.subrange(0, j as int).contains(pre.table_s()[t0].0) {
                                let y = choose|y: int|
                                    0 <= y < j && #[trigger] listg.subrange(0, j as int)[y] == pre.table_s()[
                                        t0
                                    ].0;
                                assert(listg.subrange(0, j as int + 1)[y] == pre.table_s()[t0].0);
                            }
                        }
                    }
                },
            }
            j = j + 1;
        }

        proof {
            self.lemma_destroy_all_wf(pre, mid, listg, k as int, context.id);
        }

        // Destroy the collected chains, keeping the first error.
        let mut chains = chains;
        let mut first_err: Option<Error> = None;
        loop
            invariant
                forall|x: int|
                    0 <= x < chains@.len() ==> (#[trigger] chains@[x]).spec_context_id()
                        == context.id,
                first_err matches Some(e) ==> e is Backend,
            decreases chains@.len(),
        {
            match chains.pop() {
                Some(chain) => {
                    match chain.destroy(device, context) {
                        Ok(()) => {},
                        Err(e) => {
                            if first_err.is_none() {
                                first_err = Some(e);
                            }
                        },
                    }
                },
                None => {
                    break ;
                },
            }
        }
        match first_err {
            None => Ok(()),
            Some(e) => Err(e),
        }
    }

    /// One step of the table sweep in [`Self::destroy_all`]: removing the
    /// entry holding the `j`-th listed identity extends the removed prefix
    /// by one.
    proof fn lemma_table_step(
        pre: Self,
        step_pre: Self,
        cur: Self,
        listg: Seq<SwapChainId>,
        j: int,
        t: int,
        id: SwapChainId,
    )
        requires
            pre.table_keys_unique(),
            0 <= j < listg.len(),
            listg[j] == id,
            0 <= t < step_pre.table_s().len(),
            step_pre.table_s()[t].0 == id,
            cur.table_s() == step_pre.table_s().remove(t),
            step_pre.table_keys_unique(),
            forall|i: SwapChainId|
                #![trigger step_pre.contains_id(i)]
                step_pre.contains_id(i) <==> (pre.contains_id(i) && !listg.subrange(
                    0,
                    j,
                ).contains(i)),
            forall|x: int|
                0 <= x < step_pre.table_s().len() ==> pre.table_s().contains(
                    #[trigger] step_pre.table_s()[x],
                ),
            forall|t0: int|
                #![trigger pre.table_s()[t0]]
                0 <= t0 < pre.table_s().len() && !listg.subrange(0, j).contains(
                    pre.table_s()[t0].0,
                ) ==> step_pre.table_s().contains(pre.table_s()[t0]),
        ensures
            cur.table_keys_unique(),
            forall|i: SwapChainId|
                #![trigger cur.contains_id(i)]
                cur.contains_id(i) <==> (pre.contains_id(i) && !listg.subrange(0, j + 1).contains(
                    i,
                )),
            forall|x: int|
                0 <= x < cur.table_s().len() ==> pre.table_s().contains(#[trigger] cur.table_s()[x]),
            forall|t0: int|
                #![trigger pre.table_s()[t0]]
                0 <= t0 < pre.table_s().len() && !listg.subrange(0, j + 1).contains(
                    pre.table_s()[t0].0,
                ) ==> cur.table_s().contains(pre.table_s()[t0]),
    {
        assert forall|x: int| 0 <= x < cur.table_s().len() implies #[trigger] cur.table_s()[x] == (
        if x < t {
            step_pre.table_s()[x]
        } else {
            step_pre.table_s()[x + 1]
        }) by {}

        assert(cur.table_keys_unique()) by {
            assert forall|a: int, b: int|
                0 <= a < b < cur.table_s().len() implies (#[trigger] cur.table_s()[a]).0 != (
            #[trigger] cur.table_s()[b]).0 by {
                let a0: int = if a < t {
                    a
                } else {
                    a + 1
                };
                let b0: int = if b < t {
                    b
                } else {
                    b + 1
                };
                assert(step_pre.table_s()[a0] == cur.table_s()[a]);
                assert(step_pre.table_s()[b0] == cur.table_s()[b]);
            }
        }

        assert forall|i: SwapChainId|
            #![trigger cur.contains_id(i)]
            cur.contains_id(i) <==> (pre.contains_id(i) && !listg.subrange(0, j + 1).contains(
                i,
            )) by {
            if cur.contains_id(i) {
                let x = choose|x: int|
                    0 <= x < cur.table_s().len() && (#[trigger] cur.table_s()[x]).0 == i;
                let x0: int = if x < t {
                    x
                } else {
                    x + 1
                };
                assert(step_pre.table_s()[x0].0 == i);
                assert(step_pre.contains_id(i));
                assert(i != id) by {
                    if i == id {
                        assert(step_pre.table_s()[x0].0 == step_pre.table_s()[t].0);
                    }
                }
                assert(!listg.subrange(0, j + 1).contains(i)) by {
                    if listg.subrange(0, j + 1).contains(i) {
                        let y = choose|y: int|
                            0 <= y < j + 1 && #[trigger] listg.subrange(0, j + 1)[y] == i;
                        if y < j {
                            assert(listg.subrange(0, j)[y] == i);
                        } else {
                            assert(i == id);
                        }
                    }
                }
            }
            if pre.contains_id(i) && !listg.subrange(0, j + 1).contains(i) {
                assert(!listg.subrange(0, j).contains(i)) by {
                    if listg.subrange(0, j).contains(i) {
                        let y = choose|y: int| 0 <= y < j && #[trigger] listg.subrange(0, j)[y] == i;
                        assert(listg.subrange(0, j + 1)[y] == i);
                    }
                }
                assert(i != id) by {
                    assert(listg.subrange(0, j + 1)[j] == id);
                }
                assert(step_pre.contains_id(i));
                let x0 = choose|x0: int|
                    0 <= x0 < step_pre.table_s().len() && (#[trigger] step_pre.table_s()[x0]).0
                        == i;
                assert(x0 != t);
                let x: int = if x0 < t {
                    x0
                } else {
                    x0 - 1
                };
                assert(cur.table_s()[x].0 == i);
                assert(cur.contains_id(i));
            }
        }

        assert forall|x: int|
            0 <= x < cur.table_s().len() implies pre.table_s().contains(
            #[trigger] cur.table_s()[x],
        ) by {
            let x0: int = if x < t {
                x
            } else {
                x + 1
            };
            assert(cur.table_s()[x] == step_pre.table_s()[x0]);
            assert(pre.table_s().contains(step_pre.table_s()[x0]));
        }

        assert forall|t0: int|
            #![trigger pre.table_s()[t0]]
            0 <= t0 < pre.table_s().len() && !listg.subrange(0, j + 1).contains(
                pre.table_s()[t0].0,
            ) implies cur.table_s().contains(pre.table_s()[t0]) by {
            assert(!listg.subrange(0, j).contains(pre.table_s()[t0].0)) by {
                if listg.subrange(0, j).contains(pre.table_s()[t0].0) {
                    let y = choose|y: int|
                        0 <= y < j && #[trigger] listg.subrange(0, j)[y] == pre.table_s()[t0].0;
                    assert(listg.subrange(0, j + 1)[y] == pre.table_s()[t0].0);
                }
            }
            assert(step_pre.table_s().contains(pre.table_s()[t0]));
            let x0 = choose|x0: int|
                0 <= x0 < step_pre.table_s().len() && #[trigger] step_pre.table_s()[x0]
                    == pre.table_s()[t0];
            assert(pre.table_s()[t0].0 != id) by {
                assert(listg.subrange(0, j + 1)[j] == id);
            }
            assert(x0 != t);
            let x: int = if x0 < t {
                x0
            } else {
                x0 - 1
            };
            assert(cur.table_s()[x] == pre.table_s()[t0]);
            assert(cur.table_s().contains(pre.table_s()[t0]));
        }
    }

    /// The final bookkeeping facts of [`Self::destroy_all`]: once every
    /// identity listed under the context is swept from the table and the
    /// context's index entry is gone, the registry is well formed again and
    /// exactly the context's chains have disappeared.
    proof fn lemma_destroy_all_wf(
        &self,
        pre: Self,
        mid: Self,
        listg: Seq<SwapChainId>,
        k: int,
        ctx: ContextId,
    )
        requires
            pre.wf(),
            0 <= k < pre.index_s().len(),
            pre.index_s()[k].0 == ctx,
            listg == pre.index_s()[k].1,
            mid.index_s() == pre.index_s().remove(k),
            self.index_s() == mid.index_s(),
            self.table_keys_unique(),
            forall|i: SwapChainId|
                #![trigger self.contains_id(i)]
                self.contains_id(i) <==> (pre.contains_id(i) && !listg.subrange(
                    0,
                    listg.len() as int,
                ).contains(i)),
            forall|x: int|
                0 <= x < self.table_s().len() ==> pre.table_s().contains(
                    #[trigger] self.table_s()[x],
                ),
            forall|t0: int|
                #![trigger pre.table_s()[t0]]
                0 <= t0 < pre.table_s().len() && !listg.subrange(0, listg.len() as int).contains(
                    pre.table_s()[t0].0,
                ) ==> self.table_s().contains(pre.table_s()[t0]),
        ensures
            self.wf(),
            forall|i: SwapChainId| !(#[trigger] self.indexed(ctx, i)),
            forall|i: SwapChainId|
                #![trigger self.contains_id(i)]
                self.contains_id(i) <==> (pre.contains_id(i) && !pre.indexed(ctx, i)),
            forall|c: ContextId, i: SwapChainId|
                #![trigger self.indexed(c, i)]
                c != ctx ==> (self.indexed(c, i) <==> pre.indexed(c, i)),
            forall|t0: int|
                #![trigger pre.table_s()[t0]]
                0 <= t0 < pre.table_s().len() && !pre.indexed(ctx, pre.table_s()[t0].0)
                    ==> self.table_s().contains(pre.table_s()[t0]),
    {
        assert(listg.subrange(0, listg.len() as int) == listg);

        // An identity is listed under the context exactly when it is in the
        // removed list.
        assert forall|i: SwapChainId| #[trigger]
            pre.indexed(ctx, i) <==> listg.contains(i) by {
            if pre.indexed(ctx, i) {
                let m = choose|m: int|
                    0 <= m < pre.index_s().len() && (#[trigger] pre.index_s()[m]).0 == ctx
                        && pre.index_s()[m].1.contains(i);
                if m != k {
                    assert(pre.index_s()[m].0 != pre.index_s()[k].0);
                }
            }
        }

        // Element-level view of the index removal.
        assert forall|m: int| 0 <= m < self.index_s().len() implies #[trigger] self.index_s()[m]
            == (if m < k {
            pre.index_s()[m]
        } else {
            pre.index_s()[m + 1]
        }) by {}

        assert forall|i: SwapChainId| !(#[trigger] self.indexed(ctx, i)) by {
            if self.indexed(ctx, i) {
                let m = choose|m: int|
                    0 <= m < self.index_s().len() && (#[trigger] self.index_s()[m]).0 == ctx
                        && self.index_s()[m].1.contains(i);
                let m0: int = if m < k {
                    m
                } else {
                    m + 1
                };
                assert(pre.index_s()[m0].0 == ctx);
                assert(m0 != k);
                assert(pre.index_s()[m0].0 != pre.index_s()[k].0);
            }
        }

        assert forall|c: ContextId, i: SwapChainId|
            #![trigger self.indexed(c, i)]
            c != ctx implies (self.indexed(c, i) <==> pre.indexed(c, i)) by {
            if self.indexed(c, i) {
                let m = choose|m: int|
                    0 <= m < self.index_s().len() && (#[trigger] self.index_s()[m]).0 == c
                        && self.index_s()[m].1.contains(i);
                let m0: int = if m < k {
                    m
                } else {
                    m + 1
                };
                assert(pre.index_s()[m0] == self.index_s()[m]);
                assert(pre.indexed(c, i));
            }
            if pre.indexed(c, i) {
                let m0 = choose|m0: int|
                    0 <= m0 < pre.index_s().len() && (#[trigger] pre.index_s()[m0]).0 == c
                        && pre.index_s()[m0].1.contains(i);
                assert(m0 != k);
                let m: int = if m0 < k {
                    m0
                } else {
                    m0 - 1
                };
                assert(self.index_s()[m] == pre.index_s()[m0]);
                assert(self.indexed(c, i));
            }
        }

        assert(self.index_keys_unique()) by {
            assert forall|a: int, b: int|
                0 <= a < b < self.index_s().len() implies (#[trigger] self.index_s()[a]).0 != (
            #[trigger] self.index_s()[b]).0 by {
                let a0: int = if a < k {
                    a
                } else {
                    a + 1
                };
                let b0: int = if b < k {
                    b
                } else {
                    b + 1
                };
                assert(pre.index_s()[a0] == self.index_s()[a]);
                assert(pre.index_s()[b0] == self.index_s()[b]);
            }
        }

        assert(self.lists_unique()) by {
            assert forall|m: int, a: int, b: int|
                0 <= m < self.index_s().len() && 0 <= a < b < self.index_s()[m].1.len() implies (
            #[trigger] self.index_s()[m].1[a]) != (#[trigger] self.index_s()[m].1[b]) by {
                let m0: int = if m < k {
                    m
                } else {
                    m + 1
                };
                assert(pre.index_s()[m0] == self.index_s()[m]);
                assert(pre.index_s()[m0].1[a] != pre.index_s()[m0].1[b]);
            }
        }

        assert(self.table_indexed()) by {
            assert forall|x: int| 0 <= x < self.table_s().len() implies self.indexed(
                (#[trigger] self.table_s()[x]).1.spec_context_id(),
                self.table_s()[x].0,
            ) by {
                let entry = self.table_s()[x];
                assert(pre.table_s().contains(entry));
                let t0 = choose|t0: int|
                    0 <= t0 < pre.table_s().len() && #[trigger] pre.table_s()[t0] == entry;
                assert(pre.indexed(entry.1.spec_context_id(), entry.0));
                assert(self.contains_id(entry.0));
                assert(!listg.contains(entry.0));
                assert(entry.1.spec_context_id() != ctx) by {
                    if entry.1.spec_context_id() == ctx {
                        assert(pre.indexed(ctx, entry.0));
                    }
                }
            }
        }

        assert(self.index_backed()) by {
            assert forall|m: int, j: int|
                0 <= m < self.index_s().len() && 0 <= j < self.index_s()[m].1.len() implies self.entry_for(
                (#[trigger] self.index_s()[m].1[j]),
                self.index_s()[m].0,
            ) by {
                let m0: int = if m < k {
                    m
                } else {
                    m + 1
                };
                assert(pre.index_s()[m0] == self.index_s()[m]);
                let i = self.index_s()[m].1[j];
                let c = self.index_s()[m].0;
                assert(pre.index_s()[m0].1[j] == i);
                assert(pre.entry_for(i, c));
                let t0 = choose|t0: int|
                    0 <= t0 < pre.table_s().len() && (#[trigger] pre.table_s()[t0]).0 == i
                        && pre.table_s()[t0].1.spec_context_id() == c;
                assert(c != ctx) by {
                    assert(m0 != k);
                    assert(pre.index_s()[m0].0 != pre.index_s()[k].0);
                }
                assert(!listg.contains(i)) by {
                    if listg.contains(i) {
                        assert(pre.indexed(ctx, i));
                        let t1 = choose|t1: int|
                            0 <= t1 < pre.table_s().len() && (#[trigger] pre.table_s()[t1]).0 == i
                                && pre.table_s()[t1].1.spec_context_id() == ctx;
                        if t0 != t1 {
                            assert(pre.table_s()[t0].0 != pre.table_s()[t1].0);
                        }
                    }
                }
                assert(self.table_s().contains(pre.table_s()[t0]));
                let x = choose|x: int|
                    0 <= x < self.table_s().len() && #[trigger] self.table_s()[x]
                        == pre.table_s()[t0];
                assert(self.entry_for(i, c));
            }
        }

        assert forall|i: SwapChainId|
            #![trigger self.contains_id(i)]
            self.contains_id(i) <==> (pre.contains_id(i) && !pre.indexed(ctx, i)) by {}
    }

    /// A point-in-time snapshot of the swap chains indexed under the given
    /// context, as (identity, handle) pairs: every pair is registered to
    /// that context, and every identity indexed under it appears.
    pub fn iter<D: Device>(&self, _device: &mut D, context: &Context) -> (r: Vec<
        (SwapChainId, SwapChain<P>),
    >)
        requires
            self.wf(),
        ensures
            forall|x: int|
                0 <= x < r@.len() ==> self.indexed(context.id, (#[trigger] r@[x]).0) && exists|
                    t: int,
                |
                    0 <= t < self.table_s().len() && #[trigger] self.table_s()[t] == r@[x],
            forall|i: SwapChainId|
                #![trigger self.indexed(context.id, i)]
                self.indexed(context.id, i) ==> exists|x: int|
                    0 <= x < r@.len() && (#[trigger] r@[x]).0 == i,
            forall|x: int, y: int|
                #![trigger r@[x], r@[y]]
                0 <= x < y < r@.len() ==> r@[x].0 != r@[y].0,
    {
        let mut out: Vec<(SwapChainId, SwapChain<P>)> = Vec::new();
        let k = match self.find_index_entry(context.context_id()) {
            None => {
                return out;
            },
            Some(k) => k,
        };
        let list = &self.ids[k].1;
        let n = list.len();
        let mut j: usize = 0;
        while j < n
            invariant
                j <= n,
                0 <= k < self.index_s().len(),
                self.index_s()[k as int].0 == context.id,
                n == self.index_s()[k as int].1.len(),
                list@ == self.index_s()[k as int].1,
                self.wf(),
                out@.len() == j,
                forall|x: int|
                    0 <= x < j ==> (#[trigger] out@[x]).0 == self.index_s()[k as int].1[x],
                forall|x: int|
                    0 <= x < j ==> exists|t: int|
                        0 <= t < self.table_s().len() && #[trigger] self.table_s()[t] == #[trigger] out@[x],
            decreases n - j,
        {
            let id = list[j];
            proof {
                assert(self.index_s()[k as int].1[j as int] == id);
                assert(self.entry_for(id, context.id));
            }
            match self.find_table_index(id) {
                Some(t) => {
                    out.push((id, self.table[t].1.clone()));
                    proof {
                        assert(self.table_s()[t as int] == out@.last());
                    }
                },
                None => {
                    // Unreachable: every indexed identity is backed by a
                    // table entry.
                    proof {
                        assert(self.contains_id(id));
                        assert(false);
                    }
                },
            }
            j = j + 1;
        }
        proof {
            assert forall|x: int|
                0 <= x < out@.len() implies self.indexed(context.id, (#[trigger] out@[x]).0) by {
                assert(self.index_s()[k as int].1.contains(out@[x].0));
            }
            assert forall|i: SwapChainId|
                #[trigger] self.indexed(context.id, i) implies exists|x: int|
                0 <= x < out@.len() && (#[trigger] out@[x]).0 == i by {
                let m = choose|m: int|
                    0 <= m < self.index_s().len() && (#[trigger] self.index_s()[m]).0 == context.id
                        && self.index_s()[m].1.contains(i);
                if m != k {
                    assert(self.index_s()[m].0 != self.index_s()[k as int].0);
                }
                let y = choose|y: int|
                    0 <= y < self.index_s()[k as int].1.len() && self.index_s()[k as int].1[y]
                        == i;
                assert(out@[y].0 == i);
            }
            assert forall|x: int, y: int|
                0 <= x < y < out@.len() implies (#[trigger] out@[x]).0 != (#[trigger] out@[y]).0 by {
                assert(self.index_s()[k as int].1[x] != self.index_s()[k as int].1[y]);
            }
        }
        out
    }

    /// Create a new attached swap chain under `id`: insert-if-absent. Fails
    /// with `Failed`, leaving the registry untouched, when `id` already
    /// exists (never overwrites) or when the context holds no surface to
    /// inherit.
    pub fn create_attached_swap_chain<D: Device>(
        &mut self,
        id: SwapChainId,
        device: &mut D,
        context: &Context,
        provider: P,
    ) -> (r: Result<(), Error>)
        requires
            old(self).wf(),
        ensures
            final(self).wf(),
            r == Err::<(), Error>(Error::Failed) <==> (old(self).contains_id(id) || context.surface is None),
            r is Err ==> r->Err_0 == Error::Failed && *final(self) == *old(self) && *final(device)
                == *old(device),
            r is Ok ==> final(self).table_s() == old(self).table_s().push(
                (id, final(self).table_s().last().1),
            ) && final(self).table_s().last().1.spec_context_id() == context.id,
            r is Ok ==> forall|c: ContextId, i: SwapChainId|
                #![trigger final(self).indexed(c, i)]
                final(self).indexed(c, i) <==> (old(self).indexed(c, i) || (c == context.id && i
                    == id)),
    {
        match self.find_table_index(id) {
            Some(_) => Err(Error::Failed),
            None => {
                if !context.has_surface() {
                    return Err(Error::Failed);
                }
                let chain = match SwapChain::create_attached(device, context, provider) {
                    Ok(c) => c,
                    Err(e) => {
                        return Err(e);
                    },
                };
                self.insert_entry(id, context.context_id(), chain);
                Ok(())
            },
        }
    }

    /// Create a new detached swap chain under `id`, with a back buffer of
    /// the given size: insert-if-absent. Fails with `Failed`, leaving the
    /// registry untouched, when `id` already exists (never overwrites); a
    /// backend failure while obtaining the back buffer also leaves the
    /// registry untouched.
    pub fn create_detached_swap_chain<D: Device>(
        &mut self,
        id: SwapChainId,
        size: Size,
        device: &mut D,
        context: &Context,
        provider: P,
    ) -> (r: Result<(), Error>)
        requires
            old(self).wf(),
        ensures
            final(self).wf(),
            r == Err::<(), Error>(Error::Failed) <==> old(self).contains_id(id),
            r == Err::<(), Error>(Error::Failed) ==> *final(self) == *old(self) && *final(device)
                == *old(device),
            r is Err ==> (r->Err_0 == Error::Failed || r->Err_0 is Backend) && *final(self) == *old(
                self,
            ),
            r is Ok ==> final(self).table_s() == old(self).table_s().push(
                (id, final(self).table_s().last().1),
            ) && final(self).table_s().last().1.spec_context_id() == context.id,
            r is Ok ==> forall|c: ContextId, i: SwapChainId|
                #![trigger final(self).indexed(c, i)]
                final(self).indexed(c, i) <==> (old(self).indexed(c, i) || (c == context.id && i
                    == id)),
            !old(self).contains_id(id) && crate::provider::has_size_match(provider.pool(), size)
                ==> r is Ok,
    {
        match self.find_table_index(id) {
            Some(_) => Err(Error::Failed),
            None => {
                let chain = match SwapChain::create_detached(device, context, provider, size) {
                    Ok(c) => c,
                    Err(e) => {
                        return Err(e);
                    },
                };
                self.insert_entry(id, context.context_id(), chain);
                Ok(())
            },
        }
    }
}

/// The lock invariant of [`SwapChains`]: the registry state is always well
/// formed (the table and the context index agree).
pub struct SwapChainsPred {}

impl<P: SurfaceProvider> RwLockPredicate<SwapChainsCore<P>> for SwapChainsPred {
    open spec fn inv(self, v: SwapChainsCore<P>) -> bool {
        v.wf()
    }
}

/// A thread-safe collection of swap chains: a cloneable handle sharing one
/// [`SwapChainsCore`] behind a lock. The table and the context index live
/// under the one lock, so they never disagree, at the price of lookups
/// contending with index bookkeeping.
pub struct SwapChains<P: SurfaceProvider> {
    inner: Arc<RwLock<SwapChainsCore<P>, SwapChainsPred>>,
}

impl<P: SurfaceProvider> Clone for SwapChains<P> {
    /// Another handle to the same collection.
    fn clone(&self) -> (r: Self)
        ensures
            r == *self,
    {
        SwapChains { inner: arc_clone(&self.inner) }
    }
}

impl<P: SurfaceProvider> SwapChains<P> {
    /// Create a new, empty collection.
    pub fn new() -> SwapChains<P> {
        let core = SwapChainsCore::new();
        SwapChains { inner: Arc::new(RwLock::new(core, Ghost(SwapChainsPred {}))) }
    }

    /// Get a swap chain: a handle to the chain registered under `id`, or
    /// nothing when the identity is unknown.
    pub fn get(&self, id: SwapChainId) -> Option<SwapChain<P>> {
        let read_handle = arc_borrow(&self.inner).acquire_read();
        let r = read_handle.borrow().get(id);
        read_handle.release_read();
        r
    }

    /// Create a new attached swap chain and insert it in the table, indexed
    /// under the context. Fails with `Failed` when `id` is already taken
    /// (the existing entry is left untouched) or when the context holds no
    /// surface.
    pub fn create_attached_swap_chain<D: Device>(
        &self,
        id: SwapChainId,
        device: &mut D,
        context: &Context,
        provider: P,
    ) -> (r: Result<(), Error>)
        ensures
            r is Err ==> r->Err_0 == Error::Failed,
            context.surface is None ==> r == Err::<(), Error>(Error::Failed),
    {
        let (mut core, handle) = arc_borrow(&self.inner).acquire_write();
        let r = core.create_attached_swap_chain(id, device, context, provider);
        handle.release_write(core);
        r
    }

    /// Create a new detached swap chain with a back buffer of the given
    /// size and insert it in the table, indexed under the context. Fails
    /// with `Failed` when `id` is already taken (the existing entry is left
    /// untouched); a backend failure is passed through, with nothing
    /// inserted.
    pub fn create_detached_swap_chain<D: Device>(
        &self,
        id: SwapChainId,
        size: Size,
        device: &mut D,
        context: &Context,
        provider: P,
    ) -> (r: Result<(), Error>)
        ensures
            r is Err ==> r->Err_0 == Error::Failed || r->Err_0 is Backend,
    {
        let (mut core, handle) = arc_borrow(&self.inner).acquire_write();
        let r = core.create_detached_swap_chain(id, size, device, context, provider);
        handle.release_write(core);
        r
    }

    /// Destroy a swap chain: validate that `context` is the chain's
    /// producer, then remove it from the table and the context index and
    /// destroy its resources. On a context mismatch nothing is mutated and
    /// `IncompatibleContext` is returned; a missing identity is a silent
    /// no-op.
    pub fn destroy<D: Device>(
        &self,
        id: SwapChainId,
        device: &mut D,
        context: &Context,
    ) -> (r: Result<(), Error>)
        ensures
            r is Err ==> r->Err_0 == Error::IncompatibleContext || r->Err_0 is Backend,
            r == Err::<(), Error>(Error::IncompatibleContext) ==> *final(device) == *old(device),
    {
        let (mut core, handle) = arc_borrow(&self.inner).acquire_write();
        let r = core.destroy(id, device, context);
        handle.release_write(core);
        r
    }

    /// Destroy all the swap chains for a particular producer context,
    /// clearing its index entry. Called by the producer. The bookkeeping is
    /// completed for every chain even when a destruction fails; the first
    /// backend error, if any, is returned.
    pub fn destroy_all<D: Device>(&self, device: &mut D, context: &Context) -> (r: Result<
        (),
        Error,
    >)
        ensures
            r matches Err(e) ==> e is Backend,
    {
        let (mut core, handle) = arc_borrow(&self.inner).acquire_write();
        let r = core.destroy_all(device, context);
        handle.release_write(core);
        r
    }

    /// A point-in-time snapshot of the swap chains registered under the
    /// given producer context, as (identity, handle) pairs. Re-calling
    /// produces a fresh snapshot.
    pub fn iter<D: Device>(&self, device: &mut D, context: &Context) -> (r: Vec<
        (SwapChainId, SwapChain<P>),
    >) {
        let read_handle = arc_borrow(&self.inner).acquire_read();
        let r = read_handle.borrow().iter(device, context);
        read_handle.release_read();
        r
    }
}

} // verus!
