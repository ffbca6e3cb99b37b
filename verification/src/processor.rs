//! The addon processor: applies registered handlers, keyed by component
//! id, to every matching custom component across every block (base store
//! and permutation stores) and every item, removing each matched entry
//! from the store it was found in.
//!
//! Iteration works over a snapshot of the custom entries taken before any
//! handler runs; mutations are applied to the live store by id.  A handler
//! runs with the owning entity removed from the addon and the store under
//! iteration removed from the entity, so no two of its arguments alias.
use vstd::prelude::*;

verus! {

use crate::addon::{Addon, AddonModel};
use crate::block::{Block, BlockModel};
use crate::component::Component;
use crate::custom::{tame_block_apply, tame_item_apply, CustomBlockComponent, CustomItemComponent};
use crate::item::{Item, ItemModel};
use crate::keyed::{
    key_find, key_has, key_idx, keyed_idx, keyed_set, lemma_key_idx_push,
    lemma_key_idx_same_keys, lemma_key_idx_spec, model_keys_unique,
};
use crate::store::{spec_is_builtin_id, store_all_builtin, ComponentStore, StoreModel};
use crate::value::JsonValue;

/// A processing failure: a handler error from the block pass or the item
/// pass, or a matched component whose stored value is not the opaque kind
/// a handler can consume.
#[derive(Debug)]
pub enum ProcessingError<BlockError, ItemError> {
    BlockError(BlockError),
    ItemError(ItemError),
    ComponentInvalidType,
}

/// No entry of the store is a custom id with a bound handler.
pub open spec fn store_clean<H>(s: StoreModel, handlers: Seq<(String, H)>) -> bool {
    forall|i: int|
        0 <= i < s.len() ==> spec_is_builtin_id(#[trigger] s[i].0) || !key_has(handlers, s[i].0)
}

/// Every store of the block, base and permutations, is clean.
pub open spec fn block_clean<H>(b: BlockModel, handlers: Seq<(String, H)>) -> bool {
    store_clean(b.components, handlers) && (forall|i: int|
        0 <= i < b.permutations.len() ==> store_clean(
            (#[trigger] b.permutations[i]).components,
            handlers,
        ))
}

/// Every store of every entity in the addon is clean for its pass.
pub open spec fn addon_clean<BH, IH>(
    a: AddonModel,
    bh: Seq<(String, BH)>,
    ih: Seq<(String, IH)>,
) -> bool {
    (forall|i: int| 0 <= i < a.blocks.len() ==> block_clean(#[trigger] a.blocks[i], bh)) && (
    forall|i: int|
        0 <= i < a.items.len() ==> store_clean((#[trigger] a.items[i]).components, ih))
}

/// Ids of the block's stores are pairwise distinct, everywhere.
pub open spec fn block_stores_wf(b: BlockModel) -> bool {
    model_keys_unique(b.components) && (forall|i: int|
        0 <= i < b.permutations.len() ==> model_keys_unique(
            (#[trigger] b.permutations[i]).components,
        ))
}

/// Ids of every store of every entity are pairwise distinct.
pub open spec fn addon_stores_wf(a: AddonModel) -> bool {
    (forall|i: int| 0 <= i < a.blocks.len() ==> block_stores_wf(#[trigger] a.blocks[i])) && (
    forall|i: int|
        0 <= i < a.items.len() ==> model_keys_unique((#[trigger] a.items[i]).components))
}

/// Every custom id of `nc` already stood in `oc`.
pub open spec fn custom_subset(nc: StoreModel, oc: StoreModel) -> bool {
    forall|i: int|
        0 <= i < nc.len() && !spec_is_builtin_id((#[trigger] nc[i]).0)
            ==> crate::keyed::model_key_has(oc, nc[i].0)
}

/// Two handler tables with the same ids, position for position.
pub open spec fn same_keys<H>(a: Seq<(String, H)>, b: Seq<(String, H)>) -> bool {
    a.len() == b.len() && (forall|i: int| 0 <= i < a.len() ==> #[trigger] a[i].0@ == b[i].0@)
}

/// The snapshot worklist holds `id` at or after position `from`.
pub open spec fn snap_has(snapshot: Seq<(String, Component)>, from: int, id: Seq<char>) -> bool {
    exists|k: int| from <= k < snapshot.len() && #[trigger] snapshot[k].0@ == id
}

/// The extension-application engine: handler tables for the block and the
/// item pass, and the shared user state threaded through every call.
pub struct AddonProcessor<BH, IH, UserState> {
    block_components: Vec<(String, BH)>,
    item_components: Vec<(String, IH)>,
    user_state: UserState,
}

impl<State, BH: CustomBlockComponent<State>, IH: CustomItemComponent<State>> AddonProcessor<
    BH,
    IH,
    State,
> {
    /// The block-pass handler table, in registration order.
    pub closed spec fn block_handlers(&self) -> Seq<(String, BH)> {
        self.block_components@
    }

    /// The item-pass handler table, in registration order.
    pub closed spec fn item_handlers(&self) -> Seq<(String, IH)> {
        self.item_components@
    }

    /// The shared user state.
    pub closed spec fn spec_state(&self) -> State {
        self.user_state
    }

    pub fn new(state: State) -> (r: Self)
        ensures
            r.block_handlers() =~= Seq::<(String, BH)>::empty(),
            r.item_handlers() =~= Seq::<(String, IH)>::empty(),
            r.spec_state() == state,
    {
        AddonProcessor {
            block_components: Vec::new(),
            item_components: Vec::new(),
            user_state: state,
        }
    }

    pub fn state(&self) -> (r: &State)
        ensures
            *r == self.spec_state(),
    {
        &self.user_state
    }

    /// Hands the shared user state back once processing is complete.
    pub fn disband(self) -> (r: State)
        ensures
            r == self.spec_state(),
    {
        self.user_state
    }

    /// Binds a block handler under its self-reported id; a later binding
    /// for the same id replaces the earlier one in place.
    pub fn bind_block_component(&mut self, comp: BH)
        ensures
            key_find(final(self).block_handlers(), comp.spec_id()) == Some(comp),
            forall|other: Seq<char>|
                other != comp.spec_id() ==> #[trigger] key_find(
                    final(self).block_handlers(),
                    other,
                ) == key_find(old(self).block_handlers(), other),
            key_has(final(self).block_handlers(), comp.spec_id()),
            forall|id: Seq<char>|
                #[trigger] key_has(final(self).block_handlers(), id) == (key_has(
                    old(self).block_handlers(),
                    id,
                ) || id == comp.spec_id()),
            final(self).item_handlers() == old(self).item_handlers(),
            final(self).spec_state() == old(self).spec_state(),
    {
        let id = comp.id().to_owned();
        self.bind_block_component_name_owned(comp, id);
    }

    /// Binds a block handler under an explicit id.
    pub fn bind_block_component_name(&mut self, comp: BH, id: &str)
        ensures
            key_find(final(self).block_handlers(), id@) == Some(comp),
            forall|other: Seq<char>|
                other != id@ ==> #[trigger] key_find(final(self).block_handlers(), other)
                    == key_find(old(self).block_handlers(), other),
            key_has(final(self).block_handlers(), id@),
            forall|other: Seq<char>|
                #[trigger] key_has(final(self).block_handlers(), other) == (key_has(
                    old(self).block_handlers(),
                    other,
                ) || other == id@),
            final(self).item_handlers() == old(self).item_handlers(),
            final(self).spec_state() == old(self).spec_state(),
    {
        self.bind_block_component_name_owned(comp, id.to_owned());
    }

    fn bind_block_component_name_owned(&mut self, comp: BH, id: String)
        ensures
            key_find(final(self).block_handlers(), id@) == Some(comp),
            forall|other: Seq<char>|
                other != id@ ==> #[trigger] key_find(final(self).block_handlers(), other)
                    == key_find(old(self).block_handlers(), other),
            key_has(final(self).block_handlers(), id@),
            forall|other: Seq<char>|
                #[trigger] key_has(final(self).block_handlers(), other) == (key_has(
                    old(self).block_handlers(),
                    other,
                ) || other == id@),
            final(self).item_handlers() == old(self).item_handlers(),
            final(self).spec_state() == old(self).spec_state(),
    {
        let ghost olds = self.block_components@;
        proof {
            lemma_key_idx_spec(olds, id@, 0);
        }
        keyed_set(&mut self.block_components, id, comp);
        proof {
            lemma_key_idx_spec(self.block_components@, id@, 0);
            match key_idx(olds, id@) {
                Some(i) => {
                    lemma_key_idx_same_keys(olds, self.block_components@, id@, 0);
                },
                None => {
                    lemma_key_idx_push(olds, (id, comp), id@, 0);
                },
            }
            assert(key_find(self.block_components@, id@) == Some(comp));
            assert forall|other: Seq<char>|
                other != id@ implies #[trigger] key_find(self.block_components@, other) == key_find(
                olds,
                other,
            ) by {
                lemma_key_idx_spec(olds, other, 0);
                lemma_key_idx_spec(self.block_components@, other, 0);
                match key_idx(olds, id@) {
                    Some(i) => {
                        lemma_key_idx_same_keys(olds, self.block_components@, other, 0);
                        lemma_key_idx_spec(olds, id@, 0);
                    },
                    None => {
                        lemma_key_idx_push(olds, (id, comp), other, 0);
                    },
                }
            }
            assert forall|other: Seq<char>|
                #[trigger] key_has(self.block_components@, other) == (key_has(olds, other) || other
                    == id@) by {
                lemma_key_idx_spec(olds, other, 0);
                lemma_key_idx_spec(self.block_components@, other, 0);
                match key_idx(olds, id@) {
                    Some(i) => {
                        lemma_key_idx_same_keys(olds, self.block_components@, other, 0);
                        lemma_key_idx_spec(olds, id@, 0);
                    },
                    None => {
                        lemma_key_idx_push(olds, (id, comp), other, 0);
                    },
                }
            }
        }
    }

    /// Binds an item handler under its self-reported id.
    pub fn bind_item_component(&mut self, comp: IH)
        ensures
            key_find(final(self).item_handlers(), comp.spec_id()) == Some(comp),
            forall|other: Seq<char>|
                other != comp.spec_id() ==> #[trigger] key_find(
                    final(self).item_handlers(),
                    other,
                ) == key_find(old(self).item_handlers(), other),
            key_has(final(self).item_handlers(), comp.spec_id()),
            forall|other: Seq<char>|
                #[trigger] key_has(final(self).item_handlers(), other) == (key_has(
                    old(self).item_handlers(),
                    other,
                ) || other == comp.spec_id()),
            final(self).block_handlers() == old(self).block_handlers(),
            final(self).spec_state() == old(self).spec_state(),
    {
        let id = comp.id().to_owned();
        self.bind_item_component_name_owned(comp, id);
    }

    /// Binds an item handler under an explicit id.
    pub fn bind_item_component_name(&mut self, comp: IH, id: &str)
        ensures
            key_find(final(self).item_handlers(), id@) == Some(comp),
            forall|other: Seq<char>|
                other != id@ ==> #[trigger] key_find(final(self).item_handlers(), other)
                    == key_find(old(self).item_handlers(), other),
            key_has(final(self).item_handlers(), id@),
            forall|other: Seq<char>|
                #[trigger] key_has(final(self).item_handlers(), other) == (key_has(
                    old(self).item_handlers(),
                    other,
                ) || other == id@),
            final(self).block_handlers() == old(self).block_handlers(),
            final(self).spec_state() == old(self).spec_state(),
    {
        self.bind_item_component_name_owned(comp, id.to_owned());
    }

    fn bind_item_component_name_owned(&mut self, comp: IH, id: String)
        ensures
            key_find(final(self).item_handlers(), id@) == Some(comp),
            forall|other: Seq<char>|
                other != id@ ==> #[trigger] key_find(final(self).item_handlers(), other)
                    == key_find(old(self).item_handlers(), other),
            key_has(final(self).item_handlers(), id@),
            forall|other: Seq<char>|
                #[trigger] key_has(final(self).item_handlers(), other) == (key_has(
                    old(self).item_handlers(),
                    other,
                ) || other == id@),
            final(self).block_handlers() == old(self).block_handlers(),
            final(self).spec_state() == old(self).spec_state(),
    {
        let ghost olds = self.item_components@;
        proof {
            lemma_key_idx_spec(olds, id@, 0);
        }
        keyed_set(&mut self.item_components, id, comp);
        proof {
            lemma_key_idx_spec(self.item_components@, id@, 0);
            match key_idx(olds, id@) {
                Some(i) => {
                    lemma_key_idx_same_keys(olds, self.item_components@, id@, 0);
                },
                None => {
                    lemma_key_idx_push(olds, (id, comp), id@, 0);
                },
            }
            assert(key_find(self.item_components@, id@) == Some(comp));
            assert forall|other: Seq<char>|
                other != id@ implies #[trigger] key_find(self.item_components@, other) == key_find(
                olds,
                other,
            ) by {
                lemma_key_idx_spec(olds, other, 0);
                lemma_key_idx_spec(self.item_components@, other, 0);
                match key_idx(olds, id@) {
                    Some(i) => {
                        lemma_key_idx_same_keys(olds, self.item_components@, other, 0);
                        lemma_key_idx_spec(olds, id@, 0);
                    },
                    None => {
                        lemma_key_idx_push(olds, (id, comp), other, 0);
                    },
                }
            }
            assert forall|other: Seq<char>|
                #[trigger] key_has(self.item_components@, other) == (key_has(olds, other) || other
                    == id@) by {
                lemma_key_idx_spec(olds, other, 0);
                lemma_key_idx_spec(self.item_components@, other, 0);
                match key_idx(olds, id@) {
                    Some(i) => {
                        lemma_key_idx_same_keys(olds, self.item_components@, other, 0);
                        lemma_key_idx_spec(olds, id@, 0);
                    },
                    None => {
                        lemma_key_idx_push(olds, (id, comp), other, 0);
                    },
                }
            }
        }
    }
}



/// Containment of custom ids is reflexive.
proof fn lemma_custom_subset_refl(s: StoreModel)
    ensures
        custom_subset(s, s),
{
    assert forall|i: int|
        0 <= i < s.len() && !spec_is_builtin_id((#[trigger] s[i]).0) implies crate::keyed::model_key_has(
        s,
        s[i].0,
    ) by {
        crate::keyed::lemma_model_key_idx_spec(s, s[i].0, 0);
    }
}

/// Containment of custom ids composes.
proof fn lemma_custom_subset_trans(a: StoreModel, b: StoreModel, c: StoreModel)
    requires
        custom_subset(a, b),
        custom_subset(b, c),
    ensures
        custom_subset(a, c),
{
    assert forall|i: int|
        0 <= i < a.len() && !spec_is_builtin_id((#[trigger] a[i]).0) implies crate::keyed::model_key_has(
        c,
        a[i].0,
    ) by {
        let m = crate::keyed::model_key_idx(b, a[i].0);
        crate::keyed::lemma_model_key_idx_spec(b, a[i].0, 0);
        assert(!spec_is_builtin_id(b[m->Some_0].0));
    }
}

/// Removing an entry only shrinks the custom ids present.
proof fn lemma_remove_is_subset(s: StoreModel, id: Seq<char>)
    ensures
        custom_subset(crate::keyed::model_remove(s, id), s),
{
    let r = crate::keyed::model_remove(s, id);
    if crate::keyed::model_key_idx(s, id) is Some {
        crate::keyed::lemma_model_key_idx_spec(s, id, 0);
        s.remove_ensures(crate::keyed::model_key_idx(s, id)->Some_0);
    }
    assert forall|i: int|
        0 <= i < r.len() && !spec_is_builtin_id((#[trigger] r[i]).0) implies crate::keyed::model_key_has(
        s,
        r[i].0,
    ) by {
        match crate::keyed::model_key_idx(s, id) {
            Some(ri) => {
                if i < ri {
                    assert(r[i] == s[i]);
                    crate::keyed::lemma_model_key_idx_spec(s, s[i].0, 0);
                } else {
                    assert(r[i] == s[i + 1]);
                    crate::keyed::lemma_model_key_idx_spec(s, s[i + 1].0, 0);
                }
            },
            None => {
                assert(r[i] == s[i]);
                crate::keyed::lemma_model_key_idx_spec(s, s[i].0, 0);
            },
        }
    }
}

/// Every element of a filtered list stands somewhere in the list it was
/// filtered from.
proof fn lemma_filter_members<A>(s: Seq<A>, pred: spec_fn(A) -> bool, k: int)
    requires
        0 <= k < s.filter(pred).len(),
    ensures
        exists|j: int| 0 <= j < s.len() && #[trigger] s[j] == s.filter(pred)[k],
    decreases s.len(),
{
    reveal(Seq::filter);
    if s.len() > 0 {
        let sub = s.drop_last().filter(pred);
        if pred(s.last()) {
            if k < sub.len() {
                lemma_filter_members(s.drop_last(), pred, k);
                let j = choose|j: int|
                    0 <= j < s.drop_last().len() && #[trigger] s.drop_last()[j] == sub[k];
                assert(s[j] == s.filter(pred)[k]);
            } else {
                assert(s[s.len() - 1] == s.filter(pred)[k]);
            }
        } else {
            lemma_filter_members(s.drop_last(), pred, k);
            let j = choose|j: int|
                0 <= j < s.drop_last().len() && #[trigger] s.drop_last()[j] == sub[k];
            assert(s[j] == s.filter(pred)[k]);
        }
    }
}

impl<State, BH: CustomBlockComponent<State>, IH: CustomItemComponent<State>> AddonProcessor<
    BH,
    IH,
    State,
> {
    /// Runs the block handlers over a snapshot of the store's custom
    /// entries: for each snapshot entry whose id has a bound handler, the
    /// handler is applied and that id is then removed from the live store.
    #[verifier::loop_isolation(false)]
    fn process_block_store(
        &mut self,
        store: &mut ComponentStore,
        owner: &mut Block,
        addon: &mut Addon,
    ) -> (r: Result<(), ProcessingError<<BH as CustomBlockComponent<State>>::Error, <IH as CustomItemComponent<State>>::Error>>)
        ensures
            same_keys(old(self).block_handlers(), final(self).block_handlers()),
            final(self).item_handlers() == old(self).item_handlers(),
            store_clean(old(store)@, old(self).block_handlers()) ==> (r is Ok && *final(store)
                == *old(store) && *final(owner) == *old(owner) && *final(addon) == *old(addon)
                && *final(self) == *old(self)),
            BH::tame() ==> final(addon)@ == old(addon)@
                && final(owner)@.description.identifier == old(owner)@.description.identifier
                && final(owner)@.components == old(owner)@.components
                && final(owner)@.permutations.len() >= old(owner)@.permutations.len() && (forall|i: int|
                0 <= i < old(owner)@.permutations.len() ==> #[trigger] final(owner)@.permutations[i] == old(owner)@.permutations[i]) && (forall|i: int|
                old(owner)@.permutations.len() <= i < final(owner)@.permutations.len()
                    ==> store_all_builtin((#[trigger] final(owner)@.permutations[i]).components)),
            BH::tame() && model_keys_unique(old(store)@) ==> model_keys_unique(final(store)@)
                && custom_subset(final(store)@, old(store)@),
            r is Ok && BH::tame() && model_keys_unique(old(store)@) ==> store_clean(
                final(store)@,
                old(self).block_handlers(),
            ),
            r is Err ==> r->Err_0 is BlockError || r->Err_0 is ComponentInvalidType,
    {
        let ghost pred = |p: (Seq<char>, crate::component::CompModel)| !spec_is_builtin_id(p.0);
        let snapshot = store.non_minecraft_components();
        proof {
            broadcast use vstd::seq_lib::group_filter_ensures;

            assert forall|j: int|
                0 <= j < store@.len() && !spec_is_builtin_id(#[trigger] store@[j].0) implies snap_has(
                snapshot@,
                0,
                store@[j].0,
            ) by {
                Seq::lemma_filter_contains(store@, pred, j);
                let k = choose|k: int|
                    0 <= k < store@.filter(pred).len() && #[trigger] store@.filter(pred)[k]
                        == store@[j];
                assert(crate::store::store_model(snapshot@)[k] == store@[j]);
                assert(snapshot@[k].0@ == store@[j].0);
            }
        }
        proof {
            lemma_custom_subset_refl(store@);
        }
        let mut t: usize = 0;
        while t < snapshot.len()
            invariant
                0 <= t <= snapshot@.len(),
                crate::store::store_model(snapshot@) =~= old(store)@.filter(pred),
                same_keys(old(self).block_handlers(), self.block_handlers()),
                self.item_handlers() == old(self).item_handlers(),
                store_clean(old(store)@, old(self).block_handlers()) ==> (*store == *old(store)
                    && *owner == *old(owner) && *addon == *old(addon) && *self == *old(self)),
                BH::tame() ==> addon@ == old(addon)@ && owner@.description.identifier == old(owner)@.description.identifier && owner@.components == old(owner)@.components
                    && owner@.permutations.len() >= old(owner)@.permutations.len() && (forall|i: int|
                    0 <= i < old(owner)@.permutations.len() ==> #[trigger] owner@.permutations[i]
                        == old(owner)@.permutations[i]) && (forall|i: int|
                    old(owner)@.permutations.len() <= i < owner@.permutations.len()
                        ==> store_all_builtin((#[trigger] owner@.permutations[i]).components)),
                BH::tame() && model_keys_unique(old(store)@) ==> model_keys_unique(store@)
                    && custom_subset(store@, old(store)@),
                BH::tame() && model_keys_unique(old(store)@) ==> (forall|j: int|
                    0 <= j < store@.len() && !spec_is_builtin_id(#[trigger] store@[j].0)
                        && key_has(old(self).block_handlers(), store@[j].0) ==> snap_has(
                        snapshot@,
                        t as int,
                        store@[j].0,
                    )),
            decreases snapshot@.len() - t,
        {
            let bound = keyed_idx(&self.block_components, snapshot[t].0.as_str());
            proof {
                lemma_key_idx_same_keys(
                    old(self).block_handlers(),
                    self.block_components@,
                    snapshot@[t as int].0@,
                    0,
                );
            }
            match bound {
                None => {
                    proof {
                        if BH::tame() && model_keys_unique(old(store)@) {
                            assert forall|j: int|
                                0 <= j < store@.len() && !spec_is_builtin_id(
                                    #[trigger] store@[j].0,
                                ) && key_has(old(self).block_handlers(), store@[j].0) implies snap_has(
                                snapshot@,
                                t as int + 1,
                                store@[j].0,
                            ) by {
                                let k = choose|k: int|
                                    t <= k < snapshot@.len() && #[trigger] snapshot@[k].0@ == store@[j].0;
                                if k == t {
                                    assert(key_has(old(self).block_handlers(), snapshot@[t as int].0@));
                                    assert(false);
                                }
                            }
                        }
                    }
                },
                Some(hidx) => {
                    proof {
                        lemma_key_idx_spec(self.block_components@, snapshot@[t as int].0@, 0);
                        // a bound custom snapshot entry refutes cleanliness of the
                        // starting store
                        lemma_filter_members(old(store)@, pred, t as int);
                        let j = choose|j: int|
                            0 <= j < old(store)@.len() && #[trigger] old(store)@[j] == old(
                                store,
                            )@.filter(pred)[t as int];
                        assert(crate::store::store_model(snapshot@)[t as int] == old(store)@[j]);
                        assert(!spec_is_builtin_id(old(store)@[j].0) && key_has(
                            old(self).block_handlers(),
                            old(store)@[j].0,
                        ));
                        assert(!store_clean(old(store)@, old(self).block_handlers()));
                    }
                    let data = match snapshot[t].1.payload_ref() {
                        Some(d) => d.duplicate(),
                        None => {
                            return Err(ProcessingError::ComponentInvalidType);
                        },
                    };
                    let ghost pre_bc = self.block_components@;
                    let ghost pre_store = store@;
                    let ghost pre_owner = owner@;
                    let (hid, mut h) = self.block_components.remove(hidx);
                    let res = h.apply_component(&data, owner, store, addon, &mut self.user_state);
                    self.block_components.insert(hidx, (hid, h));
                    proof {
                        assert(self.block_components@ =~= pre_bc.update(
                            hidx as int,
                            (pre_bc[hidx as int].0, h),
                        ));
                        assert(same_keys(old(self).block_handlers(), self.block_components@));
                    }
                    match res {
                        Ok(u) => {
                            let _ = u;
                        },
                        Err(e) => {
                            proof {
                                if BH::tame() && model_keys_unique(old(store)@) {
                                    lemma_custom_subset_trans(store@, pre_store, old(store)@);
                                }
                            }
                            return Err(ProcessingError::BlockError(e));
                        },
                    }
                    let ghost post_call_store = store@;
                    store.remove_component(snapshot[t].0.as_str());
                    proof {
                        if BH::tame() && model_keys_unique(old(store)@) {
                            assert(model_keys_unique(post_call_store));
                            lemma_remove_is_subset(post_call_store, snapshot@[t as int].0@);
                            lemma_custom_subset_trans(store@, post_call_store, pre_store);
                            lemma_custom_subset_trans(store@, pre_store, old(store)@);
                            assert forall|j: int|
                                0 <= j < store@.len() && !spec_is_builtin_id(
                                    #[trigger] store@[j].0,
                                ) && key_has(old(self).block_handlers(), store@[j].0) implies snap_has(
                                snapshot@,
                                t as int + 1,
                                store@[j].0,
                            ) by {
                                let idj = store@[j].0;
                                let m = crate::keyed::model_key_idx(pre_store, idj);
                                crate::keyed::lemma_model_key_idx_spec(pre_store, idj, 0);
                                assert(!spec_is_builtin_id(pre_store[m->Some_0].0));
                                assert(snap_has(snapshot@, t as int, idj));
                                let k = choose|k: int|
                                    t <= k < snapshot@.len() && #[trigger] snapshot@[k].0@ == idj;
                                if k == t {
                                    assert(!crate::keyed::model_key_has(
                                        store@,
                                        snapshot@[t as int].0@,
                                    ));
                                    crate::keyed::lemma_model_key_idx_spec(store@, idj, 0);
                                    assert(false);
                                }
                            }
                        }
                    }
                },
            }
            t += 1;
        }
        proof {
            if BH::tame() && model_keys_unique(old(store)@) {
                assert forall|j: int|
                    0 <= j < store@.len() implies spec_is_builtin_id(#[trigger] store@[j].0)
                    || !key_has(old(self).block_handlers(), store@[j].0) by {
                    if !spec_is_builtin_id(store@[j].0) && key_has(
                        old(self).block_handlers(),
                        store@[j].0,
                    ) {
                        assert(snap_has(snapshot@, snapshot@.len() as int, store@[j].0));
                    }
                }
            }
        }
        Ok(())
    }
}


impl<State, BH: CustomBlockComponent<State>, IH: CustomItemComponent<State>> AddonProcessor<
    BH,
    IH,
    State,
> {
    /// Runs the item handlers over a snapshot of the store's custom
    /// entries, as the block pass does.
    #[verifier::loop_isolation(false)]
    fn process_item_store(
        &mut self,
        store: &mut ComponentStore,
        owner: &mut Item,
        addon: &mut Addon,
    ) -> (r: Result<(), ProcessingError<<BH as CustomBlockComponent<State>>::Error, <IH as CustomItemComponent<State>>::Error>>)
        ensures
            same_keys(old(self).item_handlers(), final(self).item_handlers()),
            final(self).block_handlers() == old(self).block_handlers(),
            store_clean(old(store)@, old(self).item_handlers()) ==> (r is Ok && *final(store)
                == *old(store) && *final(owner) == *old(owner) && *final(addon) == *old(addon)
                && *final(self) == *old(self)),
            IH::tame() ==> final(addon)@ == old(addon)@
                && final(owner)@.description.identifier == old(owner)@.description.identifier
                && final(owner)@.components == old(owner)@.components,
            IH::tame() && model_keys_unique(old(store)@) ==> model_keys_unique(final(store)@)
                && custom_subset(final(store)@, old(store)@),
            r is Ok && IH::tame() && model_keys_unique(old(store)@) ==> store_clean(
                final(store)@,
                old(self).item_handlers(),
            ),
            r is Err ==> r->Err_0 is ItemError || r->Err_0 is ComponentInvalidType,
    {
        let ghost pred = |p: (Seq<char>, crate::component::CompModel)| !spec_is_builtin_id(p.0);
        let snapshot = store.non_minecraft_components();
        proof {
            broadcast use vstd::seq_lib::group_filter_ensures;

            assert forall|j: int|
                0 <= j < store@.len() && !spec_is_builtin_id(#[trigger] store@[j].0) implies snap_has(
                snapshot@,
                0,
                store@[j].0,
            ) by {
                Seq::lemma_filter_contains(store@, pred, j);
                let k = choose|k: int|
                    0 <= k < store@.filter(pred).len() && #[trigger] store@.filter(pred)[k]
                        == store@[j];
                assert(crate::store::store_model(snapshot@)[k] == store@[j]);
                assert(snapshot@[k].0@ == store@[j].0);
            }
        }
        proof {
            lemma_custom_subset_refl(store@);
        }
        let mut t: usize = 0;
        while t < snapshot.len()
            invariant
                0 <= t <= snapshot@.len(),
                crate::store::store_model(snapshot@) =~= old(store)@.filter(pred),
                same_keys(old(self).item_handlers(), self.item_handlers()),
                self.block_handlers() == old(self).block_handlers(),
                store_clean(old(store)@, old(self).item_handlers()) ==> (*store == *old(store)
                    && *owner == *old(owner) && *addon == *old(addon) && *self == *old(self)),
                IH::tame() ==> addon@ == old(addon)@ && owner@.description.identifier == old(owner)@.description.identifier
                    && owner@.components == old(owner)@.components,
                IH::tame() && model_keys_unique(old(store)@) ==> model_keys_unique(store@)
                    && custom_subset(store@, old(store)@),
                IH::tame() && model_keys_unique(old(store)@) ==> (forall|j: int|
                    0 <= j < store@.len() && !spec_is_builtin_id(#[trigger] store@[j].0)
                        && key_has(old(self).item_handlers(), store@[j].0) ==> snap_has(
                        snapshot@,
                        t as int,
                        store@[j].0,
                    )),
            decreases snapshot@.len() - t,
        {
            let bound = keyed_idx(&self.item_components, snapshot[t].0.as_str());
            proof {
                lemma_key_idx_same_keys(
                    old(self).item_handlers(),
                    self.item_components@,
                    snapshot@[t as int].0@,
                    0,
                );
            }
            match bound {
                None => {
                    proof {
                        if IH::tame() && model_keys_unique(old(store)@) {
                            assert forall|j: int|
                                0 <= j < store@.len() && !spec_is_builtin_id(
                                    #[trigger] store@[j].0,
                                ) && key_has(old(self).item_handlers(), store@[j].0) implies snap_has(
                                snapshot@,
                                t as int + 1,
                                store@[j].0,
                            ) by {
                                let k = choose|k: int|
                                    t <= k < snapshot@.len() && #[trigger] snapshot@[k].0@ == store@[j].0;
                                if k == t {
                                    assert(key_has(old(self).item_handlers(), snapshot@[t as int].0@));
                                    assert(false);
                                }
                            }
                        }
                    }
                },
                Some(hidx) => {
                    proof {
                        lemma_key_idx_spec(self.item_components@, snapshot@[t as int].0@, 0);
                        lemma_filter_members(old(store)@, pred, t as int);
                        let j = choose|j: int|
                            0 <= j < old(store)@.len() && #[trigger] old(store)@[j] == old(
                                store,
                            )@.filter(pred)[t as int];
                        assert(crate::store::store_model(snapshot@)[t as int] == old(store)@[j]);
                        assert(!spec_is_builtin_id(old(store)@[j].0) && key_has(
                            old(self).item_handlers(),
                            old(store)@[j].0,
                        ));
                        assert(!store_clean(old(store)@, old(self).item_handlers()));
                    }
                    let data = match snapshot[t].1.payload_ref() {
                        Some(d) => d.duplicate(),
                        None => {
                            return Err(ProcessingError::ComponentInvalidType);
                        },
                    };
                    let ghost pre_bc = self.item_components@;
                    let ghost pre_store = store@;
                    let (hid, mut h) = self.item_components.remove(hidx);
                    let res = h.apply_component(&data, owner, store, addon, &mut self.user_state);
                    self.item_components.insert(hidx, (hid, h));
                    proof {
                        assert(self.item_components@ =~= pre_bc.update(
                            hidx as int,
                            (pre_bc[hidx as int].0, h),
                        ));
                        assert(same_keys(old(self).item_handlers(), self.item_components@));
                    }
                    match res {
                        Ok(u) => {
                            let _ = u;
                        },
                        Err(e) => {
                            proof {
                                if IH::tame() && model_keys_unique(old(store)@) {
                                    lemma_custom_subset_trans(store@, pre_store, old(store)@);
                                }
                            }
                            return Err(ProcessingError::ItemError(e));
                        },
                    }
                    let ghost post_call_store = store@;
                    store.remove_component(snapshot[t].0.as_str());
                    proof {
                        if IH::tame() && model_keys_unique(old(store)@) {
                            assert(model_keys_unique(post_call_store));
                            lemma_remove_is_subset(post_call_store, snapshot@[t as int].0@);
                            lemma_custom_subset_trans(store@, post_call_store, pre_store);
                            lemma_custom_subset_trans(store@, pre_store, old(store)@);
                            assert forall|j: int|
                                0 <= j < store@.len() && !spec_is_builtin_id(
                                    #[trigger] store@[j].0,
                                ) && key_has(old(self).item_handlers(), store@[j].0) implies snap_has(
                                snapshot@,
                                t as int + 1,
                                store@[j].0,
                            ) by {
                                let idj = store@[j].0;
                                let m = crate::keyed::model_key_idx(pre_store, idj);
                                crate::keyed::lemma_model_key_idx_spec(pre_store, idj, 0);
                                assert(!spec_is_builtin_id(pre_store[m->Some_0].0));
                                assert(snap_has(snapshot@, t as int, idj));
                                let k = choose|k: int|
                                    t <= k < snapshot@.len() && #[trigger] snapshot@[k].0@ == idj;
                                if k == t {
                                    assert(!crate::keyed::model_key_has(
                                        store@,
                                        snapshot@[t as int].0@,
                                    ));
                                    crate::keyed::lemma_model_key_idx_spec(store@, idj, 0);
                                    assert(false);
                                }
                            }
                        }
                    }
                },
            }
            t += 1;
        }
        proof {
            if IH::tame() && model_keys_unique(old(store)@) {
                assert forall|j: int|
                    0 <= j < store@.len() implies spec_is_builtin_id(#[trigger] store@[j].0)
                    || !key_has(old(self).item_handlers(), store@[j].0) by {
                    if !spec_is_builtin_id(store@[j].0) && key_has(
                        old(self).item_handlers(),
                        store@[j].0,
                    ) {
                        assert(snap_has(snapshot@, snapshot@.len() as int, store@[j].0));
                    }
                }
            }
        }
        Ok(())
    }
}


/// A store holding only built-in ids is clean for any handler table.
proof fn lemma_all_builtin_clean<H>(s: StoreModel, handlers: Seq<(String, H)>)
    requires
        store_all_builtin(s),
    ensures
        store_clean(s, handlers),
{
}

/// Handler tables with the same ids judge a store alike.
proof fn lemma_same_keys_clean<H>(s: StoreModel, a: Seq<(String, H)>, b: Seq<(String, H)>)
    requires
        same_keys(a, b),
    ensures
        store_clean(s, a) == store_clean(s, b),
{
    assert forall|id: Seq<char>| #[trigger] key_has(a, id) == key_has(b, id) by {
        lemma_key_idx_same_keys(a, b, id, 0);
    }
}

impl<State, BH: CustomBlockComponent<State>, IH: CustomItemComponent<State>> AddonProcessor<
    BH,
    IH,
    State,
> {
    /// Processes one block: its base store, then each of its permutation
    /// stores, against the block handler table.
    #[verifier::loop_isolation(false)]
    fn process_block(
        &mut self,
        blk: &mut Block,
        addon: &mut Addon,
    ) -> (r: Result<(), ProcessingError<<BH as CustomBlockComponent<State>>::Error, <IH as CustomItemComponent<State>>::Error>>)
        ensures
            same_keys(old(self).block_handlers(), final(self).block_handlers()),
            final(self).item_handlers() == old(self).item_handlers(),
            block_clean(old(blk)@, old(self).block_handlers()) ==> (r is Ok && final(blk)@
                == old(blk)@ && *final(addon) == *old(addon) && *final(self) == *old(self)),
            BH::tame() ==> final(addon)@ == old(addon)@
                && final(blk)@.description.identifier == old(blk)@.description.identifier,
            r is Ok && BH::tame() && block_stores_wf(old(blk)@) ==> block_clean(
                final(blk)@,
                old(self).block_handlers(),
            ),
            r is Err ==> r->Err_0 is BlockError || r->Err_0 is ComponentInvalidType,
    {
        let ghost obh = old(self).block_handlers();
        // base store, swapped out of the block for the duration
        let mut ctx = ComponentStore::new();
        core::mem::swap(&mut blk.components, &mut ctx);
        let res = self.process_block_store(&mut ctx, blk, addon);
        core::mem::swap(&mut blk.components, &mut ctx);
        match res {
            Ok(u) => {
                let _ = u;
            },
            Err(e) => {
                return Err(e);
            },
        }
        let ghost base_done = blk@.components;
        let ghost perms0 = blk@.permutations;
        proof {
            if BH::tame() && block_stores_wf(old(blk)@) {
                assert(store_clean(base_done, obh));
            }
        }
        let m = blk.permutations.len();
        let mut pi: usize = 0;
        while pi < m
            invariant
                0 <= pi <= m,
                m == perms0.len(),
                same_keys(old(self).block_handlers(), self.block_handlers()),
                self.item_handlers() == old(self).item_handlers(),
                block_clean(old(blk)@, old(self).block_handlers()) ==> (blk@ == old(blk)@
                    && perms0 == old(blk)@.permutations && *addon == *old(addon) && *self == *old(
                    self,
                )),
                BH::tame() ==> addon@ == old(addon)@ && blk@.description.identifier == old(
                    blk,
                )@.description.identifier && blk@.components == base_done
                    && blk@.permutations.len() >= m && (forall|i: int|
                    pi <= i < m ==> #[trigger] blk@.permutations[i] == perms0[i]) && (forall|i: int|
                    m <= i < blk@.permutations.len() ==> store_all_builtin(
                        (#[trigger] blk@.permutations[i]).components,
                    )),
                BH::tame() && block_stores_wf(old(blk)@) ==> (forall|i: int|
                    0 <= i < pi ==> store_clean(
                        (#[trigger] blk@.permutations[i]).components,
                        obh,
                    )),
                BH::tame() && block_stores_wf(old(blk)@) ==> store_clean(base_done, obh) && (
                forall|i: int|
                    0 <= i < perms0.len() ==> (i < old(blk)@.permutations.len()
                        ==> #[trigger] perms0[i] == old(blk)@.permutations[i]) && (old(
                        blk,
                    )@.permutations.len() <= i ==> store_all_builtin(perms0[i].components))),
            decreases m - pi,
        {
            if blk.permutations.len() <= pi {
                proof {
                    if BH::tame() {
                        assert(false);
                    }
                    if block_clean(old(blk)@, old(self).block_handlers()) {
                        assert(blk@.permutations.len() == perms0.len());
                        assert(false);
                    }
                }
                return Ok(());
            }
            let ghost perms_cur = blk@.permutations;
            let ghost self_pre = *self;
            let mut perm = blk.permutations.remove(pi);
            let ghost perm_pre = perm@;
            let ghost perms_without = blk@.permutations;
            proof {
                assert(perms_without =~= perms_cur.remove(pi as int)) by {
                    perms_cur.remove_ensures(pi as int);
                }
            }
            let mut ctx = ComponentStore::new();
            core::mem::swap(&mut perm.components, &mut ctx);
            let res = self.process_block_store(&mut ctx, blk, addon);
            core::mem::swap(&mut perm.components, &mut ctx);
            let ghost perms_after_call = blk@.permutations;
            if blk.permutations.len() < pi {
                proof {
                    if BH::tame() {
                        assert(perms_after_call.len() >= perms_without.len());
                        assert(false);
                    }
                    if block_clean(old(blk)@, old(self).block_handlers()) {
                        assert(perm_pre == old(blk)@.permutations[pi as int]);
                        assert(store_clean(perm_pre.components, self_pre.block_handlers()));
                        assert(false);
                    }
                }
                blk.permutations.push(perm);
                return Ok(());
            }
            blk.permutations.insert(pi, perm);
            proof {
                assert(blk@.permutations =~= perms_after_call.insert(pi as int, perm@));
                if block_clean(old(blk)@, old(self).block_handlers()) {
                    assert(perm_pre == old(blk)@.permutations[pi as int]);
                    assert(store_clean(perm_pre.components, self_pre.block_handlers()));
                    assert(perm@ == perm_pre);
                    assert(blk@.permutations =~= perms_cur);
                    assert(blk@ =~= old(blk)@);
                }
            }
            match res {
                Ok(u) => {
                    let _ = u;
                },
                Err(e) => {
                    proof {
                        if block_clean(old(blk)@, old(self).block_handlers()) {
                            // a clean block's permutation store triggers nothing,
                            // so the pass cannot have failed
                            assert(perm_pre == old(blk)@.permutations[pi as int]);
                            assert(store_clean(perm_pre.components, self_pre.block_handlers()));
                            assert(false);
                        }
                    }
                    return Err(e);
                },
            }
            proof {
                if BH::tame() {
                    assert forall|i: int| pi + 1 <= i < m implies #[trigger] blk@.permutations[i]
                        == perms0[i] by {
                        assert(blk@.permutations[i] == perms_after_call[i - 1]);
                        assert(perms_after_call[i - 1] == perms_without[i - 1]);
                        assert(perms_without[i - 1] == perms_cur[i]);
                    }
                    assert forall|i: int|
                        m <= i < blk@.permutations.len() implies store_all_builtin(
                        (#[trigger] blk@.permutations[i]).components,
                    ) by {
                        if i != pi {
                            assert(blk@.permutations[i] == perms_after_call[i - 1]);
                            if i - 1 < perms_without.len() {
                                assert(perms_after_call[i - 1] == perms_without[i - 1]);
                                assert(perms_without[i - 1] == perms_cur[i]);
                            }
                        }
                    }
                    if block_stores_wf(old(blk)@) {
                        lemma_same_keys_clean(
                            perm_pre.components,
                            obh,
                            self_pre.block_handlers(),
                        );
                        lemma_same_keys_clean(perm@.components, obh, self_pre.block_handlers());
                        assert forall|i: int|
                            0 <= i < pi + 1 implies store_clean(
                            (#[trigger] blk@.permutations[i]).components,
                            obh,
                        ) by {
                            if i < pi {
                                assert(blk@.permutations[i] == perms_after_call[i]);
                                assert(perms_after_call[i] == perms_without[i]);
                                assert(perms_without[i] == perms_cur[i]);
                            } else {
                                assert(blk@.permutations[pi as int] == perm@);
                                assert(perm_pre == perms_cur[pi as int]);
                                assert(perm_pre == perms0[pi as int]);
                                if pi < old(blk)@.permutations.len() {
                                    assert(model_keys_unique(perm_pre.components));
                                } else {
                                    assert(store_all_builtin(perm_pre.components));
                                    lemma_all_builtin_clean(
                                        perm_pre.components,
                                        self_pre.block_handlers(),
                                    );
                                }
                            }
                        }
                    }
                }
            }
            pi += 1;
        }
        proof {
            if BH::tame() && block_stores_wf(old(blk)@) {
                assert forall|i: int|
                    0 <= i < blk@.permutations.len() implies store_clean(
                    (#[trigger] blk@.permutations[i]).components,
                    obh,
                ) by {
                    if i >= m {
                        lemma_all_builtin_clean(blk@.permutations[i].components, obh);
                    }
                }
            }
        }
        Ok(())
    }
}


impl<State, BH: CustomBlockComponent<State>, IH: CustomItemComponent<State>> AddonProcessor<
    BH,
    IH,
    State,
> {
    /// The block pass: processes every block of the addon in held order.
    #[verifier::loop_isolation(false)]
    fn process_blocks(
        &mut self,
        addon: &mut Addon,
    ) -> (r: Result<(), ProcessingError<<BH as CustomBlockComponent<State>>::Error, <IH as CustomItemComponent<State>>::Error>>)
        ensures
            same_keys(old(self).block_handlers(), final(self).block_handlers()),
            final(self).item_handlers() == old(self).item_handlers(),
            (forall|i: int|
                0 <= i < old(addon)@.blocks.len() ==> block_clean(
                    #[trigger] old(addon)@.blocks[i],
                    old(self).block_handlers(),
                )) ==> (r is Ok && final(addon)@ == old(addon)@ && *final(self) == *old(self)),
            BH::tame() ==> final(addon)@.items == old(addon)@.items,
            r is Ok && BH::tame() && (forall|i: int|
                0 <= i < old(addon)@.blocks.len() ==> block_stores_wf(
                    #[trigger] old(addon)@.blocks[i],
                )) ==> (forall|i: int|
                0 <= i < final(addon)@.blocks.len() ==> block_clean(
                    #[trigger] final(addon)@.blocks[i],
                    old(self).block_handlers(),
                )),
            r is Err ==> r->Err_0 is BlockError || r->Err_0 is ComponentInvalidType,
    {
        let ghost obh = old(self).block_handlers();
        let ghost blocks0 = addon@.blocks;
        let n = addon.blocks_len();
        let mut bi: usize = 0;
        while bi < n
            invariant
                0 <= bi <= n,
                n == blocks0.len(),
                blocks0 == old(addon)@.blocks,
                same_keys(old(self).block_handlers(), self.block_handlers()),
                self.item_handlers() == old(self).item_handlers(),
                (forall|i: int|
                    0 <= i < blocks0.len() ==> block_clean(#[trigger] blocks0[i], obh)) ==> (
                addon@ == old(addon)@ && *self == *old(self)),
                BH::tame() ==> addon@.items == old(addon)@.items && addon@.blocks.len() == n && (
                forall|i: int| bi <= i < n ==> #[trigger] addon@.blocks[i] == blocks0[i]),
                BH::tame() && (forall|i: int|
                    0 <= i < n ==> block_stores_wf(#[trigger] blocks0[i])) ==> (forall|i: int|
                    0 <= i < bi ==> block_clean(#[trigger] addon@.blocks[i], obh)),
            decreases n - bi,
        {
            if addon.blocks_len() <= bi {
                proof {
                    if BH::tame() {
                        assert(false);
                    }
                    if (forall|i: int|
                        0 <= i < blocks0.len() ==> block_clean(#[trigger] blocks0[i], obh)) {
                        assert(false);
                    }
                }
                return Ok(());
            }
            let ghost self_pre = *self;
            let ghost addon_pre = addon@;
            let mut blk = addon.take_block(bi);
            let ghost blk_pre = blk@;
            let res = self.process_block(&mut blk, addon);
            let ghost addon_after_call = addon@;
            if addon.blocks_len() < bi {
                proof {
                    if BH::tame() {
                        assert(false);
                    }
                    if (forall|i: int|
                        0 <= i < blocks0.len() ==> block_clean(#[trigger] blocks0[i], obh)) {
                        assert(blk_pre == blocks0[bi as int]);
                        lemma_same_keys_clean_block(blk_pre, obh, self_pre.block_handlers());
                        assert(false);
                    }
                }
                let l = addon.blocks_len();
                addon.insert_block(l, blk);
                return Ok(());
            }
            addon.insert_block(bi, blk);
            match res {
                Ok(u) => {
                    let _ = u;
                },
                Err(e) => {
                    proof {
                        if (forall|i: int|
                            0 <= i < blocks0.len() ==> block_clean(#[trigger] blocks0[i], obh)) {
                            assert(blk_pre == blocks0[bi as int]);
                            lemma_same_keys_clean_block(blk_pre, obh, self_pre.block_handlers());
                            assert(false);
                        }
                    }
                    return Err(e);
                },
            }
            proof {
                assert(addon@.blocks =~= addon_after_call.blocks.insert(bi as int, blk@));
                if (forall|i: int|
                    0 <= i < blocks0.len() ==> block_clean(#[trigger] blocks0[i], obh)) {
                    assert(blk_pre == blocks0[bi as int]);
                    lemma_same_keys_clean_block(blk_pre, obh, self_pre.block_handlers());
                    assert(blk@ == blk_pre);
                    assert(addon_pre.blocks.remove(bi as int).insert(bi as int, blk@)
                        =~= addon_pre.blocks) by {
                        addon_pre.blocks.remove_ensures(bi as int);
                    }
                    assert(addon@ =~= old(addon)@);
                }
                if BH::tame() {
                    assert(addon_after_call.blocks =~= addon_pre.blocks.remove(bi as int)) by {
                        addon_pre.blocks.remove_ensures(bi as int);
                    }
                    assert forall|i: int| bi + 1 <= i < n implies #[trigger] addon@.blocks[i]
                        == blocks0[i] by {
                        assert(addon@.blocks[i] == addon_after_call.blocks[i - 1]);
                        assert(addon_after_call.blocks[i - 1] == addon_pre.blocks[i]);
                    }
                    if (forall|i: int| 0 <= i < n ==> block_stores_wf(#[trigger] blocks0[i])) {
                        lemma_same_keys_clean_block(blk@, obh, self_pre.block_handlers());
                        assert forall|i: int|
                            0 <= i < bi + 1 implies block_clean(
                            #[trigger] addon@.blocks[i],
                            obh,
                        ) by {
                            if i < bi {
                                assert(addon@.blocks[i] == addon_after_call.blocks[i]);
                                assert(addon_after_call.blocks[i] == addon_pre.blocks[i]);
                            } else {
                                assert(addon@.blocks[bi as int] == blk@);
                                assert(blk_pre == blocks0[bi as int]);
                                assert(block_stores_wf(blk_pre));
                            }
                        }
                    }
                }
            }
            bi += 1;
        }
        Ok(())
    }

    /// The item pass: processes every item of the addon in held order.
    #[verifier::loop_isolation(false)]
    fn process_items(
        &mut self,
        addon: &mut Addon,
    ) -> (r: Result<(), ProcessingError<<BH as CustomBlockComponent<State>>::Error, <IH as CustomItemComponent<State>>::Error>>)
        ensures
            same_keys(old(self).item_handlers(), final(self).item_handlers()),
            final(self).block_handlers() == old(self).block_handlers(),
            (forall|i: int|
                0 <= i < old(addon)@.items.len() ==> store_clean(
                    (#[trigger] old(addon)@.items[i]).components,
                    old(self).item_handlers(),
                )) ==> (r is Ok && final(addon)@ == old(addon)@ && *final(self) == *old(self)),
            IH::tame() ==> final(addon)@.blocks == old(addon)@.blocks,
            r is Ok && IH::tame() && (forall|i: int|
                0 <= i < old(addon)@.items.len() ==> model_keys_unique(
                    (#[trigger] old(addon)@.items[i]).components,
                )) ==> (forall|i: int|
                0 <= i < final(addon)@.items.len() ==> store_clean(
                    (#[trigger] final(addon)@.items[i]).components,
                    old(self).item_handlers(),
                )),
            r is Err ==> r->Err_0 is ItemError || r->Err_0 is ComponentInvalidType,
    {
        let ghost oih = old(self).item_handlers();
        let ghost items0 = addon@.items;
        let n = addon.items_len();
        let mut ii: usize = 0;
        while ii < n
            invariant
                0 <= ii <= n,
                n == items0.len(),
                items0 == old(addon)@.items,
                same_keys(old(self).item_handlers(), self.item_handlers()),
                self.block_handlers() == old(self).block_handlers(),
                (forall|i: int|
                    0 <= i < items0.len() ==> store_clean(
                        (#[trigger] items0[i]).components,
                        oih,
                    )) ==> (addon@ == old(addon)@ && *self == *old(self)),
                IH::tame() ==> addon@.blocks == old(addon)@.blocks && addon@.items.len() == n && (
                forall|i: int| ii <= i < n ==> #[trigger] addon@.items[i] == items0[i]),
                IH::tame() && (forall|i: int|
                    0 <= i < n ==> model_keys_unique((#[trigger] items0[i]).components)) ==> (
                forall|i: int|
                    0 <= i < ii ==> store_clean((#[trigger] addon@.items[i]).components, oih)),
            decreases n - ii,
        {
            if addon.items_len() <= ii {
                proof {
                    if IH::tame() {
                        assert(false);
                    }
                    if (forall|i: int|
                        0 <= i < items0.len() ==> store_clean(
                            (#[trigger] items0[i]).components,
                            oih,
                        )) {
                        assert(false);
                    }
                }
                return Ok(());
            }
            let ghost self_pre = *self;
            let ghost addon_pre = addon@;
            let mut it = addon.take_item(ii);
            let ghost it_pre = it@;
            let mut ctx = ComponentStore::new();
            core::mem::swap(&mut it.components, &mut ctx);
            let res = self.process_item_store(&mut ctx, &mut it, addon);
            core::mem::swap(&mut it.components, &mut ctx);
            let ghost addon_after_call = addon@;
            if addon.items_len() < ii {
                proof {
                    if IH::tame() {
                        assert(false);
                    }
                    if (forall|i: int|
                        0 <= i < items0.len() ==> store_clean(
                            (#[trigger] items0[i]).components,
                            oih,
                        )) {
                        assert(it_pre == items0[ii as int]);
                        lemma_same_keys_clean(it_pre.components, oih, self_pre.item_handlers());
                        assert(false);
                    }
                }
                let l = addon.items_len();
                addon.insert_item(l, it);
                return Ok(());
            }
            addon.insert_item(ii, it);
            match res {
                Ok(u) => {
                    let _ = u;
                },
                Err(e) => {
                    proof {
                        if (forall|i: int|
                            0 <= i < items0.len() ==> store_clean(
                                (#[trigger] items0[i]).components,
                                oih,
                            )) {
                            assert(it_pre == items0[ii as int]);
                            lemma_same_keys_clean(it_pre.components, oih, self_pre.item_handlers());
                            assert(false);
                        }
                    }
                    return Err(e);
                },
            }
            proof {
                assert(addon@.items =~= addon_after_call.items.insert(ii as int, it@));
                if (forall|i: int|
                    0 <= i < items0.len() ==> store_clean(
                        (#[trigger] items0[i]).components,
                        oih,
                    )) {
                    assert(it_pre == items0[ii as int]);
                    lemma_same_keys_clean(it_pre.components, oih, self_pre.item_handlers());
                    assert(it@ == it_pre);
                    assert(addon_pre.items.remove(ii as int).insert(ii as int, it@)
                        =~= addon_pre.items) by {
                        addon_pre.items.remove_ensures(ii as int);
                    }
                    assert(addon@ =~= old(addon)@);
                }
                if IH::tame() {
                    assert(addon_after_call.items =~= addon_pre.items.remove(ii as int)) by {
                        addon_pre.items.remove_ensures(ii as int);
                    }
                    assert forall|i: int| ii + 1 <= i < n implies #[trigger] addon@.items[i]
                        == items0[i] by {
                        assert(addon@.items[i] == addon_after_call.items[i - 1]);
                        assert(addon_after_call.items[i - 1] == addon_pre.items[i]);
                    }
                    if (forall|i: int|
                        0 <= i < n ==> model_keys_unique((#[trigger] items0[i]).components)) {
                        lemma_same_keys_clean(it@.components, oih, self_pre.item_handlers());
                        assert forall|i: int|
                            0 <= i < ii + 1 implies store_clean(
                            (#[trigger] addon@.items[i]).components,
                            oih,
                        ) by {
                            if i < ii {
                                assert(addon@.items[i] == addon_after_call.items[i]);
                                assert(addon_after_call.items[i] == addon_pre.items[i]);
                            } else {
                                assert(addon@.items[ii as int] == it@);
                                assert(it_pre == items0[ii as int]);
                                assert(model_keys_unique(it_pre.components));
                            }
                        }
                    }
                }
            }
            ii += 1;
        }
        Ok(())
    }

    /// Applies the registered handlers to the whole addon: the block pass
    /// runs to completion before the item pass starts; the first handler
    /// error aborts the rest, fail-fast and without rollback, and the
    /// partially transformed addon is discarded with the error.
    ///
    /// An addon none of whose stores holds a custom id with a bound
    /// handler comes back unchanged.  When the handlers are tame and every
    /// store's ids are distinct, the addon that comes back is clean: no
    /// store holds a custom id with a handler bound for its pass.  A
    /// block-pass failure is wrapped as a block error and an item-pass
    /// failure as an item error, so a run whose blocks trigger nothing can
    /// fail only on the item side, and the other way around.
    pub fn process_addon(&mut self, addon: Addon) -> (r: Result<Addon, ProcessingError<<BH as CustomBlockComponent<State>>::Error, <IH as CustomItemComponent<State>>::Error>>)
        ensures
            addon_clean(addon@, old(self).block_handlers(), old(self).item_handlers()) ==> (r
                is Ok && r->Ok_0@ == addon@ && *final(self) == *old(self)),
            r is Ok && BH::tame() && IH::tame() && addon_stores_wf(addon@) ==> addon_clean(
                r->Ok_0@,
                old(self).block_handlers(),
                old(self).item_handlers(),
            ),
            (forall|i: int|
                0 <= i < addon@.blocks.len() ==> block_clean(
                    #[trigger] addon@.blocks[i],
                    old(self).block_handlers(),
                )) && r is Err ==> !(r->Err_0 is BlockError),
            BH::tame() && (forall|i: int|
                0 <= i < addon@.items.len() ==> store_clean(
                    (#[trigger] addon@.items[i]).components,
                    old(self).item_handlers(),
                )) && r is Err ==> !(r->Err_0 is ItemError),
    {
        let ghost a0 = addon@;
        let mut work = addon;
        let res_b = self.process_blocks(&mut work);
        let ghost self_mid = *self;
        let ghost a_mid = work@;
        match res_b {
            Ok(u) => {
                let _ = u;
            },
            Err(e) => {
                proof {
                    if (forall|i: int|
                        0 <= i < a0.blocks.len() ==> block_clean(
                            #[trigger] a0.blocks[i],
                            old(self).block_handlers(),
                        )) {
                        assert(false);
                    }
                }
                return Err(e);
            },
        }
        let res_i = self.process_items(&mut work);
        match res_i {
            Ok(u) => {
                let _ = u;
            },
            Err(e) => {
                proof {
                    if addon_clean(a0, old(self).block_handlers(), old(self).item_handlers()) {
                        assert(false);
                    }
                    if BH::tame() && (forall|i: int|
                        0 <= i < a0.items.len() ==> store_clean(
                            (#[trigger] a0.items[i]).components,
                            old(self).item_handlers(),
                        )) {
                        // the block pass left the items alone, so the item
                        // pass had nothing to trigger and cannot have failed
                        assert(a_mid.items == a0.items);
                        assert forall|i: int|
                            0 <= i < a_mid.items.len() implies store_clean(
                            (#[trigger] a_mid.items[i]).components,
                            self_mid.item_handlers(),
                        ) by {
                            assert(a_mid.items[i] == a0.items[i]);
                        }
                        assert(false);
                    }
                }
                return Err(e);
            },
        }
        proof {
            if addon_clean(a0, old(self).block_handlers(), old(self).item_handlers()) {
                assert(work@ == a0);
            }
            if BH::tame() && IH::tame() && addon_stores_wf(a0) {
                assert forall|i: int|
                    0 <= i < work@.blocks.len() implies block_clean(
                    #[trigger] work@.blocks[i],
                    old(self).block_handlers(),
                ) by {
                    assert(work@.blocks == a_mid.blocks);
                    assert(block_clean(a_mid.blocks[i], old(self).block_handlers()));
                }
                assert forall|i: int|
                    0 <= i < work@.items.len() implies store_clean(
                    (#[trigger] work@.items[i]).components,
                    old(self).item_handlers(),
                ) by {
                    assert(a_mid.items == a0.items);
                    lemma_same_keys_clean(
                        work@.items[i].components,
                        old(self).item_handlers(),
                        self_mid.item_handlers(),
                    );
                }
            }
        }
        Ok(work)
    }
}

/// Blocks judged clean stay clean under a same-keyed handler table.
proof fn lemma_same_keys_clean_block<H>(b: BlockModel, a: Seq<(String, H)>, c: Seq<(String, H)>)
    requires
        same_keys(a, c),
    ensures
        block_clean(b, a) == block_clean(b, c),
{
    lemma_same_keys_clean(b.components, a, c);
    assert forall|i: int|
        0 <= i < b.permutations.len() implies store_clean(
        (#[trigger] b.permutations[i]).components,
        a,
    ) == store_clean(b.permutations[i].components, c) by {
        lemma_same_keys_clean(b.permutations[i].components, a, c);
    }
}

} // verus!
