//! The extension contract: user-supplied handlers that consume a custom
//! component's payload and rewrite the owning entity, the specific store
//! the component was found in, and, through the addon, sibling entities.
//!
//! A handler is invoked with the owning entity temporarily removed from
//! the addon, and with the store under iteration temporarily removed from
//! the owning entity, so no two of its arguments alias.
use vstd::prelude::*;

verus! {

use crate::addon::{Addon, AddonModel};
use crate::block::{Block, BlockModel};
use crate::item::{Item, ItemModel};
use crate::store::{ComponentStore, StoreModel};
use crate::value::JsonValue;

/// The unit user state for handlers that carry none.
pub struct EmptyBlockState;

/// A handler's identity: the component id it is registered under by
/// default.
pub trait CustomComponent: Sized {
    /// The id this handler reports for itself.
    spec fn spec_id(&self) -> Seq<char>;

    fn id(&self) -> (r: &str)
        ensures
            r@ == self.spec_id(),
    ;
}

/// The discipline a well-behaved block handler keeps: it leaves the rest
/// of the addon alone, keeps the owner's identifier and base-store field,
/// only appends permutations (existing ones stay, new ones hold only
/// built-in ids), introduces no custom id into the context store that was
/// not already there, and keeps the context store's ids distinct.
pub open spec fn tame_block_apply(
    ob: BlockModel,
    nb: BlockModel,
    oc: StoreModel,
    nc: StoreModel,
    oa: AddonModel,
    na: AddonModel,
) -> bool {
    &&& na == oa
    &&& nb.description.identifier == ob.description.identifier
    &&& nb.components == ob.components
    &&& nb.permutations.len() >= ob.permutations.len()
    &&& (forall|i: int|
        0 <= i < ob.permutations.len() ==> #[trigger] nb.permutations[i] == ob.permutations[i])
    &&& (forall|i: int|
        ob.permutations.len() <= i < nb.permutations.len() ==> crate::store::store_all_builtin(
            (#[trigger] nb.permutations[i]).components,
        ))
    &&& (forall|i: int|
        0 <= i < nc.len() && !crate::store::spec_is_builtin_id((#[trigger] nc[i]).0)
            ==> crate::keyed::model_key_has(oc, nc[i].0))
    &&& (crate::keyed::model_keys_unique(oc) ==> crate::keyed::model_keys_unique(nc))
}

/// The discipline a well-behaved item handler keeps.
pub open spec fn tame_item_apply(
    oi: ItemModel,
    ni: ItemModel,
    oc: StoreModel,
    nc: StoreModel,
    oa: AddonModel,
    na: AddonModel,
) -> bool {
    &&& na == oa
    &&& ni.description.identifier == oi.description.identifier
    &&& ni.components == oi.components
    &&& (forall|i: int|
        0 <= i < nc.len() && !crate::store::spec_is_builtin_id((#[trigger] nc[i]).0)
            ==> crate::keyed::model_key_has(oc, nc[i].0))
    &&& (crate::keyed::model_keys_unique(oc) ==> crate::keyed::model_keys_unique(nc))
}

/// A handler applied to custom components found on blocks.
///
/// `tame()` says whether every application of this handler keeps the
/// discipline above; the processor's guarantees about the addon it returns
/// hold when the handlers it ran were tame.
pub trait CustomBlockComponent<State>: CustomComponent {
    type Error;

    spec fn tame() -> bool;

    /// Applies the handler to one custom component: `data` is the raw
    /// payload, `owner` the block it was found on (with the store under
    /// iteration removed), `context` that store, `addon` the rest of the
    /// bundle.
    fn apply_component(
        &mut self,
        data: &JsonValue,
        owner: &mut Block,
        context: &mut ComponentStore,
        addon: &mut Addon,
        state: &mut State,
    ) -> (r: Result<(), Self::Error>)
        ensures
            Self::tame() ==> tame_block_apply(
                old(owner)@,
                final(owner)@,
                old(context)@,
                final(context)@,
                old(addon)@,
                final(addon)@,
            ),
    ;
}

/// A handler applied to custom components found on items.
pub trait CustomItemComponent<State>: CustomComponent {
    type Error;

    spec fn tame() -> bool;

    /// Applies the handler to one custom component found on an item.
    fn apply_component(
        &mut self,
        data: &JsonValue,
        owner: &mut Item,
        context: &mut ComponentStore,
        addon: &mut Addon,
        state: &mut State,
    ) -> (r: Result<(), Self::Error>)
        ensures
            Self::tame() ==> tame_item_apply(
                old(owner)@,
                final(owner)@,
                old(context)@,
                final(context)@,
                old(addon)@,
                final(addon)@,
            ),
    ;
}


/// A block handler that does nothing: the placeholder for a run whose
/// block pass has no handlers.
pub struct InertBlockHandler;

/// An item handler that does nothing: the placeholder for a run whose
/// item pass has no handlers.
pub struct InertItemHandler;

impl CustomComponent for InertBlockHandler {
    open spec fn spec_id(&self) -> Seq<char> {
        Seq::empty()
    }

    fn id(&self) -> (r: &str)
        ensures
            r@ == self.spec_id(),
    {
        proof {
            reveal_strlit("");
            assert(""@ =~= Seq::<char>::empty());
        }
        ""
    }
}

impl CustomComponent for InertItemHandler {
    open spec fn spec_id(&self) -> Seq<char> {
        Seq::empty()
    }

    fn id(&self) -> (r: &str)
        ensures
            r@ == self.spec_id(),
    {
        proof {
            reveal_strlit("");
            assert(""@ =~= Seq::<char>::empty());
        }
        ""
    }
}

impl<State> CustomBlockComponent<State> for InertBlockHandler {
    type Error = crate::component::ComponentError;

    open spec fn tame() -> bool {
        true
    }

    fn apply_component(
        &mut self,
        data: &JsonValue,
        owner: &mut Block,
        context: &mut ComponentStore,
        addon: &mut Addon,
        state: &mut State,
    ) -> (r: Result<(), <InertBlockHandler as CustomBlockComponent<State>>::Error>)
        ensures
            <InertBlockHandler as CustomBlockComponent<State>>::tame() ==> tame_block_apply(
                old(owner)@,
                final(owner)@,
                old(context)@,
                final(context)@,
                old(addon)@,
                final(addon)@,
            ),
            r is Ok && *final(owner) == *old(owner),
    {
        proof {
            crate::keyed::lemma_model_key_idx_spec(context@, Seq::<char>::empty(), 0);
            assert forall|i: int|
                0 <= i < context@.len() && !crate::store::spec_is_builtin_id(
                    (#[trigger] context@[i]).0,
                ) implies crate::keyed::model_key_has(context@, context@[i].0) by {
                crate::keyed::lemma_model_key_idx_spec(context@, context@[i].0, 0);
            }
        }
        Ok(())
    }
}

impl<State> CustomItemComponent<State> for InertItemHandler {
    type Error = crate::component::ComponentError;

    open spec fn tame() -> bool {
        true
    }

    fn apply_component(
        &mut self,
        data: &JsonValue,
        owner: &mut Item,
        context: &mut ComponentStore,
        addon: &mut Addon,
        state: &mut State,
    ) -> (r: Result<(), <InertItemHandler as CustomItemComponent<State>>::Error>)
        ensures
            <InertItemHandler as CustomItemComponent<State>>::tame() ==> tame_item_apply(
                old(owner)@,
                final(owner)@,
                old(context)@,
                final(context)@,
                old(addon)@,
                final(addon)@,
            ),
    {
        proof {
            assert forall|i: int|
                0 <= i < context@.len() && !crate::store::spec_is_builtin_id(
                    (#[trigger] context@[i]).0,
                ) implies crate::keyed::model_key_has(context@, context@[i].0) by {
                crate::keyed::lemma_model_key_idx_spec(context@, context@[i].0, 0);
            }
        }
        Ok(())
    }
}

} // verus!
