//! Translation keys for content entities.
use vstd::prelude::*;

verus! {

use vstd::string::StringExecFns;

/// Derives the translation keys entities are listed under.
pub struct TranslationManager;

impl TranslationManager {
    /// The translation key of a block: its identifier under `block.`.
    pub fn key_for_block(block: &crate::block::Block) -> (r: String)
        ensures
            r@ == "block."@ + block@.description.identifier,
    {
        "block.".to_owned().concat(block.description.identifier.as_str())
    }

    /// The translation key of an item: its identifier under `item.`.
    pub fn key_for_item(item: &crate::item::Item) -> (r: String)
        ensures
            r@ == "item."@ + item@.description.identifier,
    {
        "item.".to_owned().concat(item.description.identifier.as_str())
    }
}

} // verus!
