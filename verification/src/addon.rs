//! The root aggregate: blocks and items keyed by identifier.  Pushing an
//! entity replaces any entity with the same identifier, last write wins.
use vstd::prelude::*;

verus! {

use crate::block::{Block, BlockModel};
use crate::item::{Item, ItemModel};

/// The mathematical model of an addon: its blocks and items, in held
/// order.
#[verifier::ext_equal]
pub struct AddonModel {
    pub blocks: Seq<BlockModel>,
    pub items: Seq<ItemModel>,
}

/// Index of the first block with the given identifier, at or after `from`.
pub open spec fn block_idx_from(blocks: Seq<BlockModel>, id: Seq<char>, from: int) -> Option<int>
    decreases blocks.len() - from,
{
    if from < 0 || from >= blocks.len() {
        None
    } else if blocks[from].description.identifier == id {
        Some(from)
    } else {
        block_idx_from(blocks, id, from + 1)
    }
}

pub open spec fn block_idx(blocks: Seq<BlockModel>, id: Seq<char>) -> Option<int> {
    block_idx_from(blocks, id, 0)
}

/// Index of the first item with the given identifier, at or after `from`.
pub open spec fn item_idx_from(items: Seq<ItemModel>, id: Seq<char>, from: int) -> Option<int>
    decreases items.len() - from,
{
    if from < 0 || from >= items.len() {
        None
    } else if items[from].description.identifier == id {
        Some(from)
    } else {
        item_idx_from(items, id, from + 1)
    }
}

pub open spec fn item_idx(items: Seq<ItemModel>, id: Seq<char>) -> Option<int> {
    item_idx_from(items, id, 0)
}

pub proof fn lemma_block_idx_spec(blocks: Seq<BlockModel>, id: Seq<char>, from: int)
    requires
        0 <= from <= blocks.len(),
    ensures
        match block_idx_from(blocks, id, from) {
            Some(i) => from <= i < blocks.len() && blocks[i].description.identifier == id
                && forall|j: int|
                from <= j < i ==> (#[trigger] blocks[j]).description.identifier != id,
            None => forall|j: int|
                from <= j < blocks.len() ==> (#[trigger] blocks[j]).description.identifier != id,
        },
    decreases blocks.len() - from,
{
    if from < blocks.len() {
        if blocks[from].description.identifier != id {
            lemma_block_idx_spec(blocks, id, from + 1);
        }
    }
}

pub proof fn lemma_item_idx_spec(items: Seq<ItemModel>, id: Seq<char>, from: int)
    requires
        0 <= from <= items.len(),
    ensures
        match item_idx_from(items, id, from) {
            Some(i) => from <= i < items.len() && items[i].description.identifier == id
                && forall|j: int|
                from <= j < i ==> (#[trigger] items[j]).description.identifier != id,
            None => forall|j: int|
                from <= j < items.len() ==> (#[trigger] items[j]).description.identifier != id,
        },
    decreases items.len() - from,
{
    if from < items.len() {
        if items[from].description.identifier != id {
            lemma_item_idx_spec(items, id, from + 1);
        }
    }
}

/// The root bundle of content entities.
#[derive(Debug)]
pub struct Addon {
    blocks: Vec<Block>,
    items: Vec<Item>,
}

pub open spec fn blocks_model(blocks: Seq<Block>) -> Seq<BlockModel> {
    Seq::new(blocks.len(), |i: int| blocks[i]@)
}

pub open spec fn items_model(items: Seq<Item>) -> Seq<ItemModel> {
    Seq::new(items.len(), |i: int| items[i]@)
}

impl View for Addon {
    type V = AddonModel;

    closed spec fn view(&self) -> AddonModel {
        AddonModel { blocks: blocks_model(self.blocks@), items: items_model(self.items@) }
    }
}

impl Addon {
    /// Block identifiers unique, item identifiers unique.
    pub open spec fn wf(self) -> bool {
        (forall|i: int, j: int|
            0 <= i < j < self@.blocks.len() ==> (#[trigger] self@.blocks[i]).description.identifier
                != (#[trigger] self@.blocks[j]).description.identifier) && (forall|i: int, j: int|
            0 <= i < j < self@.items.len() ==> (#[trigger] self@.items[i]).description.identifier
                != (#[trigger] self@.items[j]).description.identifier)
    }

    pub fn new() -> (r: Addon)
        ensures
            r@.blocks =~= Seq::<BlockModel>::empty(),
            r@.items =~= Seq::<ItemModel>::empty(),
            r.wf(),
    {
        let r = Addon { blocks: Vec::new(), items: Vec::new() };
        proof {
            assert(r@.blocks =~= Seq::<BlockModel>::empty());
            assert(r@.items =~= Seq::<ItemModel>::empty());
        }
        r
    }

    /// Adds a block; a block with the same identifier is replaced in
    /// place, last write wins.
    #[verifier::loop_isolation(false)]
    pub fn push_block(&mut self, block: Block)
        ensures
            final(self)@.items == old(self)@.items,
            final(self)@.blocks =~= (match block_idx(
                old(self)@.blocks,
                block@.description.identifier,
            ) {
                Some(i) => old(self)@.blocks.update(i, block@),
                None => old(self)@.blocks.push(block@),
            }),
            old(self).wf() ==> final(self).wf(),
    {
        let ghost oldm = old(self)@.blocks;
        let ghost id = block@.description.identifier;
        proof {
            lemma_block_idx_spec(oldm, id, 0);
        }
        let mut i: usize = 0;
        let n = self.blocks.len();
        while i < n
            invariant
                *self == *old(self),
                n == self.blocks@.len(),
                0 <= i <= n,
                block_idx(oldm, id) == block_idx_from(oldm, id, i as int),
            decreases n - i,
        {
            proof {
                assert(oldm[i as int] == self.blocks@[i as int]@);
            }
            if crate::value::str_eq(
                self.blocks[i].description.identifier.as_str(),
                block.description.identifier.as_str(),
            ) {
                self.blocks.set(i, block);
                proof {
                    assert(self@.blocks =~= oldm.update(i as int, block@));
                    if old(self).wf() {
                        assert forall|p: int, q: int|
                            0 <= p < q < self@.blocks.len() implies (
                        #[trigger] self@.blocks[p]).description.identifier != (
                        #[trigger] self@.blocks[q]).description.identifier by {
                            assert(oldm[p].description.identifier != oldm[q].description.identifier);
                        }
                    }
                }
                return ;
            }
            i += 1;
        }
        self.blocks.push(block);
        proof {
            assert(self@.blocks =~= oldm.push(block@));
            if old(self).wf() {
                assert forall|p: int, q: int|
                    0 <= p < q < self@.blocks.len() implies (
                #[trigger] self@.blocks[p]).description.identifier != (
                #[trigger] self@.blocks[q]).description.identifier by {
                    if q < oldm.len() {
                        assert(oldm[p].description.identifier != oldm[q].description.identifier);
                    } else {
                        assert(self@.blocks[q] == block@);
                        assert(block_idx(oldm, id) is None);
                        assert(oldm[p].description.identifier != id);
                    }
                }
            }
        }
    }

    /// Adds an item; an item with the same identifier is replaced in
    /// place, last write wins.
    #[verifier::loop_isolation(false)]
    pub fn push_item(&mut self, item: Item)
        ensures
            final(self)@.blocks == old(self)@.blocks,
            final(self)@.items =~= (match item_idx(old(self)@.items, item@.description.identifier) {
                Some(i) => old(self)@.items.update(i, item@),
                None => old(self)@.items.push(item@),
            }),
            old(self).wf() ==> final(self).wf(),
    {
        let ghost oldm = old(self)@.items;
        let ghost id = item@.description.identifier;
        proof {
            lemma_item_idx_spec(oldm, id, 0);
        }
        let mut i: usize = 0;
        let n = self.items.len();
        while i < n
            invariant
                *self == *old(self),
                n == self.items@.len(),
                0 <= i <= n,
                item_idx(oldm, id) == item_idx_from(oldm, id, i as int),
            decreases n - i,
        {
            proof {
                assert(oldm[i as int] == self.items@[i as int]@);
            }
            if crate::value::str_eq(
                self.items[i].description.identifier.as_str(),
                item.description.identifier.as_str(),
            ) {
                self.items.set(i, item);
                proof {
                    assert(self@.items =~= oldm.update(i as int, item@));
                    if old(self).wf() {
                        assert forall|p: int, q: int|
                            0 <= p < q < self@.items.len() implies (
                        #[trigger] self@.items[p]).description.identifier != (
                        #[trigger] self@.items[q]).description.identifier by {
                            assert(oldm[p].description.identifier != oldm[q].description.identifier);
                        }
                    }
                }
                return ;
            }
            i += 1;
        }
        self.items.push(item);
        proof {
            assert(self@.items =~= oldm.push(item@));
            if old(self).wf() {
                assert forall|p: int, q: int|
                    0 <= p < q < self@.items.len() implies (
                #[trigger] self@.items[p]).description.identifier != (
                #[trigger] self@.items[q]).description.identifier by {
                    if q < oldm.len() {
                        assert(oldm[p].description.identifier != oldm[q].description.identifier);
                    } else {
                        assert(self@.items[q] == item@);
                        assert(item_idx(oldm, id) is None);
                        assert(oldm[p].description.identifier != id);
                    }
                }
            }
        }
    }

    /// The blocks, in held order.
    pub fn blocks_ref(&self) -> (r: &Vec<Block>)
        ensures
            blocks_model(r@) == self@.blocks,
    {
        &self.blocks
    }

    /// The items, in held order.
    pub fn items_ref(&self) -> (r: &Vec<Item>)
        ensures
            items_model(r@) == self@.items,
    {
        &self.items
    }

    pub fn blocks_len(&self) -> (r: usize)
        ensures
            r == self@.blocks.len(),
    {
        self.blocks.len()
    }

    pub fn items_len(&self) -> (r: usize)
        ensures
            r == self@.items.len(),
    {
        self.items.len()
    }

    /// Removes and returns the block at a position; later blocks shift
    /// left.
    pub(crate) fn take_block(&mut self, i: usize) -> (r: Block)
        requires
            i < old(self)@.blocks.len(),
        ensures
            r@ == old(self)@.blocks[i as int],
            final(self)@.blocks =~= old(self)@.blocks.remove(i as int),
            final(self)@.items == old(self)@.items,
    {
        let b = self.blocks.remove(i);
        proof {
            assert(self@.blocks =~= old(self)@.blocks.remove(i as int));
        }
        b
    }

    /// Puts a block back at a position; later blocks shift right.
    pub(crate) fn insert_block(&mut self, i: usize, block: Block)
        requires
            i <= old(self)@.blocks.len(),
        ensures
            final(self)@.blocks =~= old(self)@.blocks.insert(i as int, block@),
            final(self)@.items == old(self)@.items,
    {
        self.blocks.insert(i, block);
        proof {
            assert(self@.blocks =~= old(self)@.blocks.insert(i as int, block@));
        }
    }

    /// Removes and returns the item at a position; later items shift left.
    pub(crate) fn take_item(&mut self, i: usize) -> (r: Item)
        requires
            i < old(self)@.items.len(),
        ensures
            r@ == old(self)@.items[i as int],
            final(self)@.items =~= old(self)@.items.remove(i as int),
            final(self)@.blocks == old(self)@.blocks,
    {
        let it = self.items.remove(i);
        proof {
            assert(self@.items =~= old(self)@.items.remove(i as int));
        }
        it
    }

    /// Puts an item back at a position; later items shift right.
    pub(crate) fn insert_item(&mut self, i: usize, item: Item)
        requires
            i <= old(self)@.items.len(),
        ensures
            final(self)@.items =~= old(self)@.items.insert(i as int, item@),
            final(self)@.blocks == old(self)@.blocks,
    {
        self.items.insert(i, item);
        proof {
            assert(self@.items =~= old(self)@.items.insert(i as int, item@));
        }
    }
}

} // verus!
