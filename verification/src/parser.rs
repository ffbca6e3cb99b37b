//! Addon ingestion: turns already-read entity documents into an addon,
//! optionally skipping bland entities, and remembers where each entity
//! came from for write-back.
use vstd::prelude::*;

verus! {

use crate::addon::{block_idx, item_idx, Addon};
use crate::block::Block;
use crate::component::{ComponentError, ComponentKind, ErrModel, FormattedComponentRegister, VersionRestriction};
use crate::item::Item;
use crate::paths::ParsedAddonResolver;
use crate::value::{Json, JsonValue};

/// What the parser is asked to do.
pub struct ParserConfig {
    pub parse_block: bool,
    pub parse_items: bool,
    pub skip_bland: bool,
    pub rp_from_base: Option<String>,
    pub bp_from_base: Option<String>,
    pub block_register: Option<FormattedComponentRegister>,
    pub item_register: Option<FormattedComponentRegister>,
}

/// A failure while ingesting an addon: a document failed to decode.
#[derive(Debug)]
pub enum AddonParseError {
    ComponentError(ComponentError),
}

/// The blocks an addon gains from a document list: each document decoded,
/// bland ones skipped when asked, the rest pushed in order with
/// last-write-wins by identifier.
pub open spec fn spec_ingest_blocks(
    docs: Seq<Json>,
    reg: Seq<(String, Vec<(VersionRestriction, ComponentKind)>)>,
    skip_bland: bool,
    acc: Seq<crate::block::BlockModel>,
) -> Result<Seq<crate::block::BlockModel>, ErrModel>
    decreases docs.len(),
{
    if docs.len() == 0 {
        Ok(acc)
    } else {
        match crate::block::spec_block_from_json(docs[0], reg) {
            Err(e) => Err(e),
            Ok(b) => spec_ingest_blocks(
                docs.drop_first(),
                reg,
                skip_bland,
                if skip_bland && b.is_bland() {
                    acc
                } else {
                    match block_idx(acc, b.description.identifier) {
                        Some(i) => acc.update(i, b),
                        None => acc.push(b),
                    }
                },
            ),
        }
    }
}

/// The items an addon gains from a document list.
pub open spec fn spec_ingest_items(
    docs: Seq<Json>,
    reg: Seq<(String, Vec<(VersionRestriction, ComponentKind)>)>,
    skip_bland: bool,
    acc: Seq<crate::item::ItemModel>,
) -> Result<Seq<crate::item::ItemModel>, ErrModel>
    decreases docs.len(),
{
    if docs.len() == 0 {
        Ok(acc)
    } else {
        match crate::item::spec_item_from_json(docs[0], reg) {
            Err(e) => Err(e),
            Ok(it) => spec_ingest_items(
                docs.drop_first(),
                reg,
                skip_bland,
                if skip_bland && it.is_bland() {
                    acc
                } else {
                    match item_idx(acc, it.description.identifier) {
                        Some(i) => acc.update(i, it),
                        None => acc.push(it),
                    }
                },
            ),
        }
    }
}

/// Ingestion of whole addons from document lists.
pub struct AddonParser;

impl AddonParser {
    /// Builds an addon from block and item documents, each paired with
    /// the relative location it was read from.  Blocks and items are
    /// decoded against the configured registries (or empty ones), bland
    /// entities are skipped when asked, and the resolver remembers each
    /// kept entity's location.
    #[verifier::loop_isolation(false)]
    pub fn parse_addon(
        folder_base: String,
        block_docs: Vec<(String, JsonValue)>,
        item_docs: Vec<(String, JsonValue)>,
        config: ParserConfig,
    ) -> (r: Result<(Addon, ParsedAddonResolver), AddonParseError>)
        ensures
            ({
                let bres = if config.parse_block {
                    spec_ingest_blocks(
                        Seq::new(block_docs@.len(), |i: int| block_docs@[i].1@),
                        match config.block_register {
                            Some(reg) => reg@,
                            None => Seq::empty(),
                        },
                        config.skip_bland,
                        Seq::empty(),
                    )
                } else {
                    Ok(Seq::<crate::block::BlockModel>::empty())
                };
                let ires = if config.parse_items {
                    spec_ingest_items(
                        Seq::new(item_docs@.len(), |i: int| item_docs@[i].1@),
                        match config.item_register {
                            Some(reg) => reg@,
                            None => Seq::empty(),
                        },
                        config.skip_bland,
                        Seq::empty(),
                    )
                } else {
                    Ok(Seq::<crate::item::ItemModel>::empty())
                };
                match r {
                    Ok(p) => bres is Ok && ires is Ok && p.0@.blocks == bres->Ok_0 && p.0@.items
                        == ires->Ok_0 && p.0.wf(),
                    Err(e) => (bres is Err && e->ComponentError_0@ == bres->Err_0) || (bres is Ok
                        && ires is Err && e->ComponentError_0@ == ires->Err_0),
                }
            }),
    {
        let mut resolver = ParsedAddonResolver::new(
            folder_base,
            match config.bp_from_base {
                Some(ref s) => s.clone(),
                None => "BP".to_owned(),
            },
            match config.rp_from_base {
                Some(ref s) => s.clone(),
                None => "RP".to_owned(),
            },
        );
        let breg = match config.block_register {
            Some(reg) => reg,
            None => FormattedComponentRegister::new(),
        };
        let ireg = match config.item_register {
            Some(reg) => reg,
            None => FormattedComponentRegister::new(),
        };
        let ghost bregv = breg@;
        let ghost iregv = ireg@;
        proof {
            assert(bregv =~= (match config.block_register {
                Some(reg) => reg@,
                None => Seq::<(String, Vec<(VersionRestriction, ComponentKind)>)>::empty(),
            }));
            assert(iregv =~= (match config.item_register {
                Some(reg) => reg@,
                None => Seq::<(String, Vec<(VersionRestriction, ComponentKind)>)>::empty(),
            }));
        }
        let ghost bdocs = Seq::new(block_docs@.len(), |i: int| block_docs@[i].1@);
        let ghost idocs = Seq::new(item_docs@.len(), |i: int| item_docs@[i].1@);
        let mut addon = Addon::new();
        if config.parse_block {
            let mut i: usize = 0;
            proof {
                assert(bdocs.skip(0) =~= bdocs);
            }
            while i < block_docs.len()
                invariant
                    0 <= i <= block_docs@.len(),
                    addon@.items =~= Seq::<crate::item::ItemModel>::empty(),
                    addon.wf(),
                    spec_ingest_blocks(bdocs, bregv, config.skip_bland, Seq::empty())
                        == spec_ingest_blocks(
                        bdocs.skip(i as int),
                        bregv,
                        config.skip_bland,
                        addon@.blocks,
                    ),
                decreases block_docs@.len() - i,
            {
                proof {
                    assert(bdocs.skip(i as int)[0] == bdocs[i as int]);
                }
                let blk = match Block::from_json(&block_docs[i].1, &breg) {
                    Ok(b) => b,
                    Err(e) => {
                        proof {
                            assert(spec_ingest_blocks(
                                bdocs.skip(i as int),
                                bregv,
                                config.skip_bland,
                                addon@.blocks,
                            ) == Err::<Seq<crate::block::BlockModel>, ErrModel>(e@));
                        }
                        return Err(AddonParseError::ComponentError(e));
                    },
                };
                if !(config.skip_bland && blk.is_bland()) {
                    resolver.record_block_path(
                        blk.description.identifier.clone(),
                        block_docs[i].0.clone(),
                    );
                    proof {
                        crate::addon::lemma_block_idx_spec(
                            addon@.blocks,
                            blk@.description.identifier,
                            0,
                        );
                    }
                    addon.push_block(blk);
                }
                proof {
                    assert(bdocs.skip(i as int).drop_first() =~= bdocs.skip(i as int + 1));
                }
                i += 1;
            }
            proof {
                assert(bdocs.skip(i as int).len() == 0);
            }
        }
        if config.parse_items {
            let mut i: usize = 0;
            proof {
                assert(idocs.skip(0) =~= idocs);
            }
            while i < item_docs.len()
                invariant
                    0 <= i <= item_docs@.len(),
                    addon.wf(),
                    addon@.blocks == (if config.parse_block {
                        spec_ingest_blocks(bdocs, bregv, config.skip_bland, Seq::empty())->Ok_0
                    } else {
                        Seq::<crate::block::BlockModel>::empty()
                    }),
                    config.parse_block ==> spec_ingest_blocks(
                        bdocs,
                        bregv,
                        config.skip_bland,
                        Seq::empty(),
                    ) is Ok,
                    spec_ingest_items(idocs, iregv, config.skip_bland, Seq::empty())
                        == spec_ingest_items(
                        idocs.skip(i as int),
                        iregv,
                        config.skip_bland,
                        addon@.items,
                    ),
                decreases item_docs@.len() - i,
            {
                proof {
                    assert(idocs.skip(i as int)[0] == idocs[i as int]);
                }
                let it = match Item::from_json(&item_docs[i].1, &ireg) {
                    Ok(b) => b,
                    Err(e) => {
                        proof {
                            assert(spec_ingest_items(
                                idocs.skip(i as int),
                                iregv,
                                config.skip_bland,
                                addon@.items,
                            ) == Err::<Seq<crate::item::ItemModel>, ErrModel>(e@));
                        }
                        return Err(AddonParseError::ComponentError(e));
                    },
                };
                if !(config.skip_bland && it.is_bland()) {
                    resolver.record_item_path(
                        it.description.identifier.clone(),
                        item_docs[i].0.clone(),
                    );
                    proof {
                        crate::addon::lemma_item_idx_spec(
                            addon@.items,
                            it@.description.identifier,
                            0,
                        );
                    }
                    addon.push_item(it);
                }
                proof {
                    assert(idocs.skip(i as int).drop_first() =~= idocs.skip(i as int + 1));
                }
                i += 1;
            }
            proof {
                assert(idocs.skip(i as int).len() == 0);
            }
        }
        Ok((addon, resolver))
    }
}

} // verus!
