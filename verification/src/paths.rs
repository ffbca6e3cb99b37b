//! Output path resolution: maps entity identifiers to the locations their
//! serialized form is written to, as `/`-joined path strings.
use vstd::prelude::*;

verus! {

use vstd::string::StringExecFns;
use crate::keyed::{key_find, keyed_get, keyed_set};

/// `a/b`.
pub open spec fn spec_path_join(a: Seq<char>, b: Seq<char>) -> Seq<char> {
    a + "/"@ + b
}

fn path_join(a: &str, b: &str) -> (r: String)
    ensures
        r@ == spec_path_join(a@, b@),
{
    a.to_owned().concat("/").concat(b)
}

/// The identifier with each `:` replaced by `_`.
pub open spec fn spec_sanitize(id: Seq<char>) -> Seq<char> {
    Seq::new(
        id.len(),
        |i: int|
            if id[i] == ':' {
                '_'
            } else {
                id[i]
            },
    )
}

#[verifier::loop_isolation(false)]
fn sanitize_id(id: &str) -> (r: String)
    ensures
        r@ == spec_sanitize(id@),
{
    let n = id.unicode_len();
    let mut out = String::new();
    let mut last: usize = 0;
    let mut i: usize = 0;
    while i < n
        invariant
            0 <= last <= i <= n,
            out@ =~= spec_sanitize(id@.subrange(0, last as int)),
            forall|j: int| last <= j < i ==> id@[j] != ':',
        decreases n - i,
    {
        if id.get_char(i) == ':' {
            out.append(id.substring_char(last, i));
            out.append("_");
            proof {
                reveal_strlit("_");
                assert(out@ =~= spec_sanitize(id@.subrange(0, i + 1)));
            }
            last = i + 1;
        }
        i += 1;
    }
    out.append(id.substring_char(last, n));
    proof {
        assert(out@ =~= spec_sanitize(id@));
    }
    out
}

/// The file name an entity is written to: its sanitized identifier with
/// the `.json` extension.
pub open spec fn spec_entity_file(id: Seq<char>) -> Seq<char> {
    spec_sanitize(id) + ".json"@
}

fn entity_file(id: &str) -> (r: String)
    ensures
        r@ == spec_entity_file(id@),
{
    sanitize_id(id).concat(".json")
}

/// Resolution of output locations for an addon's entities.
pub trait AddonPathResolver {
    fn get_behaviour_base(&mut self) -> String;

    fn get_resource_base(&mut self) -> String;

    fn get_behaviour_block_base(&mut self) -> String;

    fn get_behaviour_item_base(&mut self) -> String;

    fn get_behaviour_block_output(&mut self, id: &str) -> String;

    fn get_behaviour_item_output(&mut self, id: &str) -> String;
}

/// The plain resolver: fixed `BP` and `RP` trees under an output base.
pub struct BaseResolver {
    base: String,
}

impl BaseResolver {
    pub closed spec fn spec_base(&self) -> Seq<char> {
        self.base@
    }

    pub fn new(output_base: String) -> (r: BaseResolver)
        ensures
            r.spec_base() == output_base@,
    {
        BaseResolver { base: output_base }
    }
}

impl AddonPathResolver for BaseResolver {
    fn get_behaviour_base(&mut self) -> (r: String)
        ensures
            r@ == spec_path_join(old(self).spec_base(), "BP"@),
            *final(self) == *old(self),
    {
        path_join(self.base.as_str(), "BP")
    }

    fn get_resource_base(&mut self) -> (r: String)
        ensures
            r@ == spec_path_join(old(self).spec_base(), "RP"@),
            *final(self) == *old(self),
    {
        path_join(self.base.as_str(), "RP")
    }

    fn get_behaviour_block_base(&mut self) -> (r: String)
        ensures
            r@ == spec_path_join(spec_path_join(old(self).spec_base(), "BP"@), "blocks"@),
            *final(self) == *old(self),
    {
        let b = self.get_behaviour_base();
        path_join(b.as_str(), "blocks")
    }

    fn get_behaviour_item_base(&mut self) -> (r: String)
        ensures
            r@ == spec_path_join(spec_path_join(old(self).spec_base(), "BP"@), "items"@),
            *final(self) == *old(self),
    {
        let b = self.get_behaviour_base();
        path_join(b.as_str(), "items")
    }

    fn get_behaviour_block_output(&mut self, id: &str) -> (r: String)
        ensures
            r@ == spec_path_join(
                spec_path_join(old(self).spec_base(), "BP"@),
                spec_entity_file(id@),
            ),
            *final(self) == *old(self),
    {
        let b = self.get_behaviour_base();
        path_join(b.as_str(), entity_file(id).as_str())
    }

    fn get_behaviour_item_output(&mut self, id: &str) -> (r: String)
        ensures
            r@ == spec_path_join(
                spec_path_join(old(self).spec_base(), "BP"@),
                spec_entity_file(id@),
            ),
            *final(self) == *old(self),
    {
        let b = self.get_behaviour_base();
        path_join(b.as_str(), entity_file(id).as_str())
    }
}

/// The resolver a parsed addon carries: remembers, per identifier, the
/// relative location an entity was read from, and falls back to the
/// identifier-derived file name.
pub struct ParsedAddonResolver {
    block_path_lookup: Vec<(String, String)>,
    item_path_lookup: Vec<(String, String)>,
    base: String,
    rp_from_base: String,
    bp_from_base: String,
}

impl ParsedAddonResolver {
    pub closed spec fn spec_base(&self) -> Seq<char> {
        self.base@
    }

    pub closed spec fn spec_bp(&self) -> Seq<char> {
        self.bp_from_base@
    }

    pub closed spec fn spec_rp(&self) -> Seq<char> {
        self.rp_from_base@
    }

    pub closed spec fn block_lookup(&self) -> Seq<(String, String)> {
        self.block_path_lookup@
    }

    pub closed spec fn item_lookup(&self) -> Seq<(String, String)> {
        self.item_path_lookup@
    }

    pub fn new(base: String, bp_from_base: String, rp_from_base: String) -> (r:
        ParsedAddonResolver)
        ensures
            r.spec_base() == base@,
            r.spec_bp() == bp_from_base@,
            r.spec_rp() == rp_from_base@,
            r.block_lookup() =~= Seq::<(String, String)>::empty(),
            r.item_lookup() =~= Seq::<(String, String)>::empty(),
    {
        ParsedAddonResolver {
            base,
            block_path_lookup: Vec::new(),
            item_path_lookup: Vec::new(),
            bp_from_base,
            rp_from_base,
        }
    }

    /// Remembers the relative location a block was read from.
    pub fn record_block_path(&mut self, id: String, rel: String)
        ensures
            final(self).block_lookup() == (match crate::keyed::key_idx(
                old(self).block_lookup(),
                id@,
            ) {
                Some(i) => old(self).block_lookup().update(i, (id, rel)),
                None => old(self).block_lookup().push((id, rel)),
            }),
            final(self).item_lookup() == old(self).item_lookup(),
            final(self).spec_base() == old(self).spec_base(),
            final(self).spec_bp() == old(self).spec_bp(),
            final(self).spec_rp() == old(self).spec_rp(),
    {
        proof {
            crate::keyed::lemma_key_idx_spec(self.block_path_lookup@, id@, 0);
        }
        keyed_set(&mut self.block_path_lookup, id, rel);
    }

    /// Remembers the relative location an item was read from.
    pub fn record_item_path(&mut self, id: String, rel: String)
        ensures
            final(self).item_lookup() == (match crate::keyed::key_idx(
                old(self).item_lookup(),
                id@,
            ) {
                Some(i) => old(self).item_lookup().update(i, (id, rel)),
                None => old(self).item_lookup().push((id, rel)),
            }),
            final(self).block_lookup() == old(self).block_lookup(),
            final(self).spec_base() == old(self).spec_base(),
            final(self).spec_bp() == old(self).spec_bp(),
            final(self).spec_rp() == old(self).spec_rp(),
    {
        proof {
            crate::keyed::lemma_key_idx_spec(self.item_path_lookup@, id@, 0);
        }
        keyed_set(&mut self.item_path_lookup, id, rel);
    }
}

impl AddonPathResolver for ParsedAddonResolver {
    fn get_behaviour_base(&mut self) -> (r: String)
        ensures
            r@ == spec_path_join(old(self).spec_base(), old(self).spec_bp()),
            *final(self) == *old(self),
    {
        path_join(self.base.as_str(), self.bp_from_base.as_str())
    }

    fn get_resource_base(&mut self) -> (r: String)
        ensures
            r@ == spec_path_join(old(self).spec_base(), old(self).spec_rp()),
            *final(self) == *old(self),
    {
        path_join(self.base.as_str(), self.rp_from_base.as_str())
    }

    fn get_behaviour_block_base(&mut self) -> (r: String)
        ensures
            r@ == spec_path_join(
                spec_path_join(old(self).spec_base(), old(self).spec_bp()),
                "blocks"@,
            ),
            *final(self) == *old(self),
    {
        let b = self.get_behaviour_base();
        path_join(b.as_str(), "blocks")
    }

    fn get_behaviour_item_base(&mut self) -> (r: String)
        ensures
            r@ == spec_path_join(
                spec_path_join(old(self).spec_base(), old(self).spec_bp()),
                "items"@,
            ),
            *final(self) == *old(self),
    {
        let b = self.get_behaviour_base();
        path_join(b.as_str(), "items")
    }

    /// The recorded location under the block tree, or the fallback name.
    fn get_behaviour_block_output(&mut self, id: &str) -> (r: String)
        ensures
            r@ == (match key_find(old(self).block_lookup(), id@) {
                Some(rel) => spec_path_join(
                    spec_path_join(
                        spec_path_join(old(self).spec_base(), old(self).spec_bp()),
                        "blocks"@,
                    ),
                    rel@,
                ),
                None => spec_path_join(
                    spec_path_join(old(self).spec_base(), old(self).spec_bp()),
                    spec_entity_file(id@),
                ),
            }),
            *final(self) == *old(self),
    {
        let base = self.get_behaviour_block_base();
        match keyed_get(&self.block_path_lookup, id) {
            Some(rel) => path_join(base.as_str(), rel.as_str()),
            None => {
                let b = self.get_behaviour_base();
                path_join(b.as_str(), entity_file(id).as_str())
            },
        }
    }

    /// The recorded location under the item tree, or the fallback name.
    fn get_behaviour_item_output(&mut self, id: &str) -> (r: String)
        ensures
            r@ == (match key_find(old(self).item_lookup(), id@) {
                Some(rel) => spec_path_join(
                    spec_path_join(
                        spec_path_join(old(self).spec_base(), old(self).spec_bp()),
                        "items"@,
                    ),
                    rel@,
                ),
                None => spec_path_join(
                    spec_path_join(old(self).spec_base(), old(self).spec_bp()),
                    spec_entity_file(id@),
                ),
            }),
            *final(self) == *old(self),
    {
        let base = self.get_behaviour_item_base();
        match keyed_get(&self.item_path_lookup, id) {
            Some(rel) => path_join(base.as_str(), rel.as_str()),
            None => {
                let b = self.get_behaviour_base();
                path_join(b.as_str(), entity_file(id).as_str())
            },
        }
    }
}

} // verus!
