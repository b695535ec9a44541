use vstd::prelude::*;

use rustc_hash::FxHashMap;

use roead::byml::Byml;

use crate::byml_node::{make_u32_node, u32_node};
use crate::map_merge::{node_in, spec_node_in};

verus! {

/// An index from an object's integer hash to its position in a map-unit
/// section, kept in a `rustc_hash::FxHashMap`.
#[verifier::external_body]
pub struct HashIndex {
    map: FxHashMap<u32, usize>,
}

/// The entries that the index holds.
pub uninterp spec fn hash_index_map(index: HashIndex) -> Map<u32, usize>;

/// Whether the `del` list holds a node equal to the `U32` node `h`.
pub open spec fn spec_deleted_key(dels: Seq<Byml>, h: u32) -> bool {
    spec_node_in(dels, u32_node(h))
}

/// Whether the `del` list names the hash `h` as a `U32` node.
pub fn deleted_key(dels: &Vec<Byml>, h: u32) -> (res: bool)
    ensures
        res == spec_deleted_key(dels@, h),
{
    node_in(dels, &make_u32_node(h))
}

impl HashIndex {
    /// An empty index (`FxHashMap::default`).
    #[verifier::external_body]
    pub fn new() -> (index: HashIndex)
        ensures
            hash_index_map(index) =~= Map::empty(),
    {
        HashIndex { map: FxHashMap::default() }
    }

    /// `FxHashMap::insert`: maps `key` to `pos`, replacing an earlier entry.
    #[verifier::external_body]
    pub fn insert(&mut self, key: u32, pos: usize)
        ensures
            hash_index_map(*final(self)) == hash_index_map(*old(self)).insert(key, pos),
    {
        self.map.insert(key, pos);
    }

    /// `FxHashMap::get`: the position stored for `key`, if any.
    #[verifier::external_body]
    pub fn get(&self, key: u32) -> (res: Option<usize>)
        ensures
            match res {
                Some(p) => hash_index_map(*self).contains_key(key) && hash_index_map(*self)[key]
                    == p,
                None => !hash_index_map(*self).contains_key(key),
            },
    {
        self.map.get(&key).copied()
    }

    /// `FxHashMap::contains_key`.
    #[verifier::external_body]
    pub fn contains_key(&self, key: u32) -> (res: bool)
        ensures
            res == hash_index_map(*self).contains_key(key),
    {
        self.map.contains_key(&key)
    }

    /// `FxHashMap::retain`, keeping the hashes that `dels` does not name as
    /// `U32` nodes.
    #[verifier::external_body]
    pub fn retain_undeleted(&mut self, dels: &Vec<Byml>)
        ensures
            forall|k: u32| #[trigger]
                hash_index_map(*final(self)).contains_key(k) == (hash_index_map(
                    *old(self),
                ).contains_key(k) && !spec_deleted_key(dels@, k)),
    {
        self.map.retain(|hash, _pos| !deleted_key(dels, *hash));
    }
}

} // verus!
