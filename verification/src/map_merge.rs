use vstd::prelude::*;

use roead::byml::Byml;

use crate::byml_node::{byml_as_u32, byml_eq, byml_equal, byml_view, spec_as_u32};
use crate::hash_index::{HashIndex, hash_index_map, spec_deleted_key, deleted_key};
use crate::text::{parse_u32, spec_parse_u32};

verus! {

/// One object of a map-unit section (an entry of `Objs` or `Rails`).
/// `hash_id` is the object's `HashId` node when the object is a map that
/// has one, and `node` is the object itself, carried through the merge.
pub struct MapObject<T> {
    pub hash_id: Option<Byml>,
    pub node: T,
}

/// The edits that a mod makes to one section of a map unit.
/// `mods` holds the `mod` table (key text and replacement object) in the
/// order in which it is walked, `dels` the `del` list and `adds` the `add`
/// list; each is `None` where the diff has no such entry of the right kind.
pub struct SectionDiff<T> {
    pub mods: Option<Vec<(String, MapObject<T>)>>,
    pub dels: Option<Vec<Byml>>,
    pub adds: Option<Vec<MapObject<T>>>,
}

/// Why a section could not be merged.
#[derive(Debug, PartialEq, Eq)]
pub enum MergeError {
    /// A key of the `mod` table is not a decimal `u32`.
    InvalidHashKey(String),
    /// The map unit or its diff is not a map.
    NotAMap,
}

/// Whether the `del` list's node `d` counts the `HashId` node `n` equal, as
/// BYML compares nodes (`Byml::eq`).
pub open spec fn spec_nodes_match(n: Byml, d: Byml) -> bool {
    byml_equal(d, n)
}

/// Whether `n` equals some node of `dels`.
pub open spec fn spec_node_in(dels: Seq<Byml>, n: Byml) -> bool {
    exists|i: int| 0 <= i < dels.len() && spec_nodes_match(n, #[trigger] dels[i])
}

/// A node read as a `u32` integer (`Byml::as_int`): integer nodes are
/// cast with `as`, other kinds have no integer value.
pub open spec fn spec_int_key(n: Byml) -> Option<u32> {
    spec_as_u32(byml_view(n))
}

/// The integer hash of an object: its `HashId` read as a `u32`.
pub open spec fn spec_hash_key<T>(o: MapObject<T>) -> Option<u32> {
    match o.hash_id {
        Some(n) => spec_int_key(n),
        None => None,
    }
}

/// For each hash, the position of the last object of `s` that carries it.
pub open spec fn spec_key_index<T>(s: Seq<MapObject<T>>) -> Map<u32, usize>
    decreases s.len(),
{
    if s.len() == 0 {
        Map::empty()
    } else {
        let prev = spec_key_index(s.drop_last());
        match spec_hash_key(s.last()) {
            Some(h) => prev.insert(h, (s.len() - 1) as usize),
            None => prev,
        }
    }
}

/// The replacement that the `mod` table gives for hash `h`: the object of
/// the last key that reads as `h`.
pub open spec fn spec_last_mod_for<T>(mods: Seq<(String, MapObject<T>)>, h: u32) -> Option<
    MapObject<T>,
>
    decreases mods.len(),
{
    if mods.len() == 0 {
        None
    } else if spec_parse_u32(mods.last().0@) == Some(h) {
        Some(mods.last().1)
    } else {
        spec_last_mod_for(mods.drop_last(), h)
    }
}

/// Whether every key of the `mod` table reads as a `u32`.
pub open spec fn spec_mod_keys_valid<T>(mods: Seq<(String, MapObject<T>)>) -> bool {
    forall|k: int| 0 <= k < mods.len() ==> (#[trigger] spec_parse_u32(mods[k].0@)) is Some
}

/// The section after the `mod` table: the last object that carries a hash
/// named in the table is replaced by the table's object for that hash.
pub open spec fn spec_apply_mods<T>(
    base: Seq<MapObject<T>>,
    mods: Seq<(String, MapObject<T>)>,
) -> Seq<MapObject<T>> {
    let index = spec_key_index(base);
    Seq::new(
        base.len(),
        |j: int|
            match spec_hash_key(base[j]) {
                Some(h) => if index.contains_key(h) && index[h] == j && spec_last_mod_for(
                    mods,
                    h,
                ) is Some {
                    spec_last_mod_for(mods, h)->Some_0
                } else {
                    base[j]
                },
                None => base[j],
            },
    )
}

/// Whether an object stays when the `del` list is applied: it must carry a
/// `HashId` that the list does not name.
pub open spec fn spec_survives<T>(o: MapObject<T>, dels: Seq<Byml>) -> bool {
    match o.hash_id {
        Some(n) => !spec_node_in(dels, n),
        None => false,
    }
}

/// The objects of `s` that survive the `del` list, in order.
pub open spec fn spec_keep_survivors<T>(s: Seq<MapObject<T>>, dels: Seq<Byml>) -> Seq<
    MapObject<T>,
>
    decreases s.len(),
{
    if s.len() == 0 {
        Seq::empty()
    } else {
        let prev = spec_keep_survivors(s.drop_last(), dels);
        if spec_survives(s.last(), dels) {
            prev.push(s.last())
        } else {
            prev
        }
    }
}

/// Whether the hash `h` is still known to the section after the `del`
/// list: some object of the unedited section carries it and the list does
/// not name it as a `U32` node.
pub open spec fn spec_hash_known<T>(
    base: Seq<MapObject<T>>,
    dels: Option<Seq<Byml>>,
    h: u32,
) -> bool {
    &&& spec_key_index(base).contains_key(h)
    &&& match dels {
        Some(d) => !spec_deleted_key(d, h),
        None => true,
    }
}

/// The objects of `adds` that are appended: those with an integer hash the
/// section does not know.
pub open spec fn spec_new_adds<T>(
    adds: Seq<MapObject<T>>,
    base: Seq<MapObject<T>>,
    dels: Option<Seq<Byml>>,
) -> Seq<MapObject<T>>
    decreases adds.len(),
{
    if adds.len() == 0 {
        Seq::empty()
    } else {
        let prev = spec_new_adds(adds.drop_last(), base, dels);
        match spec_hash_key(adds.last()) {
            Some(h) => if spec_hash_known(base, dels, h) {
                prev
            } else {
                prev.push(adds.last())
            },
            None => prev,
        }
    }
}

/// The view of an optional vector as an optional sequence.
pub open spec fn opt_view<A>(v: Option<Vec<A>>) -> Option<Seq<A>> {
    match v {
        Some(x) => Some(x@),
        None => None,
    }
}

/// The merged section: `mod` replacements, then the `del` filter, then the
/// new `add` objects at the end.
pub open spec fn spec_merge_section<T>(base: Seq<MapObject<T>>, diff: SectionDiff<T>) -> Seq<
    MapObject<T>,
> {
    let modded = match diff.mods {
        Some(m) => spec_apply_mods(base, m@),
        None => base,
    };
    let kept = match diff.dels {
        Some(d) => spec_keep_survivors(modded, d@),
        None => modded,
    };
    match diff.adds {
        Some(a) => kept + spec_new_adds(a@, base, opt_view(diff.dels)),
        None => kept,
    }
}

/// Every hash in the index points at an object of `s` that carries it.
proof fn lemma_key_index_sound<T>(s: Seq<MapObject<T>>, h: u32)
    requires
        spec_key_index(s).contains_key(h),
        s.len() <= usize::MAX,
    ensures
        spec_key_index(s)[h] < s.len(),
        spec_hash_key(s[spec_key_index(s)[h] as int]) == Some(h),
    decreases s.len(),
{
    assert(s.len() > 0);
    let prev = s.drop_last();
    if spec_hash_key(s.last()) == Some(h) {
        assert(spec_key_index(s) == spec_key_index(prev).insert(h, (s.len() - 1) as usize));
        assert(s[s.len() - 1] == s.last());
    } else {
        assert(spec_key_index(prev).contains_key(h));
        lemma_key_index_sound(prev, h);
        let j = spec_key_index(prev)[h] as int;
        assert(spec_key_index(s)[h] == spec_key_index(prev)[h]);
        assert(0 <= j < prev.len());
        assert(s[j] == prev[j]);
    }
}

/// Whether the `del` list's node `d` counts the `HashId` node `n` equal.
pub fn nodes_match(n: &Byml, d: &Byml) -> (res: bool)
    ensures
        res == spec_nodes_match(*n, *d),
{
    byml_eq(d, n)
}

/// Whether `n` equals some node of `dels`.
pub fn node_in(dels: &Vec<Byml>, n: &Byml) -> (res: bool)
    ensures
        res == spec_node_in(dels@, *n),
{
    let mut i: usize = 0;
    while i < dels.len()
        invariant
            i <= dels.len(),
            forall|j: int| 0 <= j < i ==> !spec_nodes_match(*n, #[trigger] dels@[j]),
        decreases dels.len() - i,
    {
        if nodes_match(n, &dels[i]) {
            return true;
        }
        i = i + 1;
    }
    false
}

/// A node read as a `u32` integer.
pub fn int_key(n: &Byml) -> (res: Option<u32>)
    ensures
        res == spec_int_key(*n),
{
    byml_as_u32(n)
}

/// The integer hash of an object.
pub fn hash_key<T>(o: &MapObject<T>) -> (res: Option<u32>)
    ensures
        res == spec_hash_key(*o),
{
    match &o.hash_id {
        Some(n) => int_key(n),
        None => None,
    }
}

/// Builds the index from hash to the position of the last object that
/// carries it.
fn build_index<T>(base: &Vec<MapObject<T>>) -> (res: HashIndex)
    ensures
        hash_index_map(res) == spec_key_index(base@),
{
    let mut hashes = HashIndex::new();
    let mut i: usize = 0;
    while i < base.len()
        invariant
            i <= base.len(),
            hash_index_map(hashes) == spec_key_index(base@.take(i as int)),
        decreases base.len() - i,
    {
        assert(base@.take(i + 1).drop_last() =~= base@.take(i as int));
        if let Some(h) = hash_key(&base[i]) {
            hashes.insert(h, i);
        }
        i = i + 1;
    }
    assert(base@.take(base.len() as int) =~= base@);
    hashes
}

/// Applies one section's edits to its objects, in the order the edits are
/// applied to a map unit: the `mod` replacements, then the `del` filter,
/// then the `add` objects.  Fails when a key of the `mod` table is not a
/// decimal `u32`, naming the first such key.
pub fn merge_section<T>(base: Vec<MapObject<T>>, diff: SectionDiff<T>) -> (res: Result<
    Vec<MapObject<T>>,
    MergeError,
>)
    ensures
        match res {
            Ok(merged) => (diff.mods matches Some(m) ==> spec_mod_keys_valid(m@)) && merged@
                == spec_merge_section(base@, diff),
            Err(e) => diff.mods matches Some(m) && exists|k: int|
                0 <= k < m@.len() && spec_parse_u32(m@[k].0@) is None && (forall|j: int|
                    0 <= j < k ==> (#[trigger] spec_parse_u32(m@[j].0@)) is Some) && e
                    == MergeError::InvalidHashKey(m@[k].0),
        },
{
    let ghost base0 = base@;
    let hashes = build_index(&base);
    let base_len = base.len();
    proof {
        assert forall|h: u32| #[trigger]
            spec_key_index(base0).contains_key(h) implies spec_key_index(base0)[h] < base0.len()
                && spec_hash_key(base0[spec_key_index(base0)[h] as int]) == Some(h) by {
            lemma_key_index_sound(base0, h);
        }
    }
    let SectionDiff { mods, dels, adds } = diff;
    let mut cur = base;
    match mods {
        Some(m) => {
            let ghost ms = m@;
            let rest = m;
            assert(ms.take(0) =~= Seq::<(String, MapObject<T>)>::empty());
            assert(spec_apply_mods(base0, ms.take(0)) =~= base0);
            for entry in it: rest
                invariant
                    ms == it.seq(),
                    diff.mods matches Some(mm) && mm@ == ms,
                    cur@.len() == base0.len(),
                    hash_index_map(hashes) == spec_key_index(base0),
                    forall|h: u32| #[trigger]
                        spec_key_index(base0).contains_key(h) ==> spec_key_index(base0)[h]
                            < base0.len() && spec_hash_key(base0[spec_key_index(base0)[h] as int])
                            == Some(h),
                    forall|j: int|
                        0 <= j < it.index() ==> (#[trigger] spec_parse_u32(ms[j].0@)) is Some,
                    cur@ == spec_apply_mods(base0, ms.take(it.index() as int)),
            {
                let ghost idx = it.index();
                assert(entry == ms[idx as int]);
                let (key, obj) = entry;
                assert(ms.take(idx + 1).drop_last() =~= ms.take(idx as int));
                assert(ms.take(idx + 1).last() == (key, obj));
                match parse_u32(key.as_str()) {
                    None => {
                        assert(spec_parse_u32(ms[idx as int].0@) is None);
                        assert(0 <= idx < ms.len() && spec_parse_u32(ms[idx as int].0@) is None
                            && (forall|j: int|
                            0 <= j < idx ==> (#[trigger] spec_parse_u32(ms[j].0@)) is Some)
                            && MergeError::InvalidHashKey(key) == MergeError::InvalidHashKey(
                            ms[idx as int].0));
                        return Err(MergeError::InvalidHashKey(key));
                    },
                    Some(h) => {
                        match hashes.get(h) {
                            Some(pos) => {
                                cur.set(pos, obj);
                            },
                            None => {},
                        }
                        assert(cur@ =~= spec_apply_mods(base0, ms.take(idx + 1)));
                    },
                }
            }
            assert(ms.take(ms.len() as int) =~= ms);
        },
        None => {},
    }
    let ghost modded = cur@;
    let mut hashes = hashes;
    match &dels {
        Some(d) => {
            let mut kept: Vec<MapObject<T>> = Vec::new();
            for obj in it: cur
                invariant
                    modded == it.seq(),
                    kept@ == spec_keep_survivors(modded.take(it.index() as int), d@),
            {
                let ghost idx = it.index();
                assert(modded.take(idx + 1).drop_last() =~= modded.take(idx as int));
                let keep = match &obj.hash_id {
                    Some(n) => !node_in(d, n),
                    None => false,
                };
                if keep {
                    kept.push(obj);
                }
            }
            assert(modded.take(modded.len() as int) =~= modded);
            cur = kept;
            hashes.retain_undeleted(d);
        },
        None => {},
    }
    match adds {
        Some(a) => {
            let ghost aseq = a@;
            let ghost kept0 = cur@;
            for obj in it: a
                invariant
                    aseq == it.seq(),
                    cur@ == kept0 + spec_new_adds(aseq.take(it.index() as int), base0, opt_view(dels)),
                    forall|h: u32|
                        #[trigger] hash_index_map(hashes).contains_key(h) == spec_hash_known(
                            base0,
                            opt_view(dels),
                            h,
                        ),
            {
                let ghost idx = it.index();
                assert(aseq.take(idx + 1).drop_last() =~= aseq.take(idx as int));
                match hash_key(&obj) {
                    Some(h) => {
                        if !hashes.contains_key(h) {
                            cur.push(obj);
                        }
                    },
                    None => {},
                }
            }
            assert(aseq.take(aseq.len() as int) =~= aseq);
        },
        None => {},
    }
    Ok(cur)
}

} // verus!
