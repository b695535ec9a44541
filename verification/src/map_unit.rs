use vstd::prelude::*;

use roead::byml::Byml;

use crate::byml_node::{byml_view, clone_byml, NodeView};
use crate::map_merge::{merge_section, spec_merge_section, MapObject, MergeError, SectionDiff};
use crate::platform::Endian;
use crate::text::{spec_parse_u32, str_eq};

verus! {

/// The bytes that `Byml::to_binary` writes for a document in a byte order.
pub uninterp spec fn byml_binary(doc: Byml, endian: Endian) -> Seq<u8>;

/// The node under `key` of a string-keyed map node.
pub open spec fn spec_field(obj: Byml, key: Seq<char>) -> Option<Byml> {
    match byml_view(obj) {
        NodeView::StrMap(m) => if m.contains_key(key) {
            Some(m[key])
        } else {
            None
        },
        _ => None,
    }
}

/// Whether `h` is the `HashId` node of `obj`: `None` when `obj` is not a
/// map with a `HashId`.
pub open spec fn spec_hash_id(h: Option<Byml>, obj: Byml) -> bool {
    h == spec_field(obj, "HashId"@)
}

/// The keys of a list of entries.
pub open spec fn entry_keys<V>(es: Seq<(String, V)>) -> Set<Seq<char>> {
    Set::new(|k: Seq<char>| exists|i: int| 0 <= i < es.len() && (#[trigger] es[i]).0@ == k)
}

/// Whether no key occurs twice in a list of entries.
pub open spec fn keys_distinct<V>(es: Seq<(String, V)>) -> bool {
    forall|i: int, j: int| 0 <= i < j < es.len() ==> (#[trigger] es[i]).0@ != (#[trigger] es[j]).0@
}

/// The map that a list of entries builds, a later entry of a key replacing
/// an earlier one.
pub open spec fn entries_map<V>(es: Seq<(String, V)>) -> Map<Seq<char>, V>
    decreases es.len(),
{
    if es.len() == 0 {
        Map::empty()
    } else {
        entries_map(es.drop_last()).insert(es.last().0@, es.last().1)
    }
}

/// The string-keyed map under `key` of a diff map.
pub open spec fn map_at(d: Map<Seq<char>, Byml>, key: Seq<char>) -> Option<Map<Seq<char>, Byml>> {
    if d.contains_key(key) && byml_view(d[key]) is StrMap {
        Some(byml_view(d[key])->StrMap_0)
    } else {
        None
    }
}

/// The items of the array under `key` of a map.
pub open spec fn array_at(d: Map<Seq<char>, Byml>, key: Seq<char>) -> Option<Seq<Byml>> {
    if d.contains_key(key) && byml_view(d[key]) is Array {
        Some(byml_view(d[key])->Array_0)
    } else {
        None
    }
}

/// Whether `objs` are the objects of a section's items, each with the
/// a copy of its `HashId` node.
pub open spec fn objects_of(objs: Seq<MapObject<Byml>>, items: Seq<Byml>) -> bool {
    &&& objs.len() == items.len()
    &&& forall|i: int|
        0 <= i < items.len() ==> (#[trigger] objs[i]).node == items[i] && spec_hash_id(
            objs[i].hash_id,
            items[i],
        )
}

/// Whether `ms` lists the entries of the `mod` table `m`, in some order,
/// each object with the a copy of its `HashId` node.
pub open spec fn mod_table_of(ms: Seq<(String, MapObject<Byml>)>, m: Map<Seq<char>, Byml>) -> bool {
    &&& keys_distinct(ms)
    &&& entry_keys(ms) == m.dom()
    &&& forall|i: int|
        0 <= i < ms.len() ==> m[(#[trigger] ms[i]).0@] == ms[i].1.node && spec_hash_id(
            ms[i].1.hash_id,
            ms[i].1.node,
        )
}

/// Whether `ds` are the nodes of a `del` list.
pub open spec fn dels_of(ds: Seq<Byml>, items: Seq<Byml>) -> bool {
    ds == items
}

/// Whether `sd` holds the edits of a section's diff map `d`: the `mod`
/// table when it is a map, the `del` and `add` lists when they are arrays.
pub open spec fn section_diff_of(sd: SectionDiff<Byml>, d: Map<Seq<char>, Byml>) -> bool {
    &&& match map_at(d, "mod"@) {
        Some(m) => sd.mods matches Some(ms) && mod_table_of(ms@, m),
        None => sd.mods is None,
    }
    &&& match array_at(d, "del"@) {
        Some(items) => sd.dels matches Some(ds) && dels_of(ds@, items),
        None => sd.dels is None,
    }
    &&& match array_at(d, "add"@) {
        Some(items) => sd.adds matches Some(os) && objects_of(os@, items),
        None => sd.adds is None,
    }
}

/// The nodes of a section's objects.
pub open spec fn nodes_of(objs: Seq<MapObject<Byml>>) -> Seq<Byml> {
    Seq::new(objs.len(), |i: int| objs[i].node)
}

/// Whether `out` is the section `items` merged with the section diff `d`
/// (see `spec_merge_section`), the `mod` table taken in the order in which
/// its map is walked.
pub open spec fn merged_section(items: Seq<Byml>, d: Map<Seq<char>, Byml>, out: Seq<Byml>) -> bool {
    exists|objs: Seq<MapObject<Byml>>, sd: SectionDiff<Byml>|
        objects_of(objs, items) && section_diff_of(sd, d) && out == nodes_of(
            #[trigger] spec_merge_section(objs, sd),
        )
}

/// Whether `s` is a key of the `mod` table of a section diff that is not a
/// decimal `u32`.
pub open spec fn bad_mod_key(d: Map<Seq<char>, Byml>, s: Seq<char>) -> bool {
    map_at(d, "mod"@) matches Some(m) && m.contains_key(s) && spec_parse_u32(s) is None
}

/// Whether section `key` of the map unit `b` takes the edits of the diff
/// `dm`: the diff's section is a map and the map unit's an array.
pub open spec fn section_applies(
    b: Map<Seq<char>, Byml>,
    dm: Map<Seq<char>, Byml>,
    key: Seq<char>,
) -> bool {
    map_at(dm, key) is Some && array_at(b, key) is Some
}

/// Whether section `key` is merged and its `mod` table has the bad key `s`.
pub open spec fn section_has_bad_key(
    b: Map<Seq<char>, Byml>,
    dm: Map<Seq<char>, Byml>,
    key: Seq<char>,
    s: Seq<char>,
) -> bool {
    section_applies(b, dm, key) && bad_mod_key(map_at(dm, key)->Some_0, s)
}

/// Whether the merge of `dm` into `b` succeeds: every `mod` key of a merged
/// section (`Objs`, `Rails`) is a decimal `u32`.
pub open spec fn merge_ok(b: Map<Seq<char>, Byml>, dm: Map<Seq<char>, Byml>) -> bool {
    forall|s: Seq<char>|
        !#[trigger] section_has_bad_key(b, dm, "Objs"@, s) && !section_has_bad_key(
            b,
            dm,
            "Rails"@,
            s,
        )
}

/// Whether `m` is the map unit `b` merged with the diff `dm`: the same
/// keys; `Objs` and `Rails` merged where the diff's is a map and the map
/// unit's an array; every other value kept.
pub open spec fn merged_map(
    b: Map<Seq<char>, Byml>,
    dm: Map<Seq<char>, Byml>,
    m: Map<Seq<char>, Byml>,
) -> bool {
    &&& m.dom() == b.dom()
    &&& forall|k: Seq<char>|
        #[trigger] b.contains_key(k) ==> if (k == "Objs"@ || k == "Rails"@) && section_applies(
            b,
            dm,
            k,
        ) {
            byml_view(m[k]) matches NodeView::Array(out) && merged_section(
                array_at(b, k)->Some_0,
                map_at(dm, k)->Some_0,
                out,
            )
        } else {
            m[k] == b[k]
        }
}

/// Whether `doc` is the map unit `base` merged with the diff `diff`.
pub open spec fn merged_doc(base: Byml, diff: Byml, doc: Byml) -> bool {
    &&& byml_view(base) matches NodeView::StrMap(b)
    &&& byml_view(diff) matches NodeView::StrMap(dm)
    &&& byml_view(doc) matches NodeView::StrMap(m)
    &&& merged_map(b, dm, m)
}

/// Whether the merge of `diff` into `base` succeeds: both are string-keyed
/// maps and every `mod` key of a merged section is a decimal `u32`.
pub open spec fn merge_succeeds(base: Byml, diff: Byml) -> bool {
    &&& byml_view(base) matches NodeView::StrMap(b)
    &&& byml_view(diff) matches NodeView::StrMap(dm)
    &&& merge_ok(b, dm)
}

/// Whether `e` is the error of merging `diff` into `base`: `NotAMap` when
/// either is not a string-keyed map, else a bad `mod` key of a merged
/// section.
pub open spec fn merge_error(base: Byml, diff: Byml, e: MergeError) -> bool {
    match e {
        MergeError::NotAMap => !(byml_view(base) is StrMap && byml_view(diff) is StrMap),
        MergeError::InvalidHashKey(s) => byml_view(base) matches NodeView::StrMap(b)
            && byml_view(diff) matches NodeView::StrMap(dm) && (section_has_bad_key(
            b,
            dm,
            "Objs"@,
            s@,
        ) || section_has_bad_key(b, dm, "Rails"@, s@)),
    }
}

/// Whether `i` is the position of the first entry whose key is `key`.
pub open spec fn is_first_with_key<V>(es: Seq<(String, V)>, key: Seq<char>, i: int) -> bool {
    &&& 0 <= i < es.len()
    &&& es[i].0@ == key
    &&& forall|j: int| 0 <= j < i ==> (#[trigger] es[j]).0@ != key
}

/// The value of the first entry whose key is `key`, if there is one.
pub open spec fn first_value<V>(es: Seq<(String, V)>, key: Seq<char>) -> Option<V> {
    if exists|i: int| is_first_with_key(es, key, i) {
        Some(es[choose|i: int| is_first_with_key(es, key, i)].1)
    } else {
        None
    }
}

/// The first entry of a key is the one at position `i`.
proof fn lemma_first_value_at<V>(es: Seq<(String, V)>, key: Seq<char>, i: int)
    requires
        is_first_with_key(es, key, i),
    ensures
        first_value(es, key) == Some(es[i].1),
{
    let c = choose|c: int| is_first_with_key(es, key, c);
    assert(is_first_with_key(es, key, c));
    if c < i {
        assert(es[c].0@ != key);
    } else if i < c {
        assert(es[i].0@ != key);
    }
}

/// A list without any entry of a key has no first value for it.
proof fn lemma_first_value_none<V>(es: Seq<(String, V)>, key: Seq<char>)
    requires
        forall|j: int| 0 <= j < es.len() ==> (#[trigger] es[j]).0@ != key,
    ensures
        first_value(es, key) is None,
{
    if exists|i: int| is_first_with_key(es, key, i) {
        let c = choose|c: int| is_first_with_key(es, key, c);
        assert(es[c].0@ == key);
    }
}

/// Removing an entry of another key keeps the first value of `key`.
proof fn lemma_first_value_remove<V>(es: Seq<(String, V)>, r: int, key: Seq<char>)
    requires
        0 <= r < es.len(),
        es[r].0@ != key,
    ensures
        first_value(es.remove(r), key) == first_value(es, key),
{
    let rs = es.remove(r);
    if exists|i: int| is_first_with_key(es, key, i) {
        let i = choose|i: int| is_first_with_key(es, key, i);
        let g = if i < r { i } else { i - 1 };
        assert forall|j: int| 0 <= j < g implies (#[trigger] rs[j]).0@ != key by {
            if j < r {
                assert(rs[j] == es[j]);
            } else {
                assert(rs[j] == es[j + 1]);
            }
        }
        assert(rs[g] == es[i]);
        lemma_first_value_at(es, key, i);
        lemma_first_value_at(rs, key, g);
    } else {
        assert forall|j: int| 0 <= j < rs.len() implies (#[trigger] rs[j]).0@ != key by {
            let e = if j < r { j } else { j + 1 };
            assert(rs[j] == es[e]);
            if es[e].0@ == key {
                lemma_first_exists(es, key, e);
            }
        }
        lemma_first_value_none(rs, key);
    }
}

/// A list with an entry of `key` at `e` has a first such entry.
proof fn lemma_first_exists<V>(es: Seq<(String, V)>, key: Seq<char>, e: int)
    requires
        0 <= e < es.len(),
        es[e].0@ == key,
    ensures
        exists|i: int| is_first_with_key(es, key, i),
    decreases e,
{
    if forall|j: int| 0 <= j < e ==> (#[trigger] es[j]).0@ != key {
        assert(is_first_with_key(es, key, e));
    } else {
        let j = choose|j: int| 0 <= j < e && (#[trigger] es[j]).0@ == key;
        lemma_first_exists(es, key, j);
    }
}

/// Lists with the same keys at the same positions have the same key set.
proof fn lemma_same_keys<V, W>(a: Seq<(String, V)>, b: Seq<(String, W)>)
    requires
        a.len() == b.len(),
        forall|j: int| 0 <= j < a.len() ==> (#[trigger] a[j]).0@ == b[j].0@,
    ensures
        entry_keys(a) == entry_keys(b),
{
    assert forall|k: Seq<char>| entry_keys(a).contains(k) implies entry_keys(b).contains(k) by {
        let i = choose|i: int| 0 <= i < a.len() && (#[trigger] a[i]).0@ == k;
        assert(b[i].0@ == k);
    }
    assert forall|k: Seq<char>| entry_keys(b).contains(k) implies entry_keys(a).contains(k) by {
        let i = choose|i: int| 0 <= i < b.len() && (#[trigger] b[i]).0@ == k;
        assert(a[i].0@ == k);
    }
    assert(entry_keys(a) =~= entry_keys(b));
}

/// The map of a list of entries has exactly the list's keys; with no key
/// twice, each entry's value.
proof fn lemma_entries_map<V>(es: Seq<(String, V)>)
    ensures
        entries_map(es).dom() == entry_keys(es),
        keys_distinct(es) ==> forall|i: int|
            0 <= i < es.len() ==> entries_map(es)[(#[trigger] es[i]).0@] == es[i].1,
    decreases es.len(),
{
    if es.len() > 0 {
        let p = es.drop_last();
        lemma_entries_map(p);
        assert forall|k: Seq<char>| entries_map(es).dom().contains(k) == entry_keys(es).contains(
            k,
        ) by {
            if entry_keys(es).contains(k) {
                let i = choose|i: int| 0 <= i < es.len() && (#[trigger] es[i]).0@ == k;
                if i < es.len() - 1 {
                    assert(p[i] == es[i]);
                }
            }
            if entries_map(es).dom().contains(k) && k != es.last().0@ {
                assert(entry_keys(p).contains(k));
                let i = choose|i: int| 0 <= i < p.len() && (#[trigger] p[i]).0@ == k;
                assert(es[i] == p[i]);
            }
        }
        assert(entries_map(es).dom() =~= entry_keys(es));
        if keys_distinct(es) {
            assert forall|i: int, j: int| 0 <= i < j < p.len() implies (#[trigger] p[i]).0@
                != (#[trigger] p[j]).0@ by {
                assert(p[i] == es[i] && p[j] == es[j]);
            }
            assert forall|i: int| 0 <= i < es.len() implies entries_map(es)[(
            #[trigger] es[i]).0@] == es[i].1 by {
                if i < es.len() - 1 {
                    assert(p[i] == es[i]);
                    assert(es[i].0@ != es[es.len() - 1].0@);
                }
            }
        }
    }
}

/// With no key twice, the first value of a key is its value in the map.
proof fn lemma_first_value_map<V>(es: Seq<(String, V)>, key: Seq<char>)
    requires
        keys_distinct(es),
    ensures
        first_value(es, key) == (if entries_map(es).contains_key(key) {
            Some(entries_map(es)[key])
        } else {
            None
        }),
{
    lemma_entries_map(es);
    if entry_keys(es).contains(key) {
        let i = choose|i: int| 0 <= i < es.len() && (#[trigger] es[i]).0@ == key;
        assert forall|j: int| 0 <= j < i implies (#[trigger] es[j]).0@ != key by {
            assert(es[j].0@ != es[i].0@);
        }
        assert(is_first_with_key(es, key, i));
        lemma_first_value_at(es, key, i);
    } else {
        assert forall|j: int| 0 <= j < es.len() implies (#[trigger] es[j]).0@ != key by {
            if es[j].0@ == key {
                assert(entry_keys(es).contains(key));
            }
        }
        lemma_first_value_none(es, key);
    }
}

/// `Byml::as_map` and the map's `get(key)`: the node under `key` when the
/// node is a string-keyed map that has it.
#[verifier::external_body]
fn map_field<'a>(obj: &'a Byml, key: &str) -> (res: Option<&'a Byml>)
    ensures
        match res {
            Some(r) => spec_field(*obj, key@) == Some(*r),
            None => spec_field(*obj, key@) is None,
        },
{
    match obj.as_map() {
        Ok(m) => m.get(key),
        Err(_) => None,
    }
}

/// A copy of an object's `HashId` node, when it has one.
fn hash_id_of(obj: &Byml) -> (res: Option<Byml>)
    ensures
        spec_hash_id(res, *obj),
{
    match map_field(obj, "HashId") {
        Some(n) => Some(clone_byml(n)),
        None => None,
    }
}

/// `Byml::into_map`: the entries of a string-keyed map node, in the order
/// the map is walked (not stated); `None` when the node is not such a map.
#[verifier::external_body]
fn map_entries(node: Byml) -> (res: Option<Vec<(String, Byml)>>)
    ensures
        match res {
            Some(es) => keys_distinct(es@) && byml_view(node) == NodeView::StrMap(entries_map(es@)),
            None => !(byml_view(node) is StrMap),
        },
{
    match node.into_map() {
        Ok(m) => Some(m.into_iter().map(|(k, v)| (k.to_string(), v)).collect()),
        Err(_) => None,
    }
}

/// A string-keyed map node holding `entries` (`Byml::Map`), a later entry
/// of a key replacing an earlier one.
#[verifier::external_body]
fn map_from_entries(entries: Vec<(String, Byml)>) -> (res: Byml)
    ensures
        byml_view(res) == NodeView::StrMap(entries_map(entries@)),
{
    Byml::Map(entries.into_iter().map(|(k, v)| (k.into(), v)).collect())
}

/// The items of an array node; the node itself, given back, when it is not
/// an array.
#[verifier::external_body]
fn array_items(node: Byml) -> (res: Result<Vec<Byml>, Byml>)
    ensures
        match res {
            Ok(items) => byml_view(node) == NodeView::Array(items@),
            Err(n) => n == node && !(byml_view(node) is Array),
        },
{
    match node {
        Byml::Array(items) => Ok(items),
        other => Err(other),
    }
}

/// An array node holding `items` (`Byml::Array`).
#[verifier::external_body]
fn array_from_items(items: Vec<Byml>) -> (res: Byml)
    ensures
        byml_view(res) == NodeView::Array(items@),
{
    Byml::Array(items)
}

/// `Byml::to_binary`: writes a document in the given byte order.  It
/// panics on a root that is not a container, which `requires` leaves out.
#[verifier::external_body]
fn byml_to_binary(doc: &Byml, endian: Endian) -> (res: Vec<u8>)
    requires
        byml_view(*doc) is StrMap || byml_view(*doc) is Array,
    ensures
        res@ == byml_binary(*doc, endian),
{
    doc.to_binary(
        match endian {
            Endian::Little => roead::Endian::Little,
            Endian::Big => roead::Endian::Big,
        },
    )
}

/// The position of the first entry whose key is `key`.
pub fn find_entry<V>(entries: &Vec<(String, V)>, key: &str) -> (res: Option<usize>)
    ensures
        match res {
            Some(i) => i < entries@.len() && entries@[i as int].0@ == key@ && forall|j: int|
                0 <= j < i ==> (#[trigger] entries@[j]).0@ != key@,
            None => forall|j: int| 0 <= j < entries@.len() ==> (#[trigger] entries@[j]).0@ != key@,
        },
{
    let mut i: usize = 0;
    while i < entries.len()
        invariant
            i <= entries@.len(),
            forall|j: int| 0 <= j < i ==> (#[trigger] entries@[j]).0@ != key@,
        decreases entries.len() - i,
    {
        if str_eq(entries[i].0.as_str(), key) {
            return Some(i);
        }
        i = i + 1;
    }
    None
}

/// Removes the first entry whose key is `key` and gives its value.
pub fn remove_entry<V>(entries: &mut Vec<(String, V)>, key: &str) -> (res: Option<V>)
    ensures
        match res {
            Some(v) => exists|i: int|
                is_first_with_key(old(entries)@, key@, i) && old(entries)@[i].1 == v
                    && final(entries)@ == old(entries)@.remove(i),
            None => final(entries)@ == old(entries)@ && forall|j: int|
                0 <= j < old(entries)@.len() ==> (#[trigger] old(entries)@[j]).0@ != key@,
        },
{
    match find_entry(entries, key) {
        Some(i) => {
            let (_, v) = entries.remove(i);
            Some(v)
        },
        None => None,
    }
}

/// The objects of a section, each with the a copy of its `HashId` node.
fn to_objects(items: Vec<Byml>) -> (res: Vec<MapObject<Byml>>)
    ensures
        objects_of(res@, items@),
{
    let ghost src = items@;
    let mut out: Vec<MapObject<Byml>> = Vec::new();
    for item in it: items
        invariant
            src == it.seq(),
            out@.len() == it.index(),
            forall|i: int|
                0 <= i < it.index() ==> (#[trigger] out@[i]).node == src[i] && spec_hash_id(
                    out@[i].hash_id,
                    src[i],
                ),
    {
        let hash_id = hash_id_of(&item);
        out.push(MapObject { hash_id, node: item });
    }
    out
}

/// The nodes of a section's objects, in order.
fn from_objects(objs: Vec<MapObject<Byml>>) -> (res: Vec<Byml>)
    ensures
        res@ == nodes_of(objs@),
{
    let ghost src = objs@;
    let mut out: Vec<Byml> = Vec::new();
    for obj in it: objs
        invariant
            src == it.seq(),
            out@.len() == it.index(),
            forall|i: int| 0 <= i < it.index() ==> out@[i] == (#[trigger] src[i]).node,
    {
        out.push(obj.node);
    }
    assert(out@ =~= nodes_of(src));
    out
}

/// The `mod` table of a section diff: each key with its object.
fn to_mod_entries(entries: Vec<(String, Byml)>) -> (res: Vec<(String, MapObject<Byml>)>)
    ensures
        res@.len() == entries@.len(),
        forall|i: int|
            0 <= i < entries@.len() ==> (#[trigger] res@[i]).0 == entries@[i].0 && res@[i].1.node
                == entries@[i].1 && spec_hash_id(res@[i].1.hash_id, res@[i].1.node),
{
    let ghost src = entries@;
    let mut out: Vec<(String, MapObject<Byml>)> = Vec::new();
    for entry in it: entries
        invariant
            src == it.seq(),
            out@.len() == it.index(),
            forall|i: int|
                0 <= i < it.index() ==> (#[trigger] out@[i]).0 == src[i].0 && out@[i].1.node
                    == src[i].1 && spec_hash_id(out@[i].1.hash_id, out@[i].1.node),
    {
        let (key, node) = entry;
        let hash_id = hash_id_of(&node);
        out.push((key, MapObject { hash_id, node }));
    }
    out
}

/// Reads the edits of one section from the entries of its diff map: the
/// `mod` table when it is a map, the `del` and `add` lists when they are
/// arrays.
fn section_diff(entries: Vec<(String, Byml)>) -> (res: SectionDiff<Byml>)
    requires
        keys_distinct(entries@),
    ensures
        section_diff_of(res, entries_map(entries@)),
{
    proof {
        reveal_strlit("mod");
        reveal_strlit("del");
        reveal_strlit("add");
        assert("mod"@[0] != "del"@[0] && "mod"@[0] != "add"@[0] && "del"@[0] != "add"@[0]);
    }
    let ghost e0 = entries@;
    let ghost d = entries_map(e0);
    proof {
        lemma_first_value_map(e0, "mod"@);
        lemma_first_value_map(e0, "del"@);
        lemma_first_value_map(e0, "add"@);
    }
    let mut entries = entries;
    let mods = match remove_entry(&mut entries, "mod") {
        Some(m) => {
            proof {
                let i = choose|i: int|
                    is_first_with_key(e0, "mod"@, i) && e0[i].1 == m && entries@ == e0.remove(i);
                lemma_first_value_at(e0, "mod"@, i);
                lemma_first_value_remove(e0, i, "del"@);
                lemma_first_value_remove(e0, i, "add"@);
            }
            match map_entries(m) {
                Some(es) => {
                    let ghost esv = es@;
                    let table = to_mod_entries(es);
                    proof {
                        lemma_same_keys(table@, esv);
                        lemma_entries_map(esv);
                        assert forall|i: int, j: int| 0 <= i < j < table@.len() implies (
                        #[trigger] table@[i]).0@ != (#[trigger] table@[j]).0@ by {
                            assert(esv[i].0@ != esv[j].0@);
                        }
                        assert forall|i: int| 0 <= i < table@.len() implies entries_map(esv)[(
                        #[trigger] table@[i]).0@] == table@[i].1.node && spec_hash_id(
                            table@[i].1.hash_id,
                            table@[i].1.node,
                        ) by {
                            assert(entries_map(esv)[esv[i].0@] == esv[i].1);
                        }
                        assert(mod_table_of(table@, entries_map(esv)));
                    }
                    Some(table)
                },
                None => None,
            }
        },
        None => {
            proof {
                lemma_first_value_none(e0, "mod"@);
            }
            None
        },
    };
    let ghost e1 = entries@;
    let dels = match remove_entry(&mut entries, "del") {
        Some(dl) => {
            proof {
                let i = choose|i: int|
                    is_first_with_key(e1, "del"@, i) && e1[i].1 == dl && entries@ == e1.remove(i);
                lemma_first_value_at(e1, "del"@, i);
                lemma_first_value_remove(e1, i, "add"@);
            }
            match array_items(dl) {
                Ok(items) => Some(items),
                Err(_) => None,
            }
        },
        None => {
            proof {
                lemma_first_value_none(e1, "del"@);
            }
            None
        },
    };
    let ghost e2 = entries@;
    let adds = match remove_entry(&mut entries, "add") {
        Some(a) => {
            proof {
                let i = choose|i: int|
                    is_first_with_key(e2, "add"@, i) && e2[i].1 == a && entries@ == e2.remove(i);
                lemma_first_value_at(e2, "add"@, i);
            }
            match array_items(a) {
                Ok(items) => Some(to_objects(items)),
                Err(_) => None,
            }
        },
        None => {
            proof {
                lemma_first_value_none(e2, "add"@);
            }
            None
        },
    };
    SectionDiff { mods, dels, adds }
}

/// The map of a diff node, when it is a string-keyed map.
pub open spec fn opt_map(d: Option<Byml>) -> Option<Map<Seq<char>, Byml>> {
    match d {
        Some(n) => if byml_view(n) is StrMap {
            Some(byml_view(n)->StrMap_0)
        } else {
            None
        },
        None => None,
    }
}

/// Whether the entry `new` is the entry `old` after the section diff `d` is
/// merged into the map unit's section `key`: the array of that section is
/// merged when `d` is a map; any other entry stays.
pub open spec fn entry_merged(
    old: (String, Byml),
    new: (String, Byml),
    key: Seq<char>,
    d: Option<Map<Seq<char>, Byml>>,
) -> bool {
    &&& new.0 == old.0
    &&& if old.0@ == key && d is Some && byml_view(old.1) is Array {
        byml_view(new.1) matches NodeView::Array(out) && merged_section(
            byml_view(old.1)->Array_0,
            d->Some_0,
            out,
        )
    } else {
        new == old
    }
}

/// Whether merging the section diff `d` into section `key` of the map
/// unit's entries `es` meets the bad `mod` key `s`.
pub open spec fn field_bad_key(
    es: Seq<(String, Byml)>,
    key: Seq<char>,
    d: Option<Map<Seq<char>, Byml>>,
    s: Seq<char>,
) -> bool {
    &&& d matches Some(dm)
    &&& entries_map(es).contains_key(key)
    &&& byml_view(entries_map(es)[key]) is Array
    &&& bad_mod_key(d->Some_0, s)
}

/// Merges one section (`Objs` or `Rails`) of a map unit in place: when the
/// diff for it is a map and the map unit's field is an array, the array is
/// replaced by the merged objects.
fn merge_field(base: &mut Vec<(String, Byml)>, key: &str, diff: Option<Byml>) -> (res: Result<
    (),
    MergeError,
>)
    requires
        keys_distinct(old(base)@),
    ensures
        match res {
            Ok(()) => final(base)@.len() == old(base)@.len() && (forall|j: int|
                0 <= j < old(base)@.len() ==> entry_merged(
                    old(base)@[j],
                    #[trigger] final(base)@[j],
                    key@,
                    opt_map(diff),
                )) && forall|s: Seq<char>| !#[trigger] field_bad_key(old(base)@, key@, opt_map(diff), s),
            Err(e) => e matches MergeError::InvalidHashKey(s) && field_bad_key(
                old(base)@,
                key@,
                opt_map(diff),
                s@,
            ),
        },
{
    let ghost b0 = base@;
    proof {
        lemma_entries_map(b0);
    }
    let diff_entries = match diff {
        Some(d) => match map_entries(d) {
            Some(es) => es,
            None => return Ok(()),
        },
        None => return Ok(()),
    };
    let ghost dm = entries_map(diff_entries@);
    let idx = match find_entry(base, key) {
        Some(i) => i,
        None => {
            proof {
                assert(!entry_keys(b0).contains(key@));
            }
            return Ok(());
        },
    };
    proof {
        assert(entries_map(b0)[b0[idx as int].0@] == b0[idx as int].1);
        assert forall|j: int| 0 <= j < b0.len() && j != idx implies b0[j].0@ != key@ by {
            if j < idx {
            } else {
                assert(b0[idx as int].0@ != b0[j].0@);
            }
        }
    }
    let (name, field) = base.remove(idx);
    match array_items(field) {
        Err(field) => {
            base.insert(idx, (name, field));
            assert(base@ =~= b0);
            Ok(())
        },
        Ok(items) => {
            let ghost iv = items@;
            let objs = to_objects(items);
            let sd = section_diff(diff_entries);
            let ghost ov = objs@;
            let ghost sdv = sd;
            let merged = match merge_section(objs, sd) {
                Ok(m) => m,
                Err(e) => {
                    proof {
                        let ms = sdv.mods->Some_0@;
                        let k = choose|k: int|
                            0 <= k < ms.len() && spec_parse_u32(ms[k].0@) is None && (forall|j: int|
                                0 <= j < k ==> (#[trigger] spec_parse_u32(ms[j].0@)) is Some) && e
                                == MergeError::InvalidHashKey(ms[k].0);
                        assert(entry_keys(ms).contains(ms[k].0@));
                    }
                    return Err(e);
                },
            };
            proof {
                assert forall|s: Seq<char>| !#[trigger] field_bad_key(b0, key@, Some(dm), s) by {
                    if bad_mod_key(dm, s) {
                        let ms = sdv.mods->Some_0@;
                        assert(entry_keys(ms).contains(s));
                        let k = choose|k: int| 0 <= k < ms.len() && (#[trigger] ms[k]).0@ == s;
                        assert(spec_parse_u32(ms[k].0@) is Some);
                    }
                }
            }
            let nodes = from_objects(merged);
            let node = array_from_items(nodes);
            proof {
                assert(merged_section(iv, dm, nodes_of(spec_merge_section(ov, sdv))));
            }
            let ghost new_entry = (name, node);
            base.insert(idx, (name, node));
            assert(base@ =~= b0.update(idx as int, new_entry));
            Ok(())
        },
    }
}

/// The entries of the merged map unit (see `merge_map`).
fn merge_map_entries(base: Byml, diff: Byml) -> (res: Result<Vec<(String, Byml)>, MergeError>)
    ensures
        match res {
            Ok(es) => merge_succeeds(base, diff) && merged_map(
                byml_view(base)->StrMap_0,
                byml_view(diff)->StrMap_0,
                entries_map(es@),
            ),
            Err(e) => merge_error(base, diff, e),
        },
{
    let mut diff_entries = match map_entries(diff) {
        Some(es) => es,
        None => return Err(MergeError::NotAMap),
    };
    let mut base_entries = match map_entries(base) {
        Some(es) => es,
        None => return Err(MergeError::NotAMap),
    };
    let ghost d0 = diff_entries@;
    let ghost b0 = base_entries@;
    let ghost dm = entries_map(d0);
    let ghost b = entries_map(b0);
    proof {
        reveal_strlit("Objs");
        reveal_strlit("Rails");
        assert("Objs"@[0] != "Rails"@[0]);
        lemma_first_value_map(d0, "Objs"@);
        lemma_first_value_map(d0, "Rails"@);
        lemma_entries_map(b0);
    }
    let objs = remove_entry(&mut diff_entries, "Objs");
    let ghost d1 = diff_entries@;
    proof {
        if objs is Some {
            let i = choose|i: int|
                is_first_with_key(d0, "Objs"@, i) && d0[i].1 == objs->Some_0 && diff_entries@
                    == d0.remove(i);
            lemma_first_value_at(d0, "Objs"@, i);
            lemma_first_value_remove(d0, i, "Rails"@);
        } else {
            lemma_first_value_none(d0, "Objs"@);
        }
        assert(opt_map(objs) == map_at(dm, "Objs"@));
    }
    match merge_field(&mut base_entries, "Objs", objs) {
        Ok(()) => {},
        Err(e) => {
            return Err(e);
        },
    }
    let ghost b1 = base_entries@;
    proof {
        lemma_same_keys(b0, b1);
        assert forall|i: int, j: int| 0 <= i < j < b1.len() implies (#[trigger] b1[i]).0@ != (
        #[trigger] b1[j]).0@ by {
            assert(entry_merged(b0[i], b1[i], "Objs"@, map_at(dm, "Objs"@)));
            assert(entry_merged(b0[j], b1[j], "Objs"@, map_at(dm, "Objs"@)));
            assert(b0[i].0@ != b0[j].0@);
        }
        lemma_entries_map(b1);
        assert forall|k: Seq<char>| k != "Objs"@ && #[trigger] b.contains_key(k) implies entries_map(
            b1,
        ).contains_key(k) && entries_map(b1)[k] == b[k] by {
            let j = choose|j: int| 0 <= j < b0.len() && (#[trigger] b0[j]).0@ == k;
            assert(entry_merged(b0[j], b1[j], "Objs"@, map_at(dm, "Objs"@)));
        }
    }
    let rails = remove_entry(&mut diff_entries, "Rails");
    proof {
        if rails is Some {
            let i = choose|i: int|
                is_first_with_key(d1, "Rails"@, i) && d1[i].1 == rails->Some_0 && diff_entries@
                    == d1.remove(i);
            lemma_first_value_at(d1, "Rails"@, i);
        } else {
            lemma_first_value_none(d1, "Rails"@);
        }
        assert(opt_map(rails) == map_at(dm, "Rails"@));
    }
    match merge_field(&mut base_entries, "Rails", rails) {
        Ok(()) => {},
        Err(e) => {
            proof {
                let s = e->InvalidHashKey_0@;
                assert(field_bad_key(b1, "Rails"@, map_at(dm, "Rails"@), s));
                assert(section_has_bad_key(b, dm, "Rails"@, s));
            }
            return Err(e);
        },
    }
    let ghost b2 = base_entries@;
    proof {
        lemma_same_keys(b1, b2);
        lemma_entries_map(b2);
        assert(entries_map(b2).dom() =~= b.dom());
        assert forall|k: Seq<char>| #[trigger] b.contains_key(k) implies if (k == "Objs"@ || k
            == "Rails"@) && section_applies(b, dm, k) {
            byml_view(entries_map(b2)[k]) matches NodeView::Array(out) && merged_section(
                array_at(b, k)->Some_0,
                map_at(dm, k)->Some_0,
                out,
            )
        } else {
            entries_map(b2)[k] == b[k]
        } by {
            let j = choose|j: int| 0 <= j < b0.len() && (#[trigger] b0[j]).0@ == k;
            assert(entry_merged(b0[j], b1[j], "Objs"@, map_at(dm, "Objs"@)));
            assert(entry_merged(b1[j], b2[j], "Rails"@, map_at(dm, "Rails"@)));
            assert(b[k] == b0[j].1);
            assert(entries_map(b2)[b2[j].0@] == b2[j].1);
        }
        assert forall|s: Seq<char>| !#[trigger] section_has_bad_key(b, dm, "Objs"@, s)
            && !section_has_bad_key(b, dm, "Rails"@, s) by {
            assert(!field_bad_key(b0, "Objs"@, map_at(dm, "Objs"@), s));
            assert(!field_bad_key(b1, "Rails"@, map_at(dm, "Rails"@), s));
        }
    }
    Ok(base_entries)
}

/// Applies a map unit's diff to the map unit: the `Objs` and the `Rails`
/// sections each get their `mod`, `del` and `add` edits (see
/// `merged_doc`).  Fails when either document is not a map, or when a
/// `mod` key of a merged section is not a decimal `u32`.
pub fn merge_map(base: Byml, diff: Byml) -> (res: Result<Byml, MergeError>)
    ensures
        res is Ok <==> merge_succeeds(base, diff),
        match res {
            Ok(doc) => merged_doc(base, diff, doc),
            Err(e) => merge_error(base, diff, e),
        },
{
    match merge_map_entries(base, diff) {
        Ok(entries) => Ok(map_from_entries(entries)),
        Err(e) => Err(e),
    }
}

/// Rebuilds a map unit from its document and its diff, and writes it in
/// the platform's byte order.
pub fn rebuild_map_unit(base: Byml, diff: Byml, endian: Endian) -> (res: Result<
    Vec<u8>,
    MergeError,
>)
    ensures
        res is Ok <==> merge_succeeds(base, diff),
        match res {
            Ok(bytes) => exists|doc: Byml|
                merged_doc(base, diff, doc) && bytes@ == #[trigger] byml_binary(doc, endian),
            Err(e) => merge_error(base, diff, e),
        },
{
    match merge_map(base, diff) {
        Ok(doc) => {
            let bytes = byml_to_binary(&doc, endian);
            Ok(bytes)
        },
        Err(e) => Err(e),
    }
}

} // verus!
