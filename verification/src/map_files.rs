use vstd::prelude::*;
use vstd::string::StrSliceExecFns;

use crate::text::{str_chars, str_eq, string_from_chars};

verus! {

broadcast use vstd::string::group_string_axioms;

/// Where the bytes of a map unit named in a mod's map log are taken from
/// before the mod's edits are applied.
#[derive(Debug, Clone, Copy, PartialEq, Eq, Structural)]
pub enum MapSource {
    /// The copy already made for the mod's root folder.
    RootCopy,
    /// The DLC dump (dynamic units when a DLC dump is present).
    AocDump,
    /// The base game dump (dynamic units without a DLC dump).
    BaseDump,
    /// The static-map pack of the dump (static units).
    StaticPack,
}

/// The position of the first `c` in `s`.
pub open spec fn spec_first_index_of(s: Seq<char>, c: char) -> Option<int>
    decreases s.len(),
{
    if s.len() == 0 {
        None
    } else if s[0] == c {
        Some(0)
    } else {
        match spec_first_index_of(s.drop_first(), c) {
            Some(i) => Some(i + 1),
            None => None,
        }
    }
}

/// The first position found by a scan from the front is the first
/// position by index, and it holds `c`.
proof fn lemma_first_index_of(s: Seq<char>, c: char, i: int)
    requires
        0 <= i <= s.len(),
        forall|j: int| 0 <= j < i ==> s[j] != c,
    ensures
        i < s.len() && s[i] == c ==> spec_first_index_of(s, c) == Some(i),
        i == s.len() ==> spec_first_index_of(s, c) is None,
    decreases i,
{
    if i > 0 {
        let rest = s.drop_first();
        assert forall|j: int| 0 <= j < i - 1 implies rest[j] != c by {
            assert(rest[j] == s[j + 1]);
        }
        lemma_first_index_of(rest, c, i - 1);
        assert(s[0] != c);
        if i < s.len() {
            assert(rest[i - 1] == s[i]);
        }
    }
}

/// A found position is in range and holds `c`.
proof fn lemma_first_index_of_found(s: Seq<char>, c: char)
    ensures
        spec_first_index_of(s, c) matches Some(i) ==> 0 <= i < s.len() && s[i] == c,
    decreases s.len(),
{
    if s.len() > 0 && s[0] != c {
        lemma_first_index_of_found(s.drop_first(), c);
    }
}

/// `s` split around its first `c`, as `str::split_once` splits it.
pub open spec fn spec_split_once(s: Seq<char>, c: char) -> Option<(Seq<char>, Seq<char>)> {
    match spec_first_index_of(s, c) {
        Some(i) => Some((s.subrange(0, i), s.subrange(i + 1, s.len() as int))),
        None => None,
    }
}

/// The canonical path of the map unit of a map section and load type.
pub open spec fn spec_map_unit_path(section: Seq<char>, load_type: Seq<char>) -> Seq<char> {
    "Map/MainField/"@ + section + "/"@ + section + "_"@ + load_type + ".smubin"@
}

/// The canonical path of the map unit that a map-log key (such as
/// `A-1_Dynamic`) names: the part before the first `_` is the map square.
pub open spec fn spec_map_diff_path(key: Seq<char>) -> Option<Seq<char>> {
    match spec_split_once(key, '_') {
        Some(parts) => Some("Map/MainField/"@ + parts.0 + "/"@ + key + ".smubin"@),
        None => None,
    }
}

/// Where a map unit's bytes come from: the root folder's copy when working
/// on an option folder that has one; else the DLC dump, the base dump or
/// the static pack by load type; `None` for an unknown load type.
pub open spec fn spec_map_source(
    is_root: bool,
    root_has_copy: bool,
    load_type: Seq<char>,
    has_aoc_dump: bool,
) -> Option<MapSource> {
    if !is_root && root_has_copy {
        Some(MapSource::RootCopy)
    } else if load_type == "Dynamic"@ {
        if has_aoc_dump {
            Some(MapSource::AocDump)
        } else {
            Some(MapSource::BaseDump)
        }
    } else if load_type == "Static"@ {
        Some(MapSource::StaticPack)
    } else {
        None
    }
}

/// The pack that holds the static map units, and takes the rebuilt ones.
pub open spec fn spec_map_pack_path(has_aoc_dump: bool) -> Seq<char> {
    if has_aoc_dump {
        "Pack/AocMainField.pack"@
    } else {
        "Pack/TitleBG.pack"@
    }
}

/// `s` split around its first `c`, as `str::split_once` splits it.
pub fn split_once(s: &str, c: char) -> (res: Option<(String, String)>)
    ensures
        match res {
            Some(parts) => spec_split_once(s@, c) == Some((parts.0@, parts.1@)),
            None => spec_split_once(s@, c) is None,
        },
{
    let chars = str_chars(s);
    let mut i: usize = 0;
    while i < chars.len()
        invariant
            chars@ == s@,
            i <= chars@.len(),
            forall|j: int| 0 <= j < i ==> chars@[j] != c,
        decreases chars.len() - i,
    {
        if chars[i] == c {
            let mut before: Vec<char> = Vec::new();
            let mut k: usize = 0;
            while k < i
                invariant
                    k <= i,
                    i < chars@.len(),
                    before@ =~= chars@.subrange(0, k as int),
                decreases i - k,
            {
                before.push(chars[k]);
                k = k + 1;
            }
            let mut after: Vec<char> = Vec::new();
            let mut k: usize = i + 1;
            while k < chars.len()
                invariant
                    i + 1 <= k <= chars@.len(),
                    after@ =~= chars@.subrange(i + 1, k as int),
                decreases chars.len() - k,
            {
                after.push(chars[k]);
                k = k + 1;
            }
            proof {
                lemma_first_index_of(s@, c, i as int);
            }
            return Some((string_from_chars(&before), string_from_chars(&after)));
        }
        i = i + 1;
    }
    proof {
        lemma_first_index_of(s@, c, s@.len() as int);
    }
    None
}

/// The canonical path of the map unit of a map section and load type:
/// `Map/MainField/<section>/<section>_<load type>.smubin`.
pub fn map_unit_path(section: &str, load_type: &str) -> (res: String)
    ensures
        res@ == spec_map_unit_path(section@, load_type@),
{
    let mut path = String::from_str("Map/MainField/");
    path.append(section);
    path.append("/");
    path.append(section);
    path.append("_");
    path.append(load_type);
    path.append(".smubin");
    path
}

/// The canonical path of the map unit that a map-log key names:
/// `Map/MainField/<square>/<key>.smubin`, where the square is the part of
/// the key before its first `_`; `None` for a key without `_`.
pub fn map_diff_path(key: &str) -> (res: Option<String>)
    ensures
        match res {
            Some(p) => spec_map_diff_path(key@) == Some(p@),
            None => spec_map_diff_path(key@) is None,
        },
{
    match split_once(key, '_') {
        Some((square, _)) => {
            let mut path = String::from_str("Map/MainField/");
            path.append(square.as_str());
            path.append("/");
            path.append(key);
            path.append(".smubin");
            Some(path)
        },
        None => None,
    }
}

/// Where a map unit's bytes come from (see `spec_map_source`).
pub fn map_source(is_root: bool, root_has_copy: bool, load_type: &str, has_aoc_dump: bool) -> (res:
    Option<MapSource>)
    ensures
        res == spec_map_source(is_root, root_has_copy, load_type@, has_aoc_dump),
{
    if !is_root && root_has_copy {
        Some(MapSource::RootCopy)
    } else if str_eq(load_type, "Dynamic") {
        if has_aoc_dump {
            Some(MapSource::AocDump)
        } else {
            Some(MapSource::BaseDump)
        }
    } else if str_eq(load_type, "Static") {
        Some(MapSource::StaticPack)
    } else {
        None
    }
}

/// The position of the last `c` in `s`.
pub open spec fn spec_last_index_of(s: Seq<char>, c: char) -> Option<int>
    decreases s.len(),
{
    if s.len() == 0 {
        None
    } else if s.last() == c {
        Some(s.len() - 1)
    } else {
        spec_last_index_of(s.drop_last(), c)
    }
}

/// Whether a map unit path names a static unit: its load type, the part
/// after its last `_` (`Static` or `Dynamic`), starts with `S`.
pub open spec fn spec_is_static(canon: Seq<char>) -> bool {
    match spec_last_index_of(canon, '_') {
        Some(i) => i + 1 < canon.len() && canon[i + 1] == 'S',
        None => false,
    }
}

/// A scan from the back that has passed no `c` finds the last `c` where a
/// scan over the rest does.
pub proof fn lemma_last_index_of(s: Seq<char>, c: char, i: int)
    requires
        0 <= i <= s.len(),
        forall|j: int| i <= j < s.len() ==> s[j] != c,
    ensures
        spec_last_index_of(s, c) == spec_last_index_of(s.subrange(0, i), c),
    decreases s.len() - i,
{
    if i < s.len() {
        lemma_last_index_of(s.drop_last(), c, i);
        assert(s.drop_last().subrange(0, i) =~= s.subrange(0, i));
    } else {
        assert(s.subrange(0, i) =~= s);
    }
}

/// Whether a map unit path names a static unit (see `spec_is_static`):
/// such as `Map/MainField/A-1/A-1_Static.smubin`.
pub fn is_static_map(canon: &str) -> (res: bool)
    ensures
        res == spec_is_static(canon@),
{
    let chars = str_chars(canon);
    let mut i: usize = chars.len();
    while i > 0
        invariant
            chars@ == canon@,
            i <= chars@.len(),
            forall|j: int| i <= j < chars@.len() ==> chars@[j] != '_',
        decreases i,
    {
        if chars[i - 1] == '_' {
            proof {
                lemma_last_index_of(canon@, '_', i as int);
                assert(canon@.subrange(0, i as int).last() == '_');
            }
            return i < chars.len() && chars[i] == 'S';
        }
        i = i - 1;
    }
    proof {
        lemma_last_index_of(canon@, '_', 0);
    }
    false
}

/// The pack that holds the static map units: the DLC's main-field pack
/// when a DLC dump is present, else the title pack.
pub fn map_pack_path(has_aoc_dump: bool) -> (res: &'static str)
    ensures
        res@ == spec_map_pack_path(has_aoc_dump),
{
    if has_aoc_dump {
        "Pack/AocMainField.pack"
    } else {
        "Pack/TitleBG.pack"
    }
}

/// The folder of the mod that receives the rebuilt map units: the DLC
/// folder when a DLC dump is present, else the base content folder.
pub fn map_unit_folder<'a>(has_aoc_dump: bool, content: &'a str, aoc: &'a str) -> (res: &'a str)
    ensures
        res@ == if has_aoc_dump {
            aoc@
        } else {
            content@
        },
{
    if has_aoc_dump {
        aoc
    } else {
        content
    }
}

/// The two ways of naming a map-log key's unit agree: splitting the key
/// into section and load type and naming the unit by them gives the path
/// that the key itself names.
pub proof fn lemma_map_paths_agree(key: Seq<char>)
    requires
        spec_split_once(key, '_') is Some,
    ensures
        spec_map_diff_path(key) == Some(
            spec_map_unit_path(
                spec_split_once(key, '_')->Some_0.0,
                spec_split_once(key, '_')->Some_0.1,
            ),
        ),
{
    let i = spec_first_index_of(key, '_')->Some_0;
    let parts = spec_split_once(key, '_')->Some_0;
    lemma_first_index_of_found(key, '_');
    assert(0 <= i < key.len() && key[i] == '_');
    assert(parts.0 == key.subrange(0, i));
    assert(parts.1 == key.subrange(i + 1, key.len() as int));
    reveal_strlit("_");
    assert(key =~= parts.0 + "_"@ + parts.1);
    assert(spec_map_unit_path(parts.0, parts.1) =~= "Map/MainField/"@ + parts.0 + "/"@ + key
        + ".smubin"@);
}

} // verus!
