use roead::byml::Byml;
use ukmm::map_merge::{merge_section, MapObject, MergeError, SectionDiff};

fn obj(hash: Option<Byml>, tag: u32) -> MapObject<u32> {
    MapObject { hash_id: hash, node: tag }
}

fn u(h: u32, tag: u32) -> MapObject<u32> {
    obj(Some(Byml::U32(h)), tag)
}

fn tags(v: &[MapObject<u32>]) -> Vec<u32> {
    v.iter().map(|o| o.node).collect()
}

fn no_diff() -> SectionDiff<u32> {
    SectionDiff { mods: None, dels: None, adds: None }
}

#[test]
fn empty_diff_keeps_section() {
    let base = vec![u(1, 10), obj(None, 11), u(2, 12)];
    let merged = merge_section(base, no_diff()).unwrap();
    assert_eq!(tags(&merged), vec![10, 11, 12]);
}

#[test]
fn mods_replace_last_object_with_hash() {
    let base = vec![u(7, 1), u(8, 2), u(7, 3)];
    let diff = SectionDiff {
        mods: Some(vec![("7".to_string(), u(7, 100)), ("99".to_string(), u(99, 200))]),
        dels: None,
        adds: None,
    };
    let merged = merge_section(base, diff).unwrap();
    assert_eq!(tags(&merged), vec![1, 2, 100]);
}

#[test]
fn later_mod_key_for_same_hash_wins() {
    let base = vec![u(5, 1)];
    let diff = SectionDiff {
        mods: Some(vec![("5".to_string(), u(5, 10)), ("+05".to_string(), u(5, 20))]),
        dels: None,
        adds: None,
    };
    assert_eq!(tags(&merge_section(base, diff).unwrap()), vec![20]);
}

#[test]
fn bad_mod_key_is_an_error() {
    let base = vec![u(5, 1)];
    let diff = SectionDiff {
        mods: Some(vec![
            ("5".to_string(), u(5, 10)),
            ("x5".to_string(), u(5, 20)),
            ("-1".to_string(), u(5, 30)),
        ]),
        dels: None,
        adds: None,
    };
    assert_eq!(
        merge_section(base, diff).err(),
        Some(MergeError::InvalidHashKey("x5".to_string()))
    );
    let too_big = SectionDiff {
        mods: Some(vec![("4294967296".to_string(), u(1, 1))]),
        dels: None,
        adds: None,
    };
    assert!(merge_section(vec![], too_big).is_err());
}

#[test]
fn dels_remove_equal_and_hashless_objects() {
    let base = vec![
        u(1, 10),
        obj(Some(Byml::I32(2)), 11),
        obj(None, 12),
        u(3, 13),
        obj(Some(Byml::Float(1.5)), 14),
    ];
    let diff = SectionDiff {
        mods: None,
        dels: Some(vec![Byml::U32(1), Byml::I32(2), Byml::Float(1.5)]),
        adds: None,
    };
    assert_eq!(tags(&merge_section(base, diff).unwrap()), vec![13]);
}

#[test]
fn adds_append_unknown_hashes_only() {
    let base = vec![u(1, 10), u(2, 11)];
    let diff = SectionDiff {
        mods: None,
        dels: Some(vec![Byml::U32(2)]),
        adds: Some(vec![
            u(1, 20),
            u(2, 21),
            u(3, 22),
            obj(None, 23),
            obj(Some(Byml::String("4".into())), 24),
            obj(Some(Byml::I64(-1)), 25),
        ]),
    };
    // hash 1 is still known; 2 was deleted as a U32 node; 3 is new; the
    // hash-less and the text-hashed objects are dropped; -1 reads as u32::MAX
    assert_eq!(tags(&merge_section(base, diff).unwrap()), vec![10, 21, 22, 25]);
}

#[test]
fn integer_kinds_of_one_value_share_a_hash() {
    let base = vec![obj(Some(Byml::I64(4)), 1)];
    let diff = SectionDiff {
        mods: Some(vec![("4".to_string(), u(4, 9))]),
        dels: None,
        adds: Some(vec![obj(Some(Byml::U64(4)), 2)]),
    };
    assert_eq!(tags(&merge_section(base, diff).unwrap()), vec![9]);
}

#[test]
fn text_and_binary_hash_ids_compare_by_content() {
    let base = vec![
        obj(Some(Byml::String("a".into())), 1),
        obj(Some(Byml::BinaryData(vec![1, 2])), 2),
        obj(Some(Byml::FileData(vec![1, 2])), 3),
        obj(Some(Byml::Bool(true)), 4),
        obj(Some(Byml::Null), 5),
        obj(Some(Byml::U64(9)), 6),
    ];
    let diff = SectionDiff {
        mods: None,
        dels: Some(vec![
            Byml::String("a".into()),
            Byml::BinaryData(vec![1, 2]),
            Byml::Null,
            Byml::U64(9),
        ]),
        adds: None,
    };
    assert_eq!(tags(&merge_section(base, diff).unwrap()), vec![3, 4]);
}

#[test]
fn dels_compare_floats_and_containers_as_byml_does() {
    let base = vec![
        obj(Some(Byml::Float(1.5)), 1),
        obj(Some(Byml::Double(2.0)), 2),
        obj(Some(Byml::Array(vec![Byml::U32(1)])), 3),
        obj(Some(Byml::Array(vec![Byml::U32(2)])), 4),
        obj(Some(Byml::Float(9.0)), 5),
    ];
    let diff = SectionDiff {
        mods: None,
        dels: Some(vec![
            Byml::Float(1.5),
            Byml::Double(2.0),
            Byml::Array(vec![Byml::U32(1)]),
        ]),
        adds: None,
    };
    assert_eq!(tags(&merge_section(base, diff).unwrap()), vec![4, 5]);
}
