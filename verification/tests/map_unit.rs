use roead::byml::Byml;

type BymlMap = roead::byml::Map;
use ukmm::map_merge::MergeError;
use ukmm::map_unit::{merge_map, rebuild_map_unit};
use ukmm::platform::Endian;

fn object(hash: u32, name: &str) -> Byml {
    let mut m = BymlMap::default();
    m.insert("HashId".into(), Byml::U32(hash));
    m.insert("UnitConfigName".into(), Byml::String(name.into()));
    Byml::Map(m)
}

fn doc(objs: Vec<Byml>) -> Byml {
    let mut m = BymlMap::default();
    m.insert("Objs".into(), Byml::Array(objs));
    m.insert("Rails".into(), Byml::Array(vec![object(50, "Rail")]));
    m.insert("LocationPosX".into(), Byml::I32(3));
    Byml::Map(m)
}

fn diff(mods: Vec<(&str, Byml)>, dels: Vec<Byml>, adds: Vec<Byml>) -> Byml {
    let mut section = BymlMap::default();
    let mut mod_map = BymlMap::default();
    for (k, v) in mods {
        mod_map.insert(k.into(), v);
    }
    section.insert("mod".into(), Byml::Map(mod_map));
    section.insert("del".into(), Byml::Array(dels));
    section.insert("add".into(), Byml::Array(adds));
    let mut m = BymlMap::default();
    m.insert("Objs".into(), Byml::Map(section));
    Byml::Map(m)
}

fn names(doc: &Byml) -> Vec<String> {
    doc.as_map().unwrap()["Objs"]
        .as_array()
        .unwrap()
        .iter()
        .map(|o| o.as_map().unwrap()["UnitConfigName"].as_string().unwrap().to_string())
        .collect()
}

#[test]
fn merge_map_applies_mod_del_add() {
    let base = doc(vec![object(1, "A"), object(2, "B"), object(3, "C")]);
    let d = diff(
        vec![("2", object(2, "B2"))],
        vec![Byml::U32(3)],
        vec![object(4, "D"), object(1, "A-again")],
    );
    let merged = merge_map(base, d).unwrap();
    assert_eq!(names(&merged), vec!["A", "B2", "D"]);
    let m = merged.as_map().unwrap();
    assert_eq!(m["LocationPosX"], Byml::I32(3));
    assert_eq!(m["Rails"].as_array().unwrap().len(), 1);
}

#[test]
fn merge_map_requires_maps() {
    assert_eq!(
        merge_map(Byml::I32(1), doc(vec![])).err(),
        Some(MergeError::NotAMap)
    );
    assert_eq!(
        merge_map(doc(vec![]), Byml::Array(vec![])).err(),
        Some(MergeError::NotAMap)
    );
}

#[test]
fn merge_map_reports_bad_hash() {
    let d = diff(vec![("abc", object(1, "X"))], vec![], vec![]);
    assert_eq!(
        merge_map(doc(vec![object(1, "A")]), d).err(),
        Some(MergeError::InvalidHashKey("abc".to_string()))
    );
}

#[test]
fn rebuild_round_trips_through_binary() {
    let base = doc(vec![object(1, "A"), object(2, "B")]);
    let d = diff(vec![], vec![Byml::U32(1)], vec![object(9, "Z")]);
    let out = rebuild_map_unit(base, d, Endian::Little).unwrap();
    assert_eq!(&out[0..2], b"YB");
    let parsed = Byml::from_binary(&out).unwrap();
    assert_eq!(names(&parsed), vec!["B", "Z"]);
    let big = rebuild_map_unit(doc(vec![]), diff(vec![], vec![], vec![]), Endian::Big).unwrap();
    assert_eq!(&big[0..2], b"BY");
}

#[test]
fn rebuild_reports_merge_error() {
    let d = diff(vec![], vec![], vec![]);
    assert_eq!(
        rebuild_map_unit(Byml::Array(vec![Byml::I32(5)]), d, Endian::Big).err(),
        Some(MergeError::NotAMap)
    );
    let bad = diff(vec![("x1", object(1, "X"))], vec![], vec![]);
    assert_eq!(
        rebuild_map_unit(doc(vec![object(1, "A")]), bad, Endian::Big).err(),
        Some(MergeError::InvalidHashKey("x1".to_string()))
    );
}

#[test]
fn merge_map_example_mod_del_readd() {
    fn o(h: u32, x: i32) -> Byml {
        let mut m = BymlMap::default();
        m.insert("HashId".into(), Byml::U32(h));
        m.insert("X".into(), Byml::I32(x));
        Byml::Map(m)
    }
    let mut bm = BymlMap::default();
    bm.insert("Objs".into(), Byml::Array(vec![o(1, 0), o(2, 0)]));
    let mut section = BymlMap::default();
    let mut mods = BymlMap::default();
    mods.insert("2".into(), o(2, 5));
    section.insert("mod".into(), Byml::Map(mods));
    section.insert("del".into(), Byml::Array(vec![Byml::U32(1)]));
    section.insert("add".into(), Byml::Array(vec![o(1, 7), o(2, 9)]));
    let mut dm = BymlMap::default();
    dm.insert("Objs".into(), Byml::Map(section));
    let merged = merge_map(Byml::Map(bm), Byml::Map(dm)).unwrap();
    assert_eq!(merged.as_map().unwrap()["Objs"], Byml::Array(vec![o(2, 5), o(1, 7)]));
}

#[test]
fn merge_map_with_no_edits_keeps_the_document() {
    let base = doc(vec![object(1, "A"), object(2, "B")]);
    let merged = merge_map(base.clone(), Byml::Map(BymlMap::default())).unwrap();
    assert_eq!(merged, base);
}

fn keys(doc: &Byml) -> Vec<String> {
    let mut ks: Vec<String> = doc.as_map().unwrap().keys().map(|k| k.to_string()).collect();
    ks.sort();
    ks
}

#[test]
fn merge_map_keeps_the_map_units_keys() {
    let mut m = BymlMap::default();
    m.insert("Objs".into(), Byml::Array(vec![object(1, "A")]));
    m.insert("LocationPosZ".into(), Byml::I32(7));
    let base = Byml::Map(m);
    let mut d = diff(vec![], vec![Byml::U32(1)], vec![]);
    if let Byml::Map(dm) = &mut d {
        let rails = dm["Objs"].clone();
        dm.insert("Rails".into(), rails);
        dm.insert("Extra".into(), Byml::Bool(true));
    }
    let merged = merge_map(base, d).unwrap();
    assert_eq!(keys(&merged), vec!["LocationPosZ", "Objs"]);
    assert!(names(&merged).is_empty());
}

#[test]
fn merge_map_skips_sections_of_the_wrong_kind() {
    let mut m = BymlMap::default();
    m.insert("Objs".into(), Byml::I32(4));
    m.insert("Rails".into(), Byml::Array(vec![object(50, "Rail")]));
    let base = Byml::Map(m);
    let mut dm = BymlMap::default();
    dm.insert("Objs".into(), diff(vec![], vec![], vec![]).as_map().unwrap()["Objs"].clone());
    dm.insert("Rails".into(), Byml::Array(vec![]));
    let merged = merge_map(base, Byml::Map(dm)).unwrap();
    let mm = merged.as_map().unwrap();
    assert_eq!(mm["Objs"], Byml::I32(4));
    assert_eq!(mm["Rails"].as_array().unwrap().len(), 1);
}

#[test]
fn merge_map_deletes_a_float_hash_id() {
    let mut o = BymlMap::default();
    o.insert("HashId".into(), Byml::Float(1.5));
    let mut bm = BymlMap::default();
    bm.insert("Objs".into(), Byml::Array(vec![Byml::Map(o)]));
    let mut section = BymlMap::default();
    section.insert("del".into(), Byml::Array(vec![Byml::Float(1.5)]));
    let mut dm = BymlMap::default();
    dm.insert("Objs".into(), Byml::Map(section));
    let merged = merge_map(Byml::Map(bm), Byml::Map(dm)).unwrap();
    assert_eq!(merged.as_map().unwrap()["Objs"], Byml::Array(vec![]));
}
