use ukmm::map_files::{
    is_static_map, map_diff_path, map_pack_path, map_source, map_unit_path, split_once, MapSource,
};

#[test]
fn splits_at_first_underscore() {
    assert_eq!(
        split_once("A-1_Dynamic", '_'),
        Some(("A-1".to_string(), "Dynamic".to_string()))
    );
    assert_eq!(split_once("a_b_c", '_'), Some(("a".to_string(), "b_c".to_string())));
    assert_eq!(split_once("nounderscore", '_'), None);
}

#[test]
fn unit_paths() {
    assert_eq!(map_unit_path("A-1", "Dynamic"), "Map/MainField/A-1/A-1_Dynamic.smubin");
    assert_eq!(
        map_diff_path("J-8_Static"),
        Some("Map/MainField/J-8/J-8_Static.smubin".to_string())
    );
    assert_eq!(map_diff_path("Bad"), None);
}

#[test]
fn both_namings_agree() {
    for key in ["A-1_Dynamic", "H-4_Static", "x_y_z"] {
        let (section, load_type) = split_once(key, '_').unwrap();
        assert_eq!(Some(map_unit_path(&section, &load_type)), map_diff_path(key));
    }
}

#[test]
fn sources_by_load_type() {
    assert_eq!(map_source(false, true, "Dynamic", true), Some(MapSource::RootCopy));
    assert_eq!(map_source(false, true, "Bogus", true), Some(MapSource::RootCopy));
    assert_eq!(map_source(true, true, "Dynamic", true), Some(MapSource::AocDump));
    assert_eq!(map_source(false, false, "Dynamic", false), Some(MapSource::BaseDump));
    assert_eq!(map_source(true, false, "Static", true), Some(MapSource::StaticPack));
    assert_eq!(map_source(true, false, "Bogus", true), None);
}

#[test]
fn static_units_by_load_type() {
    assert!(is_static_map("Map/MainField/A-1/A-1_Static.smubin"));
    assert!(!is_static_map("Map/MainField/A-1/A-1_Dynamic.smubin"));
    assert!(is_static_map("Map/MainField/J-8/J-8_Static.smubin"));
    assert!(!is_static_map("Static.smubin"));
    assert!(!is_static_map("Map/MainField/A-1/A-1_"));
}

#[test]
fn pack_paths() {
    assert_eq!(map_pack_path(true), "Pack/AocMainField.pack");
    assert_eq!(map_pack_path(false), "Pack/TitleBG.pack");
}
