use roead::sarc::{Sarc, SarcWriter};
use ukmm::map_pack::{
    file_aligns_ok, read_check, rebuild_map_pack, sarc_entries_ok, sarc_listable, static_unit,
    PackError,
};

fn pack(files: &[(&str, &[u8])]) -> Vec<u8> {
    pack_in(roead::Endian::Little, files)
}

fn pack_in(endian: roead::Endian, files: &[(&str, &[u8])]) -> Vec<u8> {
    let mut w = SarcWriter::new(endian);
    for (name, data) in files {
        w.add_file(*name, data.to_vec());
    }
    w.to_binary()
}

fn contents(bytes: &[u8]) -> Vec<(String, Vec<u8>)> {
    let sarc = Sarc::new(bytes).unwrap();
    let mut files: Vec<(String, Vec<u8>)> = sarc
        .files()
        .map(|f| (f.name.unwrap().to_string(), f.data.to_vec()))
        .collect();
    files.sort();
    files
}

const STATIC_UNIT: &str = "Map/MainField/A-1/A-1_Static.smubin";
const DYNAMIC_UNIT: &str = "Map/MainField/A-1/A-1_Dynamic.smubin";

#[test]
fn root_pack_gets_missing_dump_files_and_static_units() {
    let root = pack(&[("A", &[1]), (STATIC_UNIT, &[0])]);
    let dump = pack(&[("A", &[9]), ("B", &[2])]);
    let units = vec![
        (STATIC_UNIT.to_string(), vec![7, 7]),
        (DYNAMIC_UNIT.to_string(), vec![8]),
    ];
    let out = rebuild_map_pack(Some(&root), &dump, &units).unwrap();
    assert_eq!(
        contents(&out),
        vec![
            ("A".to_string(), vec![1]),
            (STATIC_UNIT.to_string(), vec![7, 7]),
            ("B".to_string(), vec![2]),
        ]
        .into_iter()
        .collect::<std::collections::BTreeSet<_>>()
        .into_iter()
        .collect::<Vec<_>>()
    );
}

#[test]
fn dump_pack_is_used_without_root_pack() {
    let dump = pack(&[("A", &[9])]);
    let units = vec![(STATIC_UNIT.to_string(), vec![5])];
    let out = rebuild_map_pack(None, &dump, &units).unwrap();
    let mut expected = vec![("A".to_string(), vec![9]), (STATIC_UNIT.to_string(), vec![5])];
    expected.sort();
    assert_eq!(contents(&out), expected);
}

#[test]
fn unreadable_root_pack_counts_as_none() {
    let dump = pack(&[("A", &[9])]);
    let out = rebuild_map_pack(Some(&[0u8, 1, 2, 3][..]), &dump, &vec![]).unwrap();
    assert_eq!(contents(&out), vec![("A".to_string(), vec![9])]);
}

#[test]
fn unreadable_dump_pack_is_an_error() {
    assert!(rebuild_map_pack(None, &[1u8, 2, 3], &vec![]).is_err());
}

#[test]
fn static_unit_reads_the_dump_pack() {
    let dump = pack(&[(STATIC_UNIT, &[3, 4]), ("B", &[2])]);
    assert_eq!(static_unit(&dump, STATIC_UNIT).unwrap(), Some(vec![3, 4]));
    assert_eq!(static_unit(&dump, DYNAMIC_UNIT).unwrap(), None);
    assert!(matches!(static_unit(&[1u8, 2, 3], STATIC_UNIT), Err(PackError::Read(_))));
}

#[test]
fn a_file_table_pointing_outside_the_pack_is_refused() {
    let mut dump = pack(&[("A", &[9])]);
    assert!(sarc_entries_ok(&dump));
    // the name offset of the first entry (little endian) points far past the end
    dump[0x24] = 0xFF;
    dump[0x25] = 0xFF;
    dump[0x26] = 0x7F;
    dump[0x27] = 0x01;
    assert!(!sarc_entries_ok(&dump));
    assert!(matches!(static_unit(&dump, "A"), Err(PackError::Malformed)));
    assert!(matches!(rebuild_map_pack(None, &dump, &vec![]), Err(PackError::Malformed)));
    // a malformed root pack counts as none
    let good = pack(&[("A", &[9])]);
    let out = rebuild_map_pack(Some(&dump), &good, &vec![]).unwrap();
    assert_eq!(contents(&out), vec![("A".to_string(), vec![9])]);
}

#[test]
fn a_file_asking_for_an_odd_alignment_is_unwritable() {
    let mut flim = vec![0u8; 0x40];
    let n = flim.len();
    flim[n - 0x28..n - 0x24].copy_from_slice(b"FLIM");
    flim[n - 8] = 0;
    flim[n - 7] = 0;
    assert!(!file_aligns_ok(&flim, true));
    assert!(file_aligns_ok(&flim, false));
    flim[n - 7] = 4;
    assert!(file_aligns_ok(&flim, true));
    flim[n - 7] = 0;
    let units = vec![(STATIC_UNIT.to_string(), flim)];
    // a big-endian writer reads the FLIM footer's alignment, a little-endian one does not
    let big = pack_in(roead::Endian::Big, &[("A", &[9])]);
    assert!(matches!(rebuild_map_pack(None, &big, &units), Err(PackError::Unwritable)));
    let little = pack(&[("A", &[9])]);
    assert!(rebuild_map_pack(None, &little, &units).is_ok());
}

#[test]
fn the_rebuilt_pack_keeps_the_byte_order_of_the_pack_it_starts_from() {
    let big = pack_in(roead::Endian::Big, &[("A", &[1])]);
    let little = pack(&[("B", &[2])]);
    let out = rebuild_map_pack(Some(&big), &little, &vec![]).unwrap();
    assert_eq!(&out[6..8], &[0xFE, 0xFF]);
    assert_eq!(
        contents(&out),
        vec![("A".to_string(), vec![1]), ("B".to_string(), vec![2])]
    );
    let out = rebuild_map_pack(None, &big, &vec![]).unwrap();
    assert_eq!(&out[6..8], &[0xFE, 0xFF]);
    let out = rebuild_map_pack(Some(&little), &big, &vec![]).unwrap();
    assert_eq!(&out[6..8], &[0xFF, 0xFE]);
}

#[test]
fn a_bad_data_range_only_ends_the_listing() {
    let mut dump = pack(&[("A", &[9])]);
    // the end of the first entry's data (little endian) lies past the bytes
    dump[0x2C] = 0xFF;
    dump[0x2D] = 0xFF;
    dump[0x2E] = 0x00;
    dump[0x2F] = 0x00;
    assert!(sarc_listable(&dump));
    assert!(!sarc_entries_ok(&dump));
    assert!(read_check(&dump).is_ok());
    assert!(matches!(static_unit(&dump, "A"), Err(PackError::Malformed)));
    assert!(rebuild_map_pack(None, &dump, &vec![]).is_ok());
}
