use ukmm::canon::canonicalize;
use ukmm::platform::{platform_aoc, Endian};

#[test]
fn canon_names() {
    assert_eq!(
        &canonicalize("content\\Actor\\Pack\\Enemy_Lizal_Senior.sbactorpack"),
        "Actor/Pack/Enemy_Lizal_Senior.bactorpack"
    );
    assert_eq!(
        &canonicalize("aoc/0010/Map/MainField/A-1/A-1_Dynamic.smubin"),
        "Aoc/0010/Map/MainField/A-1/A-1_Dynamic.mubin"
    );
    assert_eq!(
        &canonicalize(
            "atmosphere/contents/01007EF00011E000/romfs/Actor/ActorInfo.product.sbyml"
        ),
        "Actor/ActorInfo.product.byml"
    );
    assert_eq!(
        &canonicalize("atmosphere/contents/01007EF00011F001/romfs/Pack/AocMainField.pack"),
        "Aoc/0010/Pack/AocMainField.pack"
    );
    assert_eq!(
        &canonicalize("Hellow/Sweetie.tardis"),
        "Hellow/Sweetie.tardis"
    );
    assert_eq!(
        &canonicalize("Event/EventInfo.product.sbyml"),
        "Event/EventInfo.product.byml"
    )
}

#[test]
fn canon_repeated_prefix_is_trimmed_once_replaced() {
    assert_eq!(&canonicalize("romfs/romfs/Actor/A.bxml"), "Actor/A.bxml");
    assert_eq!(&canonicalize("aocaoc/x"), "Aoc/x");
}

#[test]
fn canon_switch_dlc_title_ids() {
    assert_eq!(
        &canonicalize("01007EF00011E001/romfs/Pack/AocMainField.pack"),
        "Aoc/0010/Pack/AocMainField.pack"
    );
    assert_eq!(
        &canonicalize("01007ef00011f002/romfs/Map/x.smubin"),
        "Aoc/0010/Map/x.mubin"
    );
}

#[test]
fn canon_replaces_without_overlap() {
    // ".ss" holds one ".s" followed by "s": only the first is replaced.
    assert_eq!(&canonicalize("a.ssarc"), "a.sarc");
    assert_eq!(&canonicalize("a.s.s"), "a..");
}

#[test]
fn canon_empty_and_unicode() {
    assert_eq!(&canonicalize(""), "");
    assert_eq!(&canonicalize("Übung\\Ä.sbfres"), "Übung/Ä.bfres");
}

#[test]
fn canon_has_no_backslash() {
    for p in ["a\\b\\c", "\\\\", "content\\romfs\\x.sarc"] {
        assert!(!canonicalize(p).contains('\\'));
    }
}

#[test]
fn dlc_paths_of_both_platforms_agree() {
    for rest in ["Map/MainField/A-1/A-1_Static.smubin", "Pack/AocMainField.pack", "aoc/x"] {
        let expected = canonicalize(&format!("Aoc/0010/{rest}"));
        for e in [Endian::Little, Endian::Big] {
            assert_eq!(canonicalize(&format!("{}/{}", platform_aoc(e), rest)), expected);
        }
    }
}

#[test]
fn content_folder_paths_canonicalize_like_the_bare_path() {
    for e in [ukmm::platform::Endian::Little, ukmm::platform::Endian::Big] {
        for rel in ["Actor/Pack/X.sbactorpack", "Map/MainField/A-1/A-1_Static.smubin"] {
            let full = format!("{}/{}", ukmm::platform::platform_content(e), rel);
            assert_eq!(ukmm::canon::canonicalize(&full), ukmm::canon::canonicalize(rel));
        }
    }
}

#[test]
fn dlc_folder_paths_canonicalize_under_aoc() {
    for e in [Endian::Little, Endian::Big] {
        for rel in ["Actor/Pack/X.sbactorpack", "Map/MainField/A-1/A-1_Static.smubin"] {
            let full = format!("{}/{}", platform_aoc(e), rel);
            assert_eq!(canonicalize(&full), format!("Aoc/0010/{}", canonicalize(rel)));
        }
    }
}
