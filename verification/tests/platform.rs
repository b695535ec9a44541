use ukmm::platform::{platform_aoc, platform_content, platform_prefixes, Endian};

#[test]
fn switch_prefixes() {
    assert_eq!(platform_content(Endian::Little), "01007EF00011E000/romfs");
    assert_eq!(platform_aoc(Endian::Little), "01007EF00011F001/romfs");
}

#[test]
fn wiiu_prefixes() {
    assert_eq!(platform_content(Endian::Big), "content");
    assert_eq!(platform_aoc(Endian::Big), "aoc/0010");
}

#[test]
fn prefixes_agree_with_single_getters() {
    for e in [Endian::Little, Endian::Big] {
        assert_eq!(platform_prefixes(e), (platform_content(e), platform_aoc(e)));
    }
}
