use vstd::prelude::*;

verus! {

/// Byte order of the platform a game dump targets: little-endian for the
/// Switch, big-endian for the Wii U.
#[derive(Debug, Clone, Copy, PartialEq, Eq, Hash)]
pub enum Endian {
    Little,
    Big,
}

/// Directory that holds the base game's content on the given platform.
pub open spec fn spec_platform_content(endian: Endian) -> Seq<char> {
    match endian {
        Endian::Little => "01007EF00011E000/romfs"@,
        Endian::Big => "content"@,
    }
}

/// Directory that holds the DLC content on the given platform.
pub open spec fn spec_platform_aoc(endian: Endian) -> Seq<char> {
    match endian {
        Endian::Little => "01007EF00011F001/romfs"@,
        Endian::Big => "aoc/0010"@,
    }
}

/// The base game's content directory for the platform.
pub fn platform_content(endian: Endian) -> (res: &'static str)
    ensures
        res@ == spec_platform_content(endian),
{
    match endian {
        Endian::Little => "01007EF00011E000/romfs",
        Endian::Big => "content",
    }
}

/// The DLC content directory for the platform.
pub fn platform_aoc(endian: Endian) -> (res: &'static str)
    ensures
        res@ == spec_platform_aoc(endian),
{
    match endian {
        Endian::Little => "01007EF00011F001/romfs",
        Endian::Big => "aoc/0010",
    }
}

/// Both directories at once: (base content, DLC content).
pub fn platform_prefixes(endian: Endian) -> (res: (&'static str, &'static str))
    ensures
        res.0@ == spec_platform_content(endian),
        res.1@ == spec_platform_aoc(endian),
{
    match endian {
        Endian::Little => ("01007EF00011E000/romfs", "01007EF00011F001/romfs"),
        Endian::Big => ("content", "aoc/0010"),
    }
}

} // verus!
