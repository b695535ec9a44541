use vstd::prelude::*;

use roead::sarc::{Sarc, SarcWriter};

use crate::map_files::{is_static_map, spec_is_static};
use crate::platform::Endian;

verus! {

/// `roead::sarc::SarcWriter`, a SARC archive being assembled.
#[verifier::external_type_specification]
#[verifier::external_body]
pub struct ExSarcWriter(SarcWriter);

/// The files that a SARC writer holds, by name.
pub uninterp spec fn pack_files(writer: SarcWriter) -> Map<Seq<char>, Seq<u8>>;

/// The bytes that `SarcWriter::to_binary` writes for a writer.
pub uninterp spec fn sarc_binary(writer: SarcWriter) -> Seq<u8>;

/// The settings that a SARC writer writes with: its byte order and its
/// minimum data alignment.  (`SarcWriter::from_sarc` leaves the writer's
/// other settings at their defaults, and `add_file` changes none.)
pub uninterp spec fn pack_settings(writer: SarcWriter) -> (Endian, nat);

/// Whether `Sarc::new` reads these bytes as a SARC archive.
pub uninterp spec fn sarc_parses(data: Seq<u8>) -> bool;

/// The files that `Sarc::files` lists for an archive's bytes, in order,
/// each with its name when it has one.
pub uninterp spec fn sarc_listing(data: Seq<u8>) -> Seq<(Option<Seq<char>>, Seq<u8>)>;

/// The data that `Sarc::get` finds under a name in an archive's bytes.
pub uninterp spec fn sarc_get(data: Seq<u8>, name: Seq<char>) -> Option<Seq<u8>>;

/// Why a SARC archive could not be read or written.
#[derive(Debug)]
pub enum PackError {
    /// The bytes are not a SARC archive (`Sarc::new` failed).
    Read(roead::Error),
    /// The archive's file table points outside its bytes.
    Malformed,
    /// A file's own header asks for an alignment that the writer cannot
    /// take.
    Unwritable,
}

/// The unsigned 16-bit integer at `o`, in the given byte order.
pub open spec fn rd_u16(d: Seq<u8>, o: int, big: bool) -> int {
    if big {
        d[o] * 256 + d[o + 1]
    } else {
        d[o] + d[o + 1] * 256
    }
}

/// The unsigned 32-bit integer at `o`, in the given byte order.
pub open spec fn rd_u32(d: Seq<u8>, o: int, big: bool) -> int {
    if big {
        d[o] * 16777216 + d[o + 1] * 65536 + d[o + 2] * 256 + d[o + 3]
    } else {
        d[o] + d[o + 1] * 256 + d[o + 2] * 65536 + d[o + 3] * 16777216
    }
}

/// The byte order that a SARC archive's byte-order mark at 6 gives: `true`
/// for big endian (`FE FF`), `false` for little endian (`FF FE`).
pub open spec fn sarc_order(d: Seq<u8>) -> Option<bool> {
    if d.len() >= 8 && d[6] == 0xFE && d[7] == 0xFF {
        Some(true)
    } else if d.len() >= 8 && d[6] == 0xFF && d[7] == 0xFE {
        Some(false)
    } else {
        None
    }
}

/// Whether entry `i` of a SARC file table keeps within the archive: its
/// name offset (past the name table header) lies inside the bytes, and
/// the data offset plus its data's start and end fit in 32 bits.  A
/// `strict` entry's data range also lies, ordered, inside the bytes.
#[verifier::opaque]
pub open spec fn entry_ok(d: Seq<u8>, big: bool, i: int, strict: bool) -> bool {
    let e = 0x20 + 16 * i;
    let data_offset = rd_u32(d, 0x0C, big);
    let names_offset = 0x28 + 16 * rd_u16(d, 0x1A, big);
    let rel_name = rd_u32(d, e + 4, big);
    let begin = rd_u32(d, e + 8, big);
    let end = rd_u32(d, e + 12, big);
    &&& rel_name != 0 ==> names_offset + (rel_name % 0x1000000) * 4 <= d.len()
    &&& data_offset + begin <= 0xFFFF_FFFF
    &&& data_offset + end <= 0xFFFF_FFFF
    &&& strict ==> begin <= end && data_offset + end <= d.len()
}

/// Whether every entry of a SARC archive's file table that lies within its
/// bytes keeps within the archive (see `entry_ok`).
pub open spec fn spec_sarc_table_ok(d: Seq<u8>, strict: bool) -> bool {
    forall|big: bool, i: int|
        sarc_order(d) == Some(big) && d.len() >= 0x20 && 0 <= i < rd_u16(d, 0x1A, big) && 0x20 + 16
            * i + 16 <= d.len() ==> #[trigger] entry_ok(d, big, i, strict)
}

/// Whether `Sarc::files` and `SarcWriter::from_sarc` read an archive
/// without a panic: its file table keeps within it (not strictly; a bad
/// data range only ends `Sarc::files`).
pub open spec fn spec_sarc_listable(d: Seq<u8>) -> bool {
    spec_sarc_table_ok(d, false)
}

/// Whether `Sarc::get` reads an archive without a panic: every entry of
/// its file table keeps strictly within it.
pub open spec fn spec_sarc_entries_ok(d: Seq<u8>) -> bool {
    spec_sarc_table_ok(d, true)
}

/// The byte order that `Sarc::new` reads from an archive's byte-order mark
/// (read in the host's order; on the little-endian hosts this library is
/// built for, `FE FF` is big endian).
pub open spec fn sarc_endian(d: Seq<u8>) -> Endian {
    if sarc_order(d) == Some(true) {
        Endian::Big
    } else {
        Endian::Little
    }
}

/// The start of entry `i`'s data, relative to the data offset.
pub open spec fn entry_begin(d: Seq<u8>, big: bool, i: int) -> int {
    rd_u32(d, 0x20 + 16 * i + 8, big)
}

/// `Sarc::guess_min_alignment`: the greatest common divisor of 4 and the
/// start of every file's data.
pub open spec fn sarc_min_alignment(d: Seq<u8>) -> nat {
    let big = sarc_order(d) == Some(true);
    let n = rd_u16(d, 0x1A, big);
    let data_offset = rd_u32(d, 0x0C, big);
    if forall|i: int| 0 <= i < n ==> (data_offset + #[trigger] entry_begin(d, big, i)) % 4 == 0 {
        4
    } else if forall|i: int| 0 <= i < n ==> (data_offset + #[trigger] entry_begin(d, big, i)) % 2
        == 0 {
        2
    } else {
        1
    }
}

/// The settings of a writer opened on an archive's bytes.
pub open spec fn sarc_settings(d: Seq<u8>) -> (Endian, nat) {
    (sarc_endian(d), sarc_min_alignment(d))
}

/// Whether `a` is a power of two that fits in 16 bits.
pub open spec fn is_pow2_u16(a: int) -> bool {
    a == 1 || a == 2 || a == 4 || a == 8 || a == 16 || a == 32 || a == 64 || a == 128 || a == 256
        || a == 512 || a == 1024 || a == 2048 || a == 4096 || a == 8192 || a == 16384 || a
        == 32768
}

/// The byte order of a file with a binary resource header (byte-order mark
/// at `0xC`, more than `0x20` bytes).
pub open spec fn resource_order(d: Seq<u8>) -> Option<bool> {
    if d.len() > 0x20 && d[0xC] == 0xFE && d[0xD] == 0xFF {
        Some(true)
    } else if d.len() > 0x20 && d[0xC] == 0xFF && d[0xD] == 0xFE {
        Some(false)
    } else {
        None
    }
}

/// Whether a file ends with a `FLIM` footer.
pub open spec fn is_flim(d: Seq<u8>) -> bool {
    let n = d.len() as int;
    n > 0x28 && d[n - 0x28] == 0x46 && d[n - 0x27] == 0x4C && d[n - 0x26] == 0x49 && d[n - 0x25]
        == 0x4D
}

/// Whether the alignment that `SarcWriter` reads from a file's own header
/// is one it can take: a binary resource whose size field matches asks for
/// `1 << byte 0xE`, which must stay below `1 << 32`; a `FLIM` footer's
/// alignment must be a power of two.
#[verifier::opaque]
pub open spec fn spec_file_aligns_ok(d: Seq<u8>, big_endian: bool) -> bool {
    &&& (resource_order(d) matches Some(big) && rd_u32(d, 0x1C, big) == d.len()) ==> d[0xE] < 32
    &&& big_endian && is_flim(d) ==> is_pow2_u16(rd_u16(d, d.len() - 8, true))
}

/// Whether every file of a pack can be written in the given byte order.
pub open spec fn files_aligned(files: Map<Seq<char>, Seq<u8>>, big_endian: bool) -> bool {
    forall|k: Seq<char>| #[trigger] files.contains_key(k) ==> spec_file_aligns_ok(files[k], big_endian)
}

/// Whether some file of `files` has the data `d`.
pub open spec fn holds_data(files: Map<Seq<char>, Seq<u8>>, d: Seq<u8>) -> bool {
    exists|k: Seq<char>| files.contains_key(k) && files[k] == d
}

/// Whether some entry of `datas` is `d`.
pub open spec fn data_listed(datas: Seq<Vec<u8>>, d: Seq<u8>) -> bool {
    exists|i: int| 0 <= i < datas.len() && datas[i]@ == d
}

/// A listing's entries with their names and data taken by their views.
pub open spec fn listing_view(l: Seq<(Option<String>, Vec<u8>)>) -> Seq<(Option<Seq<char>>, Seq<u8>)> {
    Seq::new(
        l.len(),
        |i: int|
            (
                match l[i].0 {
                    Some(n) => Some(n@),
                    None => None,
                },
                l[i].1@,
            ),
    )
}

/// The files of a SARC listing that have a name, as a map from name to
/// data: a later file of the same name replaces an earlier one.
pub open spec fn spec_named_files(listing: Seq<(Option<Seq<char>>, Seq<u8>)>) -> Map<
    Seq<char>,
    Seq<u8>,
>
    decreases listing.len(),
{
    if listing.len() == 0 {
        Map::empty()
    } else {
        let prev = spec_named_files(listing.drop_last());
        match listing.last().0 {
            Some(name) => prev.insert(name, listing.last().1),
            None => prev,
        }
    }
}

/// `files` with each named file of `listing` added unless a file of that
/// name is already there.
pub open spec fn spec_add_missing(
    files: Map<Seq<char>, Seq<u8>>,
    listing: Seq<(Option<Seq<char>>, Seq<u8>)>,
) -> Map<Seq<char>, Seq<u8>>
    decreases listing.len(),
{
    if listing.len() == 0 {
        files
    } else {
        let prev = spec_add_missing(files, listing.drop_last());
        match listing.last().0 {
            Some(name) => if prev.contains_key(name) {
                prev
            } else {
                prev.insert(name, listing.last().1)
            },
            None => prev,
        }
    }
}

/// `files` with every static map unit of `maps` stored under its path.
pub open spec fn spec_add_statics(
    files: Map<Seq<char>, Seq<u8>>,
    maps: Seq<(String, Vec<u8>)>,
) -> Map<Seq<char>, Seq<u8>>
    decreases maps.len(),
{
    if maps.len() == 0 {
        files
    } else {
        let prev = spec_add_statics(files, maps.drop_last());
        if spec_is_static(maps.last().0@) {
            prev.insert(maps.last().0@, maps.last().1@)
        } else {
            prev
        }
    }
}

/// The files of the rebuilt static-map pack: the mod's own pack with every
/// dump file it lacks (or the dump's pack when the mod has none), then the
/// rebuilt static units.
pub open spec fn spec_map_pack(
    root: Option<Map<Seq<char>, Seq<u8>>>,
    dump: Map<Seq<char>, Seq<u8>>,
    dump_listing: Seq<(Option<Seq<char>>, Seq<u8>)>,
    maps: Seq<(String, Vec<u8>)>,
) -> Map<Seq<char>, Seq<u8>> {
    match root {
        Some(files) => spec_add_statics(spec_add_missing(files, dump_listing), maps),
        None => spec_add_statics(dump, maps),
    }
}

/// Whether the mod's own pack is used: it has one that reads as a SARC
/// archive whose file table keeps within its bytes.
pub open spec fn root_readable(root_pack: Option<Seq<u8>>) -> bool {
    root_pack matches Some(b) && sarc_parses(b) && spec_sarc_listable(b)
}

/// The settings of the rebuilt pack: those of the mod's own pack when it
/// is used, else those of the dump's pack.
pub open spec fn spec_rebuilt_settings(root_pack: Option<Seq<u8>>, dump_pack: Seq<u8>) -> (
    Endian,
    nat,
) {
    if root_readable(root_pack) {
        sarc_settings(root_pack->Some_0)
    } else {
        sarc_settings(dump_pack)
    }
}

/// The files of the mod's own pack, when it is used.
pub open spec fn spec_root_files(root_pack: Option<Seq<u8>>) -> Option<Map<Seq<char>, Seq<u8>>> {
    match root_pack {
        Some(b) => if sarc_parses(b) && spec_sarc_listable(b) {
            Some(spec_named_files(sarc_listing(b)))
        } else {
            None
        },
        None => None,
    }
}

/// The files of the rebuilt static-map pack from the packs' bytes and the
/// rebuilt map units.
pub open spec fn spec_rebuilt_pack(
    root_pack: Option<Seq<u8>>,
    dump_pack: Seq<u8>,
    maps: Seq<(String, Vec<u8>)>,
) -> Map<Seq<char>, Seq<u8>> {
    spec_map_pack(
        spec_root_files(root_pack),
        spec_named_files(sarc_listing(dump_pack)),
        sarc_listing(dump_pack),
        maps,
    )
}

/// Whether a listed file has the name `name`.
pub open spec fn spec_entry_named(entry: (Option<Seq<char>>, Seq<u8>), name: Seq<char>) -> bool {
    match entry.0 {
        Some(n) => n == name,
        None => false,
    }
}

/// A SARC archive opened for rewriting.
pub struct OpenPack {
    /// A writer holding the archive's named files, with its byte order and
    /// alignment.
    pub writer: SarcWriter,
    /// Every file of the archive in order, with its name when it has one.
    pub listing: Vec<(Option<String>, Vec<u8>)>,
}

/// `Sarc::new`: whether the bytes read as a SARC archive.
#[verifier::external_body]
fn sarc_opens(data: &[u8]) -> (res: Result<(), roead::Error>)
    ensures
        res is Ok <==> sarc_parses(data@),
{
    match Sarc::new(data) {
        Ok(_) => Ok(()),
        Err(e) => Err(e),
    }
}

/// `Sarc::new` and `SarcWriter::from_sarc`, with the archive's files
/// (`Sarc::files`): opens a SARC archive for rewriting.  As `from_sarc`
/// collects them, the writer holds the named files of the listing, a later
/// file of a name replacing an earlier one; it takes the archive's byte
/// order and `guess_min_alignment`.  `Sarc::files` and `from_sarc` panic
/// on a file table that points outside the bytes, which `requires` leaves
/// out.
#[verifier::external_body]
fn open_pack(data: &[u8]) -> (res: Result<OpenPack, roead::Error>)
    requires
        spec_sarc_listable(data@),
    ensures
        res is Ok <==> sarc_parses(data@),
        res matches Ok(p) ==> listing_view(p.listing@) == sarc_listing(data@) && pack_files(
            p.writer,
        ) == spec_named_files(sarc_listing(data@)) && pack_settings(p.writer) == sarc_settings(
            data@,
        ),
{
    let sarc = Sarc::new(data)?;
    let listing = sarc.files().map(|f| (f.name.map(|n| n.to_string()), f.data.to_vec())).collect();
    Ok(OpenPack { writer: SarcWriter::from_sarc(&sarc), listing })
}

/// `Sarc::new` and `Sarc::get`: the data of the file `name` of an archive.
/// `Sarc::get` panics on a file table that points outside the bytes, which
/// `requires` leaves out.
#[verifier::external_body]
fn sarc_get_data(data: &[u8], name: &str) -> (res: Option<Vec<u8>>)
    requires
        sarc_parses(data@),
        spec_sarc_entries_ok(data@),
    ensures
        match res {
            Some(d) => sarc_get(data@, name@) == Some(d@),
            None => sarc_get(data@, name@) is None,
        },
{
    match Sarc::new(data) {
        Ok(sarc) => sarc.get(name).map(|f| f.data.to_vec()),
        Err(_) => None,
    }
}

/// `SarcWriter::files.contains_key`: whether the writer holds a file of
/// this name.
#[verifier::external_body]
fn pack_contains(writer: &SarcWriter, name: &str) -> (res: bool)
    ensures
        res == pack_files(*writer).contains_key(name@),
{
    writer.files.contains_key(name)
}

/// `SarcWriter::add_file`: stores `data` under `name`, replacing a file of
/// that name; the settings stay.
#[verifier::external_body]
fn pack_add_file(writer: &mut SarcWriter, name: &str, data: &[u8])
    ensures
        pack_files(*final(writer)) == pack_files(*old(writer)).insert(name@, data@),
        pack_settings(*final(writer)) == pack_settings(*old(writer)),
{
    writer.add_file(name, data);
}

/// `SarcWriter::files.values`: the data of every file the writer holds.
#[verifier::external_body]
fn pack_datas(writer: &SarcWriter) -> (res: Vec<Vec<u8>>)
    ensures
        forall|i: int| 0 <= i < res@.len() ==> holds_data(pack_files(*writer), (#[trigger] res@[i])@),
        forall|k: Seq<char>| #[trigger]
            pack_files(*writer).contains_key(k) ==> data_listed(res@, pack_files(*writer)[k]),
{
    writer.files.values().cloned().collect()
}

/// `SarcWriter::endian`: the byte order the writer writes in.
#[verifier::external_body]
fn writer_endian(writer: &SarcWriter) -> (res: Endian)
    ensures
        res == pack_settings(*writer).0,
{
    match writer.endian {
        roead::Endian::Big => Endian::Big,
        roead::Endian::Little => Endian::Little,
    }
}

/// `SarcWriter::to_binary`: writes the archive.  It panics when a file's
/// own header asks for an alignment it cannot take, which `requires`
/// leaves out.
#[verifier::external_body]
fn pack_to_binary(writer: &mut SarcWriter) -> (res: Vec<u8>)
    requires
        files_aligned(pack_files(*old(writer)), pack_settings(*old(writer)).0 == Endian::Big),
    ensures
        res@ == sarc_binary(*old(writer)),
{
    writer.to_binary()
}

/// The unsigned 16-bit integer at `o`.
fn read_u16(d: &[u8], o: usize, big: bool) -> (res: u64)
    requires
        o + 2 <= d@.len(),
    ensures
        res == rd_u16(d@, o as int, big),
{
    let a = d[o] as u64;
    let b = d[o + 1] as u64;
    if big {
        a * 256 + b
    } else {
        a + b * 256
    }
}

/// The unsigned 32-bit integer at `o`.
fn read_u32(d: &[u8], o: usize, big: bool) -> (res: u64)
    requires
        o + 4 <= d@.len(),
    ensures
        res == rd_u32(d@, o as int, big),
        res <= 0xFFFF_FFFF,
{
    let a = d[o] as u64;
    let b = d[o + 1] as u64;
    let c = d[o + 2] as u64;
    let e = d[o + 3] as u64;
    if big {
        a * 16777216 + b * 65536 + c * 256 + e
    } else {
        a + b * 256 + c * 65536 + e * 16777216
    }
}

/// Whether every entry of a SARC archive's file table keeps within the
/// archive (see `spec_sarc_table_ok`).
fn table_ok(d: &[u8], strict: bool) -> (res: bool)
    ensures
        res == spec_sarc_table_ok(d@, strict),
{
    let len = d.len();
    if len < 8 {
        return true;
    }
    let big = if d[6] == 0xFE && d[7] == 0xFF {
        true
    } else if d[6] == 0xFF && d[7] == 0xFE {
        false
    } else {
        return true;
    };
    if len < 0x20 {
        return true;
    }
    let n = read_u16(d, 0x1A, big);
    let data_offset = read_u32(d, 0x0C, big);
    let names_offset = 0x28 + 16 * n;
    let mut i: u64 = 0;
    while i < n && 0x20 + 16 * i + 16 <= len as u64
        invariant
            len == d@.len(),
            sarc_order(d@) == Some(big),
            d@.len() >= 0x20,
            n == rd_u16(d@, 0x1A, big),
            n <= 65535,
            data_offset == rd_u32(d@, 0x0C, big),
            names_offset == 0x28 + 16 * n,
            i <= n,
            forall|j: int| 0 <= j < i ==> #[trigger] entry_ok(d@, big, j, strict),
        decreases n - i,
    {
        let e = (0x20 + 16 * i) as usize;
        let rel_name = read_u32(d, e + 4, big);
        let begin = read_u32(d, e + 8, big);
        let end = read_u32(d, e + 12, big);
        let name_ok = rel_name == 0 || names_offset + (rel_name % 0x1000000) * 4 <= len as u64;
        let range_ok = !strict || (begin <= end && data_offset + end <= len as u64);
        if !(name_ok && data_offset + begin <= 0xFFFF_FFFF && data_offset + end <= 0xFFFF_FFFF
            && range_ok) {
            assert(!entry_ok(d@, big, i as int, strict)) by {
                reveal(entry_ok);
            }
            assert(!spec_sarc_table_ok(d@, strict)) by {
                let ii = i as int;
                assert(sarc_order(d@) == Some(big));
                assert(0 <= ii < rd_u16(d@, 0x1A, big) && 0x20 + 16 * ii + 16 <= d@.len());
                assert(d@.len() >= 0x20);
            }
            return false;
        }
        assert(entry_ok(d@, big, i as int, strict)) by {
            reveal(entry_ok);
        }
        i = i + 1;
    }
    assert forall|j: int|
        0 <= j < rd_u16(d@, 0x1A, big) && 0x20 + 16 * j + 16 <= d@.len() implies #[trigger] entry_ok(
        d@,
        big,
        j,
        strict,
    ) by {
        if j >= i {
            assert(0x20 + 16 * i + 16 <= 0x20 + 16 * j + 16);
        }
    }
    true
}

/// Whether every entry of a SARC archive's file table keeps strictly
/// within the archive (see `spec_sarc_entries_ok`).
pub fn sarc_entries_ok(d: &[u8]) -> (res: bool)
    ensures
        res == spec_sarc_entries_ok(d@),
{
    table_ok(d, true)
}

/// Whether a SARC archive's files can be listed (see
/// `spec_sarc_listable`).
pub fn sarc_listable(d: &[u8]) -> (res: bool)
    ensures
        res == spec_sarc_listable(d@),
{
    table_ok(d, false)
}

/// Whether a file's own header asks for an alignment that the SARC writer
/// can take (see `spec_file_aligns_ok`).
pub fn file_aligns_ok(d: &[u8], big_endian: bool) -> (res: bool)
    ensures
        res == spec_file_aligns_ok(d@, big_endian),
{
    reveal(spec_file_aligns_ok);
    let n = d.len();
    let resource_ok = if n > 0x20 && ((d[0xC] == 0xFE && d[0xD] == 0xFF) || (d[0xC] == 0xFF && d[0xD]
        == 0xFE)) {
        let big = d[0xC] == 0xFE;
        let size = read_u32(d, 0x1C, big);
        size != n as u64 || d[0xE] < 32
    } else {
        true
    };
    let flim_ok = if big_endian && n > 0x28 && d[n - 0x28] == 0x46 && d[n - 0x27] == 0x4C && d[n - 0x26] == 0x49
        && d[n - 0x25] == 0x4D {
        let a = read_u16(d, n - 8, true);
        a == 1 || a == 2 || a == 4 || a == 8 || a == 16 || a == 32 || a == 64 || a == 128 || a
            == 256 || a == 512 || a == 1024 || a == 2048 || a == 4096 || a == 8192 || a == 16384
            || a == 32768
    } else {
        true
    };
    resource_ok && flim_ok
}

/// Checks that bytes read as a SARC archive (`Sarc::new`).
pub fn read_check(data: &[u8]) -> (res: Result<(), PackError>)
    ensures
        match res {
            Ok(()) => sarc_parses(data@),
            Err(PackError::Read(_)) => !sarc_parses(data@),
            Err(_) => false,
        },
{
    match sarc_opens(data) {
        Err(e) => Err(PackError::Read(e)),
        Ok(()) => Ok(()),
    }
}

/// The data of the map unit `canon` in the dump's static-map pack: `None`
/// when the pack has no such file.
pub fn static_unit(pack: &[u8], canon: &str) -> (res: Result<Option<Vec<u8>>, PackError>)
    ensures
        match res {
            Ok(r) => sarc_parses(pack@) && spec_sarc_entries_ok(pack@) && match r {
                Some(d) => sarc_get(pack@, canon@) == Some(d@),
                None => sarc_get(pack@, canon@) is None,
            },
            Err(PackError::Read(_)) => !sarc_parses(pack@),
            Err(PackError::Malformed) => sarc_parses(pack@) && !spec_sarc_entries_ok(pack@),
            Err(PackError::Unwritable) => false,
        },
{
    match read_check(pack) {
        Ok(()) => if sarc_entries_ok(pack) {
            Ok(sarc_get_data(pack, canon))
        } else {
            Err(PackError::Malformed)
        },
        Err(e) => Err(e),
    }
}

/// Assembles the static-map pack: the mod's own pack, when it has one,
/// gets every named dump file it lacks, and otherwise the dump's pack is
/// used as it is; then every static map unit of `maps` is stored under its
/// path.
pub fn build_map_pack(
    root: Option<OpenPack>,
    dump: OpenPack,
    maps: &Vec<(String, Vec<u8>)>,
) -> (res: SarcWriter)
    ensures
        pack_files(res) == spec_map_pack(
            match root {
                Some(r) => Some(pack_files(r.writer)),
                None => None,
            },
            pack_files(dump.writer),
            listing_view(dump.listing@),
            maps@,
        ),
        pack_settings(res) == match root {
            Some(r) => pack_settings(r.writer),
            None => pack_settings(dump.writer),
        },
{
    let ghost listing = listing_view(dump.listing@);
    let mut merged = match root {
        Some(r) => {
            let mut w = r.writer;
            let ghost start = pack_files(w);
            let ghost settings = pack_settings(w);
            let mut i: usize = 0;
            while i < dump.listing.len()
                invariant
                    i <= dump.listing@.len(),
                    pack_settings(w) == settings,
                    listing == listing_view(dump.listing@),
                    pack_files(w) == spec_add_missing(start, listing.take(i as int)),
                decreases dump.listing.len() - i,
            {
                assert(listing.take(i + 1).drop_last() =~= listing.take(i as int));
                let (name, data) = &dump.listing[i];
                match name {
                    Some(n) => {
                        if !pack_contains(&w, n.as_str()) {
                            pack_add_file(&mut w, n.as_str(), data.as_slice());
                        }
                    },
                    None => {},
                }
                i = i + 1;
            }
            assert(listing.take(listing.len() as int) =~= listing);
            w
        },
        None => dump.writer,
    };
    let ghost before = pack_files(merged);
    let ghost settings = pack_settings(merged);
    let mut k: usize = 0;
    while k < maps.len()
        invariant
            k <= maps@.len(),
            pack_settings(merged) == settings,
            pack_files(merged) == spec_add_statics(before, maps@.take(k as int)),
        decreases maps.len() - k,
    {
        assert(maps@.take(k + 1).drop_last() =~= maps@.take(k as int));
        let (canon, data) = &maps[k];
        if is_static_map(canon.as_str()) {
            pack_add_file(&mut merged, canon.as_str(), data.as_slice());
        }
        k = k + 1;
    }
    assert(maps@.take(maps.len() as int) =~= maps@);
    merged
}

/// Whether every file of a writer can be written (see `files_aligned`).
fn pack_aligned(writer: &SarcWriter) -> (res: bool)
    ensures
        res == files_aligned(pack_files(*writer), pack_settings(*writer).0 == Endian::Big),
{
    let ghost files = pack_files(*writer);
    let big = match writer_endian(writer) {
        Endian::Big => true,
        Endian::Little => false,
    };
    let datas = pack_datas(writer);
    let mut i: usize = 0;
    while i < datas.len()
        invariant
            i <= datas@.len(),
            files == pack_files(*writer),
            big == (pack_settings(*writer).0 == Endian::Big),
            forall|j: int| 0 <= j < i ==> spec_file_aligns_ok((#[trigger] datas@[j])@, big),
            forall|j: int| 0 <= j < datas@.len() ==> holds_data(files, (#[trigger] datas@[j])@),
        decreases datas.len() - i,
    {
        if !file_aligns_ok(datas[i].as_slice(), big) {
            proof {
                let ii = i as int;
                assert(holds_data(files, datas@[ii]@));
                let k = choose|k: Seq<char>| files.contains_key(k) && files[k] == datas@[ii]@;
                assert(!spec_file_aligns_ok(files[k], big));
            }
            return false;
        }
        i = i + 1;
    }
    assert forall|k: Seq<char>| #[trigger] files.contains_key(k) implies spec_file_aligns_ok(
        files[k],
        big,
    ) by {
        assert(data_listed(datas@, files[k]));
        let j = choose|j: int| 0 <= j < datas@.len() && datas@[j]@ == files[k];
        assert(spec_file_aligns_ok(datas@[j]@, big));
    }
    true
}

/// Rebuilds the static-map pack from the mod's own pack (`None` when the
/// mod has none; one that does not read as an archive, or whose file table
/// points outside its bytes, counts as none), the dump's pack and the
/// rebuilt map units, and writes it with the settings of the pack it
/// starts from.  Fails when the dump's pack does not read as an archive,
/// when its file table points outside its bytes, or when a file of the
/// rebuilt pack asks for an alignment the writer cannot take.
pub fn rebuild_map_pack(
    root_pack: Option<&[u8]>,
    dump_pack: &[u8],
    maps: &Vec<(String, Vec<u8>)>,
) -> (res: Result<Vec<u8>, PackError>)
    ensures
        ({
            let root = match root_pack {
                Some(b) => Some(b@),
                None => None,
            };
            let rebuilt = spec_rebuilt_pack(root, dump_pack@, maps@);
            let settings = spec_rebuilt_settings(root, dump_pack@);
            let aligned = files_aligned(rebuilt, settings.0 == Endian::Big);
            match res {
                Ok(bytes) => sarc_parses(dump_pack@) && spec_sarc_listable(dump_pack@) && aligned
                    && exists|w: SarcWriter|
                    pack_files(w) == rebuilt && pack_settings(w) == settings && bytes@
                        == #[trigger] sarc_binary(w),
                Err(PackError::Read(_)) => !sarc_parses(dump_pack@),
                Err(PackError::Malformed) => sarc_parses(dump_pack@) && !spec_sarc_listable(
                    dump_pack@,
                ),
                Err(PackError::Unwritable) => sarc_parses(dump_pack@) && spec_sarc_listable(
                    dump_pack@,
                ) && !aligned,
            }
        }),
{
    let root = match root_pack {
        Some(bytes) => if sarc_listable(bytes) {
            match open_pack(bytes) {
                Ok(p) => Some(p),
                Err(_) => None,
            }
        } else {
            None
        },
        None => None,
    };
    match read_check(dump_pack) {
        Ok(()) => {},
        Err(e) => {
            return Err(e);
        },
    }
    if !sarc_listable(dump_pack) {
        return Err(PackError::Malformed);
    }
    let dump = match open_pack(dump_pack) {
        Ok(p) => p,
        Err(e) => {
            return Err(PackError::Read(e));
        },
    };
    let mut merged = build_map_pack(root, dump, maps);
    if !pack_aligned(&merged) {
        return Err(PackError::Unwritable);
    }
    let bytes = pack_to_binary(&mut merged);
    Ok(bytes)
}

/// Every named file of the dump's pack is in the rebuilt pack, and every
/// file of the mod's own pack that no static unit replaces keeps its
/// data.
pub proof fn law_map_pack_keeps_files(
    root: Map<Seq<char>, Seq<u8>>,
    listing: Seq<(Option<Seq<char>>, Seq<u8>)>,
    maps: Seq<(String, Vec<u8>)>,
    name: Seq<char>,
)
    ensures
        (exists|i: int| 0 <= i < listing.len() && spec_entry_named(#[trigger] listing[i], name)) ==> spec_map_pack(Some(root), Map::empty(), listing, maps).contains_key(name),
        root.contains_key(name) && (forall|j: int|
            0 <= j < maps.len() ==> !(spec_is_static((#[trigger] maps[j]).0@) && maps[j].0@ == name))
            ==> spec_map_pack(Some(root), Map::empty(), listing, maps)[name] == root[name],
{
    lemma_add_missing(root, listing, name);
    lemma_add_statics(spec_add_missing(root, listing), maps, name);
}

/// Adding missing files keeps every file already there and adds each
/// listed name.
proof fn lemma_add_missing(
    files: Map<Seq<char>, Seq<u8>>,
    listing: Seq<(Option<Seq<char>>, Seq<u8>)>,
    name: Seq<char>,
)
    ensures
        files.contains_key(name) ==> spec_add_missing(files, listing).contains_key(name)
            && spec_add_missing(files, listing)[name] == files[name],
        (exists|i: int| 0 <= i < listing.len() && spec_entry_named(#[trigger] listing[i], name)) ==> spec_add_missing(files, listing).contains_key(name),
    decreases listing.len(),
{
    if listing.len() > 0 {
        let prev = listing.drop_last();
        lemma_add_missing(files, prev, name);
        if exists|i: int| 0 <= i < listing.len() && spec_entry_named(#[trigger] listing[i], name) {
            let i = choose|i: int|
                0 <= i < listing.len() && spec_entry_named(#[trigger] listing[i], name);
            if i < listing.len() - 1 {
                assert(prev[i] == listing[i]);
            }
        }
    }
}

/// Storing static units keeps a file that no static unit of that name
/// replaces.
proof fn lemma_add_statics(
    files: Map<Seq<char>, Seq<u8>>,
    maps: Seq<(String, Vec<u8>)>,
    name: Seq<char>,
)
    ensures
        files.contains_key(name) ==> spec_add_statics(files, maps).contains_key(name),
        files.contains_key(name) && (forall|j: int|
            0 <= j < maps.len() ==> !(spec_is_static((#[trigger] maps[j]).0@) && maps[j].0@ == name))
            ==> spec_add_statics(files, maps)[name] == files[name],
    decreases maps.len(),
{
    if maps.len() > 0 {
        let prev = maps.drop_last();
        lemma_add_statics(files, prev, name);
        assert forall|j: int| 0 <= j < prev.len() implies #[trigger] prev[j] == maps[j] by {}
    }
}

} // verus!
