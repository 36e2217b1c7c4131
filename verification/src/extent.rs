//! How far the parts of a scalable font reach.
//!
//! Counts, lengths and offsets in such a font are words and longs. `ttf_parser` adds them up, and
//! takes for granted that no sum is beyond 32 bits: where debug assertions are on, one that is
//! ends in a panic. What is told here is that every sum of a resource stays within that range. A
//! part that is not reached, since something before it is missing, does not count.
use crate::compact::{check_cff, check_cff2};
#[allow(unused_imports)]
use crate::compact::{cff2_fits, cff_fits};
use crate::resource::{resource_long, resource_word};
#[allow(unused_imports)]
use crate::resource::{long_at, word_at};
use vstd::prelude::*;

verus! {

/// The greatest sum that is in range.
pub const REACH: u64 = 0xFFFF_FFFF;

/// The greatest length of a table. From a place in it, arrays whose length is counted by a word
/// stay in range.
pub const TABLE_LEN: u64 = 0xFF00_0000;

/// Tag of the table of bitmap strikes.
pub const TAG_SBIX: u32 = 0x7362_6978;

/// Tag of the table of glyphs in colors.
pub const TAG_COLR: u32 = 0x434F_4C52;

/// Tag of the table that defines glyphs.
pub const TAG_GDEF: u32 = 0x4744_4546;

/// Tag of the table that positions glyphs.
pub const TAG_GPOS: u32 = 0x4750_4F53;

/// Tag of the table that substitutes glyphs.
pub const TAG_GSUB: u32 = 0x4753_5542;

/// Tag of the table that varies horizontal metrics.
pub const TAG_HVAR: u32 = 0x4856_4152;

/// Tag of the table that varies vertical metrics.
pub const TAG_VVAR: u32 = 0x5656_4152;

/// Tag of the table that varies metrics of the whole font.
pub const TAG_MVAR: u32 = 0x4D56_4152;

/// Tag of the table of kerning.
pub const TAG_KERN: u32 = 0x6B65_726E;

/// Tag of the table of characters.
pub const TAG_CMAP: u32 = 0x636D_6170;

/// Tag of the table of outlines in the compact format.
pub const TAG_CFF: u32 = 0x4346_4620;

/// Tag of the table of outlines in the second compact format.
pub const TAG_CFF2: u32 = 0x4346_4632;

/// Tag of the table of units.
pub const TAG_HEAD: u32 = 0x6865_6164;

/// Tag of the table of horizontal metrics.
pub const TAG_HHEA: u32 = 0x6868_6561;

/// Tag of the table that counts the glyphs.
pub const TAG_MAXP: u32 = 0x6D61_7870;

/// Tag of the table of colors.
pub const TAG_CPAL: u32 = 0x4350_414C;

/// A long at `at` counts the records of `size` bytes behind it, and they end in range, counted
/// from `base`.
pub open spec fn counted_fits(d: Seq<u8>, base: int, at: int, size: int) -> bool {
    long_at(d, at) matches Some(count) ==> at - base + 4 + count * size <= REACH
}

/// A long at `at` counts the records of `size` bytes behind it, and they are there.
pub open spec fn counted_there(d: Seq<u8>, at: int, size: int) -> bool {
    long_at(d, at) matches Some(count) && at + 4 + count * size <= d.len()
}

/// The list of regions of the variation store at `at` starts in range, counted from `base`. A word
/// counts the longs that stand before it.
pub open spec fn store_fits(d: Seq<u8>, base: int, at: int) -> bool {
    match (word_at(d, at), long_at(d, at + 2), word_at(d, at + 6)) {
        (Some(1), Some(regions), Some(count)) => at + 8 + 4 * count <= d.len() ==> at - base
            + regions + 2 <= REACH,
        _ => true,
    }
}

/// The variation store at `at` is there, with the regions that it leads to: their number times the
/// number of axes, which is a word, is the number of records.
pub open spec fn store_there(d: Seq<u8>, at: int) -> bool {
    match (word_at(d, at), long_at(d, at + 2), word_at(d, at + 6)) {
        (Some(1), Some(regions), Some(count)) => at + 8 + 4 * count <= d.len() && match (
            word_at(d, at + regions),
            word_at(d, at + regions + 2),
        ) {
            (Some(axes), Some(number)) => axes * number <= 0xFFFF && at + regions + 4 + 6 * (axes
                * number) <= d.len(),
            _ => false,
        },
        _ => false,
    }
}

/// The offset at `at` leads to a variation store that is in range.
pub open spec fn store_offset_fits(d: Seq<u8>, at: int) -> bool {
    long_at(d, at) matches Some(offset) ==> store_fits(d, 0, offset as int)
}

/// The bitmap strikes of an `sbix` table. They are not read of a font with as many glyphs as a
/// word can count.
pub open spec fn sbix_fits(d: Seq<u8>, maxp: Seq<u8>) -> bool {
    word_at(d, 0) == Some(1u16) && word_at(maxp, 4) != Some(0xFFFFu16) ==> counted_fits(d, 0, 4, 4)
}

/// The glyphs and layers of a `COLR` table are there, and the offsets behind them.
pub open spec fn colr_there(d: Seq<u8>) -> bool {
    match (long_at(d, 4), long_at(d, 8), word_at(d, 12), long_at(d, 30)) {
        (Some(glyphs), Some(layers), Some(count), Some(_)) => {
            &&& glyphs + 6 * word_at(d, 2)->0 <= d.len()
            &&& layers + 4 * count <= d.len()
        },
        _ => false,
    }
}

/// The paints, layers, clips and variations of a `COLR` table of version 1. All but the paints
/// can be left out, and each is read if those before it are there.
pub open spec fn colr_fits(d: Seq<u8>) -> bool {
    let paints = long_at(d, 14)->0 as int;
    let layers = long_at(d, 18)->0 as int;
    let clips = long_at(d, 22)->0 as int;
    let store = long_at(d, 30)->0 as int;
    let painted = counted_there(d, paints, 6);
    let layered = painted && (layers == 0 || counted_there(d, layers, 4));
    let clipped = layered && (clips == 0 || counted_there(d, clips + 1, 7));
    word_at(d, 0) == Some(1u16) && colr_there(d) ==> {
        &&& counted_fits(d, 0, paints, 6)
        &&& painted && layers != 0 ==> counted_fits(d, 0, layers, 4)
        &&& layered && clips != 0 ==> counted_fits(d, clips, clips + 1, 7)
        &&& clipped && store != 0 ==> store_fits(d, store, store)
    }
}

/// The variation store of a `GDEF` table of version 1.3. It is read unless the sets of marks start
/// where the table ends.
pub open spec fn gdef_fits(d: Seq<u8>) -> bool {
    match (long_at(d, 0), word_at(d, 12), long_at(d, 14)) {
        (Some(0x1_0003), Some(marks), Some(store)) => store == 0 || (marks != 0 && marks <= d.len()
            && word_at(d, marks as int) is None) || store_fits(d, store as int, store as int),
        _ => true,
    }
}

/// The word at `at` is the offset of a list of records of `size` bytes, which a word before them
/// counts, and they are there.
pub open spec fn list_there(d: Seq<u8>, at: int, size: int) -> bool {
    match word_at(d, at) {
        Some(offset) => word_at(d, offset as int) matches Some(count) && offset + 2 + count * size
            <= d.len(),
        None => false,
    }
}

/// The feature variations of a `GPOS` or `GSUB` table, which are read if scripts, features and
/// lookups are there.
pub open spec fn layout_fits(d: Seq<u8>) -> bool {
    match (word_at(d, 0), word_at(d, 2), long_at(d, 10)) {
        (Some(1), Some(minor), Some(variations)) => {
            ||| minor == 0
            ||| variations == 0
            ||| !(list_there(d, 4, 6) && list_there(d, 6, 6) && list_there(d, 8, 2))
            ||| word_at(d, variations as int) != Some(1u16)
            ||| counted_fits(d, variations as int, variations + 4, 8)
        },
        _ => true,
    }
}

/// The variation store of an `HVAR` or `VVAR` table.
pub open spec fn metrics_fit(d: Seq<u8>) -> bool {
    long_at(d, 0) == Some(0x1_0000u32) ==> store_offset_fits(d, 4)
}

/// The variation store of an `MVAR` table, which is read if the table's records are there.
pub open spec fn mvar_fits(d: Seq<u8>) -> bool {
    match (long_at(d, 0), word_at(d, 6), word_at(d, 8), word_at(d, 10)) {
        (Some(0x1_0000), Some(8), Some(count), Some(store)) => count == 0 || store == 0 || 12 + 8
            * count > d.len() || store_fits(d, 0, store as int),
        _ => true,
    }
}

/// How many bytes there are from `at` to `to`.
pub open spec fn left(to: int, at: int) -> nat {
    if at < to {
        (to - at) as nat
    } else {
        0
    }
}

/// The pairs of a `kern` subtable that ends at `to` are there.
pub open spec fn pairs_there(d: Seq<u8>, at: int, to: int) -> bool {
    word_at(d, at + 8) matches Some(count) && at + 16 + 6 * count <= to
}

/// The classes, states and entries of a `kern` subtable that ends at `to` are there.
pub open spec fn states_there(d: Seq<u8>, at: int, to: int) -> bool {
    match (word_at(d, at + 10), word_at(d, at + 12), word_at(d, at + 14)) {
        (Some(classes), Some(states), Some(entries)) => {
            &&& at + 16 <= to
            &&& word_at(d, at + 8 + classes + 2) matches Some(count) && at + 8 + classes + 4 + count
                <= to
            &&& at + 8 + states <= to
            &&& at + 8 + entries <= to
        },
        _ => false,
    }
}

/// The `kern` subtable in Apple's format at `at` ends at `to`, and what stands in it is there.
pub open spec fn kern_subtable_there(d: Seq<u8>, at: int, to: int) -> bool {
    &&& to <= d.len()
    &&& d[at + 5] == 0 ==> pairs_there(d, at, to)
    &&& d[at + 5] == 1 ==> states_there(d, at, to)
}

/// The subtables of a `kern` table in Apple's format, from the one at `at` on. They are counted
/// from behind the table's header, and each is read if the one before it is there.
pub open spec fn kern_subtables_fit(d: Seq<u8>, at: int) -> bool
    decreases left(d.len() as int, at),
{
    match long_at(d, at) {
        Some(len) => if at + 5 >= d.len() || d[at + 5] > 3 || len < 8 {
            true
        } else {
            &&& at - 8 + len <= REACH
            &&& kern_subtable_there(d, at, at + len) ==> kern_subtables_fit(d, at + len)
        },
        None => true,
    }
}

/// The subtables of a `kern` table. Only those in Apple's format have long lengths.
pub open spec fn kern_fits(d: Seq<u8>) -> bool {
    match (word_at(d, 0), long_at(d, 4)) {
        (Some(version), Some(count)) => version == 0 || count == 0 || kern_subtables_fit(d, 8),
        _ => true,
    }
}

/// The `cmap` subtable at `at`.
pub open spec fn cmap_subtable_fits(d: Seq<u8>, at: int) -> bool {
    match word_at(d, at) {
        Some(10) => counted_fits(d, at, at + 16, 2),
        Some(12) => counted_fits(d, at, at + 12, 12),
        Some(13) => counted_fits(d, at, at + 12, 12),
        Some(14) => counted_fits(d, at, at + 6, 11),
        _ => true,
    }
}

/// The `cmap` subtable at `at` is in a known format, and what stands in it is there. In format 2
/// each of 256 words is eight times the number of a record.
pub open spec fn cmap_subtable_there(d: Seq<u8>, at: int) -> bool {
    match word_at(d, at) {
        Some(0) => at + 262 <= d.len(),
        Some(2) => forall|i: int| 0 <= i < 256 ==> #[trigger] cmap_key_there(d, at, i),
        Some(4) => word_at(d, at + 6) matches Some(twice) && twice >= 2 && at + 16 + 8 * (
        twice as int / 2) <= d.len(),
        Some(6) => word_at(d, at + 8) matches Some(count) && at + 10 + 2 * count <= d.len(),
        Some(8) => true,
        Some(10) => counted_there(d, at + 16, 2),
        Some(12) => counted_there(d, at + 12, 12),
        Some(13) => counted_there(d, at + 12, 12),
        Some(14) => counted_there(d, at + 6, 11),
        _ => false,
    }
}

/// Word number `i` of the `cmap` subtable of format 2 at `at` leads to a record that is there.
pub open spec fn cmap_key_there(d: Seq<u8>, at: int, i: int) -> bool {
    word_at(d, at + 6 + 2 * i) matches Some(key) && at + 518 + 8 * (key as int / 8 + 1) <= d.len()
}

/// Where the subtable stands that record number `nth` of a `cmap` table names, if its platform is
/// known.
pub open spec fn cmap_subtable_of(d: Seq<u8>, nth: int) -> Option<int> {
    match (word_at(d, 4 + 8 * nth), long_at(d, 8 + 8 * nth)) {
        (Some(platform), Some(offset)) => if platform <= 4 {
            Some(offset as int)
        } else {
            None
        },
        _ => None,
    }
}

/// The subtables of a `cmap` table of `count` records, from number `nth` on. Each is read if the
/// one before it is there.
pub open spec fn cmap_subtables_fit(d: Seq<u8>, count: int, nth: int) -> bool
    decreases left(count, nth),
{
    if nth >= count {
        true
    } else {
        match cmap_subtable_of(d, nth) {
            Some(at) => {
                &&& cmap_subtable_fits(d, at)
                &&& cmap_subtable_there(d, at) ==> cmap_subtables_fit(d, count, nth + 1)
            },
            None => true,
        }
    }
}

/// The subtables of a `cmap` table, which are read if all of its records are there.
pub open spec fn cmap_fits(d: Seq<u8>) -> bool {
    word_at(d, 2) matches Some(count) ==> 4 + 8 * count <= d.len() ==> cmap_subtables_fit(
        d,
        count as int,
        0,
    )
}

/// The table that the directory record at `at` names, if the resource holds it.
pub open spec fn table_of(bytes: Seq<u8>, at: int) -> Option<Seq<u8>> {
    match (long_at(bytes, at + 8), long_at(bytes, at + 12)) {
        (Some(offset), Some(len)) => if offset + len <= bytes.len() {
            Some(bytes.subrange(offset as int, offset + len))
        } else {
            None
        },
        _ => None,
    }
}

/// The directory record at `at` is one for that tag. It is passed over if the table ends where no
/// address of the machine leads.
pub open spec fn is_record_for(bytes: Seq<u8>, at: int, tag: u32) -> bool {
    match (long_at(bytes, at), long_at(bytes, at + 8), long_at(bytes, at + 12)) {
        (Some(name), Some(offset), Some(len)) => name == tag && offset + len <= usize::MAX,
        _ => false,
    }
}

/// The table with that tag that the first `count` directory records of the face at `start` name.
/// The last record for the tag counts.
pub open spec fn table_among(bytes: Seq<u8>, start: int, tag: u32, count: nat) -> Option<Seq<u8>>
    decreases count,
{
    if count == 0 {
        None
    } else if is_record_for(bytes, record_at(start, count - 1), tag) {
        table_of(bytes, record_at(start, count - 1))
    } else {
        table_among(bytes, start, tag, (count - 1) as nat)
    }
}

/// The table with that tag of the face at `start`.
pub open spec fn face_table(bytes: Seq<u8>, start: int, tag: u32) -> Option<Seq<u8>> {
    table_among(bytes, start, tag, record_count(bytes, start))
}

/// The `head` table can be used: it has 16 to 16384 units, and a known form of offsets.
pub open spec fn head_usable(d: Seq<u8>) -> bool {
    &&& d.len() >= 54
    &&& word_at(d, 18) matches Some(units) && 16 <= units <= 16384
    &&& word_at(d, 50) == Some(0u16) || word_at(d, 50) == Some(1u16)
}

/// The `maxp` table can be used: its version is known, and there are glyphs.
pub open spec fn maxp_usable(d: Seq<u8>) -> bool {
    &&& long_at(d, 0) == Some(0x5000u32) || long_at(d, 0) == Some(0x1_0000u32)
    &&& word_at(d, 4) matches Some(glyphs) && glyphs != 0
}

/// The `CPAL` table can be used: its palettes and colors are there.
pub open spec fn cpal_usable(d: Seq<u8>) -> bool {
    match (word_at(d, 0), word_at(d, 4), word_at(d, 6), long_at(d, 8)) {
        (Some(version), Some(palettes), Some(colors), Some(offset)) => {
            &&& version <= 1
            &&& palettes != 0
            &&& 12 + 2 * palettes <= d.len()
            &&& offset + 4 * colors <= d.len()
        },
        _ => false,
    }
}

/// The face at `start` has all tables without which none is read.
pub open spec fn face_readable(bytes: Seq<u8>, start: int) -> bool {
    &&& face_table(bytes, start, TAG_HEAD) matches Some(head) && head_usable(head)
    &&& face_table(bytes, start, TAG_HHEA) matches Some(hhea) && hhea.len() >= 36
    &&& face_table(bytes, start, TAG_MAXP) matches Some(maxp) && maxp_usable(maxp)
}

/// The directory record at `at` names no table that is too long.
pub open spec fn length_fits(bytes: Seq<u8>, at: int) -> bool {
    table_of(bytes, at) matches Some(d) ==> d.len() <= TABLE_LEN
}

/// The table with that tag is in range, if it is one of those that depend on no other.
pub open spec fn table_fits(tag: u32, d: Seq<u8>) -> bool {
    match tag {
        TAG_GDEF => gdef_fits(d),
        TAG_GPOS => layout_fits(d),
        TAG_GSUB => layout_fits(d),
        TAG_HVAR => metrics_fit(d),
        TAG_VVAR => metrics_fit(d),
        TAG_MVAR => mvar_fits(d),
        TAG_KERN => kern_fits(d),
        TAG_CMAP => cmap_fits(d),
        TAG_CFF => cff_fits(d),
        TAG_CFF2 => cff2_fits(d),
        _ => true,
    }
}

/// The table with that tag of the face at `start` is in range.
pub open spec fn face_table_fits(bytes: Seq<u8>, start: int, tag: u32) -> bool {
    face_table(bytes, start, tag) matches Some(d) ==> table_fits(tag, d)
}

/// All tables of the face at `start` are in range. A `COLR` table is read if the face has colors.
pub open spec fn tables_fit(bytes: Seq<u8>, start: int) -> bool {
    let colored = face_table(bytes, start, TAG_CPAL) matches Some(cpal) && cpal_usable(cpal);
    &&& forall|nth: int|
        0 <= nth < record_count(bytes, start) ==> length_fits(
            bytes,
            #[trigger] record_at(start, nth),
        )
    &&& face_table(bytes, start, TAG_SBIX) matches Some(d) ==> sbix_fits(
        d,
        face_table(bytes, start, TAG_MAXP)->0,
    )
    &&& face_table(bytes, start, TAG_COLR) matches Some(d) ==> !colored || colr_fits(d)
    &&& face_table_fits(bytes, start, TAG_GDEF)
    &&& face_table_fits(bytes, start, TAG_GPOS)
    &&& face_table_fits(bytes, start, TAG_GSUB)
    &&& face_table_fits(bytes, start, TAG_HVAR)
    &&& face_table_fits(bytes, start, TAG_VVAR)
    &&& face_table_fits(bytes, start, TAG_MVAR)
    &&& face_table_fits(bytes, start, TAG_KERN)
    &&& face_table_fits(bytes, start, TAG_CMAP)
    &&& face_table_fits(bytes, start, TAG_CFF)
    &&& face_table_fits(bytes, start, TAG_CFF2)
}

/// The long that a face starts with.
pub open spec fn is_face_magic(magic: Option<u32>) -> bool {
    magic == Some(0x0001_0000u32) || magic == Some(0x7472_7565u32) || magic == Some(0x4F54_544Fu32)
}

/// How many records the directory of the face at `start` has.
pub open spec fn record_count(bytes: Seq<u8>, start: int) -> nat {
    match word_at(bytes, start + 4) {
        Some(count) => count as nat,
        None => 0,
    }
}

/// The face at `start`: its directory ends in range and has no more records than a word can count
/// past, and all of its tables are in range, if they are read.
pub open spec fn face_fits(bytes: Seq<u8>, start: int) -> bool {
    &&& start + 4 <= REACH
    &&& is_face_magic(long_at(bytes, start)) ==> {
        &&& start + 6 <= REACH
        &&& word_at(bytes, start + 4) matches Some(count) ==> {
            &&& start + 12 + 16 * count <= REACH
            &&& start + 12 + 16 * count <= bytes.len() ==> {
                &&& count < 0xFFFF
                &&& face_readable(bytes, start) ==> tables_fit(bytes, start)
            }
        }
    }
}

/// Where the directory record number `nth` of the face at `start` stands.
pub open spec fn record_at(start: int, nth: int) -> int {
    start + 12 + 16 * nth
}

/// Where the first face of a collection starts, if all of the collection's offsets are there and
/// it starts behind them.
pub open spec fn first_face(bytes: Seq<u8>) -> Option<int> {
    match (long_at(bytes, 8), long_at(bytes, 12)) {
        (Some(count), Some(start)) => if count >= 1 && 12 + 4 * count <= start <= bytes.len() {
            Some(start as int)
        } else {
            None
        },
        _ => None,
    }
}

/// Every sum that reading the resource as a scalable font can come to is in range. Of a
/// collection only the first face is read.
pub open spec fn parses_in_range(bytes: Seq<u8>) -> bool {
    if long_at(bytes, 0) == Some(0x7474_6366u32) {
        &&& counted_fits(bytes, 0, 8, 4)
        &&& first_face(bytes) matches Some(start) ==> face_fits(bytes, start)
    } else {
        face_fits(bytes, 0)
    }
}

/// Reads the word at `at`.
pub(crate) fn word_of(d: &[u8], at: u64) -> (value: Option<u16>)
    ensures
        value == word_at(d@, at as int),
{
    if at < d.len() as u64 {
        resource_word(d, at as usize)
    } else {
        None
    }
}

/// Reads the long at `at`.
pub(crate) fn long_of(d: &[u8], at: u64) -> (value: Option<u32>)
    ensures
        value == long_at(d@, at as int),
{
    if at < d.len() as u64 {
        resource_long(d, at as usize)
    } else {
        None
    }
}

/// Tells whether the counted records at `at` end in range.
fn check_counted(d: &[u8], base: u64, at: u64, size: u64) -> (fits: bool)
    requires
        base <= at <= 0x1_0000_0010,
        size <= 16,
    ensures
        fits == counted_fits(d@, base as int, at as int, size as int),
{
    match long_of(d, at) {
        Some(count) => {
            assert(0 <= count * size <= 0xFFFF_FFFF * 16) by (nonlinear_arith)
                requires
                    0 <= count <= 0xFFFF_FFFF,
                    0 <= size <= 16,
            ;
            at - base + 4 + count as u64 * size <= REACH
        },
        None => true,
    }
}

/// Tells whether the counted records at `at` are there.
fn counted_present(d: &[u8], at: u64, size: u64) -> (there: bool)
    requires
        at <= 0x1_0000_0010,
        size <= 16,
    ensures
        there == counted_there(d@, at as int, size as int),
{
    match long_of(d, at) {
        Some(count) => {
            assert(0 <= count * size <= 0xFFFF_FFFF * 16) by (nonlinear_arith)
                requires
                    0 <= count <= 0xFFFF_FFFF,
                    0 <= size <= 16,
            ;
            at + 4 + count as u64 * size <= d.len() as u64
        },
        None => false,
    }
}

/// Tells whether the variation store at `at` is in range.
pub(crate) fn check_store(d: &[u8], base: u64, at: u64) -> (fits: bool)
    requires
        base <= at <= 0x1_0000_0010,
    ensures
        fits == store_fits(d@, base as int, at as int),
{
    match (word_of(d, at), long_of(d, at + 2), word_of(d, at + 6)) {
        (Some(1), Some(regions), Some(count)) => at + 8 + 4 * count as u64 > d.len() as u64 || at
            - base + regions as u64 + 2 <= REACH,
        _ => true,
    }
}

/// Tells whether the variation store at `at` is there.
pub(crate) fn store_present(d: &[u8], at: u64) -> (there: bool)
    requires
        at <= 0x1_0000_0010,
    ensures
        there == store_there(d@, at as int),
{
    match (word_of(d, at), long_of(d, at + 2), word_of(d, at + 6)) {
        (Some(1), Some(regions), Some(count)) => {
            if at + 8 + 4 * count as u64 > d.len() as u64 {
                return false;
            }
            let place: u64 = at + regions as u64;
            match (word_of(d, place), word_of(d, place + 2)) {
                (Some(axes), Some(number)) => {
                    assert(0 <= axes * number <= 0xFFFF * 0xFFFF) by (nonlinear_arith)
                        requires
                            0 <= axes <= 0xFFFF,
                            0 <= number <= 0xFFFF,
                    ;
                    let records: u64 = axes as u64 * number as u64;
                    records <= 0xFFFF && place + 4 + 6 * records <= d.len() as u64
                },
                _ => false,
            }
        },
        _ => false,
    }
}

fn check_sbix(d: &[u8], maxp: &[u8]) -> (fits: bool)
    ensures
        fits == sbix_fits(d@, maxp@),
{
    match (word_of(d, 0), word_of(maxp, 4)) {
        (_, Some(0xFFFF)) => true,
        (Some(1), _) => check_counted(d, 0, 4, 4),
        _ => true,
    }
}

fn colr_present(d: &[u8]) -> (there: bool)
    ensures
        there == colr_there(d@),
{
    match (word_of(d, 2), long_of(d, 4), long_of(d, 8), word_of(d, 12), long_of(d, 30)) {
        (Some(number), Some(glyphs), Some(layers), Some(count), Some(_)) => glyphs as u64 + 6
            * number as u64 <= d.len() as u64 && layers as u64 + 4 * count as u64 <= d.len() as u64,
        _ => false,
    }
}

fn check_colr(d: &[u8]) -> (fits: bool)
    ensures
        fits == colr_fits(d@),
{
    match word_of(d, 0) {
        Some(1) => {},
        _ => return true,
    }
    if !colr_present(d) {
        return true;
    }
    match (long_of(d, 14), long_of(d, 18), long_of(d, 22), long_of(d, 30)) {
        (Some(paints), Some(layers), Some(clips), Some(store)) => {
            if !check_counted(d, 0, paints as u64, 6) {
                return false;
            }
            if !counted_present(d, paints as u64, 6) {
                return true;
            }
            if layers != 0 {
                if !check_counted(d, 0, layers as u64, 4) {
                    return false;
                }
                if !counted_present(d, layers as u64, 4) {
                    return true;
                }
            }
            if clips != 0 {
                if !check_counted(d, clips as u64, clips as u64 + 1, 7) {
                    return false;
                }
                if !counted_present(d, clips as u64 + 1, 7) {
                    return true;
                }
            }
            store == 0 || check_store(d, store as u64, store as u64)
        },
        _ => true,
    }
}

fn check_gdef(d: &[u8]) -> (fits: bool)
    ensures
        fits == gdef_fits(d@),
{
    match (long_of(d, 0), word_of(d, 12), long_of(d, 14)) {
        (Some(0x1_0003), Some(marks), Some(store)) => {
            if store == 0 {
                return true;
            }
            if marks != 0 && marks as u64 <= d.len() as u64 && word_of(d, marks as u64).is_none() {
                return true;
            }
            check_store(d, store as u64, store as u64)
        },
        _ => true,
    }
}

fn list_present(d: &[u8], at: u64, size: u64) -> (there: bool)
    requires
        size <= 6,
    ensures
        there == list_there(d@, at as int, size as int),
{
    match word_of(d, at) {
        Some(offset) => match word_of(d, offset as u64) {
            Some(count) => {
                assert(0 <= count * size <= 0xFFFF * 6) by (nonlinear_arith)
                    requires
                        0 <= count <= 0xFFFF,
                        0 <= size <= 6,
                ;
                offset as u64 + 2 + count as u64 * size <= d.len() as u64
            },
            None => false,
        },
        None => false,
    }
}

fn check_layout(d: &[u8]) -> (fits: bool)
    ensures
        fits == layout_fits(d@),
{
    match (word_of(d, 0), word_of(d, 2), long_of(d, 10)) {
        (Some(1), Some(minor), Some(variations)) => {
            if minor == 0 || variations == 0 {
                return true;
            }
            if !(list_present(d, 4, 6) && list_present(d, 6, 6) && list_present(d, 8, 2)) {
                return true;
            }
            match word_of(d, variations as u64) {
                Some(1) => check_counted(d, variations as u64, variations as u64 + 4, 8),
                _ => true,
            }
        },
        _ => true,
    }
}

fn check_metrics(d: &[u8]) -> (fits: bool)
    ensures
        fits == metrics_fit(d@),
{
    match (long_of(d, 0), long_of(d, 4)) {
        (Some(0x1_0000), Some(store)) => check_store(d, 0, store as u64),
        _ => true,
    }
}

fn check_mvar(d: &[u8]) -> (fits: bool)
    ensures
        fits == mvar_fits(d@),
{
    match (long_of(d, 0), word_of(d, 6), word_of(d, 8), word_of(d, 10)) {
        (Some(0x1_0000), Some(8), Some(count), Some(store)) => count == 0 || store == 0 || 12 + 8
            * count as u64 > d.len() as u64 || check_store(d, 0, store as u64),
        _ => true,
    }
}

fn kern_subtable_present(d: &[u8], at: u64, to: u64) -> (there: bool)
    requires
        at + 5 < d@.len() <= TABLE_LEN,
    ensures
        there == kern_subtable_there(d@, at as int, to as int),
{
    if to > d.len() as u64 {
        return false;
    }
    match d[(at + 5) as usize] {
        0 => match word_of(d, at + 8) {
            Some(count) => at + 16 + 6 * count as u64 <= to,
            None => false,
        },
        1 => match (word_of(d, at + 10), word_of(d, at + 12), word_of(d, at + 14)) {
            (Some(classes), Some(states), Some(entries)) => {
                let start: u64 = at + 8;
                match word_of(d, start + classes as u64 + 2) {
                    Some(count) => start + 8 <= to && start + classes as u64 + 4 + count as u64
                        <= to && start + states as u64 <= to && start + entries as u64 <= to,
                    None => false,
                }
            },
            _ => false,
        },
        _ => true,
    }
}

fn check_kern(d: &[u8]) -> (fits: bool)
    requires
        d@.len() <= TABLE_LEN,
    ensures
        fits == kern_fits(d@),
{
    match (word_of(d, 0), long_of(d, 4)) {
        (Some(version), Some(count)) => if version == 0 || count == 0 {
            return true;
        },
        _ => return true,
    }
    let mut at: u64 = 8;
    while at < d.len() as u64
        invariant
            d@.len() <= TABLE_LEN,
            8 <= at,
            kern_fits(d@) == kern_subtables_fit(d@, at as int),
        decreases left(d@.len() as int, at as int),
    {
        match long_of(d, at) {
            Some(len) => {
                if at + 5 >= d.len() as u64 || d[(at + 5) as usize] > 3 || len < 8 {
                    return true;
                }
                if at - 8 + len as u64 > REACH {
                    return false;
                }
                if !kern_subtable_present(d, at, at + len as u64) {
                    return true;
                }
                at = at + len as u64;
            },
            None => return true,
        }
    }
    true
}

fn check_cmap_subtable(d: &[u8], at: u64) -> (fits: bool)
    requires
        at <= REACH,
    ensures
        fits == cmap_subtable_fits(d@, at as int),
{
    match word_of(d, at) {
        Some(10) => check_counted(d, at, at + 16, 2),
        Some(12) => check_counted(d, at, at + 12, 12),
        Some(13) => check_counted(d, at, at + 12, 12),
        Some(14) => check_counted(d, at, at + 6, 11),
        _ => true,
    }
}

fn cmap_keys_present(d: &[u8], at: u64) -> (there: bool)
    requires
        at <= REACH,
    ensures
        there == (forall|i: int| 0 <= i < 256 ==> #[trigger] cmap_key_there(d@, at as int, i)),
{
    let mut i: u64 = 0;
    while i < 256
        invariant
            at <= REACH,
            i <= 256,
            forall|k: int| 0 <= k < i ==> #[trigger] cmap_key_there(d@, at as int, k),
        decreases 256 - i,
    {
        let there = match word_of(d, at + 6 + 2 * i) {
            Some(key) => at + 518 + 8 * (key as u64 / 8 + 1) <= d.len() as u64,
            None => false,
        };
        assert(there == cmap_key_there(d@, at as int, i as int));
        if !there {
            return false;
        }
        i = i + 1;
    }
    true
}

fn cmap_subtable_present(d: &[u8], at: u64) -> (there: bool)
    requires
        at <= REACH,
    ensures
        there == cmap_subtable_there(d@, at as int),
{
    match word_of(d, at) {
        Some(0) => at + 262 <= d.len() as u64,
        Some(2) => cmap_keys_present(d, at),
        Some(4) => match word_of(d, at + 6) {
            Some(twice) => twice >= 2 && at + 16 + 8 * (twice as u64 / 2) <= d.len() as u64,
            None => false,
        },
        Some(6) => match word_of(d, at + 8) {
            Some(count) => at + 10 + 2 * count as u64 <= d.len() as u64,
            None => false,
        },
        Some(8) => true,
        Some(10) => counted_present(d, at + 16, 2),
        Some(12) => counted_present(d, at + 12, 12),
        Some(13) => counted_present(d, at + 12, 12),
        Some(14) => counted_present(d, at + 6, 11),
        _ => false,
    }
}

fn check_cmap(d: &[u8]) -> (fits: bool)
    ensures
        fits == cmap_fits(d@),
{
    let count: u64 = match word_of(d, 2) {
        Some(count) => count as u64,
        None => return true,
    };
    if 4 + 8 * count > d.len() as u64 {
        return true;
    }
    let mut nth: u64 = 0;
    while nth < count
        invariant
            nth <= count <= 0xFFFF,
            cmap_fits(d@) == cmap_subtables_fit(d@, count as int, nth as int),
        decreases count - nth,
    {
        match (word_of(d, 4 + 8 * nth), long_of(d, 8 + 8 * nth)) {
            (Some(platform), Some(offset)) => {
                if platform > 4 {
                    return true;
                }
                if !check_cmap_subtable(d, offset as u64) {
                    return false;
                }
                if !cmap_subtable_present(d, offset as u64) {
                    return true;
                }
            },
            _ => return true,
        }
        nth = nth + 1;
    }
    true
}

/// Finds the table that the directory record at `at` names.
fn find_table(bytes: &[u8], at: u64) -> (found: Option<&[u8]>)
    requires
        at <= 0x2_0000_0000,
    ensures
        match found {
            Some(d) => table_of(bytes@, at as int) == Some(d@),
            None => table_of(bytes@, at as int) is None,
        },
{
    match (long_of(bytes, at + 8), long_of(bytes, at + 12)) {
        (Some(offset), Some(len)) => {
            let end: u64 = offset as u64 + len as u64;
            if end <= bytes.len() as u64 {
                Some(vstd::slice::slice_subrange(bytes, offset as usize, end as usize))
            } else {
                None
            }
        },
        _ => None,
    }
}

/// Finds the table with that tag of the face at `start`.
fn find_face_table(bytes: &[u8], start: u64, count: u64, tag: u32) -> (found: Option<&[u8]>)
    requires
        start <= REACH,
        count == record_count(bytes@, start as int),
    ensures
        match found {
            Some(d) => face_table(bytes@, start as int, tag) == Some(d@),
            None => face_table(bytes@, start as int, tag) is None,
        },
{
    let mut rest: u64 = count;
    while rest > 0
        invariant
            start <= REACH,
            rest <= 0xFFFF,
            face_table(bytes@, start as int, tag) == table_among(
                bytes@,
                start as int,
                tag,
                rest as nat,
            ),
        decreases rest,
    {
        rest = rest - 1;
        let at: u64 = start + 12 + 16 * rest;
        assert(at == record_at(start as int, rest as int));
        match (long_of(bytes, at), long_of(bytes, at + 8), long_of(bytes, at + 12)) {
            (Some(name), Some(offset), Some(len)) => {
                if name == tag && offset as u64 + len as u64 <= usize::MAX as u64 {
                    return find_table(bytes, at);
                }
            },
            _ => {},
        }
    }
    None
}

fn is_head_usable(d: &[u8]) -> (ok: bool)
    ensures
        ok == head_usable(d@),
{
    match (word_of(d, 18), word_of(d, 50)) {
        (Some(units), Some(form)) => d.len() >= 54 && 16 <= units && units <= 16384 && form <= 1,
        _ => false,
    }
}

fn is_maxp_usable(d: &[u8]) -> (ok: bool)
    ensures
        ok == maxp_usable(d@),
{
    match (long_of(d, 0), word_of(d, 4)) {
        (Some(version), Some(glyphs)) => (version == 0x5000 || version == 0x1_0000) && glyphs != 0,
        _ => false,
    }
}

fn is_cpal_usable(d: &[u8]) -> (ok: bool)
    ensures
        ok == cpal_usable(d@),
{
    match (word_of(d, 0), word_of(d, 4), word_of(d, 6), long_of(d, 8)) {
        (Some(version), Some(palettes), Some(colors), Some(offset)) => version <= 1 && palettes != 0
            && 12 + 2 * palettes as u64 <= d.len() as u64 && offset as u64 + 4 * colors as u64
            <= d.len() as u64,
        _ => false,
    }
}

/// Tells whether the face at `start` names no table that is too long.
fn check_lengths(bytes: &[u8], start: u64, count: u64) -> (fits: bool)
    requires
        start <= REACH,
        count == record_count(bytes@, start as int),
    ensures
        fits == (forall|nth: int|
            0 <= nth < count ==> length_fits(bytes@, #[trigger] record_at(start as int, nth))),
{
    let mut nth: u64 = 0;
    while nth < count
        invariant
            start <= REACH,
            nth <= count <= 0xFFFF,
            forall|i: int|
                0 <= i < nth ==> length_fits(bytes@, #[trigger] record_at(start as int, i)),
        decreases count - nth,
    {
        let at: u64 = start + 12 + 16 * nth;
        assert(at == record_at(start as int, nth as int));
        if let Some(d) = find_table(bytes, at) {
            if d.len() as u64 > TABLE_LEN {
                return false;
            }
        }
        nth = nth + 1;
    }
    true
}

/// Tells whether the table with that tag of the face at `start` is in range.
fn check_table(bytes: &[u8], start: u64, count: u64, tag: u32) -> (fits: bool)
    requires
        start <= REACH,
        count == record_count(bytes@, start as int),
        face_table(bytes@, start as int, tag) matches Some(d) ==> d.len() <= TABLE_LEN,
    ensures
        fits == face_table_fits(bytes@, start as int, tag),
{
    match find_face_table(bytes, start, count, tag) {
        Some(d) => match tag {
            TAG_GDEF => check_gdef(d),
            TAG_GPOS => check_layout(d),
            TAG_GSUB => check_layout(d),
            TAG_HVAR => check_metrics(d),
            TAG_VVAR => check_metrics(d),
            TAG_MVAR => check_mvar(d),
            TAG_KERN => check_kern(d),
            TAG_CMAP => check_cmap(d),
            TAG_CFF => check_cff(d),
            TAG_CFF2 => check_cff2(d),
            _ => true,
        },
        None => true,
    }
}

/// A table that a face names is named by one of its records.
proof fn lemma_table_named(bytes: Seq<u8>, start: int, tag: u32, count: nat)
    ensures
        table_among(bytes, start, tag, count) matches Some(d) ==> exists|nth: int|
            0 <= nth < count && table_of(bytes, #[trigger] record_at(start, nth)) == Some(d),
    decreases count,
{
    if count > 0 {
        lemma_table_named(bytes, start, tag, (count - 1) as nat);
        assert(record_at(start, count - 1) == start + 12 + 16 * (count - 1));
    }
}

/// No table of the face is too long, if none that it names is.
proof fn lemma_lengths(bytes: Seq<u8>, start: int)
    requires
        forall|nth: int|
            0 <= nth < record_count(bytes, start) ==> length_fits(
                bytes,
                #[trigger] record_at(start, nth),
            ),
    ensures
        forall|tag: u32|
            (#[trigger] face_table(bytes, start, tag)) matches Some(d) ==> d.len() <= TABLE_LEN,
{
    assert forall|tag: u32|
        (#[trigger] face_table(bytes, start, tag)) matches Some(d) ==> d.len() <= TABLE_LEN by {
        lemma_table_named(bytes, start, tag, record_count(bytes, start));
    }
}

fn check_tables(bytes: &[u8], start: u64, count: u64, maxp: &[u8]) -> (fits: bool)
    requires
        start <= REACH,
        count == record_count(bytes@, start as int),
        face_table(bytes@, start as int, TAG_MAXP) == Some(maxp@),
    ensures
        fits == tables_fit(bytes@, start as int),
{
    if !check_lengths(bytes, start, count) {
        return false;
    }
    proof {
        lemma_lengths(bytes@, start as int);
    }
    if let Some(d) = find_face_table(bytes, start, count, TAG_SBIX) {
        if !check_sbix(d, maxp) {
            return false;
        }
    }
    if let Some(d) = find_face_table(bytes, start, count, TAG_COLR) {
        let colored = match find_face_table(bytes, start, count, TAG_CPAL) {
            Some(cpal) => is_cpal_usable(cpal),
            None => false,
        };
        if colored && !check_colr(d) {
            return false;
        }
    }
    check_table(bytes, start, count, TAG_GDEF)
        && check_table(bytes, start, count, TAG_GPOS)
        && check_table(bytes, start, count, TAG_GSUB)
        && check_table(bytes, start, count, TAG_HVAR)
        && check_table(bytes, start, count, TAG_VVAR)
        && check_table(bytes, start, count, TAG_MVAR)
        && check_table(bytes, start, count, TAG_KERN)
        && check_table(bytes, start, count, TAG_CMAP)
        && check_table(bytes, start, count, TAG_CFF)
        && check_table(bytes, start, count, TAG_CFF2)
}

fn check_face(bytes: &[u8], start: u64) -> (fits: bool)
    requires
        start <= REACH,
    ensures
        fits == face_fits(bytes@, start as int),
{
    if start + 4 > REACH {
        return false;
    }
    match long_of(bytes, start) {
        Some(0x0001_0000) => {},
        Some(0x7472_7565) => {},
        Some(0x4F54_544F) => {},
        _ => return true,
    }
    if start + 6 > REACH {
        return false;
    }
    let count: u64 = match word_of(bytes, start + 4) {
        Some(count) => count as u64,
        None => return true,
    };
    let end: u64 = start + 12 + 16 * count;
    if end > REACH {
        return false;
    }
    if end > bytes.len() as u64 {
        return true;
    }
    if count == 0xFFFF {
        return false;
    }
    match (
        find_face_table(bytes, start, count, TAG_HEAD),
        find_face_table(bytes, start, count, TAG_HHEA),
        find_face_table(bytes, start, count, TAG_MAXP),
    ) {
        (Some(head), Some(hhea), Some(maxp)) => !is_head_usable(head) || hhea.len() < 36
            || !is_maxp_usable(maxp) || check_tables(bytes, start, count, maxp),
        _ => true,
    }
}

/// Tells whether every sum that reading the resource as a scalable font can come to is in range.
pub fn outline_parses_in_range(bytes: &[u8]) -> (in_range: bool)
    ensures
        in_range == parses_in_range(bytes@),
{
    match long_of(bytes, 0) {
        Some(0x7474_6366) => {
            if !check_counted(bytes, 0, 8, 4) {
                return false;
            }
            match (long_of(bytes, 8), long_of(bytes, 12)) {
                (Some(count), Some(start)) => if count >= 1 && 12 + 4 * count as u64 <= start as u64
                    && start as u64 <= bytes.len() as u64 {
                    check_face(bytes, start as u64)
                } else {
                    true
                },
                _ => true,
            }
        },
        _ => check_face(bytes, 0),
    }
}

} // verus!
