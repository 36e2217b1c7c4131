//! Big-endian words and longs of a resource, and the association table of a `FOND` resource.
use vstd::prelude::*;

verus! {

/// The big-endian word that starts at `offset`, if both of its bytes are there.
pub open spec fn word_at(data: Seq<u8>, offset: int) -> Option<u16> {
    if 0 <= offset && offset + 1 < data.len() {
        Some((data[offset] * 0x100 + data[offset + 1]) as u16)
    } else {
        None
    }
}

/// The word at `offset` of data that holds one there.
pub open spec fn word(data: Seq<u8>, offset: int) -> u16 {
    (data[offset] * 0x100 + data[offset + 1]) as u16
}

/// A word read as a two's complement number.
pub open spec fn signed(word: u16) -> i16 {
    if word < 0x8000 {
        word as i16
    } else {
        (word - 0x10000) as i16
    }
}

/// A word read as a two's complement number.
pub(crate) fn to_signed(word: u16) -> (value: i16)
    ensures
        value == signed(word),
{
    if word < 0x8000 {
        word as i16
    } else {
        (word as i32 - 0x10000) as i16
    }
}

/// Reads the big-endian word that starts at `offset`.
pub fn resource_word(data: &[u8], offset: usize) -> (value: Option<u16>)
    ensures
        value == word_at(data@, offset as int),
{
    if offset < data.len() && offset + 1 < data.len() {
        Some(data[offset] as u16 * 0x100 + data[offset + 1] as u16)
    } else {
        None
    }
}

/// The big-endian long that starts at `offset`, if all of its bytes are there.
pub open spec fn long_at(data: Seq<u8>, offset: int) -> Option<u32> {
    if 0 <= offset && offset + 3 < data.len() {
        Some(
            (data[offset] * 0x100_0000 + data[offset + 1] * 0x1_0000 + data[offset + 2] * 0x100
                + data[offset + 3]) as u32,
        )
    } else {
        None
    }
}

/// Reads the big-endian long that starts at `offset`.
pub fn resource_long(data: &[u8], offset: usize) -> (value: Option<u32>)
    ensures
        value == long_at(data@, offset as int),
{
    if offset < data.len() && data.len() - offset > 3 {
        Some(
            data[offset] as u32 * 0x100_0000 + data[offset + 1] as u32 * 0x1_0000 + data[offset
                + 2] as u32 * 0x100 + data[offset + 3] as u32,
        )
    } else {
        None
    }
}

/// One entry of a font family (`FOND`) resource's association table. `font_resource_id` names
/// the `NFNT`, `FONT` or `sfnt` resource that holds the family at that size and style.
#[derive(Clone, Copy, Debug, PartialEq, Eq)]
pub struct FondAssociation {
    pub family_id: i16,
    pub size: i16,
    pub style: u16,
    pub font_resource_id: i16,
}

/// Length of the record that a `FOND` resource starts with.
pub const FAM_REC_LEN: usize = 52;

/// Length of one entry of the association table.
pub const ASSOCIATION_LEN: usize = 6;

/// How many entries the association table announces, if the count can be read and is not
/// negative. The table stores the count less one.
pub open spec fn association_count(bytes: Seq<u8>) -> Option<int> {
    match word_at(bytes, FAM_REC_LEN as int) {
        Some(stored) => if signed(stored) < -1 {
            None
        } else {
            Some(signed(stored) + 1)
        },
        None => None,
    }
}

/// The entry at `index` of the association table.
pub open spec fn association(fond_resource_id: i16, bytes: Seq<u8>, index: int) -> FondAssociation {
    let offset = FAM_REC_LEN + 2 + index * ASSOCIATION_LEN;
    FondAssociation {
        family_id: fond_resource_id,
        size: signed(word(bytes, offset)),
        style: word(bytes, offset + 2),
        font_resource_id: signed(word(bytes, offset + 4)),
    }
}

/// The whole association table, if the resource holds every entry that it announces.
pub open spec fn associations(fond_resource_id: i16, bytes: Seq<u8>) -> Option<
    Seq<FondAssociation>,
> {
    match association_count(bytes) {
        Some(count) => if FAM_REC_LEN + 2 + count * ASSOCIATION_LEN <= bytes.len() {
            Some(Seq::new(count as nat, |index: int| association(fond_resource_id, bytes, index)))
        } else {
            None
        },
        None => None,
    }
}

/// Decodes the association table that follows the `FamRec` header of a `FOND` resource. Entries
/// belong to the family that the resource's own number names.
pub fn parse_fond_associations(fond_resource_id: i16, bytes: &[u8]) -> (table: Option<
    Vec<FondAssociation>,
>)
    ensures
        table matches Some(entries) ==> associations(fond_resource_id, bytes@) == Some(entries@),
        table is None ==> associations(fond_resource_id, bytes@) is None,
{
    let count_minus_one: i16 = match resource_word(bytes, FAM_REC_LEN) {
        Some(stored) => to_signed(stored),
        None => return None,
    };
    if count_minus_one < -1 {
        return None;
    }
    let count: usize = (count_minus_one as i32 + 1) as usize;
    let table_end: usize = FAM_REC_LEN + 2 + count * ASSOCIATION_LEN;
    if table_end > bytes.len() {
        return None;
    }
    let mut entries: Vec<FondAssociation> = Vec::with_capacity(count);
    let mut index: usize = 0;
    while index < count
        invariant
            index <= count <= 0x8000,
            FAM_REC_LEN + 2 + count * ASSOCIATION_LEN <= bytes@.len(),
            entries@.len() == index,
            forall|i: int|
                0 <= i < index ==> #[trigger] entries@[i] == association(
                    fond_resource_id,
                    bytes@,
                    i,
                ),
        decreases count - index,
    {
        let offset: usize = FAM_REC_LEN + 2 + index * ASSOCIATION_LEN;
        entries.push(
            FondAssociation {
                family_id: fond_resource_id,
                size: to_signed(resource_word(bytes, offset).unwrap()),
                style: resource_word(bytes, offset + 2).unwrap(),
                font_resource_id: to_signed(resource_word(bytes, offset + 4).unwrap()),
            },
        );
        index = index + 1;
    }
    assert(entries@ =~= associations(fond_resource_id, bytes@)->0);
    Some(entries)
}

} // verus!
