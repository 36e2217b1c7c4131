//! What reading gives back of what was written: words, and the tables of `FOND` resources.
use crate::resource::{associations, long_at, signed, word_at, FondAssociation};
use vstd::prelude::*;

verus! {

/// A word as it stands in a resource: the high byte first.
pub open spec fn written_word(value: u16) -> Seq<u8> {
    seq![(value / 256) as u8, (value % 256) as u8]
}

/// A long as it stands in a resource: the highest byte first.
pub open spec fn written_long(value: u32) -> Seq<u8> {
    written_word((value / 65536) as u16) + written_word((value % 65536) as u16)
}

/// A word that was written is read where it was written, whatever stands around it.
pub proof fn law_words_are_read_back(before: Seq<u8>, value: u16, after: Seq<u8>)
    ensures
        word_at(before + written_word(value) + after, before.len() as int) == Some(value),
{
    let data = before + written_word(value) + after;
    assert(data[before.len() as int] == value / 256);
    assert(data[before.len() as int + 1] == value % 256);
}

/// A long that was written is read where it was written, whatever stands around it.
pub proof fn law_longs_are_read_back(before: Seq<u8>, value: u32, after: Seq<u8>)
    ensures
        long_at(before + written_long(value) + after, before.len() as int) == Some(value),
{
    let data = before + written_long(value) + after;
    let at = before.len() as int;
    assert(data[at] == (value / 65536) / 256);
    assert(data[at + 1] == (value / 65536) % 256);
    assert(data[at + 2] == (value % 65536) / 256);
    assert(data[at + 3] == (value % 65536) % 256);
}

/// A word is read if both of its bytes are there, and else it is not; so is a long.
pub proof fn law_only_what_is_there_is_read(data: Seq<u8>, offset: int)
    ensures
        word_at(data, offset) is Some <==> 0 <= offset <= data.len() - 2,
        long_at(data, offset) is Some <==> 0 <= offset <= data.len() - 4,
{
}

/// A word that is read as a number with a sign is that number or the number that is 65536 more.
pub proof fn law_signs_are_two_complement(value: u16)
    ensures
        signed(value) == value || signed(value) == value - 65536,
{
}

/// A number with a sign as a word.
pub open spec fn unsigned(value: i16) -> u16 {
    if value < 0 {
        (value + 65536) as u16
    } else {
        value as u16
    }
}

/// Entries of an association table as they stand in a resource: size, style and resource number
/// of each, one entry behind the other.
pub open spec fn written_entries(entries: Seq<(i16, u16, i16)>) -> Seq<u8>
    decreases entries.len(),
{
    if entries.len() == 0 {
        Seq::empty()
    } else {
        let (size, style, resource) = entries.last();
        written_entries(entries.drop_last()) + written_word(unsigned(size)) + written_word(style)
            + written_word(unsigned(resource))
    }
}

/// A `FOND` resource: a record, the number of entries less one, the entries, and what may follow.
pub open spec fn written_fond(
    record: Seq<u8>,
    entries: Seq<(i16, u16, i16)>,
    after: Seq<u8>,
) -> Seq<u8> {
    record + written_word(unsigned((entries.len() - 1) as i16)) + written_entries(entries) + after
}

proof fn lemma_written_len(entries: Seq<(i16, u16, i16)>)
    ensures
        written_entries(entries).len() == 6 * entries.len(),
    decreases entries.len(),
{
    if entries.len() > 0 {
        lemma_written_len(entries.drop_last());
    }
}

/// Entry number `nth` stands at six times its number.
proof fn lemma_written_entry(entries: Seq<(i16, u16, i16)>, nth: int)
    requires
        0 <= nth < entries.len(),
    ensures
        ({
            let data = written_entries(entries);
            let (size, style, resource) = entries[nth];
            &&& data[6 * nth] == unsigned(size) / 256
            &&& data[6 * nth + 1] == unsigned(size) % 256
            &&& data[6 * nth + 2] == style / 256
            &&& data[6 * nth + 3] == style % 256
            &&& data[6 * nth + 4] == unsigned(resource) / 256
            &&& data[6 * nth + 5] == unsigned(resource) % 256
        }),
    decreases entries.len(),
{
    lemma_written_len(entries);
    lemma_written_len(entries.drop_last());
    let last = entries.len() - 1;
    if nth < last {
        lemma_written_entry(entries.drop_last(), nth);
        let shorter = written_entries(entries.drop_last());
        let data = written_entries(entries);
        assert forall|i: int| 0 <= i < shorter.len() implies data[i] == shorter[i] by {}
        assert(entries.drop_last()[nth] == entries[nth]);
    }
}

/// Of a `FOND` resource that holds a list of entries, exactly those entries are read, in their
/// order, all for the family that the resource's own number names.
pub proof fn law_written_associations_are_read_back(
    fond_resource_id: i16,
    record: Seq<u8>,
    entries: Seq<(i16, u16, i16)>,
    after: Seq<u8>,
)
    requires
        record.len() == 52,
        entries.len() <= 32768,
    ensures
        associations(fond_resource_id, written_fond(record, entries, after)) == Some(
            entries.map_values(
                |entry: (i16, u16, i16)|
                    FondAssociation {
                        family_id: fond_resource_id,
                        size: entry.0,
                        style: entry.1,
                        font_resource_id: entry.2,
                    },
            ),
        ),
{
    let data = written_fond(record, entries, after);
    let table = written_entries(entries);
    let count = unsigned((entries.len() - 1) as i16);
    lemma_written_len(entries);
    assert(data[52] == count / 256);
    assert(data[53] == count % 256);
    assert forall|i: int| 0 <= i < table.len() implies data[54 + i] == #[trigger] table[i] by {}
    let read = associations(fond_resource_id, data)->0;
    assert forall|nth: int| 0 <= nth < entries.len() implies {
        let entry = #[trigger] read[nth];
        &&& entry.family_id == fond_resource_id
        &&& entry.size == entries[nth].0
        &&& entry.style == entries[nth].1
        &&& entry.font_resource_id == entries[nth].2
    } by {
        lemma_written_entry(entries, nth);
        assert(data[54 + 6 * nth] == table[6 * nth]);
        assert(data[54 + (6 * nth + 1)] == table[6 * nth + 1]);
        assert(data[54 + (6 * nth + 2)] == table[6 * nth + 2]);
        assert(data[54 + (6 * nth + 3)] == table[6 * nth + 3]);
        assert(data[54 + (6 * nth + 4)] == table[6 * nth + 4]);
        assert(data[54 + (6 * nth + 5)] == table[6 * nth + 5]);
    }
    assert(read =~= entries.map_values(
        |entry: (i16, u16, i16)|
            FondAssociation {
                family_id: fond_resource_id,
                size: entry.0,
                style: entry.1,
                font_resource_id: entry.2,
            },
    ));
}

/// The entries that were read, as they are written.
spec fn entries_of(read: Seq<FondAssociation>) -> Seq<(i16, u16, i16)> {
    read.map_values(|entry: FondAssociation| (entry.size, entry.style, entry.font_resource_id))
}

/// What stands in the table is what its entries are written as.
proof fn lemma_table_byte(fond_resource_id: i16, bytes: Seq<u8>, nth: int, k: int)
    requires
        associations(fond_resource_id, bytes) matches Some(read) && 0 <= nth < read.len(),
        0 <= k < 6,
    ensures
        written_entries(entries_of(associations(fond_resource_id, bytes)->0))[6 * nth + k]
            == bytes[54 + 6 * nth + k],
{
    let read = associations(fond_resource_id, bytes)->0;
    let entries = entries_of(read);
    assert(entries[nth] == (read[nth].size, read[nth].style, read[nth].font_resource_id));
    lemma_written_entry(entries, nth);
}

proof fn lemma_table_bytes(fond_resource_id: i16, bytes: Seq<u8>, i: int)
    requires
        associations(fond_resource_id, bytes) matches Some(read) && 0 <= i < 6 * read.len(),
    ensures
        written_entries(entries_of(associations(fond_resource_id, bytes)->0))[i] == bytes[54 + i],
{
    lemma_table_byte(fond_resource_id, bytes, i / 6, i % 6);
}

/// A `FOND` resource of which entries are read holds them: it is a record, their number less one,
/// the entries, and what may follow.
pub proof fn law_read_associations_were_written(fond_resource_id: i16, bytes: Seq<u8>)
    ensures
        associations(fond_resource_id, bytes) matches Some(read) ==> {
            let entries = read.map_values(
                |entry: FondAssociation| (entry.size, entry.style, entry.font_resource_id),
            );
            let end = 54 + 6 * read.len() as int;
            &&& end <= bytes.len()
            &&& read.len() <= 32768
            &&& bytes == written_fond(
                bytes.subrange(0, 52),
                entries,
                bytes.subrange(end, bytes.len() as int),
            )
        },
{
    if let Some(read) = associations(fond_resource_id, bytes) {
        let entries = entries_of(read);
        let record = bytes.subrange(0, 52);
        let end = 54 + 6 * read.len() as int;
        let after = bytes.subrange(end, bytes.len() as int);
        let count = written_word(unsigned((entries.len() - 1) as i16));
        let table = written_entries(entries);
        lemma_written_len(entries);
        assert(count =~= bytes.subrange(52, 54));
        assert(table =~= bytes.subrange(54, end)) by {
            assert forall|i: int| 0 <= i < table.len() implies table[i] == bytes.subrange(
                54,
                end,
            )[i] by {
                lemma_table_bytes(fond_resource_id, bytes, i);
            }
        }
        assert(bytes =~= record + bytes.subrange(52, 54) + bytes.subrange(54, end) + after);
    }
}

} // verus!
