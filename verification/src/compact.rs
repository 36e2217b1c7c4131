//! How far the parts of a `CFF` or `CFF2` table reach.
//!
//! Both hold indices: lists of objects behind a list of offsets. In a `CFF` table the number of
//! objects is a word, in a `CFF2` table, whose indices are called wide here, a long. Dictionaries
//! say where some of the indices stand. In a dictionary an operator follows its operands, which
//! are whole or decimal numbers.
#[allow(unused_imports)]
use crate::decimal::decimal_value;
use crate::decimal::read_decimal;
use crate::extent::{check_store, long_of, store_present, word_of, REACH, TABLE_LEN};
#[allow(unused_imports)]
use crate::extent::{left, store_fits, store_there};
#[allow(unused_imports)]
use crate::resource::{long_at, word_at};
use vstd::prelude::*;

verus! {

/// The big-endian number of 1 to 4 bytes at `at`.
pub open spec fn number_at(d: Seq<u8>, at: int, size: int) -> int {
    if size == 1 {
        d[at] as int
    } else if size == 2 {
        d[at] * 0x100 + d[at + 1]
    } else if size == 3 {
        d[at] * 0x1_0000 + d[at + 1] * 0x100 + d[at + 2]
    } else {
        d[at] * 0x100_0000 + d[at + 1] * 0x1_0000 + d[at + 2] * 0x100 + d[at + 3]
    }
}

/// Length of the count that an index starts with.
pub open spec fn count_len(wide: bool) -> int {
    if wide {
        4
    } else {
        2
    }
}

/// The number of objects in the index at `at`.
pub open spec fn index_count(d: Seq<u8>, at: int, wide: bool) -> Option<int> {
    if wide {
        match long_at(d, at) {
            Some(count) => Some(count as int),
            None => None,
        }
    } else {
        match word_at(d, at) {
            Some(count) => Some(count as int),
            None => None,
        }
    }
}

/// An index with that count has neither offsets nor objects.
pub open spec fn is_empty_count(count: int) -> bool {
    count == 0 || count == 0xFFFF_FFFF
}

/// The number of bytes in each offset of the index at `at`, if it has offsets that can be
/// counted. There is one more of them than objects.
pub open spec fn offset_size(d: Seq<u8>, at: int, wide: bool) -> Option<int> {
    let size_at = at + count_len(wide);
    match index_count(d, at, wide) {
        Some(count) => if !is_empty_count(count) && 0 <= size_at < d.len() && 1 <= d[size_at] <= 4
            && (count + 1) * d[size_at] <= REACH {
            Some(d[size_at] as int)
        } else {
            None
        },
        None => None,
    }
}

/// Where the offsets of the index at `at` end and its objects start.
pub open spec fn offsets_end(d: Seq<u8>, at: int, wide: bool) -> int {
    at + count_len(wide) + 1 + (index_count(d, at, wide)->0 + 1) * offset_size(d, at, wide)->0
}

/// Where the index at `at` ends, if its offsets are there. Offsets count from 1, and the last is
/// that of the end.
pub open spec fn index_end(d: Seq<u8>, at: int, wide: bool) -> Option<int> {
    match index_count(d, at, wide) {
        Some(count) => if is_empty_count(count) {
            Some(at + count_len(wide))
        } else {
            match offset_size(d, at, wide) {
                Some(size) => {
                    let objects = offsets_end(d, at, wide);
                    if objects > d.len() {
                        None
                    } else if number_at(d, objects - size, size) == 0 {
                        Some(objects)
                    } else {
                        Some(objects + number_at(d, objects - size, size) - 1)
                    }
                },
                None => None,
            }
        },
        None => None,
    }
}

/// The offsets and the objects of the index at `at` end in range, counted from `base`.
pub open spec fn index_fits(d: Seq<u8>, base: int, at: int, wide: bool) -> bool {
    &&& offset_size(d, at, wide) is Some ==> offsets_end(d, at, wide) - base <= REACH
    &&& index_end(d, at, wide) matches Some(end) ==> end - base <= REACH
}

/// The offsets and the objects of the index at `at` are there.
pub open spec fn index_there(d: Seq<u8>, at: int, wide: bool) -> bool {
    index_end(d, at, wide) matches Some(end) && end <= d.len()
}

/// The number of objects in the index at `at`, which is there. One whose last offset is 0 has
/// none.
pub open spec fn object_count(d: Seq<u8>, at: int, wide: bool) -> int {
    match offset_size(d, at, wide) {
        Some(size) => if number_at(d, offsets_end(d, at, wide) - size, size) == 0 {
            0
        } else {
            index_count(d, at, wide)->0
        },
        None => 0,
    }
}

/// Offset number `nth` of the index at `at`.
pub open spec fn index_offset(d: Seq<u8>, at: int, wide: bool, nth: int) -> int {
    let size = offset_size(d, at, wide)->0;
    number_at(d, at + count_len(wide) + 1 + nth * size, size)
}

/// Where object number `nth` of the index at `at` starts and ends, if the index has that many and
/// its offsets and objects are there.
pub open spec fn index_object(d: Seq<u8>, at: int, wide: bool, nth: int) -> Option<(int, int)> {
    if index_there(d, at, wide) && 0 <= nth < object_count(d, at, wide) {
        let objects = offsets_end(d, at, wide);
        let start = index_offset(d, at, wide, nth);
        let end = index_offset(d, at, wide, nth + 1);
        if 1 <= start <= end && objects + end - 1 <= index_end(d, at, wide)->0 {
            Some((objects + start - 1, objects + end - 1))
        } else {
            None
        }
    } else {
        None
    }
}

/// The byte is an operator, or the first of its two.
pub open spec fn is_operator(b: u8) -> bool {
    b <= 27 || b == 31 || b == 255
}

/// How many bytes a real number takes from `at` on, in a dictionary that ends at `to`. It ends
/// with the first byte in which a half is 15.
pub open spec fn real_len(d: Seq<u8>, to: int, at: int) -> nat
    decreases to - at,
{
    if at < 0 || at >= to {
        0
    } else if d[at] / 16 == 15 || d[at] % 16 == 15 {
        1
    } else {
        1 + real_len(d, to, at + 1)
    }
}

/// Where the operand at `at` ends, in a dictionary that ends at `to`.
pub open spec fn operand_end(d: Seq<u8>, to: int, at: int) -> int {
    let b = d[at];
    if b == 28 {
        at + 3
    } else if b == 29 {
        at + 5
    } else if b == 30 {
        at + 1 + real_len(d, to, at + 1)
    } else if b <= 246 {
        at + 1
    } else {
        at + 2
    }
}

/// The half bytes of the real number that goes on at `at`.
pub open spec fn real_parts(d: Seq<u8>, to: int, at: int) -> Seq<u8>
    decreases to - at,
{
    if at < 0 || at >= to || d[at] / 16 == 15 {
        Seq::empty()
    } else if d[at] % 16 == 15 {
        seq![d[at] / 16]
    } else {
        seq![d[at] / 16, d[at] % 16] + real_parts(d, to, at + 1)
    }
}

/// The whole part of the operand at `at`, if it is a number.
pub open spec fn operand(d: Seq<u8>, to: int, at: int) -> Option<int> {
    let b = d[at];
    if b == 28 {
        let n = number_at(d, at + 1, 2);
        Some(
            if n < 0x8000 {
                n
            } else {
                n - 0x1_0000
            },
        )
    } else if b == 29 {
        let n = number_at(d, at + 1, 4);
        Some(
            if n < 0x8000_0000 {
                n
            } else {
                n - 0x1_0000_0000
            },
        )
    } else if b == 30 {
        decimal_value(real_parts(d, to, at + 1))
    } else if b <= 246 {
        Some(b - 139)
    } else if b <= 250 {
        Some((b - 247) * 256 + d[at + 1] + 108)
    } else {
        Some(-(b - 251) * 256 - d[at + 1] - 108)
    }
}

/// Where the operands of each occurrence of an operator start and end, in a dictionary that ends
/// at `to`, from `at` on. The operands of the next operator start at `start`. Operators of two
/// bytes are told from the others by 1200.
pub open spec fn occurrences(d: Seq<u8>, to: int, start: int, at: int, operator: int) -> Seq<
    (int, int),
>
    decreases left(to, at),
{
    if at < 0 || at >= to {
        Seq::empty()
    } else if !is_operator(d[at]) {
        occurrences(d, to, start, operand_end(d, to, at), operator)
    } else if d[at] == 12 {
        if at + 1 >= to {
            Seq::empty()
        } else {
            one_if(1200 + d[at + 1] == operator, (start, at)) + occurrences(
                d,
                to,
                at + 2,
                at + 2,
                operator,
            )
        }
    } else {
        one_if(d[at] == operator, (start, at)) + occurrences(d, to, at + 1, at + 1, operator)
    }
}

/// The value alone, or nothing.
pub open spec fn one_if(wanted: bool, value: (int, int)) -> Seq<(int, int)> {
    if wanted {
        seq![value]
    } else {
        Seq::empty()
    }
}

/// All occurrences of an operator in the dictionary from `from` to `to`.
pub open spec fn uses(d: Seq<u8>, from: int, to: int, operator: int) -> Seq<(int, int)> {
    occurrences(d, to, from, from, operator)
}

/// There is one operand.
pub open spec fn is_single(d: Seq<u8>, to: int, operands: (int, int)) -> bool {
    operands.0 < operands.1 && operand_end(d, to, operands.0) == operands.1
}

/// There are two operands.
pub open spec fn is_pair(d: Seq<u8>, to: int, operands: (int, int)) -> bool {
    let second = operand_end(d, to, operands.0);
    operands.0 < operands.1 && second < operands.1 && operand_end(d, to, second) == operands.1
}

/// The offset that the operands are: one number, which is not negative.
pub open spec fn offset_operand(d: Seq<u8>, to: int, operands: (int, int)) -> Option<int> {
    if is_single(d, to, operands) {
        match operand(d, to, operands.0) {
            Some(offset) => if offset >= 0 {
                Some(offset)
            } else {
                None
            },
            None => None,
        }
    } else {
        None
    }
}

/// Where the part starts and ends whose length and offset the operands are.
pub open spec fn range_operands(d: Seq<u8>, to: int, operands: (int, int)) -> Option<(int, int)> {
    if is_pair(d, to, operands) {
        match (operand(d, to, operands.0), operand(d, to, operand_end(d, to, operands.0))) {
            (Some(len), Some(offset)) => if len >= 0 && offset >= 0 {
                Some((offset, offset + len))
            } else {
                None
            },
            _ => None,
        }
    } else {
        None
    }
}

/// The offset that an operator has in a dictionary. The last of its occurrences counts.
pub open spec fn last_offset(d: Seq<u8>, from: int, to: int, operator: int) -> Option<int> {
    let found = uses(d, from, to, operator);
    if found.len() == 0 {
        None
    } else {
        offset_operand(d, to, found.last())
    }
}

/// The offset that an operator has in a dictionary of which only the first occurrence counts.
pub open spec fn first_offset(d: Seq<u8>, from: int, to: int, operator: int) -> Option<int> {
    let found = uses(d, from, to, operator);
    if found.len() == 0 {
        None
    } else {
        offset_operand(d, to, found[0])
    }
}

/// Where the part starts and ends that an operator names. The last of its occurrences counts.
pub open spec fn last_range(d: Seq<u8>, from: int, to: int, operator: int) -> Option<(int, int)> {
    let found = uses(d, from, to, operator);
    if found.len() == 0 {
        None
    } else {
        range_operands(d, to, found.last())
    }
}

/// Where the part starts and ends that an operator names. Only its first occurrence counts.
pub open spec fn first_range(d: Seq<u8>, from: int, to: int, operator: int) -> Option<(int, int)> {
    let found = uses(d, from, to, operator);
    if found.len() == 0 {
        None
    } else {
        range_operands(d, to, found[0])
    }
}

/// Every occurrence of an operator has an offset.
pub open spec fn all_offsets(d: Seq<u8>, from: int, to: int, operator: int) -> bool {
    forall|i: int|
        0 <= i < uses(d, from, to, operator).len() ==> offset_operand(
            d,
            to,
            #[trigger] uses(d, from, to, operator)[i],
        ) is Some
}

/// The operands from `at` to `end`, or as many as are read of them, are numbers.
pub open spec fn numbers(d: Seq<u8>, to: int, at: int, end: int, limit: nat) -> bool
    decreases limit,
{
    if at >= end || limit == 0 {
        true
    } else {
        &&& operand_end(d, to, at) <= end
        &&& operand(d, to, at) is Some
        &&& numbers(d, to, operand_end(d, to, at), end, (limit - 1) as nat)
    }
}

/// The operands of every matrix in a dictionary are numbers. No more than 48 are read.
pub open spec fn matrices_read(d: Seq<u8>, from: int, to: int) -> bool {
    forall|i: int|
        0 <= i < uses(d, from, to, 1207).len() ==> {
            let operands = #[trigger] uses(d, from, to, 1207)[i];
            numbers(d, to, operands.0, operands.1, 48)
        }
}

/// From `at` on there are ranges of glyphs that come to `glyphs` in all. With `wide` a word, else a
/// byte, tells how many more than one a range has.
pub open spec fn ranges_there(d: Seq<u8>, at: int, glyphs: int, wide: bool) -> bool
    decreases glyphs,
{
    if glyphs <= 0 {
        true
    } else if wide {
        word_at(d, at + 2) matches Some(more) && more < 0xFFFF && more < glyphs && ranges_there(
            d,
            at + 4,
            glyphs - more - 1,
            wide,
        )
    } else {
        0 <= at + 2 < d.len() && d[at + 2] < glyphs && ranges_there(
            d,
            at + 3,
            glyphs - d[at + 2] - 1,
            wide,
        )
    }
}

/// The charset at `at` is there. It leaves out the first glyph.
pub open spec fn charset_there(d: Seq<u8>, at: int, glyphs: int) -> bool {
    0 <= at < d.len() && match d[at] {
        0 => at + 1 + 2 * (glyphs - 1) <= d.len(),
        1 => ranges_there(d, at + 1, glyphs - 1, false),
        2 => ranges_there(d, at + 1, glyphs - 1, true),
        _ => false,
    }
}

/// The encoding at `at` is there, with its supplement, if it has one.
pub open spec fn encoding_there(d: Seq<u8>, at: int) -> bool {
    0 <= at && at + 1 < d.len() && d[at] % 128 <= 1 && {
        let end = at + 2 + (1 + d[at] % 128) * d[at + 1];
        &&& end <= d.len()
        &&& d[at] >= 128 ==> end < d.len() && end + 1 + 3 * d[end] <= d.len()
    }
}

/// The charset of the top dictionary is a known one, or is there.
pub open spec fn charset_read(d: Seq<u8>, from: int, to: int, glyphs: int) -> bool {
    last_offset(d, from, to, 15) matches Some(charset) ==> charset <= 2 || charset_there(
        d,
        charset,
        glyphs,
    )
}

/// The encoding of the top dictionary is a known one, or is there.
pub open spec fn encoding_read(d: Seq<u8>, from: int, to: int) -> bool {
    last_offset(d, from, to, 16) matches Some(encoding) ==> encoding <= 1 || encoding_there(
        d,
        encoding,
    )
}

/// The subroutines, at an offset from the private dictionary at `from`, are in range.
pub open spec fn subroutines_fit(d: Seq<u8>, from: int, offset: int, wide: bool) -> bool {
    from + offset <= d.len() ==> index_fits(d, from + offset, from + offset, wide)
}

/// The font dictionaries, if the top dictionary is one of a font that has several, and else the
/// subroutines of its private dictionary.
pub open spec fn cff_kind_fits(d: Seq<u8>, from: int, to: int) -> bool {
    if uses(d, from, to, 1230).len() > 0 {
        match (
            last_offset(d, from, to, 15),
            last_offset(d, from, to, 1236),
            last_offset(d, from, to, 1237),
        ) {
            (Some(charset), Some(dicts), Some(_)) => charset > 2 && dicts <= d.len() ==> index_fits(
                d,
                0,
                dicts,
                false,
            ),
            _ => true,
        }
    } else if !encoding_read(d, from, to) {
        true
    } else {
        match last_range(d, from, to, 18) {
            Some((start, end)) => end <= d.len() ==> match last_offset(d, start, end, 19) {
                Some(offset) => subroutines_fit(d, start, offset, false),
                None => true,
            },
            None => true,
        }
    }
}

/// The glyphs of a `CFF` table at `glyphs`, and what its top dictionary leads to besides.
pub open spec fn cff_glyphs_fit(d: Seq<u8>, from: int, to: int, glyphs: int) -> bool {
    let count = object_count(d, glyphs, false);
    glyphs <= d.len() ==> {
        &&& index_fits(d, 0, glyphs, false)
        &&& index_there(d, glyphs, false) && count > 0 && charset_read(d, from, to, count)
            ==> cff_kind_fits(d, from, to)
    }
}

/// What stands behind the top dictionary of a `CFF` table: its strings, at `strings`, and its
/// global subroutines; and what the dictionary, from `from` to `to`, leads to. Each is read if
/// those before it are there.
pub open spec fn cff_parts_fit(d: Seq<u8>, from: int, to: int, strings: int) -> bool {
    let globals = index_end(d, strings, false)->0;
    match last_offset(d, from, to, 17) {
        Some(glyphs) => all_offsets(d, from, to, 17) && matrices_read(d, from, to) && glyphs != 0
            ==> {
            &&& index_fits(d, 0, strings, false)
            &&& index_there(d, strings, false) ==> {
                &&& index_fits(d, 0, globals, false)
                &&& index_there(d, globals, false) ==> cff_glyphs_fit(d, from, to, glyphs)
            }
        },
        None => true,
    }
}

/// Where the first index of a table stands: behind a header of `least` bytes or as many as the
/// table says.
pub open spec fn header_end(d: Seq<u8>, least: int) -> int {
    if d[2] > least {
        d[2] as int
    } else {
        least
    }
}

/// A `CFF` table.
pub open spec fn cff_fits(d: Seq<u8>) -> bool {
    d.len() >= 3 && d[0] == 1 ==> (index_end(d, header_end(d, 4), false) matches Some(top) ==> {
        &&& top + 2 <= REACH
        &&& index_fits(d, 0, top, false)
        &&& index_object(d, top, false, 0) matches Some((from, to)) ==> cff_parts_fit(
            d,
            from,
            to,
            index_end(d, top, false)->0,
        )
    })
}

/// The subroutines of the first font dictionary, from number `nth` of the index at `at` on, that
/// leads to some are in range. A dictionary whose private dictionary is not there ends the search.
pub open spec fn font_dicts_fit(d: Seq<u8>, at: int, nth: int) -> bool
    decreases left(index_count(d, at, true)->0, nth),
{
    match index_object(d, at, true, nth) {
        Some((from, to)) => match first_range(d, from, to, 18) {
            Some((start, end)) => end <= d.len() ==> match first_offset(d, start, end, 19) {
                Some(offset) => subroutines_fit(d, start, offset, true),
                None => font_dicts_fit(d, at, nth + 1),
            },
            None => font_dicts_fit(d, at, nth + 1),
        },
        None => true,
    }
}

/// The font dictionaries that the top dictionary of a `CFF2` table leads to.
pub open spec fn cff2_dicts_fit(d: Seq<u8>, from: int, to: int) -> bool {
    match last_offset(d, from, to, 1236) {
        Some(dicts) => dicts <= d.len() ==> {
            &&& index_fits(d, 0, dicts, true)
            &&& index_there(d, dicts, true) ==> font_dicts_fit(d, dicts, 0)
        },
        None => true,
    }
}

/// The variation store that the top dictionary of a `CFF2` table leads to, with a word before it,
/// and the font dictionaries.
pub open spec fn cff2_store_fits(d: Seq<u8>, from: int, to: int) -> bool {
    match last_offset(d, from, to, 24) {
        Some(store) => store <= d.len() ==> {
            &&& store_fits(d, 0, store + 2)
            &&& store_there(d, store + 2) ==> cff2_dicts_fit(d, from, to)
        },
        None => cff2_dicts_fit(d, from, to),
    }
}

/// What stands behind the top dictionary of a `CFF2` table, its global subroutines; and what the
/// dictionary, from `from` to `to`, leads to. Each is read if those before it are there.
pub open spec fn cff2_parts_fit(d: Seq<u8>, from: int, to: int) -> bool {
    match last_offset(d, from, to, 17) {
        Some(glyphs) => all_offsets(d, from, to, 17) && glyphs != 0 ==> {
            &&& index_fits(d, 0, to, true)
            &&& index_there(d, to, true) && glyphs <= d.len() ==> {
                &&& index_fits(d, 0, glyphs, true)
                &&& index_there(d, glyphs, true) ==> cff2_store_fits(d, from, to)
            }
        },
        None => true,
    }
}

/// A `CFF2` table.
pub open spec fn cff2_fits(d: Seq<u8>) -> bool {
    d.len() >= 5 && d[0] == 2 ==> {
        let from = header_end(d, 5);
        let to = from + number_at(d, 3, 2);
        to <= d.len() ==> cff2_parts_fit(d, from, to)
    }
}

/// A number as a whole number, if there is one.
pub open spec fn whole(value: Option<u64>) -> Option<int> {
    match value {
        Some(v) => Some(v as int),
        None => None,
    }
}

/// Reads the number of 1 to 4 bytes at `at`.
fn number_of(d: &[u8], at: u64, size: u64) -> (value: u64)
    requires
        1 <= size <= 4,
        at + size <= d@.len(),
    ensures
        value == number_at(d@, at as int, size as int),
        value <= REACH,
{
    let mut value: u64 = d[at as usize] as u64;
    if size >= 2 {
        value = value * 0x100 + d[at as usize + 1] as u64;
    }
    if size >= 3 {
        value = value * 0x100 + d[at as usize + 2] as u64;
    }
    if size >= 4 {
        value = value * 0x100 + d[at as usize + 3] as u64;
    }
    value
}

/// What is known of an index.
struct IndexParts {
    count: Option<u64>,
    size: Option<u64>,
    objects: u64,
    end: Option<u64>,
}

impl IndexParts {
    /// This is what is known of the index at `at`.
    spec fn describes(self, d: Seq<u8>, at: int, wide: bool) -> bool {
        &&& whole(self.count) == index_count(d, at, wide)
        &&& whole(self.size) == offset_size(d, at, wide)
        &&& self.size is Some ==> self.objects == offsets_end(d, at, wide)
        &&& whole(self.end) == index_end(d, at, wide)
        &&& self.objects <= 0x3_0000_0000
        &&& self.end matches Some(end) ==> end <= 0x4_0000_0000
        &&& self.size matches Some(size) ==> 1 <= size <= 4
        &&& self.count matches Some(count) ==> count <= REACH
    }
}

/// Reads the counts and offsets of the index at `at`.
fn read_index(d: &[u8], at: u64, wide: bool) -> (parts: IndexParts)
    requires
        d@.len() <= TABLE_LEN,
        at <= 0x1_0000_0000,
    ensures
        parts.describes(d@, at as int, wide),
{
    let count: Option<u64> = if wide {
        match long_of(d, at) {
            Some(count) => Some(count as u64),
            None => None,
        }
    } else {
        match word_of(d, at) {
            Some(count) => Some(count as u64),
            None => None,
        }
    };
    let size_at: u64 = if wide {
        at + 4
    } else {
        at + 2
    };
    let number: u64 = match count {
        Some(number) => number,
        None => return IndexParts { count, size: None, objects: 0, end: None },
    };
    if number == 0 || number == 0xFFFF_FFFF {
        return IndexParts { count, size: None, objects: 0, end: Some(size_at) };
    }
    if size_at >= d.len() as u64 {
        return IndexParts { count, size: None, objects: 0, end: None };
    }
    let size: u64 = d[size_at as usize] as u64;
    if size < 1 || size > 4 {
        return IndexParts { count, size: None, objects: 0, end: None };
    }
    assert(0 <= (number + 1) * size <= 0x1_0000_0000 * 4) by (nonlinear_arith)
        requires
            0 <= number <= 0xFFFF_FFFF,
            1 <= size <= 4,
    ;
    assert((number + 1) * size >= size) by (nonlinear_arith)
        requires
            0 <= number,
            1 <= size,
    ;
    let offsets: u64 = (number + 1) * size;
    if offsets > REACH {
        return IndexParts { count, size: None, objects: 0, end: None };
    }
    let objects: u64 = size_at + 1 + offsets;
    if objects > d.len() as u64 {
        return IndexParts { count, size: Some(size), objects, end: None };
    }
    let last: u64 = number_of(d, objects - size, size);
    let end: u64 = if last == 0 {
        objects
    } else {
        objects + last - 1
    };
    IndexParts { count, size: Some(size), objects, end: Some(end) }
}

/// Tells whether the index at `at` is in range.
fn check_index(d: &[u8], base: u64, at: u64, wide: bool) -> (fits: bool)
    requires
        d@.len() <= TABLE_LEN,
        base <= at <= 0x1_0000_0000,
    ensures
        fits == index_fits(d@, base as int, at as int, wide),
{
    let parts = read_index(d, at, wide);
    let offsets_fit = match parts.size {
        Some(_) => parts.objects <= REACH + base,
        None => true,
    };
    let objects_fit = match parts.end {
        Some(end) => end <= REACH + base,
        None => true,
    };
    offsets_fit && objects_fit
}

/// Tells whether the index at `at` is there.
fn index_present(d: &[u8], at: u64, wide: bool) -> (there: bool)
    requires
        d@.len() <= TABLE_LEN,
        at <= 0x1_0000_0000,
    ensures
        there == index_there(d@, at as int, wide),
{
    match read_index(d, at, wide).end {
        Some(end) => end <= d.len() as u64,
        None => false,
    }
}

/// Counts the objects in the index at `at`.
fn count_objects(d: &[u8], at: u64, wide: bool) -> (count: u64)
    requires
        d@.len() <= TABLE_LEN,
        at <= 0x1_0000_0000,
        index_there(d@, at as int, wide),
    ensures
        count == object_count(d@, at as int, wide),
        count <= REACH,
{
    let parts = read_index(d, at, wide);
    match (parts.count, parts.size) {
        (Some(count), Some(size)) => {
            assert(offsets_end(d@, at as int, wide) <= d@.len());
            assert(parts.objects >= size) by {
                lemma_offset_place(count as int - 1, count as int, size as int);
            }
            if number_of(d, parts.objects - size, size) == 0 {
                0
            } else {
                count
            }
        },
        _ => 0,
    }
}

/// Finds object number `nth` of the index at `at`.
fn find_object(d: &[u8], at: u64, wide: bool, nth: u64) -> (found: Option<(u64, u64)>)
    requires
        d@.len() <= TABLE_LEN,
        at <= 0x1_0000_0000,
        nth <= REACH,
    ensures
        found is Some <==> index_object(d@, at as int, wide, nth as int) is Some,
        found matches Some(span) ==> {
            &&& index_object(d@, at as int, wide, nth as int) == Some(
                (span.0 as int, span.1 as int),
            )
            &&& span.0 <= span.1 <= d@.len()
        },
{
    let parts = read_index(d, at, wide);
    match (parts.count, parts.size, parts.end) {
        (Some(count), Some(size), Some(end)) => {
            if end > d.len() as u64 || nth >= count_objects(d, at, wide) {
                return None;
            }
            let offsets: u64 = if wide {
                at + 5
            } else {
                at + 3
            };
            proof {
                lemma_offset_place(nth as int, count as int, size as int);
            }
            let first: u64 = number_of(d, offsets + nth * size, size);
            let behind: u64 = number_of(d, offsets + (nth + 1) * size, size);
            if 1 <= first && first <= behind && parts.objects + behind - 1 <= end {
                Some((parts.objects + first - 1, parts.objects + behind - 1))
            } else {
                None
            }
        },
        _ => None,
    }
}

/// An object's offset and the one behind it stand among the offsets.
proof fn lemma_offset_place(nth: int, count: int, size: int)
    requires
        0 <= nth < count <= REACH,
        1 <= size <= 4,
    ensures
        0 <= nth * size,
        nth * size + size <= (count + 1) * size,
        (nth + 1) * size + size <= (count + 1) * size,
        (count + 1) * size <= 0x1_0000_0000 * 4,
{
    assert(0 <= nth * size && nth * size + size <= (count + 1) * size && (nth + 1) * size + size
        <= (count + 1) * size && (count + 1) * size <= 0x1_0000_0000 * 4) by (nonlinear_arith)
        requires
            0 <= nth < count <= 0xFFFF_FFFF,
            1 <= size <= 4,
    ;
}

/// Finds where the real number that goes on at `at` ends.
fn find_real_end(d: &[u8], to: u64, at: u64) -> (end: u64)
    requires
        at <= to <= d@.len(),
    ensures
        end == at + real_len(d@, to as int, at as int),
        end <= to,
{
    let mut end: u64 = at;
    while end < to
        invariant
            at <= end <= to <= d@.len(),
            at + real_len(d@, to as int, at as int) == end + real_len(d@, to as int, end as int),
        decreases to - end,
    {
        let b: u8 = d[end as usize];
        end = end + 1;
        if b / 16 == 15 || b % 16 == 15 {
            return end;
        }
    }
    end
}

/// Finds where the operand at `at` ends.
fn find_operand_end(d: &[u8], to: u64, at: u64) -> (end: u64)
    requires
        at < to <= d@.len() <= TABLE_LEN,
    ensures
        end == operand_end(d@, to as int, at as int),
        at < end <= to + 5,
{
    let b: u8 = d[at as usize];
    if b == 28 {
        at + 3
    } else if b == 29 {
        at + 5
    } else if b == 30 {
        find_real_end(d, to, at + 1)
    } else if b <= 246 {
        at + 1
    } else {
        at + 2
    }
}

/// Reads the half bytes of the real number that goes on at `at`.
fn read_real_parts(d: &[u8], to: u64, at: u64) -> (parts: Vec<u8>)
    requires
        at <= to <= d@.len(),
    ensures
        parts@ == real_parts(d@, to as int, at as int),
{
    let mut parts: Vec<u8> = Vec::new();
    let mut i: u64 = at;
    let ghost all = real_parts(d@, to as int, at as int);
    assert(parts@ + all =~= all);
    while i < to
        invariant
            at <= i <= to <= d@.len(),
            all == real_parts(d@, to as int, at as int),
            parts@ + real_parts(d@, to as int, i as int) == all,
        decreases to - i,
    {
        let b: u8 = d[i as usize];
        let ghost before = parts@;
        let ghost rest = real_parts(d@, to as int, i as int + 1);
        i = i + 1;
        if b / 16 == 15 {
            assert(parts@ =~= all);
            return parts;
        }
        parts.push(b / 16);
        if b % 16 == 15 {
            assert(parts@ =~= all);
            return parts;
        }
        parts.push(b % 16);
        assert(parts@ + rest =~= before + (seq![b / 16, b % 16] + rest));
    }
    assert(parts@ =~= all);
    parts
}

/// Reads the operand from `at` to `end`.
fn read_operand(d: &[u8], to: u64, at: u64, end: u64) -> (value: Option<i64>)
    requires
        at < end <= to <= d@.len() <= TABLE_LEN,
        end == operand_end(d@, to as int, at as int),
    ensures
        match value {
            Some(v) => operand(d@, to as int, at as int) == Some(v as int) && -0x8000_0000 <= v
                <= 0x7FFF_FFFF,
            None => operand(d@, to as int, at as int) is None,
        },
{
    let b: u8 = d[at as usize];
    if b == 28 {
        let n: i64 = number_of(d, at + 1, 2) as i64;
        Some(
            if n < 0x8000 {
                n
            } else {
                n - 0x1_0000
            },
        )
    } else if b == 29 {
        let n: i64 = number_of(d, at + 1, 4) as i64;
        Some(
            if n < 0x8000_0000 {
                n
            } else {
                n - 0x1_0000_0000
            },
        )
    } else if b == 30 {
        let parts = read_real_parts(d, to, at + 1);
        read_decimal(&parts)
    } else if b <= 246 {
        Some(b as i64 - 139)
    } else if b <= 250 {
        Some((b as i64 - 247) * 256 + d[at as usize + 1] as i64 + 108)
    } else {
        Some(-(b as i64 - 251) * 256 - d[at as usize + 1] as i64 - 108)
    }
}

/// The spans as whole numbers.
pub open spec fn spans(found: Seq<(u64, u64)>) -> Seq<(int, int)> {
    found.map_values(|span: (u64, u64)| (span.0 as int, span.1 as int))
}

/// Finds all occurrences of an operator in the dictionary from `from` to `to`.
fn find_uses(d: &[u8], from: u64, to: u64, operator: u64) -> (found: Vec<(u64, u64)>)
    requires
        from <= to <= d@.len() <= TABLE_LEN,
    ensures
        spans(found@) == uses(d@, from as int, to as int, operator as int),
        forall|i: int|
            0 <= i < found@.len() ==> from <= (#[trigger] found@[i]).0 <= found@[i].1 <= to,
{
    let mut found: Vec<(u64, u64)> = Vec::new();
    let mut start: u64 = from;
    let mut at: u64 = from;
    let ghost all = uses(d@, from as int, to as int, operator as int);
    assert(spans(found@) + all =~= all);
    while at < to
        invariant
            to <= d@.len() <= TABLE_LEN,
            from <= start <= at,
            all == uses(d@, from as int, to as int, operator as int),
            spans(found@) + occurrences(
                d@,
                to as int,
                start as int,
                at as int,
                operator as int,
            ) == all,
            forall|i: int|
                0 <= i < found@.len() ==> from <= (#[trigger] found@[i]).0 <= found@[i].1 <= to,
        decreases left(to as int, at as int),
    {
        let b: u8 = d[at as usize];
        if !(b <= 27 || b == 31 || b == 255) {
            at = find_operand_end(d, to, at);
        } else {
            let mut code: u64 = b as u64;
            let mut next: u64 = at + 1;
            if b == 12 {
                if next >= to {
                    assert(spans(found@) =~= all);
                    return found;
                }
                code = 1200 + d[next as usize] as u64;
                next = next + 1;
            }
            let ghost rest = occurrences(
                d@,
                to as int,
                next as int,
                next as int,
                operator as int,
            );
            let ghost before = found@;
            if code == operator {
                found.push((start, at));
                assert(spans(found@) =~= spans(before) + seq![(start as int, at as int)]);
                assert(spans(found@) + rest =~= spans(before) + (seq![(start as int, at as int)]
                    + rest));
            } else {
                assert(spans(before) + rest =~= spans(before) + (Seq::<(int, int)>::empty()
                    + rest));
            }
            start = next;
            at = next;
        }
    }
    assert(spans(found@) =~= all);
    found
}

/// Tells whether there is one operand.
fn single(d: &[u8], to: u64, operands: (u64, u64)) -> (one: bool)
    requires
        operands.0 <= operands.1 <= to <= d@.len() <= TABLE_LEN,
    ensures
        one == is_single(d@, to as int, (operands.0 as int, operands.1 as int)),
{
    operands.0 < operands.1 && find_operand_end(d, to, operands.0) == operands.1
}

/// Reads the offset that the operands are.
fn read_offset(d: &[u8], to: u64, operands: (u64, u64)) -> (offset: Option<u64>)
    requires
        operands.0 <= operands.1 <= to <= d@.len() <= TABLE_LEN,
    ensures
        whole(offset) == offset_operand(
            d@,
            to as int,
            (operands.0 as int, operands.1 as int),
        ),
        offset matches Some(v) ==> v <= 0x7FFF_FFFF,
{
    if !single(d, to, operands) {
        return None;
    }
    match read_operand(d, to, operands.0, operands.1) {
        Some(value) => if value >= 0 {
            Some(value as u64)
        } else {
            None
        },
        None => None,
    }
}

/// A start and an end as whole numbers, if there are some.
pub open spec fn whole_range(range: Option<(u64, u64)>) -> Option<(int, int)> {
    match range {
        Some((start, end)) => Some((start as int, end as int)),
        None => None,
    }
}

/// Reads where the part starts and ends whose length and offset the operands are.
fn read_range(d: &[u8], to: u64, operands: (u64, u64)) -> (range: Option<(u64, u64)>)
    requires
        operands.0 <= operands.1 <= to <= d@.len() <= TABLE_LEN,
    ensures
        whole_range(range) == range_operands(
            d@,
            to as int,
            (operands.0 as int, operands.1 as int),
        ),
        range matches Some((start, end)) ==> start <= end <= REACH,
{
    if operands.0 >= operands.1 {
        return None;
    }
    let second: u64 = find_operand_end(d, to, operands.0);
    if second >= operands.1 || find_operand_end(d, to, second) != operands.1 {
        return None;
    }
    match (read_operand(d, to, operands.0, second), read_operand(d, to, second, operands.1)) {
        (Some(len), Some(offset)) => if len >= 0 && offset >= 0 {
            Some((offset as u64, offset as u64 + len as u64))
        } else {
            None
        },
        _ => None,
    }
}

/// Finds the occurrence of an operator that counts, if there is one: the last or the first.
fn find_use(d: &[u8], from: u64, to: u64, operator: u64, last: bool) -> (found: Option<(u64, u64)>)
    requires
        from <= to <= d@.len() <= TABLE_LEN,
    ensures
        ({
            let all = uses(d@, from as int, to as int, operator as int);
            match found {
                Some(span) => all.len() > 0 && (span.0 as int, span.1 as int) == (if last {
                    all.last()
                } else {
                    all[0]
                }) && from <= span.0 <= span.1 <= to,
                None => all.len() == 0,
            }
        }),
{
    let found = find_uses(d, from, to, operator);
    assert(spans(found@).len() == found@.len());
    if found.len() == 0 {
        None
    } else if last {
        assert(spans(found@).last() == (found@.last().0 as int, found@.last().1 as int));
        Some(found[found.len() - 1])
    } else {
        assert(spans(found@)[0] == (found@[0].0 as int, found@[0].1 as int));
        Some(found[0])
    }
}

fn find_last_offset(d: &[u8], from: u64, to: u64, operator: u64) -> (offset: Option<u64>)
    requires
        from <= to <= d@.len() <= TABLE_LEN,
    ensures
        whole(offset) == last_offset(d@, from as int, to as int, operator as int),
        offset matches Some(v) ==> v <= 0x7FFF_FFFF,
{
    match find_use(d, from, to, operator, true) {
        Some(operands) => read_offset(d, to, operands),
        None => None,
    }
}

fn find_first_offset(d: &[u8], from: u64, to: u64, operator: u64) -> (offset: Option<u64>)
    requires
        from <= to <= d@.len() <= TABLE_LEN,
    ensures
        whole(offset) == first_offset(d@, from as int, to as int, operator as int),
        offset matches Some(v) ==> v <= 0x7FFF_FFFF,
{
    match find_use(d, from, to, operator, false) {
        Some(operands) => read_offset(d, to, operands),
        None => None,
    }
}

fn find_last_range(d: &[u8], from: u64, to: u64, operator: u64) -> (range: Option<(u64, u64)>)
    requires
        from <= to <= d@.len() <= TABLE_LEN,
    ensures
        whole_range(range) == last_range(d@, from as int, to as int, operator as int),
        range matches Some((start, end)) ==> start <= end <= REACH,
{
    match find_use(d, from, to, operator, true) {
        Some(operands) => read_range(d, to, operands),
        None => None,
    }
}

fn find_first_range(d: &[u8], from: u64, to: u64, operator: u64) -> (range: Option<(u64, u64)>)
    requires
        from <= to <= d@.len() <= TABLE_LEN,
    ensures
        whole_range(range) == first_range(d@, from as int, to as int, operator as int),
        range matches Some((start, end)) ==> start <= end <= REACH,
{
    match find_use(d, from, to, operator, false) {
        Some(operands) => read_range(d, to, operands),
        None => None,
    }
}

/// Tells whether every occurrence of an operator has an offset.
fn have_offsets(d: &[u8], from: u64, to: u64, operator: u64) -> (all: bool)
    requires
        from <= to <= d@.len() <= TABLE_LEN,
    ensures
        all == all_offsets(d@, from as int, to as int, operator as int),
{
    let found = find_uses(d, from, to, operator);
    let mut i: usize = 0;
    while i < found.len()
        invariant
            from <= to <= d@.len() <= TABLE_LEN,
            i <= found@.len(),
            spans(found@) == uses(d@, from as int, to as int, operator as int),
            forall|j: int|
                0 <= j < found@.len() ==> from <= (#[trigger] found@[j]).0 <= found@[j].1 <= to,
            forall|j: int|
                0 <= j < i ==> offset_operand(
                    d@,
                    to as int,
                    #[trigger] uses(d@, from as int, to as int, operator as int)[j],
                ) is Some,
        decreases found@.len() - i,
    {
        assert(spans(found@)[i as int] == (found@[i as int].0 as int, found@[i as int].1 as int));
        if read_offset(d, to, found[i]).is_none() {
            return false;
        }
        i = i + 1;
    }
    true
}

/// Tells whether the operands from `at` to `end` that are read are numbers.
fn are_numbers(d: &[u8], to: u64, at: u64, end: u64, limit: u64) -> (ok: bool)
    requires
        at <= end <= to <= d@.len() <= TABLE_LEN,
        limit <= 48,
    ensures
        ok == numbers(d@, to as int, at as int, end as int, limit as nat),
    decreases limit,
{
    if at >= end || limit == 0 {
        return true;
    }
    let next: u64 = find_operand_end(d, to, at);
    if next > end || read_operand(d, to, at, next).is_none() {
        return false;
    }
    are_numbers(d, to, next, end, limit - 1)
}

/// Tells whether the operands of every matrix are numbers.
fn are_matrices_read(d: &[u8], from: u64, to: u64) -> (all: bool)
    requires
        from <= to <= d@.len() <= TABLE_LEN,
    ensures
        all == matrices_read(d@, from as int, to as int),
{
    let found = find_uses(d, from, to, 1207);
    let mut i: usize = 0;
    while i < found.len()
        invariant
            from <= to <= d@.len() <= TABLE_LEN,
            i <= found@.len(),
            spans(found@) == uses(d@, from as int, to as int, 1207),
            forall|j: int|
                0 <= j < found@.len() ==> from <= (#[trigger] found@[j]).0 <= found@[j].1 <= to,
            forall|j: int|
                0 <= j < i ==> {
                    let operands = #[trigger] uses(d@, from as int, to as int, 1207)[j];
                    numbers(d@, to as int, operands.0, operands.1, 48)
                },
        decreases found@.len() - i,
    {
        let operands: (u64, u64) = found[i];
        assert(spans(found@)[i as int] == (operands.0 as int, operands.1 as int));
        if !are_numbers(d, to, operands.0, operands.1, 48) {
            return false;
        }
        i = i + 1;
    }
    true
}

fn ranges_present(d: &[u8], at: u64, glyphs: u64, wide: bool) -> (there: bool)
    requires
        d@.len() <= TABLE_LEN,
        at <= d@.len() + 4,
        glyphs <= 0xFFFF,
    ensures
        there == ranges_there(d@, at as int, glyphs as int, wide),
{
    let mut place: u64 = at;
    let mut rest: u64 = glyphs;
    while rest > 0
        invariant
            d@.len() <= TABLE_LEN,
            place <= d@.len() + 4,
            rest <= 0xFFFF,
            ranges_there(d@, at as int, glyphs as int, wide) == ranges_there(
                d@,
                place as int,
                rest as int,
                wide,
            ),
        decreases rest,
    {
        let more: u64 = if wide {
            match word_of(d, place + 2) {
                Some(more) => if more < 0xFFFF {
                    more as u64
                } else {
                    return false;
                },
                None => return false,
            }
        } else if place + 2 < d.len() as u64 {
            d[(place + 2) as usize] as u64
        } else {
            return false;
        };
        if more >= rest {
            return false;
        }
        place = if wide {
            place + 4
        } else {
            place + 3
        };
        rest = rest - more - 1;
    }
    true
}

fn charset_present(d: &[u8], at: u64, glyphs: u64) -> (there: bool)
    requires
        d@.len() <= TABLE_LEN,
        1 <= glyphs <= 0xFFFF,
    ensures
        there == charset_there(d@, at as int, glyphs as int),
{
    if at >= d.len() as u64 {
        return false;
    }
    match d[at as usize] {
        0 => at + 1 + 2 * (glyphs - 1) <= d.len() as u64,
        1 => ranges_present(d, at + 1, glyphs - 1, false),
        2 => ranges_present(d, at + 1, glyphs - 1, true),
        _ => false,
    }
}

fn encoding_present(d: &[u8], at: u64) -> (there: bool)
    requires
        d@.len() <= TABLE_LEN,
        at <= REACH,
    ensures
        there == encoding_there(d@, at as int),
{
    if at + 1 >= d.len() as u64 {
        return false;
    }
    let form: u64 = (d[at as usize] % 128) as u64;
    if form > 1 {
        return false;
    }
    let count: u64 = d[at as usize + 1] as u64;
    let end: u64 = at + 2 + (if form == 0 {
        count
    } else {
        2 * count
    });
    assert(end == at + 2 + (1 + d@[at as int] % 128) * d@[at as int + 1]) by {
        assert(form == 0 || form == 1);
        assert((1 + form) * count == if form == 0 {
            count as int
        } else {
            2 * count
        }) by (nonlinear_arith)
            requires
                form == 0 || form == 1,
        ;
    }
    if end > d.len() as u64 {
        return false;
    }
    if d[at as usize] < 128 {
        return true;
    }
    end < d.len() as u64 && end + 1 + 3 * d[end as usize] as u64 <= d.len() as u64
}

fn check_subroutines(d: &[u8], from: u64, offset: u64, wide: bool) -> (fits: bool)
    requires
        d@.len() <= TABLE_LEN,
        from <= REACH,
        offset <= REACH,
    ensures
        fits == subroutines_fit(d@, from as int, offset as int, wide),
{
    let at: u64 = from + offset;
    at > d.len() as u64 || check_index(d, at, at, wide)
}

fn check_cff_kind(d: &[u8], from: u64, to: u64) -> (fits: bool)
    requires
        from <= to <= d@.len() <= TABLE_LEN,
    ensures
        fits == cff_kind_fits(d@, from as int, to as int),
{
    if find_use(d, from, to, 1230, true).is_some() {
        return match (
            find_last_offset(d, from, to, 15),
            find_last_offset(d, from, to, 1236),
            find_last_offset(d, from, to, 1237),
        ) {
            (Some(charset), Some(dicts), Some(_)) => charset <= 2 || dicts > d.len() as u64
                || check_index(d, 0, dicts, false),
            _ => true,
        };
    }
    if let Some(encoding) = find_last_offset(d, from, to, 16) {
        if encoding > 1 && !encoding_present(d, encoding) {
            return true;
        }
    }
    match find_last_range(d, from, to, 18) {
        Some((start, end)) => {
            if end > d.len() as u64 {
                return true;
            }
            match find_last_offset(d, start, end, 19) {
                Some(offset) => check_subroutines(d, start, offset, false),
                None => true,
            }
        },
        None => true,
    }
}

fn check_cff_glyphs(d: &[u8], from: u64, to: u64, glyphs: u64) -> (fits: bool)
    requires
        from <= to <= d@.len() <= TABLE_LEN,
        glyphs <= REACH,
    ensures
        fits == cff_glyphs_fit(d@, from as int, to as int, glyphs as int),
{
    if glyphs > d.len() as u64 {
        return true;
    }
    if !check_index(d, 0, glyphs, false) {
        return false;
    }
    if !index_present(d, glyphs, false) {
        return true;
    }
    let count: u64 = count_objects(d, glyphs, false);
    if count == 0 {
        return true;
    }
    if let Some(charset) = find_last_offset(d, from, to, 15) {
        if charset > 2 && !charset_present(d, charset, count) {
            return true;
        }
    }
    check_cff_kind(d, from, to)
}

fn check_cff_parts(d: &[u8], from: u64, to: u64, strings: u64) -> (fits: bool)
    requires
        from <= to <= d@.len() <= TABLE_LEN,
        strings <= d@.len(),
    ensures
        fits == cff_parts_fit(d@, from as int, to as int, strings as int),
{
    let glyphs: u64 = match find_last_offset(d, from, to, 17) {
        Some(glyphs) => glyphs,
        None => return true,
    };
    if glyphs == 0 || !have_offsets(d, from, to, 17) || !are_matrices_read(d, from, to) {
        return true;
    }
    if !check_index(d, 0, strings, false) {
        return false;
    }
    match read_index(d, strings, false).end {
        Some(globals) => {
            if globals > d.len() as u64 {
                return true;
            }
            if !check_index(d, 0, globals, false) {
                return false;
            }
            !index_present(d, globals, false) || check_cff_glyphs(d, from, to, glyphs)
        },
        None => true,
    }
}

/// Tells whether a `CFF` table is in range.
pub(crate) fn check_cff(d: &[u8]) -> (fits: bool)
    requires
        d@.len() <= TABLE_LEN,
    ensures
        fits == cff_fits(d@),
{
    if d.len() < 3 || d[0] != 1 {
        return true;
    }
    let names: u64 = if d[2] > 4 {
        d[2] as u64
    } else {
        4
    };
    match read_index(d, names, false).end {
        Some(top) => {
            if top + 2 > REACH || !check_index(d, 0, top, false) {
                return false;
            }
            match (find_object(d, top, false, 0), read_index(d, top, false).end) {
                (Some((from, to)), Some(strings)) => check_cff_parts(d, from, to, strings),
                _ => true,
            }
        },
        None => true,
    }
}

fn check_font_dicts(d: &[u8], at: u64) -> (fits: bool)
    requires
        d@.len() <= TABLE_LEN,
        at <= 0x1_0000_0000,
    ensures
        fits == font_dicts_fit(d@, at as int, 0),
{
    let mut nth: u64 = 0;
    while nth < REACH
        invariant
            d@.len() <= TABLE_LEN,
            at <= 0x1_0000_0000,
            nth <= REACH,
            font_dicts_fit(d@, at as int, 0) == font_dicts_fit(d@, at as int, nth as int),
        decreases REACH - nth,
    {
        match find_object(d, at, true, nth) {
            Some((from, to)) => {
                if let Some((start, end)) = find_first_range(d, from, to, 18) {
                    if end > d.len() as u64 {
                        return true;
                    }
                    if let Some(offset) = find_first_offset(d, start, end, 19) {
                        return check_subroutines(d, start, offset, true);
                    }
                }
            },
            None => return true,
        }
        nth = nth + 1;
    }
    proof {
        assert(index_count(d@, at as int, true) matches Some(count) ==> count <= REACH);
        assert(index_object(d@, at as int, true, nth as int) is None);
    }
    true
}

fn check_cff2_dicts(d: &[u8], from: u64, to: u64) -> (fits: bool)
    requires
        from <= to <= d@.len() <= TABLE_LEN,
    ensures
        fits == cff2_dicts_fit(d@, from as int, to as int),
{
    match find_last_offset(d, from, to, 1236) {
        Some(dicts) => {
            if dicts > d.len() as u64 {
                return true;
            }
            if !check_index(d, 0, dicts, true) {
                return false;
            }
            !index_present(d, dicts, true) || check_font_dicts(d, dicts)
        },
        None => true,
    }
}

fn check_cff2_store(d: &[u8], from: u64, to: u64) -> (fits: bool)
    requires
        from <= to <= d@.len() <= TABLE_LEN,
    ensures
        fits == cff2_store_fits(d@, from as int, to as int),
{
    if let Some(store) = find_last_offset(d, from, to, 24) {
        if store > d.len() as u64 {
            return true;
        }
        if !check_store(d, 0, store + 2) {
            return false;
        }
        if !store_present(d, store + 2) {
            return true;
        }
    }
    check_cff2_dicts(d, from, to)
}

/// Tells whether a `CFF2` table is in range.
pub(crate) fn check_cff2(d: &[u8]) -> (fits: bool)
    requires
        d@.len() <= TABLE_LEN,
    ensures
        fits == cff2_fits(d@),
{
    if d.len() < 5 || d[0] != 2 {
        return true;
    }
    let from: u64 = if d[2] > 5 {
        d[2] as u64
    } else {
        5
    };
    let to: u64 = from + number_of(d, 3, 2);
    if to > d.len() as u64 {
        return true;
    }
    let glyphs: u64 = match find_last_offset(d, from, to, 17) {
        Some(glyphs) => glyphs,
        None => return true,
    };
    if glyphs == 0 || !have_offsets(d, from, to, 17) {
        return true;
    }
    if !check_index(d, 0, to, true) {
        return false;
    }
    if !index_present(d, to, true) || glyphs > d.len() as u64 {
        return true;
    }
    if !check_index(d, 0, glyphs, true) {
        return false;
    }
    !index_present(d, glyphs, true) || check_cff2_store(d, from, to)
}

} // verus!
