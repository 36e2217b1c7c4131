//! What holds of family names, and of the tables of `FOND` resources.
use crate::ids::{
    FONT_APPLICATION, FONT_ATHENS, FONT_CAIRO, FONT_CHICAGO, FONT_COURIER, FONT_GENEVA,
    FONT_HELVETICA, FONT_LONDON, FONT_LOSANGELES, FONT_MOBILE, FONT_MONACO, FONT_NEWYORK,
    FONT_PALATINO, FONT_SANFRAN, FONT_SYMBOL, FONT_TIMES, FONT_TORONTO, FONT_VENICE,
};
use crate::names::{
    font_name_table, id_from, lower, name_from, same_name, trim_end, trim_start, trimmed,
    white_space,
};
use crate::resource::{association_count, associations, FAM_REC_LEN};
use vstd::prelude::*;

verus! {

/// No two named families share a number.
proof fn lemma_ids_distinct(i: int, j: int)
    requires
        0 <= i < j < font_name_table().len(),
    ensures
        font_name_table()[i].0 != font_name_table()[j].0,
{
}

proof fn lemma_name_from(nth: int, from: int)
    requires
        0 <= from <= nth < font_name_table().len(),
    ensures
        name_from(font_name_table()[nth].0, from) == Some(font_name_table()[nth].1),
    decreases nth - from,
{
    if from < nth {
        lemma_ids_distinct(from, nth);
        lemma_name_from(nth, from + 1);
    }
}

/// The names differ in length or in a letter.
proof fn lemma_names_distinct(i: int, j: int)
    requires
        0 <= i < j < font_name_table().len(),
    ensures
        !same_name(font_name_table()[i].1, font_name_table()[j].1),
{
    reveal_strlit("Chicago");
    reveal_strlit("Application");
    reveal_strlit("New York");
    reveal_strlit("Geneva");
    reveal_strlit("Monaco");
    reveal_strlit("Venice");
    reveal_strlit("London");
    reveal_strlit("Athens");
    reveal_strlit("San Francisco");
    reveal_strlit("Toronto");
    reveal_strlit("Cairo");
    reveal_strlit("Los Angeles");
    reveal_strlit("Palatino");
    reveal_strlit("Times");
    reveal_strlit("Helvetica");
    reveal_strlit("Courier");
    reveal_strlit("Symbol");
    reveal_strlit("Mobile");
    let a = font_name_table()[i].1;
    let b = font_name_table()[j].1;
    if a.len() == b.len() {
        assert(lower(a[0]) != lower(b[0]) || lower(a[1]) != lower(b[1]) || lower(a[2]) != lower(
            b[2],
        ));
    }
}

proof fn lemma_id_from(nth: int, name: Seq<char>, from: int)
    requires
        0 <= from <= nth < font_name_table().len(),
        same_name(font_name_table()[nth].1, name),
    ensures
        id_from(name, from) == Some(font_name_table()[nth].0),
    decreases nth - from,
{
    if from < nth {
        lemma_names_distinct(from, nth);
        let a = font_name_table()[from].1;
        let b = font_name_table()[nth].1;
        if same_name(a, name) {
            assert forall|i: int| 0 <= i < a.len() implies lower(#[trigger] a[i]) == lower(
                b[i],
            ) by {
                assert(lower(b[i]) == lower(name[i]));
            }
        }
        lemma_id_from(nth, name, from + 1);
    }
}

/// The names start and end with a letter.
proof fn lemma_names_trimmed(nth: int)
    requires
        0 <= nth < font_name_table().len(),
    ensures
        trimmed(font_name_table()[nth].1) == font_name_table()[nth].1,
{
    reveal_strlit("Chicago");
    reveal_strlit("Application");
    reveal_strlit("New York");
    reveal_strlit("Geneva");
    reveal_strlit("Monaco");
    reveal_strlit("Venice");
    reveal_strlit("London");
    reveal_strlit("Athens");
    reveal_strlit("San Francisco");
    reveal_strlit("Toronto");
    reveal_strlit("Cairo");
    reveal_strlit("Los Angeles");
    reveal_strlit("Palatino");
    reveal_strlit("Times");
    reveal_strlit("Helvetica");
    reveal_strlit("Courier");
    reveal_strlit("Symbol");
    reveal_strlit("Mobile");
    let name = font_name_table()[nth].1;
    assert(!white_space(name[0]));
    assert(!white_space(name.last()));
}

/// The number and the name of a named family lead to each other.
pub proof fn law_names_and_numbers_correspond(nth: int)
    requires
        0 <= nth < font_name_table().len(),
    ensures
        name_from(font_name_table()[nth].0, 0) == Some(font_name_table()[nth].1),
        id_from(trimmed(font_name_table()[nth].1), 0) == Some(font_name_table()[nth].0),
{
    lemma_name_from(nth, 0);
    lemma_names_trimmed(nth);
    lemma_id_from(nth, font_name_table()[nth].1, 0);
}

/// A name that is found for a number is found again by that name.
pub proof fn law_found_names_lead_back(font_id: i16)
    ensures
        name_from(font_id, 0) matches Some(name) ==> id_from(trimmed(name), 0) == Some(font_id),
{
    lemma_name_from_sound(font_id, 0);
    if let Some(name) = name_from(font_id, 0) {
        let nth = choose|nth: int|
            0 <= nth < font_name_table().len() && font_name_table()[nth] == (font_id, name);
        law_names_and_numbers_correspond(nth);
    }
}

proof fn lemma_name_from_sound(font_id: i16, from: int)
    ensures
        name_from(font_id, from) matches Some(name) ==> exists|nth: int|
            0 <= nth < font_name_table().len() && #[trigger] font_name_table()[nth] == (
                font_id,
                name,
            ),
    decreases font_name_table().len() - from,
{
    if 0 <= from < font_name_table().len() {
        lemma_name_from_sound(font_id, from + 1);
        if font_name_table()[from].0 == font_id {
            assert(font_name_table()[from] == (font_id, font_name_table()[from].1));
        }
    }
}

/// The case of letters does not count in a name.
pub proof fn law_case_does_not_count(a: Seq<char>, b: Seq<char>, from: int)
    requires
        same_name(a, b),
    ensures
        id_from(a, from) == id_from(b, from),
    decreases font_name_table().len() - from,
{
    if 0 <= from < font_name_table().len() {
        let name = font_name_table()[from].1;
        assert(same_name(name, a) == same_name(name, b)) by {
            if same_name(name, a) {
                assert forall|i: int| 0 <= i < name.len() implies lower(#[trigger] name[i])
                    == lower(b[i]) by {
                    assert(lower(a[i]) == lower(b[i]));
                }
            }
            if same_name(name, b) {
                assert forall|i: int| 0 <= i < name.len() implies lower(#[trigger] name[i])
                    == lower(a[i]) by {
                    assert(lower(a[i]) == lower(b[i]));
                }
            }
        }
        law_case_does_not_count(a, b, from + 1);
    }
}

/// Every character is white space.
pub open spec fn is_blank(text: Seq<char>) -> bool {
    forall|i: int| 0 <= i < text.len() ==> white_space(#[trigger] text[i])
}

proof fn lemma_trim_start(before: Seq<char>, text: Seq<char>)
    requires
        is_blank(before),
    ensures
        trim_start(before + text) == trim_start(text),
    decreases before.len(),
{
    if before.len() == 0 {
        assert(before + text =~= text);
    } else {
        assert((before + text)[0] == before[0]);
        assert((before + text).drop_first() =~= before.drop_first() + text);
        lemma_trim_start(before.drop_first(), text);
    }
}

proof fn lemma_trim_end(text: Seq<char>, after: Seq<char>)
    requires
        is_blank(after),
    ensures
        trim_end(text + after) == trim_end(text),
    decreases after.len(),
{
    if after.len() == 0 {
        assert(text + after =~= text);
    } else {
        assert((text + after).last() == after.last());
        assert((text + after).drop_last() =~= text + after.drop_last());
        lemma_trim_end(text, after.drop_last());
    }
}

proof fn lemma_trim_start_of(text: Seq<char>, after: Seq<char>)
    requires
        is_blank(after),
    ensures
        trim_end(trim_start(text + after)) == trim_end(trim_start(text)),
    decreases text.len(),
{
    if text.len() == 0 {
        assert(text + after =~= after + Seq::<char>::empty());
        lemma_trim_start(after, Seq::<char>::empty());
        assert(text =~= Seq::<char>::empty());
    } else {
        assert((text + after)[0] == text[0]);
        if white_space(text[0]) {
            assert((text + after).drop_first() =~= text.drop_first() + after);
            lemma_trim_start_of(text.drop_first(), after);
        } else {
            lemma_trim_end(text, after);
        }
    }
}

/// White space around a name does not count.
pub proof fn law_white_space_does_not_count(before: Seq<char>, name: Seq<char>, after: Seq<char>)
    requires
        is_blank(before),
        is_blank(after),
    ensures
        trimmed(before + name + after) == trimmed(name),
{
    assert(before + name + after =~= before + (name + after));
    lemma_trim_start(before, name + after);
    lemma_trim_start_of(name, after);
}

/// A `FOND` resource's table has as many entries as it announces, all of them for the family that
/// the resource's own number names; a count below zero, and a table that is cut short, are
/// refused.
pub proof fn law_associations_belong_to_the_family(fond_resource_id: i16, bytes: Seq<u8>)
    ensures
        associations(fond_resource_id, bytes) matches Some(entries) ==> {
            &&& association_count(bytes) == Some(entries.len() as int)
            &&& forall|i: int|
                0 <= i < entries.len() ==> (#[trigger] entries[i]).family_id == fond_resource_id
        },
        bytes.len() < FAM_REC_LEN + 2 ==> associations(fond_resource_id, bytes) is None,
{
}

/// Two characters are the same letter in either case: the same, or a capital from `A` to `Z` and
/// the small letter 32 places behind it.
pub open spec fn same_letter(a: char, b: char) -> bool {
    ||| a == b
    ||| 65 <= a as int <= 90 && b as int == a as int + 32
    ||| 65 <= b as int <= 90 && a as int == b as int + 32
}

/// The texts are the same letter by letter, each in either case.
pub open spec fn same_letters(a: Seq<char>, b: Seq<char>) -> bool {
    &&& a.len() == b.len()
    &&& forall|i: int| 0 <= i < a.len() ==> same_letter(#[trigger] a[i], b[i])
}

/// A character that stands for nothing but space: one of the 25 that Unicode gives the property
/// White_Space.
pub open spec fn is_space(c: char) -> bool {
    seq![
        9int,
        10,
        11,
        12,
        13,
        32,
        133,
        160,
        5760,
        8192,
        8193,
        8194,
        8195,
        8196,
        8197,
        8198,
        8199,
        8200,
        8201,
        8202,
        8232,
        8233,
        8239,
        8287,
        12288,
    ].contains(c as int)
}

/// Every character stands for nothing but space.
pub open spec fn is_spaces(text: Seq<char>) -> bool {
    forall|i: int| 0 <= i < text.len() ==> is_space(#[trigger] text[i])
}

proof fn lemma_space(c: char)
    ensures
        is_space(c) == white_space(c),
{
    let all = seq![
        9int,
        10,
        11,
        12,
        13,
        32,
        133,
        160,
        5760,
        8192,
        8193,
        8194,
        8195,
        8196,
        8197,
        8198,
        8199,
        8200,
        8201,
        8202,
        8232,
        8233,
        8239,
        8287,
        12288,
    ];
    let code = c as int;
    if white_space(c) {
        let at: int = if code <= 13 {
            code - 9
        } else if code == 32 {
            5
        } else if code == 133 {
            6
        } else if code == 160 {
            7
        } else if code == 5760 {
            8
        } else if code <= 8202 {
            code - 8192 + 9
        } else if code == 8232 {
            20
        } else if code == 8233 {
            21
        } else if code == 8239 {
            22
        } else if code == 8287 {
            23
        } else {
            24
        };
        assert(all[at] == code);
    }
}

proof fn lemma_same_letters(a: Seq<char>, b: Seq<char>)
    ensures
        same_letters(a, b) == same_name(a, b),
{
    if a.len() == b.len() {
        assert forall|i: int| 0 <= i < a.len() implies same_letter(#[trigger] a[i], b[i]) == (lower(
            a[i],
        ) == lower(b[i])) by {
            lemma_same_letter(a[i], b[i]);
        }
    }
}

proof fn lemma_same_letter(a: char, b: char)
    ensures
        same_letter(a, b) == (lower(a) == lower(b)),
{
    lemma_lower(a);
    lemma_lower(b);
}

proof fn lemma_lower(c: char)
    ensures
        65 <= c as int <= 90 ==> lower(c) as int == c as int + 32,
        !(65 <= c as int <= 90) ==> lower(c) == c,
{
}

/// Every named family is found by its name, with each letter in either case and with any space
/// around it.
pub proof fn law_names_are_found_in_either_case(
    nth: int,
    before: Seq<char>,
    text: Seq<char>,
    after: Seq<char>,
)
    requires
        0 <= nth < font_name_table().len(),
        same_letters(font_name_table()[nth].1, text),
        is_spaces(before),
        is_spaces(after),
    ensures
        id_from(trimmed(before + text + after), 0) == Some(font_name_table()[nth].0),
{
    let name = font_name_table()[nth].1;
    lemma_same_letters(name, text);
    assert forall|i: int| 0 <= i < before.len() implies white_space(#[trigger] before[i]) by {
        lemma_space(before[i]);
    }
    assert forall|i: int| 0 <= i < after.len() implies white_space(#[trigger] after[i]) by {
        lemma_space(after[i]);
    }
    law_white_space_does_not_count(before, text, after);
    lemma_name_ends(nth);
    lemma_same_letter(name[0], text[0]);
    lemma_same_letter(name.last(), text.last());
    assert(same_letter(name[name.len() - 1], text[name.len() - 1]));
    assert(trim_start(text) == text);
    assert(trim_end(text) == text);
    lemma_id_from(nth, text, 0);
}

/// The names start and end with a letter.
proof fn lemma_name_ends(nth: int)
    requires
        0 <= nth < font_name_table().len(),
    ensures
        ({
            let name = font_name_table()[nth].1;
            &&& name.len() > 0
            &&& 65 <= name[0] as int <= 90
            &&& 97 <= name.last() as int <= 122
        }),
{
    reveal_strlit("Chicago");
    reveal_strlit("Application");
    reveal_strlit("New York");
    reveal_strlit("Geneva");
    reveal_strlit("Monaco");
    reveal_strlit("Venice");
    reveal_strlit("London");
    reveal_strlit("Athens");
    reveal_strlit("San Francisco");
    reveal_strlit("Toronto");
    reveal_strlit("Cairo");
    reveal_strlit("Los Angeles");
    reveal_strlit("Palatino");
    reveal_strlit("Times");
    reveal_strlit("Helvetica");
    reveal_strlit("Courier");
    reveal_strlit("Symbol");
    reveal_strlit("Mobile");
}

/// What leads to a number is the name of the family with that number, with each letter in either
/// case, with space around it or none, and with nothing else.
pub proof fn law_only_names_are_found(text: Seq<char>) -> (parts: (int, int, int))
    ensures
        id_from(trimmed(text), 0) matches Some(font_id) ==> {
            let (nth, from, to) = parts;
            &&& 0 <= nth < font_name_table().len()
            &&& font_name_table()[nth].0 == font_id
            &&& 0 <= from <= to <= text.len()
            &&& is_spaces(text.subrange(0, from))
            &&& same_letters(font_name_table()[nth].1, text.subrange(from, to))
            &&& is_spaces(text.subrange(to, text.len() as int))
        },
{
    let from = lemma_trim_start_at(text);
    let rest = text.subrange(from, text.len() as int);
    let len = lemma_trim_end_at(rest);
    let to = from + len;
    assert(trimmed(text) == rest.subrange(0, len));
    assert(rest.subrange(0, len) =~= text.subrange(from, to));
    assert(rest.subrange(len, rest.len() as int) =~= text.subrange(to, text.len() as int));
    let nth = lemma_id_from_sound(trimmed(text), 0);
    if id_from(trimmed(text), 0) is Some {
        lemma_same_letters(font_name_table()[nth].1, trimmed(text));
    }
    (nth, from, to)
}

proof fn lemma_trim_start_at(text: Seq<char>) -> (from: int)
    ensures
        0 <= from <= text.len(),
        is_spaces(text.subrange(0, from)),
        trim_start(text) == text.subrange(from, text.len() as int),
    decreases text.len(),
{
    if text.len() > 0 && white_space(text[0]) {
        let rest = text.drop_first();
        let from = lemma_trim_start_at(rest);
        lemma_space(text[0]);
        assert forall|i: int| 0 <= i < from + 1 implies is_space(
            #[trigger] text.subrange(0, from + 1)[i],
        ) by {
            if i > 0 {
                assert(rest.subrange(0, from)[i - 1] == text[i]);
            }
        }
        assert(rest.subrange(from, rest.len() as int) =~= text.subrange(
            from + 1,
            text.len() as int,
        ));
        from + 1
    } else {
        assert(text.subrange(0, text.len() as int) =~= text);
        0
    }
}

proof fn lemma_trim_end_at(text: Seq<char>) -> (to: int)
    ensures
        0 <= to <= text.len(),
        is_spaces(text.subrange(to, text.len() as int)),
        trim_end(text) == text.subrange(0, to),
    decreases text.len(),
{
    if text.len() > 0 && white_space(text.last()) {
        let rest = text.drop_last();
        let to = lemma_trim_end_at(rest);
        lemma_space(text.last());
        let end = text.subrange(to, text.len() as int);
        assert forall|i: int| 0 <= i < end.len() implies is_space(#[trigger] end[i]) by {
            if i < end.len() - 1 {
                assert(rest.subrange(to, rest.len() as int)[i] == text[to + i]);
            }
        }
        assert(rest.subrange(0, to) =~= text.subrange(0, to));
        to
    } else {
        assert(text.subrange(0, text.len() as int) =~= text);
        text.len() as int
    }
}

proof fn lemma_id_from_sound(name: Seq<char>, from: int) -> (nth: int)
    ensures
        id_from(name, from) matches Some(font_id) ==> 0 <= nth < font_name_table().len()
            && font_name_table()[nth].0 == font_id && same_name(font_name_table()[nth].1, name),
    decreases font_name_table().len() - from,
{
    if 0 <= from < font_name_table().len() {
        if same_name(font_name_table()[from].1, name) {
            from
        } else {
            lemma_id_from_sound(name, from + 1)
        }
    } else {
        0
    }
}

/// The name of every family: no family but those of the classic fonts has one.
pub proof fn law_families_have_their_names(font_id: i16)
    ensures
        font_id == FONT_CHICAGO ==> name_from(font_id, 0) == Some("Chicago"@),
        font_id == FONT_APPLICATION ==> name_from(font_id, 0) == Some("Application"@),
        font_id == FONT_NEWYORK ==> name_from(font_id, 0) == Some("New York"@),
        font_id == FONT_GENEVA ==> name_from(font_id, 0) == Some("Geneva"@),
        font_id == FONT_MONACO ==> name_from(font_id, 0) == Some("Monaco"@),
        font_id == FONT_VENICE ==> name_from(font_id, 0) == Some("Venice"@),
        font_id == FONT_LONDON ==> name_from(font_id, 0) == Some("London"@),
        font_id == FONT_ATHENS ==> name_from(font_id, 0) == Some("Athens"@),
        font_id == FONT_SANFRAN ==> name_from(font_id, 0) == Some("San Francisco"@),
        font_id == FONT_TORONTO ==> name_from(font_id, 0) == Some("Toronto"@),
        font_id == FONT_CAIRO ==> name_from(font_id, 0) == Some("Cairo"@),
        font_id == FONT_LOSANGELES ==> name_from(font_id, 0) == Some("Los Angeles"@),
        font_id == FONT_PALATINO ==> name_from(font_id, 0) == Some("Palatino"@),
        font_id == FONT_TIMES ==> name_from(font_id, 0) == Some("Times"@),
        font_id == FONT_HELVETICA ==> name_from(font_id, 0) == Some("Helvetica"@),
        font_id == FONT_COURIER ==> name_from(font_id, 0) == Some("Courier"@),
        font_id == FONT_SYMBOL ==> name_from(font_id, 0) == Some("Symbol"@),
        font_id == FONT_MOBILE ==> name_from(font_id, 0) == Some("Mobile"@),
        name_from(font_id, 0) is Some ==> 0 <= font_id <= 9 || font_id == 11 || font_id == 12
            || font_id == 16 || 20 <= font_id <= 24,
{
    lemma_name_from_sound(font_id, 0);
    if 0 <= font_id <= 9 {
        lemma_name_from(font_id as int, 0);
    } else if font_id == FONT_CAIRO {
        lemma_name_from(10, 0);
    } else if font_id == FONT_LOSANGELES {
        lemma_name_from(11, 0);
    } else if font_id == FONT_PALATINO {
        lemma_name_from(12, 0);
    } else if 20 <= font_id <= 24 {
        lemma_name_from(font_id - 7, 0);
    }
}

} // verus!
