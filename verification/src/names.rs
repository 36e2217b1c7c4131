//! Family names.
use vstd::prelude::*;

verus! {

/// The families that have a name, in the order in which they are searched.
pub open spec fn font_name_table() -> Seq<(i16, Seq<char>)> {
    seq![
        (0i16, "Chicago"@),
        (1i16, "Application"@),
        (2i16, "New York"@),
        (3i16, "Geneva"@),
        (4i16, "Monaco"@),
        (5i16, "Venice"@),
        (6i16, "London"@),
        (7i16, "Athens"@),
        (8i16, "San Francisco"@),
        (9i16, "Toronto"@),
        (11i16, "Cairo"@),
        (12i16, "Los Angeles"@),
        (16i16, "Palatino"@),
        (20i16, "Times"@),
        (21i16, "Helvetica"@),
        (22i16, "Courier"@),
        (23i16, "Symbol"@),
        (24i16, "Mobile"@),
    ]
}

/// The name of the first family with that number, from entry `from` of the table on.
pub open spec fn name_from(font_id: i16, from: int) -> Option<Seq<char>>
    decreases font_name_table().len() - from,
{
    if from < 0 || from >= font_name_table().len() {
        None
    } else if font_name_table()[from].0 == font_id {
        Some(font_name_table()[from].1)
    } else {
        name_from(font_id, from + 1)
    }
}

/// A character that Unicode counts as white space.
pub open spec fn white_space(c: char) -> bool {
    let code = c as u32;
    ||| 0x9 <= code <= 0xD
    ||| code == 0x20
    ||| code == 0x85
    ||| code == 0xA0
    ||| code == 0x1680
    ||| 0x2000 <= code <= 0x200A
    ||| code == 0x2028
    ||| code == 0x2029
    ||| code == 0x202F
    ||| code == 0x205F
    ||| code == 0x3000
}

/// The text without the white space that it starts with.
pub open spec fn trim_start(text: Seq<char>) -> Seq<char>
    decreases text.len(),
{
    if text.len() > 0 && white_space(text[0]) {
        trim_start(text.drop_first())
    } else {
        text
    }
}

/// The text without the white space that it ends with.
pub open spec fn trim_end(text: Seq<char>) -> Seq<char>
    decreases text.len(),
{
    if text.len() > 0 && white_space(text.last()) {
        trim_end(text.drop_last())
    } else {
        text
    }
}

/// The text without the white space around it.
pub open spec fn trimmed(text: Seq<char>) -> Seq<char> {
    trim_end(trim_start(text))
}

/// The small letter for a capital ASCII letter; every other character itself.
pub open spec fn lower(c: char) -> char {
    if 'A' <= c <= 'Z' {
        (c as u32 + 0x20) as char
    } else {
        c
    }
}

/// The texts are the same but for the case of ASCII letters.
pub open spec fn same_name(a: Seq<char>, b: Seq<char>) -> bool {
    &&& a.len() == b.len()
    &&& forall|i: int| 0 <= i < a.len() ==> lower(#[trigger] a[i]) == lower(b[i])
}

/// The number of the first family with that name, from entry `from` of the table on.
pub open spec fn id_from(name: Seq<char>, from: int) -> Option<i16>
    decreases font_name_table().len() - from,
{
    if from < 0 || from >= font_name_table().len() {
        None
    } else if same_name(font_name_table()[from].1, name) {
        Some(font_name_table()[from].0)
    } else {
        id_from(name, from + 1)
    }
}

/// The families that have a name, in the order in which they are searched.
pub fn font_names() -> (table: Vec<(i16, &'static str)>)
    ensures
        table@.len() == font_name_table().len(),
        forall|i: int|
            0 <= i < table@.len() ==> (#[trigger] table@[i].0, table@[i].1@)
                == font_name_table()[i],
{
    vec![
        (0, "Chicago"),
        (1, "Application"),
        (2, "New York"),
        (3, "Geneva"),
        (4, "Monaco"),
        (5, "Venice"),
        (6, "London"),
        (7, "Athens"),
        (8, "San Francisco"),
        (9, "Toronto"),
        (11, "Cairo"),
        (12, "Los Angeles"),
        (16, "Palatino"),
        (20, "Times"),
        (21, "Helvetica"),
        (22, "Courier"),
        (23, "Symbol"),
        (24, "Mobile"),
    ]
}

/// The name of a family.
pub fn font_name_for_id(font_id: i16) -> (name: Option<&'static str>)
    ensures
        name matches Some(n) ==> name_from(font_id, 0) == Some(n@),
        name is None ==> name_from(font_id, 0) is None,
{
    let table = font_names();
    let mut i: usize = 0;
    while i < table.len()
        invariant
            i <= table@.len(),
            table@.len() == font_name_table().len(),
            forall|j: int|
                0 <= j < table@.len() ==> (#[trigger] table@[j].0, table@[j].1@)
                    == font_name_table()[j],
            name_from(font_id, 0) == name_from(font_id, i as int),
        decreases table@.len() - i,
    {
        assert((table@[i as int].0, table@[i as int].1@) == font_name_table()[i as int]);
        if table[i].0 == font_id {
            return Some(table[i].1);
        }
        i = i + 1;
    }
    None
}

/// The family with a name. White space around the name and the case of its letters do not count.
pub fn font_id_for_name(name: &str) -> (font_id: Option<i16>)
    ensures
        font_id == id_from(trimmed(name@), 0),
{
    let needle = trim(name);
    let table = font_names();
    let mut i: usize = 0;
    while i < table.len()
        invariant
            i <= table@.len(),
            needle@ == trimmed(name@),
            table@.len() == font_name_table().len(),
            forall|j: int|
                0 <= j < table@.len() ==> (#[trigger] table@[j].0, table@[j].1@)
                    == font_name_table()[j],
            id_from(needle@, 0) == id_from(needle@, i as int),
        decreases table@.len() - i,
    {
        assert((table@[i as int].0, table@[i as int].1@) == font_name_table()[i as int]);
        if eq_ignore_case(&chars_of(table[i].1), &needle) {
            return Some(table[i].0);
        }
        i = i + 1;
    }
    None
}

/// The characters of a text.
fn chars_of(text: &str) -> (chars: Vec<char>)
    ensures
        chars@ == text@,
{
    let mut chars: Vec<char> = Vec::new();
    for c in it: text.chars()
        invariant
            chars@ == it.seq().take(it.index()),
    {
        chars.push(c);
    }
    chars
}

/// Tells whether Unicode counts a character as white space.
pub fn is_white_space(c: char) -> (white: bool)
    ensures
        white == white_space(c),
{
    let code: u32 = c as u32;
    (0x9 <= code && code <= 0xD) || code == 0x20 || code == 0x85 || code == 0xA0 || code == 0x1680
        || (0x2000 <= code && code <= 0x200A) || code == 0x2028 || code == 0x2029 || code == 0x202F
        || code == 0x205F || code == 0x3000
}

/// The characters of a text without the white space around it.
fn trim(text: &str) -> (inner: Vec<char>)
    ensures
        inner@ == trimmed(text@),
{
    let chars = chars_of(text);
    let mut start: usize = 0;
    assert(chars@.skip(0) =~= chars@);
    while start < chars.len() && is_white_space(chars[start])
        invariant
            start <= chars@.len(),
            trim_start(chars@) == trim_start(chars@.skip(start as int)),
        decreases chars@.len() - start,
    {
        assert(chars@.skip(start as int).drop_first() =~= chars@.skip(start + 1));
        start = start + 1;
    }
    let ghost rest = chars@.skip(start as int);
    assert(trim_start(chars@) == rest);
    let mut end: usize = chars.len();
    assert(chars@.subrange(start as int, end as int) =~= rest);
    while end > start && is_white_space(chars[end - 1])
        invariant
            start <= end <= chars@.len(),
            trim_end(rest) == trim_end(chars@.subrange(start as int, end as int)),
        decreases end - start,
    {
        assert(chars@.subrange(start as int, end as int).drop_last() =~= chars@.subrange(
            start as int,
            end - 1,
        ));
        end = end - 1;
    }
    let mut inner: Vec<char> = Vec::new();
    let mut i: usize = start;
    while i < end
        invariant
            start <= i <= end <= chars@.len(),
            inner@ == chars@.subrange(start as int, i as int),
        decreases end - i,
    {
        inner.push(chars[i]);
        i = i + 1;
    }
    inner
}

/// The small letter for a capital ASCII letter; every other character itself.
fn to_lower(c: char) -> (small: char)
    ensures
        small == lower(c),
{
    if 'A' <= c && c <= 'Z' {
        (c as u8 + 0x20) as char
    } else {
        c
    }
}

/// Tells whether the texts are the same but for the case of ASCII letters.
fn eq_ignore_case(a: &Vec<char>, b: &Vec<char>) -> (same: bool)
    ensures
        same == same_name(a@, b@),
{
    if a.len() != b.len() {
        return false;
    }
    let mut i: usize = 0;
    while i < a.len()
        invariant
            a@.len() == b@.len(),
            i <= a@.len(),
            forall|j: int| 0 <= j < i ==> lower(#[trigger] a@[j]) == lower(b@[j]),
        decreases a@.len() - i,
    {
        if to_lower(a[i]) != to_lower(b[i]) {
            return false;
        }
        i = i + 1;
    }
    true
}

} // verus!
