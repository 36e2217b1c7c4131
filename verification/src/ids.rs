//! Family numbers of the classic fonts.
use vstd::prelude::*;

verus! {

pub const FONT_CHICAGO: i16 = 0;

pub const FONT_APPLICATION: i16 = 1;

pub const FONT_NEWYORK: i16 = 2;

pub const FONT_GENEVA: i16 = 3;

pub const FONT_MONACO: i16 = 4;

pub const FONT_VENICE: i16 = 5;

pub const FONT_LONDON: i16 = 6;

pub const FONT_ATHENS: i16 = 7;

pub const FONT_SANFRAN: i16 = 8;

pub const FONT_TORONTO: i16 = 9;

pub const FONT_SEATTLE: i16 = 10;

pub const FONT_CAIRO: i16 = 11;

pub const FONT_LOSANGELES: i16 = 12;

pub const FONT_PALATINO: i16 = 16;

pub const FONT_TIMES: i16 = 20;

pub const FONT_HELVETICA: i16 = 21;

pub const FONT_COURIER: i16 = 22;

pub const FONT_SYMBOL: i16 = 23;

pub const FONT_MOBILE: i16 = 24;

/// The built-in family that stands in for a family without faces of its own.
pub open spec fn substitute(font_id: i16) -> Option<i16> {
    if font_id == FONT_APPLICATION || font_id == FONT_HELVETICA {
        Some(FONT_GENEVA)
    } else if font_id == FONT_PALATINO || font_id == FONT_TIMES {
        Some(FONT_NEWYORK)
    } else if font_id == FONT_COURIER {
        Some(FONT_MONACO)
    } else {
        None
    }
}

/// The built-in family that stands in for a family without faces of its own.
pub fn fallback_font_id(font_id: i16) -> (fallback: Option<i16>)
    ensures
        fallback == substitute(font_id),
{
    if font_id == FONT_APPLICATION {
        Some(FONT_GENEVA)
    } else if font_id == FONT_PALATINO || font_id == FONT_TIMES {
        Some(FONT_NEWYORK)
    } else if font_id == FONT_HELVETICA {
        Some(FONT_GENEVA)
    } else if font_id == FONT_COURIER {
        Some(FONT_MONACO)
    } else {
        None
    }
}

/// The size that a request for size 0 stands for is 12 points.
pub open spec fn effective_size(size: i16) -> i16 {
    if size == 0 {
        12
    } else {
        size
    }
}

/// The size that is looked up when `size` is asked for.
pub fn lookup_size(size: i16) -> (effective: i16)
    ensures
        effective == effective_size(size),
{
    if size == 0 {
        12
    } else {
        size
    }
}

} // verus!
