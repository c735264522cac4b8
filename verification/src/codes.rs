use vstd::prelude::*;
use crate::mode::ReaderMode;

verus! {

// The per-title settings are stored as small integers: 0 stands for "not set",
// reading modes are 1 (manga), 2 (double) and 3 (webtoon), and a reading
// direction is 1 (left to right) or 2 (right to left).

pub open spec fn mode_code(m: Option<ReaderMode>) -> i8 {
    match m {
        Some(ReaderMode::Manga) => 1,
        Some(ReaderMode::Double) => 2,
        Some(ReaderMode::Webtoon) => 3,
        None => 0,
    }
}

pub open spec fn mode_of_code(v: i8) -> Option<ReaderMode> {
    if v == 1 {
        Some(ReaderMode::Manga)
    } else if v == 2 {
        Some(ReaderMode::Double)
    } else if v == 3 {
        Some(ReaderMode::Webtoon)
    } else {
        None
    }
}

pub open spec fn rtl_code(r: Option<bool>) -> i8 {
    match r {
        Some(true) => 2,
        Some(false) => 1,
        None => 0,
    }
}

pub open spec fn rtl_of_code(v: i8) -> Option<bool> {
    if v == 0 {
        None
    } else if v == 1 {
        Some(false)
    } else {
        Some(true)
    }
}

/// Reads a stored reading mode; codes other than 1, 2 and 3 mean "not set".
pub fn i8_to_mode(v: i8) -> (r: Option<ReaderMode>)
    ensures
        r == mode_of_code(v),
{
    match v {
        1 => Some(ReaderMode::Manga),
        2 => Some(ReaderMode::Double),
        3 => Some(ReaderMode::Webtoon),
        _ => None,
    }
}

/// The code under which a reading mode is stored.
pub fn mode_to_i8(m: Option<ReaderMode>) -> (r: i8)
    ensures
        r == mode_code(m),
{
    match m {
        Some(ReaderMode::Manga) => 1,
        Some(ReaderMode::Double) => 2,
        Some(ReaderMode::Webtoon) => 3,
        None => 0,
    }
}

/// The code under which a reading direction is stored.
pub fn rtl_to_i8(r: Option<bool>) -> (c: i8)
    ensures
        c == rtl_code(r),
{
    match r {
        Some(true) => 2,
        Some(false) => 1,
        None => 0,
    }
}

/// Reads a stored reading direction: 0 means "not set", 1 left to right, any
/// other code right to left.
pub fn i8_to_rtl(v: i8) -> (r: Option<bool>)
    ensures
        r == rtl_of_code(v),
{
    match v {
        0 => None,
        1 => Some(false),
        _ => Some(true),
    }
}

/// A stored reading mode reads back as the mode that was stored.
pub proof fn lemma_mode_code_roundtrip(m: Option<ReaderMode>)
    ensures
        mode_of_code(mode_code(m)) == m,
{
}

/// A stored reading direction reads back as the direction that was stored.
pub proof fn lemma_rtl_code_roundtrip(r: Option<bool>)
    ensures
        rtl_of_code(rtl_code(r)) == r,
{
}

} // verus!
