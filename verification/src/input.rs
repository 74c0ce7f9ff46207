//! What the host's notifications carry: two 16-bit words packed into one
//! message parameter, and the rows of the surface that a move of the sweep
//! line leaves stale.

use vstd::prelude::*;

verus! {

/// The low 16-bit word of a message parameter.
pub open spec fn low_word(param: u64) -> int {
    (param as int) % 0x1_0000
}

/// The second 16-bit word of a message parameter.
pub open spec fn high_word(param: u64) -> int {
    ((param as int) / 0x1_0000) % 0x1_0000
}

/// Splits a message parameter into its low and its second 16-bit word.
pub fn split_words(param: u64) -> (words: (u16, u16))
    ensures
        words.0 == low_word(param),
        words.1 == high_word(param),
{
    let low: u64 = param & 0x0000_FFFF;
    let high: u64 = (param & 0xFFFF_0000) >> 16;
    assert(low == param % 0x1_0000 && low < 0x1_0000) by (bit_vector)
        requires
            low == param & 0x0000_FFFF,
    ;
    assert(high == (param / 0x1_0000) % 0x1_0000 && high < 0x1_0000) by (bit_vector)
        requires
            high == (param & 0xFFFF_0000) >> 16,
    ;
    (low as u16, high as u16)
}

/// The pointer's position, `(x, y)`, from the parameter of a pointer-move
/// message.
pub fn mouse_position(lparam: u64) -> (position: (u16, u16))
    ensures
        position.0 == low_word(lparam),
        position.1 == high_word(lparam),
{
    split_words(lparam)
}

/// The surface's new size, `(width, height)`, from the parameter of a size
/// message.
pub fn size(lparam: u64) -> (extent: (u16, u16))
    ensures
        extent.0 == low_word(lparam),
        extent.1 == high_word(lparam),
{
    split_words(lparam)
}

/// The rows between two places of the sweep line: from the upper of the two
/// to the lower.
pub open spec fn rows_between(previous: int, current: int) -> (int, int) {
    if previous <= current {
        (previous, current)
    } else {
        (current, previous)
    }
}

/// The rows to repaint after the sweep line has moved from `previous` to
/// `current`.
pub fn invalidated_rows(previous: i32, current: i32) -> (rows: (i32, i32))
    ensures
        (rows.0 as int, rows.1 as int) == rows_between(previous as int, current as int),
{
    if previous <= current {
        (previous, current)
    } else {
        (current, previous)
    }
}

} // verus!
