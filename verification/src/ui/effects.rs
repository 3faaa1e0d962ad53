//! Symbols for the display.

use vstd::prelude::*;

verus! {

/// Symbols that stand for what happens in the battle.
#[derive(Debug, Clone, Copy)]
pub struct AsciiArt;

/// The symbol of a process: a diamond, a circle, a triangle or a square by
/// the remainder of its id by four, filled for a process that is active,
/// hollow for one that is not.
pub open spec fn indicator(process_id: u32, is_active: bool) -> char {
    let shape = process_id % 4;
    if is_active {
        if shape == 0 {
            '\u{25C6}'
        } else if shape == 1 {
            '\u{25CF}'
        } else if shape == 2 {
            '\u{25B2}'
        } else {
            '\u{25A0}'
        }
    } else {
        if shape == 0 {
            '\u{25C7}'
        } else if shape == 1 {
            '\u{25CB}'
        } else if shape == 2 {
            '\u{25B3}'
        } else {
            '\u{25A1}'
        }
    }
}

impl AsciiArt {
    /// The symbol of a process.
    pub fn process_indicator(process_id: u32, is_active: bool) -> (c: char)
        ensures
            c == indicator(process_id, is_active),
    {
        if is_active {
            match process_id % 4 {
                0 => '\u{25C6}',
                1 => '\u{25CF}',
                2 => '\u{25B2}',
                _ => '\u{25A0}',
            }
        } else {
            match process_id % 4 {
                0 => '\u{25C7}',
                1 => '\u{25CB}',
                2 => '\u{25B3}',
                _ => '\u{25A1}',
            }
        }
    }
}

} // verus!
