//! The virtual machine: arena, instruction set, decoder, processes,
//! scheduler, loader and engine.

use vstd::prelude::*;

pub mod decoder;
pub mod engine;
pub mod executor;
pub mod instruction;
pub mod loader;
pub mod memory;
pub mod process;
pub mod scheduler;

verus! {

/// The colour in which a champion is drawn.
#[derive(Debug, Clone, Copy, PartialEq, Eq, Structural)]
pub enum ChampionColor {
    Red,
    Blue,
    Green,
    Yellow,
}

/// The colour of the champion with the given id: red, blue, green, yellow for
/// 1 to 4, red for any other.
pub open spec fn color_of(id: u8) -> ChampionColor {
    if id == 2 {
        ChampionColor::Blue
    } else if id == 3 {
        ChampionColor::Green
    } else if id == 4 {
        ChampionColor::Yellow
    } else {
        ChampionColor::Red
    }
}

/// A champion: a program loaded into the arena, and its standing in the
/// battle.
#[derive(Debug, Clone)]
pub struct Champion {
    /// The champion's id, 1 to 4.
    pub id: u8,
    /// Its name.
    pub name: String,
    /// Its comment.
    pub comment: String,
    /// Its code.
    pub code: Vec<u8>,
    /// The address at which the code is loaded.
    pub load_address: usize,
    /// The number of its processes that are alive.
    pub process_count: usize,
    /// The number of `live` instructions that its processes have executed in
    /// the current period.
    pub live_count: u32,
    /// The colour in which it is drawn.
    pub color: ChampionColor,
}

impl Champion {
    /// A champion that has just been loaded: one process, no `live` yet.
    pub fn new(id: u8, name: String, comment: String, code: Vec<u8>, load_address: usize) -> (c:
        Self)
        ensures
            c == (Champion {
                id,
                name,
                comment,
                code,
                load_address,
                process_count: 1,
                live_count: 0,
                color: color_of(id),
            }),
    {
        let color = match id {
            1 => ChampionColor::Red,
            2 => ChampionColor::Blue,
            3 => ChampionColor::Green,
            4 => ChampionColor::Yellow,
            _ => ChampionColor::Red,
        };
        Champion { id, name, comment, code, load_address, process_count: 1, live_count: 0, color }
    }

    /// The length of the champion's code in bytes.
    pub fn code_size(&self) -> (n: usize)
        ensures
            n == self.code@.len(),
    {
        self.code.len()
    }
}

} // verus!
