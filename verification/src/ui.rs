//! The state of the terminal interface: what the user has selected, what
//! the keys and the mouse mean, and how the arena is laid out on a grid.
//! Drawing is left to the program that shows the battle.

use vstd::prelude::*;
use crate::error::CoreWarError;

pub mod app;
pub mod components;
pub mod effects;
pub mod input;

verus! {

/// Prepares the interface. There is nothing to prepare before a terminal is
/// attached.
pub fn initialize() -> (r: Result<(), CoreWarError>)
    ensures
        r is Ok,
{
    Ok(())
}

/// Leaves the interface. There is nothing to restore where nothing was
/// prepared.
pub fn cleanup() -> (r: Result<(), CoreWarError>)
    ensures
        r is Ok,
{
    Ok(())
}

} // verus!
