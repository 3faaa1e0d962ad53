//! The error type shared by every module.

use vstd::prelude::*;

verus! {

/// Everything that can go wrong in the machine, the loader or the assembler.
#[derive(Debug)]
pub enum CoreWarError {
    /// A memory operation was refused.
    Memory { message: String },
    /// A process could not be created or run.
    Process { message: String },
    /// An instruction is malformed.
    Instruction { message: String },
    /// A champion could not be loaded or placed.
    Champion { message: String },
    /// The assembler rejected its source.
    Assembler { message: String },
    /// Reading or writing a file failed; the message is the system's own.
    Io { message: String },
    /// The byte is no opcode of the instruction set.
    InvalidOpcode { opcode: u8 },
    /// The number names no register.
    InvalidRegister { register: u8 },
    /// The address cannot be used.
    InvalidAddress { address: usize },
    /// An operand has an addressing mode that its instruction does not take.
    InvalidParameterType { instruction: String, expected: String, actual: String },
    /// A champion file does not start with a valid header.
    InvalidHeader { message: String },
    /// The engine is in no state to do what was asked.
    GameState { message: String },
}

impl CoreWarError {
    /// A memory error with the given message.
    pub fn memory(message: String) -> (e: Self)
        ensures
            e == (CoreWarError::Memory { message }),
    {
        CoreWarError::Memory { message }
    }

    /// A process error with the given message.
    pub fn process(message: String) -> (e: Self)
        ensures
            e == (CoreWarError::Process { message }),
    {
        CoreWarError::Process { message }
    }

    /// An instruction error with the given message.
    pub fn instruction(message: String) -> (e: Self)
        ensures
            e == (CoreWarError::Instruction { message }),
    {
        CoreWarError::Instruction { message }
    }

    /// A champion error with the given message.
    pub fn champion(message: String) -> (e: Self)
        ensures
            e == (CoreWarError::Champion { message }),
    {
        CoreWarError::Champion { message }
    }

    /// An assembler error with the given message.
    pub fn assembler(message: String) -> (e: Self)
        ensures
            e == (CoreWarError::Assembler { message }),
    {
        CoreWarError::Assembler { message }
    }

    /// A game state error with the given message.
    pub fn game_state(message: String) -> (e: Self)
        ensures
            e == (CoreWarError::GameState { message }),
    {
        CoreWarError::GameState { message }
    }
}

} // verus!
