//! Core War: a deterministic virtual machine in which champion programs
//! fight for a shared circular memory arena.
//!
//! - [`assembler`]: the lexer, the parser and the encoder that turn source
//!   text into a champion file.
//! - [`vm`]: the arena, the instruction set, the decoder, processes, the
//!   scheduler, the champion loader and the engine that ties them together.
//! - [`error`]: the error type shared by every module.
//! - [`text`]: decimal and hexadecimal rendering used in messages and dumps.
//! - [`ui`]: the state of the terminal interface.

pub mod assembler;
pub mod constants;
pub mod error;
pub mod text;
pub mod ui;
pub mod vm;

pub use assembler::Assembler;
pub use error::CoreWarError;
pub use vm::engine::{GameConfig, GameEngine, GameState, GameStats};
pub use vm::instruction::{Instruction, Parameter, ParameterType};
pub use vm::loader::{ChampionHeader, ChampionLoader};
pub use vm::memory::Memory;
pub use vm::process::Process;
pub use vm::scheduler::Scheduler;
pub use vm::{Champion, ChampionColor};
