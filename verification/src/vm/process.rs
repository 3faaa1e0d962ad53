//! Processes: the execution contexts of the machine.
//!
//! A process has a program counter, sixteen registers, a carry flag, and two
//! counters that tie it to the clock: `wait_cycles`, the number of cycles left
//! before its pending instruction commits, and `live_counter`, the number of
//! cycles since it last declared itself alive. At cycle `t` the instruction
//! commits at cycle `t + wait_cycles` and the last `live` was at cycle
//! `t - live_counter`.

use vstd::prelude::*;
use crate::constants::MEMORY_SIZE;
use crate::error::CoreWarError;
use crate::text::{decimal, decimal_text, hex_digits, hex_upper};
use crate::vm::ChampionColor;
use crate::vm::instruction::DecodedInstruction;
use crate::vm::memory::lemma_truncated_rem;

verus! {

/// The number of program counters that a process remembers.
pub const TRAIL_LENGTH: usize = 10;

/// What a process is waiting to commit.
#[derive(Debug, Clone, Copy, PartialEq, Eq, Structural)]
pub enum Pending {
    /// Nothing: the process decodes when it next runs.
    Idle,
    /// What stood at the program counter was no valid instruction: the
    /// process dies when its wait is over.
    Fault,
    /// A decoded instruction.
    Ready(DecodedInstruction),
}

/// A process.
#[derive(Debug, Clone, Copy)]
pub struct Process {
    /// The process's id, unique in its engine.
    pub id: u32,
    /// The champion that owns the process.
    pub champion_id: u8,
    /// The program counter.
    pub pc: usize,
    /// The registers r1 to r16, at indices 0 to 15.
    pub registers: [i32; 16],
    /// The carry flag.
    pub carry: bool,
    /// The number of cycles since the process last executed `live`, or since
    /// it was created.
    pub live_counter: u32,
    /// Whether the process is alive.
    pub alive: bool,
    /// The number of cycles left before the pending instruction commits.
    pub wait_cycles: u32,
    /// The colour of the owning champion.
    pub color: ChampionColor,
    /// The last program counters, kept as a ring: the newest stands at index
    /// `(trail_count - 1) % TRAIL_LENGTH`.
    pub trail: [usize; 10],
    /// The number of program counters recorded; once the ring is full it
    /// stays between `TRAIL_LENGTH` and `2 * TRAIL_LENGTH - 1`.
    pub trail_count: usize,
    /// What the process is waiting to commit.
    pub pending: Pending,
}

/// The registers of a new process of the given champion: r1 holds the
/// champion's id, negated; the others hold zero.
pub open spec fn initial_register(champion_id: u8, index: int) -> i32 {
    if index == 0 {
        (-(champion_id as int)) as i32
    } else {
        0
    }
}

/// The trail counter after one more program counter is recorded.
pub open spec fn next_trail_count(count: usize) -> usize {
    if count % TRAIL_LENGTH + TRAIL_LENGTH + 1 >= 2 * TRAIL_LENGTH {
        TRAIL_LENGTH
    } else if count >= TRAIL_LENGTH {
        (count % TRAIL_LENGTH + TRAIL_LENGTH + 1) as usize
    } else {
        (count + 1) as usize
    }
}

/// The text of a truth value.
pub open spec fn bool_text(b: bool) -> Seq<char> {
    if b {
        "true"@
    } else {
        "false"@
    }
}

impl Process {
    /// The program counter lies in the arena.
    pub open spec fn wf(self) -> bool {
        self.pc < MEMORY_SIZE
    }

    /// The value of register `register`, numbered from 1.
    pub open spec fn reg(self, register: int) -> i32 {
        self.registers[register - 1]
    }

    /// The process with register `register`, numbered from 1, set to `value`.
    pub open spec fn with_register(self, register: int, value: i32) -> Process {
        Process {
            registers: vstd::array::spec_array_update(self.registers, register - 1, value),
            ..self
        }
    }

    /// The process moved to `pc`, which is added to its trail.
    pub open spec fn moved_to(self, pc: usize) -> Process {
        Process {
            pc,
            trail: vstd::array::spec_array_update(
                self.trail,
                (self.trail_count % TRAIL_LENGTH) as int,
                pc,
            ),
            trail_count: next_trail_count(self.trail_count),
            ..self
        }
    }

    /// The child that a process gets by forking.
    pub open spec fn forked(self, new_id: u32, new_pc: usize, memory_size: usize) -> Process {
        Process {
            id: new_id,
            pc: (new_pc % memory_size) as usize,
            wait_cycles: 0,
            pending: Pending::Idle,
            ..self
        }
    }

    /// A new process: alive, nothing pending, no cycle to wait, carry clear,
    /// r1 holding the champion's id negated and the other registers zero,
    /// the trail holding the program counter.
    pub open spec fn fresh(id: u32, champion_id: u8, pc: usize, color: ChampionColor) -> Process {
        Process {
            id,
            champion_id,
            pc,
            registers: vstd::array::spec_array_update(
                vstd::array::spec_array_fill_for_copy_type::<i32, 16>(0),
                0,
                (-(champion_id as int)) as i32,
            ),
            carry: false,
            live_counter: 0,
            alive: true,
            wait_cycles: 0,
            color,
            trail: vstd::array::spec_array_update(
                vstd::array::spec_array_fill_for_copy_type::<usize, 10>(0),
                0,
                pc,
            ),
            trail_count: 1,
            pending: Pending::Idle,
        }
    }

    /// The text that [`Process::debug_state`] returns.
    pub open spec fn debug_text(self) -> Seq<char> {
        "Process "@ + decimal_text(self.id as int) + " (Champion "@ + decimal_text(
            self.champion_id as int,
        ) + "): PC="@ + hex_digits(self.pc as nat, 4) + ", Alive="@ + bool_text(self.alive)
            + ", Wait="@ + decimal_text(self.wait_cycles as int) + ", Carry="@ + bool_text(
            self.carry,
        ) + ", LiveCounter="@ + decimal_text(self.live_counter as int)
    }

    /// A new process of champion `champion_id` at `pc`: alive, ready to
    /// decode, carry clear, r1 holding the champion's id negated.
    pub fn new(id: u32, champion_id: u8, pc: usize, color: ChampionColor) -> (p: Self)
        ensures
            p == Process::fresh(id, champion_id, pc, color),
            forall|k: int| 0 <= k < 16 ==> p.registers[k] == initial_register(champion_id, k),
            p.trail[0] == pc,
    {
        let mut registers = [0i32;16];
        registers[0] = -(champion_id as i32);
        let mut trail = [0usize;10];
        trail[0] = pc;
        Process {
            id,
            champion_id,
            pc,
            registers,
            carry: false,
            live_counter: 0,
            alive: true,
            wait_cycles: 0,
            color,
            trail,
            trail_count: 1,
            pending: Pending::Idle,
        }
    }

    /// The value of a register, numbered 1 to 16; any other number is
    /// refused.
    pub fn get_register(&self, register: u8) -> (r: Result<i32, CoreWarError>)
        ensures
            1 <= register <= 16 ==> r == Ok::<i32, CoreWarError>(self.reg(register as int)),
            !(1 <= register <= 16) ==> r == Err::<i32, CoreWarError>(
                CoreWarError::InvalidRegister { register },
            ),
    {
        if register == 0 || register > 16 {
            return Err(CoreWarError::InvalidRegister { register });
        }
        Ok(self.registers[(register - 1) as usize])
    }

    /// Sets a register, numbered 1 to 16; any other number is refused and
    /// the process is left as it was.
    pub fn set_register(&mut self, register: u8, value: i32) -> (r: Result<(), CoreWarError>)
        ensures
            1 <= register <= 16 ==> r is Ok && *final(self) == old(self).with_register(
                register as int,
                value,
            ),
            !(1 <= register <= 16) ==> *final(self) == *old(self) && r == Err::<(), CoreWarError>(
                CoreWarError::InvalidRegister { register },
            ),
    {
        if register == 0 || register > 16 {
            return Err(CoreWarError::InvalidRegister { register });
        }
        self.registers[(register - 1) as usize] = value;
        Ok(())
    }

    /// Moves the program counter by `offset`, forwards or backwards, round a
    /// memory of `memory_size` cells.
    pub fn advance_pc(&mut self, offset: i32, memory_size: usize)
        requires
            memory_size > 0,
        ensures
            *final(self) == old(self).moved_to(((old(self).pc + offset) % (memory_size as int)) as usize),
            final(self).pc < memory_size,
    {
        let size = memory_size as i128;
        let moved: i128 = (self.pc as i128 + offset as i128) % size;
        proof {
            lemma_truncated_rem(self.pc + offset, memory_size as int);
        }
        let new_pc = if moved < 0 {
            (moved + size) as usize
        } else {
            moved as usize
        };
        self.pc = new_pc;
        self.add_to_trail();
    }

    /// Sets the program counter to `address`, taken round a memory of
    /// `memory_size` cells.
    pub fn set_pc(&mut self, address: usize, memory_size: usize)
        requires
            memory_size > 0,
        ensures
            *final(self) == old(self).moved_to((address % memory_size) as usize),
            final(self).pc < memory_size,
    {
        self.pc = address % memory_size;
        self.add_to_trail();
    }

    /// Records the program counter in the trail, in place of the oldest
    /// entry once the trail is full.
    fn add_to_trail(&mut self)
        ensures
            *final(self) == old(self).moved_to(old(self).pc),
    {
        let slot = self.trail_count % TRAIL_LENGTH;
        self.trail[slot] = self.pc;
        self.trail_count = if slot + TRAIL_LENGTH + 1 >= 2 * TRAIL_LENGTH {
            TRAIL_LENGTH
        } else if self.trail_count >= TRAIL_LENGTH {
            slot + TRAIL_LENGTH + 1
        } else {
            self.trail_count + 1
        };
    }

    /// Records that the process has declared itself alive in this cycle.
    pub fn mark_alive(&mut self)
        ensures
            *final(self) == (Process { live_counter: 0, ..*old(self) }),
    {
        self.live_counter = 0;
    }

    /// Counts one more cycle since the last `live`; the counter stops at the
    /// largest value it can hold.
    pub fn increment_live_counter(&mut self)
        ensures
            *final(self) == (Process {
                live_counter: if old(self).live_counter < u32::MAX {
                    (old(self).live_counter + 1) as u32
                } else {
                    u32::MAX
                },
                ..*old(self)
            }),
    {
        self.live_counter = self.live_counter.saturating_add(1);
    }

    /// Kills the process.
    pub fn kill(&mut self)
        ensures
            *final(self) == (Process { alive: false, ..*old(self) }),
    {
        self.alive = false;
    }

    /// Whether the process is alive and has no cycle left to wait.
    pub fn is_ready(&self) -> (b: bool)
        ensures
            b == (self.alive && self.wait_cycles == 0),
    {
        self.alive && self.wait_cycles == 0
    }

    /// Sets the number of cycles to wait.
    pub fn set_wait_cycles(&mut self, cycles: u32)
        ensures
            *final(self) == (Process { wait_cycles: cycles, ..*old(self) }),
    {
        self.wait_cycles = cycles;
    }

    /// Counts one cycle of waiting, if any is left.
    pub fn decrement_wait_cycles(&mut self)
        ensures
            *final(self) == (Process {
                wait_cycles: if old(self).wait_cycles > 0 {
                    (old(self).wait_cycles - 1) as u32
                } else {
                    0
                },
                ..*old(self)
            }),
    {
        if self.wait_cycles > 0 {
            self.wait_cycles -= 1;
        }
    }

    /// The child of this process: a copy with its own id, placed at `new_pc`
    /// taken round a memory of `memory_size` cells, with nothing pending and
    /// no cycle to wait. Registers, carry and the time of the last `live`
    /// are the parent's.
    pub fn fork(&self, new_id: u32, new_pc: usize, memory_size: usize) -> (child: Self)
        requires
            memory_size > 0,
        ensures
            child == self.forked(new_id, new_pc, memory_size),
            child.pc < memory_size,
    {
        let mut forked = *self;
        forked.id = new_id;
        forked.pc = new_pc % memory_size;
        forked.wait_cycles = 0;
        forked.pending = Pending::Idle;
        forked
    }

    /// One line that describes the process.
    pub fn debug_state(&self) -> (s: String)
        ensures
            s@ == self.debug_text(),
    {
        let mut s = String::from_str("Process ");
        s.append(decimal(self.id as i128).as_str());
        s.append(" (Champion ");
        s.append(decimal(self.champion_id as i128).as_str());
        s.append("): PC=");
        s.append(hex_upper(self.pc as u64, 4).as_str());
        s.append(", Alive=");
        s.append(if self.alive { "true" } else { "false" });
        s.append(", Wait=");
        s.append(decimal(self.wait_cycles as i128).as_str());
        s.append(", Carry=");
        s.append(if self.carry { "true" } else { "false" });
        s.append(", LiveCounter=");
        s.append(decimal(self.live_counter as i128).as_str());
        s
    }
}

} // verus!
