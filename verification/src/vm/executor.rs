//! The executor: what committing an instruction does.
//!
//! An instruction changes the process that commits it and, for the stores,
//! the arena. What reaches beyond the two (a `live`, a fork, a character)
//! is handed back as an [`Effect`] for the scheduler to carry out.
//!
//! Addresses are taken relative to the program counter. Except in the long
//! instructions, an offset is first cut down by the short index: its
//! remainder by [`IDX_MOD`], with the sign of the offset, so that an operand
//! reaches less than [`IDX_MOD`] cells forwards or backwards.

use vstd::prelude::*;
use crate::constants::{IDX_MOD, MEMORY_SIZE};
use crate::vm::instruction::{DecodedInstruction, Instruction, Parameter, ParameterType};
use crate::vm::memory::{
    signed_to_word,
    signed_word,
    truncated_rem,
    unsigned_word,
    word_to_signed,
    wrap,
    Memory,
    MemoryView,
};
use crate::vm::process::Process;

verus! {

/// What an instruction asks of the scheduler.
#[derive(Debug, Clone, Copy, PartialEq, Eq, Structural)]
pub enum Effect {
    /// Nothing.
    Nothing,
    /// The process declared itself alive, and named `value`.
    Live { value: i32 },
    /// The process forked: its child starts at `pc`.
    Fork { pc: usize },
    /// The process emitted a byte.
    Aff { byte: u8 },
}

/// The state that committing an instruction leaves behind.
pub struct Outcome {
    pub process: Process,
    pub memory: MemoryView,
    pub effect: Effect,
}

/// An offset cut down by the short index.
pub open spec fn short_index(offset: int) -> int {
    truncated_rem(offset, IDX_MOD as int)
}

/// How far an offset reaches in an instruction: all the way in the long
/// instructions, cut down by the short index in the others.
pub open spec fn reach(instruction: Instruction, offset: int) -> int {
    if instruction.is_long() {
        offset
    } else {
        short_index(offset)
    }
}

/// A sum or difference of two 32-bit numbers, wrapped into 32 bits.
pub open spec fn wrapped(value: int) -> i32 {
    if value > i32::MAX {
        (value - 0x1_0000_0000) as i32
    } else if value < i32::MIN {
        (value + 0x1_0000_0000) as i32
    } else {
        value as i32
    }
}

/// The value of an operand that is read: the register's value, the direct
/// value itself, or the word that an indirect offset points to.
pub open spec fn source_value(p: Process, m: MemoryView, instruction: Instruction, operand: Parameter)
    -> i32 {
    match operand.param_type {
        ParameterType::Register => p.reg(operand.value as int),
        ParameterType::Indirect => signed_word(
            m.read_word(p.pc + reach(instruction, operand.value as int)),
        ) as i32,
        _ => operand.value,
    }
}

/// The address after the instruction.
pub open spec fn next_pc(p: Process, d: DecodedInstruction) -> usize {
    wrap(p.pc + d.length) as usize
}

/// The process after it has stored `value` in register `register`, set the
/// carry flag if the value is zero, cleared it otherwise, and moved on.
pub open spec fn loaded(p: Process, d: DecodedInstruction, register: int, value: i32) -> Process {
    (Process { carry: value == 0, ..p.with_register(register, value) }).moved_to(next_pc(p, d))
}

/// `live`: the process has declared itself alive now; the value it names
/// goes to the scheduler.
pub open spec fn live_outcome(p: Process, m: MemoryView, d: DecodedInstruction) -> Outcome {
    Outcome {
        process: (Process { live_counter: 0, ..p }).moved_to(next_pc(p, d)),
        memory: m,
        effect: Effect::Live { value: d.first.value },
    }
}

/// `ld`, `lld`: the second operand's register takes the first operand's
/// value.
pub open spec fn load_outcome(p: Process, m: MemoryView, d: DecodedInstruction) -> Outcome {
    Outcome {
        process: loaded(p, d, d.second.value as int, source_value(p, m, d.instruction, d.first)),
        memory: m,
        effect: Effect::Nothing,
    }
}

/// `st`: the first operand's register goes to the second operand: into a
/// register, or as a word into memory, which the champion then owns.
pub open spec fn store_outcome(p: Process, m: MemoryView, d: DecodedInstruction) -> Outcome {
    let value = p.reg(d.first.value as int);
    if d.second.param_type == ParameterType::Register {
        Outcome {
            process: p.with_register(d.second.value as int, value).moved_to(next_pc(p, d)),
            memory: m,
            effect: Effect::Nothing,
        }
    } else {
        Outcome {
            process: p.moved_to(next_pc(p, d)),
            memory: m.write_word(
                p.pc + short_index(d.second.value as int),
                unsigned_word(value as int),
                Some(p.champion_id),
            ),
            effect: Effect::Nothing,
        }
    }
}

/// The result of `add`, `sub`, `and`, `or`, `xor` on two values.
pub open spec fn combine(instruction: Instruction, a: i32, b: i32) -> i32 {
    match instruction {
        Instruction::Add => wrapped(a + b),
        Instruction::Sub => wrapped(a - b),
        Instruction::And => a & b,
        Instruction::Or => a | b,
        _ => a ^ b,
    }
}

/// `add`, `sub`, `and`, `or`, `xor`: the third operand's register takes the
/// result of the first two.
pub open spec fn combine_outcome(p: Process, m: MemoryView, d: DecodedInstruction) -> Outcome {
    let a = source_value(p, m, d.instruction, d.first);
    let b = source_value(p, m, d.instruction, d.second);
    Outcome {
        process: loaded(p, d, d.third.value as int, combine(d.instruction, a, b)),
        memory: m,
        effect: Effect::Nothing,
    }
}

/// `zjmp`: with the carry flag set the process jumps by the operand, cut
/// down by the short index; without it the process moves on. The flag stays
/// as it is.
pub open spec fn jump_outcome(p: Process, m: MemoryView, d: DecodedInstruction) -> Outcome {
    Outcome {
        process: if p.carry {
            p.moved_to(wrap(p.pc + short_index(d.first.value as int)) as usize)
        } else {
            p.moved_to(next_pc(p, d))
        },
        memory: m,
        effect: Effect::Nothing,
    }
}

/// `ldi`, `lldi`: the third operand's register takes the word at the sum of
/// the first two operands.
pub open spec fn load_indexed_outcome(p: Process, m: MemoryView, d: DecodedInstruction)
    -> Outcome {
    let a = source_value(p, m, d.instruction, d.first);
    let b = source_value(p, m, d.instruction, d.second);
    let value = signed_word(m.read_word(p.pc + reach(d.instruction, a + b))) as i32;
    Outcome {
        process: loaded(p, d, d.third.value as int, value),
        memory: m,
        effect: Effect::Nothing,
    }
}

/// `sti`: the first operand's register goes as a word to the sum of the
/// other two operands; the champion then owns the cells.
pub open spec fn store_indexed_outcome(p: Process, m: MemoryView, d: DecodedInstruction)
    -> Outcome {
    let a = source_value(p, m, d.instruction, d.second);
    let b = source_value(p, m, d.instruction, d.third);
    Outcome {
        process: p.moved_to(next_pc(p, d)),
        memory: m.write_word(
            p.pc + short_index(a + b),
            unsigned_word(p.reg(d.first.value as int) as int),
            Some(p.champion_id),
        ),
        effect: Effect::Nothing,
    }
}

/// `fork`, `lfork`: the process moves on; its child is to start at the
/// operand's distance from the instruction.
pub open spec fn fork_outcome(p: Process, m: MemoryView, d: DecodedInstruction) -> Outcome {
    Outcome {
        process: p.moved_to(next_pc(p, d)),
        memory: m,
        effect: Effect::Fork { pc: wrap(p.pc + reach(d.instruction, d.first.value as int)) as usize },
    }
}

/// `aff`: the low eight bits of the register are emitted.
pub open spec fn aff_outcome(p: Process, m: MemoryView, d: DecodedInstruction) -> Outcome {
    Outcome {
        process: p.moved_to(next_pc(p, d)),
        memory: m,
        effect: Effect::Aff { byte: (p.reg(d.first.value as int) as int % 256) as u8 },
    }
}

/// What committing the instruction `d` does to the process `p` and the
/// arena `m`.
pub open spec fn outcome(p: Process, m: MemoryView, d: DecodedInstruction) -> Outcome {
    match d.instruction {
        Instruction::Live => live_outcome(p, m, d),
        Instruction::Ld | Instruction::Lld => load_outcome(p, m, d),
        Instruction::St => store_outcome(p, m, d),
        Instruction::Add | Instruction::Sub | Instruction::And | Instruction::Or
        | Instruction::Xor => combine_outcome(p, m, d),
        Instruction::Zjmp => jump_outcome(p, m, d),
        Instruction::Ldi | Instruction::Lldi => load_indexed_outcome(p, m, d),
        Instruction::Sti => store_indexed_outcome(p, m, d),
        Instruction::Fork | Instruction::Lfork => fork_outcome(p, m, d),
        Instruction::Aff => aff_outcome(p, m, d),
    }
}

/// Arithmetic on registers wraps: the result of `add` and of `sub` is the
/// 32-bit number that differs from the exact sum or difference by a multiple
/// of two to the power 32. No result is out of range.
pub proof fn lemma_arithmetic_wraps(a: i32, b: i32)
    ensures
        i32::MIN <= combine(Instruction::Add, a, b) <= i32::MAX,
        (combine(Instruction::Add, a, b) - (a + b)) % 0x1_0000_0000 == 0,
        i32::MIN <= combine(Instruction::Sub, a, b) <= i32::MAX,
        (combine(Instruction::Sub, a, b) - (a - b)) % 0x1_0000_0000 == 0,
        i32::MIN <= a + b <= i32::MAX ==> combine(Instruction::Add, a, b) == a + b,
        i32::MIN <= a - b <= i32::MAX ==> combine(Instruction::Sub, a, b) == a - b,
{
}

/// Words that are read at addresses on the same cell are the same.
pub proof fn lemma_read_word_wraps(m: MemoryView, a: int, b: int)
    requires
        wrap(a) == wrap(b),
    ensures
        m.read_word(a) == m.read_word(b),
{
    crate::vm::memory::lemma_wrap_shift(a, b, 1);
    crate::vm::memory::lemma_wrap_shift(a, b, 2);
    crate::vm::memory::lemma_wrap_shift(a, b, 3);
}

/// What `st` stores, `ld` loads: when a process stores a register through
/// an indirect operand and a process of any state then loads through an
/// indirect operand that names the same cell, the register loaded holds the
/// value stored.
pub proof fn lemma_store_then_load(
    writer: Process,
    reader: Process,
    m: MemoryView,
    st: DecodedInstruction,
    ld: DecodedInstruction,
)
    requires
        writer.wf(),
        reader.wf(),
        m.wf(),
        st.wf(),
        ld.wf(),
        st.instruction == Instruction::St,
        st.second.param_type == ParameterType::Indirect,
        ld.instruction == Instruction::Ld || ld.instruction == Instruction::Lld,
        ld.first.param_type == ParameterType::Indirect,
        wrap(reader.pc + reach(ld.instruction, ld.first.value as int)) == wrap(
            writer.pc + short_index(st.second.value as int),
        ),
    ensures
        outcome(reader, outcome(writer, m, st).memory, ld).process.reg(ld.second.value as int)
            == writer.reg(st.first.value as int),
        outcome(reader, outcome(writer, m, st).memory, ld).process.carry == (writer.reg(
            st.first.value as int,
        ) == 0),
        outcome(writer, m, st).memory.owner(writer.pc + short_index(st.second.value as int))
            == Some(writer.champion_id),
{
    let value = writer.reg(st.first.value as int);
    let target = writer.pc + short_index(st.second.value as int);
    let source = reader.pc + reach(ld.instruction, ld.first.value as int);
    let stored = outcome(writer, m, st).memory;
    assert(stored == m.write_word(target, unsigned_word(value as int), Some(writer.champion_id)));
    crate::vm::memory::lemma_word_round_trip(
        m,
        target,
        unsigned_word(value as int),
        Some(writer.champion_id),
    );
    lemma_read_word_wraps(stored, source, target);
    assert(signed_word(stored.read_word(source)) == value);
    assert(ld.slot_ok(1));
    let k = ld.second.value as int;
    assert(1 <= k <= 16);
    let loaded_process = loaded(reader, ld, k, value);
    assert(outcome(reader, stored, ld).process == loaded_process);
    vstd::array::axiom_spec_array_update(reader.registers, k - 1, value);
    assert(reader.with_register(k, value).registers@[k - 1] == value);
}

/// The child of a fork starts at the operand's distance from the
/// instruction, cut down by the short index in `fork`, and inherits the
/// parent's registers, carry flag and age.
pub proof fn lemma_fork_child(parent: Process, m: MemoryView, d: DecodedInstruction, id: u32)
    requires
        d.instruction == Instruction::Fork || d.instruction == Instruction::Lfork,
    ensures
        outcome(parent, m, d).memory == m,
        outcome(parent, m, d).effect == (Effect::Fork {
            pc: wrap(parent.pc + reach(d.instruction, d.first.value as int)) as usize,
        }),
        outcome(parent, m, d).process.forked(
            id,
            wrap(parent.pc + reach(d.instruction, d.first.value as int)) as usize,
            MEMORY_SIZE,
        ).pc == wrap(parent.pc + reach(d.instruction, d.first.value as int)),
        outcome(parent, m, d).process.forked(id, 0, MEMORY_SIZE).registers == parent.registers,
        outcome(parent, m, d).process.forked(id, 0, MEMORY_SIZE).carry == parent.carry,
        outcome(parent, m, d).process.forked(id, 0, MEMORY_SIZE).live_counter
            == parent.live_counter,
        outcome(parent, m, d).process.forked(id, 0, MEMORY_SIZE).champion_id
            == parent.champion_id,
{
    assert(outcome(parent, m, d) == fork_outcome(parent, m, d));
}

/// Forks from one place give equal children: two processes that stand at
/// the same address and commit the same `fork` or `lfork` start their
/// children at the same address.
pub proof fn lemma_forks_agree(
    first: Process,
    second: Process,
    m1: MemoryView,
    m2: MemoryView,
    d: DecodedInstruction,
)
    requires
        d.instruction == Instruction::Fork || d.instruction == Instruction::Lfork,
        first.pc == second.pc,
    ensures
        outcome(first, m1, d).effect == outcome(second, m2, d).effect,
        outcome(first, m1, d).effect is Fork,
{
    lemma_fork_child(first, m1, d, 0);
    lemma_fork_child(second, m2, d, 0);
}

/// Committing an instruction leaves the program counter in the arena, and
/// the arena whole.
pub proof fn lemma_outcome_wf(p: Process, m: MemoryView, d: DecodedInstruction)
    requires
        p.wf(),
        m.wf(),
    ensures
        outcome(p, m, d).process.wf(),
        outcome(p, m, d).memory.wf(),
        outcome(p, m, d).process.id == p.id,
        outcome(p, m, d).process.champion_id == p.champion_id,
        outcome(p, m, d).process.alive == p.alive,
        outcome(p, m, d).process.pending == p.pending,
        outcome(p, m, d).process.wait_cycles == p.wait_cycles,
        outcome(p, m, d).effect matches Effect::Fork { pc } ==> pc < MEMORY_SIZE,
{
}

/// An offset as far as it reaches in an instruction.
fn reach_of(instruction: Instruction, offset: i64) -> (r: i64)
    ensures
        r == reach(instruction, offset as int),
        !instruction.is_long() ==> -(IDX_MOD as int) < r < IDX_MOD as int,
{
    if instruction.uses_long_addressing() {
        offset
    } else {
        short_index_of(offset)
    }
}

/// An offset cut down by the short index.
fn short_index_of(offset: i64) -> (r: i64)
    ensures
        r == short_index(offset as int),
        -(IDX_MOD as int) < r < IDX_MOD as int,
{
    offset % 512
}

/// The address at a distance from a program counter, round the ring.
fn address_at(pc: usize, offset: i64) -> (address: usize)
    requires
        pc < MEMORY_SIZE,
        -0x1_0000_0000_0000 <= offset <= 0x1_0000_0000_0000,
    ensures
        address == wrap(pc + offset),
        address < MEMORY_SIZE,
{
    Memory::wrap_address(pc as i64 + offset)
}

/// Moves a process on to the instruction after `d`.
fn move_on(process: &mut Process, d: &DecodedInstruction)
    requires
        old(process).wf(),
        d.length <= 16,
    ensures
        *final(process) == old(process).moved_to(next_pc(*old(process), *d)),
        final(process).wf(),
{
    let next = (process.pc + d.length) % MEMORY_SIZE;
    process.set_pc(next, MEMORY_SIZE);
}

/// The word at a distance from a program counter, as a signed number.
fn read_at(memory: &Memory, pc: usize, offset: i64) -> (v: i32)
    requires
        pc < MEMORY_SIZE,
        -0x1_0000_0000_0000 <= offset <= 0x1_0000_0000_0000,
    ensures
        v == signed_word(memory@.read_word(pc + offset)),
{
    word_to_signed(memory.read_word_at(pc as i64 + offset))
}

/// Writes a signed number as a word at a distance from a program counter,
/// for the given champion.
fn write_at(memory: &mut Memory, pc: usize, offset: i64, value: i32, champion: u8)
    requires
        pc < MEMORY_SIZE,
        -0x1_0000_0000_0000 <= offset <= 0x1_0000_0000_0000,
    ensures
        final(memory)@ == old(memory)@.write_word(
            pc + offset,
            unsigned_word(value as int),
            Some(champion),
        ),
        final(memory)@.wf(),
{
    memory.write_word_at(pc as i64 + offset, signed_to_word(value), Some(champion));
}

/// The value of an operand that is read.
fn read_source(process: &Process, memory: &Memory, instruction: Instruction, operand: Parameter) -> (v:
    i32)
    requires
        process.wf(),
        operand.param_type == ParameterType::Register ==> 1 <= operand.value <= 16,
    ensures
        v == source_value(*process, memory@, instruction, operand),
{
    match operand.param_type {
        ParameterType::Register => process.registers[(operand.value - 1) as usize],
        ParameterType::Indirect => {
            let offset = reach_of(instruction, operand.value as i64);
            read_at(memory, process.pc, offset)
        },
        _ => operand.value,
    }
}

/// Stores a value in a register, sets the carry flag from it, and moves on.
fn load_register(process: &mut Process, d: &DecodedInstruction, register: i32, value: i32)
    requires
        old(process).wf(),
        1 <= register <= 16,
        d.length <= 16,
    ensures
        *final(process) == loaded(*old(process), *d, register as int, value),
        final(process).wf(),
{
    let ghost next = next_pc(*process, *d);
    process.registers[(register - 1) as usize] = value;
    process.carry = value == 0;
    move_on(process, d);
    assert(process.pc == next);
}

/// The low eight bits of a value.
fn low_byte(value: i32) -> (byte: u8)
    ensures
        byte == value as int % 256,
{
    let low: i32 = value % 256;
    proof {
        crate::vm::memory::lemma_truncated_rem(value as int, 256);
    }
    if low < 0 {
        (low + 256) as u8
    } else {
        low as u8
    }
}

/// Combines two values as the instruction says.
fn combine_values(instruction: Instruction, a: i32, b: i32) -> (v: i32)
    ensures
        v == combine(instruction, a, b),
{
    match instruction {
        Instruction::Add => a.wrapping_add(b),
        Instruction::Sub => a.wrapping_sub(b),
        Instruction::And => a & b,
        Instruction::Or => a | b,
        _ => a ^ b,
    }
}

/// `live`.
fn execute_live(process: &mut Process, memory: &mut Memory, d: &DecodedInstruction) -> (effect:
    Effect)
    requires
        old(process).wf(),
        old(memory)@.wf(),
        d.wf(),
        d.instruction == Instruction::Live,
    ensures
        live_outcome(*old(process), old(memory)@, *d) == (Outcome {
            process: *final(process),
            memory: final(memory)@,
            effect,
        }),
        final(process).wf(),
        final(memory)@.wf(),
{
    process.mark_alive();
    move_on(process, d);
    Effect::Live { value: d.first.value }
}

/// `ld` and `lld`.
fn execute_load(process: &mut Process, memory: &mut Memory, d: &DecodedInstruction) -> (effect:
    Effect)
    requires
        old(process).wf(),
        old(memory)@.wf(),
        d.wf(),
        d.instruction == Instruction::Ld || d.instruction == Instruction::Lld,
    ensures
        load_outcome(*old(process), old(memory)@, *d) == (Outcome {
            process: *final(process),
            memory: final(memory)@,
            effect,
        }),
        final(process).wf(),
        final(memory)@.wf(),
{
    assert(d.slot_ok(0) && d.slot_ok(1));
    let value = read_source(process, memory, d.instruction, d.first);
    load_register(process, d, d.second.value, value);
    Effect::Nothing
}

/// `st`.
fn execute_store(process: &mut Process, memory: &mut Memory, d: &DecodedInstruction) -> (effect:
    Effect)
    requires
        old(process).wf(),
        old(memory)@.wf(),
        d.wf(),
        d.instruction == Instruction::St,
    ensures
        store_outcome(*old(process), old(memory)@, *d) == (Outcome {
            process: *final(process),
            memory: final(memory)@,
            effect,
        }),
        final(process).wf(),
        final(memory)@.wf(),
{
    assert(d.slot_ok(0) && d.slot_ok(1));
    let ghost next = next_pc(*process, *d);
    let value = process.registers[(d.first.value - 1) as usize];
    if d.second.param_type == ParameterType::Register {
        process.registers[(d.second.value - 1) as usize] = value;
    } else {
        let offset = short_index_of(d.second.value as i64);
        write_at(memory, process.pc, offset, value, process.champion_id);
    }
    move_on(process, d);
    assert(process.pc == next);
    Effect::Nothing
}

/// `add`, `sub`, `and`, `or` and `xor`.
fn execute_combine(process: &mut Process, memory: &mut Memory, d: &DecodedInstruction) -> (effect:
    Effect)
    requires
        old(process).wf(),
        old(memory)@.wf(),
        d.wf(),
        d.instruction == Instruction::Add || d.instruction == Instruction::Sub || d.instruction
            == Instruction::And || d.instruction == Instruction::Or || d.instruction
            == Instruction::Xor,
    ensures
        combine_outcome(*old(process), old(memory)@, *d) == (Outcome {
            process: *final(process),
            memory: final(memory)@,
            effect,
        }),
        final(process).wf(),
        final(memory)@.wf(),
{
    assert(d.slot_ok(0) && d.slot_ok(1) && d.slot_ok(2));
    let a = read_source(process, memory, d.instruction, d.first);
    let b = read_source(process, memory, d.instruction, d.second);
    load_register(process, d, d.third.value, combine_values(d.instruction, a, b));
    Effect::Nothing
}

/// `zjmp`.
fn execute_jump(process: &mut Process, memory: &mut Memory, d: &DecodedInstruction) -> (effect:
    Effect)
    requires
        old(process).wf(),
        old(memory)@.wf(),
        d.wf(),
        d.instruction == Instruction::Zjmp,
    ensures
        jump_outcome(*old(process), old(memory)@, *d) == (Outcome {
            process: *final(process),
            memory: final(memory)@,
            effect,
        }),
        final(process).wf(),
        final(memory)@.wf(),
{
    if process.carry {
        let offset = short_index_of(d.first.value as i64);
        process.set_pc(address_at(process.pc, offset), MEMORY_SIZE);
    } else {
        move_on(process, d);
    }
    Effect::Nothing
}

/// `ldi` and `lldi`.
fn execute_load_indexed(process: &mut Process, memory: &mut Memory, d: &DecodedInstruction) -> (effect:
    Effect)
    requires
        old(process).wf(),
        old(memory)@.wf(),
        d.wf(),
        d.instruction == Instruction::Ldi || d.instruction == Instruction::Lldi,
    ensures
        load_indexed_outcome(*old(process), old(memory)@, *d) == (Outcome {
            process: *final(process),
            memory: final(memory)@,
            effect,
        }),
        final(process).wf(),
        final(memory)@.wf(),
{
    assert(d.slot_ok(0) && d.slot_ok(1) && d.slot_ok(2));
    let a = read_source(process, memory, d.instruction, d.first);
    let b = read_source(process, memory, d.instruction, d.second);
    let offset = reach_of(d.instruction, a as i64 + b as i64);
    let value = read_at(memory, process.pc, offset);
    load_register(process, d, d.third.value, value);
    Effect::Nothing
}

/// `sti`.
fn execute_store_indexed(process: &mut Process, memory: &mut Memory, d: &DecodedInstruction) -> (effect:
    Effect)
    requires
        old(process).wf(),
        old(memory)@.wf(),
        d.wf(),
        d.instruction == Instruction::Sti,
    ensures
        store_indexed_outcome(*old(process), old(memory)@, *d) == (Outcome {
            process: *final(process),
            memory: final(memory)@,
            effect,
        }),
        final(process).wf(),
        final(memory)@.wf(),
{
    assert(d.slot_ok(0) && d.slot_ok(1) && d.slot_ok(2));
    let value = process.registers[(d.first.value - 1) as usize];
    let a = read_source(process, memory, d.instruction, d.second);
    let b = read_source(process, memory, d.instruction, d.third);
    let offset = short_index_of(a as i64 + b as i64);
    write_at(memory, process.pc, offset, value, process.champion_id);
    move_on(process, d);
    Effect::Nothing
}

/// `fork` and `lfork`.
fn execute_fork(process: &mut Process, memory: &mut Memory, d: &DecodedInstruction) -> (effect:
    Effect)
    requires
        old(process).wf(),
        old(memory)@.wf(),
        d.wf(),
        d.instruction == Instruction::Fork || d.instruction == Instruction::Lfork,
    ensures
        fork_outcome(*old(process), old(memory)@, *d) == (Outcome {
            process: *final(process),
            memory: final(memory)@,
            effect,
        }),
        final(process).wf(),
        final(memory)@.wf(),
        effect matches Effect::Fork { pc } && pc < MEMORY_SIZE,
{
    let offset = reach_of(d.instruction, d.first.value as i64);
    let target = address_at(process.pc, offset);
    move_on(process, d);
    Effect::Fork { pc: target }
}

/// `aff`.
fn execute_aff(process: &mut Process, memory: &mut Memory, d: &DecodedInstruction) -> (effect:
    Effect)
    requires
        old(process).wf(),
        old(memory)@.wf(),
        d.wf(),
        d.instruction == Instruction::Aff,
    ensures
        aff_outcome(*old(process), old(memory)@, *d) == (Outcome {
            process: *final(process),
            memory: final(memory)@,
            effect,
        }),
        final(process).wf(),
        final(memory)@.wf(),
{
    assert(d.slot_ok(0));
    let byte = low_byte(process.registers[(d.first.value - 1) as usize]);
    move_on(process, d);
    Effect::Aff { byte }
}

/// Commits the instruction `d` for `process`: the process and the arena
/// change as [`outcome`] says, and what is left for the scheduler to do is
/// returned.
pub fn execute(process: &mut Process, memory: &mut Memory, d: &DecodedInstruction) -> (effect:
    Effect)
    requires
        old(process).wf(),
        d.wf(),
    ensures
        outcome(*old(process), old(memory)@, *d) == (Outcome {
            process: *final(process),
            memory: final(memory)@,
            effect,
        }),
        final(process).wf(),
        final(memory)@.wf(),
        effect matches Effect::Fork { pc } ==> pc < MEMORY_SIZE,
{
    // Asking the arena for its size brings the fact that it is whole.
    let _ = memory.size();
    match d.instruction {
        Instruction::Live => execute_live(process, memory, d),
        Instruction::Ld | Instruction::Lld => execute_load(process, memory, d),
        Instruction::St => execute_store(process, memory, d),
        Instruction::Add | Instruction::Sub | Instruction::And | Instruction::Or
        | Instruction::Xor => execute_combine(process, memory, d),
        Instruction::Zjmp => execute_jump(process, memory, d),
        Instruction::Ldi | Instruction::Lldi => execute_load_indexed(process, memory, d),
        Instruction::Sti => execute_store_indexed(process, memory, d),
        Instruction::Fork | Instruction::Lfork => execute_fork(process, memory, d),
        Instruction::Aff => execute_aff(process, memory, d),
    }
}

} // verus!
