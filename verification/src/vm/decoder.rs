//! The decoder: reads an encoded instruction from the arena.
//!
//! An instruction is encoded as its opcode, then, if it has more than one
//! operand, a byte of operand types (two bits each, the first operand in the
//! two highest bits), then the operands: a register in one byte, an indirect
//! offset in two, a direct value in four, or in two for the jumps and forks.
//! Values of more than one byte are big-endian and signed.

use vstd::prelude::*;
use crate::constants::MEMORY_SIZE;
use crate::error::CoreWarError;
use crate::vm::instruction::{
    instruction_of,
    mode_of_code,
    DecodedInstruction,
    Instruction,
    Parameter,
    ParameterType,
};
use crate::vm::memory::{half_of, signed_half, signed_word, word_of, wrap, Memory, MemoryView};

verus! {

/// The number of bytes that the decoder looks at: no instruction is longer.
pub const WINDOW: usize = 16;

/// Why what stands at an address is no valid instruction.
pub enum DecodeFault {
    /// The first byte is no opcode.
    BadOpcode { opcode: u8 },
    /// Operand `index` has the type code `code`, which stands for no mode or
    /// for one that the instruction does not take there.
    BadMode { instruction: Instruction, index: int, code: int },
    /// A register operand holds a number outside 1 to 16.
    BadRegister { register: u8 },
}

/// The bytes that the decoder looks at when it decodes at `pc`: the next
/// [`WINDOW`] bytes round the ring.
pub open spec fn window(m: MemoryView, pc: int) -> Seq<u8> {
    Seq::new(WINDOW as nat, |k: int| m.read_byte(pc + k))
}

/// The two bits of the type byte that belong to operand `index`.
pub open spec fn type_code_at(type_byte: u8, index: int) -> int {
    if index == 0 {
        (type_byte as int / 64) % 4
    } else if index == 1 {
        (type_byte as int / 16) % 4
    } else if index == 2 {
        (type_byte as int / 4) % 4
    } else {
        type_byte as int % 4
    }
}

/// The type code of operand `index`: from the type byte where there is one,
/// else the code of the one mode that the instruction takes.
pub open spec fn operand_code(w: Seq<u8>, instruction: Instruction, index: int) -> int {
    if instruction.has_type_byte() {
        type_code_at(w[1], index)
    } else if instruction == Instruction::Aff {
        1
    } else {
        2
    }
}

/// The mode of operand `index` as encoded; direct where the code stands for
/// none.
pub open spec fn operand_mode(w: Seq<u8>, instruction: Instruction, index: int) -> ParameterType {
    match mode_of_code(operand_code(w, instruction, index)) {
        Some(mode) => mode,
        None => ParameterType::Direct,
    }
}

/// Whether operand `index` has a mode, and one that the instruction takes.
pub open spec fn mode_ok(w: Seq<u8>, instruction: Instruction, index: int) -> bool {
    mode_of_code(operand_code(w, instruction, index)) matches Some(mode) && instruction.allows(
        index,
        mode,
    )
}

/// The width of operand `index`, nothing beyond the arity.
pub open spec fn width_at(w: Seq<u8>, instruction: Instruction, index: int) -> int {
    if index < instruction.arity() {
        instruction.operand_width(operand_mode(w, instruction, index))
    } else {
        0
    }
}

/// The offset in the window at which operand `index` starts.
pub open spec fn operand_start(w: Seq<u8>, instruction: Instruction, index: int) -> int {
    (if instruction.has_type_byte() {
        2int
    } else {
        1int
    }) + (if index > 0 {
        width_at(w, instruction, 0)
    } else {
        0
    }) + (if index > 1 {
        width_at(w, instruction, 1)
    } else {
        0
    }) + (if index > 2 {
        width_at(w, instruction, 2)
    } else {
        0
    })
}

/// The value of `width` bytes at `at`: one byte as it is, two or four bytes
/// big-endian and signed.
pub open spec fn operand_value(w: Seq<u8>, at: int, width: int) -> int {
    if width == 1 {
        w[at] as int
    } else if width == 2 {
        signed_half(half_of(w[at], w[at + 1]))
    } else {
        signed_word(word_of(w[at], w[at + 1], w[at + 2], w[at + 3]))
    }
}

/// Operand `index` as encoded.
pub open spec fn operand_at(w: Seq<u8>, instruction: Instruction, index: int) -> Parameter {
    let mode = operand_mode(w, instruction, index);
    Parameter {
        param_type: mode,
        value: operand_value(
            w,
            operand_start(w, instruction, index),
            instruction.operand_width(mode),
        ) as i32,
    }
}

/// Whether an operand, if it is a register, names one of r1 to r16.
pub open spec fn register_ok(p: Parameter) -> bool {
    p.param_type == ParameterType::Register ==> 1 <= p.value <= 16
}

/// What slot `index` of the decoded instruction holds.
pub open spec fn slot_at(w: Seq<u8>, instruction: Instruction, index: int) -> Parameter {
    if index < instruction.arity() {
        operand_at(w, instruction, index)
    } else {
        DecodedInstruction::filler()
    }
}

/// The first operand whose mode is not in order, if any.
pub open spec fn first_bad_mode(w: Seq<u8>, instruction: Instruction) -> Option<int> {
    if !mode_ok(w, instruction, 0) {
        Some(0int)
    } else if instruction.arity() > 1 && !mode_ok(w, instruction, 1) {
        Some(1int)
    } else if instruction.arity() > 2 && !mode_ok(w, instruction, 2) {
        Some(2int)
    } else {
        None
    }
}

/// The first operand that names no register, if any.
pub open spec fn first_bad_register(w: Seq<u8>, instruction: Instruction) -> Option<int> {
    if !register_ok(slot_at(w, instruction, 0)) {
        Some(0int)
    } else if !register_ok(slot_at(w, instruction, 1)) {
        Some(1int)
    } else if !register_ok(slot_at(w, instruction, 2)) {
        Some(2int)
    } else {
        None
    }
}

/// What the bytes of a window encode: an instruction, or the first reason
/// why not. The opcode is checked first, then the modes of the operands in
/// order, then the register numbers in order.
pub open spec fn decode_bytes(w: Seq<u8>) -> Result<DecodedInstruction, DecodeFault> {
    match instruction_of(w[0]) {
        None => Err(DecodeFault::BadOpcode { opcode: w[0] }),
        Some(instruction) => match first_bad_mode(w, instruction) {
            Some(index) => Err(
                DecodeFault::BadMode {
                    instruction,
                    index,
                    code: operand_code(w, instruction, index),
                },
            ),
            None => match first_bad_register(w, instruction) {
                Some(index) => Err(
                    DecodeFault::BadRegister {
                        register: operand_at(w, instruction, index).value as u8,
                    },
                ),
                None => Ok(
                    DecodedInstruction {
                        instruction,
                        first: slot_at(w, instruction, 0),
                        second: slot_at(w, instruction, 1),
                        third: slot_at(w, instruction, 2),
                        length: operand_start(w, instruction, 3) as usize,
                    },
                ),
            },
        },
    }
}

/// What stands at `pc` in the arena.
pub open spec fn decode_at(m: MemoryView, pc: int) -> Result<DecodedInstruction, DecodeFault> {
    decode_bytes(window(m, pc))
}

/// The modes that an instruction takes at operand `index`, in words.
pub open spec fn allowed_text(instruction: Instruction, index: int) -> Seq<char> {
    let reg = instruction.allows(index, ParameterType::Register);
    let dir = instruction.allows(index, ParameterType::Direct);
    let ind = instruction.allows(index, ParameterType::Indirect);
    if reg && dir && ind {
        "register, direct or indirect"@
    } else if reg && dir {
        "register or direct"@
    } else if reg && ind {
        "register or indirect"@
    } else if dir && ind {
        "direct or indirect"@
    } else if reg {
        "register"@
    } else if dir {
        "direct"@
    } else if ind {
        "indirect"@
    } else {
        "none"@
    }
}

/// The mode that a type code stands for, in words.
pub open spec fn code_text(code: int) -> Seq<char> {
    match mode_of_code(code) {
        Some(mode) => mode.mode_name(),
        None => "none"@,
    }
}

/// Whether an error reports the given fault.
pub open spec fn reports(e: CoreWarError, fault: DecodeFault) -> bool {
    match fault {
        DecodeFault::BadOpcode { opcode } => e == (CoreWarError::InvalidOpcode { opcode }),
        DecodeFault::BadRegister { register } => e == (CoreWarError::InvalidRegister { register }),
        DecodeFault::BadMode { instruction, index, code } => e matches CoreWarError::InvalidParameterType {
            instruction: name,
            expected,
            actual,
        } && name@ == instruction.mnemonic() && expected@ == allowed_text(instruction, index)
            && actual@ == code_text(code),
    }
}

/// What the decoder returns is well formed, and no longer than eleven bytes.
pub proof fn lemma_decoded_wf(w: Seq<u8>)
    ensures
        decode_bytes(w) matches Ok(d) ==> d.wf() && 2 <= d.length <= 11 && instruction_of(w[0])
            == Some(d.instruction),
{
}

/// The two bits of a type byte that belong to operand `index`.
fn type_code(type_byte: u8, index: usize) -> (code: u8)
    ensures
        code == type_code_at(type_byte, index as int),
        code < 4,
{
    if index == 0 {
        (type_byte / 64) % 4
    } else if index == 1 {
        (type_byte / 16) % 4
    } else if index == 2 {
        (type_byte / 4) % 4
    } else {
        type_byte % 4
    }
}

/// The modes that an instruction takes at operand `index`, in words.
fn describe_allowed(instruction: Instruction, index: usize) -> (s: &'static str)
    ensures
        s@ == allowed_text(instruction, index as int),
{
    let reg = instruction.accepts(index, ParameterType::Register);
    let dir = instruction.accepts(index, ParameterType::Direct);
    let ind = instruction.accepts(index, ParameterType::Indirect);
    if reg && dir && ind {
        "register, direct or indirect"
    } else if reg && dir {
        "register or direct"
    } else if reg && ind {
        "register or indirect"
    } else if dir && ind {
        "direct or indirect"
    } else if reg {
        "register"
    } else if dir {
        "direct"
    } else if ind {
        "indirect"
    } else {
        "none"
    }
}

/// The mode of operand `index`, or the error that reports that it has none
/// that the instruction takes.
fn read_mode(w: &[u8; 16], instruction: Instruction, index: usize) -> (r: Result<
    ParameterType,
    CoreWarError,
>)
    requires
        index < 3,
    ensures
        mode_ok(w@, instruction, index as int) ==> r == Ok::<ParameterType, CoreWarError>(
            operand_mode(w@, instruction, index as int),
        ),
        !mode_ok(w@, instruction, index as int) ==> (r matches Err(e) && reports(
            e,
            DecodeFault::BadMode {
                instruction,
                index: index as int,
                code: operand_code(w@, instruction, index as int),
            },
        )),
{
    let code = if instruction.takes_type_byte() {
        type_code(w[1], index)
    } else if instruction == Instruction::Aff {
        1
    } else {
        2
    };
    match ParameterType::try_from_type_code(code) {
        Some(mode) => {
            if instruction.accepts(index, mode) {
                Ok(mode)
            } else {
                Err(
                    CoreWarError::InvalidParameterType {
                        instruction: String::from_str(instruction.name()),
                        expected: String::from_str(describe_allowed(instruction, index)),
                        actual: String::from_str(mode.describe()),
                    },
                )
            }
        },
        None => Err(
            CoreWarError::InvalidParameterType {
                instruction: String::from_str(instruction.name()),
                expected: String::from_str(describe_allowed(instruction, index)),
                actual: String::from_str("none"),
            },
        ),
    }
}

/// The value of `width` bytes at `at` in the window.
fn read_value(w: &[u8; 16], at: usize, width: usize) -> (v: i32)
    requires
        at + 4 <= 16,
    ensures
        v == operand_value(w@, at as int, width as int),
        width == 1 ==> 0 <= v <= 255,
{
    if width == 1 {
        w[at] as i32
    } else if width == 2 {
        let half: i32 = (w[at] as i32) * 0x100 + (w[at + 1] as i32);
        if half >= 0x8000 {
            half - 0x1_0000
        } else {
            half
        }
    } else {
        let word: i64 = (w[at] as i64) * 0x100_0000 + (w[at + 1] as i64) * 0x1_0000 + (w[at
            + 2] as i64) * 0x100 + (w[at + 3] as i64);
        if word >= 0x8000_0000 {
            (word - 0x1_0000_0000) as i32
        } else {
            word as i32
        }
    }
}

/// Operand `index` of an instruction whose modes are in order, or the error
/// that reports that it names no register.
fn read_slot(w: &[u8; 16], instruction: Instruction, index: usize, mode: ParameterType, at: usize) -> (r:
    Result<Parameter, CoreWarError>)
    requires
        index < 3,
        index < instruction.arity(),
        mode == operand_mode(w@, instruction, index as int),
        at == operand_start(w@, instruction, index as int),
        at + 4 <= 16,
    ensures
        register_ok(slot_at(w@, instruction, index as int)) ==> r == Ok::<Parameter, CoreWarError>(
            slot_at(w@, instruction, index as int),
        ),
        !register_ok(slot_at(w@, instruction, index as int)) ==> r == Err::<
            Parameter,
            CoreWarError,
        >(
            CoreWarError::InvalidRegister {
                register: operand_at(w@, instruction, index as int).value as u8,
            },
        ),
{
    let value = read_value(w, at, instruction.parameter_size(mode));
    if mode == ParameterType::Register && (value < 1 || value > 16) {
        Err(CoreWarError::InvalidRegister { register: value as u8 })
    } else {
        Ok(Parameter::new(mode, value))
    }
}

/// Decodes the bytes of a window.
pub fn decode_window(w: &[u8; 16]) -> (r: Result<DecodedInstruction, CoreWarError>)
    ensures
        decode_bytes(w@) matches Ok(d) ==> r == Ok::<DecodedInstruction, CoreWarError>(d)
            && d.wf() && 2 <= d.length <= 11,
        decode_bytes(w@) matches Err(fault) ==> (r matches Err(e) && reports(e, fault)),
{
    proof {
        lemma_decoded_wf(w@);
    }
    let instruction = match Instruction::from_opcode(w[0]) {
        Ok(i) => i,
        Err(e) => {
            return Err(e);
        },
    };
    let count = instruction.parameter_count();
    let filler = Parameter::direct(0);
    let start: usize = if instruction.takes_type_byte() {
        2
    } else {
        1
    };
    let mode0 = match read_mode(w, instruction, 0) {
        Ok(mode) => mode,
        Err(e) => {
            return Err(e);
        },
    };
    let mut mode1 = ParameterType::Direct;
    if count > 1 {
        mode1 =
        match read_mode(w, instruction, 1) {
            Ok(mode) => mode,
            Err(e) => {
                return Err(e);
            },
        };
    }
    let mut mode2 = ParameterType::Direct;
    if count > 2 {
        mode2 =
        match read_mode(w, instruction, 2) {
            Ok(mode) => mode,
            Err(e) => {
                return Err(e);
            },
        };
    }
    assert(first_bad_mode(w@, instruction) is None);
    let first = match read_slot(w, instruction, 0, mode0, start) {
        Ok(p) => p,
        Err(e) => {
            return Err(e);
        },
    };
    let start1 = start + instruction.parameter_size(mode0);
    let mut second = filler;
    let mut start2 = start1;
    if count > 1 {
        second =
        match read_slot(w, instruction, 1, mode1, start1) {
            Ok(p) => p,
            Err(e) => {
                return Err(e);
            },
        };
        start2 = start1 + instruction.parameter_size(mode1);
    }
    let mut third = filler;
    let mut end = start2;
    if count > 2 {
        third =
        match read_slot(w, instruction, 2, mode2, start2) {
            Ok(p) => p,
            Err(e) => {
                return Err(e);
            },
        };
        end = start2 + instruction.parameter_size(mode2);
    }
    assert(first_bad_register(w@, instruction) is None);
    Ok(DecodedInstruction { instruction, first, second, third, length: end })
}

/// The bytes that the decoder looks at when it decodes at `pc`.
pub fn read_window(memory: &Memory, pc: usize) -> (w: [u8; 16])
    ensures
        w@ == window(memory@, pc as int),
{
    let base = pc % MEMORY_SIZE;
    let mut w = [0u8;16];
    let mut k: usize = 0;
    while k < WINDOW
        invariant
            k <= WINDOW,
            base == wrap(pc as int),
            forall|j: int| 0 <= j < k ==> w[j] == memory@.read_byte(pc + j),
        decreases WINDOW - k,
    {
        let b = memory.read_byte(base + k);
        assert(wrap(base + k) == wrap(pc + k));
        w[k] = b;
        k += 1;
    }
    assert(w@ =~= window(memory@, pc as int));
    w
}

/// Decodes the instruction at `pc`. Returns the instruction with its
/// operands and length, or the first fault: an unknown opcode, then an
/// operand whose mode is missing or not allowed, then a register operand
/// outside r1 to r16.
pub fn decode(memory: &Memory, pc: usize) -> (r: Result<DecodedInstruction, CoreWarError>)
    ensures
        decode_at(memory@, pc as int) matches Ok(d) ==> r == Ok::<
            DecodedInstruction,
            CoreWarError,
        >(d) && d.wf() && 2 <= d.length <= 11,
        decode_at(memory@, pc as int) matches Err(fault) ==> (r matches Err(e) && reports(
            e,
            fault,
        )),
{
    let w = read_window(memory, pc);
    decode_window(&w)
}

} // verus!
