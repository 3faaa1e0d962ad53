//! The encoder: from a syntax tree to the bytes of a champion file.
//!
//! An instruction is encoded as its opcode, then, if it has more than one
//! operand, a byte with the two-bit codes of its operands, the first in the
//! two highest bits, then the operands, most significant byte first: a
//! register in one byte, an indirect value in two, a direct value or a label
//! in four, or in two for the jumps and forks. A label stands for the
//! distance from the instruction that names it to the first instruction
//! that carries it.

use vstd::prelude::*;
use crate::assembler::lexer::text_is;
use crate::assembler::{AstNode, AstView, InstructionNode, InstructionView, ParameterNode, ParameterView};
use crate::constants::MEMORY_SIZE;
use crate::error::CoreWarError;
use crate::text::{all_digits, chars_of, decimal, decimal_text, digits_value, is_digit};
use crate::vm::decoder::{decode_bytes, type_code_at};
use crate::vm::instruction::{DecodedInstruction, Instruction, Parameter, ParameterType};
use crate::vm::loader::{encode_champion, encode_fault, encoded, LoadFault};
use crate::vm::memory::{unsigned_word, word_byte};
use vstd::utf8::encode_utf8;

verus! {

/// Why a syntax tree cannot be encoded.
pub enum EncodeFault {
    /// The mnemonic names no instruction.
    UnknownMnemonic { line: usize },
    /// The instruction has not the number of operands that it takes.
    WrongCount { line: usize },
    /// An operand is of no known kind, or its text is not what its kind
    /// asks for.
    BadOperand { line: usize },
    /// An operand is of a kind that the instruction does not take there.
    BadMode { line: usize },
    /// A value does not fit its width, or a register is not one of r1 to
    /// r16.
    OutOfRange { line: usize },
    /// A label is named that no instruction carries.
    UnknownLabel { line: usize },
    /// The code is larger than the arena.
    TooLarge,
    /// The name or the comment does not fit its field.
    BadField,
}

/// The instruction with the given mnemonic, if there is one.
pub open spec fn instruction_named(text: Seq<char>) -> Option<Instruction> {
    if text == "live"@ {
        Some(Instruction::Live)
    } else if text == "ld"@ {
        Some(Instruction::Ld)
    } else if text == "st"@ {
        Some(Instruction::St)
    } else if text == "add"@ {
        Some(Instruction::Add)
    } else if text == "sub"@ {
        Some(Instruction::Sub)
    } else if text == "and"@ {
        Some(Instruction::And)
    } else if text == "or"@ {
        Some(Instruction::Or)
    } else if text == "xor"@ {
        Some(Instruction::Xor)
    } else if text == "zjmp"@ {
        Some(Instruction::Zjmp)
    } else if text == "ldi"@ {
        Some(Instruction::Ldi)
    } else if text == "sti"@ {
        Some(Instruction::Sti)
    } else if text == "fork"@ {
        Some(Instruction::Fork)
    } else if text == "lld"@ {
        Some(Instruction::Lld)
    } else if text == "lldi"@ {
        Some(Instruction::Lldi)
    } else if text == "lfork"@ {
        Some(Instruction::Lfork)
    } else if text == "aff"@ {
        Some(Instruction::Aff)
    } else {
        None
    }
}

/// The mode of an operand of the given kind, if the kind is known.
pub open spec fn mode_named(kind: Seq<char>) -> Option<ParameterType> {
    if kind == "register"@ {
        Some(ParameterType::Register)
    } else if kind == "direct"@ {
        Some(ParameterType::Direct)
    } else if kind == "indirect"@ {
        Some(ParameterType::Indirect)
    } else if kind == "label"@ {
        Some(ParameterType::Label)
    } else {
        None
    }
}

/// The mode as which an operand is encoded: a label as a direct value.
pub open spec fn encoded_mode(mode: ParameterType) -> ParameterType {
    if mode == ParameterType::Label {
        ParameterType::Direct
    } else {
        mode
    }
}

/// The number that a text stands for: digits, with or without a minus sign
/// before them.
pub open spec fn number_value(text: Seq<char>) -> Option<int> {
    if text.len() > 0 && text[0] == '-' {
        if all_digits(text, 1) {
            Some(-digits_value(text.subrange(1, text.len() as int), text.len() - 1))
        } else {
            None
        }
    } else if all_digits(text, 0) {
        Some(digits_value(text, text.len() as int))
    } else {
        None
    }
}

/// The number of the register that a text stands for: `r` and digits.
pub open spec fn register_value(text: Seq<char>) -> Option<int> {
    if text.len() > 0 && text[0] == 'r' && all_digits(text, 1) {
        Some(digits_value(text.subrange(1, text.len() as int), text.len() - 1))
    } else {
        None
    }
}

/// Whether a value fits `width` bytes as a signed number.
pub open spec fn fits(value: int, width: int) -> bool {
    if width == 1 {
        -0x80 <= value < 0x80
    } else if width == 2 {
        -0x8000 <= value < 0x8000
    } else {
        -0x8000_0000 <= value < 0x8000_0000
    }
}

/// The bytes of a value in `width` bytes, most significant first, a
/// negative value in two's complement.
pub open spec fn value_bytes(value: int, width: int) -> Seq<u8> {
    let word = unsigned_word(value);
    if width == 1 {
        seq![word_byte(word, 3)]
    } else if width == 2 {
        seq![word_byte(word, 2), word_byte(word, 3)]
    } else {
        seq![word_byte(word, 0), word_byte(word, 1), word_byte(word, 2), word_byte(word, 3)]
    }
}

/// The index of the first of the first `n` instructions that carries the
/// label, or `n` if none does.
pub open spec fn label_index(instructions: Seq<InstructionView>, label: Seq<char>, from: int) -> int
    decreases instructions.len() - from,
{
    if from >= instructions.len() {
        instructions.len() as int
    } else if instructions[from].label == Some(label) {
        from
    } else {
        label_index(instructions, label, from + 1)
    }
}

/// What an instruction of a tree is resolved to: the instruction and the
/// modes of its operands.
pub struct Shape {
    pub instruction: Instruction,
    pub modes: Seq<ParameterType>,
}

/// The modes of the first `n` operands of a node, if their kinds are known.
pub open spec fn modes_of(parameters: Seq<ParameterView>, n: int) -> Option<Seq<ParameterType>>
    decreases n,
{
    if n <= 0 {
        Some(Seq::<ParameterType>::empty())
    } else {
        match (modes_of(parameters, n - 1), mode_named(parameters[n - 1].param_type)) {
            (Some(modes), Some(mode)) => Some(modes.push(mode)),
            _ => None,
        }
    }
}

/// The first operand among the first `n` that the instruction does not
/// take, if there is one.
pub open spec fn modes_allowed(instruction: Instruction, modes: Seq<ParameterType>, n: int) -> bool
    decreases n,
{
    if n <= 0 {
        true
    } else {
        modes_allowed(instruction, modes, n - 1) && instruction.allows(
            n - 1,
            encoded_mode(modes[n - 1]),
        )
    }
}

/// The shape of a node, or the first fault: the mnemonic is looked at
/// first, then the number of operands, then their kinds, then whether the
/// instruction takes them.
pub open spec fn shape_of(node: InstructionView) -> Result<Shape, EncodeFault> {
    match instruction_named(node.mnemonic) {
        None => Err(EncodeFault::UnknownMnemonic { line: node.line_number }),
        Some(instruction) => if node.parameters.len() != instruction.arity() {
            Err(EncodeFault::WrongCount { line: node.line_number })
        } else {
            match modes_of(node.parameters, node.parameters.len() as int) {
                None => Err(EncodeFault::BadOperand { line: node.line_number }),
                Some(modes) => if !modes_allowed(instruction, modes, modes.len() as int) {
                    Err(EncodeFault::BadMode { line: node.line_number })
                } else {
                    Ok(Shape { instruction, modes })
                },
            }
        },
    }
}

/// The sum of the widths of the first `n` operands of a shape.
pub open spec fn operands_length(shape: Shape, n: int) -> int
    decreases n,
{
    if n <= 0 {
        0
    } else {
        operands_length(shape, n - 1) + shape.instruction.operand_width(shape.modes[n - 1])
    }
}

/// The length in bytes of the encoding of a shape.
pub open spec fn shape_length(shape: Shape) -> int {
    1 + (if shape.instruction.has_type_byte() {
        1int
    } else {
        0int
    }) + operands_length(shape, shape.modes.len() as int)
}

/// The shapes of the first `n` instructions, or the first fault.
pub open spec fn shapes_of(instructions: Seq<InstructionView>, n: int) -> Result<Seq<Shape>, EncodeFault>
    decreases n,
{
    if n <= 0 {
        Ok(Seq::<Shape>::empty())
    } else {
        match shapes_of(instructions, n - 1) {
            Err(fault) => Err(fault),
            Ok(shapes) => match shape_of(instructions[n - 1]) {
                Err(fault) => Err(fault),
                Ok(shape) => Ok(shapes.push(shape)),
            },
        }
    }
}

/// The address of instruction `n`: the sum of the lengths of those before
/// it.
pub open spec fn address_of(shapes: Seq<Shape>, n: int) -> int
    decreases n,
{
    if n <= 0 {
        0
    } else {
        address_of(shapes, n - 1) + shape_length(shapes[n - 1])
    }
}

/// The value of operand `k` of instruction `i`, or the fault: a register
/// must be one of r1 to r16, a number must fit its width, a label must be
/// carried by an instruction and its distance must fit.
pub open spec fn operand_value(
    instructions: Seq<InstructionView>,
    shapes: Seq<Shape>,
    i: int,
    k: int,
) -> Result<int, EncodeFault> {
    let node = instructions[i];
    let text = node.parameters[k].value;
    let mode = shapes[i].modes[k];
    let width = shapes[i].instruction.operand_width(mode);
    let line = node.line_number;
    match mode {
        ParameterType::Register => match register_value(text) {
            None => Err(EncodeFault::BadOperand { line }),
            Some(r) => if 1 <= r <= 16 {
                Ok(r)
            } else {
                Err(EncodeFault::OutOfRange { line })
            },
        },
        ParameterType::Label => {
            let target = label_index(instructions, text, 0);
            if target >= instructions.len() {
                Err(EncodeFault::UnknownLabel { line })
            } else {
                let distance = address_of(shapes, target) - address_of(shapes, i);
                if fits(distance, width) {
                    Ok(distance)
                } else {
                    Err(EncodeFault::OutOfRange { line })
                }
            }
        },
        _ => match number_value(text) {
            None => Err(EncodeFault::BadOperand { line }),
            Some(v) => if fits(v, width) {
                Ok(v)
            } else {
                Err(EncodeFault::OutOfRange { line })
            },
        },
    }
}

/// The byte of operand types of a shape: the code of operand `k` in bits
/// `7 - 2k` and `6 - 2k`.
pub open spec fn type_byte_of(shape: Shape) -> u8 {
    let code = |k: int|
        if k < shape.modes.len() {
            shape.modes[k].code() as int
        } else {
            0int
        };
    (code(0) * 64 + code(1) * 16 + code(2) * 4) as u8
}

/// The bytes of the first `n` operands of instruction `i`, or the first
/// fault.
pub open spec fn operands_bytes(
    instructions: Seq<InstructionView>,
    shapes: Seq<Shape>,
    i: int,
    n: int,
) -> Result<Seq<u8>, EncodeFault>
    decreases n,
{
    if n <= 0 {
        Ok(Seq::<u8>::empty())
    } else {
        match operands_bytes(instructions, shapes, i, n - 1) {
            Err(fault) => Err(fault),
            Ok(bytes) => match operand_value(instructions, shapes, i, n - 1) {
                Err(fault) => Err(fault),
                Ok(value) => Ok(
                    bytes + value_bytes(
                        value,
                        shapes[i].instruction.operand_width(shapes[i].modes[n - 1]),
                    ),
                ),
            },
        }
    }
}

/// The bytes of instruction `i`, or the first fault.
pub open spec fn instruction_bytes(instructions: Seq<InstructionView>, shapes: Seq<Shape>, i: int)
    -> Result<Seq<u8>, EncodeFault> {
    let shape = shapes[i];
    let head = if shape.instruction.has_type_byte() {
        seq![shape.instruction.spec_opcode(), type_byte_of(shape)]
    } else {
        seq![shape.instruction.spec_opcode()]
    };
    match operands_bytes(instructions, shapes, i, shape.modes.len() as int) {
        Err(fault) => Err(fault),
        Ok(bytes) => Ok(head + bytes),
    }
}

/// The code of the first `n` instructions, or the first fault.
pub open spec fn code_of(instructions: Seq<InstructionView>, shapes: Seq<Shape>, n: int) -> Result<
    Seq<u8>,
    EncodeFault,
>
    decreases n,
{
    if n <= 0 {
        Ok(Seq::<u8>::empty())
    } else {
        match code_of(instructions, shapes, n - 1) {
            Err(fault) => Err(fault),
            Ok(code) => match instruction_bytes(instructions, shapes, n - 1) {
                Err(fault) => Err(fault),
                Ok(bytes) => Ok(code + bytes),
            },
        }
    }
}

/// The bytes of the champion file that a syntax tree stands for, or the
/// first fault: the instructions are resolved first, all of them, then
/// encoded in order; the code must fit the arena, the name and the comment
/// their fields.
pub open spec fn encode_tree(ast: AstView) -> Result<Seq<u8>, EncodeFault> {
    match shapes_of(ast.instructions, ast.instructions.len() as int) {
        Err(fault) => Err(fault),
        Ok(shapes) => if address_of(shapes, shapes.len() as int) > MEMORY_SIZE {
            Err(EncodeFault::TooLarge)
        } else {
            match code_of(ast.instructions, shapes, shapes.len() as int) {
                Err(fault) => Err(fault),
                Ok(code) => match encode_fault(
                    encode_utf8(ast.header.name),
                    encode_utf8(ast.header.comment),
                    code,
                ) {
                    Some(_) => Err(EncodeFault::BadField),
                    None => Ok(
                        encoded(encode_utf8(ast.header.name), encode_utf8(ast.header.comment), code),
                    ),
                },
            }
        },
    }
}

/// The message of a fault.
pub open spec fn fault_text(fault: EncodeFault) -> Seq<char> {
    match fault {
        EncodeFault::UnknownMnemonic { line } => "Unknown instruction at line "@ + decimal_text(
            line as int,
        ),
        EncodeFault::WrongCount { line } => "Wrong number of operands at line "@ + decimal_text(
            line as int,
        ),
        EncodeFault::BadOperand { line } => "Malformed operand at line "@ + decimal_text(
            line as int,
        ),
        EncodeFault::BadMode { line } => "Operand of a kind that the instruction does not take at line "@
            + decimal_text(line as int),
        EncodeFault::OutOfRange { line } => "Value out of range at line "@ + decimal_text(
            line as int,
        ),
        EncodeFault::UnknownLabel { line } => "Unknown label at line "@ + decimal_text(line as int),
        EncodeFault::TooLarge => "The code is larger than the arena"@,
        EncodeFault::BadField => "Name and comment take at most 128 bytes and hold no NUL"@,
    }
}

/// Whether an error reports the given fault.
pub open spec fn reports(e: CoreWarError, fault: EncodeFault) -> bool {
    e matches CoreWarError::Assembler { message } && message@ == fault_text(fault)
}

/// The bytes of slot `k` of a decoded instruction: those of its value in
/// its width; none beyond the arity.
pub open spec fn slot_bytes(d: DecodedInstruction, k: int) -> Seq<u8> {
    if k < d.instruction.arity() {
        value_bytes(
            d.operand(k).value as int,
            d.instruction.operand_width(d.operand(k).param_type),
        )
    } else {
        Seq::<u8>::empty()
    }
}

/// The code of slot `k` in the byte of operand types: none beyond the
/// arity.
pub open spec fn slot_code(d: DecodedInstruction, k: int) -> int {
    if k < d.instruction.arity() {
        d.operand(k).param_type.code() as int
    } else {
        0
    }
}

/// The encoding of a decoded instruction.
pub open spec fn encoding(d: DecodedInstruction) -> Seq<u8> {
    (if d.instruction.has_type_byte() {
        seq![
            d.instruction.spec_opcode(),
            (slot_code(d, 0) * 64 + slot_code(d, 1) * 16 + slot_code(d, 2) * 4) as u8,
        ]
    } else {
        seq![d.instruction.spec_opcode()]
    }) + slot_bytes(d, 0) + slot_bytes(d, 1) + slot_bytes(d, 2)
}

/// Whether the value of slot `k` fits its width.
pub open spec fn slot_fits(d: DecodedInstruction, k: int) -> bool {
    k < d.instruction.arity() ==> fits(
        d.operand(k).value as int,
        d.instruction.operand_width(d.operand(k).param_type),
    )
}

/// A value that fits its width is read back from its bytes.
pub proof fn lemma_value_round_trip(w: Seq<u8>, at: int, value: int, width: int)
    requires
        width == 1 || width == 2 || width == 4,
        0 <= at,
        at + width <= w.len(),
        w.subrange(at, at + width) == value_bytes(value, width),
        fits(value, width),
        width == 1 ==> 0 <= value,
    ensures
        crate::vm::decoder::operand_value(w, at, width) == value,
{
    let bytes = value_bytes(value, width);
    assert(w[at] == bytes[0]);
    if width >= 2 {
        assert(w[at + 1] == bytes[1]);
    }
    if width == 4 {
        assert(w[at + 2] == bytes[2]);
        assert(w[at + 3] == bytes[3]);
    }
}

/// The byte of operand types holds the code of each slot in its place.
proof fn lemma_type_codes(c0: int, c1: int, c2: int)
    requires
        0 <= c0 < 4,
        0 <= c1 < 4,
        0 <= c2 < 4,
    ensures
        type_code_at((c0 * 64 + c1 * 16 + c2 * 4) as u8, 0) == c0,
        type_code_at((c0 * 64 + c1 * 16 + c2 * 4) as u8, 1) == c1,
        type_code_at((c0 * 64 + c1 * 16 + c2 * 4) as u8, 2) == c2,
{
}

/// The number of bytes before the operands.
pub open spec fn head_length(d: DecodedInstruction) -> int {
    if d.instruction.has_type_byte() {
        2
    } else {
        1
    }
}

/// Where the bytes of an encoding lie in a window that starts with it.
proof fn lemma_encoding_layout(d: DecodedInstruction, rest: Seq<u8>)
    requires
        d.slot_ok(0),
        d.slot_ok(1),
        d.slot_ok(2),
        (encoding(d) + rest).len() >= crate::vm::decoder::WINDOW,
    ensures
        ({
            let w = (encoding(d) + rest).subrange(0, crate::vm::decoder::WINDOW as int);
            let h = head_length(d);
            let l0 = d.slot_width(0);
            let l1 = d.slot_width(1);
            let l2 = d.slot_width(2);
            &&& w.len() == crate::vm::decoder::WINDOW
            &&& encoding(d).len() == h + l0 + l1 + l2
            &&& h + l0 + l1 + l2 <= 14
            &&& w[0] == d.instruction.spec_opcode()
            &&& d.instruction.has_type_byte() ==> w[1] == (slot_code(d, 0) * 64 + slot_code(d, 1)
                * 16 + slot_code(d, 2) * 4) as u8
            &&& w.subrange(h, h + l0) == slot_bytes(d, 0)
            &&& w.subrange(h + l0, h + l0 + l1) == slot_bytes(d, 1)
            &&& w.subrange(h + l0 + l1, h + l0 + l1 + l2) == slot_bytes(d, 2)
        }),
{
    let w = (encoding(d) + rest).subrange(0, crate::vm::decoder::WINDOW as int);
    let h = head_length(d);
    let b0 = slot_bytes(d, 0);
    let b1 = slot_bytes(d, 1);
    let b2 = slot_bytes(d, 2);
    assert(b0.len() == d.slot_width(0));
    assert(b1.len() == d.slot_width(1));
    assert(b2.len() == d.slot_width(2));
    let head = if d.instruction.has_type_byte() {
        seq![
            d.instruction.spec_opcode(),
            (slot_code(d, 0) * 64 + slot_code(d, 1) * 16 + slot_code(d, 2) * 4) as u8,
        ]
    } else {
        seq![d.instruction.spec_opcode()]
    };
    assert(encoding(d) == head + b0 + b1 + b2);
    assert(head.len() == h);
    assert(w.subrange(h, h + b0.len()) =~= b0);
    assert(w.subrange(h + b0.len(), h + b0.len() + b1.len()) =~= b1);
    assert(w.subrange(h + b0.len() + b1.len(), h + b0.len() + b1.len() + b2.len()) =~= b2);
}

/// The decoder reads the modes of a well-formed instruction back from a
/// window that starts with its opcode and its byte of operand types.
proof fn lemma_modes_read_back(d: DecodedInstruction, w: Seq<u8>, k: int)
    requires
        d.slot_ok(0),
        d.slot_ok(1),
        d.slot_ok(2),
        0 <= k < d.instruction.arity(),
        w.len() >= 2,
        d.instruction.has_type_byte() ==> w[1] == (slot_code(d, 0) * 64 + slot_code(d, 1) * 16
            + slot_code(d, 2) * 4) as u8,
    ensures
        crate::vm::decoder::operand_mode(w, d.instruction, k) == d.operand(k).param_type,
        crate::vm::decoder::mode_ok(w, d.instruction, k),
        crate::vm::decoder::width_at(w, d.instruction, k) == d.slot_width(k),
{
    lemma_type_codes(slot_code(d, 0), slot_code(d, 1), slot_code(d, 2));
}

/// What is encoded is decoded: the decoder reads a well-formed instruction
/// whose values fit their widths back from its encoding, whatever bytes
/// follow.
pub proof fn lemma_encoding_is_decoded(d: DecodedInstruction, rest: Seq<u8>)
    requires
        d.wf(),
        slot_fits(d, 0),
        slot_fits(d, 1),
        slot_fits(d, 2),
        (encoding(d) + rest).len() >= crate::vm::decoder::WINDOW,
    ensures
        encoding(d).len() == d.length,
        decode_bytes((encoding(d) + rest).subrange(0, crate::vm::decoder::WINDOW as int)) == Ok::<
            DecodedInstruction,
            crate::vm::decoder::DecodeFault,
        >(d),
{
    let i = d.instruction;
    let w = (encoding(d) + rest).subrange(0, crate::vm::decoder::WINDOW as int);
    let n = i.arity();
    let h = head_length(d);
    let l0 = d.slot_width(0);
    let l1 = d.slot_width(1);
    lemma_encoding_layout(d, rest);
    assert(crate::vm::instruction::instruction_of(w[0]) == Some(i));
    lemma_modes_read_back(d, w, 0);
    assert(crate::vm::decoder::operand_start(w, i, 0) == h);
    lemma_value_round_trip(w, h, d.operand(0).value as int, l0);
    assert(crate::vm::decoder::slot_at(w, i, 0) == d.first);
    if n > 1 {
        lemma_modes_read_back(d, w, 1);
        assert(crate::vm::decoder::operand_start(w, i, 1) == h + l0);
        lemma_value_round_trip(w, h + l0, d.operand(1).value as int, l1);
    }
    assert(crate::vm::decoder::slot_at(w, i, 1) == d.second);
    if n > 2 {
        lemma_modes_read_back(d, w, 2);
        assert(crate::vm::decoder::operand_start(w, i, 2) == h + l0 + l1);
        lemma_value_round_trip(w, h + l0 + l1, d.operand(2).value as int, d.slot_width(2));
    }
    assert(crate::vm::decoder::slot_at(w, i, 2) == d.third);
    assert(crate::vm::decoder::first_bad_mode(w, i) is None);
    assert(crate::vm::decoder::first_bad_register(w, i) is None);
    assert(crate::vm::decoder::operand_start(w, i, 3) == d.length);
}

/// Slot `k` of the instruction that instruction `i` of a tree stands for.
pub open spec fn resolved_slot(
    instructions: Seq<InstructionView>,
    shapes: Seq<Shape>,
    i: int,
    k: int,
) -> Parameter {
    if k < shapes[i].modes.len() {
        Parameter {
            param_type: encoded_mode(shapes[i].modes[k]),
            value: operand_value(instructions, shapes, i, k)->Ok_0 as i32,
        }
    } else {
        DecodedInstruction::filler()
    }
}

/// The instruction that instruction `i` of a tree stands for, as the
/// decoder gives it.
pub open spec fn resolved_at(instructions: Seq<InstructionView>, shapes: Seq<Shape>, i: int)
    -> DecodedInstruction {
    DecodedInstruction {
        instruction: shapes[i].instruction,
        first: resolved_slot(instructions, shapes, i, 0),
        second: resolved_slot(instructions, shapes, i, 1),
        third: resolved_slot(instructions, shapes, i, 2),
        length: shape_length(shapes[i]) as usize,
    }
}

/// The modes of the operands that are known are as many as the operands.
proof fn lemma_modes_length(parameters: Seq<ParameterView>, n: int)
    requires
        0 <= n,
    ensures
        modes_of(parameters, n) matches Some(modes) ==> modes.len() == n,
    decreases n,
{
    if n > 0 {
        lemma_modes_length(parameters, n - 1);
    }
}

/// Where the instruction takes its operands, it takes each of them.
proof fn lemma_mode_allowed(instruction: Instruction, modes: Seq<ParameterType>, n: int, k: int)
    requires
        0 <= k < n,
        modes_allowed(instruction, modes, n),
    ensures
        instruction.allows(k, encoded_mode(modes[k])),
    decreases n,
{
    if k < n - 1 {
        lemma_mode_allowed(instruction, modes, n - 1, k);
    }
}

/// Where the operands have bytes, each of them has a value, and the bytes
/// are those of the values in order.
proof fn lemma_operands_bytes(
    instructions: Seq<InstructionView>,
    shapes: Seq<Shape>,
    i: int,
    n: int,
    k: int,
)
    requires
        0 <= k < n,
        operands_bytes(instructions, shapes, i, n) is Ok,
    ensures
        operand_value(instructions, shapes, i, k) is Ok,
        operands_bytes(instructions, shapes, i, k) is Ok,
        operands_bytes(instructions, shapes, i, k + 1)->Ok_0 == operands_bytes(
            instructions,
            shapes,
            i,
            k,
        )->Ok_0 + value_bytes(
            operand_value(instructions, shapes, i, k)->Ok_0,
            shapes[i].instruction.operand_width(shapes[i].modes[k]),
        ),
    decreases n,
{
    if k < n - 1 {
        lemma_operands_bytes(instructions, shapes, i, n - 1, k);
    }
}

/// Slot `k` of the instruction that an instruction of a tree stands for
/// is in order, fits, and has the bytes and the code that the encoder
/// writes for it.
proof fn lemma_tree_slot(instructions: Seq<InstructionView>, shapes: Seq<Shape>, i: int, k: int)
    requires
        0 <= i < instructions.len(),
        shapes.len() == instructions.len(),
        shape_of(instructions[i]) == Ok::<Shape, EncodeFault>(shapes[i]),
        instruction_bytes(instructions, shapes, i) is Ok,
        0 <= k < 3,
    ensures
        shapes[i].modes.len() == shapes[i].instruction.arity(),
        resolved_at(instructions, shapes, i).slot_ok(k),
        slot_fits(resolved_at(instructions, shapes, i), k),
        k < shapes[i].modes.len() ==> slot_bytes(resolved_at(instructions, shapes, i), k)
            == value_bytes(
            operand_value(instructions, shapes, i, k)->Ok_0,
            shapes[i].instruction.operand_width(shapes[i].modes[k]),
        ) && slot_code(resolved_at(instructions, shapes, i), k) == shapes[i].modes[k].code()
            && resolved_at(instructions, shapes, i).slot_width(k)
            == shapes[i].instruction.operand_width(shapes[i].modes[k]) && operands_bytes(
            instructions,
            shapes,
            i,
            k + 1,
        )->Ok_0 == operands_bytes(instructions, shapes, i, k)->Ok_0 + slot_bytes(
            resolved_at(instructions, shapes, i),
            k,
        ),
        k >= shapes[i].modes.len() ==> slot_bytes(resolved_at(instructions, shapes, i), k)
            == Seq::<u8>::empty() && slot_code(resolved_at(instructions, shapes, i), k) == 0
            && resolved_at(instructions, shapes, i).slot_width(k) == 0,
{
    let shape = shapes[i];
    let n = shape.modes.len() as int;
    lemma_modes_length(instructions[i].parameters, instructions[i].parameters.len() as int);
    if k < n {
        lemma_mode_allowed(shape.instruction, shape.modes, n, k);
        lemma_operands_bytes(instructions, shapes, i, n, k);
    }
}

/// What the encoder writes for an instruction of a tree is the encoding of
/// the instruction that it stands for, which is well formed and fits.
pub proof fn lemma_tree_instruction(instructions: Seq<InstructionView>, shapes: Seq<Shape>, i: int)
    requires
        0 <= i < instructions.len(),
        shapes.len() == instructions.len(),
        shape_of(instructions[i]) == Ok::<Shape, EncodeFault>(shapes[i]),
        instruction_bytes(instructions, shapes, i) is Ok,
    ensures
        instruction_bytes(instructions, shapes, i)->Ok_0 == encoding(
            resolved_at(instructions, shapes, i),
        ),
        resolved_at(instructions, shapes, i).wf(),
        resolved_at(instructions, shapes, i).length == shape_length(shapes[i]),
        slot_fits(resolved_at(instructions, shapes, i), 0),
        slot_fits(resolved_at(instructions, shapes, i), 1),
        slot_fits(resolved_at(instructions, shapes, i), 2),
{
    let shape = shapes[i];
    let n = shape.modes.len() as int;
    let d = resolved_at(instructions, shapes, i);
    lemma_tree_slot(instructions, shapes, i, 0);
    lemma_tree_slot(instructions, shapes, i, 1);
    lemma_tree_slot(instructions, shapes, i, 2);
    assert(operands_bytes(instructions, shapes, i, 0)->Ok_0 =~= Seq::<u8>::empty());
    let bytes = operands_bytes(instructions, shapes, i, n)->Ok_0;
    assert(bytes =~= slot_bytes(d, 0) + slot_bytes(d, 1) + slot_bytes(d, 2));
    assert(operands_length(shape, n) == d.slot_width(0) + d.slot_width(1) + d.slot_width(2)) by {
        reveal_with_fuel(operands_length, 4);
    }
    assert(instruction_bytes(instructions, shapes, i)->Ok_0 =~= encoding(d));
}

/// What the assembler writes, the machine reads: the decoder reads every
/// instruction of a tree back from the bytes that the encoder writes for
/// it, whatever bytes follow.
pub proof fn lemma_encoded_is_decoded(
    instructions: Seq<InstructionView>,
    shapes: Seq<Shape>,
    i: int,
    rest: Seq<u8>,
)
    requires
        0 <= i < instructions.len(),
        shapes.len() == instructions.len(),
        shape_of(instructions[i]) == Ok::<Shape, EncodeFault>(shapes[i]),
        instruction_bytes(instructions, shapes, i) is Ok,
        (instruction_bytes(instructions, shapes, i)->Ok_0 + rest).len()
            >= crate::vm::decoder::WINDOW,
    ensures
        decode_bytes(
            (instruction_bytes(instructions, shapes, i)->Ok_0 + rest).subrange(
                0,
                crate::vm::decoder::WINDOW as int,
            ),
        ) == Ok::<DecodedInstruction, crate::vm::decoder::DecodeFault>(
            resolved_at(instructions, shapes, i),
        ),
        instruction_bytes(instructions, shapes, i)->Ok_0.len() == shape_length(shapes[i]),
{
    lemma_tree_instruction(instructions, shapes, i);
    lemma_encoding_is_decoded(resolved_at(instructions, shapes, i), rest);
}

/// The kinds of fault that name a line.
#[derive(Debug, Clone, Copy, PartialEq, Eq, Structural)]
pub enum FaultKind {
    UnknownMnemonic,
    WrongCount,
    BadOperand,
    BadMode,
    OutOfRange,
    UnknownLabel,
    TooLarge,
    BadField,
}

impl FaultKind {
    /// The fault of this kind at the given line.
    pub open spec fn fault(self, line: usize) -> EncodeFault {
        match self {
            FaultKind::UnknownMnemonic => EncodeFault::UnknownMnemonic { line },
            FaultKind::WrongCount => EncodeFault::WrongCount { line },
            FaultKind::BadOperand => EncodeFault::BadOperand { line },
            FaultKind::BadMode => EncodeFault::BadMode { line },
            FaultKind::OutOfRange => EncodeFault::OutOfRange { line },
            FaultKind::UnknownLabel => EncodeFault::UnknownLabel { line },
            FaultKind::TooLarge => EncodeFault::TooLarge,
            FaultKind::BadField => EncodeFault::BadField,
        }
    }
}

/// The error that reports a fault.
fn fault_error(kind: FaultKind, line: usize) -> (e: CoreWarError)
    ensures
        reports(e, kind.fault(line)),
{
    let mut message = String::new();
    let with_line = match kind {
        FaultKind::UnknownMnemonic => {
            message.append("Unknown instruction at line ");
            true
        },
        FaultKind::WrongCount => {
            message.append("Wrong number of operands at line ");
            true
        },
        FaultKind::BadOperand => {
            message.append("Malformed operand at line ");
            true
        },
        FaultKind::BadMode => {
            message.append("Operand of a kind that the instruction does not take at line ");
            true
        },
        FaultKind::OutOfRange => {
            message.append("Value out of range at line ");
            true
        },
        FaultKind::UnknownLabel => {
            message.append("Unknown label at line ");
            true
        },
        FaultKind::TooLarge => {
            message.append("The code is larger than the arena");
            false
        },
        FaultKind::BadField => {
            message.append("Name and comment take at most 128 bytes and hold no NUL");
            false
        },
    };
    if with_line {
        message.append(decimal(line as i128).as_str());
    }
    assert(message@ =~= fault_text(kind.fault(line)));
    CoreWarError::assembler(message)
}

/// The instruction with the given mnemonic, if there is one.
fn find_instruction(text: &str) -> (r: Option<Instruction>)
    ensures
        r == instruction_named(text@),
{
    let chars = chars_of(text);
    if text_is(&chars, "live") {
        Some(Instruction::Live)
    } else if text_is(&chars, "ld") {
        Some(Instruction::Ld)
    } else if text_is(&chars, "st") {
        Some(Instruction::St)
    } else if text_is(&chars, "add") {
        Some(Instruction::Add)
    } else if text_is(&chars, "sub") {
        Some(Instruction::Sub)
    } else if text_is(&chars, "and") {
        Some(Instruction::And)
    } else if text_is(&chars, "or") {
        Some(Instruction::Or)
    } else if text_is(&chars, "xor") {
        Some(Instruction::Xor)
    } else if text_is(&chars, "zjmp") {
        Some(Instruction::Zjmp)
    } else if text_is(&chars, "ldi") {
        Some(Instruction::Ldi)
    } else if text_is(&chars, "sti") {
        Some(Instruction::Sti)
    } else if text_is(&chars, "fork") {
        Some(Instruction::Fork)
    } else if text_is(&chars, "lld") {
        Some(Instruction::Lld)
    } else if text_is(&chars, "lldi") {
        Some(Instruction::Lldi)
    } else if text_is(&chars, "lfork") {
        Some(Instruction::Lfork)
    } else if text_is(&chars, "aff") {
        Some(Instruction::Aff)
    } else {
        None
    }
}

/// The mode of an operand of the given kind, if the kind is known.
fn find_mode(kind: &str) -> (r: Option<ParameterType>)
    ensures
        r == mode_named(kind@),
{
    let chars = chars_of(kind);
    if text_is(&chars, "register") {
        Some(ParameterType::Register)
    } else if text_is(&chars, "direct") {
        Some(ParameterType::Direct)
    } else if text_is(&chars, "indirect") {
        Some(ParameterType::Indirect)
    } else if text_is(&chars, "label") {
        Some(ParameterType::Label)
    } else {
        None
    }
}

/// The largest value that the encoder reads from digits; any value beyond
/// fits no operand.
pub const VALUE_LIMIT: i64 = 0x1_0000_0000;

/// The value of the digits from `from` on: nothing where a character is no
/// digit or there is none; the limit where the value is beyond it.
fn read_digits(chars: &Vec<char>, from: usize) -> (r: Option<i64>)
    requires
        from <= chars@.len(),
    ensures
        !all_digits(chars@, from as int) ==> r is None,
        all_digits(chars@, from as int) ==> (r matches Some(v) && v == if digits_value(
            chars@.subrange(from as int, chars@.len() as int),
            chars@.len() - from,
        ) <= VALUE_LIMIT {
            digits_value(chars@.subrange(from as int, chars@.len() as int), chars@.len() - from)
        } else {
            VALUE_LIMIT + 1
        }),
        r matches Some(v) ==> 0 <= v <= VALUE_LIMIT + 1,
{
    let n = chars.len();
    if from >= n {
        return None;
    }
    let ghost text = chars@.subrange(from as int, n as int);
    let mut value: i64 = 0;
    let mut i: usize = from;
    while i < n
        invariant
            from <= i <= n,
            n == chars@.len(),
            text == chars@.subrange(from as int, n as int),
            forall|j: int| from <= j < i ==> is_digit(#[trigger] chars@[j]),
            0 <= value <= VALUE_LIMIT + 1,
            value == if digits_value(text, i - from) <= VALUE_LIMIT {
                digits_value(text, i - from)
            } else {
                VALUE_LIMIT + 1
            },
        decreases n - i,
    {
        let c = chars[i];
        if !(c >= '0' && c <= '9') {
            return None;
        }
        assert(text[i - from] == c);
        if value <= VALUE_LIMIT {
            value = value * 10 + ((c as u8) - 48) as i64;
            if value > VALUE_LIMIT {
                value = VALUE_LIMIT + 1;
            }
        }
        i += 1;
    }
    assert(all_digits(chars@, from as int));
    Some(value)
}

/// The number that a text stands for, if it stands for one; a number
/// beyond the limit is given as just beyond it.
fn read_number(text: &str) -> (r: Option<i64>)
    ensures
        number_value(text@) is None ==> r is None,
        number_value(text@) matches Some(v) ==> (r matches Some(w) && w == if v > VALUE_LIMIT {
            VALUE_LIMIT + 1
        } else if v < -VALUE_LIMIT {
            -VALUE_LIMIT - 1
        } else {
            v
        }),
{
    let chars = chars_of(text);
    if chars.len() > 0 && chars[0] == '-' {
        match read_digits(&chars, 1) {
            Some(v) => Some(-v),
            None => None,
        }
    } else {
        proof {
            assert(chars@.subrange(0, chars@.len() as int) =~= chars@);
        }
        read_digits(&chars, 0)
    }
}

/// The number of the register that a text stands for, if it stands for
/// one.
fn read_register(text: &str) -> (r: Option<i64>)
    ensures
        register_value(text@) is None ==> r is None,
        register_value(text@) matches Some(v) ==> (r matches Some(w) && w == if v > VALUE_LIMIT {
            VALUE_LIMIT + 1
        } else {
            v
        }),
{
    let chars = chars_of(text);
    if chars.len() > 0 && chars[0] == 'r' {
        read_digits(&chars, 1)
    } else {
        None
    }
}

/// An instruction of a tree, resolved.
struct Resolved {
    instruction: Instruction,
    modes: Vec<ParameterType>,
    address: usize,
}

impl Resolved {
    /// The shape of the resolved instruction.
    spec fn shape(self) -> Shape {
        Shape { instruction: self.instruction, modes: self.modes@ }
    }
}

/// The shapes of a list of resolved instructions.
spec fn shapes_view(resolved: Seq<Resolved>) -> Seq<Shape> {
    Seq::new(resolved.len(), |i: int| resolved[i].shape())
}

/// Resolves a node: finds its instruction and the modes of its operands.
fn resolve(node: &InstructionNode, address: usize) -> (r: Result<Resolved, CoreWarError>)
    ensures
        match shape_of(node@) {
            Ok(shape) => r matches Ok(resolved) && resolved.shape() == shape && resolved.address
                == address && 1 <= shape_length(shape) <= 14 && resolved.modes@.len()
                == node.parameters@.len() && resolved.modes@.len() <= 3,
            Err(fault) => r matches Err(e) && reports(e, fault),
        },
{
    let line = node.line_number;
    let instruction = match find_instruction(node.mnemonic.as_str()) {
        Some(i) => i,
        None => {
            return Err(fault_error(FaultKind::UnknownMnemonic, line));
        },
    };
    let n = node.parameters.len();
    if n != instruction.parameter_count() {
        return Err(fault_error(FaultKind::WrongCount, line));
    }
    let ghost parameters = node@.parameters;
    let mut modes: Vec<ParameterType> = Vec::new();
    let mut k: usize = 0;
    while k < n
        invariant
            k <= n,
            n == node.parameters@.len(),
            parameters == node@.parameters,
            parameters.len() == n,
            modes_of(parameters, k as int) == Some(modes@),
            modes@.len() == k,
            line == node.line_number,
            instruction_named(node@.mnemonic) == Some(instruction),
            n == instruction.arity(),
        decreases n - k,
    {
        assert(parameters[k as int] == node.parameters@[k as int]@);
        match find_mode(node.parameters[k].param_type.as_str()) {
            Some(mode) => {
                modes.push(mode);
            },
            None => {
                proof {
                    lemma_modes_none(parameters, k as int + 1, n as int);
                }
                return Err(fault_error(FaultKind::BadOperand, line));
            },
        }
        k += 1;
    }
    let mut k: usize = 0;
    while k < n
        invariant
            k <= n,
            n == modes@.len(),
            n <= 3,
            modes_allowed(instruction, modes@, k as int),
            modes_of(parameters, n as int) == Some(modes@),
            parameters == node@.parameters,
            parameters.len() == n,
            line == node.line_number,
            instruction_named(node@.mnemonic) == Some(instruction),
            n == instruction.arity(),
        decreases n - k,
    {
        let mode = match modes[k] {
            ParameterType::Label => ParameterType::Direct,
            other => other,
        };
        if !instruction.accepts(k, mode) {
            proof {
                lemma_modes_refused(instruction, modes@, k as int + 1, n as int);
            }
            return Err(fault_error(FaultKind::BadMode, line));
        }
        k += 1;
    }
    let resolved = Resolved { instruction, modes, address };
    proof {
        lemma_shape_length(resolved.shape(), n as int);
    }
    Ok(resolved)
}

/// Where the kind of an operand is not known, the modes of the operands up
/// to it and beyond are not known.
proof fn lemma_modes_none(parameters: Seq<ParameterView>, k: int, n: int)
    requires
        0 < k <= n,
        mode_named(parameters[k - 1].param_type) is None,
    ensures
        modes_of(parameters, n) is None,
    decreases n - k,
{
    if k < n {
        lemma_modes_none(parameters, k, n - 1);
    }
}

/// Where the instruction does not take an operand, it does not take the
/// operands up to it and beyond.
proof fn lemma_modes_refused(instruction: Instruction, modes: Seq<ParameterType>, k: int, n: int)
    requires
        0 < k <= n,
        !instruction.allows(k - 1, encoded_mode(modes[k - 1])),
    ensures
        !modes_allowed(instruction, modes, n),
    decreases n - k,
{
    if k < n {
        lemma_modes_refused(instruction, modes, k, n - 1);
    }
}

/// The operands of a shape take between one and four bytes each.
proof fn lemma_shape_length(shape: Shape, n: int)
    requires
        0 <= n <= shape.modes.len(),
    ensures
        n <= operands_length(shape, n) <= 4 * n,
    decreases n,
{
    if n > 0 {
        lemma_shape_length(shape, n - 1);
    }
}

/// An address as far as the encoder follows it: itself up to the size of
/// the arena, just beyond it from there on.
spec fn capped(address: int) -> int {
    if address <= MEMORY_SIZE {
        address
    } else {
        MEMORY_SIZE + 1
    }
}

/// Addresses grow, and do not depend on the shapes that follow.
proof fn lemma_address_of(shapes: Seq<Shape>, longer: Seq<Shape>, n: int, m: int)
    requires
        0 <= n <= m <= shapes.len() <= longer.len(),
        forall|j: int| 0 <= j < shapes.len() ==> shapes[j] == longer[j],
        forall|j: int| 0 <= j < shapes.len() ==> 1 <= shape_length(#[trigger] shapes[j]),
    ensures
        address_of(shapes, n) <= address_of(shapes, m),
        n <= address_of(shapes, n),
        address_of(shapes, n) == address_of(longer, n),
    decreases m,
{
    if m > 0 {
        if n == m {
            lemma_address_of(shapes, longer, n - 1, m - 1);
        } else {
            lemma_address_of(shapes, longer, n, m - 1);
        }
        assert(1 <= shape_length(shapes[m - 1]));
    }
}

/// The index of the first instruction that carries the label, or the
/// number of instructions if none does.
fn find_label(instructions: &Vec<InstructionNode>, label: &String) -> (found: usize)
    ensures
        found == label_index(
            Seq::new(instructions@.len(), |i: int| instructions@[i]@),
            label@,
            0,
        ),
        found <= instructions@.len(),
{
    let ghost views = Seq::new(instructions@.len(), |i: int| instructions@[i]@);
    let n = instructions.len();
    let mut i: usize = 0;
    while i < n
        invariant
            i <= n,
            n == instructions@.len(),
            views == Seq::new(instructions@.len(), |i: int| instructions@[i]@),
            label_index(views, label@, 0) == label_index(views, label@, i as int),
        decreases n - i,
    {
        assert(views[i as int] == instructions@[i as int]@);
        let carries = match &instructions[i].label {
            Some(l) => *l == *label,
            None => false,
        };
        if carries {
            return i;
        }
        i += 1;
    }
    n
}

/// Whether a value fits `width` bytes as a signed number.
fn check_fits(value: i64, width: usize) -> (b: bool)
    ensures
        b == fits(value as int, width as int),
{
    if width == 1 {
        -0x80 <= value && value < 0x80
    } else if width == 2 {
        -0x8000 <= value && value < 0x8000
    } else {
        -0x8000_0000 <= value && value < 0x8000_0000
    }
}

/// Appends a value in `width` bytes, most significant first.
fn push_value(code: &mut Vec<u8>, value: i64, width: usize)
    requires
        fits(value as int, width as int),
    ensures
        final(code)@ == old(code)@ + value_bytes(value as int, width as int),
{
    let ghost start = code@;
    let word: i64 = if value < 0 {
        value + 0x1_0000_0000
    } else {
        value
    };
    if width == 1 {
        code.push((word % 0x100) as u8);
    } else if width == 2 {
        code.push(((word / 0x100) % 0x100) as u8);
        code.push((word % 0x100) as u8);
    } else {
        code.push(((word / 0x100_0000) % 0x100) as u8);
        code.push(((word / 0x1_0000) % 0x100) as u8);
        code.push(((word / 0x100) % 0x100) as u8);
        code.push((word % 0x100) as u8);
    }
    assert(code@ =~= start + value_bytes(value as int, width as int));
}

/// The encoder.
#[derive(Debug, Clone, Copy, PartialEq, Eq, Structural)]
pub struct Encoder {
}

impl Encoder {
    /// An encoder.
    pub fn new() -> (encoder: Self)
        ensures
            encoder == (Encoder {  }),
    {
        Encoder {  }
    }

    /// The value of operand `k` of instruction `i`.
    fn operand(
        instructions: &Vec<InstructionNode>,
        resolved: &Vec<Resolved>,
        i: usize,
        k: usize,
    ) -> (r: Result<i64, CoreWarError>)
        requires
            i < instructions@.len(),
            instructions@.len() == resolved@.len(),
            k < resolved@[i as int].modes@.len(),
            resolved@[i as int].modes@.len() == instructions@[i as int].parameters@.len(),
            forall|j: int|
                0 <= j < resolved@.len() ==> (#[trigger] resolved@[j]).address == address_of(
                    shapes_view(resolved@),
                    j,
                ) && resolved@[j].address <= MEMORY_SIZE,
        ensures
            match operand_value(
                Seq::new(instructions@.len(), |i: int| instructions@[i]@),
                shapes_view(resolved@),
                i as int,
                k as int,
            ) {
                Ok(value) => r == Ok::<i64, CoreWarError>(value as i64) && fits(
                    value,
                    resolved@[i as int].instruction.operand_width(resolved@[i as int].modes@[k as int]),
                ),
                Err(fault) => r matches Err(e) && reports(e, fault),
            },
    {
        let ghost views = Seq::new(instructions@.len(), |i: int| instructions@[i]@);
        let ghost shapes = shapes_view(resolved@);
        let node = &instructions[i];
        let line = node.line_number;
        let shape = &resolved[i];
        let mode = shape.modes[k];
        let width = shape.instruction.parameter_size(mode);
        let text = &node.parameters[k].value;
        proof {
            assert(views[i as int] == node@);
            assert(node@.parameters[k as int] == node.parameters@[k as int]@);
            assert(shapes[i as int] == shape.shape());
        }
        match mode {
            ParameterType::Register => match read_register(text.as_str()) {
                None => Err(fault_error(FaultKind::BadOperand, line)),
                Some(r) => {
                    if 1 <= r && r <= 16 {
                        Ok(r)
                    } else {
                        Err(fault_error(FaultKind::OutOfRange, line))
                    }
                },
            },
            ParameterType::Label => {
                let target = find_label(instructions, text);
                if target >= instructions.len() {
                    Err(fault_error(FaultKind::UnknownLabel, line))
                } else {
                    let distance = resolved[target].address as i64 - shape.address as i64;
                    if check_fits(distance, width) {
                        Ok(distance)
                    } else {
                        Err(fault_error(FaultKind::OutOfRange, line))
                    }
                }
            },
            _ => match read_number(text.as_str()) {
                None => Err(fault_error(FaultKind::BadOperand, line)),
                Some(v) => {
                    if check_fits(v, width) {
                        Ok(v)
                    } else {
                        Err(fault_error(FaultKind::OutOfRange, line))
                    }
                },
            },
        }
    }

    /// Appends the encoding of instruction `i`.
    fn push_instruction(
        code: &mut Vec<u8>,
        instructions: &Vec<InstructionNode>,
        resolved: &Vec<Resolved>,
        i: usize,
    ) -> (r: Result<(), CoreWarError>)
        requires
            i < instructions@.len(),
            instructions@.len() == resolved@.len(),
            resolved@[i as int].modes@.len() == instructions@[i as int].parameters@.len(),
            resolved@[i as int].modes@.len() <= 3,
            forall|j: int|
                0 <= j < resolved@.len() ==> (#[trigger] resolved@[j]).address == address_of(
                    shapes_view(resolved@),
                    j,
                ) && resolved@[j].address <= MEMORY_SIZE,
        ensures
            match instruction_bytes(
                Seq::new(instructions@.len(), |i: int| instructions@[i]@),
                shapes_view(resolved@),
                i as int,
            ) {
                Ok(bytes) => r is Ok && final(code)@ == old(code)@ + bytes,
                Err(fault) => r matches Err(e) && reports(e, fault),
            },
    {
        let ghost views = Seq::new(instructions@.len(), |i: int| instructions@[i]@);
        let ghost shapes = shapes_view(resolved@);
        let ghost start = code@;
        let shape = &resolved[i];
        assert(shapes[i as int] == shape.shape());
        let n = shape.modes.len();
        code.push(shape.instruction.opcode());
        if shape.instruction.takes_type_byte() {
            let c0: u8 = if n > 0 {
                shape.modes[0].type_code()
            } else {
                0
            };
            let c1: u8 = if n > 1 {
                shape.modes[1].type_code()
            } else {
                0
            };
            let c2: u8 = if n > 2 {
                shape.modes[2].type_code()
            } else {
                0
            };
            code.push(c0 * 64 + c1 * 16 + c2 * 4);
        }
        let ghost head = code@;
        let mut k: usize = 0;
        while k < n
            invariant
                k <= n,
                n == shape.modes@.len(),
                i < instructions@.len(),
                instructions@.len() == resolved@.len(),
                *shape == resolved@[i as int],
                shape.modes@.len() == instructions@[i as int].parameters@.len(),
                forall|j: int|
                    0 <= j < resolved@.len() ==> (#[trigger] resolved@[j]).address == address_of(
                        shapes_view(resolved@),
                        j,
                    ) && resolved@[j].address <= MEMORY_SIZE,
                views == Seq::new(instructions@.len(), |i: int| instructions@[i]@),
                shapes == shapes_view(resolved@),
                operands_bytes(views, shapes, i as int, k as int) matches Ok(bytes) && code@
                    == head + bytes,
            decreases n - k,
        {
            let ghost before = operands_bytes(views, shapes, i as int, k as int)->Ok_0;
            let value = match Encoder::operand(instructions, resolved, i, k) {
                Ok(v) => v,
                Err(e) => {
                    proof {
                        lemma_operands_fault(views, shapes, i as int, k as int + 1, n as int);
                    }
                    return Err(e);
                },
            };
            let width = shape.instruction.parameter_size(shape.modes[k]);
            push_value(code, value, width);
            proof {
                assert(code@ =~= head + (before + value_bytes(value as int, width as int)));
            }
            k += 1;
        }
        proof {
            let bytes = operands_bytes(views, shapes, i as int, n as int)->Ok_0;
            assert(code@ =~= start + (head.subrange(start.len() as int, head.len() as int)
                + bytes));
            assert(head.subrange(start.len() as int, head.len() as int) =~= if shape.instruction.has_type_byte() {
                seq![shape.instruction.spec_opcode(), type_byte_of(shape.shape())]
            } else {
                seq![shape.instruction.spec_opcode()]
            });
        }
        Ok(())
    }

    /// The bytes of the champion file that a syntax tree stands for.
    pub fn encode(&mut self, ast: &AstNode) -> (r: Result<Vec<u8>, CoreWarError>)
        ensures
            match encode_tree(ast@) {
                Ok(bytes) => r matches Ok(file) && file@ == bytes,
                Err(fault) => r matches Err(e) && reports(e, fault),
            },
    {
        let ghost views = ast@.instructions;
        let n = ast.instructions.len();
        let mut resolved: Vec<Resolved> = Vec::new();
        let mut total: usize = 0;
        let mut i: usize = 0;
        assert(shapes_view(resolved@) =~= Seq::<Shape>::empty());
        while i < n
            invariant
                i <= n,
                n == ast.instructions@.len(),
                views == ast@.instructions,
                views.len() == n,
                resolved@.len() == i,
                shapes_of(views, i as int) == Ok::<Seq<Shape>, EncodeFault>(shapes_view(resolved@)),
                total == capped(address_of(shapes_view(resolved@), i as int)),
                forall|j: int|
                    0 <= j < i ==> 1 <= shape_length(#[trigger] shapes_view(resolved@)[j]) <= 14,
                forall|j: int|
                    0 <= j < i ==> (#[trigger] resolved@[j]).address == capped(
                        address_of(shapes_view(resolved@), j),
                    ),
                forall|j: int|
                    0 <= j < i ==> (#[trigger] resolved@[j]).modes@.len()
                        == ast.instructions@[j].parameters@.len() && resolved@[j].modes@.len()
                        <= 3,
            decreases n - i,
        {
            let ghost before = shapes_view(resolved@);
            assert(views[i as int] == ast.instructions@[i as int]@);
            let shape = match resolve(&ast.instructions[i], total) {
                Ok(s) => s,
                Err(e) => {
                    proof {
                        lemma_shapes_fault(views, i as int + 1, n as int);
                    }
                    return Err(e);
                },
            };
            let mut length: usize = 1;
            if shape.instruction.takes_type_byte() {
                length += 1;
            }
            let mut k: usize = 0;
            while k < shape.modes.len()
                invariant
                    k <= shape.modes@.len(),
                    shape.modes@.len() <= 3,
                    length == 1 + (if shape.instruction.has_type_byte() {
                        1int
                    } else {
                        0int
                    }) + operands_length(shape.shape(), k as int),
                    length <= 2 + 4 * k,
                decreases shape.modes@.len() - k,
            {
                length += shape.instruction.parameter_size(shape.modes[k]);
                k += 1;
            }
            let ghost one = shape.shape();
            resolved.push(shape);
            proof {
                let after = shapes_view(resolved@);
                assert(after =~= before.push(one));
                lemma_address_of(before, after, i as int, i as int);
                assert forall|j: int| 0 <= j < i + 1 implies (#[trigger] resolved@[j]).address
                    == capped(address_of(after, j)) by {
                    lemma_address_of(before, after, j, i as int);
                }
                assert(address_of(after, i + 1) == address_of(after, i as int) + shape_length(one));
            }
            if total <= MEMORY_SIZE {
                total += length;
                if total > MEMORY_SIZE {
                    total = MEMORY_SIZE + 1;
                }
            }
            i += 1;
        }
        let ghost shapes = shapes_view(resolved@);
        if total > MEMORY_SIZE {
            return Err(fault_error(FaultKind::TooLarge, 0));
        }
        proof {
            assert forall|j: int| 0 <= j < resolved@.len() implies (#[trigger] resolved@[j]).address
                == address_of(shapes, j) && resolved@[j].address <= MEMORY_SIZE by {
                lemma_address_of(shapes, shapes, j, n as int);
            }
        }
        let mut code: Vec<u8> = Vec::new();
        let mut i: usize = 0;
        while i < n
            invariant
                i <= n,
                n == ast.instructions@.len(),
                n == resolved@.len(),
                views == ast@.instructions,
                views == Seq::new(ast.instructions@.len(), |i: int| ast.instructions@[i]@),
                shapes == shapes_view(resolved@),
                shapes_of(views, n as int) == Ok::<Seq<Shape>, EncodeFault>(shapes),
                address_of(shapes, n as int) <= MEMORY_SIZE,
                forall|j: int|
                    0 <= j < n ==> (#[trigger] resolved@[j]).address == address_of(shapes, j)
                        && resolved@[j].address <= MEMORY_SIZE,
                forall|j: int|
                    0 <= j < n ==> (#[trigger] resolved@[j]).modes@.len()
                        == ast.instructions@[j].parameters@.len() && resolved@[j].modes@.len()
                        <= 3,
                code_of(views, shapes, i as int) == Ok::<Seq<u8>, EncodeFault>(code@),
            decreases n - i,
        {
            match Encoder::push_instruction(&mut code, &ast.instructions, &resolved, i) {
                Ok(()) => {},
                Err(e) => {
                    proof {
                        lemma_code_fault(views, shapes, i as int + 1, n as int);
                    }
                    return Err(e);
                },
            }
            i += 1;
        }
        match encode_champion(ast.header.name.as_str(), ast.header.comment.as_str(), code.as_slice()) {
            Ok(file) => Ok(file),
            Err(_) => Err(fault_error(FaultKind::BadField, 0)),
        }
    }
}

impl Default for Encoder {
    fn default() -> (encoder: Self)
        ensures
            encoder == (Encoder {  }),
    {
        Encoder::new()
    }
}

/// Where an instruction cannot be resolved, the instructions up to it and
/// beyond cannot be resolved, for the same reason.
proof fn lemma_shapes_fault(instructions: Seq<InstructionView>, k: int, n: int)
    requires
        0 < k <= n,
        shapes_of(instructions, k - 1) is Ok,
        shape_of(instructions[k - 1]) is Err,
    ensures
        shapes_of(instructions, n) == Err::<Seq<Shape>, EncodeFault>(
            shape_of(instructions[k - 1])->Err_0,
        ),
    decreases n - k,
{
    if k < n {
        lemma_shapes_fault(instructions, k, n - 1);
    }
}

/// Where an operand has no value, the operands up to it and beyond have no
/// bytes, for the same reason.
proof fn lemma_operands_fault(
    instructions: Seq<InstructionView>,
    shapes: Seq<Shape>,
    i: int,
    k: int,
    n: int,
)
    requires
        0 < k <= n,
        operands_bytes(instructions, shapes, i, k - 1) is Ok,
        operand_value(instructions, shapes, i, k - 1) is Err,
    ensures
        operands_bytes(instructions, shapes, i, n) == Err::<Seq<u8>, EncodeFault>(
            operand_value(instructions, shapes, i, k - 1)->Err_0,
        ),
    decreases n - k,
{
    if k < n {
        lemma_operands_fault(instructions, shapes, i, k, n - 1);
    }
}

/// Where an instruction cannot be encoded, the instructions up to it and
/// beyond have no code, for the same reason.
proof fn lemma_code_fault(instructions: Seq<InstructionView>, shapes: Seq<Shape>, k: int, n: int)
    requires
        0 < k <= n,
        code_of(instructions, shapes, k - 1) is Ok,
        instruction_bytes(instructions, shapes, k - 1) is Err,
    ensures
        code_of(instructions, shapes, n) == Err::<Seq<u8>, EncodeFault>(
            instruction_bytes(instructions, shapes, k - 1)->Err_0,
        ),
    decreases n - k,
{
    if k < n {
        lemma_code_fault(instructions, shapes, k, n - 1);
    }
}

} // verus!
