//! The instruction set: sixteen opcodes, their arity, their cost in cycles,
//! and the addressing modes that each operand may have.

use vstd::prelude::*;
use crate::error::CoreWarError;
use crate::text::{decimal, decimal_text};

verus! {

/// The sixteen instructions.
#[derive(Debug, Clone, Copy, PartialEq, Eq, Structural)]
pub enum Instruction {
    /// Declare the process alive: opcode 0x01.
    Live,
    /// Load a value into a register: opcode 0x02.
    Ld,
    /// Store a register into a register or into memory: opcode 0x03.
    St,
    /// Add two registers: opcode 0x04.
    Add,
    /// Subtract two registers: opcode 0x05.
    Sub,
    /// Bitwise and: opcode 0x06.
    And,
    /// Bitwise or: opcode 0x07.
    Or,
    /// Bitwise exclusive or: opcode 0x08.
    Xor,
    /// Jump if the carry flag is set: opcode 0x09.
    Zjmp,
    /// Load from the sum of two operands: opcode 0x0A.
    Ldi,
    /// Store at the sum of two operands: opcode 0x0B.
    Sti,
    /// Create a process nearby: opcode 0x0C.
    Fork,
    /// Load without the short index: opcode 0x0D.
    Lld,
    /// Load from the sum of two operands without the short index: opcode 0x0E.
    Lldi,
    /// Create a process anywhere: opcode 0x0F.
    Lfork,
    /// Emit a character: opcode 0x10.
    Aff,
}

/// The addressing modes of an operand.
#[derive(Debug, Clone, Copy, PartialEq, Eq, Structural)]
pub enum ParameterType {
    /// A register, r1 to r16.
    Register,
    /// An immediate value.
    Direct,
    /// An offset from the program counter at which the value lies.
    Indirect,
    /// A symbolic reference, encoded as a direct value.
    Label,
}

/// The instruction with a given opcode, if there is one.
pub open spec fn instruction_of(opcode: u8) -> Option<Instruction> {
    if opcode == 0x01 {
        Some(Instruction::Live)
    } else if opcode == 0x02 {
        Some(Instruction::Ld)
    } else if opcode == 0x03 {
        Some(Instruction::St)
    } else if opcode == 0x04 {
        Some(Instruction::Add)
    } else if opcode == 0x05 {
        Some(Instruction::Sub)
    } else if opcode == 0x06 {
        Some(Instruction::And)
    } else if opcode == 0x07 {
        Some(Instruction::Or)
    } else if opcode == 0x08 {
        Some(Instruction::Xor)
    } else if opcode == 0x09 {
        Some(Instruction::Zjmp)
    } else if opcode == 0x0A {
        Some(Instruction::Ldi)
    } else if opcode == 0x0B {
        Some(Instruction::Sti)
    } else if opcode == 0x0C {
        Some(Instruction::Fork)
    } else if opcode == 0x0D {
        Some(Instruction::Lld)
    } else if opcode == 0x0E {
        Some(Instruction::Lldi)
    } else if opcode == 0x0F {
        Some(Instruction::Lfork)
    } else if opcode == 0x10 {
        Some(Instruction::Aff)
    } else {
        None
    }
}

impl Instruction {
    /// The opcode byte.
    pub open spec fn spec_opcode(self) -> u8 {
        match self {
            Instruction::Live => 0x01,
            Instruction::Ld => 0x02,
            Instruction::St => 0x03,
            Instruction::Add => 0x04,
            Instruction::Sub => 0x05,
            Instruction::And => 0x06,
            Instruction::Or => 0x07,
            Instruction::Xor => 0x08,
            Instruction::Zjmp => 0x09,
            Instruction::Ldi => 0x0A,
            Instruction::Sti => 0x0B,
            Instruction::Fork => 0x0C,
            Instruction::Lld => 0x0D,
            Instruction::Lldi => 0x0E,
            Instruction::Lfork => 0x0F,
            Instruction::Aff => 0x10,
        }
    }

    /// The number of operands.
    pub open spec fn arity(self) -> int {
        match self {
            Instruction::Live | Instruction::Zjmp | Instruction::Fork | Instruction::Lfork
            | Instruction::Aff => 1,
            Instruction::Ld | Instruction::St | Instruction::Lld => 2,
            _ => 3,
        }
    }

    /// The number of cycles between decoding and committing.
    pub open spec fn cost(self) -> int {
        match self {
            Instruction::Live => 10,
            Instruction::Ld => 5,
            Instruction::St => 5,
            Instruction::Add => 10,
            Instruction::Sub => 10,
            Instruction::And => 6,
            Instruction::Or => 6,
            Instruction::Xor => 6,
            Instruction::Zjmp => 20,
            Instruction::Ldi => 25,
            Instruction::Sti => 25,
            Instruction::Fork => 800,
            Instruction::Lld => 10,
            Instruction::Lldi => 50,
            Instruction::Lfork => 1000,
            Instruction::Aff => 2,
        }
    }

    /// The mnemonic.
    pub open spec fn mnemonic(self) -> Seq<char> {
        match self {
            Instruction::Live => "live"@,
            Instruction::Ld => "ld"@,
            Instruction::St => "st"@,
            Instruction::Add => "add"@,
            Instruction::Sub => "sub"@,
            Instruction::And => "and"@,
            Instruction::Or => "or"@,
            Instruction::Xor => "xor"@,
            Instruction::Zjmp => "zjmp"@,
            Instruction::Ldi => "ldi"@,
            Instruction::Sti => "sti"@,
            Instruction::Fork => "fork"@,
            Instruction::Lld => "lld"@,
            Instruction::Lldi => "lldi"@,
            Instruction::Lfork => "lfork"@,
            Instruction::Aff => "aff"@,
        }
    }

    /// Whether the instruction sets the carry flag from its result.
    pub open spec fn affects_carry(self) -> bool {
        match self {
            Instruction::Ld | Instruction::Add | Instruction::Sub | Instruction::And
            | Instruction::Or | Instruction::Xor | Instruction::Ldi | Instruction::Lld
            | Instruction::Lldi => true,
            _ => false,
        }
    }

    /// Whether offsets are taken whole, without the short index.
    pub open spec fn is_long(self) -> bool {
        self == Instruction::Lld || self == Instruction::Lldi || self == Instruction::Lfork
    }

    /// Whether the encoding holds a byte of operand types after the opcode:
    /// it does when there is more than one operand.
    pub open spec fn has_type_byte(self) -> bool {
        self.arity() > 1
    }

    /// The width in bytes of a direct operand: two for the jumps and forks,
    /// four elsewhere.
    pub open spec fn direct_width(self) -> int {
        if self == Instruction::Zjmp || self == Instruction::Fork || self == Instruction::Lfork {
            2
        } else {
            4
        }
    }

    /// The width in bytes of an operand of the given mode.
    pub open spec fn operand_width(self, mode: ParameterType) -> int {
        match mode {
            ParameterType::Register => 1,
            ParameterType::Indirect => 2,
            ParameterType::Direct | ParameterType::Label => self.direct_width(),
        }
    }

    /// Whether operand `index` (from zero) may have the given mode.
    pub open spec fn allows(self, index: int, mode: ParameterType) -> bool {
        let reg = mode == ParameterType::Register;
        let dir = mode == ParameterType::Direct;
        let ind = mode == ParameterType::Indirect;
        match self {
            Instruction::Live | Instruction::Zjmp | Instruction::Fork | Instruction::Lfork => index
                == 0 && dir,
            Instruction::Aff => index == 0 && reg,
            Instruction::Ld | Instruction::Lld => (index == 0 && (dir || ind)) || (index == 1
                && reg),
            Instruction::St => (index == 0 && reg) || (index == 1 && (ind || reg)),
            Instruction::Add | Instruction::Sub => 0 <= index < 3 && reg,
            Instruction::And | Instruction::Or | Instruction::Xor => ((index == 0 || index == 1)
                && (dir || ind || reg)) || (index == 2 && reg),
            Instruction::Ldi | Instruction::Lldi => (index == 0 && (dir || ind || reg)) || (index
                == 1 && (dir || reg)) || (index == 2 && reg),
            Instruction::Sti => (index == 0 && reg) || (index == 1 && (dir || ind || reg)) || (
            index == 2 && (dir || reg)),
        }
    }

    /// The instruction with the given opcode; any byte outside 0x01 to 0x10
    /// is refused.
    pub fn from_opcode(opcode: u8) -> (r: Result<Instruction, CoreWarError>)
        ensures
            instruction_of(opcode) matches Some(i) ==> r == Ok::<Instruction, CoreWarError>(i),
            instruction_of(opcode) is None ==> r == Err::<Instruction, CoreWarError>(
                CoreWarError::InvalidOpcode { opcode },
            ),
    {
        match opcode {
            0x01 => Ok(Instruction::Live),
            0x02 => Ok(Instruction::Ld),
            0x03 => Ok(Instruction::St),
            0x04 => Ok(Instruction::Add),
            0x05 => Ok(Instruction::Sub),
            0x06 => Ok(Instruction::And),
            0x07 => Ok(Instruction::Or),
            0x08 => Ok(Instruction::Xor),
            0x09 => Ok(Instruction::Zjmp),
            0x0A => Ok(Instruction::Ldi),
            0x0B => Ok(Instruction::Sti),
            0x0C => Ok(Instruction::Fork),
            0x0D => Ok(Instruction::Lld),
            0x0E => Ok(Instruction::Lldi),
            0x0F => Ok(Instruction::Lfork),
            0x10 => Ok(Instruction::Aff),
            _ => Err(CoreWarError::InvalidOpcode { opcode }),
        }
    }

    /// The opcode byte of this instruction.
    pub fn opcode(&self) -> (b: u8)
        ensures
            b == self.spec_opcode(),
            instruction_of(b) == Some(*self),
    {
        match self {
            Instruction::Live => 0x01,
            Instruction::Ld => 0x02,
            Instruction::St => 0x03,
            Instruction::Add => 0x04,
            Instruction::Sub => 0x05,
            Instruction::And => 0x06,
            Instruction::Or => 0x07,
            Instruction::Xor => 0x08,
            Instruction::Zjmp => 0x09,
            Instruction::Ldi => 0x0A,
            Instruction::Sti => 0x0B,
            Instruction::Fork => 0x0C,
            Instruction::Lld => 0x0D,
            Instruction::Lldi => 0x0E,
            Instruction::Lfork => 0x0F,
            Instruction::Aff => 0x10,
        }
    }

    /// The number of operands this instruction takes.
    pub fn parameter_count(&self) -> (n: usize)
        ensures
            n == self.arity(),
            1 <= n <= 3,
    {
        match self {
            Instruction::Live => 1,
            Instruction::Ld => 2,
            Instruction::St => 2,
            Instruction::Add => 3,
            Instruction::Sub => 3,
            Instruction::And => 3,
            Instruction::Or => 3,
            Instruction::Xor => 3,
            Instruction::Zjmp => 1,
            Instruction::Ldi => 3,
            Instruction::Sti => 3,
            Instruction::Fork => 1,
            Instruction::Lld => 2,
            Instruction::Lldi => 3,
            Instruction::Lfork => 1,
            Instruction::Aff => 1,
        }
    }

    /// The number of cycles this instruction takes.
    pub fn cycles(&self) -> (n: u32)
        ensures
            n == self.cost(),
            1 <= n <= 1000,
    {
        match self {
            Instruction::Live => 10,
            Instruction::Ld => 5,
            Instruction::St => 5,
            Instruction::Add => 10,
            Instruction::Sub => 10,
            Instruction::And => 6,
            Instruction::Or => 6,
            Instruction::Xor => 6,
            Instruction::Zjmp => 20,
            Instruction::Ldi => 25,
            Instruction::Sti => 25,
            Instruction::Fork => 800,
            Instruction::Lld => 10,
            Instruction::Lldi => 50,
            Instruction::Lfork => 1000,
            Instruction::Aff => 2,
        }
    }

    /// The mnemonic of this instruction.
    pub fn name(&self) -> (s: &'static str)
        ensures
            s@ == self.mnemonic(),
    {
        match self {
            Instruction::Live => "live",
            Instruction::Ld => "ld",
            Instruction::St => "st",
            Instruction::Add => "add",
            Instruction::Sub => "sub",
            Instruction::And => "and",
            Instruction::Or => "or",
            Instruction::Xor => "xor",
            Instruction::Zjmp => "zjmp",
            Instruction::Ldi => "ldi",
            Instruction::Sti => "sti",
            Instruction::Fork => "fork",
            Instruction::Lld => "lld",
            Instruction::Lldi => "lldi",
            Instruction::Lfork => "lfork",
            Instruction::Aff => "aff",
        }
    }

    /// Whether this instruction sets the carry flag.
    pub fn sets_carry(&self) -> (b: bool)
        ensures
            b == self.affects_carry(),
    {
        match self {
            Instruction::Ld
            | Instruction::Lld
            | Instruction::Ldi
            | Instruction::Lldi
            | Instruction::And
            | Instruction::Or
            | Instruction::Xor
            | Instruction::Add
            | Instruction::Sub => true,
            _ => false,
        }
    }

    /// Whether this instruction takes its offsets whole.
    pub fn uses_long_addressing(&self) -> (b: bool)
        ensures
            b == self.is_long(),
    {
        match self {
            Instruction::Lld | Instruction::Lldi | Instruction::Lfork => true,
            _ => false,
        }
    }

    /// Whether a byte of operand types follows the opcode.
    pub fn takes_type_byte(&self) -> (b: bool)
        ensures
            b == self.has_type_byte(),
    {
        self.parameter_count() > 1
    }

    /// The width in bytes of an operand of the given mode.
    pub fn parameter_size(&self, mode: ParameterType) -> (n: usize)
        ensures
            n == self.operand_width(mode),
            n == 1 || n == 2 || n == 4,
    {
        match mode {
            ParameterType::Register => 1,
            ParameterType::Indirect => 2,
            _ => match self {
                Instruction::Zjmp | Instruction::Fork | Instruction::Lfork => 2,
                _ => 4,
            },
        }
    }

    /// Whether operand `index` (from zero) may have the given mode.
    pub fn accepts(&self, index: usize, mode: ParameterType) -> (b: bool)
        ensures
            b == self.allows(index as int, mode),
    {
        let reg = mode == ParameterType::Register;
        let dir = mode == ParameterType::Direct;
        let ind = mode == ParameterType::Indirect;
        match self {
            Instruction::Live | Instruction::Zjmp | Instruction::Fork | Instruction::Lfork => index
                == 0 && dir,
            Instruction::Aff => index == 0 && reg,
            Instruction::Ld | Instruction::Lld => if index == 0 {
                dir || ind
            } else {
                index == 1 && reg
            },
            Instruction::St => if index == 0 {
                reg
            } else {
                index == 1 && (ind || reg)
            },
            Instruction::Add | Instruction::Sub => index < 3 && reg,
            Instruction::And | Instruction::Or | Instruction::Xor => if index < 2 {
                dir || ind || reg
            } else {
                index == 2 && reg
            },
            Instruction::Ldi | Instruction::Lldi => if index == 0 {
                dir || ind || reg
            } else if index == 1 {
                dir || reg
            } else {
                index == 2 && reg
            },
            Instruction::Sti => if index == 0 {
                reg
            } else if index == 1 {
                dir || ind || reg
            } else {
                index == 2 && (dir || reg)
            },
        }
    }
}

/// The mode that a two-bit type code stands for, if it stands for one.
pub open spec fn mode_of_code(code: int) -> Option<ParameterType> {
    if code == 1 {
        Some(ParameterType::Register)
    } else if code == 2 {
        Some(ParameterType::Direct)
    } else if code == 3 {
        Some(ParameterType::Indirect)
    } else {
        None
    }
}

impl ParameterType {
    /// The two-bit code of a mode; a label is encoded as a direct value.
    pub open spec fn code(self) -> u8 {
        match self {
            ParameterType::Register => 1,
            ParameterType::Direct => 2,
            ParameterType::Indirect => 3,
            ParameterType::Label => 2,
        }
    }

    /// The width in bytes of an operand in its short form.
    pub open spec fn short_width(self) -> int {
        match self {
            ParameterType::Register => 1,
            _ => 2,
        }
    }

    /// The name of a mode in messages.
    pub open spec fn mode_name(self) -> Seq<char> {
        match self {
            ParameterType::Register => "register"@,
            ParameterType::Direct => "direct"@,
            ParameterType::Indirect => "indirect"@,
            ParameterType::Label => "label"@,
        }
    }

    /// The mode for the low two bits of `type_code`. The code zero stands
    /// for no mode; it is read as direct.
    pub fn from_type_code(type_code: u8) -> (m: Self)
        ensures
            m == match mode_of_code(type_code as int % 4) {
                Some(mode) => mode,
                None => ParameterType::Direct,
            },
    {
        match type_code % 4 {
            1 => ParameterType::Register,
            2 => ParameterType::Direct,
            3 => ParameterType::Indirect,
            _ => ParameterType::Direct,
        }
    }

    /// The mode for the low two bits of `type_code`, or nothing for the code
    /// zero.
    pub fn try_from_type_code(type_code: u8) -> (m: Option<Self>)
        ensures
            m == mode_of_code(type_code as int % 4),
    {
        match type_code % 4 {
            1 => Some(ParameterType::Register),
            2 => Some(ParameterType::Direct),
            3 => Some(ParameterType::Indirect),
            _ => None,
        }
    }

    /// The two-bit code of this mode.
    pub fn type_code(&self) -> (c: u8)
        ensures
            c == self.code(),
            mode_of_code(c as int) is Some,
            *self != ParameterType::Label ==> mode_of_code(c as int) == Some(*self),
    {
        match self {
            ParameterType::Register => 1,
            ParameterType::Direct => 2,
            ParameterType::Indirect => 3,
            ParameterType::Label => 2,
        }
    }

    /// The width in bytes of an operand of this mode in its short form: one
    /// for a register, two for the others. A direct operand is wider in most
    /// instructions: see [`Instruction::parameter_size`].
    pub fn size(&self) -> (n: usize)
        ensures
            n == self.short_width(),
    {
        match self {
            ParameterType::Register => 1,
            ParameterType::Direct => 2,
            ParameterType::Indirect => 2,
            ParameterType::Label => 2,
        }
    }

    /// The name of this mode in messages.
    pub fn describe(&self) -> (s: &'static str)
        ensures
            s@ == self.mode_name(),
    {
        match self {
            ParameterType::Register => "register",
            ParameterType::Direct => "direct",
            ParameterType::Indirect => "indirect",
            ParameterType::Label => "label",
        }
    }
}

/// An operand: a mode and a value.
#[derive(Debug, Clone, Copy, PartialEq, Eq, Structural)]
pub struct Parameter {
    /// The addressing mode.
    pub param_type: ParameterType,
    /// The register number, the immediate value or the offset.
    pub value: i32,
}

impl Parameter {
    /// An operand of the given mode and value.
    pub fn new(param_type: ParameterType, value: i32) -> (p: Self)
        ensures
            p == (Parameter { param_type, value }),
    {
        Parameter { param_type, value }
    }

    /// The register with the given number.
    pub fn register(register: u8) -> (p: Self)
        ensures
            p == (Parameter { param_type: ParameterType::Register, value: register as i32 }),
    {
        Parameter::new(ParameterType::Register, register as i32)
    }

    /// The immediate value.
    pub fn direct(value: i32) -> (p: Self)
        ensures
            p == (Parameter { param_type: ParameterType::Direct, value }),
    {
        Parameter::new(ParameterType::Direct, value)
    }

    /// The value at an offset from the program counter.
    pub fn indirect(address: i32) -> (p: Self)
        ensures
            p == (Parameter { param_type: ParameterType::Indirect, value: address }),
    {
        Parameter::new(ParameterType::Indirect, address)
    }

    /// A label that stands at the given offset.
    pub fn label(offset: i32) -> (p: Self)
        ensures
            p == (Parameter { param_type: ParameterType::Label, value: offset }),
    {
        Parameter::new(ParameterType::Label, offset)
    }

    /// The text of an operand: `r3`, `%42`, `-7` or `:12`.
    pub open spec fn text(self) -> Seq<char> {
        match self.param_type {
            ParameterType::Register => seq!['r'] + decimal_text(self.value as int),
            ParameterType::Direct => seq!['%'] + decimal_text(self.value as int),
            ParameterType::Indirect => decimal_text(self.value as int),
            ParameterType::Label => seq![':'] + decimal_text(self.value as int),
        }
    }
}

/// An instruction as the decoder reads it from memory: the instruction, its
/// operands in three slots, and the number of bytes it takes. A slot beyond
/// the instruction's arity holds [`DecodedInstruction::filler`].
#[derive(Debug, Clone, Copy, PartialEq, Eq, Structural)]
pub struct DecodedInstruction {
    /// The instruction.
    pub instruction: Instruction,
    /// The first operand.
    pub first: Parameter,
    /// The second operand, if the instruction has one.
    pub second: Parameter,
    /// The third operand, if the instruction has one.
    pub third: Parameter,
    /// The length of the encoding in bytes.
    pub length: usize,
}

impl DecodedInstruction {
    /// What an unused operand slot holds.
    pub open spec fn filler() -> Parameter {
        Parameter { param_type: ParameterType::Direct, value: 0 }
    }

    /// Operand `index`, from zero.
    pub open spec fn operand(self, index: int) -> Parameter {
        if index == 0 {
            self.first
        } else if index == 1 {
            self.second
        } else {
            self.third
        }
    }

    /// The operands that the instruction takes, in order.
    pub open spec fn operands(self) -> Seq<Parameter> {
        Seq::new(self.instruction.arity() as nat, |k: int| self.operand(k))
    }

    /// Whether slot `index` is in order: within the arity, a mode that the
    /// instruction allows there and, for a register, a number from 1 to 16;
    /// beyond the arity, the filler.
    pub open spec fn slot_ok(self, index: int) -> bool {
        let p = self.operand(index);
        if index < self.instruction.arity() {
            self.instruction.allows(index, p.param_type) && (p.param_type
                == ParameterType::Register ==> 1 <= p.value <= 16)
        } else {
            p == Self::filler()
        }
    }

    /// The width in bytes of slot `index`: nothing beyond the arity.
    pub open spec fn slot_width(self, index: int) -> int {
        if index < self.instruction.arity() {
            self.instruction.operand_width(self.operand(index).param_type)
        } else {
            0
        }
    }

    /// The length in bytes of the encoding: the opcode, the byte of operand
    /// types where there is one, and the operands.
    pub open spec fn size(self) -> int {
        1 + (if self.instruction.has_type_byte() {
            1int
        } else {
            0int
        }) + self.slot_width(0) + self.slot_width(1) + self.slot_width(2)
    }

    /// The three slots are in order and the length is that of the encoding.
    pub open spec fn wf(self) -> bool {
        &&& self.slot_ok(0)
        &&& self.slot_ok(1)
        &&& self.slot_ok(2)
        &&& self.length == self.size()
    }

    /// The operands that the instruction takes, in order.
    pub fn parameters(&self) -> (v: Vec<Parameter>)
        ensures
            v@ == self.operands(),
    {
        let mut v = Vec::new();
        v.push(self.first);
        if self.instruction.parameter_count() > 1 {
            v.push(self.second);
        }
        if self.instruction.parameter_count() > 2 {
            v.push(self.third);
        }
        assert(v@ =~= self.operands());
        v
    }
}

/// The sum of the widths of the first `n` operands of an instruction.
pub open spec fn operands_width(instruction: Instruction, parameters: Seq<Parameter>, n: int) -> int
    decreases n,
{
    if n <= 0 {
        0
    } else {
        operands_width(instruction, parameters, n - 1) + instruction.operand_width(
            parameters[n - 1].param_type,
        )
    }
}

/// Each operand takes between one and four bytes: the widths of the first
/// `i` operands sum to between `i` and `4 * i`, and to no more than those of
/// the first `n`, for `i <= n`.
pub proof fn lemma_operands_width(
    instruction: Instruction,
    parameters: Seq<Parameter>,
    i: int,
    n: int,
)
    requires
        0 <= i <= n,
    ensures
        i <= operands_width(instruction, parameters, i) <= 4 * i,
        operands_width(instruction, parameters, i) + (n - i) <= operands_width(
            instruction,
            parameters,
            n,
        ),
    decreases n,
{
    if n > 0 {
        if i < n {
            lemma_operands_width(instruction, parameters, i, n - 1);
        } else {
            lemma_operands_width(instruction, parameters, i - 1, n - 1);
        }
    }
}

/// The length in bytes of an encoded instruction: the opcode, the byte of
/// operand types where there is one, and the operands.
pub open spec fn encoded_length(instruction: Instruction, parameters: Seq<Parameter>) -> int {
    1 + (if instruction.has_type_byte() {
        1int
    } else {
        0int
    }) + operands_width(instruction, parameters, parameters.len() as int)
}

/// The text of the first `n` operands, the first after a space, the others
/// after a comma and a space.
pub open spec fn operands_text(parameters: Seq<Parameter>, n: int) -> Seq<char>
    decreases n,
{
    if n <= 0 {
        Seq::<char>::empty()
    } else {
        operands_text(parameters, n - 1) + (if n == 1 {
            seq![' ']
        } else {
            seq![',', ' ']
        }) + parameters[n - 1].text()
    }
}

/// The text of an instruction: the mnemonic and the operands.
pub open spec fn instruction_text(instruction: Instruction, parameters: Seq<Parameter>) -> Seq<
    char,
> {
    instruction.mnemonic() + operands_text(parameters, parameters.len() as int)
}

/// The message for an instruction with the wrong number of operands.
pub open spec fn wrong_count_text(instruction: Instruction, got: int) -> Seq<char> {
    "Invalid parameter count for "@ + instruction.mnemonic() + ": expected "@ + decimal_text(
        instruction.arity(),
    ) + ", got "@ + decimal_text(got)
}

/// An instruction with its operands.
#[derive(Debug, Clone)]
pub struct CompleteInstruction {
    /// The instruction.
    pub instruction: Instruction,
    /// Its operands, in order.
    pub parameters: Vec<Parameter>,
}

impl CompleteInstruction {
    /// The number of operands is the one the instruction takes.
    pub open spec fn wf(self) -> bool {
        self.parameters@.len() == self.instruction.arity()
    }

    /// An instruction with its operands; refused unless the number of
    /// operands is the one the instruction takes.
    pub fn new(instruction: Instruction, parameters: Vec<Parameter>) -> (r: Result<
        Self,
        CoreWarError,
    >)
        ensures
            parameters@.len() == instruction.arity() ==> r == Ok::<Self, CoreWarError>(
                CompleteInstruction { instruction, parameters },
            ),
            parameters@.len() != instruction.arity() ==> (r matches Err(
                CoreWarError::Instruction { message },
            ) && message@ == wrong_count_text(instruction, parameters@.len() as int)),
            r matches Ok(c) ==> c.wf(),
    {
        if parameters.len() != instruction.parameter_count() {
            let mut message = String::from_str("Invalid parameter count for ");
            message.append(instruction.name());
            message.append(": expected ");
            message.append(decimal(instruction.parameter_count() as i128).as_str());
            message.append(", got ");
            message.append(decimal(parameters.len() as i128).as_str());
            return Err(CoreWarError::instruction(message));
        }
        Ok(CompleteInstruction { instruction, parameters })
    }

    /// The length in bytes of the encoded instruction, for any list of
    /// operands whose encoding has a length that the machine can count;
    /// between 2 and 14 where the number of operands is the one the
    /// instruction takes.
    pub fn size(&self) -> (n: usize)
        requires
            encoded_length(self.instruction, self.parameters@) <= usize::MAX,
        ensures
            n == encoded_length(self.instruction, self.parameters@),
            self.wf() ==> 2 <= n <= 14,
    {
        let mut total: usize = 1;
        if self.instruction.takes_type_byte() {
            total += 1;
        }
        let count = self.parameters.len();
        let mut i: usize = 0;
        while i < count
            invariant
                i <= count,
                count == self.parameters@.len(),
                encoded_length(self.instruction, self.parameters@) <= usize::MAX,
                total == 1 + (if self.instruction.has_type_byte() {
                    1int
                } else {
                    0int
                }) + operands_width(self.instruction, self.parameters@, i as int),
            decreases count - i,
        {
            proof {
                lemma_operands_width(self.instruction, self.parameters@, i + 1, count as int);
            }
            total += self.instruction.parameter_size(self.parameters[i].param_type);
            i += 1;
        }
        proof {
            lemma_operands_width(self.instruction, self.parameters@, count as int, count as int);
        }
        total
    }

    /// The text of the instruction, as in `ld r1, %42`.
    pub fn to_string(&self) -> (s: String)
        ensures
            s@ == instruction_text(self.instruction, self.parameters@),
    {
        let mut result = String::from_str(self.instruction.name());
        let count = self.parameters.len();
        let mut i: usize = 0;
        while i < count
            invariant
                i <= count,
                count == self.parameters@.len(),
                result@ == self.instruction.mnemonic() + operands_text(self.parameters@, i as int),
            decreases count - i,
        {
            let ghost before = result@;
            let mut piece = String::new();
            if i > 0 {
                piece.append(", ");
            } else {
                piece.append(" ");
            }
            let param = self.parameters[i];
            match param.param_type {
                ParameterType::Register => piece.append("r"),
                ParameterType::Direct => piece.append("%"),
                ParameterType::Indirect => {},
                ParameterType::Label => piece.append(":"),
            }
            piece.append(decimal(param.value as i128).as_str());
            proof {
                reveal_strlit(", ");
                reveal_strlit(" ");
                reveal_strlit("r");
                reveal_strlit("%");
                reveal_strlit(":");
                assert(", "@ =~= seq![',', ' ']);
                assert(" "@ =~= seq![' ']);
                assert("r"@ =~= seq!['r']);
                assert("%"@ =~= seq!['%']);
                assert(":"@ =~= seq![':']);
                assert(piece@ =~= (if i == 0 {
                    seq![' ']
                } else {
                    seq![',', ' ']
                }) + param.text());
            }
            result.append(piece.as_str());
            proof {
                assert(result@ =~= self.instruction.mnemonic() + operands_text(
                    self.parameters@,
                    i + 1,
                ));
            }
            i += 1;
        }
        result
    }
}

} // verus!
