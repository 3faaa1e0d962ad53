use corewar::constants::{IDX_MOD, MEMORY_SIZE};
use corewar::vm::decoder::{decode, decode_window, read_window};
use corewar::vm::executor::{execute, Effect};
use corewar::vm::instruction::{DecodedInstruction, Instruction, Parameter, ParameterType};
use corewar::vm::memory::{half_to_signed, signed_to_word, word_to_signed, Memory};
use corewar::vm::process::Process;
use corewar::{ChampionColor, CoreWarError};

fn memory_with(at: usize, code: &[u8]) -> Memory {
    let mut memory = Memory::new();
    memory.load_code(at, code, 9).unwrap();
    memory
}

fn process_at(pc: usize) -> Process {
    Process::new(1, 3, pc, ChampionColor::Green)
}

/// Decodes what stands at the process's program counter and commits it.
fn run(process: &mut Process, memory: &mut Memory) -> Effect {
    let decoded = decode(memory, process.pc).unwrap();
    execute(process, memory, &decoded)
}

#[test]
fn test_decode_live() {
    let memory = memory_with(10, &[0x01, 0xFF, 0xFF, 0xFF, 0xFE]);
    let d = decode(&memory, 10).unwrap();
    assert_eq!(d.instruction, Instruction::Live);
    assert_eq!(d.first, Parameter::direct(-2));
    assert_eq!(d.second, Parameter::direct(0));
    assert_eq!(d.third, Parameter::direct(0));
    assert_eq!(d.length, 5);
    assert_eq!(d.parameters(), vec![Parameter::direct(-2)]);
}

#[test]
fn test_decode_with_type_byte() {
    // sti r2, 0x0102 (indirect), %-1
    let memory = memory_with(0, &[0x0B, 0b01_11_10_00, 2, 0x01, 0x02, 0xFF, 0xFF, 0xFF, 0xFF]);
    let d = decode(&memory, 0).unwrap();
    assert_eq!(d.instruction, Instruction::Sti);
    assert_eq!(d.first, Parameter::register(2));
    assert_eq!(d.second, Parameter::indirect(0x0102));
    assert_eq!(d.third, Parameter::direct(-1));
    assert_eq!(d.length, 1 + 1 + 1 + 2 + 4);
    assert_eq!(d.parameters().len(), 3);
}

#[test]
fn test_decode_half_word_direct_is_signed() {
    let memory = memory_with(0, &[0x09, 0xFF, 0xFB]);
    let d = decode(&memory, 0).unwrap();
    assert_eq!(d.instruction, Instruction::Zjmp);
    assert_eq!(d.first, Parameter::direct(-5));
    assert_eq!(d.length, 3);
    let memory = memory_with(0, &[0x0C, 0x7F, 0xFF]);
    assert_eq!(decode(&memory, 0).unwrap().first, Parameter::direct(0x7FFF));
    let memory = memory_with(0, &[0x10, 16]);
    let d = decode(&memory, 0).unwrap();
    assert_eq!((d.instruction, d.first, d.length), (Instruction::Aff, Parameter::register(16), 2));
}

#[test]
fn test_decode_round_the_ring() {
    // ld %0x01020304, r5 starting three cells before the end
    let memory = memory_with(MEMORY_SIZE - 3, &[0x02, 0x90, 1, 2, 3, 4, 5]);
    let d = decode(&memory, MEMORY_SIZE - 3).unwrap();
    assert_eq!(d.first, Parameter::direct(0x01020304));
    assert_eq!(d.second, Parameter::register(5));
    assert_eq!(d.length, 7);
    // The program counter itself is taken round the ring.
    assert_eq!(decode(&memory, 2 * MEMORY_SIZE - 3).unwrap(), d);
    let window = read_window(&memory, MEMORY_SIZE - 3);
    assert_eq!(&window[..7], &[0x02, 0x90, 1, 2, 3, 4, 5]);
    assert_eq!(decode_window(&window).unwrap(), d);
}

#[test]
fn test_decode_faults() {
    let memory = Memory::new();
    assert!(matches!(decode(&memory, 0), Err(CoreWarError::InvalidOpcode { opcode: 0 })));
    let memory = memory_with(0, &[0x11]);
    assert!(matches!(decode(&memory, 0), Err(CoreWarError::InvalidOpcode { opcode: 0x11 })));

    // ld with a type code of zero for its first operand
    let memory = memory_with(0, &[0x02, 0b00_01_00_00, 0, 0, 0, 0, 1]);
    match decode(&memory, 0) {
        Err(CoreWarError::InvalidParameterType { instruction, expected, actual }) => {
            assert_eq!(instruction, "ld");
            assert_eq!(expected, "direct or indirect");
            assert_eq!(actual, "none");
        }
        other => panic!("unexpected {:?}", other),
    }
    // ld with a register as its first operand
    let memory = memory_with(0, &[0x02, 0b01_01_00_00, 1, 1]);
    match decode(&memory, 0) {
        Err(CoreWarError::InvalidParameterType { instruction, expected, actual }) => {
            assert_eq!(instruction, "ld");
            assert_eq!(expected, "direct or indirect");
            assert_eq!(actual, "register");
        }
        other => panic!("unexpected {:?}", other),
    }
    // add with a direct third operand: the modes are checked before the registers
    let memory = memory_with(0, &[0x04, 0b01_01_10_00, 99, 1, 0, 0, 0, 1]);
    match decode(&memory, 0) {
        Err(CoreWarError::InvalidParameterType { instruction, expected, actual }) => {
            assert_eq!(instruction, "add");
            assert_eq!(expected, "register");
            assert_eq!(actual, "direct");
        }
        other => panic!("unexpected {:?}", other),
    }
    // sti: what each operand takes
    let memory = memory_with(0, &[0x0B, 0b01_11_11_00, 1, 0, 0, 0, 0]);
    match decode(&memory, 0) {
        Err(CoreWarError::InvalidParameterType { expected, actual, .. }) => {
            assert_eq!(expected, "register or direct");
            assert_eq!(actual, "indirect");
        }
        other => panic!("unexpected {:?}", other),
    }
    let memory = memory_with(0, &[0x0B, 0b10_11_01_00, 1, 0, 0, 0, 0]);
    match decode(&memory, 0) {
        Err(CoreWarError::InvalidParameterType { expected, actual, .. }) => {
            assert_eq!(expected, "register");
            assert_eq!(actual, "direct");
        }
        other => panic!("unexpected {:?}", other),
    }
    // registers outside r1 to r16
    let memory = memory_with(0, &[0x04, 0b01_01_01_00, 1, 17, 0]);
    assert!(matches!(decode(&memory, 0), Err(CoreWarError::InvalidRegister { register: 17 })));
    let memory = memory_with(0, &[0x04, 0b01_01_01_00, 0, 17, 0]);
    assert!(matches!(decode(&memory, 0), Err(CoreWarError::InvalidRegister { register: 0 })));
    let memory = memory_with(0, &[0x10, 200]);
    assert!(matches!(decode(&memory, 0), Err(CoreWarError::InvalidRegister { register: 200 })));
}

#[test]
fn test_unused_type_bits_are_ignored() {
    let memory = memory_with(0, &[0x02, 0b10_01_11_11, 0, 0, 0, 7, 3]);
    let d = decode(&memory, 0).unwrap();
    assert_eq!(d.first, Parameter::direct(7));
    assert_eq!(d.second, Parameter::register(3));
    assert_eq!(d.length, 7);
}

#[test]
fn test_signed_conversions() {
    assert_eq!(word_to_signed(0), 0);
    assert_eq!(word_to_signed(0x7FFF_FFFF), i32::MAX);
    assert_eq!(word_to_signed(0x8000_0000), i32::MIN);
    assert_eq!(word_to_signed(0xFFFF_FFFF), -1);
    assert_eq!(signed_to_word(-1), 0xFFFF_FFFF);
    assert_eq!(signed_to_word(i32::MIN), 0x8000_0000);
    assert_eq!(signed_to_word(i32::MAX), 0x7FFF_FFFF);
    assert_eq!(half_to_signed(0x7FFF), 32767);
    assert_eq!(half_to_signed(0x8000), -32768);
    assert_eq!(half_to_signed(0xFFFF), -1);
    assert_eq!(Memory::wrap_address(-1), MEMORY_SIZE - 1);
    assert_eq!(Memory::wrap_address(-(MEMORY_SIZE as i64)), 0);
    assert_eq!(Memory::wrap_address(i64::MIN), (i64::MIN).rem_euclid(6144) as usize);
    assert_eq!(Memory::wrap_address(6144 * 2 + 5), 5);
}

#[test]
fn test_live() {
    let mut memory = memory_with(20, &[0x01, 0, 0, 0, 4]);
    let mut process = process_at(20);
    process.live_counter = 123;
    let effect = run(&mut process, &mut memory);
    assert_eq!(effect, Effect::Live { value: 4 });
    assert_eq!(process.live_counter, 0);
    assert_eq!(process.pc, 25);
    assert!(!process.carry);
}

#[test]
fn test_ld_direct_and_carry() {
    let mut memory = memory_with(0, &[0x02, 0x90, 0, 0, 0, 0, 2, 0x02, 0x90, 0xFF, 0xFF, 0xFF, 0xF6, 4]);
    let mut process = process_at(0);
    assert_eq!(run(&mut process, &mut memory), Effect::Nothing);
    assert_eq!(process.get_register(2).unwrap(), 0);
    assert!(process.carry);
    assert_eq!(process.pc, 7);
    run(&mut process, &mut memory);
    assert_eq!(process.get_register(4).unwrap(), -10);
    assert!(!process.carry);
    assert_eq!(process.pc, 14);
}

#[test]
fn test_short_index_against_long() {
    let offset = ((IDX_MOD + 3) as u16).to_be_bytes();
    let pc = 100usize;
    // ld: the offset is cut down to 3, so the word read starts with the last
    // two bytes of the instruction itself.
    let mut memory = Memory::new();
    memory.load_code(pc, &[0x02, 0xD0, offset[0], offset[1], 7, 0xAB, 0xCD], 1).unwrap();
    memory.write_word(pc + IDX_MOD + 3, 0x01020304, None);
    let mut process = process_at(pc);
    run(&mut process, &mut memory);
    assert_eq!(memory.read_word(pc + 3), 0x0307_ABCD);
    assert_eq!(process.get_register(7).unwrap(), 0x0307_ABCD);
    assert_eq!(process.pc, pc + 5);
    // lld: the same operand is taken whole.
    let mut memory = Memory::new();
    memory.load_code(pc, &[0x0D, 0xD0, offset[0], offset[1], 7, 0xAB, 0xCD], 1).unwrap();
    memory.write_word(pc + IDX_MOD + 3, 0x01020304, None);
    let mut process = process_at(pc);
    run(&mut process, &mut memory);
    assert_eq!(process.get_register(7).unwrap(), 0x01020304);
    assert_eq!(process.pc, pc + 5);
    // Near the end of the arena the long offset goes round the ring.
    let pc = MEMORY_SIZE - 100;
    let mut memory = Memory::new();
    memory.load_code(pc, &[0x0D, 0xD0, offset[0], offset[1], 7], 1).unwrap();
    memory.write_word(IDX_MOD + 3 - 100, 0x7A7B7C7D, None);
    let mut process = process_at(pc);
    run(&mut process, &mut memory);
    assert_eq!(process.get_register(7).unwrap(), 0x7A7B7C7D);
}

#[test]
fn test_ld_indirect_reaches_backwards() {
    let mut memory = Memory::new();
    memory.write_word(MEMORY_SIZE - 6, 0xFFFF_FFFE, None);
    // ld -10, r3 at address 4: reads the word at 4 - 10, round the ring
    memory.load_code(4, &[0x02, 0xD0, 0xFF, 0xF6, 3], 1).unwrap();
    let mut process = process_at(4);
    run(&mut process, &mut memory);
    assert_eq!(process.get_register(3).unwrap(), -2);
    // An offset of -(IDX_MOD + 10) is cut down to -10 by ld, taken whole by lld.
    let far = -((IDX_MOD as i16) + 10);
    let bytes = far.to_be_bytes();
    memory.write_word(4 + MEMORY_SIZE - IDX_MOD - 10, 0x0000_0042, None);
    memory.load_code(4, &[0x02, 0xD0, bytes[0], bytes[1], 3], 1).unwrap();
    let mut process = process_at(4);
    run(&mut process, &mut memory);
    assert_eq!(process.get_register(3).unwrap(), -2);
    memory.load_code(4, &[0x0D, 0xD0, bytes[0], bytes[1], 3], 1).unwrap();
    let mut process = process_at(4);
    run(&mut process, &mut memory);
    assert_eq!(process.get_register(3).unwrap(), 0x42);
}

#[test]
fn test_st_to_register_and_memory() {
    let mut memory = memory_with(0, &[0x03, 0x50, 1, 9, 0x03, 0x70, 9, 0x00, 0x20]);
    let mut process = process_at(0);
    process.carry = true;
    run(&mut process, &mut memory);
    assert_eq!(process.get_register(9).unwrap(), -3);
    assert!(process.carry);
    assert_eq!(process.pc, 4);
    run(&mut process, &mut memory);
    assert_eq!(memory.read_word(4 + 0x20), 0xFFFF_FFFD);
    for k in 0..4 {
        assert_eq!(memory.get_owner(4 + 0x20 + k), Some(3));
    }
    assert_eq!(memory.get_owner(4 + 0x20 + 4), None);
    assert_eq!(process.pc, 9);
}

#[test]
fn test_st_then_ld_reads_what_was_stored() {
    // st r5, 40 at 0; ld 35, r6 at 5: both name address 40
    let mut memory = memory_with(0, &[0x03, 0x70, 5, 0, 40, 0x02, 0xD0, 0, 35, 6]);
    let mut process = process_at(0);
    process.set_register(5, -123_456_789).unwrap();
    run(&mut process, &mut memory);
    run(&mut process, &mut memory);
    assert_eq!(process.get_register(6).unwrap(), -123_456_789);
    assert!(!process.carry);
}

#[test]
fn test_add_and_sub_wrap() {
    let mut memory = memory_with(0, &[0x04, 0x54, 2, 3, 4, 0x05, 0x54, 5, 3, 6, 0x05, 0x54, 2, 2, 7]);
    let mut process = process_at(0);
    process.set_register(2, i32::MAX).unwrap();
    process.set_register(3, 1).unwrap();
    process.set_register(5, i32::MIN).unwrap();
    run(&mut process, &mut memory);
    assert_eq!(process.get_register(4).unwrap(), i32::MIN);
    assert!(!process.carry);
    run(&mut process, &mut memory);
    assert_eq!(process.get_register(6).unwrap(), i32::MAX);
    run(&mut process, &mut memory);
    assert_eq!(process.get_register(7).unwrap(), 0);
    assert!(process.carry);
    assert_eq!(process.pc, 15);
}

#[test]
fn test_and_or_xor() {
    let mut memory = memory_with(
        0,
        &[
            0x06, 0b10_10_01_00, 0, 0, 0x0F, 0xF0, 0, 0, 0x00, 0xFF, 2, // and %0x0FF0, %0xFF, r2
            0x07, 0b01_10_01_00, 2, 0, 0, 0x0F, 0x00, 3, // or r2, %0x0F00, r3
            0x08, 0b01_01_01_00, 3, 3, 4, // xor r3, r3, r4
        ],
    );
    let mut process = process_at(0);
    run(&mut process, &mut memory);
    assert_eq!(process.get_register(2).unwrap(), 0xF0);
    assert!(!process.carry);
    run(&mut process, &mut memory);
    assert_eq!(process.get_register(3).unwrap(), 0x0FF0);
    run(&mut process, &mut memory);
    assert_eq!(process.get_register(4).unwrap(), 0);
    assert!(process.carry);
    assert_eq!(process.pc, 11 + 8 + 5);
}

#[test]
fn test_zjmp() {
    let mut memory = memory_with(50, &[0x09, 0xFF, 0xFB]);
    let mut process = process_at(50);
    run(&mut process, &mut memory);
    assert_eq!(process.pc, 53);
    let mut process = process_at(50);
    process.carry = true;
    run(&mut process, &mut memory);
    assert_eq!(process.pc, 45);
    assert!(process.carry);
    // A jump of IDX_MOD + 7 is cut down to 7; one of -(IDX_MOD + 7) to -7.
    let mut memory = memory_with(2, &[0x09, 0x02, 0x07]);
    let mut process = process_at(2);
    process.carry = true;
    run(&mut process, &mut memory);
    assert_eq!(process.pc, 9);
    let mut memory = memory_with(2, &[0x09, 0xFD, 0xF9]);
    let mut process = process_at(2);
    process.carry = true;
    run(&mut process, &mut memory);
    assert_eq!(process.pc, MEMORY_SIZE - 5);
}

#[test]
fn test_ldi_lldi_sti() {
    let mut memory = Memory::new();
    memory.write_word(10 + 30, 0x11223344, None);
    memory.write_word(10 + 30 + IDX_MOD, 0x55667788, None);
    // ldi %(IDX_MOD + 10), r2, r3 with r2 = 20
    let first = (IDX_MOD as u32 + 10).to_be_bytes();
    memory
        .load_code(10, &[0x0A, 0b10_01_01_00, first[0], first[1], first[2], first[3], 2, 3], 1)
        .unwrap();
    let mut process = process_at(10);
    process.set_register(2, 20).unwrap();
    run(&mut process, &mut memory);
    assert_eq!(process.get_register(3).unwrap(), 0x11223344);
    assert_eq!(process.pc, 18);
    memory
        .load_code(10, &[0x0E, 0b10_01_01_00, first[0], first[1], first[2], first[3], 2, 3], 1)
        .unwrap();
    let mut process = process_at(10);
    process.set_register(2, 20).unwrap();
    run(&mut process, &mut memory);
    assert_eq!(process.get_register(3).unwrap(), 0x55667788);
    // sti r3, %(IDX_MOD + 100), r2: stores at pc + 120
    let second = (IDX_MOD as u32 + 100).to_be_bytes();
    memory
        .load_code(10, &[0x0B, 0b01_10_01_00, 3, second[0], second[1], second[2], second[3], 2], 1)
        .unwrap();
    process.pc = 10;
    process.carry = false;
    run(&mut process, &mut memory);
    assert_eq!(memory.read_word(130), 0x55667788);
    assert_eq!(memory.get_owner(130), Some(3));
    assert_eq!(memory.get_owner(133), Some(3));
    assert!(!process.carry);
    assert_eq!(process.pc, 18);
}

#[test]
fn test_fork_and_lfork() {
    let far = (IDX_MOD as u16) + 4;
    let bytes = far.to_be_bytes();
    let mut memory = memory_with(100, &[0x0C, bytes[0], bytes[1]]);
    let mut process = process_at(100);
    assert_eq!(run(&mut process, &mut memory), Effect::Fork { pc: 104 });
    assert_eq!(process.pc, 103);
    let mut memory = memory_with(100, &[0x0F, bytes[0], bytes[1]]);
    let mut process = process_at(100);
    assert_eq!(run(&mut process, &mut memory), Effect::Fork { pc: 100 + IDX_MOD + 4 });
    let mut memory = memory_with(1, &[0x0C, 0xFF, 0xFE]);
    let mut process = process_at(1);
    assert_eq!(run(&mut process, &mut memory), Effect::Fork { pc: MEMORY_SIZE - 1 });
}

#[test]
fn test_aff() {
    let mut memory = memory_with(0, &[0x10, 4, 0x10, 5]);
    let mut process = process_at(0);
    process.set_register(4, 0x141).unwrap();
    process.set_register(5, -1).unwrap();
    assert_eq!(run(&mut process, &mut memory), Effect::Aff { byte: 0x41 });
    assert_eq!(run(&mut process, &mut memory), Effect::Aff { byte: 0xFF });
    assert_eq!(process.pc, 4);
}

#[test]
fn test_execute_from_hand_built_instruction() {
    let mut memory = Memory::new();
    let mut process = process_at(MEMORY_SIZE - 2);
    let instruction = DecodedInstruction {
        instruction: Instruction::Ld,
        first: Parameter::new(ParameterType::Direct, 77),
        second: Parameter::register(16),
        third: Parameter::direct(0),
        length: 7,
    };
    assert_eq!(execute(&mut process, &mut memory, &instruction), Effect::Nothing);
    assert_eq!(process.get_register(16).unwrap(), 77);
    assert_eq!(process.pc, 5);
}
