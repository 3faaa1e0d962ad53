use corewar::vm::instruction::{CompleteInstruction, Instruction, Parameter, ParameterType};

#[test]
fn test_instruction_from_opcode() {
    assert_eq!(Instruction::from_opcode(0x01).unwrap(), Instruction::Live);
    assert_eq!(Instruction::from_opcode(0x02).unwrap(), Instruction::Ld);
    assert_eq!(Instruction::from_opcode(0x10).unwrap(), Instruction::Aff);

    assert!(Instruction::from_opcode(0x00).is_err());
    assert!(Instruction::from_opcode(0x11).is_err());
}

#[test]
fn test_instruction_properties() {
    assert_eq!(Instruction::Live.opcode(), 0x01);
    assert_eq!(Instruction::Live.parameter_count(), 1);
    assert_eq!(Instruction::Live.cycles(), 10);
    assert_eq!(Instruction::Live.name(), "live");
    assert!(!Instruction::Live.sets_carry());
    assert!(!Instruction::Live.uses_long_addressing());

    assert_eq!(Instruction::Add.parameter_count(), 3);
    assert_eq!(Instruction::Ld.sets_carry(), true);
    assert_eq!(Instruction::Lld.uses_long_addressing(), true);
}

#[test]
fn test_parameter_types() {
    assert_eq!(ParameterType::from_type_code(0x1), ParameterType::Register);
    assert_eq!(ParameterType::from_type_code(0x2), ParameterType::Direct);
    assert_eq!(ParameterType::from_type_code(0x3), ParameterType::Indirect);

    assert_eq!(ParameterType::Register.type_code(), 0x1);
    assert_eq!(ParameterType::Direct.size(), 2);
    assert_eq!(ParameterType::Register.size(), 1);
}

#[test]
fn test_parameter_creation() {
    let reg_param = Parameter::register(5);
    assert_eq!(reg_param.param_type, ParameterType::Register);
    assert_eq!(reg_param.value, 5);

    let direct_param = Parameter::direct(42);
    assert_eq!(direct_param.param_type, ParameterType::Direct);
    assert_eq!(direct_param.value, 42);

    let indirect_param = Parameter::indirect(100);
    assert_eq!(indirect_param.param_type, ParameterType::Indirect);
    assert_eq!(indirect_param.value, 100);
}

#[test]
fn test_complete_instruction() {
    let params = vec![Parameter::register(1), Parameter::direct(42)];
    let inst = CompleteInstruction::new(Instruction::Ld, params).unwrap();

    assert_eq!(inst.instruction, Instruction::Ld);
    assert_eq!(inst.parameters.len(), 2);
    // opcode + operand types + register + direct value of four bytes
    assert_eq!(inst.size(), 1 + 1 + 1 + 4);

    let inst_str = inst.to_string();
    assert_eq!(inst_str, "ld r1, %42");
}

#[test]
fn test_complete_instruction_validation() {
    let params = vec![Parameter::register(1)];
    assert!(CompleteInstruction::new(Instruction::Ld, params).is_err());

    let params = vec![Parameter::register(1), Parameter::direct(42)];
    assert!(CompleteInstruction::new(Instruction::Ld, params).is_ok());
}

#[test]
fn test_opcode_round_trip() {
    for opcode in 0x01u8..=0x10 {
        let instruction = Instruction::from_opcode(opcode).unwrap();
        assert_eq!(instruction.opcode(), opcode);
    }
    for opcode in [0x00u8, 0x11, 0x80, 0xFF] {
        match Instruction::from_opcode(opcode) {
            Err(corewar::CoreWarError::InvalidOpcode { opcode: reported }) => {
                assert_eq!(reported, opcode)
            }
            other => panic!("unexpected {:?}", other),
        }
    }
}

#[test]
fn test_instruction_table() {
    let table: [(Instruction, usize, u32, bool, bool); 16] = [
        (Instruction::Live, 1, 10, false, false),
        (Instruction::Ld, 2, 5, true, false),
        (Instruction::St, 2, 5, false, false),
        (Instruction::Add, 3, 10, true, false),
        (Instruction::Sub, 3, 10, true, false),
        (Instruction::And, 3, 6, true, false),
        (Instruction::Or, 3, 6, true, false),
        (Instruction::Xor, 3, 6, true, false),
        (Instruction::Zjmp, 1, 20, false, false),
        (Instruction::Ldi, 3, 25, true, false),
        (Instruction::Sti, 3, 25, false, false),
        (Instruction::Fork, 1, 800, false, false),
        (Instruction::Lld, 2, 10, true, true),
        (Instruction::Lldi, 3, 50, true, true),
        (Instruction::Lfork, 1, 1000, false, true),
        (Instruction::Aff, 1, 2, false, false),
    ];
    for (instruction, arity, cycles, carry, long) in table {
        assert_eq!(instruction.parameter_count(), arity);
        assert_eq!(instruction.cycles(), cycles);
        assert_eq!(instruction.sets_carry(), carry);
        assert_eq!(instruction.uses_long_addressing(), long);
        assert_eq!(instruction.takes_type_byte(), arity > 1);
    }
}

#[test]
fn test_operand_widths_and_modes() {
    assert_eq!(Instruction::Ld.parameter_size(ParameterType::Direct), 4);
    assert_eq!(Instruction::Zjmp.parameter_size(ParameterType::Direct), 2);
    assert_eq!(Instruction::Fork.parameter_size(ParameterType::Direct), 2);
    assert_eq!(Instruction::Lfork.parameter_size(ParameterType::Direct), 2);
    assert_eq!(Instruction::Sti.parameter_size(ParameterType::Indirect), 2);
    assert_eq!(Instruction::Add.parameter_size(ParameterType::Register), 1);

    assert!(Instruction::Ld.accepts(0, ParameterType::Direct));
    assert!(Instruction::Ld.accepts(0, ParameterType::Indirect));
    assert!(!Instruction::Ld.accepts(0, ParameterType::Register));
    assert!(Instruction::Ld.accepts(1, ParameterType::Register));
    assert!(!Instruction::Ld.accepts(2, ParameterType::Register));
    assert!(Instruction::St.accepts(1, ParameterType::Indirect));
    assert!(!Instruction::St.accepts(1, ParameterType::Direct));
    assert!(Instruction::Sti.accepts(2, ParameterType::Direct));
    assert!(!Instruction::Sti.accepts(2, ParameterType::Indirect));
    assert!(Instruction::Aff.accepts(0, ParameterType::Register));
    assert!(!Instruction::Live.accepts(0, ParameterType::Register));
}

#[test]
fn test_instruction_text_and_wrong_count_message() {
    let inst = CompleteInstruction::new(
        Instruction::Sti,
        vec![Parameter::register(16), Parameter::indirect(-7), Parameter::label(12)],
    )
    .unwrap();
    assert_eq!(inst.to_string(), "sti r16, -7, :12");
    assert_eq!(inst.size(), 1 + 1 + 1 + 2 + 4);

    match CompleteInstruction::new(Instruction::Add, vec![Parameter::register(1)]) {
        Err(corewar::CoreWarError::Instruction { message }) => {
            assert_eq!(message, "Invalid parameter count for add: expected 3, got 1")
        }
        other => panic!("unexpected {:?}", other),
    }
}

#[test]
fn test_type_code_zero() {
    assert_eq!(ParameterType::from_type_code(0), ParameterType::Direct);
    assert_eq!(ParameterType::try_from_type_code(0), None);
    assert_eq!(ParameterType::try_from_type_code(0b111), Some(ParameterType::Indirect));
    assert_eq!(ParameterType::Label.type_code(), 2);
}

#[test]
fn test_size_of_any_operand_list() {
    // The length is counted for whatever operands are there, also where
    // their number is not the one the instruction takes.
    let none = CompleteInstruction { instruction: Instruction::Live, parameters: vec![] };
    assert_eq!(none.size(), 1);
    let bare = CompleteInstruction { instruction: Instruction::Add, parameters: vec![] };
    assert_eq!(bare.size(), 2);
    let many = CompleteInstruction {
        instruction: Instruction::Ld,
        parameters: vec![
            Parameter::direct(1),
            Parameter::indirect(2),
            Parameter::register(3),
            Parameter::direct(4),
        ],
    };
    assert_eq!(many.size(), 1 + 1 + 4 + 2 + 1 + 4);
    let short = CompleteInstruction {
        instruction: Instruction::Zjmp,
        parameters: vec![Parameter::direct(1), Parameter::direct(2)],
    };
    assert_eq!(short.size(), 1 + 2 + 2);
}
