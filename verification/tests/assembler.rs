use corewar::assembler::encoder::Encoder;
use corewar::assembler::lexer::Lexer;
use corewar::assembler::parser::Parser;
use corewar::assembler::Assembler;
use corewar::vm::decoder::decode;
use corewar::vm::instruction::{Instruction, Parameter};
use corewar::vm::loader::ChampionLoader;
use corewar::vm::memory::Memory;
use corewar::{CoreWarError, GameConfig, GameEngine};

const COR_MAGIC: u32 = 0xea83f3;

fn code_of(source: &str) -> Vec<u8> {
    let file = Assembler::new(false).assemble_source(source).unwrap();
    file[272..].to_vec()
}

fn message(source: &str) -> String {
    match Assembler::new(false).assemble_source(source) {
        Err(CoreWarError::Assembler { message }) => message,
        other => panic!("unexpected {:?}", other),
    }
}

#[test]
fn test_simple_assembly() {
    let assembler = Assembler::new(false);
    let source = r#"
            .name "test"
            .comment "A simple test program"
            
            live %1
        "#;

    let result = assembler.assemble_source(source);
    assert!(result.is_ok());
}

#[test]
fn test_assemble_simple_champion() {
    let source = r#"
        .name "simple"
        .comment "A simple champion"

    start:
        live %1
        zjmp %:start
    "#;

    let assembler = Assembler::new(false);
    let bytecode = assembler.assemble_source(source).unwrap();

    // The header takes 4 + 128 + 4 + 4 + 128 + 4 = 272 bytes. An instruction
    // with one operand has no byte of operand types.
    let header_size = 272;
    let instruction_size = 1 + 4 + 1 + 2;
    assert_eq!(bytecode.len(), header_size + instruction_size);

    let magic = u32::from_be_bytes([bytecode[0], bytecode[1], bytecode[2], bytecode[3]]);
    assert_eq!(magic, COR_MAGIC);

    let name = &bytecode[4..4 + 128];
    let name_str = std::str::from_utf8(&name[..6]).unwrap();
    assert_eq!(name_str, "simple");

    assert_eq!(bytecode[header_size], 0x01);
    let live_param = u32::from_be_bytes([
        bytecode[header_size + 1],
        bytecode[header_size + 2],
        bytecode[header_size + 3],
        bytecode[header_size + 4],
    ]);
    assert_eq!(live_param, 1);

    assert_eq!(bytecode[header_size + 5], 0x09);
    let zjmp_param = u16::from_be_bytes([bytecode[header_size + 6], bytecode[header_size + 7]]);
    // The jump leads back over the five bytes of `live`.
    assert_eq!(zjmp_param as i16, -5);
}

#[test]
fn test_encodings() {
    let header = ".name \"x\"\n";
    assert_eq!(code_of(&format!("{header}live %-2")), vec![0x01, 0xFF, 0xFF, 0xFF, 0xFE]);
    assert_eq!(code_of(&format!("{header}ld %42, r3")), vec![0x02, 0x90, 0, 0, 0, 42, 3]);
    assert_eq!(code_of(&format!("{header}ld -7, r16")), vec![0x02, 0xD0, 0xFF, 0xF9, 16]);
    assert_eq!(code_of(&format!("{header}st r1, 515")), vec![0x03, 0x70, 1, 0x02, 0x03]);
    assert_eq!(code_of(&format!("{header}st r1 r2")), vec![0x03, 0x50, 1, 2]);
    assert_eq!(code_of(&format!("{header}add r1, r2, r3")), vec![0x04, 0x54, 1, 2, 3]);
    assert_eq!(
        code_of(&format!("{header}and %1, 2, r3")),
        vec![0x06, 0xB4, 0, 0, 0, 1, 0, 2, 3]
    );
    assert_eq!(
        code_of(&format!("{header}sti r1, %256, %-1")),
        vec![0x0B, 0x68, 1, 0, 0, 1, 0, 0xFF, 0xFF, 0xFF, 0xFF]
    );
    assert_eq!(code_of(&format!("{header}FORK %300")), vec![0x0C, 0x01, 0x2C]);
    assert_eq!(code_of(&format!("{header}lfork %-1")), vec![0x0F, 0xFF, 0xFF]);
    assert_eq!(code_of(&format!("{header}aff r9")), vec![0x10, 9]);
    assert_eq!(code_of(header), Vec::<u8>::new());
}

#[test]
fn test_labels_are_distances() {
    let source = ".name \"x\"\nstart: ld %:end, r2\nmid: sti r2, %:start, %:mid\nzjmp %:start\nend: live %:mid\n";
    let code = code_of(source);
    // ld at 0 (7 bytes), sti at 7 (11 bytes), zjmp at 18 (3 bytes), live at 21.
    assert_eq!(&code[0..7], &[0x02, 0x90, 0, 0, 0, 21, 2]);
    assert_eq!(&code[7..18], &[0x0B, 0x68, 2, 0xFF, 0xFF, 0xFF, 0xF9, 0, 0, 0, 0]);
    assert_eq!(&code[18..21], &[0x09, 0xFF, 0xEE]);
    assert_eq!(&code[21..26], &[0x01, 0xFF, 0xFF, 0xFF, 0xF2]);
    // Of two instructions with one label the first is meant.
    let code = code_of(".name \"x\"\na: live %1\na: live %2\nzjmp %:a");
    assert_eq!(&code[10..13], &[0x09, 0xFF, 0xF6]);
}

#[test]
fn test_what_is_assembled_is_decoded() {
    let source = ".name \"x\"\nldi 5, %-6, r7\nlldi r1, r2, r3\nxor 300, r4, r5\nlld %70000, r1";
    let code = code_of(source);
    let mut memory = Memory::new();
    memory.load_code(6000, &code, 1).unwrap();
    let first = decode(&memory, 6000).unwrap();
    assert_eq!(first.instruction, Instruction::Ldi);
    assert_eq!(
        first.parameters(),
        vec![Parameter::indirect(5), Parameter::direct(-6), Parameter::register(7)]
    );
    let second = decode(&memory, 6000 + first.length).unwrap();
    assert_eq!(second.instruction, Instruction::Lldi);
    assert_eq!(
        second.parameters(),
        vec![Parameter::register(1), Parameter::register(2), Parameter::register(3)]
    );
    let third = decode(&memory, 6000 + first.length + second.length).unwrap();
    assert_eq!(
        third.parameters(),
        vec![Parameter::indirect(300), Parameter::register(4), Parameter::register(5)]
    );
    let fourth = decode(&memory, 6000 + first.length + second.length + third.length).unwrap();
    assert_eq!(fourth.instruction, Instruction::Lld);
    assert_eq!(fourth.parameters(), vec![Parameter::direct(70000), Parameter::register(1)]);
    assert_eq!(first.length + second.length + third.length + fourth.length, code.len());
}

#[test]
fn test_assembled_champion_runs() {
    let source = r#"
        .name "Looper"
        .comment "lives for ever"
                ld   %0, r2
        loop:   live %1
                zjmp %:loop
    "#;
    let file = Assembler::new(true).assemble_source(source).unwrap();
    let header = ChampionLoader::new(true).parse_header(&file).unwrap();
    assert_eq!(header.name, "Looper");
    assert_eq!(header.comment, "lives for ever");
    assert_eq!(header.code_size, 15);
    let mut engine = GameEngine::new(GameConfig { max_cycles: 500, ..Default::default() });
    engine.load_champions(&[file], None).unwrap();
    assert_eq!(engine.run_to_completion().unwrap(), Some(1));
    assert_eq!(engine.scheduler_stats().total_live_count, 17);
    assert_eq!(engine.processes().len(), 1);
}

#[test]
fn test_assembler_faults() {
    assert_eq!(message(".name \"x\"\nlive @"), "Unexpected character '@' at line 2, column 6");
    assert_eq!(message("live %1"), ".name directive is required");
    let header = ".name \"x\"\n\n";
    assert_eq!(message(&format!("{header}live")), "Wrong number of operands at line 3");
    assert_eq!(message(&format!("{header}live %1, %2")), "Wrong number of operands at line 3");
    assert_eq!(
        message(&format!("{header}live r1")),
        "Operand of a kind that the instruction does not take at line 3"
    );
    assert_eq!(
        message(&format!("{header}ld r1, r2")),
        "Operand of a kind that the instruction does not take at line 3"
    );
    assert_eq!(
        message(&format!("{header}st r1, %:x")),
        "Operand of a kind that the instruction does not take at line 3"
    );
    assert_eq!(message(&format!("{header}aff r0")), "Value out of range at line 3");
    assert_eq!(message(&format!("{header}aff r17")), "Value out of range at line 3");
    assert_eq!(message(&format!("{header}aff r255")), "Value out of range at line 3");
    assert_eq!(message(&format!("{header}live %2147483648")), "Value out of range at line 3");
    assert_eq!(message(&format!("{header}live %-2147483649")), "Value out of range at line 3");
    assert_eq!(
        message(&format!("{header}live %99999999999999999999999999999")),
        "Value out of range at line 3"
    );
    assert_eq!(message(&format!("{header}zjmp %32768")), "Value out of range at line 3");
    assert_eq!(message(&format!("{header}ld 32768, r1")), "Value out of range at line 3");
    assert_eq!(message(&format!("{header}zjmp %:nowhere")), "Unknown label at line 3");
    assert!(Assembler::new(false).assemble_source(&format!("{header}live %2147483647")).is_ok());
    assert!(Assembler::new(false).assemble_source(&format!("{header}live %-2147483648")).is_ok());
    assert!(Assembler::new(false).assemble_source(&format!("{header}zjmp %-32768")).is_ok());
    let long = format!(".name \"{}\"\nlive %1", "n".repeat(129));
    assert_eq!(message(&long), "Name and comment take at most 128 bytes and hold no NUL");
}

#[test]
fn test_code_too_large() {
    let mut source = String::from(".name \"x\"\n");
    for _ in 0..1229 {
        source.push_str("live %1\n");
    }
    assert_eq!(message(&source), "The code is larger than the arena");
    let mut source = String::from(".name \"x\"\n");
    for _ in 0..1228 {
        source.push_str("live %1\n");
    }
    source.push_str("aff r1\naff r2\n");
    assert_eq!(code_of(&source).len(), 6144);
    // A label that is too far for a jump.
    let mut source = String::from(".name \"x\"\nzjmp %:far\n");
    for _ in 0..6600 {
        source.push_str("live %1\n");
    }
    source.push_str("far: live %1\n");
    assert_eq!(message(&source), "The code is larger than the arena");
}

#[test]
fn test_encoder_on_a_tree_made_by_hand() {
    let tokens = Lexer::new(".name \"n\"\nlive %1").tokenize().unwrap();
    let mut ast = Parser::new(tokens).parse().unwrap();
    ast.instructions[0].mnemonic = "jump".to_string();
    match Encoder::new().encode(&ast) {
        Err(CoreWarError::Assembler { message }) => {
            assert_eq!(message, "Unknown instruction at line 2")
        }
        other => panic!("unexpected {:?}", other),
    }
    ast.instructions[0].mnemonic = "live".to_string();
    ast.instructions[0].parameters[0].param_type = "float".to_string();
    match Encoder::default().encode(&ast) {
        Err(CoreWarError::Assembler { message }) => assert_eq!(message, "Malformed operand at line 2"),
        other => panic!("unexpected {:?}", other),
    }
    ast.instructions[0].parameters[0].param_type = "direct".to_string();
    ast.instructions[0].parameters[0].value = "1x".to_string();
    assert!(Encoder::new().encode(&ast).is_err());
    ast.instructions[0].parameters[0].value = "-".to_string();
    assert!(Encoder::new().encode(&ast).is_err());
    ast.instructions[0].parameters[0].value = "007".to_string();
    assert_eq!(Encoder::new().encode(&ast).unwrap()[272..], [0x01, 0, 0, 0, 7]);
}
