use corewar::assembler::lexer::{Lexer, Token, TokenType};
use corewar::assembler::parser::Parser;
use corewar::assembler::{Assembler, AstNode};
use corewar::CoreWarError;

fn parse(source: &str) -> Result<AstNode, CoreWarError> {
    let tokens = Lexer::new(source).tokenize().unwrap();
    Parser::new(tokens).parse()
}

fn message(source: &str) -> String {
    match parse(source) {
        Err(CoreWarError::Assembler { message }) => message,
        other => panic!("unexpected {:?}", other),
    }
}

#[test]
fn test_assembler_creation() {
    let assembler = Assembler::new(false);
    assert!(!assembler.verbose);

    let assembler = Assembler::new(true);
    assert!(assembler.verbose);
}

#[test]
fn test_header_parsing() {
    let source = r#"
            .name "test"
            .comment "A test program"
        "#;

    let mut lexer = Lexer::new(source);
    let tokens = lexer.tokenize().unwrap();
    let mut parser = Parser::new(tokens);

    let header = parser.parse_header().unwrap();
    assert_eq!(header.name, "test");
    assert_eq!(header.comment, "A test program");
}

#[test]
fn test_instruction_parsing() {
    let source = r#"
            .name "test"
            
            loop:   live %1
                    ld %0, r1
                    st r1, :loop
        "#;

    let mut lexer = Lexer::new(source);
    let tokens = lexer.tokenize().unwrap();
    let mut parser = Parser::new(tokens);

    let ast = parser.parse().unwrap();
    assert_eq!(ast.instructions.len(), 3);

    assert_eq!(ast.instructions[0].label, Some("loop".to_string()));
    assert_eq!(ast.instructions[0].mnemonic, "live");
    assert_eq!(ast.instructions[0].parameters.len(), 1);
    assert_eq!(ast.instructions[0].parameters[0].param_type, "direct");
    assert_eq!(ast.instructions[0].parameters[0].value, "1");

    assert_eq!(ast.instructions[1].mnemonic, "ld");
    assert_eq!(ast.instructions[1].parameters.len(), 2);

    assert_eq!(ast.instructions[2].mnemonic, "st");
    assert_eq!(ast.instructions[2].parameters[1].param_type, "label");
    assert_eq!(ast.instructions[2].parameters[1].value, "loop");
}

#[test]
fn test_missing_name_directive() {
    let source = "live %1";

    let mut lexer = Lexer::new(source);
    let tokens = lexer.tokenize().unwrap();
    let mut parser = Parser::new(tokens);

    assert!(parser.parse().is_err());
}

#[test]
fn test_header_faults() {
    assert_eq!(message("live %1"), ".name directive is required");
    assert_eq!(message(""), ".name directive is required");
    assert_eq!(message(".comment \"only\""), ".name directive is required");
    assert_eq!(message(".name \"\""), ".name directive is required");
    assert_eq!(message("\n.name live"), "Expected string after .name directive at line 2");
    assert_eq!(message(".name"), "Expected string after .name directive at line 1");
    assert_eq!(
        message(".name \"x\"\n\n.comment\n\"y\""),
        "Expected string after .comment directive at line 3"
    );
    assert_eq!(message(".name \"x\"\n.extend"), "Unknown directive '.extend' at line 2");
    assert_eq!(message(".NAME \"x\""), "Unknown directive '.NAME' at line 1");
    assert!(matches!(Parser::new(Vec::new()).parse(), Err(CoreWarError::Assembler { .. })));
}

#[test]
fn test_later_directives_replace_earlier_ones() {
    let ast = parse(".name \"a\" .comment \"c\"\n# note\n.name \"b\"\nlive %1").unwrap();
    assert_eq!(ast.header.name, "b");
    assert_eq!(ast.header.comment, "c");
    assert_eq!(ast.instructions.len(), 1);
    let ast = parse("; first\n\n.name \"a\"").unwrap();
    assert_eq!(ast.header.comment, "");
    assert_eq!(ast.instructions.len(), 0);
}

#[test]
fn test_operands() {
    let ast = parse(".name \"x\"\nsti r1 %:live, %-1 42 :back %:%:twice ; marks\n").unwrap();
    assert_eq!(ast.instructions.len(), 1);
    let node = &ast.instructions[0];
    assert_eq!(node.label, None);
    assert_eq!(node.mnemonic, "sti");
    assert_eq!(node.line_number, 2);
    let kinds: Vec<&str> = node.parameters.iter().map(|p| p.param_type.as_str()).collect();
    let values: Vec<&str> = node.parameters.iter().map(|p| p.value.as_str()).collect();
    assert_eq!(kinds, vec!["register", "label", "direct", "indirect", "label", "label", "label"]);
    assert_eq!(values, vec!["r1", "live", "-1", "42", "back", "", "twice"]);
}

#[test]
fn test_labels() {
    // A label on a line of its own belongs to the next instruction.
    let ast = parse(".name \"x\"\nstart:\n\n  live %1\nend: # nothing\n").unwrap();
    assert_eq!(ast.instructions.len(), 1);
    assert_eq!(ast.instructions[0].label, Some("start".to_string()));
    assert_eq!(ast.instructions[0].line_number, 2);
    // A later label replaces one that waits.
    let ast = parse(".name \"x\"\na: r1\nb: live %1\nzjmp %0").unwrap();
    assert_eq!(ast.instructions.len(), 2);
    assert_eq!(ast.instructions[0].label, Some("b".to_string()));
    assert_eq!(ast.instructions[1].label, None);
    // A label that waits is given to the next instruction, however far.
    let ast = parse(".name \"x\"\na: 42 42\n\nlive %1").unwrap();
    assert_eq!(ast.instructions[0].label, Some("a".to_string()));
    assert_eq!(ast.instructions[0].line_number, 4);
}

#[test]
fn test_stray_tokens_are_passed_over() {
    let ast = parse(".name \"x\"\n, , 5 r1 \"text\" live %1\nld %0 r2").unwrap();
    let mnemonics: Vec<&str> = ast.instructions.iter().map(|i| i.mnemonic.as_str()).collect();
    assert_eq!(mnemonics, vec!["live", "ld"]);
    assert_eq!(ast.instructions[0].parameters.len(), 1);
}

#[test]
fn test_operand_faults() {
    assert_eq!(message(".name \"x\"\nlive \"one\""), "Invalid parameter type 'one' at line 2");
    assert_eq!(message(".name \"x\"\nlive %1 live"), "Invalid parameter type 'live' at line 2");
    assert_eq!(message(".name \"x\"\n\nld .name"), "Invalid parameter type '.name' at line 3");
    assert_eq!(message(".name \"x\"\nld lab: r1"), "Invalid parameter type 'lab:' at line 2");
}

#[test]
fn test_tokens_made_by_hand() {
    let token = |kind, value: &str, line| Token::new(kind, value.to_string(), line, 1);
    // No token for the end of the source, and colons without end.
    let tokens = vec![
        token(TokenType::Directive, ".name", 1),
        token(TokenType::String, "n", 1),
        token(TokenType::Label, "a:::", 2),
        token(TokenType::Instruction, "aff", 2),
        token(TokenType::LabelRef, "::b", 2),
        token(TokenType::Direct, "%%7", 2),
    ];
    let ast = Parser::new(tokens).parse().unwrap();
    assert_eq!(ast.header.name, "n");
    assert_eq!(ast.instructions.len(), 1);
    assert_eq!(ast.instructions[0].label, Some("a".to_string()));
    assert_eq!(ast.instructions[0].parameters[0].value, "b");
    assert_eq!(ast.instructions[0].parameters[1].value, "7");
    // What stands after the token for the end is not read.
    let tokens = vec![
        token(TokenType::Directive, ".name", 1),
        token(TokenType::String, "n", 1),
        token(TokenType::Eof, "", 1),
        token(TokenType::Instruction, "live", 2),
    ];
    assert_eq!(Parser::new(tokens).parse().unwrap().instructions.len(), 0);
    assert_eq!(Assembler::default(), Assembler::new(false));
}
