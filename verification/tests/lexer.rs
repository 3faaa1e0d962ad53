use corewar::assembler::lexer::{Lexer, Token, TokenType};
use corewar::CoreWarError;

fn kinds(tokens: &[Token]) -> Vec<TokenType> {
    tokens.iter().map(|t| t.token_type).collect()
}

fn values(tokens: &[Token]) -> Vec<&str> {
    tokens.iter().map(|t| t.value.as_str()).collect()
}

fn message(source: &str) -> String {
    match Lexer::new(source).tokenize() {
        Err(CoreWarError::Assembler { message }) => message,
        other => panic!("unexpected {:?}", other),
    }
}

#[test]
fn test_simple_tokenization() {
    let mut lexer = Lexer::new("live %1");
    let tokens = lexer.tokenize().unwrap();

    assert_eq!(tokens.len(), 3);
    assert_eq!(tokens[0].token_type, TokenType::Instruction);
    assert_eq!(tokens[0].value, "live");
    assert_eq!(tokens[1].token_type, TokenType::Direct);
    assert_eq!(tokens[1].value, "%1");
}

#[test]
fn test_register_tokenization() {
    let mut lexer = Lexer::new("r1 r16");
    let tokens = lexer.tokenize().unwrap();

    assert_eq!(tokens[0].token_type, TokenType::Register);
    assert_eq!(tokens[0].value, "r1");
    assert_eq!(tokens[1].token_type, TokenType::Register);
    assert_eq!(tokens[1].value, "r16");
}

#[test]
fn test_label_tokenization() {
    let mut lexer = Lexer::new("loop: zjmp :loop");
    let tokens = lexer.tokenize().unwrap();

    assert_eq!(tokens[0].token_type, TokenType::Label);
    assert_eq!(tokens[0].value, "loop:");
    assert_eq!(tokens[1].token_type, TokenType::Instruction);
    assert_eq!(tokens[1].value, "zjmp");
    assert_eq!(tokens[2].token_type, TokenType::LabelRef);
    assert_eq!(tokens[2].value, ":loop");
}

#[test]
fn test_directive_tokenization() {
    let mut lexer = Lexer::new(".name \"test\"");
    let tokens = lexer.tokenize().unwrap();

    assert_eq!(tokens[0].token_type, TokenType::Directive);
    assert_eq!(tokens[0].value, ".name");
    assert_eq!(tokens[1].token_type, TokenType::String);
    assert_eq!(tokens[1].value, "test");
}

#[test]
fn test_empty_source() {
    let tokens = Lexer::new("").tokenize().unwrap();
    assert_eq!(kinds(&tokens), vec![TokenType::Eof]);
    assert_eq!(tokens[0].value, "");
    assert_eq!((tokens[0].line, tokens[0].column), (1, 1));
    let tokens = Lexer::new("  \t ").tokenize().unwrap();
    assert_eq!(kinds(&tokens), vec![TokenType::Eof]);
    assert_eq!((tokens[0].line, tokens[0].column), (1, 5));
}

#[test]
fn test_lines_and_columns() {
    let tokens = Lexer::new("live %1\n  ld %0, r2 # load\n").tokenize().unwrap();
    assert_eq!(
        kinds(&tokens),
        vec![
            TokenType::Instruction,
            TokenType::Direct,
            TokenType::Newline,
            TokenType::Instruction,
            TokenType::Direct,
            TokenType::Comma,
            TokenType::Register,
            TokenType::Comment,
            TokenType::Newline,
            TokenType::Eof,
        ]
    );
    assert_eq!(values(&tokens), vec!["live", "%1", "\n", "ld", "%0", ",", "r2", " load", "\n", ""]);
    let places: Vec<(usize, usize)> = tokens.iter().map(|t| (t.line, t.column)).collect();
    assert_eq!(
        places,
        vec![(1, 1), (1, 6), (1, 8), (2, 3), (2, 6), (2, 8), (2, 10), (2, 13), (2, 19), (3, 1)]
    );
}

#[test]
fn test_names() {
    let tokens = Lexer::new("LIVE Zjmp lfork r0 r255 r256 r007 rx r _x9 start: r1: ld:").tokenize().unwrap();
    assert_eq!(
        kinds(&tokens),
        vec![
            TokenType::Instruction,
            TokenType::Instruction,
            TokenType::Instruction,
            TokenType::Register,
            TokenType::Register,
            TokenType::LabelRef,
            TokenType::Register,
            TokenType::LabelRef,
            TokenType::LabelRef,
            TokenType::LabelRef,
            TokenType::Label,
            TokenType::Label,
            TokenType::Label,
            TokenType::Eof,
        ]
    );
    assert_eq!(
        values(&tokens),
        vec!["live", "zjmp", "lfork", "r0", "r255", "r256", "r007", "rx", "r", "_x9", "start:", "r1:", "ld:", ""]
    );
    for mnemonic in [
        "live", "ld", "st", "add", "sub", "and", "or", "xor", "zjmp", "ldi", "sti", "fork", "lld",
        "lldi", "lfork", "aff",
    ] {
        let tokens = Lexer::new(mnemonic).tokenize().unwrap();
        assert_eq!(tokens[0].token_type, TokenType::Instruction);
        assert_eq!(tokens[0].value, mnemonic);
    }
}

#[test]
fn test_values_and_labels() {
    let tokens = Lexer::new("%-12 %:loop %:l: -7 42 :x .comment .").tokenize().unwrap();
    assert_eq!(
        kinds(&tokens),
        vec![
            TokenType::Direct,
            TokenType::DirectLabel,
            TokenType::DirectLabel,
            TokenType::Indirect,
            TokenType::Indirect,
            TokenType::LabelRef,
            TokenType::Directive,
            TokenType::Directive,
            TokenType::Eof,
        ]
    );
    assert_eq!(values(&tokens), vec!["%-12", "%:loop", "%:l:", "-7", "42", ":x", ".comment", ".", ""]);
}

#[test]
fn test_strings_and_escapes() {
    let tokens = Lexer::new(r#""a\nb\t\\\"\q" """#).tokenize().unwrap();
    assert_eq!(kinds(&tokens), vec![TokenType::String, TokenType::String, TokenType::Eof]);
    assert_eq!(tokens[0].value, "a\nb\t\\\"\\q");
    assert_eq!(tokens[1].value, "");
    assert_eq!(tokens[1].column, 16);
    // A line end inside a string does not start a new line for the lexer.
    let tokens = Lexer::new("\"a\nb\" x").tokenize().unwrap();
    assert_eq!(tokens[0].value, "a\nb");
    assert_eq!((tokens[1].line, tokens[1].column), (1, 7));
}

#[test]
fn test_comments() {
    let tokens = Lexer::new("; all of it\n#").tokenize().unwrap();
    assert_eq!(kinds(&tokens), vec![TokenType::Comment, TokenType::Newline, TokenType::Comment, TokenType::Eof]);
    assert_eq!(values(&tokens), vec![" all of it", "\n", "", ""]);
}

#[test]
fn test_lexer_faults() {
    assert_eq!(message("live @"), "Unexpected character '@' at line 1, column 6");
    assert_eq!(message("\n\n  $"), "Unexpected character '$' at line 3, column 3");
    assert_eq!(message("\"open"), "Unterminated string literal");
    assert_eq!(message("\"open\\"), "Unterminated string literal");
    assert_eq!(message("\"open\\\""), "Unterminated string literal");
    assert_eq!(message("%"), "Invalid number format");
    assert_eq!(message("%-"), "Invalid number format");
    assert_eq!(message("%x"), "Invalid number format");
    assert_eq!(message("- 5"), "Invalid number format");
    assert_eq!(message("ld %1 \u{e9}"), "Unexpected character '\u{e9}' at line 1, column 7");
}

#[test]
fn test_unicode_blanks_are_skipped() {
    let tokens = Lexer::new("live\u{a0}\u{2003}%1\r\n").tokenize().unwrap();
    assert_eq!(
        kinds(&tokens),
        vec![TokenType::Instruction, TokenType::Direct, TokenType::Newline, TokenType::Eof]
    );
    assert_eq!(tokens[1].column, 7);
    assert_eq!(tokens[2].column, 10);
}

#[test]
fn test_tokenize_again_gives_the_end() {
    let mut lexer = Lexer::new("live %1");
    lexer.tokenize().unwrap();
    let tokens = lexer.tokenize().unwrap();
    assert_eq!(kinds(&tokens), vec![TokenType::Eof]);
    assert_eq!(tokens[0].column, 8);
    let token = Token::new(TokenType::Comma, ",".to_string(), 3, 4);
    assert_eq!((token.token_type, token.value.as_str(), token.line, token.column), (TokenType::Comma, ",", 3, 4));
}

#[test]
fn test_ascii_white_space_separates_tokens() {
    for blank in [" ", "\t", "\u{b}", "\u{c}", "\r", " \t \r"] {
        let source = format!("live{}%1", blank);
        let tokens = Lexer::new(&source).tokenize().unwrap();
        assert_eq!(kinds(&tokens), vec![TokenType::Instruction, TokenType::Direct, TokenType::Eof]);
        assert_eq!(values(&tokens)[..2], ["live", "%1"]);
    }
    // A line feed is white space too, and a token of its own.
    let tokens = Lexer::new("live\n%1").tokenize().unwrap();
    assert_eq!(
        kinds(&tokens),
        vec![TokenType::Instruction, TokenType::Newline, TokenType::Direct, TokenType::Eof]
    );
}

#[test]
fn test_marks_and_letters_are_no_white_space() {
    // Nothing is skipped between the register and the direct operand.
    let tokens = Lexer::new("r1%2").tokenize().unwrap();
    assert_eq!(values(&tokens)[..2], ["r1", "%2"]);
    assert_eq!(tokens[0].column, 1);
    assert_eq!(tokens[1].column, 3);
    // White space beyond ASCII separates as well.
    let tokens = Lexer::new("r1\u{a0}\u{2003}%2").tokenize().unwrap();
    assert_eq!(values(&tokens)[..2], ["r1", "%2"]);
    assert_eq!(tokens[1].column, 5);
}
