//! The assembler: from source text to tokens, from tokens to a syntax tree,
//! and from the tree to the bytes of a champion file.

use vstd::prelude::*;

pub mod encoder;
pub mod lexer;
pub mod parser;

verus! {

/// The assembler.
#[derive(Debug, Clone, Copy, PartialEq, Eq, Structural)]
pub struct Assembler {
    /// Whether the assembler reports what it does.
    pub verbose: bool,
}

impl Assembler {
    /// An assembler.
    pub fn new(verbose: bool) -> (a: Self)
        ensures
            a.verbose == verbose,
    {
        Assembler { verbose }
    }
}

/// Why a source cannot be assembled.
pub enum AssembleFault {
    /// The source cannot be turned into tokens.
    Lexer(lexer::LexFault),
    /// The tokens are no program.
    Parser(parser::ParseFault),
    /// The program cannot be encoded.
    Encoder(encoder::EncodeFault),
}

/// The bytes of the champion file that a source stands for, or the first
/// fault: the source is turned into tokens, the tokens into a syntax tree,
/// and the tree into bytes.
pub open spec fn assembled(source: Seq<char>) -> Result<Seq<u8>, AssembleFault> {
    match lexer::tokens_from(source, 0, 1, 1) {
        Err(fault) => Err(AssembleFault::Lexer(fault)),
        Ok(tokens) => match parser::program_at(tokens, 0, None) {
            Err(fault) => Err(AssembleFault::Parser(fault)),
            Ok(ast) => match encoder::encode_tree(ast) {
                Err(fault) => Err(AssembleFault::Encoder(fault)),
                Ok(bytes) => Ok(bytes),
            },
        },
    }
}

/// Whether an error reports the given fault.
pub open spec fn reports(e: crate::error::CoreWarError, fault: AssembleFault) -> bool {
    match fault {
        AssembleFault::Lexer(f) => lexer::reports(e, f),
        AssembleFault::Parser(f) => parser::reports(e, f),
        AssembleFault::Encoder(f) => encoder::reports(e, f),
    }
}

impl Assembler {
    /// Assembles a source: returns the bytes of the champion file that it
    /// stands for, or the first fault of the lexer, of the parser or of the
    /// encoder.
    pub fn assemble_source(&self, source: &str) -> (r: Result<Vec<u8>, crate::error::CoreWarError>)
        ensures
            match assembled(source@) {
                Ok(bytes) => r matches Ok(file) && file@ == bytes,
                Err(fault) => r matches Err(e) && reports(e, fault),
            },
    {
        let mut lexer = lexer::Lexer::new(source);
        let tokens = match lexer.tokenize() {
            Ok(t) => t,
            Err(e) => {
                return Err(e);
            },
        };
        let mut parser = parser::Parser::new(tokens);
        let ast = match parser.parse() {
            Ok(a) => a,
            Err(e) => {
                return Err(e);
            },
        };
        let mut encoder = encoder::Encoder::new();
        encoder.encode(&ast)
    }
}

impl Default for Assembler {
    fn default() -> (a: Self)
        ensures
            !a.verbose,
    {
        Assembler::new(false)
    }
}

/// The syntax tree of a program.
#[derive(Debug, Clone)]
pub struct AstNode {
    /// The header.
    pub header: ProgramHeader,
    /// The instructions, in order.
    pub instructions: Vec<InstructionNode>,
}

/// The header of a program.
#[derive(Debug, Clone)]
pub struct ProgramHeader {
    /// The name of the program.
    pub name: String,
    /// The comment of the program.
    pub comment: String,
}

/// An instruction in a program.
#[derive(Debug, Clone)]
pub struct InstructionNode {
    /// The label that stands before the instruction, if one does.
    pub label: Option<String>,
    /// The mnemonic.
    pub mnemonic: String,
    /// The operands, in order.
    pub parameters: Vec<ParameterNode>,
    /// The line on which the instruction starts.
    pub line_number: usize,
}

/// An operand in a program.
#[derive(Debug, Clone)]
pub struct ParameterNode {
    /// The kind of the operand: `register`, `direct`, `indirect` or `label`.
    pub param_type: String,
    /// The text of the operand, without the signs that mark its kind.
    pub value: String,
}

/// What an operand holds.
pub struct ParameterView {
    pub param_type: Seq<char>,
    pub value: Seq<char>,
}

/// What an instruction holds.
pub struct InstructionView {
    pub label: Option<Seq<char>>,
    pub mnemonic: Seq<char>,
    pub parameters: Seq<ParameterView>,
    pub line_number: usize,
}

/// What a header holds.
pub struct ProgramHeaderView {
    pub name: Seq<char>,
    pub comment: Seq<char>,
}

/// What a syntax tree holds.
pub struct AstView {
    pub header: ProgramHeaderView,
    pub instructions: Seq<InstructionView>,
}

impl View for ParameterNode {
    type V = ParameterView;

    open spec fn view(&self) -> ParameterView {
        ParameterView { param_type: self.param_type@, value: self.value@ }
    }
}

/// What a text holds, if there is one.
pub open spec fn text_view(text: Option<String>) -> Option<Seq<char>> {
    match text {
        Some(t) => Some(t@),
        None => None,
    }
}

impl View for InstructionNode {
    type V = InstructionView;

    open spec fn view(&self) -> InstructionView {
        InstructionView {
            label: text_view(self.label),
            mnemonic: self.mnemonic@,
            parameters: Seq::new(self.parameters@.len(), |i: int| self.parameters@[i]@),
            line_number: self.line_number,
        }
    }
}

impl View for ProgramHeader {
    type V = ProgramHeaderView;

    open spec fn view(&self) -> ProgramHeaderView {
        ProgramHeaderView { name: self.name@, comment: self.comment@ }
    }
}

impl View for AstNode {
    type V = AstView;

    open spec fn view(&self) -> AstView {
        AstView {
            header: self.header@,
            instructions: Seq::new(self.instructions@.len(), |i: int| self.instructions@[i]@),
        }
    }
}

} // verus!
