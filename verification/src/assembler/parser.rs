//! The parser: from tokens to a syntax tree.
//!
//! A program is a header and instructions. The header is made of the
//! directives `.name` and `.comment`, each followed by a string; a name is
//! required. An instruction is an optional label, a mnemonic, and operands up
//! to the end of the line, with or without commas between them. A label on a
//! line of its own belongs to the next instruction. Tokens that start no
//! instruction are passed over.

use vstd::prelude::*;
use crate::assembler::lexer::{text_is, token_views, Token, TokenType, TokenView};
use crate::assembler::{
    AstNode,
    AstView,
    InstructionNode,
    InstructionView,
    ParameterNode,
    ParameterView,
    ProgramHeader,
    ProgramHeaderView,
    text_view,
};
use crate::error::CoreWarError;
use crate::text::{chars_of, decimal, decimal_text, string_of};

verus! {

/// Why tokens are no program.
pub enum ParseFault {
    /// No string follows `.name`.
    NameExpected { line: usize },
    /// No string follows `.comment`.
    CommentExpected { line: usize },
    /// A directive other than `.name` and `.comment`.
    UnknownDirective { value: Seq<char>, line: usize },
    /// The header gives no name.
    NameRequired,
    /// A token that is no operand stands among the operands.
    BadParameter { value: Seq<char>, line: usize },
}

/// Whether the tokens are used up at `at`: there is no token there, or the
/// one that stands for the end of the source.
pub open spec fn at_end(ts: Seq<TokenView>, at: int) -> bool {
    at >= ts.len() || ts[at].token_type == TokenType::Eof
}

/// The token that is looked at: the one at `at`, or the last one past the
/// end.
pub open spec fn peeked(ts: Seq<TokenView>, at: int) -> TokenView {
    if at >= ts.len() {
        ts[ts.len() - 1]
    } else {
        ts[at]
    }
}

/// The position after the token at `at`; the same position once the tokens
/// are used up.
pub open spec fn stepped(ts: Seq<TokenView>, at: int) -> int {
    if at_end(ts, at) {
        at
    } else {
        at + 1
    }
}

/// The first position from `at` on that holds no line end.
pub open spec fn lines_end(ts: Seq<TokenView>, at: int) -> int
    decreases ts.len() - at,
{
    if !at_end(ts, at) && ts[at].token_type == TokenType::Newline {
        lines_end(ts, at + 1)
    } else {
        at
    }
}

/// The first position from `at` on that holds neither a line end nor a
/// comment.
pub open spec fn filler_end(ts: Seq<TokenView>, at: int) -> int
    decreases ts.len() - at,
{
    if !at_end(ts, at) && (ts[at].token_type == TokenType::Newline || ts[at].token_type
        == TokenType::Comment) {
        filler_end(ts, at + 1)
    } else {
        at
    }
}

/// The number of times that `c` stands at the start of a text.
pub open spec fn leading(text: Seq<char>, c: char, from: int) -> int
    decreases text.len() - from,
{
    if from < text.len() && text[from] == c {
        leading(text, c, from + 1)
    } else {
        from
    }
}

/// The length of a text without the `c` that stand at its end.
pub open spec fn trailing(text: Seq<char>, c: char, to: int) -> int
    decreases to,
{
    if 0 < to <= text.len() && text[to - 1] == c {
        trailing(text, c, to - 1)
    } else {
        to
    }
}

/// The position after the `%:` that stand, one after the other, at the
/// start of a text.
pub open spec fn leading_marks(text: Seq<char>, from: int) -> int
    decreases text.len() - from,
{
    if 0 <= from && from + 1 < text.len() && text[from] == '%' && text[from + 1] == ':' {
        leading_marks(text, from + 2)
    } else {
        from
    }
}

/// A text without the `c` at its start.
pub open spec fn without_leading(text: Seq<char>, c: char) -> Seq<char> {
    text.subrange(leading(text, c, 0), text.len() as int)
}

/// A text without the `c` at its end.
pub open spec fn without_trailing(text: Seq<char>, c: char) -> Seq<char> {
    text.subrange(0, trailing(text, c, text.len() as int))
}

/// A text without the `%:` at its start.
pub open spec fn without_marks(text: Seq<char>) -> Seq<char> {
    text.subrange(leading_marks(text, 0), text.len() as int)
}

/// The operand that a token makes, if it makes one.
pub open spec fn parameter_of(t: TokenView) -> Result<ParameterView, ParseFault> {
    match t.token_type {
        TokenType::Register => Ok(ParameterView { param_type: "register"@, value: t.value }),
        TokenType::Direct => Ok(
            ParameterView { param_type: "direct"@, value: without_leading(t.value, '%') },
        ),
        TokenType::DirectLabel => Ok(
            ParameterView { param_type: "label"@, value: without_marks(t.value) },
        ),
        TokenType::Indirect => Ok(ParameterView { param_type: "indirect"@, value: t.value }),
        TokenType::LabelRef => Ok(
            ParameterView { param_type: "label"@, value: without_leading(t.value, ':') },
        ),
        _ => Err(ParseFault::BadParameter { value: t.value, line: t.line }),
    }
}

/// Whether the operands of an instruction end at `at`: the tokens are used
/// up, or a line end or a comment stands there.
pub open spec fn operands_stop(ts: Seq<TokenView>, at: int) -> bool {
    at_end(ts, at) || ts[at].token_type == TokenType::Newline || ts[at].token_type
        == TokenType::Comment
}

/// The operands from `at` on and the position after them, or the first
/// fault. Commas are passed over.
pub open spec fn operands_from(ts: Seq<TokenView>, at: int) -> Result<(Seq<ParameterView>, int), ParseFault>
    decreases ts.len() - at,
{
    if operands_stop(ts, at) {
        Ok((Seq::<ParameterView>::empty(), at))
    } else if ts[at].token_type == TokenType::Comma {
        operands_from(ts, at + 1)
    } else {
        match parameter_of(ts[at]) {
            Err(fault) => Err(fault),
            Ok(p) => match operands_from(ts, at + 1) {
                Err(fault) => Err(fault),
                Ok((more, next)) => Ok((seq![p] + more, next)),
            },
        }
    }
}

/// What reading the header leaves behind: the name, the comment, and the
/// position after the header.
pub struct HeaderScan {
    pub name: Seq<char>,
    pub comment: Seq<char>,
    pub next: int,
}

/// The header from `at` on, where the given name and comment have been
/// read: each `.name` and `.comment` with its string replaces what was
/// read before; line ends and comments after a directive are passed over.
pub open spec fn header_from(ts: Seq<TokenView>, at: int, name: Seq<char>, comment: Seq<char>)
    -> Result<HeaderScan, ParseFault>
    decreases ts.len() - at,
    when 0 <= at
    via header_from_decreases
{
    if at_end(ts, at) || ts[at].token_type != TokenType::Directive {
        Ok(HeaderScan { name, comment, next: at })
    } else if ts[at].value == ".name"@ {
        if at + 1 < ts.len() && ts[at + 1].token_type == TokenType::String {
            header_from(ts, filler_end(ts, at + 2), ts[at + 1].value, comment)
        } else {
            Err(ParseFault::NameExpected { line: ts[at].line })
        }
    } else if ts[at].value == ".comment"@ {
        if at + 1 < ts.len() && ts[at + 1].token_type == TokenType::String {
            header_from(ts, filler_end(ts, at + 2), name, ts[at + 1].value)
        } else {
            Err(ParseFault::CommentExpected { line: ts[at].line })
        }
    } else {
        Err(ParseFault::UnknownDirective { value: ts[at].value, line: ts[at].line })
    }
}

/// Passing over tokens goes forwards and stays in the list.
pub proof fn lemma_skip_bounds(ts: Seq<TokenView>, at: int)
    ensures
        at <= lines_end(ts, at),
        at <= filler_end(ts, at),
        at <= ts.len() ==> lines_end(ts, at) <= ts.len() && filler_end(ts, at) <= ts.len(),
        at > ts.len() ==> lines_end(ts, at) == at && filler_end(ts, at) == at,
        forall|j: int|
            0 <= at <= j < lines_end(ts, at) ==> (#[trigger] ts[j]).token_type
                == TokenType::Newline,
    decreases ts.len() - at,
{
    if at < ts.len() {
        lemma_skip_bounds(ts, at + 1);
    }
}

#[via_fn]
proof fn header_from_decreases(ts: Seq<TokenView>, at: int, name: Seq<char>, comment: Seq<char>) {
    lemma_skip_bounds(ts, at + 2);
}

/// The header that stands at `at`, after any line ends and comments, or the
/// first fault. A header without a name is a fault.
pub open spec fn header_at(ts: Seq<TokenView>, at: int) -> Result<HeaderScan, ParseFault> {
    match header_from(ts, filler_end(ts, at), Seq::<char>::empty(), Seq::<char>::empty()) {
        Err(fault) => Err(fault),
        Ok(scan) => if scan.name.len() == 0 {
            Err(ParseFault::NameRequired)
        } else {
            Ok(scan)
        },
    }
}

/// What reading one instruction leaves behind: the instruction, if there is
/// one; the position after it; and the label that waits for the next
/// instruction.
pub struct InstructionScan {
    pub node: Option<InstructionView>,
    pub next: int,
    pub pending: Option<Seq<char>>,
}

/// The instruction that starts at `at`, where a token stands, with the label
/// `pending` waiting. A label that stands there replaces the one that
/// waits. Where no mnemonic follows, there is no instruction and the label
/// goes on waiting.
pub open spec fn instruction_at(ts: Seq<TokenView>, at: int, pending: Option<Seq<char>>) -> Result<
    InstructionScan,
    ParseFault,
> {
    let labelled = ts[at].token_type == TokenType::Label;
    let label = if labelled {
        Some(without_trailing(ts[at].value, ':'))
    } else {
        pending
    };
    let start = if labelled {
        lines_end(ts, at + 1)
    } else {
        at
    };
    if peeked(ts, start).token_type != TokenType::Instruction {
        Ok(InstructionScan { node: None, next: start, pending: label })
    } else {
        match operands_from(ts, start + 1) {
            Err(fault) => Err(fault),
            Ok((parameters, next)) => Ok(
                InstructionScan {
                    node: Some(
                        InstructionView {
                            label,
                            mnemonic: ts[start].value,
                            parameters,
                            line_number: ts[at].line,
                        },
                    ),
                    next,
                    pending: None,
                },
            ),
        }
    }
}

/// The position from which the instructions go on after one was read from
/// `from` up to `next`: after the line end that follows it, if one does;
/// and in any case at least one token further than `from`.
pub open spec fn resumed(ts: Seq<TokenView>, from: int, next: int) -> int {
    let after = if !at_end(ts, next) && ts[next].token_type == TokenType::Newline {
        next + 1
    } else {
        next
    };
    if after == from {
        stepped(ts, after)
    } else {
        after
    }
}

/// The instructions from `at` on, with the label `pending` waiting, or the
/// first fault. Line ends and comments between instructions are passed
/// over.
pub open spec fn instructions_from(ts: Seq<TokenView>, at: int, pending: Option<Seq<char>>)
    -> Result<Seq<InstructionView>, ParseFault>
    decreases ts.len() - at,
    when 0 <= at
    via instructions_from_decreases
{
    let start = lines_end(ts, at);
    if at_end(ts, at) || at_end(ts, start) {
        Ok(Seq::<InstructionView>::empty())
    } else if ts[start].token_type == TokenType::Comment {
        instructions_from(ts, start + 1, pending)
    } else {
        match instruction_at(ts, start, pending) {
            Err(fault) => Err(fault),
            Ok(scan) => match instructions_from(ts, resumed(ts, at, scan.next), scan.pending) {
                Err(fault) => Err(fault),
                Ok(more) => match scan.node {
                    Some(node) => Ok(seq![node] + more),
                    None => Ok(more),
                },
            },
        }
    }
}

/// Operands end no earlier than they start and no later than the tokens.
pub proof fn lemma_operands_bounds(ts: Seq<TokenView>, at: int)
    requires
        at <= ts.len(),
    ensures
        operands_from(ts, at) matches Ok((_, next)) ==> at <= next <= ts.len(),
    decreases ts.len() - at,
{
    if !operands_stop(ts, at) {
        lemma_operands_bounds(ts, at + 1);
    }
}

/// An instruction ends no earlier than it starts and no later than the
/// tokens.
pub proof fn lemma_instruction_bounds(ts: Seq<TokenView>, at: int, pending: Option<Seq<char>>)
    requires
        0 <= at < ts.len(),
    ensures
        instruction_at(ts, at, pending) matches Ok(scan) ==> at <= scan.next <= ts.len(),
{
    lemma_skip_bounds(ts, at + 1);
    let start = if ts[at].token_type == TokenType::Label {
        lines_end(ts, at + 1)
    } else {
        at
    };
    if start < ts.len() {
        lemma_operands_bounds(ts, start + 1);
    } else {
        assert(ts[ts.len() - 1].token_type != TokenType::Instruction);
    }
}

#[via_fn]
proof fn instructions_from_decreases(ts: Seq<TokenView>, at: int, pending: Option<Seq<char>>) {
    lemma_skip_bounds(ts, at);
    let start = lines_end(ts, at);
    if !at_end(ts, at) && !at_end(ts, start) {
        lemma_instruction_bounds(ts, start, pending);
    }
}

/// The instructions from a position on are the instruction that stands
/// there, if one does, and the instructions from where the parser resumes.
pub proof fn lemma_instructions_unfold(ts: Seq<TokenView>, at: int, pending: Option<Seq<char>>)
    requires
        0 <= at <= ts.len(),
    ensures
        ({
            let start = lines_end(ts, at);
            if at_end(ts, at) || at_end(ts, start) {
                instructions_from(ts, at, pending) == Ok::<Seq<InstructionView>, ParseFault>(
                    Seq::<InstructionView>::empty(),
                )
            } else if ts[start].token_type == TokenType::Comment {
                instructions_from(ts, at, pending) == instructions_from(ts, start + 1, pending)
            } else {
                match instruction_at(ts, start, pending) {
                    Err(fault) => instructions_from(ts, at, pending) == Err::<
                        Seq<InstructionView>,
                        ParseFault,
                    >(fault),
                    Ok(scan) => {
                        &&& at < resumed(ts, at, scan.next) <= ts.len()
                        &&& instructions_from(ts, at, pending) == prepended(
                            match scan.node {
                                Some(node) => seq![node],
                                None => Seq::<InstructionView>::empty(),
                            },
                            instructions_from(ts, resumed(ts, at, scan.next), scan.pending),
                        )
                    },
                }
            }
        }),
{
    lemma_skip_bounds(ts, at);
    let start = lines_end(ts, at);
    if !at_end(ts, at) && !at_end(ts, start) && ts[start].token_type != TokenType::Comment {
        lemma_instruction_bounds(ts, start, pending);
        match instruction_at(ts, start, pending) {
            Ok(scan) => {
                match instructions_from(ts, resumed(ts, at, scan.next), scan.pending) {
                    Ok(more) => {
                        assert(Seq::<InstructionView>::empty() + more =~= more);
                    },
                    Err(_) => {},
                }
            },
            Err(_) => {},
        }
    }
}

/// The program that the tokens from `at` on make, with the label `pending`
/// waiting, or the first fault.
pub open spec fn program_at(ts: Seq<TokenView>, at: int, pending: Option<Seq<char>>) -> Result<
    AstView,
    ParseFault,
> {
    match header_at(ts, at) {
        Err(fault) => Err(fault),
        Ok(scan) => match instructions_from(ts, scan.next, pending) {
            Err(fault) => Err(fault),
            Ok(instructions) => Ok(
                AstView {
                    header: ProgramHeaderView { name: scan.name, comment: scan.comment },
                    instructions,
                },
            ),
        },
    }
}

/// The message of a fault.
pub open spec fn fault_text(fault: ParseFault) -> Seq<char> {
    match fault {
        ParseFault::NameExpected { line } => "Expected string after .name directive at line "@
            + decimal_text(line as int),
        ParseFault::CommentExpected { line } => "Expected string after .comment directive at line "@
            + decimal_text(line as int),
        ParseFault::UnknownDirective { value, line } => "Unknown directive '"@ + value
            + "' at line "@ + decimal_text(line as int),
        ParseFault::NameRequired => ".name directive is required"@,
        ParseFault::BadParameter { value, line } => "Invalid parameter type '"@ + value
            + "' at line "@ + decimal_text(line as int),
    }
}

/// Whether an error reports the given fault.
pub open spec fn reports(e: CoreWarError, fault: ParseFault) -> bool {
    e matches CoreWarError::Assembler { message } && message@ == fault_text(fault)
}

/// The views of a list of operands.
pub open spec fn parameter_views(parameters: Seq<ParameterNode>) -> Seq<ParameterView> {
    Seq::new(parameters.len(), |i: int| parameters[i]@)
}

/// The views of a list of instructions.
pub open spec fn instruction_views(instructions: Seq<InstructionNode>) -> Seq<InstructionView> {
    Seq::new(instructions.len(), |i: int| instructions[i]@)
}

/// A result with instructions put in front of its instructions.
pub open spec fn prepended(
    instructions: Seq<InstructionView>,
    rest: Result<Seq<InstructionView>, ParseFault>,
) -> Result<Seq<InstructionView>, ParseFault> {
    match rest {
        Ok(more) => Ok(instructions + more),
        Err(fault) => Err(fault),
    }
}

/// The error that reports a fault about a line, with a text where the
/// fault names one.
fn fault_error(kind: FaultKind, value: &str, line: usize) -> (e: CoreWarError)
    ensures
        reports(e, kind.fault(value@, line)),
{
    let mut message = String::new();
    match kind {
        FaultKind::NameExpected => {
            message.append("Expected string after .name directive at line ");
            message.append(decimal(line as i128).as_str());
        },
        FaultKind::CommentExpected => {
            message.append("Expected string after .comment directive at line ");
            message.append(decimal(line as i128).as_str());
        },
        FaultKind::UnknownDirective => {
            message.append("Unknown directive '");
            message.append(value);
            message.append("' at line ");
            message.append(decimal(line as i128).as_str());
        },
        FaultKind::NameRequired => {
            message.append(".name directive is required");
        },
        FaultKind::BadParameter => {
            message.append("Invalid parameter type '");
            message.append(value);
            message.append("' at line ");
            message.append(decimal(line as i128).as_str());
        },
    }
    assert(message@ =~= fault_text(kind.fault(value@, line)));
    CoreWarError::assembler(message)
}

/// The kinds of fault.
#[derive(Debug, Clone, Copy, PartialEq, Eq, Structural)]
pub enum FaultKind {
    NameExpected,
    CommentExpected,
    UnknownDirective,
    NameRequired,
    BadParameter,
}

impl FaultKind {
    /// The fault of this kind about the given text and line.
    pub open spec fn fault(self, value: Seq<char>, line: usize) -> ParseFault {
        match self {
            FaultKind::NameExpected => ParseFault::NameExpected { line },
            FaultKind::CommentExpected => ParseFault::CommentExpected { line },
            FaultKind::UnknownDirective => ParseFault::UnknownDirective { value, line },
            FaultKind::NameRequired => ParseFault::NameRequired,
            FaultKind::BadParameter => ParseFault::BadParameter { value, line },
        }
    }
}

/// A text without the `c` at its start.
fn drop_leading(text: &str, c: char) -> (r: String)
    ensures
        r@ == without_leading(text@, c),
{
    let chars = chars_of(text);
    let n = chars.len();
    let mut i: usize = 0;
    while i < n && chars[i] == c
        invariant
            i <= n,
            n == chars@.len(),
            leading(chars@, c, 0) == leading(chars@, c, i as int),
        decreases n - i,
    {
        i += 1;
    }
    string_of(&chars, i, n)
}

/// A text without the `c` at its end.
fn drop_trailing(text: &str, c: char) -> (r: String)
    ensures
        r@ == without_trailing(text@, c),
{
    let chars = chars_of(text);
    let n = chars.len();
    let mut i: usize = n;
    while i > 0 && chars[i - 1] == c
        invariant
            i <= n,
            n == chars@.len(),
            trailing(chars@, c, n as int) == trailing(chars@, c, i as int),
        decreases i,
    {
        i -= 1;
    }
    string_of(&chars, 0, i)
}

/// A text without the `%:` at its start.
fn drop_marks(text: &str) -> (r: String)
    ensures
        r@ == without_marks(text@),
{
    let chars = chars_of(text);
    let n = chars.len();
    let mut i: usize = 0;
    while i < n && n - i >= 2 && chars[i] == '%' && chars[i + 1] == ':'
        invariant
            i <= n,
            n == chars@.len(),
            leading_marks(chars@, 0) == leading_marks(chars@, i as int),
        decreases n - i,
    {
        i += 2;
    }
    string_of(&chars, i, n)
}

/// What a parser holds.
pub struct ParserView {
    /// The tokens.
    pub tokens: Seq<TokenView>,
    /// The position that has been reached.
    pub current: usize,
    /// The label that waits for the next instruction.
    pub pending_label: Option<Seq<char>>,
}

impl ParserView {
    /// The position lies among the tokens or at their end.
    pub open spec fn wf(self) -> bool {
        self.current <= self.tokens.len()
    }
}

/// The parser.
#[derive(Debug)]
pub struct Parser {
    /// The tokens.
    tokens: Vec<Token>,
    /// The position that has been reached.
    current: usize,
    /// The label that waits for the next instruction.
    pending_label: Option<String>,
}

impl View for Parser {
    type V = ParserView;

    closed spec fn view(&self) -> ParserView {
        ParserView {
            tokens: token_views(self.tokens@),
            current: self.current,
            pending_label: text_view(self.pending_label),
        }
    }
}

impl Parser {
    /// A parser at the start of the tokens, with no label waiting.
    pub fn new(tokens: Vec<Token>) -> (parser: Self)
        ensures
            parser@ == (ParserView {
                tokens: token_views(tokens@),
                current: 0,
                pending_label: None,
            }),
            parser@.wf(),
    {
        Parser { tokens, current: 0, pending_label: None }
    }

    /// Whether the tokens are used up.
    fn is_at_end(&self) -> (b: bool)
        ensures
            b == at_end(self@.tokens, self@.current as int),
            self@.tokens.len() <= usize::MAX,
    {
        self.current >= self.tokens.len() || match self.peek().token_type {
            TokenType::Eof => true,
            _ => false,
        }
    }

    /// The token that is looked at.
    fn peek(&self) -> (t: &Token)
        requires
            self@.tokens.len() > 0,
        ensures
            t@ == peeked(self@.tokens, self@.current as int),
    {
        if self.current >= self.tokens.len() {
            &self.tokens[self.tokens.len() - 1]
        } else {
            &self.tokens[self.current]
        }
    }

    /// Moves on by one token.
    fn advance(&mut self) -> (t: Token)
        requires
            !at_end(old(self)@.tokens, old(self)@.current as int),
        ensures
            final(self)@ == (ParserView { current: (old(self)@.current + 1) as usize, ..old(self)@ }),
            t@ == old(self)@.tokens[old(self)@.current as int],
    {
        proof {
            vstd::std_specs::vec::axiom_spec_len(&self.tokens);
        }
        let here = &self.tokens[self.current];
        let token = Token::new(here.token_type, here.value.clone(), here.line, here.column);
        self.current += 1;
        token
    }

    /// Passes over line ends.
    fn skip_newlines(&mut self)
        ensures
            final(self)@ == (ParserView {
                current: lines_end(old(self)@.tokens, old(self)@.current as int) as usize,
                ..old(self)@
            }),
            old(self)@.current <= final(self)@.current,
            old(self)@.current <= old(self)@.tokens.len() ==> final(self)@.current <= old(
                self,
            )@.tokens.len(),
    {
        let ghost start = self@;
        proof {
            lemma_skip_bounds(start.tokens, start.current as int);
        }
        while !self.is_at_end() && self.peek().token_type == TokenType::Newline
            invariant
                self@ == (ParserView { current: self@.current, ..start }),
                start.current <= self@.current,
                lines_end(start.tokens, start.current as int) == lines_end(
                    start.tokens,
                    self@.current as int,
                ),
            decreases self@.tokens.len() - self@.current,
        {
            self.current += 1;
        }
    }

    /// Passes over line ends and comments.
    fn skip_newlines_and_comments(&mut self)
        ensures
            final(self)@ == (ParserView {
                current: filler_end(old(self)@.tokens, old(self)@.current as int) as usize,
                ..old(self)@
            }),
            old(self)@.current <= final(self)@.current,
    {
        let ghost start = self@;
        proof {
            lemma_skip_bounds(start.tokens, start.current as int);
        }
        while !self.is_at_end() && (self.peek().token_type == TokenType::Newline
            || self.peek().token_type == TokenType::Comment)
            invariant
                self@ == (ParserView { current: self@.current, ..start }),
                start.current <= self@.current,
                filler_end(start.tokens, start.current as int) == filler_end(
                    start.tokens,
                    self@.current as int,
                ),
            decreases self@.tokens.len() - self@.current,
        {
            self.current += 1;
        }
    }

    /// Reads one operand.
    fn parse_parameter(&mut self) -> (r: Result<ParameterNode, CoreWarError>)
        requires
            !at_end(old(self)@.tokens, old(self)@.current as int),
        ensures
            final(self)@ == (ParserView { current: (old(self)@.current + 1) as usize, ..old(self)@ }),
            match parameter_of(old(self)@.tokens[old(self)@.current as int]) {
                Ok(p) => r matches Ok(node) && node@ == p,
                Err(fault) => r matches Err(e) && reports(e, fault),
            },
    {
        let token = self.advance();
        match token.token_type {
            TokenType::Register => Ok(
                ParameterNode { param_type: String::from_str("register"), value: token.value },
            ),
            TokenType::Direct => Ok(
                ParameterNode {
                    param_type: String::from_str("direct"),
                    value: drop_leading(token.value.as_str(), '%'),
                },
            ),
            TokenType::DirectLabel => Ok(
                ParameterNode {
                    param_type: String::from_str("label"),
                    value: drop_marks(token.value.as_str()),
                },
            ),
            TokenType::Indirect => Ok(
                ParameterNode { param_type: String::from_str("indirect"), value: token.value },
            ),
            TokenType::LabelRef => Ok(
                ParameterNode {
                    param_type: String::from_str("label"),
                    value: drop_leading(token.value.as_str(), ':'),
                },
            ),
            _ => Err(fault_error(FaultKind::BadParameter, token.value.as_str(), token.line)),
        }
    }

    /// Whether an operand or a comma stands at the position: the tokens are
    /// not used up and neither a line end nor a comment stands there.
    fn more_operands(&self) -> (b: bool)
        ensures
            b == !operands_stop(self@.tokens, self@.current as int),
            self@.tokens.len() <= usize::MAX,
    {
        if self.is_at_end() {
            return false;
        }
        let kind = self.peek().token_type;
        !(kind == TokenType::Newline || kind == TokenType::Comment || kind == TokenType::Eof)
    }

    /// Reads the operands of an instruction, up to the end of the line.
    fn parse_parameters(&mut self) -> (r: Result<Vec<ParameterNode>, CoreWarError>)
        requires
            old(self)@.current <= old(self)@.tokens.len(),
        ensures
            final(self)@.tokens == old(self)@.tokens,
            final(self)@.pending_label == old(self)@.pending_label,
            match operands_from(old(self)@.tokens, old(self)@.current as int) {
                Ok((parameters, next)) => (r matches Ok(nodes) && parameter_views(nodes@)
                    == parameters) && final(self)@.current == next,
                Err(fault) => r matches Err(e) && reports(e, fault),
            },
    {
        let ghost start = self@;
        let ghost ts = self@.tokens;
        let ghost whole = operands_from(ts, start.current as int);
        let mut parameters: Vec<ParameterNode> = Vec::new();
        let mut more = self.more_operands();
        while more
            invariant
                start == old(self)@,
                self@ == (ParserView { current: self@.current, ..start }),
                ts == start.tokens,
                start.current <= self@.current <= ts.len() <= usize::MAX,
                more == !operands_stop(ts, self@.current as int),
                whole == operands_from(ts, start.current as int),
                whole == (match operands_from(ts, self@.current as int) {
                    Ok((rest, next)) => Ok::<(Seq<ParameterView>, int), ParseFault>(
                        (parameter_views(parameters@) + rest, next),
                    ),
                    Err(fault) => Err(fault),
                }),
            decreases ts.len() - self@.current,
        {
            if self.peek().token_type == TokenType::Comma {
                self.current += 1;
            } else {
                let ghost seen = parameter_views(parameters@);
                let ghost here = self@.current as int;
                let parameter = match self.parse_parameter() {
                    Ok(p) => p,
                    Err(e) => {
                        return Err(e);
                    },
                };
                parameters.push(parameter);
                proof {
                    assert(parameter_views(parameters@) =~= seen + seq![parameter@]);
                    match operands_from(ts, here + 1) {
                        Ok((rest, next)) => {
                            assert((seen + seq![parameter@]) + rest =~= seen + (seq![parameter@]
                                + rest));
                        },
                        Err(_) => {},
                    }
                }
            }
            more = self.more_operands();
        }
        proof {
            assert(parameter_views(parameters@) + Seq::<ParameterView>::empty()
                =~= parameter_views(parameters@));
        }
        Ok(parameters)
    }

    /// Reads one instruction, where a token stands: an optional label, a
    /// mnemonic and operands. Where no mnemonic stands after the label,
    /// nothing is returned and the label waits for the next instruction.
    fn parse_instruction(&mut self) -> (r: Result<Option<InstructionNode>, CoreWarError>)
        requires
            !at_end(old(self)@.tokens, old(self)@.current as int),
        ensures
            final(self)@.tokens == old(self)@.tokens,
            match instruction_at(
                old(self)@.tokens,
                old(self)@.current as int,
                old(self)@.pending_label,
            ) {
                Ok(scan) => (r matches Ok(found) && (match found {
                    Some(node) => scan.node == Some(node@),
                    None => scan.node is None,
                })) && final(self)@.current == scan.next && final(self)@.pending_label
                    == scan.pending,
                Err(fault) => r matches Err(e) && reports(e, fault),
            },
    {
        let ghost ts = self@.tokens;
        let ghost at = self@.current as int;
        proof {
            lemma_skip_bounds(ts, at + 1);
        }
        proof {
            vstd::std_specs::vec::axiom_spec_len(&self.tokens);
        }
        let mut label: Option<String> = None;
        std::mem::swap(&mut label, &mut self.pending_label);
        let line_number = self.peek().line;
        if self.peek().token_type == TokenType::Label {
            let label_token = self.advance();
            label = Some(drop_trailing(label_token.value.as_str(), ':'));
            self.skip_newlines();
        }
        let ghost start = self@.current as int;
        if self.peek().token_type != TokenType::Instruction {
            self.pending_label = label;
            return Ok(None);
        }
        proof {
            if start >= ts.len() {
                assert(ts[ts.len() - 1].token_type != TokenType::Instruction);
            }
        }
        let mnemonic = self.advance().value;
        let parameters = match self.parse_parameters() {
            Ok(p) => p,
            Err(e) => {
                return Err(e);
            },
        };
        let node = InstructionNode { label, mnemonic, parameters, line_number };
        assert(node@.parameters =~= parameter_views(node.parameters@));
        Ok(Some(node))
    }

    /// Reads the instructions up to the end of the tokens.
    fn parse_instructions(&mut self) -> (r: Result<Vec<InstructionNode>, CoreWarError>)
        requires
            old(self)@.current <= old(self)@.tokens.len(),
        ensures
            final(self)@.tokens == old(self)@.tokens,
            match instructions_from(
                old(self)@.tokens,
                old(self)@.current as int,
                old(self)@.pending_label,
            ) {
                Ok(expected) => r matches Ok(nodes) && instruction_views(nodes@) == expected,
                Err(fault) => r matches Err(e) && reports(e, fault),
            },
            r is Ok ==> final(self)@.wf() && at_end(final(self)@.tokens, final(self)@.current as int),
    {
        let ghost ts = self@.tokens;
        let ghost whole = instructions_from(ts, self@.current as int, self@.pending_label);
        proof {
            vstd::std_specs::vec::axiom_spec_len(&self.tokens);
        }
        let mut instructions: Vec<InstructionNode> = Vec::new();
        proof {
            match whole {
                Ok(all) => {
                    assert(Seq::<InstructionView>::empty() + all =~= all);
                },
                Err(_) => {},
            }
            assert(instruction_views(instructions@) =~= Seq::<InstructionView>::empty());
        }
        while !self.is_at_end()
            invariant
                self@.tokens == ts,
                ts == old(self)@.tokens,
                self@.current <= ts.len() <= usize::MAX,
                whole == instructions_from(
                    ts,
                    old(self)@.current as int,
                    old(self)@.pending_label,
                ),
                whole == prepended(
                    instruction_views(instructions@),
                    instructions_from(ts, self@.current as int, self@.pending_label),
                ),
            decreases ts.len() - self@.current,
        {
            let ghost from = self@.current as int;
            let ghost waiting = self@.pending_label;
            let ghost seen = instruction_views(instructions@);
            proof {
                lemma_instructions_unfold(ts, from, waiting);
                lemma_skip_bounds(ts, from);
            }
            let current_position = self.current;
            self.skip_newlines();
            let ghost start = self@.current as int;
            if self.is_at_end() {
                proof {
                    assert(seen + Seq::<InstructionView>::empty() =~= seen);
                }
                return Ok(instructions);
            }
            if self.peek().token_type == TokenType::Comment {
                self.current += 1;
                continue ;
            }
            match self.parse_instruction() {
                Ok(Some(instruction)) => {
                    instructions.push(instruction);
                    assert(instruction_views(instructions@) =~= seen + seq![instruction@]);
                },
                Ok(None) => {
                    assert(instruction_views(instructions@) =~= seen + Seq::<
                        InstructionView,
                    >::empty());
                },
                Err(e) => {
                    return Err(e);
                },
            }
            let ghost next = self@.current as int;
            if !self.is_at_end() && self.peek().token_type == TokenType::Newline {
                self.current += 1;
            }
            if self.current == current_position {
                if !self.is_at_end() {
                    self.current += 1;
                }
            }
            proof {
                assert(self@.current == resumed(ts, from, next));
                let scan = instruction_at(ts, start, waiting)->Ok_0;
                let found = match scan.node {
                    Some(node) => seq![node],
                    None => Seq::<InstructionView>::empty(),
                };
                assert(instruction_views(instructions@) =~= seen + found);
                let rest = instructions_from(ts, self@.current as int, self@.pending_label);
                match rest {
                    Ok(more) => {
                        assert((seen + found) + more =~= seen + (found + more));
                    },
                    Err(_) => {},
                }
            }
        }
        proof {
            lemma_instructions_unfold(ts, self@.current as int, self@.pending_label);
            assert(instruction_views(instructions@) + Seq::<InstructionView>::empty()
                =~= instruction_views(instructions@));
        }
        Ok(instructions)
    }

    /// Reads the header: the directives `.name` and `.comment`, each with
    /// its string. A header without a name is refused.
    pub fn parse_header(&mut self) -> (r: Result<ProgramHeader, CoreWarError>)
        ensures
            final(self)@.tokens == old(self)@.tokens,
            final(self)@.pending_label == old(self)@.pending_label,
            match header_at(old(self)@.tokens, old(self)@.current as int) {
                Ok(scan) => (r matches Ok(header) && header@ == (ProgramHeaderView {
                    name: scan.name,
                    comment: scan.comment,
                })) && final(self)@.current == scan.next,
                Err(fault) => r matches Err(e) && reports(e, fault),
            },
            old(self)@.wf() ==> final(self)@.wf(),
    {
        let ghost ts = self@.tokens;
        let mut name = String::new();
        let mut comment = String::new();
        proof {
            lemma_skip_bounds(ts, self@.current as int);
        }
        self.skip_newlines_and_comments();
        let ghost first = self@.current as int;
        let ghost whole = header_from(ts, first, Seq::<char>::empty(), Seq::<char>::empty());
        let mut more = !self.is_at_end() && self.peek().token_type == TokenType::Directive;
        while more
            invariant
                self@ == (ParserView { current: self@.current, ..old(self)@ }),
                ts == old(self)@.tokens,
                ts.len() <= usize::MAX,
                old(self)@.current <= old(self)@.tokens.len() ==> self@.current <= ts.len(),
                first == filler_end(ts, old(self)@.current as int),
                whole == header_from(ts, first, Seq::<char>::empty(), Seq::<char>::empty()),
                whole == header_from(ts, self@.current as int, name@, comment@),
                more == (!at_end(ts, self@.current as int) && ts[self@.current as int].token_type
                    == TokenType::Directive),
            decreases ts.len() - self@.current,
        {
            let ghost at = self@.current as int;
            let directive = self.advance();
            let text = chars_of(directive.value.as_str());
            proof {
                lemma_skip_bounds(ts, at + 2);
            }
            if text_is(&text, ".name") {
                if self.peek().token_type == TokenType::String {
                    name = self.advance().value;
                } else {
                    return Err(fault_error(FaultKind::NameExpected, "", directive.line));
                }
            } else if text_is(&text, ".comment") {
                if self.peek().token_type == TokenType::String {
                    comment = self.advance().value;
                } else {
                    return Err(fault_error(FaultKind::CommentExpected, "", directive.line));
                }
            } else {
                return Err(
                    fault_error(
                        FaultKind::UnknownDirective,
                        directive.value.as_str(),
                        directive.line,
                    ),
                );
            }
            self.skip_newlines_and_comments();
            more = !self.is_at_end() && self.peek().token_type == TokenType::Directive;
        }
        if name.as_str().unicode_len() == 0 {
            return Err(fault_error(FaultKind::NameRequired, "", 0));
        }
        Ok(ProgramHeader { name, comment })
    }

    /// Reads a program: the header, then the instructions.
    pub fn parse(&mut self) -> (r: Result<AstNode, CoreWarError>)
        requires
            old(self)@.wf(),
        ensures
            final(self)@.tokens == old(self)@.tokens,
            match program_at(
                old(self)@.tokens,
                old(self)@.current as int,
                old(self)@.pending_label,
            ) {
                Ok(program) => r matches Ok(ast) && ast@ == program,
                Err(fault) => r matches Err(e) && reports(e, fault),
            },
            r is Ok ==> final(self)@.wf() && at_end(final(self)@.tokens, final(self)@.current as int),
    {
        let header = match self.parse_header() {
            Ok(h) => h,
            Err(e) => {
                return Err(e);
            },
        };
        let instructions = match self.parse_instructions() {
            Ok(i) => i,
            Err(e) => {
                return Err(e);
            },
        };
        let ast = AstNode { header, instructions };
        assert(ast@.instructions =~= instruction_views(ast.instructions@));
        Ok(ast)
    }
}

} // verus!
