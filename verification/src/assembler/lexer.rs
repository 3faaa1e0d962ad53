//! The lexer: from source text to tokens.
//!
//! Blanks other than line ends separate tokens and are dropped. A line end
//! and a comma are tokens of their own. `#` and `;` start a comment that runs
//! to the end of the line. A string stands between double quotes, with `\n`,
//! `\t`, `\\` and `\"` as escapes. `%` starts a direct value, `%:` a direct
//! label, `:` a label reference, `.` a directive. A name that ends in `:`
//! defines a label; `r` and a number that fits eight bits is a register; a
//! mnemonic, in any case, is an instruction; any other name refers to a
//! label. A number on its own is an indirect value.

use vstd::prelude::*;
use crate::error::CoreWarError;
use crate::text::{
    all_digits,
    chars_of,
    decimal,
    decimal_text,
    digits_value,
    is_digit,
    push_char,
    string_of,
};

verus! {

/// The kinds of token.
#[derive(Debug, Clone, Copy, PartialEq, Eq, Structural)]
pub enum TokenType {
    /// A mnemonic, as in `live`.
    Instruction,
    /// A register, as in `r1`.
    Register,
    /// A direct value, as in `%42`.
    Direct,
    /// A direct label, as in `%:label`.
    DirectLabel,
    /// An indirect value, as in `42`.
    Indirect,
    /// The definition of a label, as in `loop:`.
    Label,
    /// A reference to a label, as in `:loop`.
    LabelRef,
    /// A directive, as in `.name`.
    Directive,
    /// A string between double quotes.
    String,
    /// A number.
    Number,
    /// A comma.
    Comma,
    /// A line end.
    Newline,
    /// A comment.
    Comment,
    /// The end of the source.
    Eof,
}

/// A token.
#[derive(Debug, Clone)]
pub struct Token {
    /// The kind of the token.
    pub token_type: TokenType,
    /// The text of the token.
    pub value: String,
    /// The line on which the token starts, from one.
    pub line: usize,
    /// The column in which the token starts, from one.
    pub column: usize,
}

/// What a token holds.
pub struct TokenView {
    pub token_type: TokenType,
    pub value: Seq<char>,
    pub line: usize,
    pub column: usize,
}

impl View for Token {
    type V = TokenView;

    open spec fn view(&self) -> TokenView {
        TokenView {
            token_type: self.token_type,
            value: self.value@,
            line: self.line,
            column: self.column,
        }
    }
}

/// What the tokens of a list hold.
pub open spec fn token_views(tokens: Seq<Token>) -> Seq<TokenView> {
    Seq::new(tokens.len(), |i: int| tokens[i]@)
}

impl Token {
    /// A token.
    pub fn new(token_type: TokenType, value: String, line: usize, column: usize) -> (t: Self)
        ensures
            t == (Token { token_type, value, line, column }),
    {
        Token { token_type, value, line, column }
    }
}

/// Why a source cannot be turned into tokens.
#[derive(Debug, Clone, Copy, PartialEq, Eq, Structural)]
pub enum LexFault {
    /// A character that starts no token.
    Unexpected { ch: char, line: usize, column: usize },
    /// A string without its closing quote.
    Unterminated,
    /// A number without digits.
    BadNumber,
}

/// Whether a character beyond ASCII is white space, as `char::is_whitespace`
/// says: the characters with the Unicode property `White_Space`.
pub uninterp spec fn unicode_white_space(c: char) -> bool;

/// Whether a character of ASCII is white space: the space, the two tabs,
/// the line feed, the form feed and the carriage return, U+0009 to U+000D
/// and U+0020.
pub open spec fn ascii_white_space(c: char) -> bool {
    c == ' ' || ('\u{9}' <= c && c <= '\u{d}')
}

/// Whether a character is white space: within ASCII the six characters of
/// [`ascii_white_space`]; beyond it, those with the Unicode property
/// `White_Space`.
pub open spec fn white_space(c: char) -> bool {
    if c <= '\u{7f}' {
        ascii_white_space(c)
    } else {
        unicode_white_space(c)
    }
}

/// Whether a character is white space, as `char::is_whitespace` says: a
/// character has the property `White_Space`; of ASCII these are U+0009 to
/// U+000D and U+0020.
#[verifier::external_body]
fn is_white_space(c: char) -> (white: bool)
    ensures
        white == (if c <= '\u{7f}' {
            ascii_white_space(c)
        } else {
            unicode_white_space(c)
        }),
{
    c.is_whitespace()
}

/// Whether a character is a blank that separates tokens: white space other
/// than a line end.
pub open spec fn is_blank(c: char) -> bool {
    white_space(c) && c != '\n'
}

/// Within ASCII the blanks are the space, the two tabs, the form feed and
/// the carriage return: no letter, digit or mark is one.
pub proof fn lemma_ascii_blanks(c: char)
    requires
        c <= '\u{7f}',
    ensures
        is_blank(c) == (c == ' ' || c == '\t' || c == '\u{b}' || c == '\u{c}' || c == '\r'),
{
}

/// Whether a character is a letter of the Latin alphabet.
pub open spec fn is_letter(c: char) -> bool {
    'a' <= c <= 'z' || 'A' <= c <= 'Z'
}

/// Whether a character may stand in a name.
pub open spec fn is_name_char(c: char) -> bool {
    is_letter(c) || is_digit(c) || c == '_'
}

/// A letter in lower case; any other character as it is.
pub open spec fn lowered(c: char) -> char {
    if 'A' <= c <= 'Z' {
        ((c as u8) + 32) as char
    } else {
        c
    }
}

/// A text in lower case.
pub open spec fn lower_text(text: Seq<char>) -> Seq<char> {
    Seq::new(text.len(), |i: int| lowered(text[i]))
}

/// A counter of lines or columns moved on by `n`, as far as it goes.
pub open spec fn moved(counter: usize, n: int) -> usize {
    if counter + n <= usize::MAX {
        (counter + n) as usize
    } else {
        usize::MAX
    }
}

/// The first position from `from` on at which no blank stands.
pub open spec fn blanks_end(s: Seq<char>, from: int) -> int
    decreases s.len() - from,
{
    if from < s.len() && is_blank(s[from]) {
        blanks_end(s, from + 1)
    } else {
        from
    }
}

/// The first position from `from` on at which no character of a name
/// stands.
pub open spec fn name_end(s: Seq<char>, from: int) -> int
    decreases s.len() - from,
{
    if from < s.len() && is_name_char(s[from]) {
        name_end(s, from + 1)
    } else {
        from
    }
}

/// The first position from `from` on at which no digit stands.
pub open spec fn digits_end(s: Seq<char>, from: int) -> int
    decreases s.len() - from,
{
    if from < s.len() && is_digit(s[from]) {
        digits_end(s, from + 1)
    } else {
        from
    }
}

/// The first position from `from` on at which a line ends, or the end of
/// the source.
pub open spec fn line_end(s: Seq<char>, from: int) -> int
    decreases s.len() - from,
{
    if from < s.len() && s[from] != '\n' {
        line_end(s, from + 1)
    } else {
        from
    }
}

/// Where a name that starts at `from` ends: after its last character, and
/// after the colon that follows it, if one does.
pub open spec fn identifier_end(s: Seq<char>, from: int) -> int {
    let end = name_end(s, from);
    if end < s.len() && s[end] == ':' {
        end + 1
    } else {
        end
    }
}

/// Where a number that starts at `from` ends: after an optional minus sign
/// and the digits that follow.
pub open spec fn number_end(s: Seq<char>, from: int) -> int {
    if from < s.len() && s[from] == '-' {
        digits_end(s, from + 1)
    } else {
        digits_end(s, from)
    }
}

/// Whether a number stands at `from`: at least one digit after the
/// optional minus sign.
pub open spec fn number_at(s: Seq<char>, from: int) -> bool {
    if from < s.len() && s[from] == '-' {
        digits_end(s, from + 1) > from + 1
    } else {
        digits_end(s, from) > from
    }
}

/// The position of the quote that closes the string whose content starts
/// at `from`, or the end of the source if none does. A backslash takes the
/// character after it with it.
pub open spec fn string_end(s: Seq<char>, from: int) -> int
    decreases s.len() - from,
{
    if from >= s.len() || s[from] == '"' {
        from
    } else if s[from] == '\\' && from + 1 < s.len() {
        string_end(s, from + 2)
    } else {
        string_end(s, from + 1)
    }
}

/// What an escape stands for: the character after the backslash for `n`,
/// `t`, a backslash and a quote; the backslash and the character for any
/// other.
pub open spec fn escaped(c: char) -> Seq<char> {
    if c == 'n' {
        seq!['\n']
    } else if c == 't' {
        seq!['\t']
    } else if c == '\\' {
        seq!['\\']
    } else if c == '"' {
        seq!['"']
    } else {
        seq!['\\', c]
    }
}

/// The text of the string whose content starts at `from`.
pub open spec fn string_text(s: Seq<char>, from: int) -> Seq<char>
    decreases s.len() - from,
{
    if from >= s.len() || s[from] == '"' {
        Seq::<char>::empty()
    } else if s[from] == '\\' && from + 1 < s.len() {
        escaped(s[from + 1]) + string_text(s, from + 2)
    } else {
        seq![s[from]] + string_text(s, from + 1)
    }
}

/// Whether a text is a number that fits eight bits: digits only, at least
/// one, with a value of at most 255.
pub open spec fn is_small_number(text: Seq<char>) -> bool {
    all_digits(text, 0) && digits_value(text, text.len() as int) <= 255
}

/// Whether a text in lower case is a mnemonic.
pub open spec fn is_mnemonic(text: Seq<char>) -> bool {
    text == "live"@ || text == "ld"@ || text == "st"@ || text == "add"@ || text == "sub"@ || text
        == "and"@ || text == "or"@ || text == "xor"@ || text == "zjmp"@ || text == "ldi"@ || text
        == "sti"@ || text == "fork"@ || text == "lld"@ || text == "lldi"@ || text == "lfork"@
        || text == "aff"@
}

/// The kind and the text of the token that a name makes.
pub open spec fn classified(name: Seq<char>) -> (TokenType, Seq<char>) {
    if name.len() > 0 && name.last() == ':' {
        (TokenType::Label, name)
    } else if name.len() > 1 && name[0] == 'r' && is_small_number(name.subrange(1, name.len() as int)) {
        (TokenType::Register, name)
    } else if is_mnemonic(lower_text(name)) {
        (TokenType::Instruction, lower_text(name))
    } else {
        (TokenType::LabelRef, name)
    }
}

/// What stands at a position: a token, with the position after it, or a
/// fault.
pub enum Scanned {
    Token { token_type: TokenType, value: Seq<char>, next: int },
    Fault { fault: LexFault },
}

/// The token that starts at `at`, where a character stands that is no
/// blank, on the given line and column.
pub open spec fn scanned(s: Seq<char>, at: int, line: usize, column: usize) -> Scanned {
    let c = s[at];
    if c == '\n' {
        Scanned::Token { token_type: TokenType::Newline, value: seq!['\n'], next: at + 1 }
    } else if c == ',' {
        Scanned::Token { token_type: TokenType::Comma, value: seq![','], next: at + 1 }
    } else if c == '#' || c == ';' {
        Scanned::Token {
            token_type: TokenType::Comment,
            value: s.subrange(at + 1, line_end(s, at + 1)),
            next: line_end(s, at + 1),
        }
    } else if c == '"' {
        if string_end(s, at + 1) >= s.len() {
            Scanned::Fault { fault: LexFault::Unterminated }
        } else {
            Scanned::Token {
                token_type: TokenType::String,
                value: string_text(s, at + 1),
                next: string_end(s, at + 1) + 1,
            }
        }
    } else if c == '%' {
        if at + 1 < s.len() && s[at + 1] == ':' {
            Scanned::Token {
                token_type: TokenType::DirectLabel,
                value: seq!['%', ':'] + s.subrange(at + 2, identifier_end(s, at + 2)),
                next: identifier_end(s, at + 2),
            }
        } else if number_at(s, at + 1) {
            Scanned::Token {
                token_type: TokenType::Direct,
                value: seq!['%'] + s.subrange(at + 1, number_end(s, at + 1)),
                next: number_end(s, at + 1),
            }
        } else {
            Scanned::Fault { fault: LexFault::BadNumber }
        }
    } else if c == ':' {
        Scanned::Token {
            token_type: TokenType::LabelRef,
            value: seq![':'] + s.subrange(at + 1, identifier_end(s, at + 1)),
            next: identifier_end(s, at + 1),
        }
    } else if c == '.' {
        Scanned::Token {
            token_type: TokenType::Directive,
            value: seq!['.'] + s.subrange(at + 1, identifier_end(s, at + 1)),
            next: identifier_end(s, at + 1),
        }
    } else if is_letter(c) || c == '_' {
        Scanned::Token {
            token_type: classified(s.subrange(at, identifier_end(s, at))).0,
            value: classified(s.subrange(at, identifier_end(s, at))).1,
            next: identifier_end(s, at),
        }
    } else if is_digit(c) || c == '-' {
        if number_at(s, at) {
            Scanned::Token {
                token_type: TokenType::Indirect,
                value: s.subrange(at, number_end(s, at)),
                next: number_end(s, at),
            }
        } else {
            Scanned::Fault { fault: LexFault::BadNumber }
        }
    } else {
        Scanned::Fault { fault: LexFault::Unexpected { ch: c, line, column } }
    }
}

/// A scan for the end of a run of characters ends no earlier than it
/// starts and no later than the source.
pub proof fn lemma_scan_bounds(s: Seq<char>, from: int)
    ensures
        from <= blanks_end(s, from),
        from <= name_end(s, from),
        from <= digits_end(s, from),
        from <= line_end(s, from),
        from <= string_end(s, from),
        from <= s.len() ==> blanks_end(s, from) <= s.len() && name_end(s, from) <= s.len()
            && digits_end(s, from) <= s.len() && line_end(s, from) <= s.len() && string_end(
            s,
            from,
        ) <= s.len(),
        from <= s.len() ==> from <= identifier_end(s, from) <= s.len() && number_end(s, from)
            <= s.len(),
        blanks_end(s, from) < s.len() ==> !is_blank(s[blanks_end(s, from)]),
        number_at(s, from) ==> from < number_end(s, from),
    decreases s.len() - from,
{
    if from < s.len() {
        lemma_scan_bounds(s, from + 1);
        if from + 1 < s.len() {
            lemma_scan_bounds(s, from + 2);
        }
    }
}

/// A token ends after it starts and no later than the source.
pub proof fn lemma_scanned_bounds(s: Seq<char>, at: int, line: usize, column: usize)
    requires
        0 <= at < s.len(),
    ensures
        scanned(s, at, line, column) matches Scanned::Token { next, .. } ==> at < next <= s.len(),
{
    lemma_scan_bounds(s, at);
    lemma_scan_bounds(s, at + 1);
    if at + 2 <= s.len() {
        lemma_scan_bounds(s, at + 2);
    }
    let c = s[at];
    if is_letter(c) || c == '_' {
        assert(is_name_char(c));
        assert(name_end(s, at) == name_end(s, at + 1));
    }
}

/// The tokens of the source from `from` on, where the given line and column
/// have been reached, with the token for the end of the source as the last;
/// or the first fault. After a line end the next line starts in column one;
/// after any other token the column has moved on by the token's length.
pub open spec fn tokens_from(s: Seq<char>, from: int, line: usize, column: usize) -> Result<
    Seq<TokenView>,
    LexFault,
>
    decreases s.len() - from,
    when 0 <= from
    via tokens_from_decreases
{
    let at = blanks_end(s, from);
    let start = moved(column, at - from);
    if at >= s.len() {
        Ok(seq![TokenView { token_type: TokenType::Eof, value: Seq::<char>::empty(), line, column: start }])
    } else {
        match scanned(s, at, line, start) {
            Scanned::Fault { fault } => Err(fault),
            Scanned::Token { token_type, value, next } => {
                let rest = if token_type == TokenType::Newline {
                    tokens_from(s, next, moved(line, 1), 1)
                } else {
                    tokens_from(s, next, line, moved(start, next - at))
                };
                match rest {
                    Ok(tokens) => Ok(
                        seq![TokenView { token_type, value, line, column: start }] + tokens,
                    ),
                    Err(fault) => Err(fault),
                }
            },
        }
    }
}

#[via_fn]
proof fn tokens_from_decreases(s: Seq<char>, from: int, line: usize, column: usize) {
    let at = blanks_end(s, from);
    lemma_scan_bounds(s, from);
    if at < s.len() {
        lemma_scanned_bounds(s, at, line, moved(column, at - from));
    }
}

/// The lexer after a token that ends before `next`: at the start of the
/// next line after a line end, further on in the same line after any other.
pub open spec fn lexer_after(before: LexerView, token_type: TokenType, next: int) -> LexerView {
    if token_type == TokenType::Newline {
        LexerView {
            position: next as usize,
            line: moved(before.line, 1),
            column: 1,
            source: before.source,
        }
    } else {
        before.at(next)
    }
}

/// A result with tokens put in front of its tokens.
pub open spec fn prepended(tokens: Seq<TokenView>, rest: Result<Seq<TokenView>, LexFault>) -> Result<
    Seq<TokenView>,
    LexFault,
> {
    match rest {
        Ok(more) => Ok(tokens + more),
        Err(fault) => Err(fault),
    }
}

/// The tokens from a position on are the token that stands there and the
/// tokens from its end on.
pub proof fn lemma_tokens_unfold(l: LexerView)
    requires
        l.wf(),
    ensures
        ({
            let s = l.source;
            let at = blanks_end(s, l.position as int);
            let start = moved(l.column, at - l.position);
            if at >= s.len() {
                tokens_from(s, l.position as int, l.line, l.column) == Ok::<
                    Seq<TokenView>,
                    LexFault,
                >(
                    seq![
                        TokenView {
                            token_type: TokenType::Eof,
                            value: Seq::<char>::empty(),
                            line: l.line,
                            column: start,
                        },
                    ],
                )
            } else {
                match scanned(s, at, l.line, start) {
                    Scanned::Fault { fault } => tokens_from(
                        s,
                        l.position as int,
                        l.line,
                        l.column,
                    ) == Err::<Seq<TokenView>, LexFault>(fault),
                    Scanned::Token { token_type, value, next } => {
                        let after = lexer_after(l.at(at), token_type, next);
                        &&& at < next <= s.len()
                        &&& after.wf()
                        &&& tokens_from(s, l.position as int, l.line, l.column) == prepended(
                            seq![TokenView { token_type, value, line: l.line, column: start }],
                            tokens_from(s, after.position as int, after.line, after.column),
                        )
                    },
                }
            }
        }),
{
    let s = l.source;
    let at = blanks_end(s, l.position as int);
    lemma_scan_bounds(s, l.position as int);
    if at < s.len() {
        lemma_scanned_bounds(s, at, l.line, moved(l.column, at - l.position));
    }
}

/// The tokens of a source end with the token for the end of the source,
/// and hold no other such token.
pub proof fn lemma_tokens_end(s: Seq<char>, from: int, line: usize, column: usize)
    requires
        0 <= from <= s.len(),
    ensures
        tokens_from(s, from, line, column) matches Ok(tokens) ==> tokens.len() > 0
            && tokens.last().token_type == TokenType::Eof && forall|i: int|
            0 <= i < tokens.len() - 1 ==> (#[trigger] tokens[i]).token_type != TokenType::Eof,
    decreases s.len() - from,
{
    let at = blanks_end(s, from);
    let start = moved(column, at - from);
    lemma_scan_bounds(s, from);
    if at < s.len() {
        lemma_scanned_bounds(s, at, line, start);
        match scanned(s, at, line, start) {
            Scanned::Token { token_type, value, next } => {
                if token_type == TokenType::Newline {
                    lemma_tokens_end(s, next, moved(line, 1), 1);
                } else {
                    lemma_tokens_end(s, next, line, moved(start, next - at));
                }
            },
            Scanned::Fault { .. } => {},
        }
    }
}

/// The message of a fault.
pub open spec fn fault_text(fault: LexFault) -> Seq<char> {
    match fault {
        LexFault::Unexpected { ch, line, column } => "Unexpected character '"@ + seq![ch]
            + "' at line "@ + decimal_text(line as int) + ", column "@ + decimal_text(column as int),
        LexFault::Unterminated => "Unterminated string literal"@,
        LexFault::BadNumber => "Invalid number format"@,
    }
}

/// Whether an error reports the given fault.
pub open spec fn reports(e: CoreWarError, fault: LexFault) -> bool {
    e matches CoreWarError::Assembler { message } && message@ == fault_text(fault)
}

/// The error that reports a fault.
fn fault_error(fault: LexFault) -> (e: CoreWarError)
    ensures
        reports(e, fault),
{
    let mut message = String::new();
    match fault {
        LexFault::Unexpected { ch, line, column } => {
            message.append("Unexpected character '");
            push_char(&mut message, ch);
            message.append("' at line ");
            message.append(decimal(line as i128).as_str());
            message.append(", column ");
            message.append(decimal(column as i128).as_str());
            assert(message@ =~= fault_text(fault));
        },
        LexFault::Unterminated => {
            message.append("Unterminated string literal");
        },
        LexFault::BadNumber => {
            message.append("Invalid number format");
        },
    }
    assert(message@ =~= fault_text(fault));
    CoreWarError::assembler(message)
}

/// Whether a character is a decimal digit.
fn digit(c: char) -> (b: bool)
    ensures
        b == is_digit(c),
{
    c >= '0' && c <= '9'
}

/// Whether a character is a letter of the Latin alphabet.
fn letter(c: char) -> (b: bool)
    ensures
        b == is_letter(c),
{
    (c >= 'a' && c <= 'z') || (c >= 'A' && c <= 'Z')
}

/// Whether a character may stand in a name.
fn name_char(c: char) -> (b: bool)
    ensures
        b == is_name_char(c),
{
    letter(c) || digit(c) || c == '_'
}

/// Whether the characters are those of the literal.
pub(crate) fn text_is(chars: &Vec<char>, literal: &str) -> (b: bool)
    ensures
        b == (chars@ == literal@),
{
    let other = chars_of(literal);
    if chars.len() != other.len() {
        assert(chars@.len() != literal@.len());
        return false;
    }
    let mut i: usize = 0;
    while i < chars.len()
        invariant
            i <= chars@.len(),
            chars@.len() == other@.len(),
            other@ == literal@,
            forall|j: int| 0 <= j < i ==> chars@[j] == other@[j],
        decreases chars@.len() - i,
    {
        if chars[i] != other[i] {
            assert(chars@[i as int] != literal@[i as int]);
            return false;
        }
        i += 1;
    }
    assert(chars@ =~= other@);
    true
}

/// Whether the characters from `from` on are a number that fits eight bits.
fn small_number(chars: &Vec<char>, from: usize) -> (b: bool)
    requires
        from <= chars@.len(),
    ensures
        b == is_small_number(chars@.subrange(from as int, chars@.len() as int)),
{
    let ghost text = chars@.subrange(from as int, chars@.len() as int);
    if from == chars.len() {
        return false;
    }
    let mut value: u32 = 0;
    let mut i: usize = from;
    while i < chars.len()
        invariant
            from <= i <= chars@.len(),
            text == chars@.subrange(from as int, chars@.len() as int),
            forall|j: int| 0 <= j < i - from ==> is_digit(#[trigger] text[j]),
            value == if digits_value(text, i - from) <= 255 {
                digits_value(text, i - from)
            } else {
                256
            },
        decreases chars@.len() - i,
    {
        let c = chars[i];
        assert(text[i - from] == c);
        if !digit(c) {
            return false;
        }
        if value <= 255 {
            value = value * 10 + ((c as u8) - 48) as u32;
            if value > 255 {
                value = 256;
            }
        }
        i += 1;
    }
    value <= 255
}

/// What a lexer holds.
pub struct LexerView {
    /// The source.
    pub source: Seq<char>,
    /// The position that has been reached.
    pub position: usize,
    /// The line that has been reached, from one.
    pub line: usize,
    /// The column that has been reached, from one.
    pub column: usize,
}

impl LexerView {
    /// The position lies in the source or at its end.
    pub open spec fn wf(self) -> bool {
        self.position <= self.source.len() <= usize::MAX
    }

    /// The lexer after it has read on to `position` on the same line.
    pub open spec fn at(self, position: int) -> LexerView {
        LexerView {
            position: position as usize,
            column: moved(self.column, position - self.position),
            ..self
        }
    }
}

/// The lexer.
#[derive(Debug)]
pub struct Lexer {
    /// The source.
    source: Vec<char>,
    /// The position that has been reached.
    position: usize,
    /// The line that has been reached.
    line: usize,
    /// The column that has been reached.
    column: usize,
}

impl View for Lexer {
    type V = LexerView;

    closed spec fn view(&self) -> LexerView {
        LexerView {
            source: self.source@,
            position: self.position,
            line: self.line,
            column: self.column,
        }
    }
}

impl Lexer {
    /// A lexer at the start of a source: line one, column one.
    pub fn new(source: &str) -> (lexer: Self)
        ensures
            lexer@ == (LexerView { source: source@, position: 0, line: 1, column: 1 }),
            lexer@.wf(),
    {
        let chars = chars_of(source);
        proof {
            vstd::std_specs::vec::axiom_spec_len(&chars);
        }
        Lexer { source: chars, position: 0, line: 1, column: 1 }
    }

    /// Whether the end of the source is reached.
    fn is_at_end(&self) -> (b: bool)
        ensures
            b == (self@.position >= self@.source.len()),
    {
        self.position >= self.source.len()
    }

    /// The character at the position, or NUL at the end of the source.
    fn peek(&self) -> (c: char)
        ensures
            c == if self@.position < self@.source.len() {
                self@.source[self@.position as int]
            } else {
                '\0'
            },
    {
        if self.is_at_end() {
            '\0'
        } else {
            self.source[self.position]
        }
    }

    /// Reads the character at the position and moves on; at the end of the
    /// source it reads NUL and stays.
    fn advance(&mut self) -> (c: char)
        requires
            old(self)@.wf(),
        ensures
            old(self)@.position < old(self)@.source.len() ==> c == old(self)@.source[old(
                self,
            )@.position as int] && final(self)@ == old(self)@.at(old(self)@.position + 1),
            old(self)@.position >= old(self)@.source.len() ==> c == '\0' && final(self)@ == old(
                self,
            )@,
            final(self)@.wf(),
    {
        if self.is_at_end() {
            '\0'
        } else {
            let ch = self.source[self.position];
            self.position += 1;
            self.column = self.column.saturating_add(1);
            ch
        }
    }

    /// Skips blanks.
    fn skip_whitespace(&mut self)
        requires
            old(self)@.wf(),
        ensures
            final(self)@ == old(self)@.at(blanks_end(old(self)@.source, old(self)@.position as int)),
            final(self)@.wf(),
    {
        let ghost start = self@;
        while !self.is_at_end() && is_white_space(self.peek()) && self.peek() != '\n'
            invariant
                self@.wf(),
                start.wf(),
                start.position <= self@.position,
                self@ == start.at(self@.position as int),
                blanks_end(start.source, start.position as int) == blanks_end(
                    start.source,
                    self@.position as int,
                ),
            decreases self@.source.len() - self@.position,
        {
            self.advance();
        }
    }

    /// Reads a comment: all up to the end of the line.
    fn read_comment(&mut self) -> (comment: String)
        requires
            old(self)@.wf(),
        ensures
            comment@ == old(self)@.source.subrange(
                old(self)@.position as int,
                line_end(old(self)@.source, old(self)@.position as int),
            ),
            final(self)@ == old(self)@.at(line_end(old(self)@.source, old(self)@.position as int)),
            final(self)@.wf(),
    {
        let ghost start = self@;
        let mut comment = String::new();
        while !self.is_at_end() && self.peek() != '\n'
            invariant
                self@.wf(),
                start.wf(),
                start.position <= self@.position,
                self@ == start.at(self@.position as int),
                line_end(start.source, start.position as int) == line_end(
                    start.source,
                    self@.position as int,
                ),
                comment@ == start.source.subrange(start.position as int, self@.position as int),
            decreases self@.source.len() - self@.position,
        {
            let c = self.advance();
            push_char(&mut comment, c);
            assert(comment@ =~= start.source.subrange(
                start.position as int,
                self@.position as int,
            ));
        }
        comment
    }

    /// Reads the content of a string and the quote that closes it.
    fn read_string(&mut self) -> (r: Result<String, CoreWarError>)
        requires
            old(self)@.wf(),
        ensures
            final(self)@.wf(),
            final(self)@.source == old(self)@.source,
            final(self)@.line == old(self)@.line,
            string_end(old(self)@.source, old(self)@.position as int) >= old(self)@.source.len()
                ==> (r matches Err(e) && reports(e, LexFault::Unterminated)),
            string_end(old(self)@.source, old(self)@.position as int) < old(self)@.source.len()
                ==> (r matches Ok(text) && text@ == string_text(
                old(self)@.source,
                old(self)@.position as int,
            )) && final(self)@ == old(self)@.at(
                string_end(old(self)@.source, old(self)@.position as int) + 1,
            ),
    {
        let ghost start = self@;
        let ghost s = self@.source;
        let mut string_value = String::new();
        while !self.is_at_end() && self.peek() != '"'
            invariant
                self@.wf(),
                start.wf(),
                s == start.source,
                start.position <= self@.position,
                self@ == start.at(self@.position as int),
                string_end(s, start.position as int) == string_end(s, self@.position as int),
                string_text(s, start.position as int) == string_value@ + string_text(
                    s,
                    self@.position as int,
                ),
            decreases self@.source.len() - self@.position,
        {
            let ghost here = self@.position as int;
            let ghost before = string_value@;
            let ch = self.advance();
            if ch == '\\' && !self.is_at_end() {
                let escaped_char = self.advance();
                if escaped_char == 'n' {
                    push_char(&mut string_value, '\n');
                } else if escaped_char == 't' {
                    push_char(&mut string_value, '\t');
                } else if escaped_char == '\\' {
                    push_char(&mut string_value, '\\');
                } else if escaped_char == '"' {
                    push_char(&mut string_value, '"');
                } else {
                    push_char(&mut string_value, '\\');
                    push_char(&mut string_value, escaped_char);
                }
                assert(string_value@ =~= before + escaped(s[here + 1]));
                assert(string_text(s, here) == escaped(s[here + 1]) + string_text(s, here + 2));
                assert(string_value@ + string_text(s, here + 2) =~= before + (escaped(s[here + 1])
                    + string_text(s, here + 2)));
            } else {
                push_char(&mut string_value, ch);
                assert(string_value@ =~= before + seq![s[here]]);
                assert(string_text(s, here) == seq![s[here]] + string_text(s, here + 1));
                assert(string_value@ + string_text(s, here + 1) =~= before + (seq![s[here]]
                    + string_text(s, here + 1)));
            }
        }
        if self.is_at_end() {
            return Err(fault_error(LexFault::Unterminated));
        }
        assert(string_text(s, self@.position as int) =~= Seq::<char>::empty());
        assert(string_value@ + Seq::<char>::empty() =~= string_value@);
        self.advance();
        Ok(string_value)
    }

    /// Reads a name, and the colon after it if one follows.
    fn read_identifier(&mut self) -> (r: Result<String, CoreWarError>)
        requires
            old(self)@.wf(),
        ensures
            r matches Ok(name) && name@ == old(self)@.source.subrange(
                old(self)@.position as int,
                identifier_end(old(self)@.source, old(self)@.position as int),
            ),
            final(self)@ == old(self)@.at(
                identifier_end(old(self)@.source, old(self)@.position as int),
            ),
            final(self)@.wf(),
    {
        let ghost start = self@;
        let ghost s = self@.source;
        let mut identifier = String::new();
        while !self.is_at_end() && name_char(self.peek())
            invariant
                self@.wf(),
                start.wf(),
                s == start.source,
                start.position <= self@.position,
                self@ == start.at(self@.position as int),
                name_end(s, start.position as int) == name_end(s, self@.position as int),
                identifier@ == s.subrange(start.position as int, self@.position as int),
            decreases self@.source.len() - self@.position,
        {
            let c = self.advance();
            push_char(&mut identifier, c);
            assert(identifier@ =~= s.subrange(start.position as int, self@.position as int));
        }
        if !self.is_at_end() && self.peek() == ':' {
            self.advance();
            push_char(&mut identifier, ':');
            assert(identifier@ =~= s.subrange(start.position as int, self@.position as int));
        }
        Ok(identifier)
    }

    /// Reads a number: an optional minus sign and digits.
    fn read_number(&mut self) -> (r: Result<String, CoreWarError>)
        requires
            old(self)@.wf(),
        ensures
            final(self)@.wf(),
            final(self)@.source == old(self)@.source,
            final(self)@.line == old(self)@.line,
            number_at(old(self)@.source, old(self)@.position as int) ==> (r matches Ok(number)
                && number@ == old(self)@.source.subrange(
                old(self)@.position as int,
                number_end(old(self)@.source, old(self)@.position as int),
            )) && final(self)@ == old(self)@.at(
                number_end(old(self)@.source, old(self)@.position as int),
            ),
            !number_at(old(self)@.source, old(self)@.position as int) ==> (r matches Err(e)
                && reports(e, LexFault::BadNumber)),
    {
        let ghost start = self@;
        let ghost s = self@.source;
        let mut number = String::new();
        let mut digits: usize = 0;
        if !self.is_at_end() && self.peek() == '-' {
            let c = self.advance();
            push_char(&mut number, c);
            assert(number@ =~= s.subrange(start.position as int, self@.position as int));
        }
        let ghost first = self@.position as int;
        while !self.is_at_end() && digit(self.peek())
            invariant
                self@.wf(),
                start.wf(),
                s == start.source,
                start.position <= first <= self@.position,
                self@ == start.at(self@.position as int),
                digits_end(s, first) == digits_end(s, self@.position as int),
                number@ == s.subrange(start.position as int, self@.position as int),
                digits == self@.position - first,
            decreases self@.source.len() - self@.position,
        {
            let c = self.advance();
            push_char(&mut number, c);
            digits += 1;
            assert(number@ =~= s.subrange(start.position as int, self@.position as int));
        }
        if digits == 0 {
            return Err(fault_error(LexFault::BadNumber));
        }
        Ok(number)
    }

    /// The kind and the text of the token that a name makes.
    fn classify_identifier(&self, identifier: String) -> (r: Option<(TokenType, String)>)
        ensures
            r matches Some((token_type, text)) && token_type == classified(identifier@).0 && text@
                == classified(identifier@).1,
    {
        let chars = chars_of(identifier.as_str());
        let n = chars.len();
        if n > 0 && chars[n - 1] == ':' {
            return Some((TokenType::Label, identifier));
        }
        if n > 1 && chars[0] == 'r' && small_number(&chars, 1) {
            return Some((TokenType::Register, identifier));
        }
        let mut lower: Vec<char> = Vec::new();
        let mut i: usize = 0;
        while i < n
            invariant
                i <= n,
                n == chars@.len(),
                lower@.len() == i,
                forall|j: int| 0 <= j < i ==> lower@[j] == lowered(chars@[j]),
            decreases n - i,
        {
            let c = chars[i];
            let l = if c >= 'A' && c <= 'Z' {
                ((c as u8) + 32) as char
            } else {
                c
            };
            lower.push(l);
            i += 1;
        }
        assert(lower@ =~= lower_text(identifier@));
        let known = text_is(&lower, "live") || text_is(&lower, "ld") || text_is(&lower, "st")
            || text_is(&lower, "add") || text_is(&lower, "sub") || text_is(&lower, "and")
            || text_is(&lower, "or") || text_is(&lower, "xor") || text_is(&lower, "zjmp")
            || text_is(&lower, "ldi") || text_is(&lower, "sti") || text_is(&lower, "fork")
            || text_is(&lower, "lld") || text_is(&lower, "lldi") || text_is(&lower, "lfork")
            || text_is(&lower, "aff");
        if known {
            Some((TokenType::Instruction, string_of(&lower, 0, n)))
        } else {
            Some((TokenType::LabelRef, identifier))
        }
    }

    /// Reads the next token: skips blanks, then reads the token that
    /// starts there. Returns nothing at the end of the source.
    fn next_token(&mut self) -> (r: Result<Option<Token>, CoreWarError>)
        requires
            old(self)@.wf(),
        ensures
            final(self)@.wf(),
            final(self)@.source == old(self)@.source,
            ({
                let s = old(self)@.source;
                let at = blanks_end(s, old(self)@.position as int);
                let start = moved(old(self)@.column, at - old(self)@.position);
                if at >= s.len() {
                    r matches Ok(None) && final(self)@ == old(self)@.at(at)
                } else {
                    match scanned(s, at, old(self)@.line, start) {
                        Scanned::Fault { fault } => r matches Err(e) && reports(e, fault),
                        Scanned::Token { token_type, value, next } => (r matches Ok(Some(token))
                            && token@ == (TokenView {
                            token_type,
                            value,
                            line: old(self)@.line,
                            column: start,
                        })) && final(self)@ == lexer_after(old(self)@.at(at), token_type, next),
                    }
                }
            }),
    {
        let ghost s = self@.source;
        proof {
            lemma_scan_bounds(s, self@.position as int);
        }
        self.skip_whitespace();
        if self.is_at_end() {
            return Ok(None);
        }
        let ghost here = self@;
        let ghost at = self@.position as int;
        proof {
            lemma_scanned_bounds(s, at, self@.line, self@.column);
            lemma_scan_bounds(s, at + 1);
            lemma_scan_bounds(s, at + 2);
            reveal_strlit("\n");
            reveal_strlit(",");
            reveal_strlit("%:");
            reveal_strlit("%");
            reveal_strlit(":");
            reveal_strlit(".");
            assert("\n"@ =~= seq!['\n']);
            assert(","@ =~= seq![',']);
            assert("%:"@ =~= seq!['%', ':']);
            assert("%"@ =~= seq!['%']);
            assert(":"@ =~= seq![':']);
            assert("."@ =~= seq!['.']);
        }
        let start_line = self.line;
        let start_column = self.column;
        let ch = self.peek();
        if ch == '\n' {
            self.advance();
            self.line = self.line.saturating_add(1);
            self.column = 1;
            Ok(Some(Token::new(TokenType::Newline, String::from_str("\n"), start_line, start_column)))
        } else if ch == ',' {
            self.advance();
            Ok(Some(Token::new(TokenType::Comma, String::from_str(","), start_line, start_column)))
        } else if ch == '#' || ch == ';' {
            self.advance();
            let comment = self.read_comment();
            Ok(Some(Token::new(TokenType::Comment, comment, start_line, start_column)))
        } else if ch == '"' {
            self.advance();
            match self.read_string() {
                Ok(text) => Ok(Some(Token::new(TokenType::String, text, start_line, start_column))),
                Err(e) => Err(e),
            }
        } else if ch == '%' {
            self.advance();
            if self.peek() == ':' {
                self.advance();
                match self.read_identifier() {
                    Ok(label) => {
                        let mut value = String::from_str("%:");
                        value.append(label.as_str());
                        Ok(
                            Some(
                                Token::new(TokenType::DirectLabel, value, start_line, start_column),
                            ),
                        )
                    },
                    Err(e) => Err(e),
                }
            } else {
                match self.read_number() {
                    Ok(number) => {
                        let mut value = String::from_str("%");
                        value.append(number.as_str());
                        Ok(Some(Token::new(TokenType::Direct, value, start_line, start_column)))
                    },
                    Err(e) => Err(e),
                }
            }
        } else if ch == ':' {
            self.advance();
            match self.read_identifier() {
                Ok(label) => {
                    let mut value = String::from_str(":");
                    value.append(label.as_str());
                    Ok(Some(Token::new(TokenType::LabelRef, value, start_line, start_column)))
                },
                Err(e) => Err(e),
            }
        } else if ch == '.' {
            self.advance();
            match self.read_identifier() {
                Ok(directive) => {
                    let mut value = String::from_str(".");
                    value.append(directive.as_str());
                    Ok(Some(Token::new(TokenType::Directive, value, start_line, start_column)))
                },
                Err(e) => Err(e),
            }
        } else if letter(ch) || ch == '_' {
            match self.read_identifier() {
                Ok(identifier) => match self.classify_identifier(identifier) {
                    Some((token_type, value)) => Ok(
                        Some(Token::new(token_type, value, start_line, start_column)),
                    ),
                    None => Ok(None),
                },
                Err(e) => Err(e),
            }
        } else if digit(ch) || ch == '-' {
            match self.read_number() {
                Ok(number) => Ok(
                    Some(Token::new(TokenType::Indirect, number, start_line, start_column)),
                ),
                Err(e) => Err(e),
            }
        } else {
            self.advance();
            Err(
                fault_error(
                    LexFault::Unexpected { ch, line: start_line, column: start_column },
                ),
            )
        }
    }

    /// Turns the rest of the source into tokens; the last token stands for
    /// the end of the source. The first character that starts no token, the
    /// first string without its closing quote, and the first number without
    /// digits end the work with an error.
    pub fn tokenize(&mut self) -> (r: Result<Vec<Token>, CoreWarError>)
        requires
            old(self)@.wf(),
        ensures
            final(self)@.wf(),
            final(self)@.source == old(self)@.source,
            match tokens_from(
                old(self)@.source,
                old(self)@.position as int,
                old(self)@.line,
                old(self)@.column,
            ) {
                Ok(expected) => (r matches Ok(tokens) && token_views(tokens@) == expected)
                    && final(self)@ == (LexerView {
                    source: old(self)@.source,
                    position: old(self)@.source.len() as usize,
                    line: expected.last().line,
                    column: expected.last().column,
                }),
                Err(fault) => r matches Err(e) && reports(e, fault),
            },
    {
        let ghost start = self@;
        let ghost s = self@.source;
        let ghost whole = tokens_from(s, start.position as int, start.line, start.column);
        let mut tokens: Vec<Token> = Vec::new();
        while !self.is_at_end()
            invariant
                self@.wf(),
                self@.source == s,
                s == old(self)@.source,
                whole == tokens_from(
                    s,
                    old(self)@.position as int,
                    old(self)@.line,
                    old(self)@.column,
                ),
                whole == prepended(
                    token_views(tokens@),
                    tokens_from(s, self@.position as int, self@.line, self@.column),
                ),
            decreases s.len() - self@.position,
        {
            let ghost before = self@;
            let ghost seen = token_views(tokens@);
            proof {
                lemma_tokens_unfold(before);
                lemma_scan_bounds(s, before.position as int);
            }
            match self.next_token() {
                Ok(Some(token)) => {
                    tokens.push(token);
                    proof {
                        let rest = tokens_from(s, self@.position as int, self@.line, self@.column);
                        assert(token_views(tokens@) =~= seen + seq![token@]);
                        match rest {
                            Ok(more) => {
                                assert((seen + seq![token@]) + more =~= seen + (seq![token@]
                                    + more));
                            },
                            Err(_) => {},
                        }
                    }
                },
                Ok(None) => {
                    proof {
                        lemma_tokens_unfold(self@);
                        lemma_scan_bounds(s, self@.position as int);
                        assert(blanks_end(s, self@.position as int) == self@.position);
                    }
                },
                Err(e) => {
                    return Err(e);
                },
            }
        }
        let ghost seen = token_views(tokens@);
        proof {
            lemma_tokens_unfold(self@);
            lemma_scan_bounds(s, self@.position as int);
        }
        tokens.push(Token::new(TokenType::Eof, String::new(), self.line, self.column));
        proof {
            let last = TokenView {
                token_type: TokenType::Eof,
                value: Seq::<char>::empty(),
                line: self@.line,
                column: self@.column,
            };
            assert(token_views(tokens@) =~= seen + seq![last]);
        }
        Ok(tokens)
    }
}

} // verus!
