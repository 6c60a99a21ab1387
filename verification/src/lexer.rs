//! GX lexer: turns raw source text into a flat list of tokens.
//!
//! The behaviour of the lexer is specified by `spec_tokenize`, a function
//! from the source characters to the token sequence (or the first error),
//! and `Lexer::tokenize` is proved to compute exactly that.
use vstd::prelude::*;
use crate::text::{
    char_is_alphabetic, chars_eq_str, chars_of, decimal, is_alphanumeric, is_ascii_digit, push_decimal,
    is_alphabetic_char, spec_is_alphanumeric, spec_is_ascii_digit, str_eq, string_from_chars,
    string_from_range, string_push,
};

verus! {

/// The kinds of token. The payload `S` is the text type: `String` for the
/// tokens the lexer hands out (see `TokenKind`), `Seq<char>` in
/// specifications. A number literal carries the characters it was written
/// with (digits and dots); the consumer decides how to read them.
#[derive(Debug, Clone, PartialEq)]
pub enum TokenKindOf<S> {
    Ident(S),
    StringLit(S),
    NumberLit(S),
    BoolLit(bool),
    Null,
    Helper,
    Agent,
    Brain,
    Plan,
    Execute,
    Remember,
    Communicate,
    Memory,
    Receive,
    Channel,
    Emit,
    Broadcast,
    Recipe,
    Objective,
    Needs,
    Gives,
    CanDo,
    When,
    Then,
    Try,
    Catch,
    For,
    Each,
    In,
    If,
    Else,
    Return,
    Output,
    Log,
    Say,
    Use,
    From,
    As,
    On,
    Bind,
    Source,
    Type,
    Do,
    Wait,
    Assign,
    Spawn,
    Count,
    Push,
    Not,
    And,
    Or,
    Started,
    ReRun,
    Escalate,
    Human,
    Changes,
    Ask,
    Embed,
    Infer,
    Classifier,
    Function,
    Import,
    While,
    Break,
    Continue,
    Assert,
    Serve,
    Route,
    Respond,
    Port,
    With,
    To,
    Message,
    Call,
    Pipe,  // |>
    LBrace,  // {
    RBrace,  // }
    LBracket,  // [
    RBracket,  // ]
    LParen,  // (
    RParen,  // )
    Colon,  // :
    Comma,  // ,
    Dot,  // .
    Eq,  // =
    EqEq,  // ==
    NotEq,  // !=
    Lt,  // <
    LtEq,  // <=
    Gt,  // >
    GtEq,  // >=
    Plus,  // +
    PlusEq,  // +=
    Minus,  // -
    MinusEq,  // -=
    Star,  // *
    StarEq,  // *=
    Slash,  // /
    SlashEq,  // /=
    Percent,  // %
    Arrow,  // ->
    DotDot,  // ..
    QuestionQuestion,  // ??
    Newline,
    Eof,
}

/// A token kind as handed out by the lexer.
pub type TokenKind = TokenKindOf<String>;

impl View for TokenKindOf<String> {
    type V = TokenKindOf<Seq<char>>;

    open spec fn view(&self) -> TokenKindOf<Seq<char>> {
        match self {
            TokenKindOf::Ident(s) => TokenKindOf::Ident(s@),
            TokenKindOf::StringLit(s) => TokenKindOf::StringLit(s@),
            TokenKindOf::NumberLit(s) => TokenKindOf::NumberLit(s@),
            TokenKindOf::BoolLit(b) => TokenKindOf::BoolLit(*b),
            TokenKindOf::Null => TokenKindOf::Null,
            TokenKindOf::Helper => TokenKindOf::Helper,
            TokenKindOf::Agent => TokenKindOf::Agent,
            TokenKindOf::Brain => TokenKindOf::Brain,
            TokenKindOf::Plan => TokenKindOf::Plan,
            TokenKindOf::Execute => TokenKindOf::Execute,
            TokenKindOf::Remember => TokenKindOf::Remember,
            TokenKindOf::Communicate => TokenKindOf::Communicate,
            TokenKindOf::Memory => TokenKindOf::Memory,
            TokenKindOf::Receive => TokenKindOf::Receive,
            TokenKindOf::Channel => TokenKindOf::Channel,
            TokenKindOf::Emit => TokenKindOf::Emit,
            TokenKindOf::Broadcast => TokenKindOf::Broadcast,
            TokenKindOf::Recipe => TokenKindOf::Recipe,
            TokenKindOf::Objective => TokenKindOf::Objective,
            TokenKindOf::Needs => TokenKindOf::Needs,
            TokenKindOf::Gives => TokenKindOf::Gives,
            TokenKindOf::CanDo => TokenKindOf::CanDo,
            TokenKindOf::When => TokenKindOf::When,
            TokenKindOf::Then => TokenKindOf::Then,
            TokenKindOf::Try => TokenKindOf::Try,
            TokenKindOf::Catch => TokenKindOf::Catch,
            TokenKindOf::For => TokenKindOf::For,
            TokenKindOf::Each => TokenKindOf::Each,
            TokenKindOf::In => TokenKindOf::In,
            TokenKindOf::If => TokenKindOf::If,
            TokenKindOf::Else => TokenKindOf::Else,
            TokenKindOf::Return => TokenKindOf::Return,
            TokenKindOf::Output => TokenKindOf::Output,
            TokenKindOf::Log => TokenKindOf::Log,
            TokenKindOf::Say => TokenKindOf::Say,
            TokenKindOf::Use => TokenKindOf::Use,
            TokenKindOf::From => TokenKindOf::From,
            TokenKindOf::As => TokenKindOf::As,
            TokenKindOf::On => TokenKindOf::On,
            TokenKindOf::Bind => TokenKindOf::Bind,
            TokenKindOf::Source => TokenKindOf::Source,
            TokenKindOf::Type => TokenKindOf::Type,
            TokenKindOf::Do => TokenKindOf::Do,
            TokenKindOf::Wait => TokenKindOf::Wait,
            TokenKindOf::Assign => TokenKindOf::Assign,
            TokenKindOf::Spawn => TokenKindOf::Spawn,
            TokenKindOf::Count => TokenKindOf::Count,
            TokenKindOf::Push => TokenKindOf::Push,
            TokenKindOf::Not => TokenKindOf::Not,
            TokenKindOf::And => TokenKindOf::And,
            TokenKindOf::Or => TokenKindOf::Or,
            TokenKindOf::Started => TokenKindOf::Started,
            TokenKindOf::ReRun => TokenKindOf::ReRun,
            TokenKindOf::Escalate => TokenKindOf::Escalate,
            TokenKindOf::Human => TokenKindOf::Human,
            TokenKindOf::Changes => TokenKindOf::Changes,
            TokenKindOf::Ask => TokenKindOf::Ask,
            TokenKindOf::Embed => TokenKindOf::Embed,
            TokenKindOf::Infer => TokenKindOf::Infer,
            TokenKindOf::Classifier => TokenKindOf::Classifier,
            TokenKindOf::Function => TokenKindOf::Function,
            TokenKindOf::Import => TokenKindOf::Import,
            TokenKindOf::While => TokenKindOf::While,
            TokenKindOf::Break => TokenKindOf::Break,
            TokenKindOf::Continue => TokenKindOf::Continue,
            TokenKindOf::Assert => TokenKindOf::Assert,
            TokenKindOf::Serve => TokenKindOf::Serve,
            TokenKindOf::Route => TokenKindOf::Route,
            TokenKindOf::Respond => TokenKindOf::Respond,
            TokenKindOf::Port => TokenKindOf::Port,
            TokenKindOf::With => TokenKindOf::With,
            TokenKindOf::To => TokenKindOf::To,
            TokenKindOf::Message => TokenKindOf::Message,
            TokenKindOf::Call => TokenKindOf::Call,
            TokenKindOf::Pipe => TokenKindOf::Pipe,
            TokenKindOf::LBrace => TokenKindOf::LBrace,
            TokenKindOf::RBrace => TokenKindOf::RBrace,
            TokenKindOf::LBracket => TokenKindOf::LBracket,
            TokenKindOf::RBracket => TokenKindOf::RBracket,
            TokenKindOf::LParen => TokenKindOf::LParen,
            TokenKindOf::RParen => TokenKindOf::RParen,
            TokenKindOf::Colon => TokenKindOf::Colon,
            TokenKindOf::Comma => TokenKindOf::Comma,
            TokenKindOf::Dot => TokenKindOf::Dot,
            TokenKindOf::Eq => TokenKindOf::Eq,
            TokenKindOf::EqEq => TokenKindOf::EqEq,
            TokenKindOf::NotEq => TokenKindOf::NotEq,
            TokenKindOf::Lt => TokenKindOf::Lt,
            TokenKindOf::LtEq => TokenKindOf::LtEq,
            TokenKindOf::Gt => TokenKindOf::Gt,
            TokenKindOf::GtEq => TokenKindOf::GtEq,
            TokenKindOf::Plus => TokenKindOf::Plus,
            TokenKindOf::PlusEq => TokenKindOf::PlusEq,
            TokenKindOf::Minus => TokenKindOf::Minus,
            TokenKindOf::MinusEq => TokenKindOf::MinusEq,
            TokenKindOf::Star => TokenKindOf::Star,
            TokenKindOf::StarEq => TokenKindOf::StarEq,
            TokenKindOf::Slash => TokenKindOf::Slash,
            TokenKindOf::SlashEq => TokenKindOf::SlashEq,
            TokenKindOf::Percent => TokenKindOf::Percent,
            TokenKindOf::Arrow => TokenKindOf::Arrow,
            TokenKindOf::DotDot => TokenKindOf::DotDot,
            TokenKindOf::QuestionQuestion => TokenKindOf::QuestionQuestion,
            TokenKindOf::Newline => TokenKindOf::Newline,
            TokenKindOf::Eof => TokenKindOf::Eof,
        }
    }
}

#[derive(Debug, Clone)]
pub struct Token {
    pub kind: TokenKind,
    pub line: usize,
    pub col: usize,
}

/// A token in specifications: its kind and the 1-based line and column of
/// its first character.
pub struct SpecToken {
    pub kind: TokenKindOf<Seq<char>>,
    pub line: nat,
    pub col: nat,
}

impl View for Token {
    type V = SpecToken;

    open spec fn view(&self) -> SpecToken {
        SpecToken { kind: self.kind@, line: self.line as nat, col: self.col as nat }
    }
}

pub open spec fn tokens_view(ts: Seq<Token>) -> Seq<SpecToken> {
    ts.map_values(|t: Token| t@)
}

/// Why a string literal could not be read.
#[derive(Debug, Clone, Copy, PartialEq, Eq)]
pub enum StringFault {
    /// The source ended before the closing quote.
    Unterminated,
    /// The source ended right after a backslash.
    DanglingEscape,
}

/// A lexing error, with the 1-based position it is reported at.
#[derive(Debug, Clone, Copy, PartialEq, Eq)]
pub enum LexError {
    UnterminatedString { line: usize },
    UnterminatedEscape { line: usize },
    UnexpectedBang { line: usize, col: usize },
    UnexpectedPipe { line: usize, col: usize },
    UnexpectedQuestion { line: usize, col: usize },
    UnexpectedChar { ch: char, line: usize, col: usize },
}

// ── Specification ────────────────────────────────────────────────────────────

/// The 1-based (line, column) of position `p` of `s`: every line feed
/// before `p` starts a new line, every other character moves one column.
pub open spec fn line_col(s: Seq<char>, p: int) -> (nat, nat)
    decreases p,
{
    if p <= 0 {
        (1, 1)
    } else {
        let (l, c) = line_col(s, p - 1);
        if s[p - 1] == '\n' {
            (l + 1, 1)
        } else {
            (l, c + 1)
        }
    }
}

/// The end of a line comment starting at `p`: the next line feed, or the
/// end of the source.
pub open spec fn comment_end(s: Seq<char>, p: int) -> int
    decreases s.len() - p,
{
    if p < 0 || p >= s.len() || s[p] == '\n' {
        p
    } else {
        comment_end(s, p + 1)
    }
}

pub open spec fn is_blank(c: char) -> bool {
    c == ' ' || c == '\t' || c == '\r'
}

pub open spec fn starts_comment(s: Seq<char>, p: int) -> bool {
    0 <= p && p + 1 < s.len() && s[p] == '/' && s[p + 1] == '/'
}

/// The first position at or after `p` that is neither a blank (space, tab,
/// carriage return) nor inside a `//` comment. Line feeds are tokens and
/// stop the skipping.
pub open spec fn skip_blank(s: Seq<char>, p: int) -> int
    decreases s.len() - p,
{
    if 0 <= p < s.len() && is_blank(s[p]) {
        skip_blank(s, p + 1)
    } else if starts_comment(s, p) {
        proof {
            lemma_comment_end_bounds(s, p + 2);
        }
        skip_blank(s, comment_end(s, p + 2))
    } else {
        p
    }
}

/// The characters an escape `\c` inside a string literal stands for.
pub open spec fn escape_chars(c: char) -> Seq<char> {
    if c == 'n' {
        seq!['\n']
    } else if c == 't' {
        seq!['\t']
    } else if c == '"' {
        seq!['"']
    } else if c == '\\' {
        seq!['\\']
    } else {
        seq!['\\', c]
    }
}

/// Reads the body of a string literal from `q` (just after the opening
/// quote), with `acc` the characters read so far. Gives the contents and
/// the position after the closing quote.
pub open spec fn string_scan(s: Seq<char>, q: int, acc: Seq<char>) -> Result<(Seq<char>, int), StringFault>
    decreases s.len() - q,
{
    if q < 0 || q >= s.len() {
        Err(StringFault::Unterminated)
    } else if s[q] == '"' {
        Ok((acc, q + 1))
    } else if s[q] == '\\' {
        if q + 1 >= s.len() {
            Err(StringFault::DanglingEscape)
        } else {
            string_scan(s, q + 2, acc + escape_chars(s[q + 1]))
        }
    } else {
        string_scan(s, q + 1, acc.push(s[q]))
    }
}

pub open spec fn is_number_char(c: char) -> bool {
    spec_is_ascii_digit(c) || c == '.'
}

/// The end of the run of digits and dots starting at `q`.
pub open spec fn number_end(s: Seq<char>, q: int) -> int
    decreases s.len() - q,
{
    if 0 <= q < s.len() && is_number_char(s[q]) {
        number_end(s, q + 1)
    } else {
        q
    }
}

pub open spec fn is_ident_char(c: char) -> bool {
    spec_is_alphanumeric(c) || c == '_'
}

/// The end of the run of identifier characters starting at `q`.
pub open spec fn ident_end(s: Seq<char>, q: int) -> int
    decreases s.len() - q,
{
    if 0 <= q < s.len() && is_ident_char(s[q]) {
        ident_end(s, q + 1)
    } else {
        q
    }
}

/// Reads an identifier at `q`: the run of identifier characters, except
/// that `re-run` is read as a single word.
pub open spec fn ident_scan(s: Seq<char>, q: int) -> (Seq<char>, int) {
    let e = ident_end(s, q);
    let t = s.subrange(q, e);
    if t == "re"@ && 0 <= e < s.len() && s[e] == '-' {
        let e2 = ident_end(s, e + 1);
        if s.subrange(e + 1, e2) == "run"@ {
            ("re-run"@, e2)
        } else {
            (t, e)
        }
    } else {
        (t, e)
    }
}

/// The token kind of a word: a keyword, a literal keyword, or an identifier.
pub open spec fn spec_keyword(t: Seq<char>) -> TokenKindOf<Seq<char>> {
    if t == "helper"@ {
        TokenKindOf::Helper
    } else if t == "agent"@ {
        TokenKindOf::Agent
    } else if t == "brain"@ {
        TokenKindOf::Brain
    } else if t == "plan"@ {
        TokenKindOf::Plan
    } else if t == "execute"@ {
        TokenKindOf::Execute
    } else if t == "remember"@ {
        TokenKindOf::Remember
    } else if t == "communicate"@ {
        TokenKindOf::Communicate
    } else if t == "memory"@ {
        TokenKindOf::Memory
    } else if t == "receive"@ {
        TokenKindOf::Receive
    } else if t == "channel"@ {
        TokenKindOf::Channel
    } else if t == "emit"@ {
        TokenKindOf::Emit
    } else if t == "broadcast"@ {
        TokenKindOf::Broadcast
    } else if t == "recipe"@ {
        TokenKindOf::Recipe
    } else if t == "objective"@ {
        TokenKindOf::Objective
    } else if t == "needs"@ {
        TokenKindOf::Needs
    } else if t == "gives"@ {
        TokenKindOf::Gives
    } else if t == "can_do"@ {
        TokenKindOf::CanDo
    } else if t == "when"@ {
        TokenKindOf::When
    } else if t == "then"@ {
        TokenKindOf::Then
    } else if t == "try"@ {
        TokenKindOf::Try
    } else if t == "catch"@ {
        TokenKindOf::Catch
    } else if t == "for"@ {
        TokenKindOf::For
    } else if t == "each"@ {
        TokenKindOf::Each
    } else if t == "in"@ {
        TokenKindOf::In
    } else if t == "if"@ {
        TokenKindOf::If
    } else if t == "else"@ {
        TokenKindOf::Else
    } else if t == "return"@ {
        TokenKindOf::Return
    } else if t == "output"@ {
        TokenKindOf::Output
    } else if t == "log"@ {
        TokenKindOf::Log
    } else if t == "say"@ {
        TokenKindOf::Say
    } else if t == "use"@ {
        TokenKindOf::Use
    } else if t == "from"@ {
        TokenKindOf::From
    } else if t == "as"@ {
        TokenKindOf::As
    } else if t == "on"@ {
        TokenKindOf::On
    } else if t == "bind"@ {
        TokenKindOf::Bind
    } else if t == "source"@ {
        TokenKindOf::Source
    } else if t == "type"@ {
        TokenKindOf::Type
    } else if t == "do"@ {
        TokenKindOf::Do
    } else if t == "wait"@ {
        TokenKindOf::Wait
    } else if t == "assign"@ {
        TokenKindOf::Assign
    } else if t == "spawn"@ {
        TokenKindOf::Spawn
    } else if t == "count"@ {
        TokenKindOf::Count
    } else if t == "push"@ {
        TokenKindOf::Push
    } else if t == "not"@ {
        TokenKindOf::Not
    } else if t == "and"@ {
        TokenKindOf::And
    } else if t == "or"@ {
        TokenKindOf::Or
    } else if t == "re-run"@ {
        TokenKindOf::ReRun
    } else if t == "started"@ {
        TokenKindOf::Started
    } else if t == "escalate"@ {
        TokenKindOf::Escalate
    } else if t == "human"@ {
        TokenKindOf::Human
    } else if t == "changes"@ {
        TokenKindOf::Changes
    } else if t == "ask"@ {
        TokenKindOf::Ask
    } else if t == "embed"@ {
        TokenKindOf::Embed
    } else if t == "infer"@ {
        TokenKindOf::Infer
    } else if t == "classifier"@ {
        TokenKindOf::Classifier
    } else if t == "function"@ {
        TokenKindOf::Function
    } else if t == "import"@ {
        TokenKindOf::Import
    } else if t == "while"@ {
        TokenKindOf::While
    } else if t == "break"@ {
        TokenKindOf::Break
    } else if t == "continue"@ {
        TokenKindOf::Continue
    } else if t == "assert"@ {
        TokenKindOf::Assert
    } else if t == "serve"@ {
        TokenKindOf::Serve
    } else if t == "with"@ {
        TokenKindOf::With
    } else if t == "to"@ {
        TokenKindOf::To
    } else if t == "message"@ {
        TokenKindOf::Message
    } else if t == "call"@ {
        TokenKindOf::Call
    } else if t == "route"@ {
        TokenKindOf::Route
    } else if t == "respond"@ {
        TokenKindOf::Respond
    } else if t == "port"@ {
        TokenKindOf::Port
    } else if t == "true"@ {
        TokenKindOf::BoolLit(true)
    } else if t == "false"@ {
        TokenKindOf::BoolLit(false)
    } else if t == "null"@ {
        TokenKindOf::Null
    } else {
        TokenKindOf::Ident(t)
    }
}

// ── The keyword table ────────────────────────────────────────────────────────
/// How the reserved words are spelled, as far as it takes to tell them
/// apart.
proof fn lemma_reserved_spellings()
    ensures
        "helper"@.len() == 6 && "helper"@[0] == 'h' && "helper"@[1] == 'e' && "helper"@[2] == 'l' && "helper"@[3] == 'p' && "helper"@[4] == 'e',
        "agent"@.len() == 5 && "agent"@[0] == 'a' && "agent"@[1] == 'g' && "agent"@[2] == 'e' && "agent"@[3] == 'n' && "agent"@[4] == 't',
        "brain"@.len() == 5 && "brain"@[0] == 'b' && "brain"@[1] == 'r' && "brain"@[2] == 'a' && "brain"@[3] == 'i' && "brain"@[4] == 'n',
        "plan"@.len() == 4 && "plan"@[0] == 'p' && "plan"@[1] == 'l' && "plan"@[2] == 'a' && "plan"@[3] == 'n',
        "execute"@.len() == 7 && "execute"@[0] == 'e' && "execute"@[1] == 'x' && "execute"@[2] == 'e' && "execute"@[3] == 'c' && "execute"@[4] == 'u',
        "remember"@.len() == 8 && "remember"@[0] == 'r' && "remember"@[1] == 'e' && "remember"@[2] == 'm' && "remember"@[3] == 'e' && "remember"@[4] == 'm',
        "communicate"@.len() == 11 && "communicate"@[0] == 'c' && "communicate"@[1] == 'o' && "communicate"@[2] == 'm' && "communicate"@[3] == 'm' && "communicate"@[4] == 'u',
        "memory"@.len() == 6 && "memory"@[0] == 'm' && "memory"@[1] == 'e' && "memory"@[2] == 'm' && "memory"@[3] == 'o' && "memory"@[4] == 'r',
        "receive"@.len() == 7 && "receive"@[0] == 'r' && "receive"@[1] == 'e' && "receive"@[2] == 'c' && "receive"@[3] == 'e' && "receive"@[4] == 'i',
        "channel"@.len() == 7 && "channel"@[0] == 'c' && "channel"@[1] == 'h' && "channel"@[2] == 'a' && "channel"@[3] == 'n' && "channel"@[4] == 'n',
        "emit"@.len() == 4 && "emit"@[0] == 'e' && "emit"@[1] == 'm' && "emit"@[2] == 'i' && "emit"@[3] == 't',
        "broadcast"@.len() == 9 && "broadcast"@[0] == 'b' && "broadcast"@[1] == 'r' && "broadcast"@[2] == 'o' && "broadcast"@[3] == 'a' && "broadcast"@[4] == 'd',
        "recipe"@.len() == 6 && "recipe"@[0] == 'r' && "recipe"@[1] == 'e' && "recipe"@[2] == 'c' && "recipe"@[3] == 'i' && "recipe"@[4] == 'p',
        "objective"@.len() == 9 && "objective"@[0] == 'o' && "objective"@[1] == 'b' && "objective"@[2] == 'j' && "objective"@[3] == 'e' && "objective"@[4] == 'c',
        "needs"@.len() == 5 && "needs"@[0] == 'n' && "needs"@[1] == 'e' && "needs"@[2] == 'e' && "needs"@[3] == 'd' && "needs"@[4] == 's',
        "gives"@.len() == 5 && "gives"@[0] == 'g' && "gives"@[1] == 'i' && "gives"@[2] == 'v' && "gives"@[3] == 'e' && "gives"@[4] == 's',
        "can_do"@.len() == 6 && "can_do"@[0] == 'c' && "can_do"@[1] == 'a' && "can_do"@[2] == 'n' && "can_do"@[3] == '_' && "can_do"@[4] == 'd',
        "when"@.len() == 4 && "when"@[0] == 'w' && "when"@[1] == 'h' && "when"@[2] == 'e' && "when"@[3] == 'n',
        "then"@.len() == 4 && "then"@[0] == 't' && "then"@[1] == 'h' && "then"@[2] == 'e' && "then"@[3] == 'n',
        "try"@.len() == 3 && "try"@[0] == 't' && "try"@[1] == 'r' && "try"@[2] == 'y',
        "catch"@.len() == 5 && "catch"@[0] == 'c' && "catch"@[1] == 'a' && "catch"@[2] == 't' && "catch"@[3] == 'c' && "catch"@[4] == 'h',
        "for"@.len() == 3 && "for"@[0] == 'f' && "for"@[1] == 'o' && "for"@[2] == 'r',
        "each"@.len() == 4 && "each"@[0] == 'e' && "each"@[1] == 'a' && "each"@[2] == 'c' && "each"@[3] == 'h',
        "in"@.len() == 2 && "in"@[0] == 'i' && "in"@[1] == 'n',
        "if"@.len() == 2 && "if"@[0] == 'i' && "if"@[1] == 'f',
        "else"@.len() == 4 && "else"@[0] == 'e' && "else"@[1] == 'l' && "else"@[2] == 's' && "else"@[3] == 'e',
        "return"@.len() == 6 && "return"@[0] == 'r' && "return"@[1] == 'e' && "return"@[2] == 't' && "return"@[3] == 'u' && "return"@[4] == 'r',
        "output"@.len() == 6 && "output"@[0] == 'o' && "output"@[1] == 'u' && "output"@[2] == 't' && "output"@[3] == 'p' && "output"@[4] == 'u',
        "log"@.len() == 3 && "log"@[0] == 'l' && "log"@[1] == 'o' && "log"@[2] == 'g',
        "say"@.len() == 3 && "say"@[0] == 's' && "say"@[1] == 'a' && "say"@[2] == 'y',
        "use"@.len() == 3 && "use"@[0] == 'u' && "use"@[1] == 's' && "use"@[2] == 'e',
        "from"@.len() == 4 && "from"@[0] == 'f' && "from"@[1] == 'r' && "from"@[2] == 'o' && "from"@[3] == 'm',
        "as"@.len() == 2 && "as"@[0] == 'a' && "as"@[1] == 's',
        "on"@.len() == 2 && "on"@[0] == 'o' && "on"@[1] == 'n',
        "bind"@.len() == 4 && "bind"@[0] == 'b' && "bind"@[1] == 'i' && "bind"@[2] == 'n' && "bind"@[3] == 'd',
        "source"@.len() == 6 && "source"@[0] == 's' && "source"@[1] == 'o' && "source"@[2] == 'u' && "source"@[3] == 'r' && "source"@[4] == 'c',
        "type"@.len() == 4 && "type"@[0] == 't' && "type"@[1] == 'y' && "type"@[2] == 'p' && "type"@[3] == 'e',
        "do"@.len() == 2 && "do"@[0] == 'd' && "do"@[1] == 'o',
        "wait"@.len() == 4 && "wait"@[0] == 'w' && "wait"@[1] == 'a' && "wait"@[2] == 'i' && "wait"@[3] == 't',
        "assign"@.len() == 6 && "assign"@[0] == 'a' && "assign"@[1] == 's' && "assign"@[2] == 's' && "assign"@[3] == 'i' && "assign"@[4] == 'g',
        "spawn"@.len() == 5 && "spawn"@[0] == 's' && "spawn"@[1] == 'p' && "spawn"@[2] == 'a' && "spawn"@[3] == 'w' && "spawn"@[4] == 'n',
        "count"@.len() == 5 && "count"@[0] == 'c' && "count"@[1] == 'o' && "count"@[2] == 'u' && "count"@[3] == 'n' && "count"@[4] == 't',
        "push"@.len() == 4 && "push"@[0] == 'p' && "push"@[1] == 'u' && "push"@[2] == 's' && "push"@[3] == 'h',
        "not"@.len() == 3 && "not"@[0] == 'n' && "not"@[1] == 'o' && "not"@[2] == 't',
        "and"@.len() == 3 && "and"@[0] == 'a' && "and"@[1] == 'n' && "and"@[2] == 'd',
        "or"@.len() == 2 && "or"@[0] == 'o' && "or"@[1] == 'r',
        "re-run"@.len() == 6 && "re-run"@[0] == 'r' && "re-run"@[1] == 'e' && "re-run"@[2] == '-' && "re-run"@[3] == 'r' && "re-run"@[4] == 'u',
        "started"@.len() == 7 && "started"@[0] == 's' && "started"@[1] == 't' && "started"@[2] == 'a' && "started"@[3] == 'r' && "started"@[4] == 't',
        "escalate"@.len() == 8 && "escalate"@[0] == 'e' && "escalate"@[1] == 's' && "escalate"@[2] == 'c' && "escalate"@[3] == 'a' && "escalate"@[4] == 'l',
        "human"@.len() == 5 && "human"@[0] == 'h' && "human"@[1] == 'u' && "human"@[2] == 'm' && "human"@[3] == 'a' && "human"@[4] == 'n',
        "changes"@.len() == 7 && "changes"@[0] == 'c' && "changes"@[1] == 'h' && "changes"@[2] == 'a' && "changes"@[3] == 'n' && "changes"@[4] == 'g',
        "ask"@.len() == 3 && "ask"@[0] == 'a' && "ask"@[1] == 's' && "ask"@[2] == 'k',
        "embed"@.len() == 5 && "embed"@[0] == 'e' && "embed"@[1] == 'm' && "embed"@[2] == 'b' && "embed"@[3] == 'e' && "embed"@[4] == 'd',
        "infer"@.len() == 5 && "infer"@[0] == 'i' && "infer"@[1] == 'n' && "infer"@[2] == 'f' && "infer"@[3] == 'e' && "infer"@[4] == 'r',
        "classifier"@.len() == 10 && "classifier"@[0] == 'c' && "classifier"@[1] == 'l' && "classifier"@[2] == 'a' && "classifier"@[3] == 's' && "classifier"@[4] == 's',
        "function"@.len() == 8 && "function"@[0] == 'f' && "function"@[1] == 'u' && "function"@[2] == 'n' && "function"@[3] == 'c' && "function"@[4] == 't',
        "import"@.len() == 6 && "import"@[0] == 'i' && "import"@[1] == 'm' && "import"@[2] == 'p' && "import"@[3] == 'o' && "import"@[4] == 'r',
        "while"@.len() == 5 && "while"@[0] == 'w' && "while"@[1] == 'h' && "while"@[2] == 'i' && "while"@[3] == 'l' && "while"@[4] == 'e',
        "break"@.len() == 5 && "break"@[0] == 'b' && "break"@[1] == 'r' && "break"@[2] == 'e' && "break"@[3] == 'a' && "break"@[4] == 'k',
        "continue"@.len() == 8 && "continue"@[0] == 'c' && "continue"@[1] == 'o' && "continue"@[2] == 'n' && "continue"@[3] == 't' && "continue"@[4] == 'i',
        "assert"@.len() == 6 && "assert"@[0] == 'a' && "assert"@[1] == 's' && "assert"@[2] == 's' && "assert"@[3] == 'e' && "assert"@[4] == 'r',
        "serve"@.len() == 5 && "serve"@[0] == 's' && "serve"@[1] == 'e' && "serve"@[2] == 'r' && "serve"@[3] == 'v' && "serve"@[4] == 'e',
        "with"@.len() == 4 && "with"@[0] == 'w' && "with"@[1] == 'i' && "with"@[2] == 't' && "with"@[3] == 'h',
        "to"@.len() == 2 && "to"@[0] == 't' && "to"@[1] == 'o',
        "message"@.len() == 7 && "message"@[0] == 'm' && "message"@[1] == 'e' && "message"@[2] == 's' && "message"@[3] == 's' && "message"@[4] == 'a',
        "call"@.len() == 4 && "call"@[0] == 'c' && "call"@[1] == 'a' && "call"@[2] == 'l' && "call"@[3] == 'l',
        "route"@.len() == 5 && "route"@[0] == 'r' && "route"@[1] == 'o' && "route"@[2] == 'u' && "route"@[3] == 't' && "route"@[4] == 'e',
        "respond"@.len() == 7 && "respond"@[0] == 'r' && "respond"@[1] == 'e' && "respond"@[2] == 's' && "respond"@[3] == 'p' && "respond"@[4] == 'o',
        "port"@.len() == 4 && "port"@[0] == 'p' && "port"@[1] == 'o' && "port"@[2] == 'r' && "port"@[3] == 't',
        "true"@.len() == 4 && "true"@[0] == 't' && "true"@[1] == 'r' && "true"@[2] == 'u' && "true"@[3] == 'e',
        "false"@.len() == 5 && "false"@[0] == 'f' && "false"@[1] == 'a' && "false"@[2] == 'l' && "false"@[3] == 's' && "false"@[4] == 'e',
        "null"@.len() == 4 && "null"@[0] == 'n' && "null"@[1] == 'u' && "null"@[2] == 'l' && "null"@[3] == 'l',
{
    reveal_strlit("helper");
    reveal_strlit("agent");
    reveal_strlit("brain");
    reveal_strlit("plan");
    reveal_strlit("execute");
    reveal_strlit("remember");
    reveal_strlit("communicate");
    reveal_strlit("memory");
    reveal_strlit("receive");
    reveal_strlit("channel");
    reveal_strlit("emit");
    reveal_strlit("broadcast");
    reveal_strlit("recipe");
    reveal_strlit("objective");
    reveal_strlit("needs");
    reveal_strlit("gives");
    reveal_strlit("can_do");
    reveal_strlit("when");
    reveal_strlit("then");
    reveal_strlit("try");
    reveal_strlit("catch");
    reveal_strlit("for");
    reveal_strlit("each");
    reveal_strlit("in");
    reveal_strlit("if");
    reveal_strlit("else");
    reveal_strlit("return");
    reveal_strlit("output");
    reveal_strlit("log");
    reveal_strlit("say");
    reveal_strlit("use");
    reveal_strlit("from");
    reveal_strlit("as");
    reveal_strlit("on");
    reveal_strlit("bind");
    reveal_strlit("source");
    reveal_strlit("type");
    reveal_strlit("do");
    reveal_strlit("wait");
    reveal_strlit("assign");
    reveal_strlit("spawn");
    reveal_strlit("count");
    reveal_strlit("push");
    reveal_strlit("not");
    reveal_strlit("and");
    reveal_strlit("or");
    reveal_strlit("re-run");
    reveal_strlit("started");
    reveal_strlit("escalate");
    reveal_strlit("human");
    reveal_strlit("changes");
    reveal_strlit("ask");
    reveal_strlit("embed");
    reveal_strlit("infer");
    reveal_strlit("classifier");
    reveal_strlit("function");
    reveal_strlit("import");
    reveal_strlit("while");
    reveal_strlit("break");
    reveal_strlit("continue");
    reveal_strlit("assert");
    reveal_strlit("serve");
    reveal_strlit("with");
    reveal_strlit("to");
    reveal_strlit("message");
    reveal_strlit("call");
    reveal_strlit("route");
    reveal_strlit("respond");
    reveal_strlit("port");
    reveal_strlit("true");
    reveal_strlit("false");
    reveal_strlit("null");
}

/// The reserved words of agents and flow each lex to their own token kind.
pub proof fn lemma_keyword_table_agents()
    ensures
        spec_keyword("helper"@) == TokenKindOf::<Seq<char>>::Helper,
        spec_keyword("agent"@) == TokenKindOf::<Seq<char>>::Agent,
        spec_keyword("brain"@) == TokenKindOf::<Seq<char>>::Brain,
        spec_keyword("plan"@) == TokenKindOf::<Seq<char>>::Plan,
        spec_keyword("execute"@) == TokenKindOf::<Seq<char>>::Execute,
        spec_keyword("remember"@) == TokenKindOf::<Seq<char>>::Remember,
        spec_keyword("communicate"@) == TokenKindOf::<Seq<char>>::Communicate,
        spec_keyword("memory"@) == TokenKindOf::<Seq<char>>::Memory,
        spec_keyword("receive"@) == TokenKindOf::<Seq<char>>::Receive,
        spec_keyword("channel"@) == TokenKindOf::<Seq<char>>::Channel,
        spec_keyword("emit"@) == TokenKindOf::<Seq<char>>::Emit,
        spec_keyword("broadcast"@) == TokenKindOf::<Seq<char>>::Broadcast,
        spec_keyword("recipe"@) == TokenKindOf::<Seq<char>>::Recipe,
        spec_keyword("objective"@) == TokenKindOf::<Seq<char>>::Objective,
        spec_keyword("needs"@) == TokenKindOf::<Seq<char>>::Needs,
        spec_keyword("gives"@) == TokenKindOf::<Seq<char>>::Gives,
        spec_keyword("can_do"@) == TokenKindOf::<Seq<char>>::CanDo,
        spec_keyword("when"@) == TokenKindOf::<Seq<char>>::When,
        spec_keyword("then"@) == TokenKindOf::<Seq<char>>::Then,
        spec_keyword("try"@) == TokenKindOf::<Seq<char>>::Try,
        spec_keyword("catch"@) == TokenKindOf::<Seq<char>>::Catch,
        spec_keyword("for"@) == TokenKindOf::<Seq<char>>::For,
        spec_keyword("each"@) == TokenKindOf::<Seq<char>>::Each,
        spec_keyword("in"@) == TokenKindOf::<Seq<char>>::In,
{
    lemma_reserved_spellings();
}

/// The reserved words of statements and operators (`and` is `And`, `or`
/// is `Or`) each lex to their own token kind.
pub proof fn lemma_keyword_table_statements()
    ensures
        spec_keyword("if"@) == TokenKindOf::<Seq<char>>::If,
        spec_keyword("else"@) == TokenKindOf::<Seq<char>>::Else,
        spec_keyword("return"@) == TokenKindOf::<Seq<char>>::Return,
        spec_keyword("output"@) == TokenKindOf::<Seq<char>>::Output,
        spec_keyword("log"@) == TokenKindOf::<Seq<char>>::Log,
        spec_keyword("say"@) == TokenKindOf::<Seq<char>>::Say,
        spec_keyword("use"@) == TokenKindOf::<Seq<char>>::Use,
        spec_keyword("from"@) == TokenKindOf::<Seq<char>>::From,
        spec_keyword("as"@) == TokenKindOf::<Seq<char>>::As,
        spec_keyword("on"@) == TokenKindOf::<Seq<char>>::On,
        spec_keyword("bind"@) == TokenKindOf::<Seq<char>>::Bind,
        spec_keyword("source"@) == TokenKindOf::<Seq<char>>::Source,
        spec_keyword("type"@) == TokenKindOf::<Seq<char>>::Type,
        spec_keyword("do"@) == TokenKindOf::<Seq<char>>::Do,
        spec_keyword("wait"@) == TokenKindOf::<Seq<char>>::Wait,
        spec_keyword("assign"@) == TokenKindOf::<Seq<char>>::Assign,
        spec_keyword("spawn"@) == TokenKindOf::<Seq<char>>::Spawn,
        spec_keyword("count"@) == TokenKindOf::<Seq<char>>::Count,
        spec_keyword("push"@) == TokenKindOf::<Seq<char>>::Push,
        spec_keyword("not"@) == TokenKindOf::<Seq<char>>::Not,
        spec_keyword("and"@) == TokenKindOf::<Seq<char>>::And,
        spec_keyword("or"@) == TokenKindOf::<Seq<char>>::Or,
        spec_keyword("re-run"@) == TokenKindOf::<Seq<char>>::ReRun,
        spec_keyword("started"@) == TokenKindOf::<Seq<char>>::Started,
{
    lemma_reserved_spellings();
}

/// The remaining reserved words and the literals `true`, `false` and `null`
/// each lex to their own token kind.
pub proof fn lemma_keyword_table_services()
    ensures
        spec_keyword("escalate"@) == TokenKindOf::<Seq<char>>::Escalate,
        spec_keyword("human"@) == TokenKindOf::<Seq<char>>::Human,
        spec_keyword("changes"@) == TokenKindOf::<Seq<char>>::Changes,
        spec_keyword("ask"@) == TokenKindOf::<Seq<char>>::Ask,
        spec_keyword("embed"@) == TokenKindOf::<Seq<char>>::Embed,
        spec_keyword("infer"@) == TokenKindOf::<Seq<char>>::Infer,
        spec_keyword("classifier"@) == TokenKindOf::<Seq<char>>::Classifier,
        spec_keyword("function"@) == TokenKindOf::<Seq<char>>::Function,
        spec_keyword("import"@) == TokenKindOf::<Seq<char>>::Import,
        spec_keyword("while"@) == TokenKindOf::<Seq<char>>::While,
        spec_keyword("break"@) == TokenKindOf::<Seq<char>>::Break,
        spec_keyword("continue"@) == TokenKindOf::<Seq<char>>::Continue,
        spec_keyword("assert"@) == TokenKindOf::<Seq<char>>::Assert,
        spec_keyword("serve"@) == TokenKindOf::<Seq<char>>::Serve,
        spec_keyword("with"@) == TokenKindOf::<Seq<char>>::With,
        spec_keyword("to"@) == TokenKindOf::<Seq<char>>::To,
        spec_keyword("message"@) == TokenKindOf::<Seq<char>>::Message,
        spec_keyword("call"@) == TokenKindOf::<Seq<char>>::Call,
        spec_keyword("route"@) == TokenKindOf::<Seq<char>>::Route,
        spec_keyword("respond"@) == TokenKindOf::<Seq<char>>::Respond,
        spec_keyword("port"@) == TokenKindOf::<Seq<char>>::Port,
        spec_keyword("true"@) == TokenKindOf::<Seq<char>>::BoolLit(true),
        spec_keyword("false"@) == TokenKindOf::<Seq<char>>::BoolLit(false),
        spec_keyword("null"@) == TokenKindOf::<Seq<char>>::Null,
{
    lemma_reserved_spellings();
}

/// A word that is none of the reserved words or literals lexes as an
/// identifier of itself.
pub proof fn lemma_other_words_are_identifiers(t: Seq<char>)
    requires
        t != "helper"@,
        t != "agent"@,
        t != "brain"@,
        t != "plan"@,
        t != "execute"@,
        t != "remember"@,
        t != "communicate"@,
        t != "memory"@,
        t != "receive"@,
        t != "channel"@,
        t != "emit"@,
        t != "broadcast"@,
        t != "recipe"@,
        t != "objective"@,
        t != "needs"@,
        t != "gives"@,
        t != "can_do"@,
        t != "when"@,
        t != "then"@,
        t != "try"@,
        t != "catch"@,
        t != "for"@,
        t != "each"@,
        t != "in"@,
        t != "if"@,
        t != "else"@,
        t != "return"@,
        t != "output"@,
        t != "log"@,
        t != "say"@,
        t != "use"@,
        t != "from"@,
        t != "as"@,
        t != "on"@,
        t != "bind"@,
        t != "source"@,
        t != "type"@,
        t != "do"@,
        t != "wait"@,
        t != "assign"@,
        t != "spawn"@,
        t != "count"@,
        t != "push"@,
        t != "not"@,
        t != "and"@,
        t != "or"@,
        t != "re-run"@,
        t != "started"@,
        t != "escalate"@,
        t != "human"@,
        t != "changes"@,
        t != "ask"@,
        t != "embed"@,
        t != "infer"@,
        t != "classifier"@,
        t != "function"@,
        t != "import"@,
        t != "while"@,
        t != "break"@,
        t != "continue"@,
        t != "assert"@,
        t != "serve"@,
        t != "with"@,
        t != "to"@,
        t != "message"@,
        t != "call"@,
        t != "route"@,
        t != "respond"@,
        t != "port"@,
        t != "true"@,
        t != "false"@,
        t != "null"@,
    ensures
        spec_keyword(t) == TokenKindOf::Ident(t),
{
}

/// The token starting at `q` (which is past any blanks and comments, and
/// inside the source) and the position after it, or the error reported there.
pub open spec fn next_token(s: Seq<char>, q: int) -> Result<(TokenKindOf<Seq<char>>, int), LexError> {
    let c = s[q];
    let (l, k) = line_col(s, q);
    let line = l as usize;
    let col = k as usize;
    let nx = q + 1 < s.len();
    if c == '\n' {
        Ok((TokenKindOf::Newline, q + 1))
    } else if c == '"' {
        match string_scan(s, q + 1, seq![]) {
            Ok((t, e)) => Ok((TokenKindOf::StringLit(t), e)),
            Err(StringFault::Unterminated) => Err(LexError::UnterminatedString { line }),
            Err(StringFault::DanglingEscape) => Err(LexError::UnterminatedEscape { line }),
        }
    } else if spec_is_ascii_digit(c) {
        let e = number_end(s, q);
        Ok((TokenKindOf::NumberLit(s.subrange(q, e)), e))
    } else if is_alphabetic_char(c) || c == '_' {
        let (t, e) = ident_scan(s, q);
        Ok((spec_keyword(t), e))
    } else if c == '{' {
        Ok((TokenKindOf::LBrace, q + 1))
    } else if c == '}' {
        Ok((TokenKindOf::RBrace, q + 1))
    } else if c == '[' {
        Ok((TokenKindOf::LBracket, q + 1))
    } else if c == ']' {
        Ok((TokenKindOf::RBracket, q + 1))
    } else if c == '(' {
        Ok((TokenKindOf::LParen, q + 1))
    } else if c == ')' {
        Ok((TokenKindOf::RParen, q + 1))
    } else if c == ':' {
        Ok((TokenKindOf::Colon, q + 1))
    } else if c == ',' {
        Ok((TokenKindOf::Comma, q + 1))
    } else if c == '.' {
        if nx && s[q + 1] == '.' {
            Ok((TokenKindOf::DotDot, q + 2))
        } else {
            Ok((TokenKindOf::Dot, q + 1))
        }
    } else if c == '+' {
        if nx && s[q + 1] == '=' {
            Ok((TokenKindOf::PlusEq, q + 2))
        } else {
            Ok((TokenKindOf::Plus, q + 1))
        }
    } else if c == '-' {
        if nx && s[q + 1] == '>' {
            Ok((TokenKindOf::Arrow, q + 2))
        } else if nx && s[q + 1] == '=' {
            Ok((TokenKindOf::MinusEq, q + 2))
        } else {
            Ok((TokenKindOf::Minus, q + 1))
        }
    } else if c == '*' {
        if nx && s[q + 1] == '=' {
            Ok((TokenKindOf::StarEq, q + 2))
        } else {
            Ok((TokenKindOf::Star, q + 1))
        }
    } else if c == '/' {
        if nx && s[q + 1] == '=' {
            Ok((TokenKindOf::SlashEq, q + 2))
        } else {
            Ok((TokenKindOf::Slash, q + 1))
        }
    } else if c == '%' {
        Ok((TokenKindOf::Percent, q + 1))
    } else if c == '=' {
        if nx && s[q + 1] == '=' {
            Ok((TokenKindOf::EqEq, q + 2))
        } else {
            Ok((TokenKindOf::Eq, q + 1))
        }
    } else if c == '!' {
        if nx && s[q + 1] == '=' {
            Ok((TokenKindOf::NotEq, q + 2))
        } else {
            Err(LexError::UnexpectedBang { line, col })
        }
    } else if c == '<' {
        if nx && s[q + 1] == '=' {
            Ok((TokenKindOf::LtEq, q + 2))
        } else {
            Ok((TokenKindOf::Lt, q + 1))
        }
    } else if c == '>' {
        if nx && s[q + 1] == '=' {
            Ok((TokenKindOf::GtEq, q + 2))
        } else {
            Ok((TokenKindOf::Gt, q + 1))
        }
    } else if c == ';' {
        Ok((TokenKindOf::Newline, q + 1))
    } else if c == '|' {
        if nx && s[q + 1] == '>' {
            Ok((TokenKindOf::Pipe, q + 2))
        } else {
            Err(LexError::UnexpectedPipe { line, col })
        }
    } else if c == '?' {
        if nx && s[q + 1] == '?' {
            Ok((TokenKindOf::QuestionQuestion, q + 2))
        } else {
            Err(LexError::UnexpectedQuestion { line, col })
        }
    } else {
        Err(LexError::UnexpectedChar { ch: c, line, col })
    }
}

pub open spec fn spec_token(kind: TokenKindOf<Seq<char>>, lc: (nat, nat)) -> SpecToken {
    SpecToken { kind, line: lc.0, col: lc.1 }
}

/// Lexes from position `p`, after the tokens `acc`: the whole token list
/// ending in `Eof`, or the first error.
pub open spec fn lex_from(s: Seq<char>, p: int, acc: Seq<SpecToken>) -> Result<Seq<SpecToken>, LexError>
    decreases s.len() - p,
{
    if p < 0 {
        lex_from(s, 0, acc)
    } else {
        let q = skip_blank(s, p);
        proof {
            lemma_skip_blank_bounds(s, p);
        }
        if q >= s.len() {
            Ok(acc.push(spec_token(TokenKindOf::Eof, line_col(s, q))))
        } else {
            proof {
                lemma_next_token_advances(s, q);
            }
            match next_token(s, q) {
                Err(e) => Err(e),
                Ok((k, e)) => lex_from(s, e, acc.push(spec_token(k, line_col(s, q)))),
            }
        }
    }
}

/// The tokens of `s`, or the first lexing error.
pub open spec fn spec_tokenize(s: Seq<char>) -> Result<Seq<SpecToken>, LexError> {
    lex_from(s, 0, seq![])
}

/// The text of a lexing error.
pub open spec fn error_message(e: LexError) -> Seq<char> {
    match e {
        LexError::UnterminatedString { line } => "Unterminated string at line "@ + decimal(line as nat),
        LexError::UnterminatedEscape { line } => "Unterminated escape at line "@ + decimal(line as nat),
        LexError::UnexpectedBang { line, col } => "Unexpected '!' at line "@ + decimal(line as nat)
            + ", col "@ + decimal(col as nat),
        LexError::UnexpectedPipe { line, col } => "Unexpected '|' at line "@ + decimal(line as nat)
            + ", col "@ + decimal(col as nat) + " (did you mean '|>'?)"@,
        LexError::UnexpectedQuestion { line, col } => "Unexpected '?' at line "@ + decimal(line as nat)
            + ", col "@ + decimal(col as nat) + " (did you mean '??'?)"@,
        LexError::UnexpectedChar { ch, line, col } => "Unexpected character '"@ + seq![ch] + "' at line "@
            + decimal(line as nat) + ", col "@ + decimal(col as nat),
    }
}

// ── Lemmas ───────────────────────────────────────────────────────────────────

pub proof fn lemma_comment_end_bounds(s: Seq<char>, p: int)
    requires
        0 <= p,
    ensures
        p <= comment_end(s, p),
        p <= s.len() ==> comment_end(s, p) <= s.len(),
    decreases s.len() - p,
{
    if p < s.len() && s[p] != '\n' {
        lemma_comment_end_bounds(s, p + 1);
    }
}

pub proof fn lemma_skip_blank_bounds(s: Seq<char>, p: int)
    requires
        0 <= p,
    ensures
        p <= skip_blank(s, p),
        p <= s.len() ==> skip_blank(s, p) <= s.len(),
    decreases s.len() - p,
{
    if 0 <= p < s.len() && is_blank(s[p]) {
        lemma_skip_blank_bounds(s, p + 1);
    } else if starts_comment(s, p) {
        lemma_comment_end_bounds(s, p + 2);
        lemma_skip_blank_bounds(s, comment_end(s, p + 2));
    }
}

pub proof fn lemma_string_scan_advances(s: Seq<char>, q: int, acc: Seq<char>)
    requires
        0 <= q,
    ensures
        string_scan(s, q, acc) matches Ok((_, e)) ==> q < e <= s.len(),
    decreases s.len() - q,
{
    if 0 <= q < s.len() && s[q] != '"' {
        if s[q] == '\\' {
            if q + 1 < s.len() {
                lemma_string_scan_advances(s, q + 2, acc + escape_chars(s[q + 1]));
            }
        } else {
            lemma_string_scan_advances(s, q + 1, acc.push(s[q]));
        }
    }
}

pub proof fn lemma_number_end_bounds(s: Seq<char>, q: int)
    requires
        0 <= q <= s.len(),
    ensures
        q <= number_end(s, q) <= s.len(),
        forall|i: int| q <= i < number_end(s, q) ==> is_number_char(#[trigger] s[i]),
        number_end(s, q) < s.len() ==> !is_number_char(s[number_end(s, q)]),
    decreases s.len() - q,
{
    if q < s.len() && is_number_char(s[q]) {
        lemma_number_end_bounds(s, q + 1);
    }
}

pub proof fn lemma_ident_end_bounds(s: Seq<char>, q: int)
    requires
        0 <= q <= s.len(),
    ensures
        q <= ident_end(s, q) <= s.len(),
        forall|i: int| q <= i < ident_end(s, q) ==> is_ident_char(#[trigger] s[i]),
        ident_end(s, q) < s.len() ==> !is_ident_char(s[ident_end(s, q)]),
    decreases s.len() - q,
{
    if q < s.len() && is_ident_char(s[q]) {
        lemma_ident_end_bounds(s, q + 1);
    }
}

pub proof fn lemma_next_token_advances(s: Seq<char>, q: int)
    requires
        0 <= q < s.len(),
    ensures
        next_token(s, q) matches Ok((_, e)) ==> q < e <= s.len(),
{
    lemma_string_scan_advances(s, q + 1, seq![]);
    lemma_number_end_bounds(s, q);
    lemma_number_end_bounds(s, q + 1);
    lemma_ident_end_bounds(s, q);
    lemma_ident_end_bounds(s, q + 1);
    let e = ident_end(s, q);
    if 0 <= e < s.len() {
        lemma_ident_end_bounds(s, e + 1);
    }
}

pub proof fn lemma_line_col_bounds(s: Seq<char>, p: int)
    requires
        0 <= p,
    ensures
        1 <= line_col(s, p).0 <= p + 1,
        1 <= line_col(s, p).1 <= p + 1,
    decreases p,
{
    if p > 0 {
        lemma_line_col_bounds(s, p - 1);
    }
}

/// Strict source order on (line, column) positions.
pub open spec fn before(a: (nat, nat), b: (nat, nat)) -> bool {
    a.0 < b.0 || (a.0 == b.0 && a.1 < b.1)
}

pub open spec fn token_pos(t: SpecToken) -> (nat, nat) {
    (t.line, t.col)
}

/// The tokens are in strictly increasing source position.
pub open spec fn in_source_order(ts: Seq<SpecToken>) -> bool {
    forall|i: int, j: int| 0 <= i < j < ts.len() ==> before(token_pos(ts[i]), token_pos(ts[j]))
}

/// `Eof` is the last token and occurs nowhere else.
pub open spec fn ends_with_single_eof(ts: Seq<SpecToken>) -> bool {
    &&& ts.len() > 0
    &&& ts.last().kind == TokenKindOf::<Seq<char>>::Eof
    &&& forall|i: int| 0 <= i < ts.len() - 1 ==> ts[i].kind != TokenKindOf::<Seq<char>>::Eof
}

pub proof fn lemma_line_col_step(s: Seq<char>, p: int)
    requires
        0 <= p,
    ensures
        before(line_col(s, p), line_col(s, p + 1)),
{
}

pub proof fn lemma_line_col_increasing(s: Seq<char>, p: int, q: int)
    requires
        0 <= p < q,
    ensures
        before(line_col(s, p), line_col(s, q)),
    decreases q - p,
{
    lemma_line_col_step(s, q - 1);
    if p < q - 1 {
        lemma_line_col_increasing(s, p, q - 1);
    }
}

proof fn lemma_lex_from_ordered(s: Seq<char>, p: int, acc: Seq<SpecToken>)
    requires
        0 <= p,
        in_source_order(acc),
        forall|i: int| 0 <= i < acc.len() ==> #[trigger] acc[i].kind != TokenKindOf::<Seq<char>>::Eof,
        forall|i: int| 0 <= i < acc.len() ==> before(token_pos(#[trigger] acc[i]), line_col(s, p)),
    ensures
        lex_from(s, p, acc) matches Ok(ts) ==> in_source_order(ts) && ends_with_single_eof(ts),
    decreases s.len() - p,
{
    let q = skip_blank(s, p);
    lemma_skip_blank_bounds(s, p);
    if p < q {
        lemma_line_col_increasing(s, p, q);
    }
    let t_lc = line_col(s, q);
    assert forall|i: int| 0 <= i < acc.len() implies before(token_pos(#[trigger] acc[i]), t_lc) by {
        assert(before(token_pos(acc[i]), line_col(s, p)));
    }
    if q >= s.len() {
        let ts = acc.push(spec_token(TokenKindOf::Eof, t_lc));
        assert forall|i: int, j: int| 0 <= i < j < ts.len() implies before(token_pos(ts[i]), token_pos(ts[j])) by {
            if j == ts.len() - 1 {
                assert(before(token_pos(acc[i]), t_lc));
            } else {
                assert(before(token_pos(acc[i]), token_pos(acc[j])));
            }
        }
        assert(forall|i: int| 0 <= i < ts.len() - 1 ==> ts[i] == acc[i]);
    } else {
        lemma_next_token_advances(s, q);
        match next_token(s, q) {
            Err(_) => {},
            Ok((k, e)) => {
                let tok = spec_token(k, t_lc);
                let acc2 = acc.push(tok);
                assert(k != TokenKindOf::<Seq<char>>::Eof);
                lemma_line_col_increasing(s, q, e);
                assert forall|i: int, j: int| 0 <= i < j < acc2.len() implies before(token_pos(acc2[i]), token_pos(acc2[j])) by {
                    if j == acc2.len() - 1 {
                        assert(before(token_pos(acc[i]), t_lc));
                    } else {
                        assert(before(token_pos(acc[i]), token_pos(acc[j])));
                    }
                }
                assert forall|i: int| 0 <= i < acc2.len() implies #[trigger] acc2[i].kind != TokenKindOf::<Seq<char>>::Eof by {
                    if i < acc.len() {
                        assert(acc2[i] == acc[i]);
                    }
                }
                assert forall|i: int| 0 <= i < acc2.len() implies before(token_pos(#[trigger] acc2[i]), line_col(s, e)) by {
                    if i < acc.len() {
                        assert(acc2[i] == acc[i]);
                        assert(before(token_pos(acc[i]), t_lc));
                    }
                }
                lemma_lex_from_ordered(s, e, acc2);
            },
        }
    }
}

/// Every successful lexing ends with exactly one `Eof`, as its last token,
/// and hands out its tokens in strictly increasing source position.
pub proof fn lemma_tokens_in_source_order(s: Seq<char>)
    ensures
        spec_tokenize(s) matches Ok(ts) ==> in_source_order(ts) && ends_with_single_eof(ts),
{
    lemma_lex_from_ordered(s, 0, seq![]);
}

// ── Lexer ────────────────────────────────────────────────────────────────────

/// Where the lexer is: the index of the next character, and its line and
/// column.
#[derive(Clone, Copy)]
struct Cursor {
    pos: usize,
    line: usize,
    col: usize,
}

pub struct Lexer {
    source: Vec<char>,
    cur: Cursor,
}

impl Lexer {
    /// The source characters being lexed.
    pub closed spec fn source_view(&self) -> Seq<char> {
        self.source@
    }

    /// The position of the next character to read.
    pub closed spec fn position(&self) -> nat {
        self.cur.pos as nat
    }

    /// The lexer's state is consistent: the position is inside the source
    /// and the line and column are those of the position.
    #[verifier::type_invariant]
    spec fn wf(&self) -> bool {
        &&& self.cur.pos <= self.source@.len()
        &&& self.source@.len() < usize::MAX
        &&& line_col(self.source@, self.cur.pos as int) == (self.cur.line as nat, self.cur.col as nat)
    }

    pub fn new(source: &str) -> (r: Lexer)
        ensures
            r.source_view() == source@,
            r.position() == 0,
    {
        Lexer { source: chars_of(source), cur: Cursor { pos: 0, line: 1, col: 1 } }
    }

    fn peek(&self) -> (r: Option<char>)
        requires
            self.wf(),
        ensures
            r == (if self.cur.pos < self.source@.len() { Some(self.source@[self.cur.pos as int]) } else { None::<char> }),
    {
        if self.cur.pos < self.source.len() {
            Some(self.source[self.cur.pos])
        } else {
            None
        }
    }

    fn peek_next(&self) -> (r: Option<char>)
        requires
            self.wf(),
        ensures
            r == (if self.cur.pos + 1 < self.source@.len() { Some(self.source@[self.cur.pos + 1]) } else { None::<char> }),
    {
        if self.cur.pos + 1 < self.source.len() {
            Some(self.source[self.cur.pos + 1])
        } else {
            None
        }
    }

    /// Whether the next character is `c`.
    fn next_is(&self, c: char) -> (r: bool)
        requires
            self.wf(),
        ensures
            r == (self.cur.pos < self.source@.len() && self.source@[self.cur.pos as int] == c),
    {
        self.cur.pos < self.source.len() && self.source[self.cur.pos] == c
    }

    fn advance(&mut self) -> (r: Option<char>)
        requires
            old(self).wf(),
        ensures
            final(self).wf(),
            final(self).source@ == old(self).source@,
            old(self).cur.pos < old(self).source@.len() ==> final(self).cur.pos == old(self).cur.pos + 1 && r == Some(
                old(self).source@[old(self).cur.pos as int],
            ),
            old(self).cur.pos >= old(self).source@.len() ==> final(self).cur.pos == old(self).cur.pos && r is None,
    {
        if self.cur.pos < self.source.len() {
            let c = self.source[self.cur.pos];
            proof {
                lemma_line_col_bounds(self.source@, self.cur.pos as int);
            }
            let next = if c == '\n' {
                Cursor { pos: self.cur.pos + 1, line: self.cur.line + 1, col: 1 }
            } else {
                Cursor { pos: self.cur.pos + 1, line: self.cur.line, col: self.cur.col + 1 }
            };
            self.cur = next;
            Some(c)
        } else {
            None
        }
    }

    fn skip_whitespace_and_comments(&mut self)
        requires
            old(self).wf(),
        ensures
            final(self).wf(),
            final(self).source@ == old(self).source@,
            final(self).cur.pos == skip_blank(old(self).source@, old(self).cur.pos as int),
    {
        let ghost s = self.source@;
        let ghost target = skip_blank(s, self.cur.pos as int);
        loop
            invariant
                self.wf(),
                self.source@ == s,
                skip_blank(s, self.cur.pos as int) == target,
            ensures
                self.wf(),
                self.source@ == s,
                self.cur.pos == target,
            decreases s.len() - self.cur.pos,
        {
            let blank = match self.peek() {
                Some(ch) => ch == ' ' || ch == '\t' || ch == '\r',
                None => false,
            };
            let comment = match (self.peek(), self.peek_next()) {
                (Some('/'), Some('/')) => true,
                _ => false,
            };
            if blank {
                self.advance();
            } else if comment {
                let ghost p0 = self.cur.pos as int;
                proof {
                    lemma_comment_end_bounds(s, p0 + 2);
                    assert(comment_end(s, p0) == comment_end(s, p0 + 1));
                    assert(comment_end(s, p0 + 1) == comment_end(s, p0 + 2));
                }
                while self.cur.pos < self.source.len() && self.source[self.cur.pos] != '\n'
                    invariant
                        self.wf(),
                        self.source@ == s,
                        p0 <= self.cur.pos,
                        comment_end(s, self.cur.pos as int) == comment_end(s, p0),
                        comment_end(s, p0) == comment_end(s, p0 + 2),
                    decreases s.len() - self.cur.pos,
                {
                    self.advance();
                }
                assert(comment_end(s, self.cur.pos as int) == self.cur.pos);
                assert(self.cur.pos > p0);
            } else {
                break;
            }
        }
    }

    fn read_string(&mut self) -> (r: Result<String, StringFault>)
        requires
            old(self).wf(),
            old(self).cur.pos < old(self).source@.len(),
            old(self).source@[old(self).cur.pos as int] == '"',
        ensures
            final(self).wf(),
            final(self).source@ == old(self).source@,
            match string_scan(old(self).source@, old(self).cur.pos + 1, seq![]) {
                Ok((t, e)) => r matches Ok(v) && v@ == t && final(self).cur.pos == e,
                Err(f) => r == Err::<String, StringFault>(f),
            },
    {
        let ghost s = self.source@;
        let ghost start = self.cur.pos + 1;
        self.advance();
        let mut buf: Vec<char> = Vec::new();
        loop
            invariant
                self.wf(),
                self.source@ == s,
                s == old(self).source@,
                start == old(self).cur.pos + 1,
                string_scan(s, self.cur.pos as int, buf@) == string_scan(s, start, seq![]),
            decreases s.len() - self.cur.pos,
        {
            match self.advance() {
                None => {
                    return Err(StringFault::Unterminated);
                },
                Some(c) => {
                    if c == '"' {
                        return Ok(string_from_chars(&buf));
                    } else if c == '\\' {
                        match self.advance() {
                            None => {
                                return Err(StringFault::DanglingEscape);
                            },
                            Some(e) => {
                                let ghost before = buf@;
                                if e == 'n' {
                                    buf.push('\n');
                                } else if e == 't' {
                                    buf.push('\t');
                                } else if e == '"' {
                                    buf.push('"');
                                } else if e == '\\' {
                                    buf.push('\\');
                                } else {
                                    buf.push('\\');
                                    buf.push(e);
                                }
                                assert(buf@ =~= before + escape_chars(e));
                            },
                        }
                    } else {
                        buf.push(c);
                    }
                },
            }
        }
    }

    /// Reads a run of digits and dots; the characters are kept as written.
    fn read_number(&mut self) -> (r: String)
        requires
            old(self).wf(),
        ensures
            final(self).wf(),
            final(self).source@ == old(self).source@,
            final(self).cur.pos == number_end(old(self).source@, old(self).cur.pos as int),
            r@ == old(self).source@.subrange(old(self).cur.pos as int, final(self).cur.pos as int),
    {
        let ghost s = self.source@;
        let start = self.cur.pos;
        proof {
            lemma_number_end_bounds(s, start as int);
        }
        while self.cur.pos < self.source.len() && (is_ascii_digit(self.source[self.cur.pos]) || self.source[self.cur.pos] == '.')
            invariant
                self.wf(),
                self.source@ == s,
                start <= self.cur.pos,
                number_end(s, self.cur.pos as int) == number_end(s, start as int),
            decreases s.len() - self.cur.pos,
        {
            self.advance();
        }
        string_from_range(&self.source, start, self.cur.pos)
    }

    /// Reads a run of identifier characters, leaving `re-run` aside.
    fn read_word(&mut self) -> (r: Vec<char>)
        requires
            old(self).wf(),
        ensures
            final(self).wf(),
            final(self).source@ == old(self).source@,
            final(self).cur.pos == ident_end(old(self).source@, old(self).cur.pos as int),
            r@ == old(self).source@.subrange(old(self).cur.pos as int, final(self).cur.pos as int),
    {
        let ghost s = self.source@;
        let start = self.cur.pos;
        proof {
            lemma_ident_end_bounds(s, start as int);
        }
        let mut buf: Vec<char> = Vec::new();
        while self.cur.pos < self.source.len() && (is_alphanumeric(self.source[self.cur.pos]) || self.source[self.cur.pos] == '_')
            invariant
                self.wf(),
                self.source@ == s,
                start <= self.cur.pos,
                ident_end(s, self.cur.pos as int) == ident_end(s, start as int),
                buf@ == s.subrange(start as int, self.cur.pos as int),
            decreases s.len() - self.cur.pos,
        {
            buf.push(self.source[self.cur.pos]);
            self.advance();
            assert(buf@ =~= s.subrange(start as int, self.cur.pos as int));
        }
        buf
    }

    fn read_ident(&mut self) -> (r: String)
        requires
            old(self).wf(),
        ensures
            final(self).wf(),
            final(self).source@ == old(self).source@,
            (r@, final(self).cur.pos as int) == ident_scan(old(self).source@, old(self).cur.pos as int),
    {
        let ghost s = self.source@;
        let ghost q = self.cur.pos as int;
        let word = self.read_word();
        if chars_eq_str(&word, "re") && self.next_is('-') {
            let saved = self.cur;
            self.advance();
            let rest = self.read_word();
            if chars_eq_str(&rest, "run") {
                return String::from_str("re-run");
            }
            self.cur = saved;
        }
        string_from_chars(&word)
    }

    fn keyword_or_ident(s: String) -> (r: TokenKind)
        ensures
            r@ == spec_keyword(s@),
    {
        let t = s.as_str();
        if str_eq(t, "helper") {
            TokenKindOf::Helper
        } else if str_eq(t, "agent") {
            TokenKindOf::Agent
        } else if str_eq(t, "brain") {
            TokenKindOf::Brain
        } else if str_eq(t, "plan") {
            TokenKindOf::Plan
        } else if str_eq(t, "execute") {
            TokenKindOf::Execute
        } else if str_eq(t, "remember") {
            TokenKindOf::Remember
        } else if str_eq(t, "communicate") {
            TokenKindOf::Communicate
        } else if str_eq(t, "memory") {
            TokenKindOf::Memory
        } else if str_eq(t, "receive") {
            TokenKindOf::Receive
        } else if str_eq(t, "channel") {
            TokenKindOf::Channel
        } else if str_eq(t, "emit") {
            TokenKindOf::Emit
        } else if str_eq(t, "broadcast") {
            TokenKindOf::Broadcast
        } else if str_eq(t, "recipe") {
            TokenKindOf::Recipe
        } else if str_eq(t, "objective") {
            TokenKindOf::Objective
        } else if str_eq(t, "needs") {
            TokenKindOf::Needs
        } else if str_eq(t, "gives") {
            TokenKindOf::Gives
        } else if str_eq(t, "can_do") {
            TokenKindOf::CanDo
        } else if str_eq(t, "when") {
            TokenKindOf::When
        } else if str_eq(t, "then") {
            TokenKindOf::Then
        } else if str_eq(t, "try") {
            TokenKindOf::Try
        } else if str_eq(t, "catch") {
            TokenKindOf::Catch
        } else if str_eq(t, "for") {
            TokenKindOf::For
        } else if str_eq(t, "each") {
            TokenKindOf::Each
        } else if str_eq(t, "in") {
            TokenKindOf::In
        } else if str_eq(t, "if") {
            TokenKindOf::If
        } else if str_eq(t, "else") {
            TokenKindOf::Else
        } else if str_eq(t, "return") {
            TokenKindOf::Return
        } else if str_eq(t, "output") {
            TokenKindOf::Output
        } else if str_eq(t, "log") {
            TokenKindOf::Log
        } else if str_eq(t, "say") {
            TokenKindOf::Say
        } else if str_eq(t, "use") {
            TokenKindOf::Use
        } else if str_eq(t, "from") {
            TokenKindOf::From
        } else if str_eq(t, "as") {
            TokenKindOf::As
        } else if str_eq(t, "on") {
            TokenKindOf::On
        } else if str_eq(t, "bind") {
            TokenKindOf::Bind
        } else if str_eq(t, "source") {
            TokenKindOf::Source
        } else if str_eq(t, "type") {
            TokenKindOf::Type
        } else if str_eq(t, "do") {
            TokenKindOf::Do
        } else if str_eq(t, "wait") {
            TokenKindOf::Wait
        } else if str_eq(t, "assign") {
            TokenKindOf::Assign
        } else if str_eq(t, "spawn") {
            TokenKindOf::Spawn
        } else if str_eq(t, "count") {
            TokenKindOf::Count
        } else if str_eq(t, "push") {
            TokenKindOf::Push
        } else if str_eq(t, "not") {
            TokenKindOf::Not
        } else if str_eq(t, "and") {
            TokenKindOf::And
        } else if str_eq(t, "or") {
            TokenKindOf::Or
        } else if str_eq(t, "re-run") {
            TokenKindOf::ReRun
        } else if str_eq(t, "started") {
            TokenKindOf::Started
        } else if str_eq(t, "escalate") {
            TokenKindOf::Escalate
        } else if str_eq(t, "human") {
            TokenKindOf::Human
        } else if str_eq(t, "changes") {
            TokenKindOf::Changes
        } else if str_eq(t, "ask") {
            TokenKindOf::Ask
        } else if str_eq(t, "embed") {
            TokenKindOf::Embed
        } else if str_eq(t, "infer") {
            TokenKindOf::Infer
        } else if str_eq(t, "classifier") {
            TokenKindOf::Classifier
        } else if str_eq(t, "function") {
            TokenKindOf::Function
        } else if str_eq(t, "import") {
            TokenKindOf::Import
        } else if str_eq(t, "while") {
            TokenKindOf::While
        } else if str_eq(t, "break") {
            TokenKindOf::Break
        } else if str_eq(t, "continue") {
            TokenKindOf::Continue
        } else if str_eq(t, "assert") {
            TokenKindOf::Assert
        } else if str_eq(t, "serve") {
            TokenKindOf::Serve
        } else if str_eq(t, "with") {
            TokenKindOf::With
        } else if str_eq(t, "to") {
            TokenKindOf::To
        } else if str_eq(t, "message") {
            TokenKindOf::Message
        } else if str_eq(t, "call") {
            TokenKindOf::Call
        } else if str_eq(t, "route") {
            TokenKindOf::Route
        } else if str_eq(t, "respond") {
            TokenKindOf::Respond
        } else if str_eq(t, "port") {
            TokenKindOf::Port
        } else if str_eq(t, "true") {
            TokenKindOf::BoolLit(true)
        } else if str_eq(t, "false") {
            TokenKindOf::BoolLit(false)
        } else if str_eq(t, "null") {
            TokenKindOf::Null
        } else {
            TokenKindOf::Ident(s)
        }
    }

    /// Reads the token at the current position, which is past any blanks
    /// and comments and inside the source.
    fn scan_token(&mut self) -> (r: Result<TokenKind, LexError>)
        requires
            old(self).wf(),
            old(self).cur.pos < old(self).source@.len(),
        ensures
            final(self).wf(),
            final(self).source@ == old(self).source@,
            match next_token(old(self).source@, old(self).cur.pos as int) {
                Ok((k, e)) => r matches Ok(v) && v@ == k && final(self).cur.pos == e,
                Err(err) => r == Err::<TokenKind, LexError>(err),
            },
    {
        let ghost s = self.source@;
        let c = self.source[self.cur.pos];
        let line = self.cur.line;
        let col = self.cur.col;
        if c == '\n' {
            self.advance();
            return Ok(TokenKindOf::Newline);
        }
        if c == '"' {
            return match self.read_string() {
                Ok(t) => Ok(TokenKindOf::StringLit(t)),
                Err(StringFault::Unterminated) => Err(LexError::UnterminatedString { line }),
                Err(StringFault::DanglingEscape) => Err(LexError::UnterminatedEscape { line }),
            };
        }
        if is_ascii_digit(c) {
            return Ok(TokenKindOf::NumberLit(self.read_number()));
        }
        if char_is_alphabetic(c) || c == '_' {
            let ident = self.read_ident();
            return Ok(Self::keyword_or_ident(ident));
        }
        self.advance();
        if c == '{' {
            Ok(TokenKindOf::LBrace)
        } else if c == '}' {
            Ok(TokenKindOf::RBrace)
        } else if c == '[' {
            Ok(TokenKindOf::LBracket)
        } else if c == ']' {
            Ok(TokenKindOf::RBracket)
        } else if c == '(' {
            Ok(TokenKindOf::LParen)
        } else if c == ')' {
            Ok(TokenKindOf::RParen)
        } else if c == ':' {
            Ok(TokenKindOf::Colon)
        } else if c == ',' {
            Ok(TokenKindOf::Comma)
        } else if c == '.' {
            if self.next_is('.') {
                self.advance();
                Ok(TokenKindOf::DotDot)
            } else {
                Ok(TokenKindOf::Dot)
            }
        } else if c == '+' {
            if self.next_is('=') {
                self.advance();
                Ok(TokenKindOf::PlusEq)
            } else {
                Ok(TokenKindOf::Plus)
            }
        } else if c == '-' {
            if self.next_is('>') {
                self.advance();
                Ok(TokenKindOf::Arrow)
            } else if self.next_is('=') {
                self.advance();
                Ok(TokenKindOf::MinusEq)
            } else {
                Ok(TokenKindOf::Minus)
            }
        } else if c == '*' {
            if self.next_is('=') {
                self.advance();
                Ok(TokenKindOf::StarEq)
            } else {
                Ok(TokenKindOf::Star)
            }
        } else if c == '/' {
            if self.next_is('=') {
                self.advance();
                Ok(TokenKindOf::SlashEq)
            } else {
                Ok(TokenKindOf::Slash)
            }
        } else if c == '%' {
            Ok(TokenKindOf::Percent)
        } else if c == '=' {
            if self.next_is('=') {
                self.advance();
                Ok(TokenKindOf::EqEq)
            } else {
                Ok(TokenKindOf::Eq)
            }
        } else if c == '!' {
            if self.next_is('=') {
                self.advance();
                Ok(TokenKindOf::NotEq)
            } else {
                Err(LexError::UnexpectedBang { line, col })
            }
        } else if c == '<' {
            if self.next_is('=') {
                self.advance();
                Ok(TokenKindOf::LtEq)
            } else {
                Ok(TokenKindOf::Lt)
            }
        } else if c == '>' {
            if self.next_is('=') {
                self.advance();
                Ok(TokenKindOf::GtEq)
            } else {
                Ok(TokenKindOf::Gt)
            }
        } else if c == ';' {
            Ok(TokenKindOf::Newline)
        } else if c == '|' {
            if self.next_is('>') {
                self.advance();
                Ok(TokenKindOf::Pipe)
            } else {
                Err(LexError::UnexpectedPipe { line, col })
            }
        } else if c == '?' {
            if self.next_is('?') {
                self.advance();
                Ok(TokenKindOf::QuestionQuestion)
            } else {
                Err(LexError::UnexpectedQuestion { line, col })
            }
        } else {
            Err(LexError::UnexpectedChar { ch: c, line, col })
        }
    }

    /// Lexes the rest of the source: every token up to and including `Eof`,
    /// or the message of the first error.
    pub fn tokenize(&mut self) -> (r: Result<Vec<Token>, String>)
        ensures
            final(self).source_view() == old(self).source_view(),
            match lex_from(old(self).source_view(), old(self).position() as int, seq![]) {
                Ok(ts) => r matches Ok(v) && tokens_view(v@) == ts,
                Err(e) => r matches Err(m) && m@ == error_message(e),
            },
    {
        proof {
            use_type_invariant(&*self);
        }
        let ghost s = self.source@;
        let ghost p0 = self.cur.pos as int;
        let mut tokens: Vec<Token> = Vec::new();
        assert(tokens_view(tokens@) =~= seq![]);
        loop
            invariant
                self.wf(),
                self.source@ == s,
                s == old(self).source@,
                p0 == old(self).cur.pos,
                lex_from(s, self.cur.pos as int, tokens_view(tokens@)) == lex_from(s, p0, seq![]),
            decreases s.len() - self.cur.pos,
        {
            let ghost p = self.cur.pos as int;
            proof {
                lemma_skip_blank_bounds(s, p);
            }
            self.skip_whitespace_and_comments();
            let line = self.cur.line;
            let col = self.cur.col;
            let ghost acc = tokens_view(tokens@);
            if self.cur.pos >= self.source.len() {
                tokens.push(Token { kind: TokenKindOf::Eof, line, col });
                assert(tokens_view(tokens@) =~= acc.push(spec_token(TokenKindOf::Eof, line_col(s, self.cur.pos as int))));
                return Ok(tokens);
            }
            proof {
                lemma_next_token_advances(s, self.cur.pos as int);
            }
            match self.scan_token() {
                Ok(kind) => {
                    tokens.push(Token { kind, line, col });
                    assert(tokens_view(tokens@) =~= acc.push(tokens@.last()@));
                },
                Err(e) => {
                    return Err(e.message());
                },
            }
        }
    }
}

impl LexError {
    /// The message reported for this error.
    pub fn message(&self) -> (m: String)
        ensures
            m@ == error_message(*self),
    {
        match *self {
            LexError::UnterminatedString { line } => {
                let mut m = String::from_str("Unterminated string at line ");
                push_decimal(&mut m, line);
                m
            },
            LexError::UnterminatedEscape { line } => {
                let mut m = String::from_str("Unterminated escape at line ");
                push_decimal(&mut m, line);
                m
            },
            LexError::UnexpectedBang { line, col } => {
                let mut m = String::from_str("Unexpected '!' at line ");
                push_decimal(&mut m, line);
                m.append(", col ");
                push_decimal(&mut m, col);
                m
            },
            LexError::UnexpectedPipe { line, col } => {
                let mut m = String::from_str("Unexpected '|' at line ");
                push_decimal(&mut m, line);
                m.append(", col ");
                push_decimal(&mut m, col);
                m.append(" (did you mean '|>'?)");
                m
            },
            LexError::UnexpectedQuestion { line, col } => {
                let mut m = String::from_str("Unexpected '?' at line ");
                push_decimal(&mut m, line);
                m.append(", col ");
                push_decimal(&mut m, col);
                m.append(" (did you mean '??'?)");
                m
            },
            LexError::UnexpectedChar { ch, line, col } => {
                let mut m = String::from_str("Unexpected character '");
                string_push(&mut m, ch);
                m.append("' at line ");
                push_decimal(&mut m, line);
                m.append(", col ");
                push_decimal(&mut m, col);
                m
            },
        }
    }
}

} // verus!
