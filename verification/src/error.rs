//! Positions in source text and the errors of lexing and parsing.

use vstd::prelude::*;
use crate::text::{decimal, decimal_chars, push_all, push_str, string_from_chars};

verus! {

/// Position in source text.
#[derive(Debug, Clone, Copy, PartialEq, Eq, Structural)]
pub struct Position {
    /// Byte offset.
    pub offset: usize,
    /// Line number (1-based).
    pub line: usize,
    /// Column number (1-based).
    pub column: usize,
}

impl Position {
    pub fn new(offset: usize, line: usize, column: usize) -> (p: Self)
        ensures
            p == (Position { offset, line, column }),
    {
        Self { offset, line, column }
    }

    /// The text `line L, column C`.
    pub fn display_string(&self) -> (s: String)
        ensures
            s@ == describe_position(*self),
    {
        let v = position_chars(*self);
        string_from_chars(v.as_slice())
    }
}

/// `line L, column C`.
pub open spec fn describe_position(p: Position) -> Seq<char> {
    "line "@ + decimal(p.line as nat) + ", column "@ + decimal(p.column as nat)
}

pub fn position_chars(p: Position) -> (v: Vec<char>)
    ensures
        v@ == describe_position(p),
{
    let mut v: Vec<char> = Vec::new();
    push_str(&mut v, "line ");
    let l = decimal_chars(p.line as u64);
    push_all(&mut v, l.as_slice());
    push_str(&mut v, ", column ");
    let c = decimal_chars(p.column as u64);
    push_all(&mut v, c.as_slice());
    v
}

/// Lexer errors.
#[derive(Debug, Clone, Copy, PartialEq, Eq, Structural)]
pub enum LexError {
    UnexpectedChar { ch: char, pos: Position },
    UnterminatedString { pos: Position },
    InvalidEscape { ch: char, pos: Position },
    UnexpectedEof,
}

pub open spec fn lex_error_message(e: LexError) -> Seq<char> {
    match e {
        LexError::UnexpectedChar { ch, pos } => "Unexpected character '"@ + seq![ch] + "' at "@
            + describe_position(pos),
        LexError::UnterminatedString { pos } => "Unterminated string at "@ + describe_position(
            pos,
        ),
        LexError::InvalidEscape { ch, pos } => "Invalid escape sequence '\\"@ + seq![ch]
            + "' at "@ + describe_position(pos),
        LexError::UnexpectedEof => "Unexpected end of input"@,
    }
}

fn lex_error_chars(e: &LexError) -> (v: Vec<char>)
    ensures
        v@ == lex_error_message(*e),
{
    let mut v: Vec<char> = Vec::new();
    match e {
        LexError::UnexpectedChar { ch, pos } => {
            push_str(&mut v, "Unexpected character '");
            v.push(*ch);
            push_str(&mut v, "' at ");
            let p = position_chars(*pos);
            push_all(&mut v, p.as_slice());
        },
        LexError::UnterminatedString { pos } => {
            push_str(&mut v, "Unterminated string at ");
            let p = position_chars(*pos);
            push_all(&mut v, p.as_slice());
        },
        LexError::InvalidEscape { ch, pos } => {
            push_str(&mut v, "Invalid escape sequence '\\");
            v.push(*ch);
            push_str(&mut v, "' at ");
            let p = position_chars(*pos);
            push_all(&mut v, p.as_slice());
        },
        LexError::UnexpectedEof => {
            push_str(&mut v, "Unexpected end of input");
        },
    }
    v
}

impl LexError {
    /// The human-readable message of this error.
    pub fn display_string(&self) -> (s: String)
        ensures
            s@ == lex_error_message(*self),
    {
        let v = lex_error_chars(self);
        string_from_chars(v.as_slice())
    }
}

/// Parser errors.
#[derive(Debug, Clone)]
pub enum ParseError {
    UnexpectedToken { token: String, pos: Position },
    Expected { expected: String, found: String, pos: Position },
    UnterminatedList { pos: Position },
    UnexpectedCloseParen { pos: Position },
    EmptyInput,
    LexError(LexError),
}

/// The abstract value of a parse error: its strings taken as character sequences.
pub enum ParseErrorV {
    UnexpectedToken { token: Seq<char>, pos: Position },
    Expected { expected: Seq<char>, found: Seq<char>, pos: Position },
    UnterminatedList { pos: Position },
    UnexpectedCloseParen { pos: Position },
    EmptyInput,
    LexError(LexError),
}

impl View for ParseError {
    type V = ParseErrorV;

    open spec fn view(&self) -> ParseErrorV {
        match self {
            ParseError::UnexpectedToken { token, pos } => ParseErrorV::UnexpectedToken {
                token: token@,
                pos: *pos,
            },
            ParseError::Expected { expected, found, pos } => ParseErrorV::Expected {
                expected: expected@,
                found: found@,
                pos: *pos,
            },
            ParseError::UnterminatedList { pos } => ParseErrorV::UnterminatedList { pos: *pos },
            ParseError::UnexpectedCloseParen { pos } => ParseErrorV::UnexpectedCloseParen {
                pos: *pos,
            },
            ParseError::EmptyInput => ParseErrorV::EmptyInput,
            ParseError::LexError(e) => ParseErrorV::LexError(*e),
        }
    }
}

/// What `format!("{:?}", s)` writes for a string: the quoted, escaped form.
pub uninterp spec fn debug_quoted(s: Seq<char>) -> Seq<char>;

/// `<str as Debug>::fmt`, through `format!("{:?}", ..)`.
/// Claims the result is the named debug form of the string's characters.
#[verifier::external_body]
pub(crate) fn debug_quote(s: &str) -> (r: String)
    ensures
        r@ == debug_quoted(s@),
{
    format!("{:?}", s)
}

pub open spec fn parse_error_message(e: ParseErrorV) -> Seq<char> {
    match e {
        ParseErrorV::UnexpectedToken { token, pos } => "Unexpected token "@ + debug_quoted(token)
            + " at "@ + describe_position(pos),
        ParseErrorV::Expected { expected, found, pos } => "Expected "@ + expected + ", found "@
            + found + " at "@ + describe_position(pos),
        ParseErrorV::UnterminatedList { pos } => "Unterminated list at "@ + describe_position(pos),
        ParseErrorV::UnexpectedCloseParen { pos } => "Unexpected closing parenthesis at "@
            + describe_position(pos),
        ParseErrorV::EmptyInput => "Empty input"@,
        ParseErrorV::LexError(l) => "Lexer error: "@ + lex_error_message(l),
    }
}

impl ParseError {
    /// The human-readable message of this error.
    pub fn display_string(&self) -> (s: String)
        ensures
            s@ == parse_error_message(self@),
    {
        let mut v: Vec<char> = Vec::new();
        match self {
            ParseError::UnexpectedToken { token, pos } => {
                push_str(&mut v, "Unexpected token ");
                let q = debug_quote(token.as_str());
                push_str(&mut v, q.as_str());
                push_str(&mut v, " at ");
                let p = position_chars(*pos);
                push_all(&mut v, p.as_slice());
            },
            ParseError::Expected { expected, found, pos } => {
                push_str(&mut v, "Expected ");
                push_str(&mut v, expected.as_str());
                push_str(&mut v, ", found ");
                push_str(&mut v, found.as_str());
                push_str(&mut v, " at ");
                let p = position_chars(*pos);
                push_all(&mut v, p.as_slice());
            },
            ParseError::UnterminatedList { pos } => {
                push_str(&mut v, "Unterminated list at ");
                let p = position_chars(*pos);
                push_all(&mut v, p.as_slice());
            },
            ParseError::UnexpectedCloseParen { pos } => {
                push_str(&mut v, "Unexpected closing parenthesis at ");
                let p = position_chars(*pos);
                push_all(&mut v, p.as_slice());
            },
            ParseError::EmptyInput => {
                push_str(&mut v, "Empty input");
            },
            ParseError::LexError(l) => {
                push_str(&mut v, "Lexer error: ");
                let m = lex_error_chars(l);
                push_all(&mut v, m.as_slice());
            },
        }
        string_from_chars(v.as_slice())
    }
}

impl From<LexError> for ParseError {
    fn from(e: LexError) -> (r: ParseError) {
        ParseError::LexError(e)
    }
}

impl vstd::std_specs::convert::FromSpecImpl<LexError> for ParseError {
    open spec fn obeys_from_spec() -> bool {
        true
    }

    open spec fn from_spec(e: LexError) -> ParseError {
        ParseError::LexError(e)
    }
}

} // verus!
