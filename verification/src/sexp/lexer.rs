//! Lexer for S-expressions.

use vstd::prelude::*;
use crate::design::extract::{byte_len, lemma_byte_len_prefix_grows};
use crate::error::{LexError, Position};
use crate::text::{
    char_is_alphabetic, char_is_alphanumeric, char_is_whitespace, chars_equal, chars_of,
    chars_range, is_ascii_digit, string_of_char, is_digit, string_from_chars, is_alphabetic,
    is_alphanumeric, is_whitespace,
};

verus! {

#[derive(Debug, Clone, Copy, PartialEq, Eq, Structural)]
pub enum TokenType {
    LParen,
    RParen,
    Symbol,
    Keyword,
    String,
    Number,
    Nil,
    Eof,
}

#[derive(Debug, Clone)]
pub struct Token {
    pub typ: TokenType,
    pub lexeme: String,
    pub pos: Position,
}

/// The abstract value of a token.
pub struct TokenV {
    pub typ: TokenType,
    pub lexeme: Seq<char>,
    pub pos: Position,
}

impl View for Token {
    type V = TokenV;

    open spec fn view(&self) -> TokenV {
        TokenV { typ: self.typ, lexeme: self.lexeme@, pos: self.pos }
    }
}

pub open spec fn tokens_view(ts: Seq<Token>) -> Seq<TokenV> {
    ts.map_values(|t: Token| t@)
}

// ---------------------------------------------------------------------------
// The lexical grammar
// ---------------------------------------------------------------------------

/// Number of bytes in the UTF-8 encoding of `c`.
pub open spec fn utf8_len(c: char) -> nat {
    let u = c as u32;
    if u < 0x80 {
        1
    } else if u < 0x800 {
        2
    } else if u < 0x10000 {
        3
    } else {
        4
    }
}

/// The position of the character at index `i`: byte offset, 1-based line and column.
pub open spec fn pos_at(inp: Seq<char>, i: int) -> Position
    decreases i,
{
    if i <= 0 {
        Position { offset: 0, line: 1, column: 1 }
    } else {
        let p = pos_at(inp, i - 1);
        let c = inp[i - 1];
        Position {
            offset: (p.offset + utf8_len(c)) as usize,
            line: if c == '\n' {
                (p.line + 1) as usize
            } else {
                p.line
            },
            column: if c == '\n' {
                1
            } else {
                (p.column + 1) as usize
            },
        }
    }
}

/// Punctuation allowed in symbols.
pub open spec fn is_symbol_punct(c: char) -> bool {
    c == '_' || c == '-' || c == '+' || c == '*' || c == '/' || c == '=' || c == '<' || c == '>'
        || c == '!' || c == '?' || c == '&'
}

pub open spec fn is_symbol_start_char(c: char) -> bool {
    is_alphabetic(c) || is_symbol_punct(c)
}

pub open spec fn is_symbol_char_spec(c: char) -> bool {
    is_alphanumeric(c) || is_symbol_punct(c) || c == '\''
}

/// End of the run of symbol characters starting at `i`.
pub open spec fn symbol_end(inp: Seq<char>, i: int) -> int
    decreases inp.len() - i,
{
    if 0 <= i < inp.len() && is_symbol_char_spec(inp[i]) {
        symbol_end(inp, i + 1)
    } else {
        i
    }
}

/// End of the run of ASCII digits starting at `i`.
pub open spec fn digits_end(inp: Seq<char>, i: int) -> int
    decreases inp.len() - i,
{
    if 0 <= i < inp.len() && is_ascii_digit(inp[i]) {
        digits_end(inp, i + 1)
    } else {
        i
    }
}

/// Index of the first character at or after `i` that is neither whitespace nor part of a
/// `;` comment (a comment runs through the end of its line).
pub open spec fn skip_ws(inp: Seq<char>, i: int, in_comment: bool) -> int
    decreases inp.len() - i,
{
    if i < 0 || i >= inp.len() {
        i
    } else if in_comment {
        skip_ws(inp, i + 1, inp[i] != '\n')
    } else if is_whitespace(inp[i]) {
        skip_ws(inp, i + 1, false)
    } else if inp[i] == ';' {
        skip_ws(inp, i + 1, true)
    } else {
        i
    }
}

/// The character that an escape `\e` stands for.
pub open spec fn escape_value(e: char) -> Option<char> {
    if e == 'n' {
        Some('\n')
    } else if e == 't' {
        Some('\t')
    } else if e == 'r' {
        Some('\r')
    } else if e == '\\' {
        Some('\\')
    } else if e == '"' {
        Some('"')
    } else {
        None
    }
}

/// The body of a string literal from index `i` on, with `acc` already read; the result is
/// the value and the index after the closing quote.
pub open spec fn scan_string(inp: Seq<char>, i: int, acc: Seq<char>, start: Position) -> Result<
    (Seq<char>, int),
    LexError,
>
    decreases inp.len() - i,
{
    if i < 0 || i >= inp.len() {
        Err(LexError::UnterminatedString { pos: start })
    } else if inp[i] == '"' {
        Ok((acc, i + 1))
    } else if inp[i] == '\\' {
        if i + 1 >= inp.len() {
            Err(LexError::UnterminatedString { pos: start })
        } else {
            match escape_value(inp[i + 1]) {
                Some(c) => scan_string(inp, i + 2, acc.push(c), start),
                None => Err(LexError::InvalidEscape { ch: inp[i + 1], pos: pos_at(inp, i + 1) }),
            }
        }
    } else {
        scan_string(inp, i + 1, acc.push(inp[i]), start)
    }
}

pub open spec fn starts_number(inp: Seq<char>, i: int) -> bool {
    is_ascii_digit(inp[i]) || (inp[i] == '-' && i + 1 < inp.len() && is_ascii_digit(inp[i + 1]))
}

/// The token that starts at index `i` (a character that is not whitespace), and the index
/// after it.
pub open spec fn next_token_at(inp: Seq<char>, i: int) -> Result<(TokenV, int), LexError> {
    let c = inp[i];
    let p = pos_at(inp, i);
    if c == '(' {
        Ok((TokenV { typ: TokenType::LParen, lexeme: seq!['('], pos: p }, i + 1))
    } else if c == ')' {
        Ok((TokenV { typ: TokenType::RParen, lexeme: seq![')'], pos: p }, i + 1))
    } else if c == ':' {
        let j = symbol_end(inp, i + 1);
        Ok((TokenV { typ: TokenType::Keyword, lexeme: inp.subrange(i + 1, j), pos: p }, j))
    } else if c == '"' {
        match scan_string(inp, i + 1, Seq::empty(), p) {
            Ok((s, j)) => Ok((TokenV { typ: TokenType::String, lexeme: s, pos: p }, j)),
            Err(e) => Err(e),
        }
    } else if starts_number(inp, i) {
        let j = digits_end(
            inp,
            if c == '-' {
                i + 1
            } else {
                i
            },
        );
        Ok((TokenV { typ: TokenType::Number, lexeme: inp.subrange(i, j), pos: p }, j))
    } else if is_symbol_start_char(c) {
        let j = symbol_end(inp, i + 1);
        let lx = inp.subrange(i, j);
        Ok(
            (
                TokenV {
                    typ: if lx == seq!['n', 'i', 'l'] {
                        TokenType::Nil
                    } else {
                        TokenType::Symbol
                    },
                    lexeme: lx,
                    pos: p,
                },
                j,
            ),
        )
    } else {
        Err(LexError::UnexpectedChar { ch: c, pos: p })
    }
}

/// The tokens of `inp` from index `i` on, ending with an end-of-input token.
pub open spec fn tokenize_from(inp: Seq<char>, i: int) -> Result<Seq<TokenV>, LexError>
    decreases inp.len() - i,
    via tokenize_from_decreases
{
    let j = skip_ws(inp, i, false);
    if i < 0 || j >= inp.len() {
        Ok(seq![TokenV { typ: TokenType::Eof, lexeme: Seq::empty(), pos: pos_at(inp, j) }])
    } else {
        match next_token_at(inp, j) {
            Ok((t, k)) => match tokenize_from(inp, k) {
                Ok(ts) => Ok(seq![t] + ts),
                Err(e) => Err(e),
            },
            Err(e) => Err(e),
        }
    }
}

#[via_fn]
proof fn tokenize_from_decreases(inp: Seq<char>, i: int) {
    let j = skip_ws(inp, i, false);
    if !(i < 0 || j >= inp.len()) {
        lemma_skip_ws_bounds(inp, i, false);
        lemma_next_token_advances(inp, j);
    }
}

/// The tokens of a whole input.
pub open spec fn tokenize_spec(inp: Seq<char>) -> Result<Seq<TokenV>, LexError> {
    tokenize_from(inp, 0)
}

// ---------------------------------------------------------------------------
// Lemmas about the grammar
// ---------------------------------------------------------------------------

pub proof fn lemma_symbol_end_bounds(inp: Seq<char>, i: int)
    requires
        0 <= i <= inp.len(),
    ensures
        i <= symbol_end(inp, i) <= inp.len(),
    decreases inp.len() - i,
{
    if i < inp.len() && is_symbol_char_spec(inp[i]) {
        lemma_symbol_end_bounds(inp, i + 1);
    }
}

pub proof fn lemma_digits_end_bounds(inp: Seq<char>, i: int)
    requires
        0 <= i <= inp.len(),
    ensures
        i <= digits_end(inp, i) <= inp.len(),
    decreases inp.len() - i,
{
    if i < inp.len() && is_ascii_digit(inp[i]) {
        lemma_digits_end_bounds(inp, i + 1);
    }
}

/// The byte offset of index `j` is the UTF-8 length of the text before it.
proof fn lemma_pos_offset(inp: Seq<char>, j: int)
    requires
        0 <= j <= inp.len(),
        byte_len(inp) <= usize::MAX,
    ensures
        pos_at(inp, j).offset == byte_len(inp.take(j)),
    decreases j,
{
    if j > 0 {
        lemma_pos_offset(inp, j - 1);
        assert(inp.take(j).drop_last() =~= inp.take(j - 1));
        assert(inp.take(j).last() == inp[j - 1]);
        assert(inp.take(inp.len() as int) =~= inp);
        if j < inp.len() {
            lemma_byte_len_prefix_grows(inp, j, inp.len() as int);
        }
    }
}

/// Where tokenizing from index `i` succeeds, there is at most one token per character
/// left plus the end-of-input token, the tokens' byte offsets strictly increase from at
/// least the offset of `i`, and the end-of-input token sits at the input's byte length.
pub proof fn lemma_token_offsets(inp: Seq<char>, i: int)
    requires
        0 <= i <= inp.len(),
        byte_len(inp) <= usize::MAX,
    ensures
        tokenize_from(inp, i) matches Ok(ts) ==> {
            &&& ts.len() <= inp.len() - i + 1
            &&& ts.len() > 0
            &&& ts.last().pos.offset == byte_len(inp)
            &&& forall|k: int| 0 <= k < ts.len() ==> (#[trigger] ts[k]).pos.offset >= byte_len(inp.take(i))
            &&& forall|a: int, b: int| 0 <= a < b < ts.len() ==> ts[a].pos.offset < ts[b].pos.offset
        },
    decreases inp.len() - i,
{
    let j = skip_ws(inp, i, false);
    lemma_skip_ws_bounds(inp, i, false);
    assert(inp.take(inp.len() as int) =~= inp);
    if i < j {
        lemma_byte_len_prefix_grows(inp, i, j);
    }
    lemma_pos_offset(inp, j);
    if j >= inp.len() {
    } else {
        lemma_next_token_advances(inp, j);
        if let Ok((t, k)) = next_token_at(inp, j) {
            assert(t.pos == pos_at(inp, j));
            lemma_token_offsets(inp, k);
            lemma_byte_len_prefix_grows(inp, j, k);
            if let Ok(rest) = tokenize_from(inp, k) {
                let ts = seq![t] + rest;
                assert forall|m: int| 0 <= m < ts.len() implies (#[trigger] ts[m]).pos.offset >= byte_len(
                    inp.take(i),
                ) by {
                    if m > 0 {
                        assert(ts[m] == rest[m - 1]);
                    }
                }
                assert forall|a: int, b: int| 0 <= a < b < ts.len() implies ts[a].pos.offset < ts[b].pos.offset by {
                    assert(ts[b] == rest[b - 1]);
                    if a > 0 {
                        assert(ts[a] == rest[a - 1]);
                    }
                }
                assert(ts.last() == rest.last());
            }
        }
    }
}

/// The shape of the tokens of a whole input: the last is the only end-of-input token, at
/// the input's byte length; the byte offsets strictly increase; and there are at most as
/// many tokens as characters, plus the end-of-input token.
pub open spec fn token_stream_shape(inp: Seq<char>, ts: Seq<TokenV>) -> bool {
    &&& ts.len() > 0
    &&& ts.last().typ == TokenType::Eof
    &&& forall|k: int| 0 <= k < ts.len() - 1 ==> (#[trigger] ts[k]).typ != TokenType::Eof
    &&& ts.last().pos.offset == byte_len(inp)
    &&& forall|a: int, b: int| 0 <= a < b < ts.len() ==> ts[a].pos.offset < ts[b].pos.offset
    &&& ts.len() <= inp.len() + 1
}

/// A successful tokenization of a whole input has the shape of a token stream.
pub proof fn lemma_tokenize_shape(inp: Seq<char>)
    requires
        byte_len(inp) <= usize::MAX,
    ensures
        tokenize_spec(inp) matches Ok(ts) ==> token_stream_shape(inp, ts),
{
    lemma_tokens_end_with_eof(inp, 0);
    lemma_token_offsets(inp, 0);
}

/// A successful tokenization ends with the end-of-input token, and that token occurs
/// nowhere else.
pub proof fn lemma_tokens_end_with_eof(inp: Seq<char>, i: int)
    requires
        0 <= i <= inp.len(),
    ensures
        tokenize_from(inp, i) matches Ok(ts) ==> ts.len() > 0 && ts.last().typ == TokenType::Eof
            && forall|k: int| 0 <= k < ts.len() - 1 ==> (#[trigger] ts[k]).typ != TokenType::Eof,
    decreases inp.len() - i,
{
    let j = skip_ws(inp, i, false);
    lemma_skip_ws_bounds(inp, i, false);
    if j < inp.len() {
        lemma_next_token_advances(inp, j);
        if let Ok((t, k)) = next_token_at(inp, j) {
            assert(t.typ != TokenType::Eof);
            lemma_tokens_end_with_eof(inp, k);
            if let Ok(rest) = tokenize_from(inp, k) {
                let ts = seq![t] + rest;
                assert forall|m: int| 0 <= m < ts.len() - 1 implies (#[trigger] ts[m]).typ != TokenType::Eof by {
                    if m > 0 {
                        assert(ts[m] == rest[m - 1]);
                    }
                }
                assert(ts.last() == rest.last());
            }
        }
    }
}

pub proof fn lemma_skip_ws_bounds(inp: Seq<char>, i: int, c: bool)
    requires
        0 <= i,
    ensures
        i <= skip_ws(inp, i, c),
        i <= inp.len() ==> skip_ws(inp, i, c) <= inp.len(),
    decreases inp.len() - i,
{
    if i < inp.len() {
        if c {
            lemma_skip_ws_bounds(inp, i + 1, inp[i] != '\n');
        } else if is_whitespace(inp[i]) {
            lemma_skip_ws_bounds(inp, i + 1, false);
        } else if inp[i] == ';' {
            lemma_skip_ws_bounds(inp, i + 1, true);
        }
    }
}

pub proof fn lemma_scan_string_advances(inp: Seq<char>, i: int, acc: Seq<char>, p: Position)
    requires
        0 <= i,
    ensures
        scan_string(inp, i, acc, p) matches Ok((_, j)) ==> i < j <= inp.len(),
    decreases inp.len() - i,
{
    if 0 <= i < inp.len() && inp[i] != '"' {
        if inp[i] == '\\' {
            if i + 1 < inp.len() {
                if let Some(c) = escape_value(inp[i + 1]) {
                    lemma_scan_string_advances(inp, i + 2, acc.push(c), p);
                }
            }
        } else {
            lemma_scan_string_advances(inp, i + 1, acc.push(inp[i]), p);
        }
    }
}

pub proof fn lemma_next_token_advances(inp: Seq<char>, i: int)
    requires
        0 <= i < inp.len(),
    ensures
        next_token_at(inp, i) matches Ok((_, j)) ==> i < j <= inp.len(),
{
    let c = inp[i];
    if c == ':' {
        lemma_symbol_end_bounds(inp, i + 1);
    } else if c == '"' {
        lemma_scan_string_advances(inp, i + 1, Seq::empty(), pos_at(inp, i));
    } else if starts_number(inp, i) {
        if c == '-' {
            assert(is_ascii_digit(inp[i + 1]));
            lemma_digits_end_bounds(inp, i + 2);
        } else {
            lemma_digits_end_bounds(inp, i + 1);
        }
    } else if is_symbol_start_char(c) {
        lemma_symbol_end_bounds(inp, i + 1);
    }
}

/// Positions stay within the machine bounds: the offset is at most four bytes per
/// character, and line and column at most one more than the number of characters.
pub proof fn lemma_pos_bounds(inp: Seq<char>, i: int)
    requires
        0 <= i <= inp.len(),
        4 * inp.len() <= isize::MAX,
    ensures
        pos_at(inp, i).offset <= 4 * i,
        1 <= pos_at(inp, i).line <= i + 1,
        1 <= pos_at(inp, i).column <= i + 1,
    decreases i,
{
    if i > 0 {
        lemma_pos_bounds(inp, i - 1);
    }
}

// ---------------------------------------------------------------------------
// The lexer
// ---------------------------------------------------------------------------

pub struct Lexer {
    input: Vec<char>,
    current: usize,
    offset: usize,
    line: usize,
    column: usize,
}

pub(crate) fn utf8_len_of(c: char) -> (n: usize)
    ensures
        n == utf8_len(c),
{
    let u = c as u32;
    if u < 0x80 {
        1
    } else if u < 0x800 {
        2
    } else if u < 0x10000 {
        3
    } else {
        4
    }
}

impl Lexer {
    /// The characters being lexed.
    pub closed spec fn source(&self) -> Seq<char> {
        self.input@
    }

    /// Index of the next character to read.
    pub closed spec fn cursor(&self) -> int {
        self.current as int
    }

    /// The lexer's position agrees with its cursor.
    pub closed spec fn wf(&self) -> bool {
        &&& self.current <= self.input@.len()
        &&& 4 * self.input@.len() <= isize::MAX
        &&& pos_at(self.input@, self.current as int) == (Position {
            offset: self.offset,
            line: self.line,
            column: self.column,
        })
    }

    pub fn new(input: &str) -> (l: Self)
        ensures
            l.wf(),
            l.source() == input@,
            l.cursor() == 0,
    {
        Self { input: chars_of(input), current: 0, offset: 0, line: 1, column: 1 }
    }

    /// Splits the rest of the input into tokens, the last of which marks the end of input.
    pub fn tokenize(&mut self) -> (r: Result<Vec<Token>, LexError>)
        requires
            old(self).wf(),
        ensures
            final(self).wf(),
            final(self).source() == old(self).source(),
            match r {
                Ok(ts) => tokenize_from(old(self).source(), old(self).cursor()) == Ok::<
                    Seq<TokenV>,
                    LexError,
                >(tokens_view(ts@)),
                Err(e) => tokenize_from(old(self).source(), old(self).cursor()) == Err::<
                    Seq<TokenV>,
                    LexError,
                >(e),
            },
            old(self).cursor() == 0 ==> (r matches Ok(ts) ==> token_stream_shape(
                old(self).source(),
                tokens_view(ts@),
            )),
    {
        proof {
            crate::design::extract::lemma_byte_len_bounds(self.input@);
            lemma_tokenize_shape(self.input@);
        }
        let mut tokens: Vec<Token> = Vec::new();
        let ghost inp = self.input@;
        let ghost start = self.current as int;
        loop
            invariant_except_break
                tokenize_from(inp, start) == prepend(tokens_view(tokens@), tokenize_from(inp, self.current as int)),
            invariant
                self.wf(),
                self.input@ == inp,
                start <= self.current,
                inp == old(self).input@,
                start == old(self).current,
            ensures
                self.wf(),
                self.input@ == inp,
                tokenize_from(inp, start) == Ok::<Seq<TokenV>, LexError>(tokens_view(tokens@)),
            decreases inp.len() - self.current,
        {
            let ghost before = self.current as int;
            self.skip_whitespace_and_comments();
            proof {
                lemma_skip_ws_bounds(inp, before, false);
                assert(tokenize_from(inp, before) == tokenize_from(inp, self.current as int)) by {
                    lemma_skip_ws_idempotent(inp, before);
                }
            }
            if self.is_at_end() {
                let eof = Token {
                    typ: TokenType::Eof,
                    lexeme: String::new(),
                    pos: self.current_position(),
                };
                proof {
                    lemma_skip_ws_at_end(inp, self.current as int);
                    assert(tokens_view(tokens@.push(eof)) =~= tokens_view(tokens@) + seq![eof@]);
                }
                tokens.push(eof);
                break ;
            }
            let ghost j = self.current as int;
            proof {
                lemma_skip_ws_fixed(inp, before, false);
                lemma_skip_ws_stops(inp, j);
                lemma_next_token_advances(inp, j);
            }
            match self.next_token() {
                Ok(t) => {
                    proof {
                        assert(tokens_view(tokens@.push(t)) =~= tokens_view(tokens@) + seq![t@]);
                        lemma_prepend_assoc(tokens_view(tokens@), seq![t@], tokenize_from(inp, self.current as int));
                    }
                    tokens.push(t);
                },
                Err(e) => {
                    return Err(e);
                },
            }
        }
        Ok(tokens)
    }

    fn next_token(&mut self) -> (r: Result<Token, LexError>)
        requires
            old(self).wf(),
            old(self).current < old(self).input@.len(),
        ensures
            final(self).wf(),
            final(self).input@ == old(self).input@,
            match r {
                Ok(t) => next_token_at(old(self).input@, old(self).current as int) == Ok::<
                    (TokenV, int),
                    LexError,
                >((t@, final(self).current as int)),
                Err(e) => next_token_at(old(self).input@, old(self).current as int) matches Err(
                    e2,
                ) && e == e2,
            },
    {
        let ch = match self.current_char() {
            Some(c) => c,
            None => {
                return Err(LexError::UnexpectedEof);
            },
        };
        let pos = self.current_position();
        let ghost inp = self.input@;
        let ghost i = self.current as int;
        if ch == '(' {
            self.advance();
            let t = Token { typ: TokenType::LParen, lexeme: string_of_char('('), pos };
            Ok(t)
        } else if ch == ')' {
            self.advance();
            let t = Token { typ: TokenType::RParen, lexeme: string_of_char(')'), pos };
            Ok(t)
        } else if ch == ':' {
            self.read_keyword()
        } else if ch == '"' {
            self.read_string()
        } else if is_digit(ch) || (ch == '-' && match self.peek() {
            Some(c) => is_digit(c),
            None => false,
        }) {
            self.read_number()
        } else if self.is_symbol_start(ch) {
            self.read_symbol()
        } else {
            Err(LexError::UnexpectedChar { ch, pos })
        }
    }

    /// Advances over symbol characters; returns where the run started.
    fn skip_symbol_chars(&mut self)
        requires
            old(self).wf(),
        ensures
            final(self).wf(),
            final(self).input@ == old(self).input@,
            final(self).current as int == symbol_end(old(self).input@, old(self).current as int),
    {
        let ghost inp = self.input@;
        let ghost start = self.current as int;
        loop
            invariant
                self.wf(),
                self.input@ == inp,
                start <= self.current,
                symbol_end(inp, start) == symbol_end(inp, self.current as int),
            ensures
                self.wf(),
                self.input@ == inp,
                symbol_end(inp, start) == self.current as int,
            decreases inp.len() - self.current,
        {
            match self.current_char() {
                Some(ch) => {
                    if self.is_symbol_char(ch) {
                        self.advance();
                    } else {
                        break ;
                    }
                },
                None => {
                    break ;
                },
            }
        }
    }

    fn read_keyword(&mut self) -> (r: Result<Token, LexError>)
        requires
            old(self).wf(),
            old(self).current < old(self).input@.len(),
            old(self).input@[old(self).current as int] == ':',
        ensures
            final(self).wf(),
            final(self).input@ == old(self).input@,
            r matches Ok(t) && next_token_at(old(self).input@, old(self).current as int) == Ok::<
                (TokenV, int),
                LexError,
            >((t@, final(self).current as int)),
    {
        let pos = self.current_position();
        self.advance();
        let start = self.current;
        self.skip_symbol_chars();
        proof {
            lemma_symbol_end_bounds(self.input@, start as int);
        }
        let v = chars_range(self.input.as_slice(), start, self.current);
        let lexeme = string_from_chars(v.as_slice());
        Ok(Token { typ: TokenType::Keyword, lexeme, pos })
    }

    fn read_string(&mut self) -> (r: Result<Token, LexError>)
        requires
            old(self).wf(),
            old(self).current < old(self).input@.len(),
            old(self).input@[old(self).current as int] == '"',
        ensures
            final(self).wf(),
            final(self).input@ == old(self).input@,
            match r {
                Ok(t) => next_token_at(old(self).input@, old(self).current as int) == Ok::<
                    (TokenV, int),
                    LexError,
                >((t@, final(self).current as int)),
                Err(e) => next_token_at(old(self).input@, old(self).current as int) matches Err(
                    e2,
                ) && e == e2,
            },
    {
        let pos = self.current_position();
        let ghost inp = self.input@;
        let ghost i0 = self.current as int;
        self.advance();
        let mut value: Vec<char> = Vec::new();
        loop
            invariant_except_break
                scan_string(inp, i0 + 1, Seq::empty(), pos) == scan_string(
                    inp,
                    self.current as int,
                    value@,
                    pos,
                ),
            invariant
                self.wf(),
                self.input@ == inp,
                i0 < self.current,
                pos == pos_at(inp, i0),
                inp == old(self).input@,
                i0 == old(self).current,
                inp[i0] == '"',
                i0 < inp.len(),
            ensures
                self.wf(),
                self.input@ == inp,
                scan_string(inp, i0 + 1, Seq::empty(), pos) == Ok::<(Seq<char>, int), LexError>((value@, self.current as int)),
            decreases inp.len() - self.current,
        {
            match self.current_char() {
                None => {
                    return Err(LexError::UnterminatedString { pos });
                },
                Some(c) => {
                    if c == '"' {
                        self.advance();
                        break ;
                    } else if c == '\\' {
                        self.advance();
                        match self.current_char() {
                            None => {
                                return Err(LexError::UnterminatedString { pos });
                            },
                            Some(e) => {
                                if e == 'n' {
                                    value.push('\n');
                                    self.advance();
                                } else if e == 't' {
                                    value.push('\t');
                                    self.advance();
                                } else if e == 'r' {
                                    value.push('\r');
                                    self.advance();
                                } else if e == '\\' {
                                    value.push('\\');
                                    self.advance();
                                } else if e == '"' {
                                    value.push('"');
                                    self.advance();
                                } else {
                                    return Err(
                                        LexError::InvalidEscape { ch: e, pos: self.current_position() },
                                    );
                                }
                            },
                        }
                    } else {
                        value.push(c);
                        self.advance();
                    }
                },
            }
        }
        let lexeme = string_from_chars(value.as_slice());
        Ok(Token { typ: TokenType::String, lexeme, pos })
    }

    fn read_number(&mut self) -> (r: Result<Token, LexError>)
        requires
            old(self).wf(),
            old(self).current < old(self).input@.len(),
            starts_number(old(self).input@, old(self).current as int),
            old(self).input@[old(self).current as int] != '(',
            old(self).input@[old(self).current as int] != ')',
            old(self).input@[old(self).current as int] != ':',
            old(self).input@[old(self).current as int] != '"',
        ensures
            final(self).wf(),
            final(self).input@ == old(self).input@,
            r matches Ok(t) && next_token_at(old(self).input@, old(self).current as int) == Ok::<
                (TokenV, int),
                LexError,
            >((t@, final(self).current as int)),
    {
        let pos = self.current_position();
        let start = self.current;
        let ghost inp = self.input@;
        if self.current_char() == Some('-') {
            self.advance();
        }
        let ghost from = self.current as int;
        loop
            invariant
                self.wf(),
                self.input@ == inp,
                from <= self.current,
                digits_end(inp, from) == digits_end(inp, self.current as int),
            ensures
                self.wf(),
                self.input@ == inp,
                from <= self.current,
                digits_end(inp, from) == self.current as int,
            decreases inp.len() - self.current,
        {
            match self.current_char() {
                Some(ch) => {
                    if is_digit(ch) {
                        self.advance();
                    } else {
                        break ;
                    }
                },
                None => {
                    break ;
                },
            }
        }
        let v = chars_range(self.input.as_slice(), start, self.current);
        let lexeme = string_from_chars(v.as_slice());
        Ok(Token { typ: TokenType::Number, lexeme, pos })
    }

    fn read_symbol(&mut self) -> (r: Result<Token, LexError>)
        requires
            old(self).wf(),
            old(self).current < old(self).input@.len(),
            is_symbol_start_char(old(self).input@[old(self).current as int]),
            !starts_number(old(self).input@, old(self).current as int),
            old(self).input@[old(self).current as int] != '(',
            old(self).input@[old(self).current as int] != ')',
            old(self).input@[old(self).current as int] != ':',
            old(self).input@[old(self).current as int] != '"',
        ensures
            final(self).wf(),
            final(self).input@ == old(self).input@,
            r matches Ok(t) && next_token_at(old(self).input@, old(self).current as int) == Ok::<
                (TokenV, int),
                LexError,
            >((t@, final(self).current as int)),
    {
        let pos = self.current_position();
        let start = self.current;
        self.advance();
        let ghost after_start = self.current as int;
        self.skip_symbol_chars();
        proof {
            lemma_symbol_end_bounds(self.input@, after_start);
        }
        let v = chars_range(self.input.as_slice(), start, self.current);
        let nil = chars_of("nil");
        proof {
            reveal_strlit("nil");
            assert(nil@ =~= seq!['n', 'i', 'l']);
        }
        let typ = if chars_equal(v.as_slice(), nil.as_slice()) {
            TokenType::Nil
        } else {
            TokenType::Symbol
        };
        let lexeme = string_from_chars(v.as_slice());
        Ok(Token { typ, lexeme, pos })
    }

    fn skip_whitespace_and_comments(&mut self)
        requires
            old(self).wf(),
        ensures
            final(self).wf(),
            final(self).input@ == old(self).input@,
            final(self).current as int == skip_ws(old(self).input@, old(self).current as int, false),
    {
        let ghost inp = self.input@;
        let ghost start = self.current as int;
        loop
            invariant
                self.wf(),
                self.input@ == inp,
                start <= self.current,
                skip_ws(inp, start, false) == skip_ws(inp, self.current as int, false),
            ensures
                self.wf(),
                self.input@ == inp,
                skip_ws(inp, start, false) == self.current as int,
            decreases inp.len() - self.current,
        {
            match self.current_char() {
                Some(ch) => {
                    if char_is_whitespace(ch) {
                        self.advance();
                    } else if ch == ';' {
                        self.advance();
                        self.skip_comment_rest();
                    } else {
                        break ;
                    }
                },
                None => {
                    break ;
                },
            }
        }
    }

    /// Advances through the end of the current comment line.
    fn skip_comment_rest(&mut self)
        requires
            old(self).wf(),
        ensures
            final(self).wf(),
            final(self).input@ == old(self).input@,
            old(self).current <= final(self).current,
            skip_ws(old(self).input@, old(self).current as int, true) == skip_ws(
                final(self).input@,
                final(self).current as int,
                false,
            ),
    {
        let ghost inp = self.input@;
        let ghost start = self.current as int;
        loop
            invariant
                self.wf(),
                self.input@ == inp,
                start <= self.current,
                skip_ws(inp, start, true) == skip_ws(inp, self.current as int, true),
                inp == old(self).input@,
                start == old(self).current,
            decreases inp.len() - self.current,
        {
            match self.current_char() {
                Some(ch) => {
                    self.advance();
                    if ch == '\n' {
                        return ;
                    }
                },
                None => {
                    return ;
                },
            }
        }
    }

    fn is_symbol_start(&self, ch: char) -> (b: bool)
        ensures
            b == is_symbol_start_char(ch),
    {
        char_is_alphabetic(ch) || ch == '_' || ch == '-' || ch == '+' || ch == '*' || ch == '/'
            || ch == '=' || ch == '<' || ch == '>' || ch == '!' || ch == '?' || ch == '&'
    }

    fn is_symbol_char(&self, ch: char) -> (b: bool)
        ensures
            b == is_symbol_char_spec(ch),
    {
        char_is_alphanumeric(ch) || ch == '_' || ch == '-' || ch == '+' || ch == '*' || ch == '/'
            || ch == '=' || ch == '<' || ch == '>' || ch == '!' || ch == '?' || ch == '&' || ch
            == '\''
    }

    fn current_char(&self) -> (c: Option<char>)
        ensures
            c == (if self.current < self.input@.len() {
                Some(self.input@[self.current as int])
            } else {
                None::<char>
            }),
    {
        if self.current < self.input.len() {
            Some(self.input[self.current])
        } else {
            None
        }
    }

    fn peek(&self) -> (c: Option<char>)
        requires
            self.wf(),
        ensures
            c == (if self.current + 1 < self.input@.len() {
                Some(self.input@[self.current + 1])
            } else {
                None::<char>
            }),
    {
        if self.current + 1 < self.input.len() {
            Some(self.input[self.current + 1])
        } else {
            None
        }
    }

    fn advance(&mut self)
        requires
            old(self).wf(),
        ensures
            final(self).wf(),
            final(self).input@ == old(self).input@,
            final(self).current == (if old(self).current < old(self).input@.len() {
                old(self).current + 1
            } else {
                old(self).current as int
            }),
    {
        if self.current < self.input.len() {
            let ch = self.input[self.current];
            proof {
                lemma_pos_bounds(self.input@, self.current as int);
                lemma_pos_bounds(self.input@, self.current + 1);
            }
            self.current += 1;
            self.offset += utf8_len_of(ch);
            if ch == '\n' {
                self.line += 1;
                self.column = 1;
            } else {
                self.column += 1;
            }
        }
    }

    fn is_at_end(&self) -> (b: bool)
        ensures
            b == (self.current >= self.input@.len()),
    {
        self.current >= self.input.len()
    }

    fn current_position(&self) -> (p: Position)
        requires
            self.wf(),
        ensures
            p == pos_at(self.input@, self.current as int),
    {
        Position::new(self.offset, self.line, self.column)
    }
}

pub open spec fn prepend(acc: Seq<TokenV>, r: Result<Seq<TokenV>, LexError>) -> Result<
    Seq<TokenV>,
    LexError,
> {
    match r {
        Ok(ts) => Ok(acc + ts),
        Err(e) => Err(e),
    }
}

proof fn lemma_prepend_assoc(a: Seq<TokenV>, b: Seq<TokenV>, r: Result<Seq<TokenV>, LexError>)
    ensures
        prepend(a, prepend(b, r)) == prepend(a + b, r),
{
    if let Ok(ts) = r {
        assert(a + (b + ts) =~= (a + b) + ts);
    }
}

proof fn lemma_skip_ws_idempotent(inp: Seq<char>, i: int)
    requires
        0 <= i <= inp.len(),
    ensures
        tokenize_from(inp, i) == tokenize_from(inp, skip_ws(inp, i, false)),
{
    lemma_skip_ws_bounds(inp, i, false);
    lemma_skip_ws_fixed(inp, i, false);
}

/// Skipping whitespace twice skips no more than once.
proof fn lemma_skip_ws_fixed(inp: Seq<char>, i: int, c: bool)
    requires
        0 <= i <= inp.len(),
    ensures
        skip_ws(inp, skip_ws(inp, i, c), false) == skip_ws(inp, i, c),
    decreases inp.len() - i,
{
    if i < inp.len() {
        if c {
            lemma_skip_ws_fixed(inp, i + 1, inp[i] != '\n');
        } else if is_whitespace(inp[i]) {
            lemma_skip_ws_fixed(inp, i + 1, false);
        } else if inp[i] == ';' {
            lemma_skip_ws_fixed(inp, i + 1, true);
        }
    }
}

proof fn lemma_skip_ws_at_end(inp: Seq<char>, i: int)
    requires
        0 <= i,
        i >= inp.len(),
    ensures
        skip_ws(inp, i, false) == i,
{
}

proof fn lemma_skip_ws_stops(inp: Seq<char>, i: int)
    requires
        0 <= i < inp.len(),
        skip_ws(inp, i, false) == i,
    ensures
        !is_whitespace(inp[i]),
        inp[i] != ';',
{
    lemma_skip_ws_bounds(inp, i + 1, false);
    lemma_skip_ws_bounds(inp, i + 1, true);
}

} // verus!
