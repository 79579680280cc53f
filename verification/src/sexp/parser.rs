//! Parser from tokens to S-expressions.

use vstd::prelude::*;
use crate::error::{ParseError, ParseErrorV, Position};
use crate::sexp::lexer::{tokenize_spec, tokens_view, Lexer, Token, TokenType, TokenV};
use crate::sexp::types::{
    seq_view, sexp_view, Keyword, List, Nil, Number, SExp, SExpV, StringLit, Symbol,
};

verus! {

// ---------------------------------------------------------------------------
// The grammar over tokens
// ---------------------------------------------------------------------------

/// The expression that starts at token `i`, and the index of the token after it.
pub open spec fn parse_expr_at(toks: Seq<TokenV>, i: int) -> Result<(SExpV, int), ParseErrorV>
    decreases toks.len() - i, 0int,
{
    if i < 0 || i >= toks.len() {
        Err(ParseErrorV::EmptyInput)
    } else {
        let t = toks[i];
        match t.typ {
            TokenType::LParen => match parse_list_at(toks, i + 1, t.pos) {
                Ok((es, j)) => Ok((SExpV::List(es, t.pos), j)),
                Err(e) => Err(e),
            },
            TokenType::RParen => Err(ParseErrorV::UnexpectedCloseParen { pos: t.pos }),
            TokenType::Symbol => Ok((SExpV::Symbol(t.lexeme, t.pos), i + 1)),
            TokenType::Keyword => Ok((SExpV::Keyword(t.lexeme, t.pos), i + 1)),
            TokenType::String => Ok((SExpV::Str(t.lexeme, t.pos), i + 1)),
            TokenType::Number => Ok((SExpV::Number(t.lexeme, t.pos), i + 1)),
            TokenType::Nil => Ok((SExpV::Nil(t.pos), i + 1)),
            TokenType::Eof => Err(ParseErrorV::EmptyInput),
        }
    }
}

/// The elements of a list whose opening parenthesis (at `open`) precedes token `i`, and
/// the index of the token after the closing parenthesis.
pub open spec fn parse_list_at(toks: Seq<TokenV>, i: int, open: Position) -> Result<
    (Seq<SExpV>, int),
    ParseErrorV,
>
    decreases toks.len() - i, 1int,
{
    if i < 0 || i >= toks.len() || toks[i].typ == TokenType::Eof {
        Err(ParseErrorV::UnterminatedList { pos: open })
    } else if toks[i].typ == TokenType::RParen {
        Ok((Seq::empty(), i + 1))
    } else {
        match parse_expr_at(toks, i) {
            // an element always takes at least one token (`lemma_parse_expr_advances`)
            Ok((e, j)) => if i < j <= toks.len() {
                match parse_list_at(toks, j, open) {
                    Ok((es, k)) => Ok((seq![e] + es, k)),
                    Err(err) => Err(err),
                }
            } else {
                Err(ParseErrorV::UnterminatedList { pos: open })
            },
            Err(err) => Err(err),
        }
    }
}

pub proof fn lemma_parse_expr_advances(toks: Seq<TokenV>, i: int)
    ensures
        parse_expr_at(toks, i) matches Ok((_, j)) ==> i < j <= toks.len(),
    decreases toks.len() - i, 0int,
{
    if 0 <= i < toks.len() && toks[i].typ == TokenType::LParen {
        lemma_parse_list_advances(toks, i + 1, toks[i].pos);
    }
}

pub proof fn lemma_parse_list_advances(toks: Seq<TokenV>, i: int, open: Position)
    ensures
        parse_list_at(toks, i, open) matches Ok((_, j)) ==> i < j <= toks.len(),
    decreases toks.len() - i, 1int,
{
    if !(i < 0 || i >= toks.len() || toks[i].typ == TokenType::Eof) && toks[i].typ
        != TokenType::RParen {
        lemma_parse_expr_advances(toks, i);
        if let Ok((_, j)) = parse_expr_at(toks, i) {
            lemma_parse_list_advances(toks, j, open);
        }
    }
}

/// The first expression in a token sequence.
pub open spec fn parse_tokens_spec(toks: Seq<TokenV>) -> Result<SExpV, ParseErrorV> {
    if toks.len() == 0 || toks[0].typ == TokenType::Eof {
        Err(ParseErrorV::EmptyInput)
    } else {
        match parse_expr_at(toks, 0) {
            Ok((e, _)) => Ok(e),
            Err(err) => Err(err),
        }
    }
}

/// The first expression in a text.
pub open spec fn parse_str_spec(inp: Seq<char>) -> Result<SExpV, ParseErrorV> {
    match tokenize_spec(inp) {
        Ok(ts) => parse_tokens_spec(ts),
        Err(le) => Err(ParseErrorV::LexError(le)),
    }
}

pub open spec fn result_view(r: Result<SExp, ParseError>) -> Result<SExpV, ParseErrorV> {
    match r {
        Ok(e) => Ok(e@),
        Err(err) => Err(err@),
    }
}

pub proof fn lemma_seq_view_len(s: Seq<SExp>)
    ensures
        seq_view(s).len() == s.len(),
    decreases s.len(),
{
    if s.len() > 0 {
        lemma_seq_view_len(s.subrange(1, s.len() as int));
    }
}

pub proof fn lemma_seq_view_push(s: Seq<SExp>, e: SExp)
    ensures
        seq_view(s.push(e)) == seq_view(s).push(sexp_view(e)),
    decreases s.len(),
{
    if s.len() == 0 {
        let p = s.push(e);
        assert(p[0] == e);
        assert(p.subrange(1, 1) =~= Seq::<SExp>::empty());
        assert(seq_view(p.subrange(1, 1)) =~= Seq::<SExpV>::empty());
        assert(seq_view(p) =~= seq![sexp_view(e)]);
        assert(seq_view(s) =~= Seq::<SExpV>::empty());
    } else {
        let t = s.subrange(1, s.len() as int);
        assert(s.push(e).subrange(1, s.len() as int + 1) =~= t.push(e));
        lemma_seq_view_push(t, e);
        assert(seq_view(s.push(e)) =~= seq_view(s).push(sexp_view(e)));
    }
}

// ---------------------------------------------------------------------------
// The parser
// ---------------------------------------------------------------------------

pub struct Parser {
    tokens: Vec<Token>,
    current: usize,
}

impl Parser {
    /// The tokens being parsed.
    pub closed spec fn token_seq(&self) -> Seq<TokenV> {
        tokens_view(self.tokens@)
    }

    pub closed spec fn cursor(&self) -> int {
        self.current as int
    }

    pub fn new(tokens: Vec<Token>) -> (p: Self)
        ensures
            p.token_seq() == tokens_view(tokens@),
            p.cursor() == 0,
    {
        Self { tokens, current: 0 }
    }

    /// Parses the first S-expression of `input`; what follows it is ignored.
    pub fn parse_str(input: &str) -> (r: Result<SExp, ParseError>)
        ensures
            result_view(r) == parse_str_spec(input@),
    {
        let mut lexer = Lexer::new(input);
        let tokens = match lexer.tokenize() {
            Ok(ts) => ts,
            Err(e) => {
                return Err(ParseError::LexError(e));
            },
        };
        let mut parser = Parser::new(tokens);
        parser.parse()
    }

    /// Parses one S-expression from the start of the tokens.
    pub fn parse(&mut self) -> (r: Result<SExp, ParseError>)
        requires
            old(self).cursor() == 0,
        ensures
            result_view(r) == parse_tokens_spec(old(self).token_seq()),
    {
        if self.tokens.len() == 0 || self.tokens[0].typ == TokenType::Eof {
            return Err(ParseError::EmptyInput);
        }
        match self.parse_expr() {
            Ok(e) => Ok(e),
            Err(err) => Err(err),
        }
    }

    fn parse_expr(&mut self) -> (r: Result<SExp, ParseError>)
        ensures
            final(self).tokens@ == old(self).tokens@,
            match r {
                Ok(e) => parse_expr_at(tokens_view(old(self).tokens@), old(self).current as int)
                    == Ok::<(SExpV, int), ParseErrorV>((e@, final(self).current as int)),
                Err(err) => parse_expr_at(tokens_view(old(self).tokens@), old(self).current as int)
                    == Err::<(SExpV, int), ParseErrorV>(err@),
            },
        decreases old(self).tokens@.len() - old(self).current, 0int,
    {
        let ghost toks = tokens_view(self.tokens@);
        if self.current >= self.tokens.len() {
            return Err(ParseError::EmptyInput);
        }
        let i = self.current;
        let typ = self.tokens[i].typ;
        let pos = self.tokens[i].pos;
        assert(toks[i as int] == self.tokens@[i as int]@);
        match typ {
            TokenType::LParen => {
                self.current = i + 1;
                match self.parse_list(pos) {
                    Ok(elements) => {
                        let l = List { elements, pos };
                        Ok(SExp::List(l))
                    },
                    Err(err) => Err(err),
                }
            },
            TokenType::RParen => Err(ParseError::UnexpectedCloseParen { pos }),
            TokenType::Symbol => {
                let value = self.tokens[i].lexeme.clone();
                self.current = i + 1;
                Ok(SExp::Symbol(Symbol { value, pos }))
            },
            TokenType::Keyword => {
                let name = self.tokens[i].lexeme.clone();
                self.current = i + 1;
                Ok(SExp::Keyword(Keyword { name, pos }))
            },
            TokenType::String => {
                let value = self.tokens[i].lexeme.clone();
                self.current = i + 1;
                Ok(SExp::String(StringLit { value, pos }))
            },
            TokenType::Number => {
                let value = self.tokens[i].lexeme.clone();
                self.current = i + 1;
                Ok(SExp::Number(Number { value, pos }))
            },
            TokenType::Nil => {
                self.current = i + 1;
                Ok(SExp::Nil(Nil { pos }))
            },
            TokenType::Eof => Err(ParseError::EmptyInput),
        }
    }

    /// Parses list elements up to and including the closing parenthesis.
    fn parse_list(&mut self, open: Position) -> (r: Result<Vec<SExp>, ParseError>)
        ensures
            final(self).tokens@ == old(self).tokens@,
            match r {
                Ok(es) => parse_list_at(
                    tokens_view(old(self).tokens@),
                    old(self).current as int,
                    open,
                ) == Ok::<(Seq<SExpV>, int), ParseErrorV>(
                    (seq_view(es@), final(self).current as int),
                ),
                Err(err) => parse_list_at(
                    tokens_view(old(self).tokens@),
                    old(self).current as int,
                    open,
                ) == Err::<(Seq<SExpV>, int), ParseErrorV>(err@),
            },
        decreases old(self).tokens@.len() - old(self).current, 1int,
    {
        let ghost toks = tokens_view(self.tokens@);
        let ghost start = self.current as int;
        let mut elements: Vec<SExp> = Vec::new();
        loop
            invariant_except_break
                match parse_list_at(toks, self.current as int, open) {
                    Ok((es, k)) => parse_list_at(toks, start, open) == Ok::<
                        (Seq<SExpV>, int),
                        ParseErrorV,
                    >((seq_view(elements@) + es, k)),
                    Err(err) => parse_list_at(toks, start, open) == Err::<
                        (Seq<SExpV>, int),
                        ParseErrorV,
                    >(err),
                },
            invariant
                toks == tokens_view(self.tokens@),
                self.tokens@ == old(self).tokens@,
                start == old(self).current,
                start <= self.current,
            ensures
                parse_list_at(toks, start, open) == Ok::<(Seq<SExpV>, int), ParseErrorV>(
                    (seq_view(elements@), self.current as int),
                ),
            decreases toks.len() - self.current,
        {
            let i = self.current;
            if i >= self.tokens.len() || self.tokens[i].typ == TokenType::Eof {
                return Err(ParseError::UnterminatedList { pos: open });
            }
            assert(toks[i as int] == self.tokens@[i as int]@);
            if self.tokens[i].typ == TokenType::RParen {
                self.current = i + 1;
                proof {
                    assert(seq_view(elements@) + Seq::<SExpV>::empty() =~= seq_view(elements@));
                }
                break ;
            }
            proof {
                lemma_parse_expr_advances(toks, i as int);
            }
            match self.parse_expr() {
                Ok(e) => {
                    proof {
                        lemma_seq_view_push(elements@, e);
                        if let Ok((es, k)) = parse_list_at(toks, self.current as int, open) {
                            assert(seq_view(elements@.push(e)) + es =~= seq_view(elements@) + (
                            seq![e@] + es));
                        }
                    }
                    elements.push(e);
                },
                Err(err) => {
                    return Err(err);
                },
            }
        }
        Ok(elements)
    }
}

} // verus!
