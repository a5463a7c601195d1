use vstd::prelude::*;

use crate::errors::{LexerErrors, NilangError};
use crate::lexer::grammar::{
    after_blanks, blank_run, class_pred, digit_run, ident_run, is_digit, is_ident_start,
    number_step, token_step, CharClass, LexOutcome, LexStep,
};
use crate::lexer::tokenizer::{
    collect, lemma_run_len, lemma_run_unfold, lex_bounds, lex_number, outcome_of,
    scan, skip_blanks, spells, token_result,
};
use crate::text::chars_of;
use crate::types::nodes::expressions::{Arithmetic, Operator};
use crate::types::tokens::{Keyword, Token, TokenType, TokenTypeView};

verus! {

// The first token grammar of the language: numbers, words, arithmetic,
// brackets, `=`, `;` and `,`, with `fn`, `vr` and `rt` as its only reserved
// words.

/// The reserved word spelled by `text`, if any: `fn`, `vr` or `rt`.
pub open spec fn aggregated_keyword(text: Seq<char>) -> Option<Keyword> {
    if text == seq!['f', 'n'] {
        Some(Keyword::Function)
    } else if text == seq!['v', 'r'] {
        Some(Keyword::Variable)
    } else if text == seq!['r', 't'] {
        Some(Keyword::Return)
    } else {
        None
    }
}

/// The token of a word: a reserved word or an identifier.
pub open spec fn aggregated_word(text: Seq<char>) -> TokenTypeView {
    match aggregated_keyword(text) {
        Some(k) => TokenTypeView::Keyword(k),
        None => TokenTypeView::Identifier(text),
    }
}

/// The token of a character that is a token by itself.
pub open spec fn aggregated_single(c: char) -> Option<TokenTypeView> {
    if c == '+' {
        Some(TokenTypeView::Operator(Operator::Arithmetic(Arithmetic::Add)))
    } else if c == '-' {
        Some(TokenTypeView::Operator(Operator::Arithmetic(Arithmetic::Subtract)))
    } else if c == '*' {
        Some(TokenTypeView::Operator(Operator::Arithmetic(Arithmetic::Multiply)))
    } else if c == '/' {
        Some(TokenTypeView::Operator(Operator::Arithmetic(Arithmetic::Divide)))
    } else if c == '%' {
        Some(TokenTypeView::Operator(Operator::Arithmetic(Arithmetic::Modulo)))
    } else if c == '(' {
        Some(TokenTypeView::OpeningParenthesis)
    } else if c == ')' {
        Some(TokenTypeView::ClosingParenthesis)
    } else if c == '{' {
        Some(TokenTypeView::OpeningBrace)
    } else if c == '}' {
        Some(TokenTypeView::ClosingBrace)
    } else if c == '=' {
        Some(TokenTypeView::Equals)
    } else if c == ';' {
        Some(TokenTypeView::Semicolon)
    } else if c == ',' {
        Some(TokenTypeView::Comma)
    } else {
        None
    }
}

/// The token that starts at the first character of `s`, which is not a
/// blank. A dot and the digits after it are a number; a character that
/// starts no token is reported where it stands, and is not read.
pub open spec fn aggregated_token_at(s: Seq<char>, line: int, col: int) -> LexStep {
    let c = s[0];
    if c == '.' {
        let d = digit_run(s.drop_first()) as int;
        token_step(TokenTypeView::Literal(s.take(d + 1)), d + 1, line, col)
    } else if is_digit(c) {
        number_step(s, line, col)
    } else if is_ident_start(c) {
        let n = ident_run(s) as int;
        token_step(aggregated_word(s.take(n)), n, line, col)
    } else if aggregated_single(c) is Some {
        token_step(aggregated_single(c)->0, 1, line, col)
    } else {
        LexStep {
            outcome: LexOutcome::Fail(LexerErrors::UnexpectedCharacter(c), (line, col)),
            consumed: 0,
            loc: (line, col),
        }
    }
}

/// One step of the aggregating lexer on the unread characters `s` from
/// (`line`, `col`): the leading blanks are read, then the token after them.
pub open spec fn aggregated_step(s: Seq<char>, line: int, col: int) -> LexStep {
    let b = blank_run(s) as int;
    let (l, c) = after_blanks(s, line, col);
    if b == s.len() {
        LexStep { outcome: LexOutcome::Done, consumed: b, loc: (l, c) }
    } else {
        let st = aggregated_token_at(s.skip(b), l, c);
        LexStep { outcome: st.outcome, consumed: b + st.consumed, loc: st.loc }
    }
}

proof fn lemma_aggregated_token_bounds(s: Seq<char>, line: int, col: int)
    requires
        s.len() > 0,
    ensures
        0 <= aggregated_token_at(s, line, col).consumed <= s.len(),
        aggregated_token_at(s, line, col).loc.0 == line,
        col <= aggregated_token_at(s, line, col).loc.1 <= col + aggregated_token_at(s, line, col).consumed,
{
    lemma_run_len(s, class_pred(CharClass::Digit));
    lemma_run_len(s, class_pred(CharClass::IdentChar));
    lemma_run_len(s.drop_first(), class_pred(CharClass::Digit));
    let a = digit_run(s) as int;
    if a < s.len() {
        lemma_run_len(s.skip(a + 1), class_pred(CharClass::Digit));
    }
    if is_ident_start(s[0]) {
        assert(class_pred(CharClass::IdentChar)(s[0]));
    }
    if is_digit(s[0]) {
        assert(class_pred(CharClass::Digit)(s[0]));
    }
}

/// The token of the word from `from` to `to`.
fn aggregated_word_exec(chars: &Vec<char>, from: usize, to: usize) -> (t: TokenType)
    requires
        from <= to <= chars.len(),
    ensures
        t@ == aggregated_word(chars@.subrange(from as int, to as int)),
{
    if spells(chars, from, to, &vec!['f', 'n']) {
        TokenType::Keyword(Keyword::Function)
    } else if spells(chars, from, to, &vec!['v', 'r']) {
        TokenType::Keyword(Keyword::Variable)
    } else if spells(chars, from, to, &vec!['r', 't']) {
        TokenType::Keyword(Keyword::Return)
    } else {
        TokenType::Identifier(collect(chars, from, to))
    }
}

/// The token of a character that is a token by itself.
fn aggregated_single_exec(c: char) -> (r: Option<TokenType>)
    ensures
        match r {
            Some(t) => aggregated_single(c) == Some(t@),
            None => aggregated_single(c) is None,
        },
{
    if c == '+' {
        Some(TokenType::Operator(Operator::Arithmetic(Arithmetic::Add)))
    } else if c == '-' {
        Some(TokenType::Operator(Operator::Arithmetic(Arithmetic::Subtract)))
    } else if c == '*' {
        Some(TokenType::Operator(Operator::Arithmetic(Arithmetic::Multiply)))
    } else if c == '/' {
        Some(TokenType::Operator(Operator::Arithmetic(Arithmetic::Divide)))
    } else if c == '%' {
        Some(TokenType::Operator(Operator::Arithmetic(Arithmetic::Modulo)))
    } else if c == '(' {
        Some(TokenType::OpeningParenthesis)
    } else if c == ')' {
        Some(TokenType::ClosingParenthesis)
    } else if c == '{' {
        Some(TokenType::OpeningBrace)
    } else if c == '}' {
        Some(TokenType::ClosingBrace)
    } else if c == '=' {
        Some(TokenType::Equals)
    } else if c == ';' {
        Some(TokenType::Semicolon)
    } else if c == ',' {
        Some(TokenType::Comma)
    } else {
        None
    }
}

/// What the first lexer fails on: a character that starts no token, with
/// the (line, column) where it stands.
#[derive(Debug, Clone, Copy, PartialEq, Eq)]
pub enum AggregatedLexerError {
    UnexpectedCharacter { char: char, loc: (usize, usize) },
}

/// What a value yielded by the first lexer stands for.
pub open spec fn aggregated_outcome(r: Option<Result<Token, AggregatedLexerError>>) -> LexOutcome {
    match r {
        None => LexOutcome::Done,
        Some(Ok(t)) => LexOutcome::Token(
            t.token@,
            (t.start.0 as int, t.start.1 as int),
            (t.end.0 as int, t.end.1 as int),
        ),
        Some(Err(AggregatedLexerError::UnexpectedCharacter { char, loc })) => LexOutcome::Fail(
            LexerErrors::UnexpectedCharacter(char),
            (loc.0 as int, loc.1 as int),
        ),
    }
}

/// The result of one step of the first lexer started at `pos` is the one
/// `st` describes.
pub open spec fn aggregated_matches(
    r: (Option<Result<Token, AggregatedLexerError>>, usize, usize, usize),
    pos: int,
    st: LexStep,
) -> bool {
    &&& aggregated_outcome(r.0) == st.outcome
    &&& r.1 == pos + st.consumed
    &&& r.2 == st.loc.0
    &&& r.3 == st.loc.1
}

/// A step that yields a token, with the error type of the first lexer.
fn token_only(r: (Option<Result<Token, NilangError>>, usize, usize, usize)) -> (o: (
    Option<Result<Token, AggregatedLexerError>>,
    usize,
    usize,
    usize,
))
    requires
        r.0 matches Some(Ok(_)),
    ensures
        aggregated_outcome(o.0) == outcome_of(r.0),
        o.1 == r.1,
        o.2 == r.2,
        o.3 == r.3,
{
    match r.0 {
        Some(Ok(t)) => (Some(Ok(t)), r.1, r.2, r.3),
        _ => (None, r.1, r.2, r.3),
    }
}

/// The token that starts at `pos`, where the character is not a blank.
fn aggregated_token_exec(chars: &Vec<char>, pos: usize, line: usize, col: usize) -> (r: (
    Option<Result<Token, AggregatedLexerError>>,
    usize,
    usize,
    usize,
))
    requires
        pos < chars.len(),
        lex_bounds(chars.len() as int, pos as int, line as int, col as int),
    ensures
        aggregated_matches(r, pos as int, aggregated_token_at(chars@.skip(pos as int), line as int, col as int)),
{
    let ghost s = chars@.skip(pos as int);
    let c = chars[pos];
    if c == '.' {
        let d_end = scan(chars, pos + 1, CharClass::Digit);
        assert(s.drop_first() =~= chars@.skip(pos + 1));
        let text = collect(chars, pos, d_end);
        assert(s.take(d_end - pos) =~= chars@.subrange(pos as int, d_end as int));
        token_only(token_result(TokenType::Literal(text), d_end - pos, pos, line, col))
    } else if '0' <= c && c <= '9' {
        token_only(lex_number(chars, pos, line, col))
    } else if c == '_' || ('a' <= c && c <= 'z') || ('A' <= c && c <= 'Z') {
        let n_end = scan(chars, pos, CharClass::IdentChar);
        proof {
            lemma_run_unfold(chars@, pos as int, CharClass::IdentChar);
        }
        let t = aggregated_word_exec(chars, pos, n_end);
        assert(s.take(n_end - pos) =~= chars@.subrange(pos as int, n_end as int));
        token_only(token_result(t, n_end - pos, pos, line, col))
    } else if let Some(t) = aggregated_single_exec(c) {
        token_only(token_result(t, 1, pos, line, col))
    } else {
        (Some(Err(AggregatedLexerError::UnexpectedCharacter { char: c, loc: (line, col) })), pos, line, col)
    }
}

/// Reads the tokens of a program one at a time, in the first grammar of the
/// language.
pub struct AggregatedIterator {
    chars: Vec<char>,
    pos: usize,
    loc: (usize, usize),
}

impl AggregatedIterator {
    #[verifier::type_invariant]
    spec fn wf(self) -> bool {
        lex_bounds(self.chars.len() as int, self.pos as int, self.loc.0 as int, self.loc.1 as int)
    }

    /// The characters that are still to be read.
    pub closed spec fn remaining(&self) -> Seq<char> {
        self.chars@.skip(self.pos as int)
    }

    /// The (line, column) of the next character to be read.
    pub closed spec fn location(&self) -> (int, int) {
        (self.loc.0 as int, self.loc.1 as int)
    }

    /// An iterator at the start of `iter`.
    pub fn new(iter: &str) -> (t: AggregatedIterator)
        requires
            iter@.len() <= usize::MAX / 8,
        ensures
            t.remaining() == iter@,
            t.location() == (0int, 0int),
    {
        let chars = chars_of(iter);
        assert(chars@.skip(0) =~= chars@);
        AggregatedIterator { chars, pos: 0, loc: (0, 0) }
    }

    /// The next token, or the character that starts none with where it
    /// stands, or `None` once only blanks are left.
    pub fn next(&mut self) -> (r: Option<Result<Token, AggregatedLexerError>>)
        ensures
            ({
                let st = aggregated_step(
                    old(self).remaining(),
                    old(self).location().0,
                    old(self).location().1,
                );
                &&& aggregated_outcome(r) == st.outcome
                &&& final(self).remaining() == old(self).remaining().skip(st.consumed)
                &&& final(self).location() == st.loc
            }),
    {
        proof {
            use_type_invariant(&*self);
        }
        let ghost old_pos = self.pos;
        let (i, l, c) = skip_blanks(&self.chars, self.pos, self.loc.0, self.loc.1);
        let (r, pos, line, col) = if i == self.chars.len() {
            (None, i, l, c)
        } else {
            proof {
                lemma_aggregated_token_bounds(self.chars@.skip(i as int), l as int, c as int);
            }
            aggregated_token_exec(&self.chars, i, l, c)
        };
        assert(self.chars@.skip(pos as int) =~= self.chars@.skip(old_pos as int).skip(
            pos - old_pos,
        ));
        self.pos = pos;
        self.loc = (line, col);
        r
    }
}

/// A step that yields a token reads at least one character and never more
/// than is left.
pub proof fn lemma_aggregated_token_reads_input(s: Seq<char>, line: int, col: int)
    ensures
        aggregated_step(s, line, col).outcome is Token ==> aggregated_step(s, line, col).consumed >= 1,
        0 <= aggregated_step(s, line, col).consumed <= s.len(),
{
    lemma_run_len(s, class_pred(CharClass::Blank));
    let b = blank_run(s) as int;
    if b < s.len() {
        let (l, c) = after_blanks(s, line, col);
        let u = s.skip(b);
        lemma_aggregated_token_bounds(u, l, c);
        if is_ident_start(u[0]) {
            assert(class_pred(CharClass::IdentChar)(u[0]));
        }
        if is_digit(u[0]) {
            assert(class_pred(CharClass::Digit)(u[0]));
        }
    }
}

/// A character that starts no token is not read: the next step reports it
/// again, at the same place.
pub proof fn lemma_aggregated_error_repeats(s: Seq<char>, line: int, col: int)
    requires
        aggregated_step(s, line, col).outcome is Fail,
    ensures
        ({
            let st = aggregated_step(s, line, col);
            let next = aggregated_step(s.skip(st.consumed), st.loc.0, st.loc.1);
            &&& next.outcome == st.outcome
            &&& next.consumed == 0
            &&& next.loc == st.loc
        }),
{
    let b = blank_run(s) as int;
    lemma_run_len(s, class_pred(CharClass::Blank));
    let u = s.skip(b);
    let (l, c) = after_blanks(s, line, col);
    lemma_blank_run_stops(s);
    assert(!class_pred(CharClass::Blank)(u[0]));
    assert(blank_run(u) == 0);
    assert(after_blanks(u, l, c) == (l, c));
    assert(u.skip(0) =~= u);
}

proof fn lemma_blank_run_stops(s: Seq<char>)
    ensures
        blank_run(s) < s.len() ==> !class_pred(CharClass::Blank)(s[blank_run(s) as int]),
    decreases s.len(),
{
    if s.len() > 0 && class_pred(CharClass::Blank)(s[0]) {
        lemma_blank_run_stops(s.drop_first());
        assert(blank_run(s) == 1 + blank_run(s.drop_first()));
    }
}

} // verus!
