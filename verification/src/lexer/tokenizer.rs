use vstd::prelude::*;

use crate::errors::{CodeLocation, LexerErrors, NilangError, NilangErrorKind};
use crate::lexer::grammar::{
    after_blanks, blank_run, char_step, class_pred, comparison_tokens, digit_run, dot_step,
    ident_run, is_blank, is_digit, is_ident_char, is_ident_start, keyword_of, keyword_text, lex_step, number_step,
    run, single_char_token,
    spelled, string_step, token_at, token_step, token_text, word_step, word_token, CharClass,
    LexOutcome, LexStep,
};
use crate::text::{chars_of, push_char};
use crate::types::nodes::expressions::{Arithmetic, Boolean, Operator};
use crate::types::tokens::{Keyword, Token, TokenType, TokenTypeView};

verus! {

/// What a value yielded by the lexer stands for.
pub open spec fn outcome_of(r: Option<Result<Token, NilangError>>) -> LexOutcome {
    match r {
        None => LexOutcome::Done,
        Some(Ok(t)) => LexOutcome::Token(
            t.token@,
            (t.start.0 as int, t.start.1 as int),
            (t.end.0 as int, t.end.1 as int),
        ),
        Some(Err(e)) => match e.error {
            NilangErrorKind::LexerError(le) => if e.location.0 == e.location.2 && e.location.1
                == e.location.3 {
                LexOutcome::Fail(le, (e.location.0 as int, e.location.1 as int))
            } else {
                LexOutcome::Foreign
            },
            NilangErrorKind::ParserError(_) => LexOutcome::Foreign,
        },
    }
}

/// The result of one lexer step started at `pos` is the one `st` describes.
pub open spec fn step_matches(
    r: (Option<Result<Token, NilangError>>, usize, usize, usize),
    pos: int,
    st: LexStep,
) -> bool {
    &&& outcome_of(r.0) == st.outcome
    &&& r.1 == pos + st.consumed
    &&& r.2 == st.loc.0
    &&& r.3 == st.loc.1
}

/// The bounds under which the lexer's counters cannot overflow.
pub open spec fn lex_bounds(len: int, pos: int, line: int, col: int) -> bool {
    &&& pos <= len
    &&& len <= usize::MAX / 8
    &&& line <= pos
    &&& col <= 4 * pos
}

pub(crate) proof fn lemma_run_unfold(s: Seq<char>, i: int, k: CharClass)
    requires
        0 <= i < s.len(),
        class_pred(k)(s[i]),
    ensures
        run(s.skip(i), class_pred(k)) == 1 + run(s.skip(i + 1), class_pred(k)),
{
    assert(s.skip(i).drop_first() =~= s.skip(i + 1));
}

pub(crate) proof fn lemma_run_stop(s: Seq<char>, i: int, k: CharClass)
    requires
        0 <= i <= s.len(),
        i < s.len() ==> !class_pred(k)(s[i]),
    ensures
        run(s.skip(i), class_pred(k)) == 0,
{
}

pub(crate) proof fn lemma_run_len(s: Seq<char>, p: spec_fn(char) -> bool)
    ensures
        run(s, p) <= s.len(),
    decreases s.len(),
{
    if s.len() > 0 && p(s[0]) {
        lemma_run_len(s.drop_first(), p);
    }
}

/// A token step reads at most what is left and moves along the current line
/// by at most one column per character read.
proof fn lemma_token_at_bounds(s: Seq<char>, line: int, col: int)
    requires
        s.len() > 0,
    ensures
        0 <= token_at(s, line, col).consumed <= s.len(),
        token_at(s, line, col).loc.0 == line,
        col <= token_at(s, line, col).loc.1 <= col + token_at(s, line, col).consumed,
{
    lemma_run_len(s, class_pred(CharClass::Digit));
    lemma_run_len(s, class_pred(CharClass::IdentChar));
    lemma_run_len(s.drop_first(), class_pred(CharClass::Digit));
    lemma_run_len(s.drop_first(), class_pred(CharClass::NotQuote));
    let a = digit_run(s) as int;
    if a < s.len() {
        lemma_run_len(s.skip(a + 1), class_pred(CharClass::Digit));
    }
    if is_ident_start(s[0]) {
        assert(class_pred(CharClass::IdentChar)(s[0]));
    }
}

fn in_class(k: &CharClass, c: char) -> (b: bool)
    ensures
        b == class_pred(*k)(c),
{
    match k {
        CharClass::Digit => '0' <= c && c <= '9',
        CharClass::IdentChar => c == '_' || ('a' <= c && c <= 'z') || ('A' <= c && c <= 'Z') || (
        '0' <= c && c <= '9'),
        CharClass::Blank => c == ' ' || c == '\n' || c == '\t',
        CharClass::NotQuote => c != '"',
    }
}

/// The end of the run of characters of class `k` that starts at `from`.
pub(crate) fn scan(chars: &Vec<char>, from: usize, k: CharClass) -> (end: usize)
    requires
        from <= chars.len(),
    ensures
        from <= end <= chars.len(),
        end - from == run(chars@.skip(from as int), class_pred(k)),
{
    let mut i = from;
    while i < chars.len() && in_class(&k, chars[i])
        invariant
            from <= i <= chars.len(),
            run(chars@.skip(from as int), class_pred(k)) == (i - from) + run(
                chars@.skip(i as int),
                class_pred(k),
            ),
        decreases chars.len() - i,
    {
        proof {
            lemma_run_unfold(chars@, i as int, k);
        }
        i = i + 1;
    }
    proof {
        lemma_run_stop(chars@, i as int, k);
    }
    i
}

/// The characters from `from` to `to` as a string.
pub(crate) fn collect(chars: &Vec<char>, from: usize, to: usize) -> (r: String)
    requires
        from <= to <= chars.len(),
    ensures
        r@ == chars@.subrange(from as int, to as int),
{
    let mut r = String::new();
    let mut i = from;
    while i < to
        invariant
            from <= i <= to <= chars.len(),
            r@ == chars@.subrange(from as int, i as int),
        decreases to - i,
    {
        push_char(&mut r, chars[i]);
        assert(r@ =~= chars@.subrange(from as int, i + 1));
        i = i + 1;
    }
    r
}

pub(crate) fn token_result(
    t: TokenType,
    len: usize,
    pos: usize,
    line: usize,
    col: usize,
) -> (r: (Option<Result<Token, NilangError>>, usize, usize, usize))
    requires
        len >= 1,
        pos + len <= usize::MAX,
        col + len <= usize::MAX,
    ensures
        step_matches(r, pos as int, token_step(t@, len as int, line as int, col as int)),
{
    let tok = Token { token: t, start: (line, col), end: (line, col + len - 1) };
    (Some(Ok(tok)), pos + len, line, col + len)
}

pub(crate) fn error_result(
    e: LexerErrors,
    consumed: usize,
    pos: usize,
    line: usize,
    col: usize,
) -> (r: (Option<Result<Token, NilangError>>, usize, usize, usize))
    requires
        pos + consumed <= usize::MAX,
    ensures
        step_matches(
            r,
            pos as int,
            LexStep {
                outcome: LexOutcome::Fail(e, (line as int, col as int)),
                consumed: consumed as int,
                loc: (line as int, col as int),
            },
        ),
{
    let err = NilangError { location: CodeLocation::at(line, col), error: e.into_kind() };
    (Some(Err(err)), pos + consumed, line, col)
}

/// Whether the characters from `from` to `to` spell `word`.
pub(crate) fn spells(chars: &Vec<char>, from: usize, to: usize, word: &Vec<char>) -> (b: bool)
    requires
        from <= to <= chars.len(),
    ensures
        b == (chars@.subrange(from as int, to as int) == word@),
{
    if to - from != word.len() {
        return false;
    }
    let mut i: usize = 0;
    while i < word.len()
        invariant
            from <= to <= chars.len(),
            to - from == word.len(),
            0 <= i <= word.len(),
            forall|j: int| 0 <= j < i ==> chars@[from + j] == word@[j],
        decreases word.len() - i,
    {
        if chars[from + i] != word[i] {
            assert(chars@.subrange(from as int, to as int)[i as int] != word@[i as int]);
            return false;
        }
        i = i + 1;
    }
    assert(chars@.subrange(from as int, to as int) =~= word@);
    true
}

/// The token of the word from `from` to `to`.
fn word_token_exec(chars: &Vec<char>, from: usize, to: usize) -> (t: TokenType)
    requires
        from <= to <= chars.len(),
    ensures
        t@ == word_token(chars@.subrange(from as int, to as int)),
{
    let ghost text = chars@.subrange(from as int, to as int);
    let kw = if spells(chars, from, to, &vec!['f', 'n']) {
        Some(Keyword::Function)
    } else if spells(chars, from, to, &vec!['v', 'r']) {
        Some(Keyword::Variable)
    } else if spells(chars, from, to, &vec!['r', 't']) {
        Some(Keyword::Return)
    } else if spells(chars, from, to, &vec!['s', 't']) {
        Some(Keyword::Structure)
    } else if spells(chars, from, to, &vec!['i', 'f']) {
        Some(Keyword::If)
    } else if spells(chars, from, to, &vec!['e', 'f']) {
        Some(Keyword::ElseIf)
    } else if spells(chars, from, to, &vec!['e', 'l']) {
        Some(Keyword::Else)
    } else if spells(chars, from, to, &vec!['w', 'l']) {
        Some(Keyword::While)
    } else {
        None
    };
    assert(kw == keyword_of(text));
    match kw {
        Some(k) => TokenType::Keyword(k),
        None => {
            if spells(chars, from, to, &vec!['t', 'r', 'u', 'e']) || spells(
                chars,
                from,
                to,
                &vec!['f', 'a', 'l', 's', 'e'],
            ) {
                TokenType::Literal(collect(chars, from, to))
            } else {
                TokenType::Identifier(collect(chars, from, to))
            }
        },
    }
}


pub(crate) fn lex_number(chars: &Vec<char>, pos: usize, line: usize, col: usize) -> (r: (
    Option<Result<Token, NilangError>>,
    usize,
    usize,
    usize,
))
    requires
        pos < chars.len(),
        is_digit(chars@[pos as int]),
        lex_bounds(chars.len() as int, pos as int, line as int, col as int),
    ensures
        step_matches(r, pos as int, number_step(chars@.skip(pos as int), line as int, col as int)),
{
    let ghost s = chars@.skip(pos as int);
    let a_end = scan(chars, pos, CharClass::Digit);
    if a_end < chars.len() && chars[a_end] == '.' {
        let b_end = scan(chars, a_end + 1, CharClass::Digit);
        assert(s.skip((a_end - pos) + 1) =~= chars@.skip(a_end + 1));
        let len = b_end - pos;
        let text = collect(chars, pos, b_end);
        assert(s.take(len as int) =~= chars@.subrange(pos as int, b_end as int));
        if b_end < chars.len() && chars[b_end] == '.' {
            let tok = Token {
                token: TokenType::Literal(text),
                start: (line, col),
                end: (line, col + len - 1),
            };
            (Some(Ok(tok)), pos + len, line, col + len - 1)
        } else {
            token_result(TokenType::Literal(text), len, pos, line, col)
        }
    } else {
        let len = a_end - pos;
        let text = collect(chars, pos, a_end);
        assert(s.take(len as int) =~= chars@.subrange(pos as int, a_end as int));
        token_result(TokenType::Literal(text), len, pos, line, col)
    }
}

fn lex_dot(chars: &Vec<char>, pos: usize, line: usize, col: usize) -> (r: (
    Option<Result<Token, NilangError>>,
    usize,
    usize,
    usize,
))
    requires
        pos < chars.len(),
        chars@[pos as int] == '.',
        lex_bounds(chars.len() as int, pos as int, line as int, col as int),
    ensures
        step_matches(r, pos as int, dot_step(chars@.skip(pos as int), line as int, col as int)),
{
    let ghost s = chars@.skip(pos as int);
    let d_end = scan(chars, pos + 1, CharClass::Digit);
    assert(s.drop_first() =~= chars@.skip(pos + 1));
    if d_end > pos + 1 {
        let text = collect(chars, pos, d_end);
        assert(s.take(d_end - pos) =~= chars@.subrange(pos as int, d_end as int));
        token_result(TokenType::Literal(text), d_end - pos, pos, line, col)
    } else {
        token_result(TokenType::Dot, 1, pos, line, col)
    }
}

fn lex_word(chars: &Vec<char>, pos: usize, line: usize, col: usize) -> (r: (
    Option<Result<Token, NilangError>>,
    usize,
    usize,
    usize,
))
    requires
        pos < chars.len(),
        is_ident_start(chars@[pos as int]),
        lex_bounds(chars.len() as int, pos as int, line as int, col as int),
    ensures
        step_matches(r, pos as int, word_step(chars@.skip(pos as int), line as int, col as int)),
{
    let ghost s = chars@.skip(pos as int);
    let n_end = scan(chars, pos, CharClass::IdentChar);
    proof {
        lemma_run_unfold(chars@, pos as int, CharClass::IdentChar);
    }
    let t = word_token_exec(chars, pos, n_end);
    assert(s.take(n_end - pos) =~= chars@.subrange(pos as int, n_end as int));
    token_result(t, n_end - pos, pos, line, col)
}

fn lex_string(chars: &Vec<char>, pos: usize, line: usize, col: usize) -> (r: (
    Option<Result<Token, NilangError>>,
    usize,
    usize,
    usize,
))
    requires
        pos < chars.len(),
        chars@[pos as int] == '"',
        lex_bounds(chars.len() as int, pos as int, line as int, col as int),
    ensures
        step_matches(r, pos as int, string_step(chars@.skip(pos as int), line as int, col as int)),
{
    let ghost s = chars@.skip(pos as int);
    let q_end = scan(chars, pos + 1, CharClass::NotQuote);
    assert(s.drop_first() =~= chars@.skip(pos + 1));
    if q_end < chars.len() {
        let text = collect(chars, pos, q_end + 1);
        assert(s.take(q_end + 1 - pos) =~= chars@.subrange(pos as int, q_end + 1));
        token_result(TokenType::Literal(text), q_end + 1 - pos, pos, line, col)
    } else {
        error_result(
            LexerErrors::ExpectedCharacter('"'),
            chars.len() - pos,
            pos,
            line,
            col + (q_end - pos - 1),
        )
    }
}

fn lex_char(chars: &Vec<char>, pos: usize, line: usize, col: usize) -> (r: (
    Option<Result<Token, NilangError>>,
    usize,
    usize,
    usize,
))
    requires
        pos < chars.len(),
        chars@[pos as int] == '\'',
        lex_bounds(chars.len() as int, pos as int, line as int, col as int),
    ensures
        step_matches(r, pos as int, char_step(chars@.skip(pos as int), line as int, col as int)),
{
    let ghost s = chars@.skip(pos as int);
    if pos + 1 >= chars.len() {
        error_result(LexerErrors::UnexpectedEndOfFile, 1, pos, line, col)
    } else if chars[pos + 1] == '\'' {
        error_result(LexerErrors::UnexpectedCharacter('\''), 2, pos, line, col)
    } else if pos + 2 < chars.len() && chars[pos + 2] == '\'' {
        let text = collect(chars, pos, pos + 3);
        assert(s.take(3) =~= chars@.subrange(pos as int, pos + 3));
        token_result(TokenType::Literal(text), 3, pos, line, col)
    } else {
        let consumed = if pos + 2 < chars.len() {
            3
        } else {
            2
        };
        error_result(LexerErrors::ExpectedCharacter('\''), consumed, pos, line, col + 1)
    }
}

/// The token of a character that is a token by itself.
fn single_char_token_exec(c: char) -> (r: Option<TokenType>)
    ensures
        match r {
            Some(t) => single_char_token(c) == Some(t@),
            None => single_char_token(c) is None,
        },
{
    if c == '+' {
        Some(TokenType::Operator(Operator::Arithmetic(Arithmetic::Add)))
    } else if c == '-' {
        Some(TokenType::Operator(Operator::Arithmetic(Arithmetic::Subtract)))
    } else if c == '*' {
        Some(TokenType::Operator(Operator::Arithmetic(Arithmetic::Multiply)))
    } else if c == '/' {
        Some(TokenType::Operator(Operator::Arithmetic(Arithmetic::Divide)))
    } else if c == '%' {
        Some(TokenType::Operator(Operator::Arithmetic(Arithmetic::Modulo)))
    } else if c == '(' {
        Some(TokenType::OpeningParenthesis)
    } else if c == ')' {
        Some(TokenType::ClosingParenthesis)
    } else if c == '{' {
        Some(TokenType::OpeningBrace)
    } else if c == '}' {
        Some(TokenType::ClosingBrace)
    } else if c == ';' {
        Some(TokenType::Semicolon)
    } else if c == ':' {
        Some(TokenType::Colon)
    } else if c == ',' {
        Some(TokenType::Comma)
    } else {
        None
    }
}

/// The comparison written by `c` alone, and by `c` followed by `=`.
fn comparison_tokens_exec(c: char) -> (r: Option<(TokenType, TokenType)>)
    ensures
        match r {
            Some((a, b)) => comparison_tokens(c) == Some((a@, b@)),
            None => comparison_tokens(c) is None,
        },
{
    if c == '=' {
        Some((TokenType::Equals, TokenType::Operator(Operator::Boolean(Boolean::Equal))))
    } else if c == '<' {
        Some(
            (
                TokenType::Operator(Operator::Boolean(Boolean::Less)),
                TokenType::Operator(Operator::Boolean(Boolean::LessOrEqual)),
            ),
        )
    } else if c == '>' {
        Some(
            (
                TokenType::Operator(Operator::Boolean(Boolean::More)),
                TokenType::Operator(Operator::Boolean(Boolean::MoreOrEqual)),
            ),
        )
    } else {
        None
    }
}

/// The token that starts at `pos`, where the character is not a blank.
fn lex_token_at(chars: &Vec<char>, pos: usize, line: usize, col: usize) -> (r: (
    Option<Result<Token, NilangError>>,
    usize,
    usize,
    usize,
))
    requires
        pos < chars.len(),
        lex_bounds(chars.len() as int, pos as int, line as int, col as int),
    ensures
        step_matches(r, pos as int, token_at(chars@.skip(pos as int), line as int, col as int)),
{
    let c = chars[pos];
    if c == '.' {
        lex_dot(chars, pos, line, col)
    } else if '0' <= c && c <= '9' {
        lex_number(chars, pos, line, col)
    } else if c == '_' || ('a' <= c && c <= 'z') || ('A' <= c && c <= 'Z') {
        lex_word(chars, pos, line, col)
    } else if c == '"' {
        lex_string(chars, pos, line, col)
    } else if c == '\'' {
        lex_char(chars, pos, line, col)
    } else if let Some(t) = single_char_token_exec(c) {
        token_result(t, 1, pos, line, col)
    } else if let Some((alone, with_equals)) = comparison_tokens_exec(c) {
        if pos + 1 < chars.len() && chars[pos + 1] == '=' {
            token_result(with_equals, 2, pos, line, col)
        } else {
            token_result(alone, 1, pos, line, col)
        }
    } else if c == '!' {
        if pos + 1 < chars.len() && chars[pos + 1] == '=' {
            token_result(TokenType::Operator(Operator::Boolean(Boolean::NotEqual)), 2, pos, line, col)
        } else {
            error_result(LexerErrors::UnexpectedCharacter('!'), 1, pos, line, col + 1)
        }
    } else {
        error_result(LexerErrors::UnexpectedCharacter(c), 0, pos, line, col)
    }
}

/// Reads the blanks from `pos`: where they end and the (line, column) there.
pub(crate) fn skip_blanks(chars: &Vec<char>, pos: usize, line: usize, col: usize) -> (r: (usize, usize, usize))
    requires
        lex_bounds(chars.len() as int, pos as int, line as int, col as int),
    ensures
        pos <= r.0 <= chars.len(),
        r.0 - pos == blank_run(chars@.skip(pos as int)),
        (r.1 as int, r.2 as int) == after_blanks(chars@.skip(pos as int), line as int, col as int),
        chars@.skip(pos as int).skip(r.0 - pos) == chars@.skip(r.0 as int),
        lex_bounds(chars.len() as int, r.0 as int, r.1 as int, r.2 as int),
{
    let ghost s = chars@.skip(pos as int);
    let mut i = pos;
    let mut l = line;
    let mut c = col;
    while i < chars.len() && (chars[i] == ' ' || chars[i] == '\n' || chars[i] == '\t')
        invariant
            pos <= i <= chars.len(),
            s == chars@.skip(pos as int),
            lex_bounds(chars.len() as int, i as int, l as int, c as int),
            blank_run(s) == (i - pos) + blank_run(chars@.skip(i as int)),
            after_blanks(s, line as int, col as int) == after_blanks(
                chars@.skip(i as int),
                l as int,
                c as int,
            ),
        decreases chars.len() - i,
    {
        proof {
            lemma_run_unfold(chars@, i as int, CharClass::Blank);
            assert(chars@.skip(i as int).drop_first() =~= chars@.skip(i + 1));
        }
        if chars[i] == '\n' {
            l = l + 1;
            c = 0;
        } else if chars[i] == ' ' {
            c = c + 1;
        } else {
            c = c + 4;
        }
        i = i + 1;
    }
    proof {
        lemma_run_stop(chars@, i as int, CharClass::Blank);
        assert(s.skip(i - pos) =~= chars@.skip(i as int));
    }
    (i, l, c)
}

/// One step of the lexer from `pos`: reads the blanks, then one token.
fn lex_next(chars: &Vec<char>, pos: usize, line: usize, col: usize) -> (r: (
    Option<Result<Token, NilangError>>,
    usize,
    usize,
    usize,
))
    requires
        lex_bounds(chars.len() as int, pos as int, line as int, col as int),
    ensures
        step_matches(r, pos as int, lex_step(chars@.skip(pos as int), line as int, col as int)),
        lex_bounds(chars.len() as int, r.1 as int, r.2 as int, r.3 as int),
{
    let (i, l, c) = skip_blanks(chars, pos, line, col);
    if i == chars.len() {
        (None, i, l, c)
    } else {
        proof {
            lemma_token_at_bounds(chars@.skip(i as int), l as int, c as int);
        }
        lex_token_at(chars, i, l, c)
    }
}

/// Reads the tokens of a program one at a time.
pub struct Tokenizer {
    chars: Vec<char>,
    pos: usize,
    loc: (usize, usize),
}

impl Tokenizer {
    #[verifier::type_invariant]
    spec fn wf(self) -> bool {
        lex_bounds(self.chars.len() as int, self.pos as int, self.loc.0 as int, self.loc.1 as int)
    }

    /// The characters that are still to be read.
    pub closed spec fn remaining(&self) -> Seq<char> {
        self.chars@.skip(self.pos as int)
    }

    /// The (line, column) of the next character to be read.
    pub closed spec fn location(&self) -> (int, int) {
        (self.loc.0 as int, self.loc.1 as int)
    }

    /// A tokenizer at the start of `iter`.
    pub fn new(iter: &str) -> (t: Tokenizer)
        requires
            iter@.len() <= usize::MAX / 8,
        ensures
            t.remaining() == iter@,
            t.location() == (0int, 0int),
    {
        let chars = chars_of(iter);
        assert(chars@.skip(0) =~= chars@);
        Tokenizer { chars, pos: 0, loc: (0, 0) }
    }

    /// The next token, or the error met reading it, or `None` once only
    /// blanks are left.
    pub fn next(&mut self) -> (r: Option<Result<Token, NilangError>>)
        ensures
            ({
                let st = lex_step(
                    old(self).remaining(),
                    old(self).location().0,
                    old(self).location().1,
                );
                &&& outcome_of(r) == st.outcome
                &&& final(self).remaining() == old(self).remaining().skip(st.consumed)
                &&& final(self).location() == st.loc
            }),
    {
        proof {
            use_type_invariant(&*self);
        }
        let ghost old_pos = self.pos;
        let (r, pos, line, col) = lex_next(&self.chars, self.pos, self.loc.0, self.loc.1);
        assert(self.chars@.skip(pos as int) =~= self.chars@.skip(old_pos as int).skip(
            pos - old_pos,
        ));
        self.pos = pos;
        self.loc = (line, col);
        r
    }
}

/// A step that yields a token reads at least one character, so the tokens
/// of any program are finitely many.
pub proof fn lemma_token_reads_input(s: Seq<char>, line: int, col: int)
    ensures
        lex_step(s, line, col).outcome is Token ==> lex_step(s, line, col).consumed >= 1,
        0 <= lex_step(s, line, col).consumed <= s.len(),
{
    lemma_run_len(s, class_pred(CharClass::Blank));
    let b = blank_run(s) as int;
    if b < s.len() {
        lemma_token_at_bounds(s.skip(b), after_blanks(s, line, col).0, after_blanks(s, line, col).1);
        let st = token_at(s.skip(b), after_blanks(s, line, col).0, after_blanks(s, line, col).1);
        if st.outcome is Token {
            lemma_token_step_nonempty(s.skip(b), after_blanks(s, line, col).0, after_blanks(s, line, col).1);
        }
    }
}

proof fn lemma_token_step_nonempty(s: Seq<char>, line: int, col: int)
    requires
        s.len() > 0,
        token_at(s, line, col).outcome is Token,
    ensures
        token_at(s, line, col).consumed >= 1,
{
    if is_ident_start(s[0]) {
        assert(class_pred(CharClass::IdentChar)(s[0]));
    }
    if is_digit(s[0]) {
        assert(class_pred(CharClass::Digit)(s[0]));
    }
}

/// Once the lexer has reported the end of the input, it reports it again.
pub proof fn lemma_done_is_final(s: Seq<char>, line: int, col: int)
    requires
        lex_step(s, line, col).outcome is Done,
    ensures
        ({
            let st = lex_step(s, line, col);
            let next = lex_step(s.skip(st.consumed), st.loc.0, st.loc.1);
            &&& next.outcome is Done
            &&& next.consumed == 0
            &&& next.loc == st.loc
        }),
{
    let st = lex_step(s, line, col);
    assert(s.skip(st.consumed).len() == 0);
}

/// Every token lies on one line, its last character at or after its first,
/// and a token that carries text spans exactly that many columns.
pub proof fn lemma_token_span(s: Seq<char>, line: int, col: int)
    ensures
        lex_step(s, line, col).outcome matches LexOutcome::Token(t, start, end) ==> {
            &&& start.0 == end.0
            &&& start.1 <= end.1
            &&& t matches TokenTypeView::Literal(text) ==> end.1 - start.1 + 1 == text.len()
            &&& t matches TokenTypeView::Identifier(text) ==> end.1 - start.1 + 1 == text.len()
        },
{
    let b = blank_run(s) as int;
    lemma_run_len(s, class_pred(CharClass::Blank));
    if b < s.len() {
        let (l, c) = after_blanks(s, line, col);
        let u = s.skip(b);
        lemma_token_at_bounds(u, l, c);
        lemma_token_step_nonempty_if_token(u, l, c);
        lemma_run_len(u, class_pred(CharClass::Digit));
        lemma_run_len(u, class_pred(CharClass::IdentChar));
        lemma_run_len(u.drop_first(), class_pred(CharClass::Digit));
        lemma_run_len(u.drop_first(), class_pred(CharClass::NotQuote));
        let a = digit_run(u) as int;
        if a < u.len() {
            lemma_run_len(u.skip(a + 1), class_pred(CharClass::Digit));
        }
    }
}

proof fn lemma_token_step_nonempty_if_token(s: Seq<char>, line: int, col: int)
    requires
        s.len() > 0,
    ensures
        token_at(s, line, col).outcome is Token ==> token_at(s, line, col).consumed >= 1,
{
    if token_at(s, line, col).outcome is Token {
        lemma_token_step_nonempty(s, line, col);
    }
}

/// Input made of blanks alone holds no token: the lexer reads it all and
/// reports the end.
pub proof fn lemma_blanks_are_done(s: Seq<char>, line: int, col: int)
    requires
        forall|i: int| 0 <= i < s.len() ==> is_blank(#[trigger] s[i]),
    ensures
        lex_step(s, line, col).outcome is Done,
        lex_step(s, line, col).consumed == s.len(),
    decreases s.len(),
{
    if s.len() > 0 {
        assert(class_pred(CharClass::Blank)(s[0]));
        lemma_blanks_are_done(s.drop_first(), line, col);
        assert(blank_run(s) == 1 + blank_run(s.drop_first()));
    }
}

/// The tokens that repeated steps of the lexer yield on `s` from (`line`,
/// `col`) until it reports the end, or `None` when a step fails first.
pub open spec fn tokens_of(s: Seq<char>, line: int, col: int) -> Option<Seq<TokenTypeView>>
    decreases s.len(),
{
    let st = lex_step(s, line, col);
    match st.outcome {
        LexOutcome::Done => Some(seq![]),
        LexOutcome::Token(t, _, _) => {
            proof {
                lemma_token_reads_input(s, line, col);
            }
            match tokens_of(s.skip(st.consumed), st.loc.0, st.loc.1) {
                Some(rest) => Some(seq![t] + rest),
                None => None,
            }
        },
        _ => None,
    }
}

proof fn lemma_run_prefix(s: Seq<char>, p: spec_fn(char) -> bool)
    ensures
        forall|i: int| 0 <= i < run(s, p) ==> p(#[trigger] s[i]),
    decreases s.len(),
{
    lemma_run_len(s, p);
    if s.len() > 0 && p(s[0]) {
        lemma_run_prefix(s.drop_first(), p);
        assert forall|i: int| 0 <= i < run(s, p) implies p(#[trigger] s[i]) by {
            if i > 0 {
                assert(s[i] == s.drop_first()[i - 1]);
            }
        }
    }
}

proof fn lemma_keyword_text(text: Seq<char>)
    ensures
        keyword_of(text) matches Some(k) ==> keyword_text(k) == text,
{
}

proof fn lemma_word_text(text: Seq<char>)
    ensures
        token_text(word_token(text)) == text,
{
    lemma_keyword_text(text);
}

/// A token that the lexer reads is written in the input exactly as its
/// text, and the lexer reads nothing else for it.
proof fn lemma_token_text(u: Seq<char>, line: int, col: int)
    requires
        u.len() > 0,
    ensures
        token_at(u, line, col).outcome matches LexOutcome::Token(t, _, _) ==> {
            &&& token_at(u, line, col).consumed == token_text(t).len()
            &&& u.take(token_at(u, line, col).consumed) == token_text(t)
        },
{
    lemma_token_at_bounds(u, line, col);
    let st = token_at(u, line, col);
    let c = u[0];
    if st.outcome is Token {
        if c == '.' {
            let d = digit_run(u.drop_first()) as int;
            if d == 0 {
                assert(u.take(1) =~= seq!['.']);
            }
        } else if is_digit(c) {
        } else if is_ident_start(c) {
            lemma_word_text(u.take(ident_run(u) as int));
        } else if c == '"' {
        } else if c == '\'' {
        } else if single_char_token(c) is Some {
            assert(u.take(1) =~= seq![c]);
        } else if comparison_tokens(c) is Some {
            if u.len() > 1 && u[1] == '=' {
                assert(u.take(2) =~= seq![c, '=']);
            } else {
                assert(u.take(1) =~= seq![c]);
            }
        } else {
            assert(u.take(2) =~= seq!['!', '=']);
        }
    }
}

/// The lexer loses no character and adds none: when its steps read all of
/// `s` into the tokens `ts`, `s` is blanks, the text of the first token,
/// blanks, the text of the second, and so on, ending with blanks.
pub proof fn law_tokens_spell_input(s: Seq<char>, line: int, col: int)
    ensures
        tokens_of(s, line, col) matches Some(ts) ==> spelled(s, ts),
    decreases s.len(),
{
    let st = lex_step(s, line, col);
    lemma_token_reads_input(s, line, col);
    lemma_run_len(s, class_pred(CharClass::Blank));
    lemma_run_prefix(s, class_pred(CharClass::Blank));
    let b = blank_run(s) as int;
    let (l, c) = after_blanks(s, line, col);
    match st.outcome {
        LexOutcome::Done => {
            assert forall|i: int| 0 <= i < s.len() implies is_blank(#[trigger] s[i]) by {
                assert(class_pred(CharClass::Blank)(s[i]));
            }
        },
        LexOutcome::Token(t, _, _) => {
            law_tokens_spell_input(s.skip(st.consumed), st.loc.0, st.loc.1);
            let u = s.skip(b);
            lemma_token_text(u, l, c);
            let w = token_text(t);
            if let Some(rest) = tokens_of(s.skip(st.consumed), st.loc.0, st.loc.1) {
                let ts = seq![t] + rest;
                assert(ts[0] == t);
                assert(ts.drop_first() =~= rest);
                assert(s.subrange(b, b + w.len()) =~= u.take(w.len() as int));
            }
        },
        _ => {},
    }
}

/// Every reserved word is read as its keyword, never as an identifier: the
/// words `fn`, `vr`, `rt`, `st`, `if`, `ef`, `el` and `wl` stand for
/// `Function`, `Variable`, `Return`, `Structure`, `If`, `ElseIf`, `Else` and
/// `While`, and wherever a reserved word stands at the start of the unread
/// input, followed by the end or by a character that is not a word
/// character, one step of the lexer yields that keyword over its two
/// columns and reads exactly its two characters.
pub proof fn law_keywords_lex_as_keywords(k: Keyword, s: Seq<char>, line: int, col: int)
    requires
        s.len() >= 2,
        s.take(2) == keyword_text(k),
        s.len() == 2 || !is_ident_char(s[2]),
    ensures
        keyword_text(Keyword::Function) == seq!['f', 'n'],
        keyword_text(Keyword::Variable) == seq!['v', 'r'],
        keyword_text(Keyword::Return) == seq!['r', 't'],
        keyword_text(Keyword::Structure) == seq!['s', 't'],
        keyword_text(Keyword::If) == seq!['i', 'f'],
        keyword_text(Keyword::ElseIf) == seq!['e', 'f'],
        keyword_text(Keyword::Else) == seq!['e', 'l'],
        keyword_text(Keyword::While) == seq!['w', 'l'],
        keyword_of(keyword_text(k)) == Some(k),
        word_token(keyword_text(k)) == TokenTypeView::Keyword(k),
        lex_step(s, line, col).outcome == LexOutcome::Token(TokenTypeView::Keyword(k), (line, col), (line, col + 1)),
        lex_step(s, line, col).consumed == 2,
{
    let w = keyword_text(k);
    assert(s[0] == w[0] && s[1] == w[1]);
    assert(is_ident_start(s[0]) && is_ident_start(s[1]));
    assert(!is_blank(s[0]) && !is_digit(s[0]) && s[0] != '.');
    assert(!class_pred(CharClass::Blank)(s[0]));
    assert(blank_run(s) == 0);
    assert(after_blanks(s, line, col) == (line, col));
    assert(s.skip(0) =~= s);
    assert(class_pred(CharClass::IdentChar)(s[0]));
    assert(class_pred(CharClass::IdentChar)(s[1]));
    lemma_run_unfold(s, 0, CharClass::IdentChar);
    lemma_run_unfold(s, 1, CharClass::IdentChar);
    lemma_run_stop(s, 2, CharClass::IdentChar);
    assert(ident_run(s) == 2);
    lemma_keyword_text(w);
}

/// How each token without text is written, which `law_tokens_spell_input`
/// ties to the input it is read from: `+ - * / %`, `==`, `!=`, `<`, `<=`,
/// `>`, `>=`, `=`, `;`, `:`, `,`, `.`, and the brackets `( ) { }`. A token
/// read by the lexer is therefore exactly the operator or symbol written.
pub proof fn law_token_spellings()
    ensures
        token_text(TokenTypeView::Operator(Operator::Arithmetic(Arithmetic::Add))) == seq!['+'],
        token_text(TokenTypeView::Operator(Operator::Arithmetic(Arithmetic::Subtract))) == seq!['-'],
        token_text(TokenTypeView::Operator(Operator::Arithmetic(Arithmetic::Multiply))) == seq!['*'],
        token_text(TokenTypeView::Operator(Operator::Arithmetic(Arithmetic::Divide))) == seq!['/'],
        token_text(TokenTypeView::Operator(Operator::Arithmetic(Arithmetic::Modulo))) == seq!['%'],
        token_text(TokenTypeView::Operator(Operator::Boolean(Boolean::Equal))) == seq!['=', '='],
        token_text(TokenTypeView::Operator(Operator::Boolean(Boolean::NotEqual))) == seq!['!', '='],
        token_text(TokenTypeView::Operator(Operator::Boolean(Boolean::Less))) == seq!['<'],
        token_text(TokenTypeView::Operator(Operator::Boolean(Boolean::LessOrEqual))) == seq!['<', '='],
        token_text(TokenTypeView::Operator(Operator::Boolean(Boolean::More))) == seq!['>'],
        token_text(TokenTypeView::Operator(Operator::Boolean(Boolean::MoreOrEqual))) == seq!['>', '='],
        token_text(TokenTypeView::Equals) == seq!['='],
        token_text(TokenTypeView::Semicolon) == seq![';'],
        token_text(TokenTypeView::Colon) == seq![':'],
        token_text(TokenTypeView::Comma) == seq![','],
        token_text(TokenTypeView::Dot) == seq!['.'],
        token_text(TokenTypeView::OpeningParenthesis) == seq!['('],
        token_text(TokenTypeView::ClosingParenthesis) == seq![')'],
        token_text(TokenTypeView::OpeningBrace) == seq!['{'],
        token_text(TokenTypeView::ClosingBrace) == seq!['}'],
        forall|k: Keyword| #[trigger] token_text(TokenTypeView::Keyword(k)) == keyword_text(k),
        forall|t: Seq<char>| #[trigger] token_text(TokenTypeView::Identifier(t)) == t,
        forall|t: Seq<char>| #[trigger] token_text(TokenTypeView::Literal(t)) == t,
{
}

} // verus!
