use vstd::prelude::*;

use crate::lexer::grammar::{is_digit, is_ident_char, is_ident_start};
use crate::text::chars_of;

verus! {

/// A token of the first grammar of the language: its kind, its text, and
/// the offsets of its first and last character.
#[derive(Debug, Clone, PartialEq)]
pub struct Token {
    pub token: TokenType,
    pub value: String,
    pub start: usize,
    pub end: usize,
}

/// The kinds of token of the first grammar of the language.
#[derive(Debug, Copy, Clone, PartialEq, Eq, Structural)]
pub enum TokenType {
    Number,
    Operator,
    Keyword,
    Literal,
    OpeningParenthesis,
    ClosingParenthesis,
    OpeningBrace,
    ClosingBrace,
}

/// A token of the first grammar with its text as a sequence of characters.
pub struct TokenView {
    pub token: TokenType,
    pub value: Seq<char>,
    pub start: int,
    pub end: int,
}

impl View for Token {
    type V = TokenView;

    open spec fn view(&self) -> TokenView {
        TokenView { token: self.token, value: self.value@, start: self.start as int, end: self.end as int }
    }
}

/// Whether `c` may stand in a number: a digit or a dot.
pub open spec fn is_number_char(c: char) -> bool {
    is_digit(c) || c == '.'
}

/// The number of characters of `s` from `pos` on that satisfy `p`, up to
/// the first that does not.
pub open spec fn run_from(s: Seq<char>, pos: int, p: spec_fn(char) -> bool) -> int
    decreases s.len() - pos,
{
    if 0 <= pos < s.len() && p(s[pos]) {
        1 + run_from(s, pos + 1, p)
    } else {
        0
    }
}

/// The kind of a character that is a token by itself.
pub open spec fn single_kind(c: char) -> Option<TokenType> {
    if c == '+' || c == '-' || c == '*' || c == '/' || c == '%' {
        Some(TokenType::Operator)
    } else if c == '(' {
        Some(TokenType::OpeningParenthesis)
    } else if c == ')' {
        Some(TokenType::ClosingParenthesis)
    } else if c == '{' {
        Some(TokenType::OpeningBrace)
    } else if c == '}' {
        Some(TokenType::ClosingBrace)
    } else {
        None
    }
}

/// The kind of a word: the reserved words `fn`, `rt` and `vr` are keywords,
/// other words literals.
pub open spec fn word_kind(text: Seq<char>) -> TokenType {
    if text == seq!['f', 'n'] || text == seq!['r', 't'] || text == seq!['v', 'r'] {
        TokenType::Keyword
    } else {
        TokenType::Literal
    }
}

/// The tokens of `s` from offset `pos` on, in the first grammar: blanks
/// separate tokens; a number is a run of digits and dots; a word starts
/// with a letter or an underscore; an operator, a parenthesis or a brace is
/// a token by itself; any other character is passed over.
pub open spec fn tokens_from(s: Seq<char>, pos: int) -> Seq<TokenView>
    decreases s.len() - pos,
{
    if pos < 0 || pos >= s.len() {
        seq![]
    } else {
        let c = s[pos];
        if is_number_char(c) {
            let n = run_from(s, pos, |c: char| is_number_char(c));
            proof {
                lemma_run_from_bounds(s, pos, |c: char| is_number_char(c));
            }
            seq![TokenView { token: TokenType::Number, value: s.subrange(pos, pos + n), start: pos, end: pos + n - 1 }]
                + tokens_from(s, pos + n)
        } else if is_ident_start(c) {
            let n = run_from(s, pos, |c: char| is_ident_char(c));
            proof {
                lemma_run_from_bounds(s, pos, |c: char| is_ident_char(c));
            }
            seq![TokenView { token: word_kind(s.subrange(pos, pos + n)), value: s.subrange(pos, pos + n), start: pos, end: pos + n - 1 }]
                + tokens_from(s, pos + n)
        } else if single_kind(c) is Some {
            seq![TokenView { token: single_kind(c)->0, value: seq![c], start: pos, end: pos }] + tokens_from(s, pos + 1)
        } else {
            tokens_from(s, pos + 1)
        }
    }
}

/// A run that starts with a character satisfying `p` has at least that
/// character and at most what is left.
pub proof fn lemma_run_from_bounds(s: Seq<char>, pos: int, p: spec_fn(char) -> bool)
    requires
        0 <= pos < s.len(),
        p(s[pos]),
    ensures
        1 <= run_from(s, pos, p) <= s.len() - pos,
    decreases s.len() - pos,
{
    if pos + 1 < s.len() && p(s[pos + 1]) {
        lemma_run_from_bounds(s, pos + 1, p);
    } else {
        assert(run_from(s, pos + 1, p) == 0);
    }
}

proof fn lemma_run_from(s: Seq<char>, pos: int, end: int, p: spec_fn(char) -> bool)
    requires
        0 <= pos <= end <= s.len(),
        forall|j: int| pos <= j < end ==> p(#[trigger] s[j]),
        end < s.len() ==> !p(s[end]),
    ensures
        run_from(s, pos, p) == end - pos,
    decreases end - pos,
{
    if pos < end {
        lemma_run_from(s, pos + 1, end, p);
    }
}

fn number_char(c: char) -> (b: bool)
    ensures
        b == is_number_char(c),
{
    ('0' <= c && c <= '9') || c == '.'
}

fn ident_char(c: char) -> (b: bool)
    ensures
        b == is_ident_char(c),
{
    c == '_' || ('a' <= c && c <= 'z') || ('A' <= c && c <= 'Z') || ('0' <= c && c <= '9')
}

fn single(c: char) -> (r: Option<TokenType>)
    ensures
        r == single_kind(c),
{
    if c == '+' || c == '-' || c == '*' || c == '/' || c == '%' {
        Some(TokenType::Operator)
    } else if c == '(' {
        Some(TokenType::OpeningParenthesis)
    } else if c == ')' {
        Some(TokenType::ClosingParenthesis)
    } else if c == '{' {
        Some(TokenType::OpeningBrace)
    } else if c == '}' {
        Some(TokenType::ClosingBrace)
    } else {
        None
    }
}

fn text_between(chars: &Vec<char>, from: usize, to: usize) -> (s: String)
    requires
        from <= to <= chars.len(),
    ensures
        s@ == chars@.subrange(from as int, to as int),
{
    crate::text::substring(chars, from, to)
}

fn is_word(chars: &Vec<char>, from: usize, to: usize, a: char, b: char) -> (r: bool)
    requires
        from <= to <= chars.len(),
    ensures
        r == (chars@.subrange(from as int, to as int) == seq![a, b]),
{
    if to - from != 2 {
        assert(seq![a, b].len() == 2);
        return false;
    }
    let r = chars[from] == a && chars[from + 1] == b;
    let ghost sub = chars@.subrange(from as int, to as int);
    assert(sub[0] == chars@[from as int] && sub[1] == chars@[from + 1]);
    assert(seq![a, b][0] == a && seq![a, b][1] == b);
    if r {
        assert(sub =~= seq![a, b]);
    }
    r
}

/// The views of tokens.
pub open spec fn tokens_view(v: Seq<Token>) -> Seq<TokenView> {
    v.map_values(|t: Token| t@)
}

/// The tokens of `input` in the first grammar of the language, with the
/// offsets of their first and last characters.
pub fn convert(input: &str) -> (v: Vec<Token>)
    ensures
        tokens_view(v@) == tokens_from(input@, 0),
{
    let chars = chars_of(input);
    let n = chars.len();
    let mut v: Vec<Token> = Vec::new();
    let mut pos: usize = 0;
    while pos < n
        invariant
            0 <= pos <= n,
            n == chars@.len(),
            chars@ == input@,
            tokens_from(input@, 0) == tokens_view(v@) + tokens_from(input@, pos as int),
        decreases n - pos,
    {
        let ghost s = chars@;
        let ghost before = tokens_view(v@);
        let c = chars[pos];
        if number_char(c) {
            let mut end = pos + 1;
            while end < n && number_char(chars[end])
                invariant
                    pos < end <= n,
                    n == chars@.len(),
                    forall|j: int| pos <= j < end ==> is_number_char(#[trigger] chars@[j]),
                decreases n - end,
            {
                end = end + 1;
            }
            proof {
                lemma_run_from(s, pos as int, end as int, |c: char| is_number_char(c));
            }
            let t = Token { token: TokenType::Number, value: text_between(&chars, pos, end), start: pos, end: end - 1 };
            v.push(t);
            assert(tokens_view(v@) =~= before.push(t@));
            assert(before.push(t@) + tokens_from(s, end as int) =~= before + (seq![t@] + tokens_from(s, end as int)));
            pos = end;
        } else if c == '_' || ('a' <= c && c <= 'z') || ('A' <= c && c <= 'Z') {
            let mut end = pos + 1;
            while end < n && ident_char(chars[end])
                invariant
                    pos < end <= n,
                    n == chars@.len(),
                    is_ident_char(chars@[pos as int]),
                    forall|j: int| pos <= j < end ==> is_ident_char(#[trigger] chars@[j]),
                decreases n - end,
            {
                end = end + 1;
            }
            proof {
                lemma_run_from(s, pos as int, end as int, |c: char| is_ident_char(c));
            }
            let kind = if is_word(&chars, pos, end, 'f', 'n') || is_word(&chars, pos, end, 'r', 't') || is_word(
                &chars,
                pos,
                end,
                'v',
                'r',
            ) {
                TokenType::Keyword
            } else {
                TokenType::Literal
            };
            let t = Token { token: kind, value: text_between(&chars, pos, end), start: pos, end: end - 1 };
            v.push(t);
            assert(tokens_view(v@) =~= before.push(t@));
            assert(before.push(t@) + tokens_from(s, end as int) =~= before + (seq![t@] + tokens_from(s, end as int)));
            pos = end;
        } else if let Some(kind) = single(c) {
            let mut value = String::new();
            crate::text::push_char(&mut value, c);
            assert(value@ =~= seq![c]);
            let t = Token { token: kind, value, start: pos, end: pos };
            v.push(t);
            assert(tokens_view(v@) =~= before.push(t@));
            assert(before.push(t@) + tokens_from(s, pos + 1) =~= before + (seq![t@] + tokens_from(s, pos + 1)));
            pos = pos + 1;
        } else {
            pos = pos + 1;
        }
    }
    assert(tokens_view(v@) + tokens_from(input@, n as int) =~= tokens_view(v@));
    v
}

/// Whether `t` is the text of `s` between its offsets, which lie at or after
/// `pos`.
pub open spec fn reads_input(s: Seq<char>, pos: int, t: TokenView) -> bool {
    &&& pos <= t.start <= t.end < s.len()
    &&& t.value == s.subrange(t.start, t.end + 1)
}

/// Every token is the text of the input between its first and last offset,
/// and the tokens come in the order of the input.
pub proof fn law_tokens_read_input(s: Seq<char>, pos: int)
    requires
        0 <= pos,
    ensures
        forall|i: int| 0 <= i < tokens_from(s, pos).len() ==> reads_input(s, pos, #[trigger] tokens_from(s, pos)[i]),
        forall|i: int, j: int|
            0 <= i < j < tokens_from(s, pos).len() ==> (#[trigger] tokens_from(s, pos)[i]).end < (
            #[trigger] tokens_from(s, pos)[j]).start,
    decreases s.len() - pos,
{
    if pos < s.len() {
        let c = s[pos];
        let ts = tokens_from(s, pos);
        if is_number_char(c) || is_ident_start(c) {
            let n = if is_number_char(c) {
                lemma_run_from_bounds(s, pos, |c: char| is_number_char(c));
                run_from(s, pos, |c: char| is_number_char(c))
            } else {
                lemma_run_from_bounds(s, pos, |c: char| is_ident_char(c));
                run_from(s, pos, |c: char| is_ident_char(c))
            };
            law_tokens_read_input(s, pos + n);
            let rest = tokens_from(s, pos + n);
            assert(ts == seq![ts[0]] + rest);
            assert forall|i: int| 0 <= i < ts.len() implies reads_input(s, pos, #[trigger] ts[i]) by {
                if i > 0 {
                    assert(ts[i] == rest[i - 1]);
                    assert(reads_input(s, pos + n, rest[i - 1]));
                }
            }
            assert forall|i: int, j: int| 0 <= i < j < ts.len() implies (#[trigger] ts[i]).end < (#[trigger] ts[j]).start by {
                assert(ts[j] == rest[j - 1]);
                assert(reads_input(s, pos + n, rest[j - 1]));
                if i > 0 {
                    assert(ts[i] == rest[i - 1]);
                }
            }
        } else if single_kind(c) is Some {
            law_tokens_read_input(s, pos + 1);
            let rest = tokens_from(s, pos + 1);
            assert(ts == seq![ts[0]] + rest);
            assert(s.subrange(pos, pos + 1) =~= seq![c]);
            assert forall|i: int| 0 <= i < ts.len() implies reads_input(s, pos, #[trigger] ts[i]) by {
                if i > 0 {
                    assert(ts[i] == rest[i - 1]);
                    assert(reads_input(s, pos + 1, rest[i - 1]));
                }
            }
            assert forall|i: int, j: int| 0 <= i < j < ts.len() implies (#[trigger] ts[i]).end < (#[trigger] ts[j]).start by {
                assert(ts[j] == rest[j - 1]);
                assert(reads_input(s, pos + 1, rest[j - 1]));
                if i > 0 {
                    assert(ts[i] == rest[i - 1]);
                }
            }
        } else {
            law_tokens_read_input(s, pos + 1);
            let rest = tokens_from(s, pos + 1);
            assert forall|i: int| 0 <= i < ts.len() implies reads_input(s, pos, #[trigger] ts[i]) by {
                assert(reads_input(s, pos + 1, rest[i]));
            }
        }
    }
}

} // verus!
