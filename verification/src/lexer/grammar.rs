use vstd::prelude::*;

use crate::errors::LexerErrors;
use crate::types::nodes::expressions::{Arithmetic, Boolean, Operator};
use crate::types::tokens::{Keyword, TokenTypeView};

verus! {

// The token grammar of the language, stated over the characters that are
// still to be read and the (line, column) reached so far.

/// A decimal digit.
pub open spec fn is_digit(c: char) -> bool {
    '0' <= c && c <= '9'
}

/// A character that may start a word: a letter or an underscore.
pub open spec fn is_ident_start(c: char) -> bool {
    c == '_' || ('a' <= c && c <= 'z') || ('A' <= c && c <= 'Z')
}

/// A character that may stand in a word: a letter, an underscore or a digit.
pub open spec fn is_ident_char(c: char) -> bool {
    is_ident_start(c) || is_digit(c)
}

/// A character that separates tokens: a space, a newline or a tab.
pub open spec fn is_blank(c: char) -> bool {
    c == ' ' || c == '\n' || c == '\t'
}

/// The length of the longest prefix of `s` whose characters all satisfy `p`.
pub open spec fn run(s: Seq<char>, p: spec_fn(char) -> bool) -> nat
    decreases s.len(),
{
    if s.len() > 0 && p(s[0]) {
        1 + run(s.drop_first(), p)
    } else {
        0
    }
}

/// The classes of characters that the lexer reads runs of.
pub enum CharClass {
    Digit,
    IdentChar,
    Blank,
    NotQuote,
}

/// The test of a class of characters.
pub open spec fn class_pred(k: CharClass) -> spec_fn(char) -> bool {
    match k {
        CharClass::Digit => |c: char| is_digit(c),
        CharClass::IdentChar => |c: char| is_ident_char(c),
        CharClass::Blank => |c: char| is_blank(c),
        CharClass::NotQuote => |c: char| c != '"',
    }
}

/// The number of digits at the start of `s`.
pub open spec fn digit_run(s: Seq<char>) -> nat {
    run(s, class_pred(CharClass::Digit))
}

/// The number of word characters at the start of `s`.
pub open spec fn ident_run(s: Seq<char>) -> nat {
    run(s, class_pred(CharClass::IdentChar))
}

/// The number of blanks at the start of `s`.
pub open spec fn blank_run(s: Seq<char>) -> nat {
    run(s, class_pred(CharClass::Blank))
}

/// The characters of a string literal that stand before its closing quote.
pub open spec fn string_body_run(s: Seq<char>) -> nat {
    run(s, class_pred(CharClass::NotQuote))
}

/// Where reading the leading blanks of `s` from (`line`, `col`) ends: a newline
/// starts the next line, a space counts one column and a tab four.
pub open spec fn after_blanks(s: Seq<char>, line: int, col: int) -> (int, int)
    decreases s.len(),
{
    if s.len() > 0 && is_blank(s[0]) {
        if s[0] == '\n' {
            after_blanks(s.drop_first(), line + 1, 0)
        } else if s[0] == ' ' {
            after_blanks(s.drop_first(), line, col + 1)
        } else {
            after_blanks(s.drop_first(), line, col + 4)
        }
    } else {
        (line, col)
    }
}

/// The reserved word spelled by `text`, if any.
pub open spec fn keyword_of(text: Seq<char>) -> Option<Keyword> {
    if text == seq!['f', 'n'] {
        Some(Keyword::Function)
    } else if text == seq!['v', 'r'] {
        Some(Keyword::Variable)
    } else if text == seq!['r', 't'] {
        Some(Keyword::Return)
    } else if text == seq!['s', 't'] {
        Some(Keyword::Structure)
    } else if text == seq!['i', 'f'] {
        Some(Keyword::If)
    } else if text == seq!['e', 'f'] {
        Some(Keyword::ElseIf)
    } else if text == seq!['e', 'l'] {
        Some(Keyword::Else)
    } else if text == seq!['w', 'l'] {
        Some(Keyword::While)
    } else {
        None
    }
}

/// The words `true` and `false`.
pub open spec fn is_boolean_word(text: Seq<char>) -> bool {
    text == seq!['t', 'r', 'u', 'e'] || text == seq!['f', 'a', 'l', 's', 'e']
}

/// The token of a word made of identifier characters.
pub open spec fn word_token(text: Seq<char>) -> TokenTypeView {
    match keyword_of(text) {
        Some(k) => TokenTypeView::Keyword(k),
        None => if is_boolean_word(text) {
            TokenTypeView::Literal(text)
        } else {
            TokenTypeView::Identifier(text)
        },
    }
}

/// The token of a character that is a token by itself.
pub open spec fn single_char_token(c: char) -> Option<TokenTypeView> {
    if c == '+' {
        Some(TokenTypeView::Operator(Operator::Arithmetic(Arithmetic::Add)))
    } else if c == '-' {
        Some(TokenTypeView::Operator(Operator::Arithmetic(Arithmetic::Subtract)))
    } else if c == '*' {
        Some(TokenTypeView::Operator(Operator::Arithmetic(Arithmetic::Multiply)))
    } else if c == '/' {
        Some(TokenTypeView::Operator(Operator::Arithmetic(Arithmetic::Divide)))
    } else if c == '%' {
        Some(TokenTypeView::Operator(Operator::Arithmetic(Arithmetic::Modulo)))
    } else if c == '(' {
        Some(TokenTypeView::OpeningParenthesis)
    } else if c == ')' {
        Some(TokenTypeView::ClosingParenthesis)
    } else if c == '{' {
        Some(TokenTypeView::OpeningBrace)
    } else if c == '}' {
        Some(TokenTypeView::ClosingBrace)
    } else if c == ';' {
        Some(TokenTypeView::Semicolon)
    } else if c == ':' {
        Some(TokenTypeView::Colon)
    } else if c == ',' {
        Some(TokenTypeView::Comma)
    } else {
        None
    }
}

/// The comparison written by `c` alone, and by `c` followed by `=`.
pub open spec fn comparison_tokens(c: char) -> Option<(TokenTypeView, TokenTypeView)> {
    if c == '=' {
        Some((TokenTypeView::Equals, TokenTypeView::Operator(Operator::Boolean(Boolean::Equal))))
    } else if c == '<' {
        Some(
            (
                TokenTypeView::Operator(Operator::Boolean(Boolean::Less)),
                TokenTypeView::Operator(Operator::Boolean(Boolean::LessOrEqual)),
            ),
        )
    } else if c == '>' {
        Some(
            (
                TokenTypeView::Operator(Operator::Boolean(Boolean::More)),
                TokenTypeView::Operator(Operator::Boolean(Boolean::MoreOrEqual)),
            ),
        )
    } else {
        None
    }
}

/// What one step of the lexer produces.
pub enum LexOutcome {
    /// Only blanks were left.
    Done,
    /// A token, with the (line, column) of its first and last character.
    Token(TokenTypeView, (int, int), (int, int)),
    /// An error at the given (line, column).
    Fail(LexerErrors, (int, int)),
    /// An error of another stage of the compiler; the lexer never yields one.
    Foreign,
}

/// One step of the lexer: what it yields, how many characters it reads and
/// the (line, column) it stops at.
pub struct LexStep {
    pub outcome: LexOutcome,
    pub consumed: int,
    pub loc: (int, int),
}

/// A step that yields a token of `len` characters starting at (`line`, `col`)
/// and leaves the column just after it.
pub open spec fn token_step(t: TokenTypeView, len: int, line: int, col: int) -> LexStep {
    LexStep {
        outcome: LexOutcome::Token(t, (line, col), (line, col + len - 1)),
        consumed: len,
        loc: (line, col + len),
    }
}

/// A number: digits, then at most one dot followed by more digits. When the
/// number stops at a second dot, the column is left on its last character.
pub open spec fn number_step(s: Seq<char>, line: int, col: int) -> LexStep {
    let a = digit_run(s) as int;
    let len: int = if a < s.len() && s[a] == '.' {
        a + 1 + digit_run(s.skip(a + 1))
    } else {
        a
    };
    let t = TokenTypeView::Literal(s.take(len));
    if a < s.len() && s[a] == '.' && len < s.len() && s[len] == '.' {
        LexStep {
            outcome: LexOutcome::Token(t, (line, col), (line, col + len - 1)),
            consumed: len,
            loc: (line, col + len - 1),
        }
    } else {
        token_step(t, len, line, col)
    }
}

/// A dot: with digits after it a number, else the dot token.
pub open spec fn dot_step(s: Seq<char>, line: int, col: int) -> LexStep {
    let d = digit_run(s.drop_first()) as int;
    if d > 0 {
        token_step(TokenTypeView::Literal(s.take(d + 1)), d + 1, line, col)
    } else {
        token_step(TokenTypeView::Dot, 1, line, col)
    }
}

/// A word: an identifier, a keyword or a boolean literal.
pub open spec fn word_step(s: Seq<char>, line: int, col: int) -> LexStep {
    let n = ident_run(s) as int;
    token_step(word_token(s.take(n)), n, line, col)
}

/// A string literal, quotes included. Every character after the opening quote
/// counts one column, newlines too. Without a closing quote the rest of the
/// input is read and a quote is reported missing at its last character.
pub open spec fn string_step(s: Seq<char>, line: int, col: int) -> LexStep {
    let q = string_body_run(s.drop_first()) as int;
    if q + 1 < s.len() {
        token_step(TokenTypeView::Literal(s.take(q + 2)), q + 2, line, col)
    } else {
        LexStep {
            outcome: LexOutcome::Fail(LexerErrors::ExpectedCharacter('"'), (line, col + q)),
            consumed: s.len() as int,
            loc: (line, col + q),
        }
    }
}

/// A character literal: a quote, one character other than a quote, a quote.
pub open spec fn char_step(s: Seq<char>, line: int, col: int) -> LexStep {
    if s.len() < 2 {
        LexStep {
            outcome: LexOutcome::Fail(LexerErrors::UnexpectedEndOfFile, (line, col)),
            consumed: 1,
            loc: (line, col),
        }
    } else if s[1] == '\'' {
        LexStep {
            outcome: LexOutcome::Fail(LexerErrors::UnexpectedCharacter('\''), (line, col)),
            consumed: 2,
            loc: (line, col),
        }
    } else if s.len() >= 3 && s[2] == '\'' {
        token_step(TokenTypeView::Literal(s.take(3)), 3, line, col)
    } else {
        LexStep {
            outcome: LexOutcome::Fail(LexerErrors::ExpectedCharacter('\''), (line, col + 1)),
            consumed: if s.len() >= 3 { 3 } else { 2 },
            loc: (line, col + 1),
        }
    }
}

/// The token that starts at the first character of `s`, which is not a blank.
pub open spec fn token_at(s: Seq<char>, line: int, col: int) -> LexStep {
    let c = s[0];
    if c == '.' {
        dot_step(s, line, col)
    } else if is_digit(c) {
        number_step(s, line, col)
    } else if is_ident_start(c) {
        word_step(s, line, col)
    } else if c == '"' {
        string_step(s, line, col)
    } else if c == '\'' {
        char_step(s, line, col)
    } else if single_char_token(c) is Some {
        token_step(single_char_token(c)->0, 1, line, col)
    } else if let Some((alone, with_equals)) = comparison_tokens(c) {
        if s.len() > 1 && s[1] == '=' {
            token_step(with_equals, 2, line, col)
        } else {
            token_step(alone, 1, line, col)
        }
    } else if c == '!' {
        if s.len() > 1 && s[1] == '=' {
            token_step(TokenTypeView::Operator(Operator::Boolean(Boolean::NotEqual)), 2, line, col)
        } else {
            LexStep {
                outcome: LexOutcome::Fail(LexerErrors::UnexpectedCharacter('!'), (line, col + 1)),
                consumed: 1,
                loc: (line, col + 1),
            }
        }
    } else {
        LexStep {
            outcome: LexOutcome::Fail(LexerErrors::UnexpectedCharacter(c), (line, col)),
            consumed: 0,
            loc: (line, col),
        }
    }
}

/// One step of the lexer on the unread characters `s` from (`line`, `col`):
/// the leading blanks are read, then the token after them.
pub open spec fn lex_step(s: Seq<char>, line: int, col: int) -> LexStep {
    let b = blank_run(s) as int;
    let (l, c) = after_blanks(s, line, col);
    if b == s.len() {
        LexStep { outcome: LexOutcome::Done, consumed: b, loc: (l, c) }
    } else {
        let st = token_at(s.skip(b), l, c);
        LexStep { outcome: st.outcome, consumed: b + st.consumed, loc: st.loc }
    }
}

/// How a reserved word is written.
pub open spec fn keyword_text(k: Keyword) -> Seq<char> {
    match k {
        Keyword::Function => seq!['f', 'n'],
        Keyword::Variable => seq!['v', 'r'],
        Keyword::Return => seq!['r', 't'],
        Keyword::Structure => seq!['s', 't'],
        Keyword::If => seq!['i', 'f'],
        Keyword::ElseIf => seq!['e', 'f'],
        Keyword::Else => seq!['e', 'l'],
        Keyword::While => seq!['w', 'l'],
    }
}

/// How an operator is written.
pub open spec fn operator_text(o: Operator) -> Seq<char> {
    match o {
        Operator::Arithmetic(Arithmetic::Add) => seq!['+'],
        Operator::Arithmetic(Arithmetic::Subtract) => seq!['-'],
        Operator::Arithmetic(Arithmetic::Multiply) => seq!['*'],
        Operator::Arithmetic(Arithmetic::Divide) => seq!['/'],
        Operator::Arithmetic(Arithmetic::Modulo) => seq!['%'],
        Operator::Boolean(Boolean::Equal) => seq!['=', '='],
        Operator::Boolean(Boolean::NotEqual) => seq!['!', '='],
        Operator::Boolean(Boolean::Less) => seq!['<'],
        Operator::Boolean(Boolean::LessOrEqual) => seq!['<', '='],
        Operator::Boolean(Boolean::More) => seq!['>'],
        Operator::Boolean(Boolean::MoreOrEqual) => seq!['>', '='],
    }
}

/// How a token is written in the source: a literal or an identifier by its
/// text, any other token by its spelling.
pub open spec fn token_text(t: TokenTypeView) -> Seq<char> {
    match t {
        TokenTypeView::Literal(text) => text,
        TokenTypeView::Identifier(text) => text,
        TokenTypeView::Keyword(k) => keyword_text(k),
        TokenTypeView::Operator(o) => operator_text(o),
        TokenTypeView::Semicolon => seq![';'],
        TokenTypeView::Colon => seq![':'],
        TokenTypeView::OpeningParenthesis => seq!['('],
        TokenTypeView::ClosingParenthesis => seq![')'],
        TokenTypeView::OpeningBrace => seq!['{'],
        TokenTypeView::ClosingBrace => seq!['}'],
        TokenTypeView::Equals => seq!['='],
        TokenTypeView::Comma => seq![','],
        TokenTypeView::Dot => seq!['.'],
    }
}

/// `s` is the tokens `ts` written out: blanks, the text of the first token,
/// then the rest written out the same way; with no token left, blanks alone.
pub open spec fn spelled(s: Seq<char>, ts: Seq<TokenTypeView>) -> bool
    decreases ts.len(),
{
    if ts.len() == 0 {
        forall|i: int| 0 <= i < s.len() ==> is_blank(#[trigger] s[i])
    } else {
        let b = blank_run(s) as int;
        let w = token_text(ts[0]);
        &&& b + w.len() <= s.len()
        &&& s.subrange(b, b + w.len()) == w
        &&& spelled(s.skip(b + w.len()), ts.drop_first())
    }
}

} // verus!
