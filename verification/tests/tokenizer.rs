use nilang::errors::{CodeLocation, LexerErrors, NilangErrorKind};
use nilang::lexer::lex;
use nilang::lexer::tokenizer::Tokenizer;
use nilang::types::nodes::expressions::{Arithmetic, Boolean, Operator};
use nilang::types::tokens::{Keyword, Token, TokenType};

fn tok(token: TokenType, start: (usize, usize), end: (usize, usize)) -> Token {
    Token { token, start, end }
}

#[test]
fn test_tokenizer() {
    let mut iter = Tokenizer::new("5 + 4");

    assert_eq!(iter.next().unwrap().unwrap(), tok(TokenType::Literal("5".into()), (0, 0), (0, 0)));
    assert_eq!(
        iter.next().unwrap().unwrap(),
        tok(TokenType::Operator(Operator::Arithmetic(Arithmetic::Add)), (0, 2), (0, 2))
    );
    assert_eq!(iter.next().unwrap().unwrap(), tok(TokenType::Literal("4".into()), (0, 4), (0, 4)));

    let mut iter = Tokenizer::new("test(123)");

    assert_eq!(iter.next().unwrap().unwrap(), tok(TokenType::Identifier("test".into()), (0, 0), (0, 3)));
    assert_eq!(iter.next().unwrap().unwrap(), tok(TokenType::OpeningParenthesis, (0, 4), (0, 4)));
    assert_eq!(iter.next().unwrap().unwrap(), tok(TokenType::Literal("123".into()), (0, 5), (0, 7)));
    assert_eq!(iter.next().unwrap().unwrap(), tok(TokenType::ClosingParenthesis, (0, 8), (0, 8)));

    let mut iter = Tokenizer::new("fn test(abc) {\n    rt abc + 5;\n}");

    assert_eq!(iter.next().unwrap().unwrap(), tok(TokenType::Keyword(Keyword::Function), (0, 0), (0, 1)));
    assert_eq!(iter.next().unwrap().unwrap(), tok(TokenType::Identifier("test".into()), (0, 3), (0, 6)));
    assert_eq!(iter.next().unwrap().unwrap(), tok(TokenType::OpeningParenthesis, (0, 7), (0, 7)));
    assert_eq!(iter.next().unwrap().unwrap(), tok(TokenType::Identifier("abc".into()), (0, 8), (0, 10)));
    assert_eq!(iter.next().unwrap().unwrap(), tok(TokenType::ClosingParenthesis, (0, 11), (0, 11)));
    assert_eq!(iter.next().unwrap().unwrap(), tok(TokenType::OpeningBrace, (0, 13), (0, 13)));
    assert_eq!(iter.next().unwrap().unwrap(), tok(TokenType::Keyword(Keyword::Return), (1, 4), (1, 5)));
    assert_eq!(iter.next().unwrap().unwrap(), tok(TokenType::Identifier("abc".into()), (1, 7), (1, 9)));
    assert_eq!(
        iter.next().unwrap().unwrap(),
        tok(TokenType::Operator(Operator::Arithmetic(Arithmetic::Add)), (1, 11), (1, 11))
    );
    assert_eq!(iter.next().unwrap().unwrap(), tok(TokenType::Literal("5".into()), (1, 13), (1, 13)));
    assert_eq!(iter.next().unwrap().unwrap(), tok(TokenType::Semicolon, (1, 14), (1, 14)));
    assert_eq!(iter.next().unwrap().unwrap(), tok(TokenType::ClosingBrace, (2, 0), (2, 0)));
}

#[test]
fn test_tokenizer_literals() {
    let mut iter = Tokenizer::new("true");
    assert_eq!(iter.next().unwrap().unwrap(), tok(TokenType::Literal("true".into()), (0, 0), (0, 3)));

    let mut iter = Tokenizer::new("false");
    assert_eq!(iter.next().unwrap().unwrap(), tok(TokenType::Literal("false".into()), (0, 0), (0, 4)));

    let mut iter = Tokenizer::new("5");
    assert_eq!(iter.next().unwrap().unwrap(), tok(TokenType::Literal("5".into()), (0, 0), (0, 0)));

    let mut iter = Tokenizer::new("5.5");
    assert_eq!(iter.next().unwrap().unwrap(), tok(TokenType::Literal("5.5".into()), (0, 0), (0, 2)));

    let mut iter = Tokenizer::new("'t'");
    assert_eq!(iter.next().unwrap().unwrap(), tok(TokenType::Literal("'t'".into()), (0, 0), (0, 2)));

    let mut iter = Tokenizer::new("\"test\"");
    assert_eq!(iter.next().unwrap().unwrap(), tok(TokenType::Literal("\"test\"".into()), (0, 0), (0, 5)));
}

#[test]
fn identifier() {
    assert_eq!(lex("main").next().unwrap().unwrap().token, TokenType::Identifier("main".into()));
    assert_eq!(lex("fn8").next().unwrap().unwrap().token, TokenType::Identifier("fn8".into()));
    assert_eq!(lex("_rt").next().unwrap().unwrap().token, TokenType::Identifier("_rt".into()));
    assert_eq!(
        lex("v33ry__C0mpL3x").next().unwrap().unwrap().token,
        TokenType::Identifier("v33ry__C0mpL3x".into())
    );
    assert_eq!(lex("ClassName").next().unwrap().unwrap().token, TokenType::Identifier("ClassName".into()));
}

#[test]
fn keyword() {
    assert_eq!(lex("fn").next().unwrap().unwrap(), tok(TokenType::Keyword(Keyword::Function), (0, 0), (0, 1)));
    assert_eq!(lex("rt").next().unwrap().unwrap(), tok(TokenType::Keyword(Keyword::Return), (0, 0), (0, 1)));
    assert_eq!(lex("vr").next().unwrap().unwrap(), tok(TokenType::Keyword(Keyword::Variable), (0, 0), (0, 1)));
    assert_eq!(lex("if").next().unwrap().unwrap(), tok(TokenType::Keyword(Keyword::If), (0, 0), (0, 1)));
    assert_eq!(lex("el").next().unwrap().unwrap(), tok(TokenType::Keyword(Keyword::Else), (0, 0), (0, 1)));
}

#[test]
fn literal() {
    assert_eq!(lex("5  ").next().unwrap().unwrap().token, TokenType::Literal("5".into()));
    assert_eq!(lex("4.  ").next().unwrap().unwrap().token, TokenType::Literal("4.".into()));
    assert_eq!(lex(".9").next().unwrap().unwrap().token, TokenType::Literal(".9".into()));
    assert_eq!(lex("3.7").next().unwrap().unwrap().token, TokenType::Literal("3.7".into()));
}

#[test]
fn operation() {
    let mut iter = lex("5+4");

    assert_eq!(iter.next().unwrap().unwrap(), tok(TokenType::Literal("5".into()), (0, 0), (0, 0)));
    assert_eq!(
        iter.next().unwrap().unwrap(),
        tok(TokenType::Operator(Operator::Arithmetic(Arithmetic::Add)), (0, 1), (0, 1))
    );
    assert_eq!(iter.next().unwrap().unwrap(), tok(TokenType::Literal("4".into()), (0, 2), (0, 2)));

    let mut iter = lex("5.5 * 8");

    assert_eq!(iter.next().unwrap().unwrap(), tok(TokenType::Literal("5.5".into()), (0, 0), (0, 2)));
    assert_eq!(
        iter.next().unwrap().unwrap(),
        tok(TokenType::Operator(Operator::Arithmetic(Arithmetic::Multiply)), (0, 4), (0, 4))
    );
    assert_eq!(iter.next().unwrap().unwrap(), tok(TokenType::Literal("8".into()), (0, 6), (0, 6)));
}

#[test]
fn arithmetic_operator() {
    assert_eq!(
        lex("  +").next().unwrap().unwrap(),
        tok(TokenType::Operator(Operator::Arithmetic(Arithmetic::Add)), (0, 2), (0, 2))
    );
    assert_eq!(
        lex(" - ").next().unwrap().unwrap(),
        tok(TokenType::Operator(Operator::Arithmetic(Arithmetic::Subtract)), (0, 1), (0, 1))
    );
    assert_eq!(
        lex("*").next().unwrap().unwrap(),
        tok(TokenType::Operator(Operator::Arithmetic(Arithmetic::Multiply)), (0, 0), (0, 0))
    );
    assert_eq!(
        lex("/").next().unwrap().unwrap(),
        tok(TokenType::Operator(Operator::Arithmetic(Arithmetic::Divide)), (0, 0), (0, 0))
    );
    assert_eq!(
        lex("%").next().unwrap().unwrap(),
        tok(TokenType::Operator(Operator::Arithmetic(Arithmetic::Modulo)), (0, 0), (0, 0))
    );
}

#[test]
fn boolean_operator() {
    assert_eq!(
        lex("==").next().unwrap().unwrap(),
        tok(TokenType::Operator(Operator::Boolean(Boolean::Equal)), (0, 0), (0, 1))
    );
    assert_eq!(
        lex("!=").next().unwrap().unwrap(),
        tok(TokenType::Operator(Operator::Boolean(Boolean::NotEqual)), (0, 0), (0, 1))
    );
    assert_eq!(
        lex("<").next().unwrap().unwrap(),
        tok(TokenType::Operator(Operator::Boolean(Boolean::Less)), (0, 0), (0, 0))
    );
    assert_eq!(
        lex(">").next().unwrap().unwrap(),
        tok(TokenType::Operator(Operator::Boolean(Boolean::More)), (0, 0), (0, 0))
    );
    assert_eq!(
        lex("<=").next().unwrap().unwrap(),
        tok(TokenType::Operator(Operator::Boolean(Boolean::LessOrEqual)), (0, 0), (0, 1))
    );
    assert_eq!(
        lex(">=").next().unwrap().unwrap(),
        tok(TokenType::Operator(Operator::Boolean(Boolean::MoreOrEqual)), (0, 0), (0, 1))
    );
}

#[test]
fn special_character() {
    let mut iter = lex(" (5)");
    assert_eq!(iter.next().unwrap().unwrap().token, TokenType::OpeningParenthesis);
    assert_eq!(iter.next().unwrap().unwrap().token, TokenType::Literal("5".into()));
    assert_eq!(iter.next().unwrap().unwrap().token, TokenType::ClosingParenthesis);

    let mut iter = lex("(5 + 4)");
    assert_eq!(iter.next().unwrap().unwrap().token, TokenType::OpeningParenthesis);
    assert_eq!(iter.next().unwrap().unwrap().token, TokenType::Literal("5".into()));
    assert_eq!(iter.next().unwrap().unwrap().token, TokenType::Operator(Operator::Arithmetic(Arithmetic::Add)));
    assert_eq!(iter.next().unwrap().unwrap().token, TokenType::Literal("4".into()));
    assert_eq!(iter.next().unwrap().unwrap().token, TokenType::ClosingParenthesis);

    let mut iter = lex("a = b");
    assert_eq!(iter.next().unwrap().unwrap().token, TokenType::Identifier("a".into()));
    assert_eq!(iter.next().unwrap().unwrap().token, TokenType::Equals);
    assert_eq!(iter.next().unwrap().unwrap().token, TokenType::Identifier("b".into()));

    let mut iter = lex("a: b");
    assert_eq!(iter.next().unwrap().unwrap().token, TokenType::Identifier("a".into()));
    assert_eq!(iter.next().unwrap().unwrap().token, TokenType::Colon);
    assert_eq!(iter.next().unwrap().unwrap().token, TokenType::Identifier("b".into()));
}

#[test]
fn convert_whitespace() {
    let mut iter = lex(" \n\t \t\t\n   \n\t \t\t\n ");
    assert!(iter.next().is_none());
}

#[test]
fn end_of_input_is_reported_again() {
    let mut iter = lex("a");
    assert!(iter.next().unwrap().is_ok());
    assert!(iter.next().is_none());
    assert!(iter.next().is_none());
}

#[test]
fn number_stops_at_second_dot() {
    let mut iter = lex("1.2.3");
    assert_eq!(iter.next().unwrap().unwrap(), tok(TokenType::Literal("1.2".into()), (0, 0), (0, 2)));
    assert_eq!(iter.next().unwrap().unwrap(), tok(TokenType::Literal(".3".into()), (0, 2), (0, 3)));
}

#[test]
fn lone_dot_is_a_dot() {
    let mut iter = lex("a.b");
    assert_eq!(iter.next().unwrap().unwrap().token, TokenType::Identifier("a".into()));
    assert_eq!(iter.next().unwrap().unwrap(), tok(TokenType::Dot, (0, 1), (0, 1)));
}

#[test]
fn lexer_errors() {
    let e = lex("#").next().unwrap().unwrap_err();
    assert_eq!(e.location, CodeLocation::at(0, 0));
    assert_eq!(e.error, NilangErrorKind::LexerError(LexerErrors::UnexpectedCharacter('#')));

    let e = lex("\"abc").next().unwrap().unwrap_err();
    assert_eq!(e.location, CodeLocation::at(0, 3));
    assert_eq!(e.error, NilangErrorKind::LexerError(LexerErrors::ExpectedCharacter('"')));

    let e = lex("'").next().unwrap().unwrap_err();
    assert_eq!(e.error, NilangErrorKind::LexerError(LexerErrors::UnexpectedEndOfFile));

    let e = lex("''").next().unwrap().unwrap_err();
    assert_eq!(e.error, NilangErrorKind::LexerError(LexerErrors::UnexpectedCharacter('\'')));

    let e = lex("'ab'").next().unwrap().unwrap_err();
    assert_eq!(e.location, CodeLocation::at(0, 1));
    assert_eq!(e.error, NilangErrorKind::LexerError(LexerErrors::ExpectedCharacter('\'')));

    let e = lex("!").next().unwrap().unwrap_err();
    assert_eq!(e.location, CodeLocation::at(0, 1));
    assert_eq!(e.error, NilangErrorKind::LexerError(LexerErrors::UnexpectedCharacter('!')));
}

#[test]
fn tabs_count_four_columns() {
    let mut iter = lex("\tx");
    assert_eq!(iter.next().unwrap().unwrap(), tok(TokenType::Identifier("x".into()), (0, 4), (0, 4)));
}

fn written(t: &TokenType) -> String {
    match t {
        TokenType::Literal(s) | TokenType::Identifier(s) => s.to_string(),
        TokenType::Keyword(k) => match k {
            Keyword::Function => "fn",
            Keyword::Variable => "vr",
            Keyword::Return => "rt",
            Keyword::Structure => "st",
            Keyword::If => "if",
            Keyword::ElseIf => "ef",
            Keyword::Else => "el",
            Keyword::While => "wl",
        }
        .to_string(),
        TokenType::Operator(o) => match o {
            Operator::Arithmetic(Arithmetic::Add) => "+",
            Operator::Arithmetic(Arithmetic::Subtract) => "-",
            Operator::Arithmetic(Arithmetic::Multiply) => "*",
            Operator::Arithmetic(Arithmetic::Divide) => "/",
            Operator::Arithmetic(Arithmetic::Modulo) => "%",
            Operator::Boolean(Boolean::Equal) => "==",
            Operator::Boolean(Boolean::NotEqual) => "!=",
            Operator::Boolean(Boolean::Less) => "<",
            Operator::Boolean(Boolean::LessOrEqual) => "<=",
            Operator::Boolean(Boolean::More) => ">",
            Operator::Boolean(Boolean::MoreOrEqual) => ">=",
        }
        .to_string(),
        TokenType::Semicolon => ";".to_string(),
        TokenType::Colon => ":".to_string(),
        TokenType::OpeningParenthesis => "(".to_string(),
        TokenType::ClosingParenthesis => ")".to_string(),
        TokenType::OpeningBrace => "{".to_string(),
        TokenType::ClosingBrace => "}".to_string(),
        TokenType::Equals => "=".to_string(),
        TokenType::Comma => ",".to_string(),
        TokenType::Dot => ".".to_string(),
    }
}

#[test]
fn tokens_spell_the_input() {
    let input = "fn main(a: int) {\n\tvr s = \"hi there\";\n  wl a <= 10.5 { a = a + 1; }\n  rt a != 'c' == true;\n}\n";
    let mut iter = Tokenizer::new(input);
    let mut text = String::new();
    while let Some(t) = iter.next() {
        text.push_str(&written(&t.unwrap().token));
    }
    let mut rest = input;
    let mut pieces = Vec::new();
    let mut iter = Tokenizer::new(input);
    while let Some(t) = iter.next() {
        let w = written(&t.unwrap().token);
        rest = rest.trim_start_matches([' ', '\t', '\n']);
        assert!(rest.starts_with(&w), "{:?} does not start with {:?}", rest, w);
        rest = &rest[w.len()..];
        pieces.push(w);
    }
    assert!(rest.chars().all(|c| c == ' ' || c == '\t' || c == '\n'));
    assert_eq!(text, pieces.concat());
}
