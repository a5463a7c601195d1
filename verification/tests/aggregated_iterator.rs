use nilang::lexer::aggregated_iterator::{AggregatedIterator, AggregatedLexerError};
use nilang::types::nodes::expressions::{Arithmetic, Operator};
use nilang::types::tokens::{Keyword, Token, TokenType};

fn tok(token: TokenType, start: (usize, usize), end: (usize, usize)) -> Token {
    Token { token, start, end }
}

#[test]
fn test_aggregated_iterator() {
    let mut iter = AggregatedIterator::new("5 + 4");

    assert_eq!(iter.next().unwrap().unwrap(), tok(TokenType::Literal("5".into()), (0, 0), (0, 0)));
    assert_eq!(
        iter.next().unwrap().unwrap(),
        tok(TokenType::Operator(Operator::Arithmetic(Arithmetic::Add)), (0, 2), (0, 2))
    );
    assert_eq!(iter.next().unwrap().unwrap(), tok(TokenType::Literal("4".into()), (0, 4), (0, 4)));

    let mut iter = AggregatedIterator::new("test(123)");

    assert_eq!(iter.next().unwrap().unwrap(), tok(TokenType::Identifier("test".into()), (0, 0), (0, 3)));
    assert_eq!(iter.next().unwrap().unwrap(), tok(TokenType::OpeningParenthesis, (0, 4), (0, 4)));
    assert_eq!(iter.next().unwrap().unwrap(), tok(TokenType::Literal("123".into()), (0, 5), (0, 7)));
    assert_eq!(iter.next().unwrap().unwrap(), tok(TokenType::ClosingParenthesis, (0, 8), (0, 8)));

    let mut iter = AggregatedIterator::new("fn test(abc) {\n    rt abc + 5;\n}");

    assert_eq!(iter.next().unwrap().unwrap(), tok(TokenType::Keyword(Keyword::Function), (0, 0), (0, 1)));
    assert_eq!(iter.next().unwrap().unwrap(), tok(TokenType::Identifier("test".into()), (0, 3), (0, 6)));
    assert_eq!(iter.next().unwrap().unwrap(), tok(TokenType::OpeningParenthesis, (0, 7), (0, 7)));
    assert_eq!(iter.next().unwrap().unwrap(), tok(TokenType::Identifier("abc".into()), (0, 8), (0, 10)));
    assert_eq!(iter.next().unwrap().unwrap(), tok(TokenType::ClosingParenthesis, (0, 11), (0, 11)));
    assert_eq!(iter.next().unwrap().unwrap(), tok(TokenType::OpeningBrace, (0, 13), (0, 13)));
    assert_eq!(iter.next().unwrap().unwrap(), tok(TokenType::Keyword(Keyword::Return), (1, 4), (1, 5)));
    assert_eq!(iter.next().unwrap().unwrap(), tok(TokenType::Identifier("abc".into()), (1, 7), (1, 9)));
    assert_eq!(
        iter.next().unwrap().unwrap(),
        tok(TokenType::Operator(Operator::Arithmetic(Arithmetic::Add)), (1, 11), (1, 11))
    );
    assert_eq!(iter.next().unwrap().unwrap(), tok(TokenType::Literal("5".into()), (1, 13), (1, 13)));
    assert_eq!(iter.next().unwrap().unwrap(), tok(TokenType::Semicolon, (1, 14), (1, 14)));
    assert_eq!(iter.next().unwrap().unwrap(), tok(TokenType::ClosingBrace, (2, 0), (2, 0)));
}

#[test]
fn aggregated_unknown_character_is_reported_again() {
    let mut iter = AggregatedIterator::new("a #");
    assert_eq!(iter.next().unwrap().unwrap().token, TokenType::Identifier("a".into()));
    let e = iter.next().unwrap().unwrap_err();
    assert_eq!(e, AggregatedLexerError::UnexpectedCharacter { char: '#', loc: (0, 2) });
    let again = iter.next().unwrap().unwrap_err();
    assert_eq!(again, AggregatedLexerError::UnexpectedCharacter { char: '#', loc: (0, 2) });
}

#[test]
fn aggregated_words_and_symbols() {
    let mut iter = AggregatedIterator::new("vr st = .5, true;");
    assert_eq!(iter.next().unwrap().unwrap().token, TokenType::Keyword(Keyword::Variable));
    assert_eq!(iter.next().unwrap().unwrap().token, TokenType::Identifier("st".into()));
    assert_eq!(iter.next().unwrap().unwrap().token, TokenType::Equals);
    assert_eq!(iter.next().unwrap().unwrap(), tok(TokenType::Literal(".5".into()), (0, 8), (0, 9)));
    assert_eq!(iter.next().unwrap().unwrap().token, TokenType::Comma);
    assert_eq!(iter.next().unwrap().unwrap().token, TokenType::Identifier("true".into()));
    assert_eq!(iter.next().unwrap().unwrap().token, TokenType::Semicolon);
    assert!(iter.next().is_none());
}
