use nilang::lexer::tokens::{convert, Token, TokenType};

fn t(token: TokenType, value: &str, start: usize, end: usize) -> Token {
    Token { token, value: value.to_string(), start, end }
}

#[test]
fn convert_literals_convert_keywords() {
    assert_eq!(convert("main"), vec![t(TokenType::Literal, "main", 0, 3)]);
    assert_eq!(convert("fn8"), vec![t(TokenType::Literal, "fn8", 0, 2)]);
    assert_eq!(convert("_rt"), vec![t(TokenType::Literal, "_rt", 0, 2)]);
    assert_eq!(convert("v33ry__C0mpL3x"), vec![t(TokenType::Literal, "v33ry__C0mpL3x", 0, 13)]);
    assert_eq!(convert("ClassName"), vec![t(TokenType::Literal, "ClassName", 0, 8)]);
}

#[test]
fn convert_numbers() {
    assert_eq!(convert("5  "), vec![t(TokenType::Number, "5", 0, 0)]);
    assert_eq!(convert("4.  "), vec![t(TokenType::Number, "4.", 0, 1)]);
    assert_eq!(convert(".9"), vec![t(TokenType::Number, ".9", 0, 1)]);
    assert_eq!(convert("3.7"), vec![t(TokenType::Number, "3.7", 0, 2)]);
}

#[test]
fn convert_operations() {
    assert_eq!(
        convert("5+4"),
        vec![t(TokenType::Number, "5", 0, 0), t(TokenType::Operator, "+", 1, 1), t(TokenType::Number, "4", 2, 2)]
    );
    assert_eq!(
        convert("5.5 * 8"),
        vec![t(TokenType::Number, "5.5", 0, 2), t(TokenType::Operator, "*", 4, 4), t(TokenType::Number, "8", 6, 6)]
    );
}

#[test]
fn convert_keywords_convert_keywords() {
    assert_eq!(convert("fn"), vec![t(TokenType::Keyword, "fn", 0, 1)]);
    assert_eq!(convert("rt"), vec![t(TokenType::Keyword, "rt", 0, 1)]);
}

#[test]
fn lex_keywords_lex_keywords() {
    assert_eq!(&convert("fn"), &[t(TokenType::Keyword, "fn", 0, 1)]);
    assert_eq!(&convert("rt"), &[t(TokenType::Keyword, "rt", 0, 1)]);
    assert_eq!(&convert("vr"), &[t(TokenType::Keyword, "vr", 0, 1)]);
}

#[test]
fn convert_parentheses() {
    assert_eq!(
        convert(" (5)"),
        vec![
            t(TokenType::OpeningParenthesis, "(", 1, 1),
            t(TokenType::Number, "5", 2, 2),
            t(TokenType::ClosingParenthesis, ")", 3, 3),
        ]
    );
    assert_eq!(
        convert("(5 + 4)"),
        vec![
            t(TokenType::OpeningParenthesis, "(", 0, 0),
            t(TokenType::Number, "5", 1, 1),
            t(TokenType::Operator, "+", 3, 3),
            t(TokenType::Number, "4", 5, 5),
            t(TokenType::ClosingParenthesis, ")", 6, 6),
        ]
    );
}

#[test]
fn convert_whitespaces() {
    assert_eq!(convert(" \n\t \t\t\n   \n\t \t\t\n "), vec![]);
}

#[test]
fn convert_braces_and_unknown_characters() {
    assert_eq!(
        convert("{a#}"),
        vec![
            t(TokenType::OpeningBrace, "{", 0, 0),
            t(TokenType::Literal, "a", 1, 1),
            t(TokenType::ClosingBrace, "}", 3, 3),
        ]
    );
    assert_eq!(convert("1.2.3"), vec![t(TokenType::Number, "1.2.3", 0, 4)]);
}
