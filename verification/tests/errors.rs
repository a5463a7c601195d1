use nilang::errors::{
    format_error_message, highlight_with_context, CodeLocation, GeneratorErrors, LexerErrors,
    NilangError, NilangErrorKind, ParserErrors, TransformerErrors,
};
use nilang::types::nodes::Type;
use nilang::types::tokens::TokenType;

fn red(s: &str) -> String {
    format!("\x1b[31m{}\x1b[0m", s)
}

fn red_underline(s: &str) -> String {
    format!("\x1b[4;31m{}\x1b[0m", s)
}

#[test]
fn lexer_messages() {
    assert_eq!(LexerErrors::UnexpectedCharacter('#').message(), "Unxpected character '#'");
    assert_eq!(LexerErrors::ExpectedCharacter('"').message(), "Expected character '\"'");
    assert_eq!(LexerErrors::UnexpectedEndOfFile.message(), "Unexpected end of file");
}

#[test]
fn parser_messages() {
    assert_eq!(ParserErrors::EndOfInput.message(), "Unexpected end of input");
    assert_eq!(ParserErrors::UnexpectedToken(TokenType::Comma).message(), "Unexpected token comma");
    assert_eq!(
        ParserErrors::ExpectedTokens(vec![TokenType::Semicolon, TokenType::Identifier("x".into()), TokenType::Dot]).message(),
        "Expected semicolon or identifier or dot"
    );
    assert_eq!(ParserErrors::ExpectedTokens(vec![]).message(), "Expected ");
    assert_eq!(ParserErrors::DuplicateField("f".into()).message(), "Duplicate field `f`");
    assert_eq!(ParserErrors::InvalidLiteral.message(), "Invalid literal");
}

#[test]
fn generator_messages() {
    let e = GeneratorErrors::InvalidType { expected: "int".into(), received: "char".into() };
    assert_eq!(e.text(), "Invalid type: expected `int`, received `char`");
    let m = e.message();
    assert!(m == e.text() || m == red(&e.text()));
    assert_eq!(GeneratorErrors::VariableNotDefined { name: "a".into() }.text(), "Variable `a` does not exist");
}

#[test]
fn transformer_messages() {
    assert_eq!(
        TransformerErrors::TypeMismatch { expected: Type::Int, found: Type::Object("P".into()) }.text(),
        "Type mismatch: expected `int`, found `P`"
    );
    assert_eq!(
        TransformerErrors::FunctionCallArgumentsMismatch { name: "f".into(), expected: 2, got: 10 }.text(),
        "Function call arguments mismatch: `f` expected `2`, got `10`"
    );
    assert_eq!(
        TransformerErrors::FieldsMismatch { expected: vec!["a".into(), "b".into()], found: vec!["c".into()] }.text(),
        "Fields mismatch: expected `a, b`, found `c`"
    );
    let e = TransformerErrors::TypeNotFound("T".into());
    assert!(e.message() == "Type not found: `T`" || e.message() == red("Type not found: `T`"));
}

#[test]
fn error_first_line() {
    let kind = NilangErrorKind::LexerError(LexerErrors::UnexpectedEndOfFile);
    assert_eq!(kind.message(), "Lexer: Unexpected end of file");
    let m = format_error_message(CodeLocation::range(3, 1, 12, 0), &kind);
    assert!(m == "[3:12] Lexer: Unexpected end of file" || m == red("[3:12] Lexer: Unexpected end of file"));
    let e = NilangError { location: CodeLocation::at(0, 0), error: NilangErrorKind::ParserError(ParserErrors::InvalidOperand) };
    assert!(e.message() == "[0:0] Parser: Invalid operand" || e.message() == red("[0:0] Parser: Invalid operand"));
}

#[test]
fn highlight_one_character() {
    let code = "line0\nline1\nline2\nline3";
    let h = highlight_with_context(code, CodeLocation::at(1, 2));
    let with = |mark: String| format!("   1 | line0\n   2 | li{}e1\n   3 | line2\n   4 | line3", mark);
    assert!(h == with("n".to_string()) || h == with(red_underline("n")));
}

#[test]
fn highlight_counts_marked_lines_from_the_first_shown() {
    let code = (0..10).map(|i| format!("l{}", i)).collect::<Vec<_>>().join("\n");
    let h = highlight_with_context(&code, CodeLocation::at(5, 0));
    let with = |mark: String| format!("   3 | l2\n   4 | l3\n   5 | l4\n   6 | l5\n   7 | l6\n   8 | {}7", mark);
    assert!(h == with("l".to_string()) || h == with(red_underline("l")));
}

#[test]
fn highlight_past_the_end() {
    assert_eq!(highlight_with_context("a\nb", CodeLocation::at(9, 0)), "");
}

#[test]
fn full_report() {
    let e = NilangError { location: CodeLocation::at(0, 0), error: NilangErrorKind::LexerError(LexerErrors::UnexpectedCharacter('#')) };
    let r = e.format_error("#");
    let plain = "[0:0] Lexer: Unxpected character '#'\n   1 | #".to_string();
    let painted = format!("{}\n   1 | {}", red("[0:0] Lexer: Unxpected character '#'"), red_underline("#"));
    assert!(r == plain || r == painted);
}

#[test]
fn colour_when_forced() {
    colored::control::set_override(true);
    let e = GeneratorErrors::FieldNotDefined { name: "x".into() };
    assert_eq!(e.message(), red("Field `x` not defined"));
    let h = highlight_with_context("ab", CodeLocation::at(0, 1));
    assert_eq!(h, format!("   1 | a{}", red_underline("b")));
    let nested = TransformerErrors::FunctionNotFound("\x1b[0m".into());
    assert_eq!(nested.message(), "\x1b[31mFunction not found: `\x1b[0m\x1b[31m`\x1b[0m");
}

#[test]
fn errors_become_kinds() {
    assert_eq!(
        NilangErrorKind::from(LexerErrors::UnexpectedEndOfFile),
        NilangErrorKind::LexerError(LexerErrors::UnexpectedEndOfFile)
    );
    assert_eq!(
        NilangErrorKind::from(ParserErrors::EmptyParenthesis),
        NilangErrorKind::ParserError(ParserErrors::EmptyParenthesis)
    );
    assert_eq!(LexerErrors::ExpectedCharacter('x').into_kind(), NilangErrorKind::LexerError(LexerErrors::ExpectedCharacter('x')));
    assert_eq!(CodeLocation::at(2, 5), CodeLocation::range(2, 5, 2, 5));
}
