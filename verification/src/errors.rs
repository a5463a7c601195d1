use vstd::prelude::*;

use crate::paint::{paint_red, paint_red_underline, painted, red_style, red_underline_style};
use crate::text::{
    chars_of, decimal, decimal_text, join, join_strings, lines, lines_spec, pad_left, padded_left,
    push_char, substring, views_of,
};
use crate::types::nodes::Type;
use crate::types::tokens::{TokenType, TokenTypeView};

verus! {

/// A span of source code: first line, first column, last line, last column.
#[derive(Debug, Clone, Copy, PartialEq, Eq, Structural)]
pub struct CodeLocation(pub usize, pub usize, pub usize, pub usize);

impl CodeLocation {
    /// The location of a single character.
    pub fn at(line: usize, char: usize) -> (r: Self)
        ensures
            r == CodeLocation(line, char, line, char),
    {
        CodeLocation(line, char, line, char)
    }

    /// The location of a span from (`line_from`, `char_from`) to (`line_to`, `char_to`).
    pub fn range(line_from: usize, char_from: usize, line_to: usize, char_to: usize) -> (r: Self)
        ensures
            r == CodeLocation(line_from, char_from, line_to, char_to),
    {
        CodeLocation(line_from, char_from, line_to, char_to)
    }
}

/// What the lexer can fail on.
#[derive(Debug, Clone, Copy, PartialEq, Eq, Structural)]
pub enum LexerErrors {
    UnexpectedCharacter(char),
    ExpectedCharacter(char),
    UnexpectedEndOfFile,
}

/// What the parser can fail on.
#[derive(Debug, Clone, PartialEq)]
pub enum ParserErrors {
    EndOfInput,
    UnexpectedToken(TokenType),
    ExpectedTokens(Vec<TokenType>),
    InvalidOperand,
    EmptyParenthesis,
    InvalidLiteral,
    DuplicateField(String),
}

/// What the code generator can fail on.
#[derive(Debug, PartialEq)]
pub enum GeneratorErrors {
    VariableAlreadyExists { name: String },
    VariableNotDefined { name: String },
    StructureNotDefined { name: String },
    FieldNotDefined { name: String },
    InvalidType { expected: String, received: String },
}

impl Clone for GeneratorErrors {
    fn clone(&self) -> (r: Self)
        ensures
            r == *self,
    {
        match self {
            GeneratorErrors::VariableAlreadyExists { name } => GeneratorErrors::VariableAlreadyExists {
                name: name.clone(),
            },
            GeneratorErrors::VariableNotDefined { name } => GeneratorErrors::VariableNotDefined {
                name: name.clone(),
            },
            GeneratorErrors::StructureNotDefined { name } => GeneratorErrors::StructureNotDefined {
                name: name.clone(),
            },
            GeneratorErrors::FieldNotDefined { name } => GeneratorErrors::FieldNotDefined {
                name: name.clone(),
            },
            GeneratorErrors::InvalidType { expected, received } => GeneratorErrors::InvalidType {
                expected: expected.clone(),
                received: received.clone(),
            },
        }
    }
}

/// `GeneratorErrors` with its names taken as sequences of characters.
pub enum GeneratorErrorsView {
    VariableAlreadyExists(Seq<char>),
    VariableNotDefined(Seq<char>),
    StructureNotDefined(Seq<char>),
    FieldNotDefined(Seq<char>),
    InvalidType(Seq<char>, Seq<char>),
}

impl View for GeneratorErrors {
    type V = GeneratorErrorsView;

    open spec fn view(&self) -> GeneratorErrorsView {
        match self {
            GeneratorErrors::VariableAlreadyExists { name } => GeneratorErrorsView::VariableAlreadyExists(name@),
            GeneratorErrors::VariableNotDefined { name } => GeneratorErrorsView::VariableNotDefined(name@),
            GeneratorErrors::StructureNotDefined { name } => GeneratorErrorsView::StructureNotDefined(name@),
            GeneratorErrors::FieldNotDefined { name } => GeneratorErrorsView::FieldNotDefined(name@),
            GeneratorErrors::InvalidType { expected, received } => GeneratorErrorsView::InvalidType(expected@, received@),
        }
    }
}

/// What the transformer can fail on.
#[derive(Debug, Clone, PartialEq)]
pub enum TransformerErrors {
    TypeMismatch { expected: Type, found: Type },
    FunctionNotFound(String),
    TypeNotFound(String),
    FunctionCallArgumentsMismatch { name: String, expected: usize, got: usize },
    FieldsMismatch { expected: Vec<String>, found: Vec<String> },
}

/// The error of one stage of the compiler.
#[derive(Debug, Clone, PartialEq)]
pub enum NilangErrorKind {
    LexerError(LexerErrors),
    ParserError(ParserErrors),
}

/// An error together with the place in the source code it is about.
#[derive(Debug, Clone, PartialEq)]
pub struct NilangError {
    pub location: CodeLocation,
    pub error: NilangErrorKind,
}

/// A lexer error as an error of the compiler.
impl From<LexerErrors> for NilangErrorKind {
    fn from(value: LexerErrors) -> (r: Self) {
        NilangErrorKind::LexerError(value)
    }
}

impl vstd::std_specs::convert::FromSpecImpl<LexerErrors> for NilangErrorKind {
    open spec fn obeys_from_spec() -> bool {
        true
    }

    open spec fn from_spec(value: LexerErrors) -> Self {
        NilangErrorKind::LexerError(value)
    }
}

/// A parser error as an error of the compiler.
impl From<ParserErrors> for NilangErrorKind {
    fn from(value: ParserErrors) -> (r: Self) {
        NilangErrorKind::ParserError(value)
    }
}

impl vstd::std_specs::convert::FromSpecImpl<ParserErrors> for NilangErrorKind {
    open spec fn obeys_from_spec() -> bool {
        true
    }

    open spec fn from_spec(value: ParserErrors) -> Self {
        NilangErrorKind::ParserError(value)
    }
}

impl LexerErrors {
    /// Wraps a lexer error into the error kind of the compiler.
    pub fn into_kind(self) -> (r: NilangErrorKind)
        ensures
            r == NilangErrorKind::LexerError(self),
    {
        NilangErrorKind::LexerError(self)
    }
}

impl ParserErrors {
    /// Wraps a parser error into the error kind of the compiler.
    pub fn into_kind(self) -> (r: NilangErrorKind)
        ensures
            r == NilangErrorKind::ParserError(self),
    {
        NilangErrorKind::ParserError(self)
    }
}

/// The message of a lexer error.
pub open spec fn lexer_message(e: LexerErrors) -> Seq<char> {
    match e {
        LexerErrors::UnexpectedCharacter(c) => "Unxpected character '"@ + seq![c] + "'"@,
        LexerErrors::ExpectedCharacter(c) => "Expected character '"@ + seq![c] + "'"@,
        LexerErrors::UnexpectedEndOfFile => "Unexpected end of file"@,
    }
}

impl LexerErrors {
    /// The message of the error.
    pub fn message(&self) -> (s: String)
        ensures
            s@ == lexer_message(*self),
    {
        match self {
            LexerErrors::UnexpectedCharacter(c) => {
                let mut s = String::from_str("Unxpected character '");
                push_char(&mut s, *c);
                s.append("'");
                s
            },
            LexerErrors::ExpectedCharacter(c) => {
                let mut s = String::from_str("Expected character '");
                push_char(&mut s, *c);
                s.append("'");
                s
            },
            LexerErrors::UnexpectedEndOfFile => String::from_str("Unexpected end of file"),
        }
    }
}

/// The name of a kind of token in messages.
pub open spec fn token_type_text(t: TokenTypeView) -> Seq<char> {
    match t {
        TokenTypeView::Semicolon => "semicolon"@,
        TokenTypeView::Colon => "colon"@,
        TokenTypeView::OpeningParenthesis => "opening parenthesis"@,
        TokenTypeView::ClosingParenthesis => "closing parenthesis"@,
        TokenTypeView::OpeningBrace => "opening brace"@,
        TokenTypeView::ClosingBrace => "closing brace"@,
        TokenTypeView::Literal(_) => "literal"@,
        TokenTypeView::Operator(_) => "operator"@,
        TokenTypeView::Identifier(_) => "identifier"@,
        TokenTypeView::Keyword(_) => "keyword"@,
        TokenTypeView::Equals => "equals"@,
        TokenTypeView::Comma => "comma"@,
        TokenTypeView::Dot => "dot"@,
    }
}

/// The name of a kind of token in messages.
pub fn token_type_to_str(token: &TokenType) -> (s: &'static str)
    ensures
        s@ == token_type_text(token@),
{
    match token {
        TokenType::Semicolon => "semicolon",
        TokenType::Colon => "colon",
        TokenType::OpeningParenthesis => "opening parenthesis",
        TokenType::ClosingParenthesis => "closing parenthesis",
        TokenType::OpeningBrace => "opening brace",
        TokenType::ClosingBrace => "closing brace",
        TokenType::Literal(_) => "literal",
        TokenType::Operator(_) => "operator",
        TokenType::Identifier(_) => "identifier",
        TokenType::Keyword(_) => "keyword",
        TokenType::Equals => "equals",
        TokenType::Comma => "comma",
        TokenType::Dot => "dot",
    }
}

/// The names of kinds of tokens.
pub open spec fn token_type_texts(v: Seq<TokenType>) -> Seq<Seq<char>> {
    v.map_values(|t: TokenType| token_type_text(t@))
}

/// The message of a parser error.
pub open spec fn parser_message(e: ParserErrors) -> Seq<char> {
    match e {
        ParserErrors::EndOfInput => "Unexpected end of input"@,
        ParserErrors::UnexpectedToken(t) => "Unexpected token "@ + token_type_text(t@),
        ParserErrors::ExpectedTokens(ts) => "Expected "@ + join(token_type_texts(ts@), " or "@),
        ParserErrors::InvalidOperand => "Invalid operand"@,
        ParserErrors::EmptyParenthesis => "Empty parenthesis"@,
        ParserErrors::InvalidLiteral => "Invalid literal"@,
        ParserErrors::DuplicateField(name) => "Duplicate field `"@ + name@ + "`"@,
    }
}

impl ParserErrors {
    /// The message of the error.
    pub fn message(&self) -> (s: String)
        ensures
            s@ == parser_message(*self),
    {
        match self {
            ParserErrors::EndOfInput => String::from_str("Unexpected end of input"),
            ParserErrors::UnexpectedToken(t) => {
                let mut s = String::from_str("Unexpected token ");
                s.append(token_type_to_str(t));
                s
            },
            ParserErrors::ExpectedTokens(ts) => {
                let mut names: Vec<String> = Vec::new();
                let mut i: usize = 0;
                while i < ts.len()
                    invariant
                        0 <= i <= ts.len(),
                        views_of(names@) == token_type_texts(ts@.take(i as int)),
                    decreases ts.len() - i,
                {
                    let ghost before = names@;
                    names.push(String::from_str(token_type_to_str(&ts[i])));
                    assert(views_of(names@) =~= views_of(before).push(token_type_text(ts@[i as int]@)));
                    assert(token_type_texts(ts@.take(i + 1)) =~= token_type_texts(ts@.take(i as int)).push(
                        token_type_text(ts@[i as int]@),
                    ));
                    i = i + 1;
                }
                assert(ts@.take(ts.len() as int) =~= ts@);
                let mut s = String::from_str("Expected ");
                s.append(join_strings(&names, " or ").as_str());
                s
            },
            ParserErrors::InvalidOperand => String::from_str("Invalid operand"),
            ParserErrors::EmptyParenthesis => String::from_str("Empty parenthesis"),
            ParserErrors::InvalidLiteral => String::from_str("Invalid literal"),
            ParserErrors::DuplicateField(name) => {
                let mut s = String::from_str("Duplicate field `");
                s.append(name.as_str());
                s.append("`");
                s
            },
        }
    }
}

/// The text of a code generator error.
pub open spec fn generator_text(e: GeneratorErrorsView) -> Seq<char> {
    match e {
        GeneratorErrorsView::VariableAlreadyExists(name) => "Variable `"@ + name + "` already exists"@,
        GeneratorErrorsView::VariableNotDefined(name) => "Variable `"@ + name + "` does not exist"@,
        GeneratorErrorsView::StructureNotDefined(name) => "Structure `"@ + name + "` not defined"@,
        GeneratorErrorsView::FieldNotDefined(name) => "Field `"@ + name + "` not defined"@,
        GeneratorErrorsView::InvalidType(expected, received) => "Invalid type: expected `"@ + expected
            + "`, received `"@ + received + "`"@,
    }
}

impl GeneratorErrors {
    /// The text of the error, without colour.
    pub fn text(&self) -> (s: String)
        ensures
            s@ == generator_text(self@),
    {
        match self {
            GeneratorErrors::VariableAlreadyExists { name } => {
                let mut s = String::from_str("Variable `");
                s.append(name.as_str());
                s.append("` already exists");
                s
            },
            GeneratorErrors::VariableNotDefined { name } => {
                let mut s = String::from_str("Variable `");
                s.append(name.as_str());
                s.append("` does not exist");
                s
            },
            GeneratorErrors::StructureNotDefined { name } => {
                let mut s = String::from_str("Structure `");
                s.append(name.as_str());
                s.append("` not defined");
                s
            },
            GeneratorErrors::FieldNotDefined { name } => {
                let mut s = String::from_str("Field `");
                s.append(name.as_str());
                s.append("` not defined");
                s
            },
            GeneratorErrors::InvalidType { expected, received } => {
                let mut s = String::from_str("Invalid type: expected `");
                s.append(expected.as_str());
                s.append("`, received `");
                s.append(received.as_str());
                s.append("`");
                s
            },
        }
    }

    /// The message of the error: its text in red, where the terminal shows
    /// colour.
    pub fn message(&self) -> (s: String)
        ensures
            s@ == generator_text(self@) || s@ == painted(generator_text(self@), red_style()),
    {
        let t = self.text();
        paint_red(t.as_str())
    }
}

/// The name of a type in messages.
pub open spec fn type_text(t: Type) -> Seq<char> {
    match t {
        Type::Int => "int"@,
        Type::Void => "void"@,
        Type::Char => "char"@,
        Type::String => "string"@,
        Type::Object(name) => name@,
    }
}

fn type_text_of(t: &Type) -> (s: String)
    ensures
        s@ == type_text(*t),
{
    match t {
        Type::Int => String::from_str("int"),
        Type::Void => String::from_str("void"),
        Type::Char => String::from_str("char"),
        Type::String => String::from_str("string"),
        Type::Object(name) => name.clone(),
    }
}

/// The text of a transformer error.
pub open spec fn transformer_text(e: TransformerErrors) -> Seq<char> {
    match e {
        TransformerErrors::TypeMismatch { expected, found } => "Type mismatch: expected `"@ + type_text(expected)
            + "`, found `"@ + type_text(found) + "`"@,
        TransformerErrors::FunctionNotFound(name) => "Function not found: `"@ + name@ + "`"@,
        TransformerErrors::TypeNotFound(name) => "Type not found: `"@ + name@ + "`"@,
        TransformerErrors::FunctionCallArgumentsMismatch { name, expected, got } =>
            "Function call arguments mismatch: `"@ + name@ + "` expected `"@ + decimal(expected as nat)
            + "`, got `"@ + decimal(got as nat) + "`"@,
        TransformerErrors::FieldsMismatch { expected, found } => "Fields mismatch: expected `"@ + join(
            views_of(expected@),
            ", "@,
        ) + "`, found `"@ + join(views_of(found@), ", "@) + "`"@,
    }
}

impl TransformerErrors {
    /// The text of the error, without colour.
    pub fn text(&self) -> (s: String)
        ensures
            s@ == transformer_text(*self),
    {
        match self {
            TransformerErrors::TypeMismatch { expected, found } => {
                let mut s = String::from_str("Type mismatch: expected `");
                s.append(type_text_of(expected).as_str());
                s.append("`, found `");
                s.append(type_text_of(found).as_str());
                s.append("`");
                s
            },
            TransformerErrors::FunctionNotFound(name) => {
                let mut s = String::from_str("Function not found: `");
                s.append(name.as_str());
                s.append("`");
                s
            },
            TransformerErrors::TypeNotFound(name) => {
                let mut s = String::from_str("Type not found: `");
                s.append(name.as_str());
                s.append("`");
                s
            },
            TransformerErrors::FunctionCallArgumentsMismatch { name, expected, got } => {
                let mut s = String::from_str("Function call arguments mismatch: `");
                s.append(name.as_str());
                s.append("` expected `");
                s.append(decimal_text(*expected).as_str());
                s.append("`, got `");
                s.append(decimal_text(*got).as_str());
                s.append("`");
                s
            },
            TransformerErrors::FieldsMismatch { expected, found } => {
                let mut s = String::from_str("Fields mismatch: expected `");
                s.append(join_strings(expected, ", ").as_str());
                s.append("`, found `");
                s.append(join_strings(found, ", ").as_str());
                s.append("`");
                s
            },
        }
    }

    /// The message of the error: its text in red, where the terminal shows
    /// colour.
    pub fn message(&self) -> (s: String)
        ensures
            s@ == transformer_text(*self) || s@ == painted(transformer_text(*self), red_style()),
    {
        let t = self.text();
        paint_red(t.as_str())
    }
}

/// The message of an error of some stage, named after its stage.
pub open spec fn kind_message(k: NilangErrorKind) -> Seq<char> {
    match k {
        NilangErrorKind::LexerError(e) => "Lexer: "@ + lexer_message(e),
        NilangErrorKind::ParserError(e) => "Parser: "@ + parser_message(e),
    }
}

impl NilangErrorKind {
    /// The message of the error, named after its stage.
    pub fn message(&self) -> (s: String)
        ensures
            s@ == kind_message(*self),
    {
        match self {
            NilangErrorKind::LexerError(e) => {
                let mut s = String::from_str("Lexer: ");
                s.append(e.message().as_str());
                s
            },
            NilangErrorKind::ParserError(e) => {
                let mut s = String::from_str("Parser: ");
                s.append(e.message().as_str());
                s
            },
        }
    }
}

/// The first line of an error report: the lines the error spans, then its
/// message.
pub open spec fn error_text(location: CodeLocation, error: NilangErrorKind) -> Seq<char> {
    "["@ + decimal(location.0 as nat) + ":"@ + decimal(location.2 as nat) + "] "@ + kind_message(error)
}

/// The first line of an error report, in red where the terminal shows colour.
pub fn format_error_message(location: CodeLocation, error: &NilangErrorKind) -> (s: String)
    ensures
        s@ == error_text(location, *error) || s@ == painted(error_text(location, *error), red_style()),
{
    let mut t = String::from_str("[");
    t.append(decimal_text(location.0).as_str());
    t.append(":");
    t.append(decimal_text(location.2).as_str());
    t.append("] ");
    t.append(error.message().as_str());
    paint_red(t.as_str())
}

/// The first `k` characters of `s`, or all of them.
pub open spec fn take_chars(s: Seq<char>, k: int) -> Seq<char> {
    if k < s.len() {
        s.take(k)
    } else {
        s
    }
}

/// `s` without its first `k` characters; nothing when it has fewer.
pub open spec fn skip_chars(s: Seq<char>, k: int) -> Seq<char> {
    if k < s.len() {
        s.skip(k)
    } else {
        seq![]
    }
}

/// The index of the first line shown around an error.
pub open spec fn first_shown(location: CodeLocation) -> int {
    if location.0 < 3 {
        0
    } else {
        location.0 - 3
    }
}

/// How many lines are shown around an error, at most.
pub open spec fn shown_count(location: CodeLocation) -> int {
    if location.0 < 3 {
        location.2 + 3
    } else {
        location.2 - location.0 + 6
    }
}

/// The lines of `code` shown around an error at `location`.
pub open spec fn shown_lines(code: Seq<char>, location: CodeLocation) -> Seq<Seq<char>> {
    let rest = skip_chars_lines(lines_spec(code), first_shown(location));
    if shown_count(location) < rest.len() {
        rest.take(shown_count(location))
    } else {
        rest
    }
}

/// `ls` without its first `k` lines; nothing when it has fewer.
pub open spec fn skip_chars_lines(ls: Seq<Seq<char>>, k: int) -> Seq<Seq<char>> {
    if k < ls.len() {
        ls.skip(k)
    } else {
        seq![]
    }
}

/// The parts of the shown line of index `i` (counted from the first shown
/// line) when it is marked: the text before the mark, the marked text and
/// the text after it. A line is marked when `i` lies between the first and
/// the last line of `location`.
pub open spec fn line_parts(line: Seq<char>, i: int, location: CodeLocation) -> Option<
    (Seq<char>, Seq<char>, Seq<char>),
> {
    let (line_from, char_from, line_to, char_to) = (
        location.0 as int,
        location.1 as int,
        location.2 as int,
        location.3 as int,
    );
    if line_from <= i <= line_to {
        if i == line_from && line_from == line_to {
            Some(
                (
                    take_chars(line, char_from),
                    take_chars(skip_chars(line, char_from), char_to - char_from + 1),
                    skip_chars(line, char_to + 1),
                ),
            )
        } else if i == line_from {
            Some((take_chars(line, char_from), skip_chars(line, char_from), seq![]))
        } else if i == line_to {
            let rest = skip_chars(line, char_from);
            Some((seq![], take_chars(rest, char_to), skip_chars(rest, char_to + 1)))
        } else {
            Some((seq![], line, seq![]))
        }
    } else {
        None
    }
}

/// A shown line: its number, right-aligned in four columns, a bar, and the
/// line with its marked part red and underlined if `paint`.
pub open spec fn shown_line(number: nat, line: Seq<char>, parts: Option<(Seq<char>, Seq<char>, Seq<char>)>, paint: bool) -> Seq<char> {
    pad_left(decimal(number), 4) + " | "@ + match parts {
        None => line,
        Some((before, marked, after)) => before + (if paint {
            painted(marked, red_underline_style())
        } else {
            marked
        }) + after,
    }
}

/// The lines around an error at `location`, each marked part painted or
/// not as `paints` says, joined by newlines.
pub open spec fn highlight_text(code: Seq<char>, location: CodeLocation, paints: Seq<bool>) -> Seq<char> {
    let shown = shown_lines(code, location);
    join(
        Seq::new(
            shown.len(),
            |i: int|
                shown_line(
                    (first_shown(location) + i + 1) as nat,
                    shown[i],
                    line_parts(shown[i], i, location),
                    paints[i],
                ),
        ),
        "\n"@,
    )
}

/// The number of lines shown around an error at `location`.
pub open spec fn shown_total(code: Seq<char>, location: CodeLocation) -> int {
    shown_lines(code, location).len() as int
}

/// Whether showing the error at `location` stays within the arithmetic of
/// the machine: the span of lines is well ordered where the window needs
/// it, and the columns of a marked first or last line can be stepped past.
pub open spec fn highlight_fits(code: Seq<char>, location: CodeLocation) -> bool {
    &&& location.0 < 3 ==> location.2 <= usize::MAX - 3
    &&& location.0 >= 3 ==> location.0 <= location.2 && location.2 - location.0 <= usize::MAX - 6
    &&& (location.0 == location.2 && location.0 < shown_total(code, location)) ==> location.1 <= location.3
        < usize::MAX
    &&& (location.0 < location.2 && location.2 < shown_total(code, location)) ==> location.3 < usize::MAX
}

fn clamp(k: usize, n: usize) -> (r: usize)
    ensures
        r == if k < n { k } else { n },
{
    if k < n {
        k
    } else {
        n
    }
}

/// Where the parts of a marked line lie among its characters: the end of
/// the text before the mark, the start and end of the mark, and the start
/// of the text after it.
fn mark_bounds(chars: &Vec<char>, i: usize, location: CodeLocation) -> (r: (usize, usize, usize, usize))
    requires
        location.0 <= i <= location.2,
        (location.0 == location.2 && i == location.0) ==> location.1 <= location.3 < usize::MAX,
        (location.0 < location.2 && i == location.2) ==> location.3 < usize::MAX,
    ensures
        r.0 <= chars.len(),
        r.1 <= r.2 <= chars.len(),
        r.3 <= chars.len(),
        line_parts(chars@, i as int, location) == Some(
            (
                chars@.subrange(0, r.0 as int),
                chars@.subrange(r.1 as int, r.2 as int),
                chars@.subrange(r.3 as int, chars.len() as int),
            ),
        ),
{
    let CodeLocation(line_from, char_from, line_to, char_to) = location;
    let ghost l = chars@;
    let n = chars.len();
    let a = clamp(char_from, n);
    if i == line_from && line_from == line_to {
        let k = char_to - char_from + 1;
        let m_end = if k <= n - a {
            a + k
        } else {
            n
        };
        let after = clamp(char_to + 1, n);
        assert(take_chars(l, char_from as int) =~= l.subrange(0, a as int));
        assert(take_chars(skip_chars(l, char_from as int), k as int) =~= l.subrange(a as int, m_end as int));
        assert(skip_chars(l, char_to + 1) =~= l.subrange(after as int, n as int));
        (a, a, m_end, after)
    } else if i == line_from {
        assert(take_chars(l, char_from as int) =~= l.subrange(0, a as int));
        assert(skip_chars(l, char_from as int) =~= l.subrange(a as int, n as int));
        assert(Seq::<char>::empty() =~= l.subrange(n as int, n as int));
        (a, a, n, n)
    } else if i == line_to {
        let m_end = if char_to <= n - a {
            a + char_to
        } else {
            n
        };
        let after = if char_to + 1 <= n - a {
            a + char_to + 1
        } else {
            n
        };
        let ghost rest = skip_chars(l, char_from as int);
        assert(rest =~= l.subrange(a as int, n as int));
        assert(take_chars(rest, char_to as int) =~= l.subrange(a as int, m_end as int));
        assert(skip_chars(rest, char_to + 1) =~= l.subrange(after as int, n as int));
        assert(Seq::<char>::empty() =~= l.subrange(0, 0));
        (0, a, m_end, after)
    } else {
        assert(Seq::<char>::empty() =~= l.subrange(0, 0));
        assert(l =~= l.subrange(0, n as int));
        assert(Seq::<char>::empty() =~= l.subrange(n as int, n as int));
        (0, 0, n, n)
    }
}

/// The shown line of index `i` with its number, marked as `line_parts` says.
fn render_line(number: usize, line: &String, i: usize, location: CodeLocation) -> (r: String)
    requires
        (location.0 == location.2 && i == location.0) ==> location.1 <= location.3 < usize::MAX,
        (location.0 < location.2 && i == location.2) ==> location.3 < usize::MAX,
    ensures
        r@ == shown_line(number as nat, line@, line_parts(line@, i as int, location), false)
            || r@ == shown_line(number as nat, line@, line_parts(line@, i as int, location), true),
{
    let mut r = padded_left(decimal_text(number).as_str(), 4);
    r.append(" | ");
    if i >= location.0 && i <= location.2 {
        let chars = chars_of(line.as_str());
        let (b1, m0, m1, a0) = mark_bounds(&chars, i, location);
        let before = substring(&chars, 0, b1);
        let marked = substring(&chars, m0, m1);
        let after = substring(&chars, a0, chars.len());
        let shown = paint_red_underline(marked.as_str());
        r.append(before.as_str());
        r.append(shown.as_str());
        r.append(after.as_str());
    } else {
        r.append(line.as_str());
    }
    r
}

/// The lines of `code` around an error at `location`, numbered, with the
/// part the error is about red and underlined where the terminal shows
/// colour. The lines marked are counted from the first line shown.
pub fn highlight_with_context(code: &str, location: CodeLocation) -> (r: String)
    requires
        highlight_fits(code@, location),
    ensures
        exists|paints: Seq<bool>|
            paints.len() == shown_total(code@, location) && r@ == highlight_text(code@, location, paints),
{
    let CodeLocation(line_from, _char_from, line_to, _char_to) = location;
    let first_line = if line_from < 3 {
        0
    } else {
        line_from - 3
    };
    let count = if line_from < 3 {
        line_to + 3
    } else {
        line_to - line_from + 6
    };
    let all = lines(code);
    let ghost shown = shown_lines(code@, location);
    let start = clamp(first_line, all.len());
    let end = if count <= all.len() - start {
        start + count
    } else {
        all.len()
    };
    proof {
        let ls = lines_spec(code@);
        assert(shown =~= ls.subrange(start as int, end as int));
    }
    let mut rendered: Vec<String> = Vec::new();
    let ghost mut paints: Seq<bool> = seq![];
    let mut j = start;
    while j < end
        invariant
            start <= j <= end <= all.len(),
            end - start == shown.len(),
            shown == views_of(all@).subrange(start as int, end as int),
            start == first_shown(location) || (start == all.len() && end == start),
            highlight_fits(code@, location),
            shown.len() == shown_total(code@, location),
            rendered@.len() == j - start,
            paints.len() == j - start,
            forall|k: int|
                0 <= k < j - start ==> (#[trigger] rendered@[k])@ == shown_line(
                    (first_shown(location) + k + 1) as nat,
                    shown[k],
                    line_parts(shown[k], k, location),
                    paints[k],
                ),
        decreases end - j,
    {
        let i = j - start;
        let ghost line_view = all@[j as int]@;
        assert(shown[i as int] == line_view);
        let line = render_line(j + 1, &all[j], i, location);
        proof {
            let p0 = shown_line((j + 1) as nat, line_view, line_parts(line_view, i as int, location), false);
            paints = paints.push(line@ != p0);
        }
        rendered.push(line);
        j = j + 1;
    }
    let r = join_strings(&rendered, "\n");
    proof {
        let expected = Seq::new(
            shown.len(),
            |i: int|
                shown_line(
                    (first_shown(location) + i + 1) as nat,
                    shown[i],
                    line_parts(shown[i], i, location),
                    paints[i],
                ),
        );
        assert(views_of(rendered@) =~= expected);
    }
    r
}

/// Whether the lines around an error at `location` can be shown within the
/// arithmetic of the machine.
pub fn can_highlight(code: &str, location: CodeLocation) -> (b: bool)
    ensures
        b == highlight_fits(code@, location),
{
    let CodeLocation(line_from, char_from, line_to, char_to) = location;
    if line_from < 3 {
        if line_to > usize::MAX - 3 {
            return false;
        }
    } else if !(line_from <= line_to && line_to - line_from <= usize::MAX - 6) {
        return false;
    }
    let first_line = if line_from < 3 {
        0
    } else {
        line_from - 3
    };
    let count = if line_from < 3 {
        line_to + 3
    } else {
        line_to - line_from + 6
    };
    let all = lines(code);
    let start = clamp(first_line, all.len());
    let shown = if count <= all.len() - start {
        count
    } else {
        all.len() - start
    };
    proof {
        let ls = lines_spec(code@);
        assert(shown_lines(code@, location).len() == shown);
    }
    let single_ok = !(line_from == line_to && line_from < shown) || (char_from <= char_to && char_to < usize::MAX);
    let last_ok = !(line_from < line_to && line_to < shown) || char_to < usize::MAX;
    single_ok && last_ok
}

impl NilangError {
    /// The first line of the report of the error: the lines it spans and its
    /// message, in red where the terminal shows colour.
    pub fn message(&self) -> (s: String)
        ensures
            s@ == error_text(self.location, self.error) || s@ == painted(
                error_text(self.location, self.error),
                red_style(),
            ),
    {
        format_error_message(self.location, &self.error)
    }

    /// The report of the error: its first line, then the lines of `code`
    /// around it with the part it is about marked.
    pub fn format_error(&self, code: &str) -> (s: String)
        requires
            highlight_fits(code@, self.location),
        ensures
            exists|m: Seq<char>, paints: Seq<bool>|
                {
                    &&& m == error_text(self.location, self.error) || m == painted(
                        error_text(self.location, self.error),
                        red_style(),
                    )
                    &&& paints.len() == shown_total(code@, self.location)
                    &&& s@ == m + "\n"@ + highlight_text(code@, self.location, paints)
                },
    {
        let context = highlight_with_context(code, self.location);
        let mut s = format_error_message(self.location, &self.error);
        s.append("\n");
        s.append(context.as_str());
        s
    }
}

} // verus!
