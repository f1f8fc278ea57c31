use loxi::lex::token::tokens::{Keyword, Literal, Operator, Punctuation, TokenParseError};
use loxi::lex::token::{Token, TokenValue};
use loxi::lex::{LexError, Lexer, ScanResult};
use loxi::util::Location;

fn convert(numerals: &Vec<String>) -> Vec<Option<u64>> {
    numerals.iter().map(|text| text.parse::<f64>().ok().map(f64::to_bits)).collect()
}

fn scan(source: &str) -> ScanResult {
    let lexer = Lexer::new(source);
    let numbers = convert(&lexer.numerals());
    lexer.scan(&numbers)
}

fn at(line: usize, column: usize) -> Location {
    Location { line, column }
}

fn tok(line: usize, column: usize, value: TokenValue) -> Token {
    Token { value, loc: at(line, column) }
}

fn values(result: &ScanResult) -> Vec<TokenValue> {
    result.tokens.iter().map(|token| token.value.clone()).collect()
}

static HELLO_WORLD: &str = "var hello = \"Hello world!\";\nprint hello;\n";

#[test]
fn hello_test() {
    let lexer = Lexer::new(HELLO_WORLD);
    let numbers = convert(&lexer.numerals());
    let result = lexer.scan(&numbers);

    assert_eq!(result.errors.len(), 0);
    assert_eq!(result.lines.len(), 2);
    assert_eq!(result.tokens.len(), 9);

    let tokens = vec![
        tok(1, 1, TokenValue::Keyword(Keyword::Var)),
        tok(1, 5, TokenValue::Literal(Literal::Identifier("hello".into()))),
        tok(1, 11, TokenValue::Operator(Operator::Equal)),
        tok(1, 13, TokenValue::Literal(Literal::String("Hello world!".into()))),
        tok(1, 27, TokenValue::Punctuation(Punctuation::Semicolon)),
        tok(2, 1, TokenValue::Keyword(Keyword::Print)),
        tok(2, 7, TokenValue::Literal(Literal::Identifier("hello".into()))),
        tok(2, 12, TokenValue::Punctuation(Punctuation::Semicolon)),
        tok(3, 1, TokenValue::Eof),
    ];

    for (t1, t2) in result.tokens.iter().zip(tokens) {
        assert_eq!(*t1, t2);
    }
}

#[test]
fn hello_lines_are_split() {
    let result = scan(HELLO_WORLD);
    assert_eq!(result.lines, vec!["var hello = \"Hello world!\";".to_string(), "print hello;".to_string()]);
}

#[test]
fn empty_source_is_only_eof() {
    let result = scan("");
    assert_eq!(result.lines.len(), 0);
    assert_eq!(result.errors.len(), 0);
    assert_eq!(result.tokens, vec![tok(1, 1, TokenValue::Eof)]);
}

#[test]
fn eof_is_one_past_the_lines_without_trailing_newline() {
    let result = scan("print 1;\nprint 2;");
    assert_eq!(result.lines.len(), 2);
    assert_eq!(result.tokens.last().unwrap(), &tok(3, 1, TokenValue::Eof));
    let eofs = result.tokens.iter().filter(|t| t.value == TokenValue::Eof).count();
    assert_eq!(eofs, 1);
}

#[test]
fn eof_line_counts_blank_lines() {
    let result = scan("a\n\n");
    assert_eq!(result.lines, vec!["a".to_string(), "".to_string()]);
    assert_eq!(result.tokens.last().unwrap().loc, at(3, 1));
    let result = scan("\n");
    assert_eq!(result.lines, vec!["".to_string()]);
    assert_eq!(result.tokens, vec![tok(2, 1, TokenValue::Eof)]);
}

#[test]
fn carriage_return_belongs_to_the_line_break() {
    let result = scan("a\r\nb\r");
    assert_eq!(result.lines, vec!["a".to_string(), "b\r".to_string()]);
    assert_eq!(result.errors.len(), 0);
    assert_eq!(result.tokens[1], tok(2, 1, TokenValue::Literal(Literal::Identifier("b".into()))));
}

#[test]
fn two_character_operators_are_greedy() {
    let result = scan("! != = == > >= < <= !== =!");
    let expected = vec![
        TokenValue::Operator(Operator::Bang),
        TokenValue::Operator(Operator::BangEqual),
        TokenValue::Operator(Operator::Equal),
        TokenValue::Operator(Operator::EqualEqual),
        TokenValue::Operator(Operator::Greater),
        TokenValue::Operator(Operator::GreaterEqual),
        TokenValue::Operator(Operator::Less),
        TokenValue::Operator(Operator::LessEqual),
        TokenValue::Operator(Operator::BangEqual),
        TokenValue::Operator(Operator::Equal),
        TokenValue::Operator(Operator::Equal),
        TokenValue::Operator(Operator::Bang),
        TokenValue::Eof,
    ];
    assert_eq!(values(&result), expected);
    assert_eq!(result.tokens[8].loc, at(1, 21));
    assert_eq!(result.tokens[9].loc, at(1, 23));
}

#[test]
fn punctuation_and_arithmetic() {
    let result = scan("(){},.;+-*/");
    let expected = vec![
        TokenValue::Punctuation(Punctuation::ParenLeft),
        TokenValue::Punctuation(Punctuation::ParenRight),
        TokenValue::Punctuation(Punctuation::BraceLeft),
        TokenValue::Punctuation(Punctuation::BraceRight),
        TokenValue::Punctuation(Punctuation::Comma),
        TokenValue::Punctuation(Punctuation::Dot),
        TokenValue::Punctuation(Punctuation::Semicolon),
        TokenValue::Operator(Operator::Plus),
        TokenValue::Operator(Operator::Minus),
        TokenValue::Operator(Operator::Star),
        TokenValue::Operator(Operator::Slash),
        TokenValue::Eof,
    ];
    assert_eq!(values(&result), expected);
}

#[test]
fn comments_run_to_the_end_of_the_line() {
    let result = scan("1 / 2 // three / four\nx");
    assert_eq!(result.errors.len(), 0);
    assert_eq!(
        result.tokens,
        vec![
            tok(1, 1, TokenValue::Literal(Literal::Number(1.0f64.to_bits()))),
            tok(1, 3, TokenValue::Operator(Operator::Slash)),
            tok(1, 5, TokenValue::Literal(Literal::Number(2.0f64.to_bits()))),
            tok(2, 1, TokenValue::Literal(Literal::Identifier("x".into()))),
            tok(3, 1, TokenValue::Eof),
        ]
    );
}

#[test]
fn numbers_take_one_fraction() {
    let lexer = Lexer::new("12.5 7. .5 1.2.3");
    assert_eq!(lexer.numerals(), vec!["12.5", "7", "5", "1.2", "3"]);
    let result = scan("12.5 7. .5 1.2.3");
    assert_eq!(
        values(&result),
        vec![
            TokenValue::Literal(Literal::Number(12.5f64.to_bits())),
            TokenValue::Literal(Literal::Number(7.0f64.to_bits())),
            TokenValue::Punctuation(Punctuation::Dot),
            TokenValue::Punctuation(Punctuation::Dot),
            TokenValue::Literal(Literal::Number(5.0f64.to_bits())),
            TokenValue::Literal(Literal::Number(1.2f64.to_bits())),
            TokenValue::Punctuation(Punctuation::Dot),
            TokenValue::Literal(Literal::Number(3.0f64.to_bits())),
            TokenValue::Eof,
        ]
    );
}

#[test]
fn a_numeral_without_a_number_is_an_error() {
    let lexer = Lexer::new("1 22 333");
    let result = lexer.scan(&vec![Some(1.0f64.to_bits()), None]);
    assert_eq!(
        result.tokens,
        vec![tok(1, 1, TokenValue::Literal(Literal::Number(1.0f64.to_bits()))), tok(2, 1, TokenValue::Eof)]
    );
    assert_eq!(
        result.errors,
        vec![
            LexError::UnableToParseNumber(at(1, 3), "22".to_string()),
            LexError::UnableToParseNumber(at(1, 6), "333".to_string()),
        ]
    );
}

#[test]
fn keywords_are_not_identifiers() {
    let result = scan("var variable _if if nil nile true false and or class else for while fun print return super this");
    let expected = vec![
        TokenValue::Keyword(Keyword::Var),
        TokenValue::Literal(Literal::Identifier("variable".into())),
        TokenValue::Literal(Literal::Identifier("_if".into())),
        TokenValue::Keyword(Keyword::If),
        TokenValue::Keyword(Keyword::Nil),
        TokenValue::Literal(Literal::Identifier("nile".into())),
        TokenValue::Keyword(Keyword::True),
        TokenValue::Keyword(Keyword::False),
        TokenValue::Keyword(Keyword::And),
        TokenValue::Keyword(Keyword::Or),
        TokenValue::Keyword(Keyword::Class),
        TokenValue::Keyword(Keyword::Else),
        TokenValue::Keyword(Keyword::For),
        TokenValue::Keyword(Keyword::While),
        TokenValue::Keyword(Keyword::Fun),
        TokenValue::Keyword(Keyword::Print),
        TokenValue::Keyword(Keyword::Return),
        TokenValue::Keyword(Keyword::Super),
        TokenValue::Keyword(Keyword::This),
        TokenValue::Eof,
    ];
    assert_eq!(values(&result), expected);
}

#[test]
fn identifiers_hold_digits_after_the_first_character() {
    let result = scan("a1 1a");
    assert_eq!(
        values(&result),
        vec![
            TokenValue::Literal(Literal::Identifier("a1".into())),
            TokenValue::Literal(Literal::Number(1.0f64.to_bits())),
            TokenValue::Literal(Literal::Identifier("a".into())),
            TokenValue::Eof,
        ]
    );
}

#[test]
fn two_unterminated_strings_give_two_errors() {
    let result = scan("var a = \"abc;\nprint \"def\nprint a;\n");
    assert_eq!(result.errors.len(), 2);
    assert_eq!(result.errors[0], LexError::UnterminatedString(at(1, 9)));
    assert_eq!(result.errors[1], LexError::UnterminatedString(at(2, 7)));
    assert_eq!(result.errors[0].loc().line, 1);
    assert_eq!(result.errors[1].loc().line, 2);
    assert_eq!(result.lines.len(), 3);
    assert_eq!(
        result.tokens,
        vec![
            tok(1, 1, TokenValue::Keyword(Keyword::Var)),
            tok(1, 5, TokenValue::Literal(Literal::Identifier("a".into()))),
            tok(1, 7, TokenValue::Operator(Operator::Equal)),
            tok(2, 1, TokenValue::Keyword(Keyword::Print)),
            tok(3, 1, TokenValue::Keyword(Keyword::Print)),
            tok(3, 7, TokenValue::Literal(Literal::Identifier("a".into()))),
            tok(3, 8, TokenValue::Punctuation(Punctuation::Semicolon)),
            tok(4, 1, TokenValue::Eof),
        ]
    );
}

#[test]
fn unterminated_string_at_end_of_source() {
    let result = scan("\"abc");
    assert_eq!(result.errors, vec![LexError::UnterminatedString(at(1, 1))]);
    assert_eq!(result.tokens, vec![tok(2, 1, TokenValue::Eof)]);
}

#[test]
fn unknown_characters_are_skipped() {
    let result = scan("a @ b # c");
    assert_eq!(
        result.errors,
        vec![
            LexError::UnknownToken(at(1, 3), '@', "@ b # c".to_string()),
            LexError::UnknownToken(at(1, 7), '#', "# c".to_string()),
        ]
    );
    assert_eq!(
        values(&result),
        vec![
            TokenValue::Literal(Literal::Identifier("a".into())),
            TokenValue::Literal(Literal::Identifier("b".into())),
            TokenValue::Literal(Literal::Identifier("c".into())),
            TokenValue::Eof,
        ]
    );
}

#[test]
fn columns_count_characters() {
    let result = scan("\"h\u{e9}llo\" x");
    assert_eq!(
        result.tokens,
        vec![
            tok(1, 1, TokenValue::Literal(Literal::String("h\u{e9}llo".into()))),
            tok(1, 9, TokenValue::Literal(Literal::Identifier("x".into()))),
            tok(2, 1, TokenValue::Eof),
        ]
    );
}

#[test]
fn empty_string_literal() {
    let result = scan("\"\"");
    assert_eq!(values(&result), vec![TokenValue::Literal(Literal::String("".into())), TokenValue::Eof]);
}

#[test]
fn locations_are_ordered_by_line_then_column() {
    assert!(at(1, 9).is_before(&at(2, 1)));
    assert!(at(2, 1).is_before(&at(2, 2)));
    assert!(!at(2, 2).is_before(&at(2, 2)));
    assert!(!at(3, 1).is_before(&at(2, 7)));
    assert!(at(1, 9) < at(2, 1));
}

#[test]
fn punctuation_round_trip() {
    let all = [
        (Punctuation::ParenLeft, '('),
        (Punctuation::ParenRight, ')'),
        (Punctuation::BraceLeft, '{'),
        (Punctuation::BraceRight, '}'),
        (Punctuation::Comma, ','),
        (Punctuation::Dot, '.'),
        (Punctuation::Semicolon, ';'),
    ];
    for (mark, symbol) in all {
        let text: char = mark.into();
        assert_eq!(text, symbol);
        assert_eq!(Punctuation::try_from(text), Ok(mark));
    }
    assert_eq!(Punctuation::try_from('+'), Err(TokenParseError::InvalidToken));
}

#[test]
fn operator_round_trip() {
    let all = [
        (Operator::Bang, "!"),
        (Operator::BangEqual, "!="),
        (Operator::Equal, "="),
        (Operator::EqualEqual, "=="),
        (Operator::Greater, ">"),
        (Operator::GreaterEqual, ">="),
        (Operator::Less, "<"),
        (Operator::LessEqual, "<="),
        (Operator::Plus, "+"),
        (Operator::Minus, "-"),
        (Operator::Star, "*"),
        (Operator::Slash, "/"),
    ];
    for (op, spelling) in all {
        let text: &str = op.into();
        assert_eq!(text, spelling);
        assert_eq!(Operator::try_from(text), Ok(op));
    }
    assert_eq!(Operator::try_from("=>"), Err(TokenParseError::InvalidToken));
    assert_eq!(Operator::try_from(""), Err(TokenParseError::InvalidToken));
}

#[test]
fn keyword_round_trip() {
    let all = [
        (Keyword::True, "true"),
        (Keyword::False, "false"),
        (Keyword::And, "and"),
        (Keyword::Or, "or"),
        (Keyword::Class, "class"),
        (Keyword::If, "if"),
        (Keyword::Else, "else"),
        (Keyword::For, "for"),
        (Keyword::While, "while"),
        (Keyword::Fun, "fun"),
        (Keyword::Nil, "nil"),
        (Keyword::Print, "print"),
        (Keyword::Return, "return"),
        (Keyword::Super, "super"),
        (Keyword::This, "this"),
        (Keyword::Var, "var"),
    ];
    for (keyword, spelling) in all {
        let text: &str = keyword.into();
        assert_eq!(text, spelling);
        assert_eq!(Keyword::try_from(text), Ok(keyword));
    }
    assert_eq!(Keyword::try_from("True"), Err(TokenParseError::InvalidToken));
    assert_eq!(Keyword::try_from("printer"), Err(TokenParseError::InvalidToken));
}

#[test]
fn source_text_ends_with_a_line_break() {
    let path = std::path::PathBuf::from("script.lox");
    let source = loxi::source_text("print 1;".to_string(), path.clone()).unwrap();
    assert_eq!(source, "print 1;\n");
    let source = loxi::source_text("print 1;\n".to_string(), path.clone()).unwrap();
    assert_eq!(source, "print 1;\n");
    match loxi::source_text(String::new(), path.clone()) {
        Err(loxi::LoxError::EmptyError(p)) => assert_eq!(p, path),
        _ => panic!("an empty file is no source"),
    }
}

#[test]
fn tokens_and_errors_stand_in_source_order() {
    let result = scan("var a = 1; // one\n\n  \"open\n@ print a >= 2.5;\n\t{ # }\nlast");
    assert_eq!(result.lines.len(), 6);
    assert_eq!(result.errors.len(), 3);
    for pair in result.tokens.windows(2) {
        assert!(pair[0].loc.is_before(&pair[1].loc), "{:?}", pair);
    }
    for pair in result.errors.windows(2) {
        assert!(pair[0].loc().is_before(&pair[1].loc()), "{:?}", pair);
    }
    let (eof, rest) = result.tokens.split_last().unwrap();
    assert_eq!(eof.loc, at(7, 1));
    for token in rest {
        assert!(1 <= token.loc.line && token.loc.line <= result.lines.len());
        assert!(token.loc.column >= 1);
    }
    for error in &result.errors {
        assert!(1 <= error.loc().line && error.loc().line <= result.lines.len());
    }
    assert_eq!(result.errors[0], LexError::UnterminatedString(at(3, 3)));
    assert_eq!(result.errors[1], LexError::UnknownToken(at(4, 1), '@', "@ print a >= 2.5;".to_string()));
    assert_eq!(result.errors[2], LexError::UnknownToken(at(5, 4), '#', "# }".to_string()));
}
