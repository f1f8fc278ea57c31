use lasso::Rodeo;
use loxi::interp::machine::Signal;
use loxi::interp::number::{Answer, Arithmetic, Comparison, Question};
use loxi::interp::value::{Printable, Value};
use loxi::interp::{Interpreter, RuntimeError};
use loxi::lex::token::tokens::{Keyword, Literal, Operator, Punctuation};
use loxi::lex::token::{Token, TokenValue};
use loxi::lex::{Lexer, ScanResult};
use loxi::parse::expr::Expr;
use loxi::parse::stmt::Stmt;
use loxi::parse::token::{BinaryOp, UnaryOp};
use loxi::parse::{ParseError, Parser, Program};
use loxi::util::Location;

fn scan(source: &str) -> ScanResult {
    let lexer = Lexer::new(source);
    let numbers: Vec<Option<u64>> =
        lexer.numerals().iter().map(|text| text.parse::<f64>().ok().map(f64::to_bits)).collect();
    lexer.scan(&numbers)
}

fn parse(source: &str, arena: &mut Rodeo) -> Result<Program, ParseError> {
    let scanned = scan(source);
    assert_eq!(scanned.errors, vec![]);
    Parser::new(&scanned.tokens).parse(arena)
}

fn answer(question: &Question) -> Answer {
    match *question {
        Question::Negate(a) => Answer::Number((-f64::from_bits(a)).to_bits()),
        Question::Arithmetic(op, a, b) => {
            let (a, b) = (f64::from_bits(a), f64::from_bits(b));
            Answer::Number(
                match op {
                    Arithmetic::Add => a + b,
                    Arithmetic::Subtract => a - b,
                    Arithmetic::Multiply => a * b,
                    Arithmetic::Divide => a / b,
                }
                .to_bits(),
            )
        }
        Question::Comparison(op, a, b) => {
            let (a, b) = (f64::from_bits(a), f64::from_bits(b));
            Answer::Truth(match op {
                Comparison::Equal => a == b,
                Comparison::NotEqual => a != b,
                Comparison::Greater => a > b,
                Comparison::GreaterEqual => a >= b,
                Comparison::Less => a < b,
                Comparison::LessEqual => a <= b,
            })
        }
    }
}

fn shown(printable: &Printable) -> String {
    match printable {
        Printable::Text(text) => text.clone(),
        Printable::Number(bits) => format!("{}", f64::from_bits(*bits)),
    }
}

fn drive(interpreter: &mut Interpreter, program: Program, arena: &Rodeo) -> (Vec<String>, Result<(), RuntimeError>) {
    let mut output = Vec::new();
    let mut signal = interpreter.interpret(program, arena);
    loop {
        signal = match signal {
            Signal::Done => return (output, Ok(())),
            Signal::Failed(error) => return (output, Err(error)),
            Signal::Print(printable) => {
                output.push(shown(&printable));
                interpreter.resume(None, arena)
            }
            Signal::Ask(question) => interpreter.resume(Some(answer(&question)), arena),
        }
    }
}

fn run(source: &str) -> (Vec<String>, Result<(), RuntimeError>) {
    let mut arena = Rodeo::default();
    let program = parse(source, &mut arena).unwrap();
    let mut interpreter = Interpreter::new();
    drive(&mut interpreter, program, &arena)
}

fn prints(source: &str) -> Vec<String> {
    let (output, result) = run(source);
    assert_eq!(result, Ok(()));
    output
}

fn fails(source: &str) -> RuntimeError {
    run(source).1.unwrap_err()
}

fn at(line: usize, column: usize) -> Location {
    Location { line, column }
}

fn syntax_error(source: &str) -> ParseError {
    let mut arena = Rodeo::default();
    parse(source, &mut arena).unwrap_err()
}

fn number(line: usize, column: usize, value: f64) -> Expr {
    Expr::Literal { loc: at(line, column), value: Value::Number(value.to_bits()) }
}

fn binary(line: usize, column: usize, op: BinaryOp, left: Expr, right: Expr) -> Expr {
    Expr::Binary { loc: at(line, column), op, left: Box::new(left), right: Box::new(right) }
}

#[test]
fn hello_world_end_to_end() {
    let source = "var hello = \"Hello world!\";\nprint hello;\n";
    let scanned = scan(source);
    assert_eq!(scanned.tokens.len(), 9);
    let mut arena = Rodeo::default();
    let program = Parser::new(&scanned.tokens).parse(&mut arena).unwrap();
    assert_eq!(program.statements.len(), 2);
    let key = arena.get("Hello world!").unwrap();
    assert_eq!(
        program.statements,
        vec![
            Stmt::Var {
                loc: at(1, 1),
                name: "hello".to_string(),
                init: Some(Expr::Literal { loc: at(1, 13), value: Value::StringLiteral(key) }),
            },
            Stmt::Print { loc: at(2, 1), expr: Expr::Variable { loc: at(2, 7), name: "hello".to_string() } },
        ]
    );
    let mut interpreter = Interpreter::new();
    let (output, result) = drive(&mut interpreter, program, &arena);
    assert_eq!(result, Ok(()));
    assert_eq!(output, vec!["Hello world!"]);
}

#[test]
fn inner_shadow_does_not_leak() {
    assert_eq!(prints("{ var x = 1; { var x = 2; } print x; }"), vec!["1"]);
}

#[test]
fn inner_scope_sees_and_shadows_outer() {
    let source = "var x = 1; var y = 10; { print x; var x = 2; print x; { var x = 3; print x; print y; } print x; } print x;";
    assert_eq!(prints(source), vec!["1", "2", "3", "10", "2", "1"]);
}

#[test]
fn block_variables_are_gone_after_the_block() {
    assert_eq!(fails("{ var inner = 1; }\nprint inner;"), RuntimeError::UndefinedVariable(at(2, 7), "inner".to_string()));
}

#[test]
fn undefined_variable_at_its_token() {
    let error = fails("print y;");
    assert_eq!(error, RuntimeError::UndefinedVariable(at(1, 7), "y".to_string()));
    assert_eq!(error.loc(), at(1, 7));
}

#[test]
fn arithmetic_and_precedence() {
    assert_eq!(prints("print 1 + 2;"), vec!["3"]);
    assert_eq!(prints("print 1 + 2 * 3;"), vec!["7"]);
    assert_eq!(prints("print (1 + 2) * 3;"), vec!["9"]);
    assert_eq!(prints("print 10 - 4 - 3;"), vec!["3"]);
    assert_eq!(prints("print 8 / 2 / 2;"), vec!["2"]);
    assert_eq!(prints("print -2 * -3;"), vec!["6"]);
    assert_eq!(prints("print 1.5 + 2.25;"), vec!["3.75"]);
    assert_eq!(prints("print 1 - -1;"), vec!["2"]);
}

#[test]
fn division_by_zero_follows_floating_point() {
    assert_eq!(prints("print 1 / 0;"), vec!["inf"]);
    assert_eq!(prints("print -1 / 0;"), vec!["-inf"]);
    assert_eq!(prints("print 0 / 0;"), vec!["NaN"]);
    assert_eq!(prints("print 0 / 0 == 0 / 0;"), vec!["false"]);
}

#[test]
fn comparison_and_equality() {
    assert_eq!(prints("print 1 < 2; print 2 <= 2; print 1 > 2; print 2 >= 3;"), vec!["true", "true", "false", "false"]);
    assert_eq!(prints("print 1 == 1; print 1 != 1; print 1 == 2; print 1 != 2;"), vec!["true", "false", "false", "true"]);
    assert_eq!(prints("print nil == nil; print nil == false; print true != false;"), vec!["true", "false", "true"]);
    assert_eq!(prints("print \"a\" == \"a\"; print \"a\" == \"b\"; print \"a\" != \"b\";"), vec!["true", "false", "true"]);
    assert_eq!(prints("print 1 < 2 == 2 > 1;"), vec!["true"]);
    assert_eq!(prints("print 1 + 1 == 2;"), vec!["true"]);
}

#[test]
fn unary_operators() {
    assert_eq!(prints("print !true; print !nil; print !0; print !!\"\";"), vec!["false", "true", "false", "true"]);
    assert_eq!(prints("print --3;"), vec!["3"]);
}

#[test]
fn strings_concatenate_with_literals() {
    assert_eq!(prints("var a = \"x\"; var b = a; print b;"), vec!["x"]);
    assert_eq!(
        fails("print \"a\" + \"b\";"),
        RuntimeError::InvalidBinaryOp(at(1, 11), BinaryOp::Add, "<string>", "<string>")
    );
}

#[test]
fn constructed_strings_concatenate() {
    let mut arena = Rodeo::default();
    let program = parse("print greeting + \" world\"; print greeting + greeting == \"hellohello\";", &mut arena).unwrap();
    let mut interpreter = Interpreter::new();
    let setup = Program {
        statements: vec![Stmt::Var {
            loc: at(1, 1),
            name: "greeting".to_string(),
            init: Some(Expr::Literal { loc: at(1, 1), value: Value::string("hello".to_string()) }),
        }],
    };
    assert_eq!(drive(&mut interpreter, setup, &arena), (vec![], Ok(())));
    let (output, result) = drive(&mut interpreter, program, &arena);
    assert_eq!(result, Ok(()));
    assert_eq!(output, vec!["hello world", "true"]);
}

#[test]
fn invalid_binary_operation() {
    assert_eq!(fails("print 1 + \"x\";"), RuntimeError::InvalidBinaryOp(at(1, 9), BinaryOp::Add, "<number>", "<string>"));
    assert_eq!(fails("print nil * 2;"), RuntimeError::InvalidBinaryOp(at(1, 11), BinaryOp::Mul, "<nil>", "<number>"));
    assert_eq!(fails("print true < false;"), RuntimeError::InvalidBinaryOp(at(1, 12), BinaryOp::Less, "<bool>", "<bool>"));
    assert_eq!(fails("1 - \"1\";"), RuntimeError::InvalidBinaryOp(at(1, 3), BinaryOp::Sub, "<number>", "<string>"));
}

#[test]
fn invalid_unary_operation() {
    assert_eq!(fails("print -\"x\";"), RuntimeError::InvalidUnaryOp(at(1, 7), UnaryOp::Minus, "<string>"));
    assert_eq!(fails("print -nil;"), RuntimeError::InvalidUnaryOp(at(1, 7), UnaryOp::Minus, "<nil>"));
    assert_eq!(fails("-true;"), RuntimeError::InvalidUnaryOp(at(1, 1), UnaryOp::Minus, "<bool>"));
}

#[test]
fn errors_stop_the_rest() {
    let (output, result) = run("print 1; { print 2; print -nil; print 3; } print 4;");
    assert_eq!(output, vec!["1", "2"]);
    assert_eq!(result, Err(RuntimeError::InvalidUnaryOp(at(1, 27), UnaryOp::Minus, "<nil>")));
}

#[test]
fn globals_survive_an_error_and_scopes_do_not() {
    let mut arena = Rodeo::default();
    let mut interpreter = Interpreter::new();
    let first = parse("var kept = 7; { var lost = 1; print missing; }", &mut arena).unwrap();
    let (output, result) = drive(&mut interpreter, first, &arena);
    assert_eq!(output, Vec::<String>::new());
    assert_eq!(result, Err(RuntimeError::UndefinedVariable(at(1, 37), "missing".to_string())));
    let second = parse("print kept;", &mut arena).unwrap();
    assert_eq!(drive(&mut interpreter, second, &arena), (vec!["7".to_string()], Ok(())));
    let third = parse("print lost;", &mut arena).unwrap();
    assert_eq!(drive(&mut interpreter, third, &arena).1, Err(RuntimeError::UndefinedVariable(at(1, 7), "lost".to_string())));
}

#[test]
fn var_without_initializer_is_nil() {
    assert_eq!(prints("var x; print x; x == nil; print x == nil;"), vec!["nil", "true"]);
}

#[test]
fn redefinition_overwrites() {
    assert_eq!(prints("var x = 1; var x = x + 1; print x;"), vec!["2"]);
}

#[test]
fn if_and_else() {
    assert_eq!(prints("if (1 < 2) print \"yes\"; else print \"no\";"), vec!["yes"]);
    assert_eq!(prints("if (1 > 2) print \"yes\"; else print \"no\";"), vec!["no"]);
    assert_eq!(prints("if (nil) print \"yes\"; print \"after\";"), vec!["after"]);
    assert_eq!(prints("if (0) print \"zero is truthy\";"), vec!["zero is truthy"]);
    assert_eq!(prints("if (\"\") { print 1; print 2; } else { print 3; }"), vec!["1", "2"]);
    assert_eq!(prints("if (true) if (false) print 1; else print 2;"), vec!["2"]);
    assert_eq!(prints("var x = 1; if (x == 1) { var x = 2; print x; } print x;"), vec!["2", "1"]);
}

#[test]
fn printing_values() {
    assert_eq!(prints("print nil; print true; print false; print 12; print 0.5; print \"text\"; print \"\";"), vec!["nil", "true", "false", "12", "0.5", "text", ""]);
}

#[test]
fn an_empty_program_is_done() {
    assert_eq!(run(""), (vec![], Ok(())));
    assert_eq!(run("{}{{}}"), (vec![], Ok(())));
}

#[test]
fn the_machine_asks_and_waits() {
    let mut arena = Rodeo::default();
    let program = parse("print 1 + 2 < 4;", &mut arena).unwrap();
    let mut interpreter = Interpreter::new();
    let one = 1.0f64.to_bits();
    let two = 2.0f64.to_bits();
    let sum = Question::Arithmetic(Arithmetic::Add, one, two);
    assert_eq!(interpreter.interpret(program, &arena), Signal::Ask(sum));
    assert_eq!(interpreter.resume(None, &arena), Signal::Ask(sum));
    assert_eq!(interpreter.resume(Some(Answer::Truth(true)), &arena), Signal::Ask(sum));
    assert_eq!(interpreter.step(&arena), Some(Signal::Ask(sum)));
    let three = 3.0f64.to_bits();
    let less = Question::Comparison(Comparison::Less, three, 4.0f64.to_bits());
    assert_eq!(interpreter.resume(Some(Answer::Number(three)), &arena), Signal::Ask(less));
    assert_eq!(interpreter.resume(Some(Answer::Number(three)), &arena), Signal::Ask(less));
    assert_eq!(
        interpreter.resume(Some(Answer::Truth(true)), &arena),
        Signal::Print(Printable::Text("true".to_string()))
    );
    assert_eq!(interpreter.resume(Some(Answer::Truth(true)), &arena), Signal::Done);
    assert_eq!(interpreter.resume(None, &arena), Signal::Done);
    assert_eq!(interpreter.step(&arena), Some(Signal::Done));
}

#[test]
fn a_new_program_abandons_the_old() {
    let mut arena = Rodeo::default();
    let first = parse("var a = 1; { var b = 2; print a + b; print 5; }", &mut arena).unwrap();
    let second = parse("print a; print 6;", &mut arena).unwrap();
    let mut interpreter = Interpreter::new();
    let one = 1.0f64.to_bits();
    let two = 2.0f64.to_bits();
    assert_eq!(interpreter.interpret(first, &arena), Signal::Ask(Question::Arithmetic(Arithmetic::Add, one, two)));
    assert_eq!(interpreter.interpret(second, &arena), Signal::Print(Printable::Number(one)));
    assert_eq!(interpreter.resume(None, &arena), Signal::Print(Printable::Number(6.0f64.to_bits())));
    assert_eq!(interpreter.resume(None, &arena), Signal::Done);
}

#[test]
fn stepping_one_frame_at_a_time() {
    let mut arena = Rodeo::default();
    let program = parse("print 1;", &mut arena).unwrap();
    let mut interpreter = Interpreter::new();
    assert_eq!(interpreter.step(&arena), Some(Signal::Done));
    assert_eq!(interpreter.interpret(program, &arena), Signal::Print(Printable::Number(1.0f64.to_bits())));
    assert_eq!(interpreter.step(&arena), Some(Signal::Done));
}

#[test]
fn parses_precedence_and_associativity() {
    let mut arena = Rodeo::default();
    let program = parse("1 - 2 - 3 * 4 == 5;", &mut arena).unwrap();
    let expected = binary(
        1,
        15,
        BinaryOp::Equal,
        binary(
            1,
            7,
            BinaryOp::Sub,
            binary(1, 3, BinaryOp::Sub, number(1, 1, 1.0), number(1, 5, 2.0)),
            binary(1, 11, BinaryOp::Mul, number(1, 9, 3.0), number(1, 13, 4.0)),
        ),
        number(1, 18, 5.0),
    );
    assert_eq!(program.statements, vec![Stmt::Expr { expr: expected }]);
}

#[test]
fn parses_unary_and_grouping() {
    let mut arena = Rodeo::default();
    let program = parse("!-(x >= nil);", &mut arena).unwrap();
    let inner = binary(
        1,
        6,
        BinaryOp::GreaterEqual,
        Expr::Variable { loc: at(1, 4), name: "x".to_string() },
        Expr::Literal { loc: at(1, 9), value: Value::Nil },
    );
    let expected = Expr::Unary {
        loc: at(1, 1),
        op: UnaryOp::Not,
        expr: Box::new(Expr::Unary {
            loc: at(1, 2),
            op: UnaryOp::Minus,
            expr: Box::new(Expr::Grouping { loc: at(1, 3), expr: Box::new(inner) }),
        }),
    };
    assert_eq!(program.statements, vec![Stmt::Expr { expr: expected }]);
}

#[test]
fn parses_statements() {
    let mut arena = Rodeo::default();
    let program = parse("var a;\nif (a) { print true; } else var b = false;\n{}", &mut arena).unwrap();
    assert_eq!(
        program.statements,
        vec![
            Stmt::Var { loc: at(1, 1), name: "a".to_string(), init: None },
            Stmt::If {
                loc: at(2, 1),
                condition: Expr::Variable { loc: at(2, 5), name: "a".to_string() },
                then: Box::new(Stmt::Block {
                    statements: vec![Stmt::Print {
                        loc: at(2, 10),
                        expr: Expr::Literal { loc: at(2, 16), value: Value::Bool(true) },
                    }],
                }),
                otherwise: Some(Box::new(Stmt::Var {
                    loc: at(2, 29),
                    name: "b".to_string(),
                    init: Some(Expr::Literal { loc: at(2, 37), value: Value::Bool(false) }),
                })),
            },
            Stmt::Block { statements: vec![] },
        ]
    );
}

#[test]
fn equal_literals_share_a_key() {
    let mut arena = Rodeo::default();
    let program = parse("\"twice\"; \"once\"; \"twice\";", &mut arena).unwrap();
    assert_eq!(arena.len(), 2);
    let twice = arena.get("twice").unwrap();
    let once = arena.get("once").unwrap();
    assert_ne!(twice, once);
    assert_eq!(arena.resolve(&twice), "twice");
    assert_eq!(
        program.statements,
        vec![
            Stmt::Expr { expr: Expr::Literal { loc: at(1, 1), value: Value::StringLiteral(twice) } },
            Stmt::Expr { expr: Expr::Literal { loc: at(1, 10), value: Value::StringLiteral(once) } },
            Stmt::Expr { expr: Expr::Literal { loc: at(1, 18), value: Value::StringLiteral(twice) } },
        ]
    );
}

#[test]
fn syntax_errors() {
    let error = |line, column, message: &str| ParseError::SyntaxError { loc: at(line, column), message: message.to_string() };
    assert_eq!(syntax_error("print 1"), error(2, 1, "Expect ';' after value."));
    assert_eq!(syntax_error("1 + 2 print"), error(1, 7, "Expect ';' after expression."));
    assert_eq!(syntax_error("var 1 = 2;"), error(1, 5, "Expect variable name."));
    assert_eq!(syntax_error("var x 2;"), error(1, 7, "Expect ';' after variable declaration."));
    assert_eq!(syntax_error("var x = 2 }"), error(1, 11, "Expect ';' after variable declaration."));
    assert_eq!(syntax_error("{ print 1;"), error(2, 1, "Expect '}' after block."));
    assert_eq!(syntax_error("if x) 1;"), error(1, 4, "Expect '(' after 'if'."));
    assert_eq!(syntax_error("if (x 1;"), error(1, 7, "Expect ')' after if condition."));
    assert_eq!(syntax_error("(1 + 2;"), error(1, 7, "Expect ')' after expression."));
    assert_eq!(syntax_error("1 + ;"), error(1, 5, "Expect expression."));
    assert_eq!(syntax_error("print;"), error(1, 6, "Expect expression."));
    assert_eq!(syntax_error("}"), error(1, 1, "Expect expression."));
    assert_eq!(syntax_error("1;\n2;\n* 3;"), error(3, 1, "Expect expression."));
    assert_eq!(syntax_error("while (true) 1;"), error(1, 1, "Expect expression."));
    assert_eq!(error(3, 4, "m").loc(), Some(at(3, 4)));
    assert_eq!(ParseError::EndOfFile.loc(), None);
}

#[test]
fn tokens_without_eof_end_early() {
    let mut arena = Rodeo::default();
    let tokens: Vec<Token> = vec![];
    assert_eq!(Parser::new(&tokens).parse(&mut arena), Err(ParseError::EndOfFile));
    let tokens = vec![Token { value: TokenValue::Keyword(Keyword::Print), loc: at(1, 1) }];
    assert_eq!(Parser::new(&tokens).parse(&mut arena), Err(ParseError::EndOfFile));
    let tokens = vec![
        Token { value: TokenValue::Literal(Literal::Number(0)), loc: at(1, 1) },
        Token { value: TokenValue::Operator(Operator::Plus), loc: at(1, 2) },
    ];
    assert_eq!(Parser::new(&tokens).parse(&mut arena), Err(ParseError::EndOfFile));
    let tokens = vec![
        Token { value: TokenValue::Punctuation(Punctuation::BraceLeft), loc: at(1, 1) },
        Token { value: TokenValue::Punctuation(Punctuation::BraceRight), loc: at(1, 2) },
    ];
    assert_eq!(Parser::new(&tokens).parse(&mut arena), Err(ParseError::EndOfFile));
}

#[test]
fn scanned_tokens_never_end_early() {
    for source in ["", "print", "1 +", "{", "{ {", "if", "if (", "if (x)", "var", "var x =", "(", "!", "-", "\"s\"", "if (x) 1; else"] {
        let mut arena = Rodeo::default();
        let result = Parser::new(&scan(source).tokens).parse(&mut arena);
        assert_ne!(result, Err(ParseError::EndOfFile), "{}", source);
    }
}
