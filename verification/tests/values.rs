use lasso::{Key, Rodeo, Spur};
use loxi::interp::env::Env;
use loxi::interp::function::{Function, NativeFunction};
use loxi::interp::machine::{answer_value, apply_binary, apply_unary};
use loxi::interp::number::{Answer, Arithmetic, Comparison, Question};
use loxi::interp::object::Object;
use loxi::interp::value::{Outcome, Printable, Value};
use loxi::interp::RuntimeError;
use loxi::parse::token::{BinaryOp, UnaryOp};
use loxi::util::Location;

fn bits(number: f64) -> u64 {
    number.to_bits()
}

fn string(text: &str) -> Value {
    Value::string(text.to_string())
}

fn truth(b: bool) -> Option<Outcome> {
    Some(Outcome::Value(Value::Bool(b)))
}

#[test]
fn only_nil_and_false_are_falsy() {
    let mut arena = Rodeo::default();
    let key = arena.get_or_intern("");
    assert!(!Value::nil().truthiness());
    assert!(!Value::bool(false).truthiness());
    assert!(Value::bool(true).truthiness());
    assert!(Value::number(bits(0.0)).truthiness());
    assert!(Value::number(bits(f64::NAN)).truthiness());
    assert!(string("").truthiness());
    assert!(Value::string_literal(key).truthiness());
    assert!(Value::object(Object {}).truthiness());
    assert!(Value::function(Function { name: key }).truthiness());
    assert!(Value::native_function(NativeFunction { name: key }).truthiness());
}

#[test]
fn not_negates_truthiness() {
    assert_eq!(Value::nil().not(), Some(Value::Bool(true)));
    assert_eq!(Value::bool(true).not(), Some(Value::Bool(false)));
    assert_eq!(Value::number(bits(0.0)).not(), Some(Value::Bool(false)));
    assert_eq!(string("").not(), Some(Value::Bool(false)));
}

#[test]
fn minus_is_for_numbers() {
    assert_eq!(Value::number(bits(2.5)).minus(), Some(Outcome::Ask(Question::Negate(bits(2.5)))));
    assert_eq!(Value::nil().minus(), None);
    assert_eq!(Value::bool(true).minus(), None);
    assert_eq!(string("1").minus(), None);
}

#[test]
fn adding_numbers_asks_for_their_sum() {
    let arena = Rodeo::default();
    let sum = Value::number(bits(1.5)).add(Value::number(bits(2.0)), &arena);
    assert_eq!(sum, Some(Outcome::Ask(Question::Arithmetic(Arithmetic::Add, bits(1.5), bits(2.0)))));
    let value = answer_value(&Question::Arithmetic(Arithmetic::Add, bits(1.5), bits(2.0)), &Answer::Number(bits(3.5)));
    assert_eq!(value, Some(Value::Number(bits(3.5))));
}

#[test]
fn adding_strings_concatenates() {
    let mut arena = Rodeo::default();
    let world = arena.get_or_intern("world");
    assert_eq!(string("hello ").add(string("there"), &arena), Some(Outcome::Value(string("hello there"))));
    assert_eq!(string("hello ").add(Value::string_literal(world), &arena), Some(Outcome::Value(string("hello world"))));
    assert_eq!(string("").add(string(""), &arena), Some(Outcome::Value(string(""))));
}

#[test]
fn adding_is_undefined_for_other_operands() {
    let mut arena = Rodeo::default();
    let x = arena.get_or_intern("x");
    assert_eq!(Value::number(bits(1.0)).add(Value::string_literal(x), &arena), None);
    assert_eq!(Value::number(bits(1.0)).add(string("x"), &arena), None);
    assert_eq!(string("x").add(Value::number(bits(1.0)), &arena), None);
    assert_eq!(Value::string_literal(x).add(string("x"), &arena), None);
    assert_eq!(Value::string_literal(x).add(Value::string_literal(x), &arena), None);
    assert_eq!(Value::nil().add(Value::nil(), &arena), None);
    assert_eq!(Value::bool(true).add(Value::bool(true), &arena), None);
}

#[test]
fn a_literal_of_another_arena_has_no_text() {
    let arena = Rodeo::default();
    let stranger = Spur::try_from_usize(41).unwrap();
    assert_eq!(string("x").add(Value::string_literal(stranger), &arena), None);
    assert_eq!(string("x").eq(&Value::string_literal(stranger), &arena), truth(false));
    assert_eq!(Value::string_literal(stranger).render(&arena), Printable::Text("StringLiteral(spur|42|)".to_string()));
}

#[test]
fn arithmetic_is_for_numbers() {
    let a = bits(6.0);
    let b = bits(0.0);
    assert_eq!(Value::number(a).sub(Value::number(b)), Some(Outcome::Ask(Question::Arithmetic(Arithmetic::Subtract, a, b))));
    assert_eq!(Value::number(a).mul(Value::number(b)), Some(Outcome::Ask(Question::Arithmetic(Arithmetic::Multiply, a, b))));
    assert_eq!(Value::number(a).div(Value::number(b)), Some(Outcome::Ask(Question::Arithmetic(Arithmetic::Divide, a, b))));
    assert_eq!(string("a").sub(string("b")), None);
    assert_eq!(Value::number(a).mul(Value::nil()), None);
    assert_eq!(Value::bool(true).div(Value::number(a)), None);
}

#[test]
fn comparison_is_for_numbers() {
    let a = bits(1.0);
    let b = bits(2.0);
    assert_eq!(Value::number(a).gt(&Value::number(b)), Some(Outcome::Ask(Question::Comparison(Comparison::Greater, a, b))));
    assert_eq!(Value::number(a).ge(&Value::number(b)), Some(Outcome::Ask(Question::Comparison(Comparison::GreaterEqual, a, b))));
    assert_eq!(Value::number(a).lt(&Value::number(b)), Some(Outcome::Ask(Question::Comparison(Comparison::Less, a, b))));
    assert_eq!(Value::number(a).le(&Value::number(b)), Some(Outcome::Ask(Question::Comparison(Comparison::LessEqual, a, b))));
    assert_eq!(string("a").gt(&string("b")), None);
    assert_eq!(Value::nil().ge(&Value::nil()), None);
    assert_eq!(Value::number(a).lt(&Value::bool(true)), None);
    assert_eq!(Value::bool(false).le(&Value::number(a)), None);
}

#[test]
fn equality_by_value() {
    let arena = Rodeo::default();
    assert_eq!(Value::nil().eq(&Value::nil(), &arena), truth(true));
    assert_eq!(Value::bool(true).eq(&Value::bool(true), &arena), truth(true));
    assert_eq!(Value::bool(true).eq(&Value::bool(false), &arena), truth(false));
    assert_eq!(string("a").eq(&string("a"), &arena), truth(true));
    assert_eq!(string("a").eq(&string("b"), &arena), truth(false));
    assert_eq!(string("a").eq(&string("ab"), &arena), truth(false));
    assert_eq!(Value::nil().eq(&Value::bool(false), &arena), truth(false));
    assert_eq!(Value::number(bits(0.0)).eq(&Value::nil(), &arena), truth(false));
    assert_eq!(string("1").eq(&Value::number(bits(1.0)), &arena), truth(false));
    assert_eq!(Value::object(Object {}).eq(&Value::object(Object {}), &arena), truth(false));
    assert_eq!(
        Value::number(bits(1.0)).eq(&Value::number(bits(1.0)), &arena),
        Some(Outcome::Ask(Question::Comparison(Comparison::Equal, bits(1.0), bits(1.0))))
    );
    assert_eq!(
        Value::number(bits(1.0)).neq(&Value::number(bits(2.0)), &arena),
        Some(Outcome::Ask(Question::Comparison(Comparison::NotEqual, bits(1.0), bits(2.0))))
    );
}

#[test]
fn strings_and_literals_compare_by_text() {
    let mut arena = Rodeo::default();
    let other = arena.get_or_intern("other");
    let text = arena.get_or_intern("text");
    let constructed = string("text");
    let literal = Value::string_literal(text);
    assert_eq!(constructed.eq(&literal, &arena), truth(true));
    assert_eq!(literal.eq(&constructed, &arena), truth(true));
    assert_eq!(constructed.neq(&literal, &arena), truth(false));
    assert_eq!(literal.neq(&constructed, &arena), truth(false));
    assert_eq!(constructed.eq(&Value::string_literal(other), &arena), truth(false));
    assert_eq!(Value::string_literal(other).eq(&constructed, &arena), truth(false));
    assert_eq!(constructed.neq(&Value::string_literal(other), &arena), truth(true));
    assert_eq!(literal.eq(&Value::string_literal(text), &arena), truth(true));
    assert_eq!(literal.eq(&Value::string_literal(other), &arena), truth(false));
    assert_eq!(literal.neq(&Value::string_literal(other), &arena), truth(true));
}

#[test]
fn type_names() {
    let mut arena = Rodeo::default();
    let key = arena.get_or_intern("f");
    assert_eq!(Value::nil().name(), "<nil>");
    assert_eq!(Value::bool(true).name(), "<bool>");
    assert_eq!(Value::number(bits(1.0)).name(), "<number>");
    assert_eq!(string("s").name(), "<string>");
    assert_eq!(Value::string_literal(key).name(), "<string>");
    assert_eq!(Value::object(Object {}).name(), "<object>");
    assert_eq!(Value::function(Function { name: key }).name(), "<function>");
    assert_eq!(Value::native_function(NativeFunction { name: key }).name(), "<function>");
}

#[test]
fn rendering() {
    let mut arena = Rodeo::default();
    for i in 0..11 {
        arena.get_or_intern(format!("name{}", i));
    }
    let key = arena.get_or_intern("twelfth");
    assert_eq!(key.into_usize(), 11);
    assert_eq!(Value::nil().render(&arena), Printable::Text("nil".to_string()));
    assert_eq!(Value::bool(true).render(&arena), Printable::Text("true".to_string()));
    assert_eq!(Value::bool(false).render(&arena), Printable::Text("false".to_string()));
    assert_eq!(Value::number(bits(1.5)).render(&arena), Printable::Number(bits(1.5)));
    assert_eq!(string("text").render(&arena), Printable::Text("text".to_string()));
    assert_eq!(Value::string_literal(key).render(&arena), Printable::Text("twelfth".to_string()));
    assert_eq!(Value::object(Object {}).render(&arena), Printable::Text("<object>".to_string()));
    assert_eq!(Value::function(Function { name: key }).render(&arena), Printable::Text("<fun spur|12|>".to_string()));
    assert_eq!(
        Value::native_function(NativeFunction { name: key }).render(&arena),
        Printable::Text("<fun spur|12|>".to_string())
    );
}

#[test]
fn clone_keeps_the_value() {
    let mut arena = Rodeo::default();
    let key = arena.get_or_intern("k");
    let values = vec![
        Value::nil(),
        Value::bool(true),
        Value::number(bits(2.0)),
        string("shared"),
        Value::string_literal(key),
        Value::object(Object {}),
        Value::function(Function { name: key }),
        Value::native_function(NativeFunction { name: key }),
    ];
    for value in values {
        assert_eq!(value.clone(), value);
    }
    let text = std::rc::Rc::new("shared".to_string());
    let copy = Value::String(text.clone()).clone();
    match copy {
        Value::String(other) => assert!(std::rc::Rc::ptr_eq(&text, &other)),
        _ => panic!("a string stays a string"),
    }
}

#[test]
fn operators_dispatch() {
    let arena = Rodeo::default();
    let a = bits(3.0);
    let b = bits(4.0);
    assert_eq!(apply_unary(UnaryOp::Not, &Value::nil()), truth(true));
    assert_eq!(apply_unary(UnaryOp::Minus, &Value::number(a)), Some(Outcome::Ask(Question::Negate(a))));
    assert_eq!(apply_unary(UnaryOp::Minus, &string("a")), None);
    let cases = [
        (BinaryOp::Add, Question::Arithmetic(Arithmetic::Add, a, b)),
        (BinaryOp::Sub, Question::Arithmetic(Arithmetic::Subtract, a, b)),
        (BinaryOp::Mul, Question::Arithmetic(Arithmetic::Multiply, a, b)),
        (BinaryOp::Div, Question::Arithmetic(Arithmetic::Divide, a, b)),
        (BinaryOp::Equal, Question::Comparison(Comparison::Equal, a, b)),
        (BinaryOp::NotEqual, Question::Comparison(Comparison::NotEqual, a, b)),
        (BinaryOp::Greater, Question::Comparison(Comparison::Greater, a, b)),
        (BinaryOp::GreaterEqual, Question::Comparison(Comparison::GreaterEqual, a, b)),
        (BinaryOp::Less, Question::Comparison(Comparison::Less, a, b)),
        (BinaryOp::LessEqual, Question::Comparison(Comparison::LessEqual, a, b)),
    ];
    for (op, question) in cases {
        assert_eq!(apply_binary(op, Value::number(a), Value::number(b), &arena), Some(Outcome::Ask(question)));
    }
    assert_eq!(apply_binary(BinaryOp::Equal, string("a"), string("a"), &arena), truth(true));
    assert_eq!(apply_binary(BinaryOp::NotEqual, string("a"), string("a"), &arena), truth(false));
}

#[test]
fn answers_become_values() {
    let a = bits(1.0);
    assert_eq!(answer_value(&Question::Negate(a), &Answer::Number(bits(-1.0))), Some(Value::Number(bits(-1.0))));
    assert_eq!(answer_value(&Question::Comparison(Comparison::Less, a, a), &Answer::Truth(false)), Some(Value::Bool(false)));
    assert_eq!(answer_value(&Question::Comparison(Comparison::Less, a, a), &Answer::Number(a)), None);
    assert_eq!(answer_value(&Question::Arithmetic(Arithmetic::Divide, a, a), &Answer::Truth(true)), None);
    assert_eq!(answer_value(&Question::Negate(a), &Answer::Truth(true)), None);
}

#[test]
fn environment_defines_and_looks_up() {
    let here = Location { line: 3, column: 7 };
    let mut env = Env::new();
    assert_eq!(env.lookup(here, "x"), Err(RuntimeError::UndefinedVariable(here, "x".to_string())));
    env.define("x".to_string(), Value::number(bits(1.0)));
    env.define("y".to_string(), string("why"));
    assert_eq!(env.lookup(here, "x"), Ok(Value::number(bits(1.0))));
    assert_eq!(env.lookup(here, "y"), Ok(string("why")));
    env.define("x".to_string(), Value::bool(true));
    assert_eq!(env.lookup(here, "x"), Ok(Value::bool(true)));
    assert_eq!(env.lookup(here, "xx"), Err(RuntimeError::UndefinedVariable(here, "xx".to_string())));
}

#[test]
fn child_scopes_shadow_and_are_discarded() {
    let here = Location { line: 1, column: 1 };
    let mut env = Env::new();
    env.define("x".to_string(), Value::number(bits(1.0)));
    env.define("y".to_string(), Value::number(bits(5.0)));
    env.child();
    assert_eq!(env.lookup(here, "x"), Ok(Value::number(bits(1.0))));
    env.define("x".to_string(), Value::number(bits(2.0)));
    env.define("z".to_string(), Value::nil());
    assert_eq!(env.lookup(here, "x"), Ok(Value::number(bits(2.0))));
    assert_eq!(env.lookup(here, "y"), Ok(Value::number(bits(5.0))));
    env.child();
    env.define("x".to_string(), Value::number(bits(3.0)));
    assert_eq!(env.lookup(here, "x"), Ok(Value::number(bits(3.0))));
    assert_eq!(env.lookup(here, "z"), Ok(Value::nil()));
    env.leave();
    assert_eq!(env.lookup(here, "x"), Ok(Value::number(bits(2.0))));
    env.leave();
    assert_eq!(env.lookup(here, "x"), Ok(Value::number(bits(1.0))));
    assert_eq!(env.lookup(here, "z"), Err(RuntimeError::UndefinedVariable(here, "z".to_string())));
    env.leave();
    assert_eq!(env.lookup(here, "x"), Ok(Value::number(bits(1.0))));
    env.child();
    env.child();
    env.define("w".to_string(), Value::nil());
    env.leave_all();
    assert_eq!(env.lookup(here, "w"), Err(RuntimeError::UndefinedVariable(here, "w".to_string())));
    assert_eq!(env.lookup(here, "y"), Ok(Value::number(bits(5.0))));
}

#[test]
fn runtime_errors_tell_their_location() {
    let here = Location { line: 4, column: 2 };
    assert_eq!(RuntimeError::InvalidBinaryOp(here, BinaryOp::Add, "<number>", "<string>").loc(), here);
    assert_eq!(RuntimeError::InvalidUnaryOp(here, UnaryOp::Minus, "<nil>").loc(), here);
    assert_eq!(RuntimeError::UndefinedVariable(here, "y".to_string()).loc(), here);
}
