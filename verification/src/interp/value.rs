//! Runtime values and the operators on them.
//!
//! Every operator is a partial function: it is defined for some
//! combinations of operand types and undefined (`None`) for the others.
//! Where both operands are numbers the operator does not compute; it asks
//! (see `number`).

use vstd::prelude::*;
use std::rc::Rc;
use lasso::{Rodeo, Spur};
use super::function::{Function, NativeFunction};
use super::intern::{index_of, interned, key_index, same_key, try_resolve};
use super::number::{Arithmetic, Comparison, Question};
use super::object::Object;
use crate::util::{decimal, push_decimal, text_equals};

verus! {

/// A runtime value.
#[derive(Debug, PartialEq, PartialOrd)]
pub enum Value {
    Nil,
    Bool(bool),
    /// A double, by its bits.
    Number(u64),
    String(Rc<String>),
    Object(Rc<Object>),
    Function(Rc<Function>),
    NativeFunction(Rc<NativeFunction>),
    /// A string that is written out in the source. It holds no text, only
    /// the key under which an arena holds the text. To the language it is a
    /// string like any other.
    StringLiteral(Spur),
}

/// What a `Value` holds, as mathematical values. A function is given by the
/// index of its name's key, a string literal by the index of its key.
pub enum ValueView {
    Nil,
    Bool(bool),
    Number(u64),
    String(Seq<char>),
    Object,
    Function(nat),
    NativeFunction(nat),
    StringLiteral(nat),
}

/// What applying an operator comes to.
#[derive(Debug, PartialEq)]
pub enum Outcome {
    /// The operator's value.
    Value(Value),
    /// The operands are numbers: the operator's value is the host's answer
    /// to this question.
    Ask(Question),
}

/// What an `Outcome` holds, as mathematical values.
pub enum OutcomeView {
    Value(ValueView),
    Ask(Question),
}

impl View for Outcome {
    type V = OutcomeView;

    open spec fn view(&self) -> OutcomeView {
        match self {
            Outcome::Value(v) => OutcomeView::Value(v@),
            Outcome::Ask(q) => OutcomeView::Ask(*q),
        }
    }
}

/// What `print` writes for a value: a text, or a number that is still to be
/// turned into text.
#[derive(Debug, PartialEq)]
pub enum Printable {
    Text(String),
    /// The bits of a double.
    Number(u64),
}

/// What a `Printable` holds, as mathematical values.
pub enum PrintableView {
    Text(Seq<char>),
    Number(u64),
}

impl View for Printable {
    type V = PrintableView;

    open spec fn view(&self) -> PrintableView {
        match self {
            Printable::Text(text) => PrintableView::Text(text@),
            Printable::Number(bits) => PrintableView::Number(*bits),
        }
    }
}

impl View for Value {
    type V = ValueView;

    open spec fn view(&self) -> ValueView {
        match self {
            Value::Nil => ValueView::Nil,
            Value::Bool(b) => ValueView::Bool(*b),
            Value::Number(bits) => ValueView::Number(*bits),
            Value::String(text) => ValueView::String(text@),
            Value::Object(_) => ValueView::Object,
            Value::Function(f) => ValueView::Function(key_index(f.name)),
            Value::NativeFunction(f) => ValueView::NativeFunction(key_index(f.name)),
            Value::StringLiteral(key) => ValueView::StringLiteral(key_index(*key)),
        }
    }
}

impl ValueView {
    /// Only `nil` and `false` are falsy.
    pub open spec fn truthiness(self) -> bool {
        match self {
            ValueView::Nil => false,
            ValueView::Bool(b) => b,
            _ => true,
        }
    }

    /// The text of a string literal whose key the arena knows: `strings`
    /// are the arena's texts.
    pub open spec fn literal_text(index: nat, strings: Seq<Seq<char>>) -> Option<Seq<char>> {
        if index < strings.len() {
            Some(strings[index as int])
        } else {
            None
        }
    }

    /// Logical negation of the truthiness; defined for every value.
    pub open spec fn not(self) -> Option<ValueView> {
        Some(ValueView::Bool(!self.truthiness()))
    }

    /// Arithmetic negation; defined for numbers.
    pub open spec fn minus(self) -> Option<OutcomeView> {
        match self {
            ValueView::Number(bits) => Some(OutcomeView::Ask(Question::Negate(bits))),
            _ => None,
        }
    }

    /// An operator that is defined for two numbers only.
    pub open spec fn numeric(self, other: ValueView, question: spec_fn(u64, u64) -> Question)
        -> Option<OutcomeView> {
        match (self, other) {
            (ValueView::Number(a), ValueView::Number(b)) => Some(OutcomeView::Ask(question(a, b))),
            _ => None,
        }
    }

    /// Addition of two numbers, or concatenation of a string with a string
    /// or with a string literal that the arena knows.
    pub open spec fn add(self, other: ValueView, strings: Seq<Seq<char>>) -> Option<OutcomeView> {
        match (self, other) {
            (ValueView::Number(a), ValueView::Number(b)) => Some(
                OutcomeView::Ask(Question::Arithmetic(Arithmetic::Add, a, b)),
            ),
            (ValueView::String(a), ValueView::String(b)) => Some(
                OutcomeView::Value(ValueView::String(a + b)),
            ),
            (ValueView::String(a), ValueView::StringLiteral(k)) => match ValueView::literal_text(
                k,
                strings,
            ) {
                Some(b) => Some(OutcomeView::Value(ValueView::String(a + b))),
                None => None,
            },
            _ => None,
        }
    }

    pub open spec fn sub(self, other: ValueView) -> Option<OutcomeView> {
        self.numeric(other, |a: u64, b: u64| Question::Arithmetic(Arithmetic::Subtract, a, b))
    }

    pub open spec fn mul(self, other: ValueView) -> Option<OutcomeView> {
        self.numeric(other, |a: u64, b: u64| Question::Arithmetic(Arithmetic::Multiply, a, b))
    }

    pub open spec fn div(self, other: ValueView) -> Option<OutcomeView> {
        self.numeric(other, |a: u64, b: u64| Question::Arithmetic(Arithmetic::Divide, a, b))
    }

    pub open spec fn gt(self, other: ValueView) -> Option<OutcomeView> {
        self.numeric(other, |a: u64, b: u64| Question::Comparison(Comparison::Greater, a, b))
    }

    pub open spec fn ge(self, other: ValueView) -> Option<OutcomeView> {
        self.numeric(other, |a: u64, b: u64| Question::Comparison(Comparison::GreaterEqual, a, b))
    }

    pub open spec fn lt(self, other: ValueView) -> Option<OutcomeView> {
        self.numeric(other, |a: u64, b: u64| Question::Comparison(Comparison::Less, a, b))
    }

    pub open spec fn le(self, other: ValueView) -> Option<OutcomeView> {
        self.numeric(other, |a: u64, b: u64| Question::Comparison(Comparison::LessEqual, a, b))
    }

    /// Whether two values that are not both numbers are equal. Values of
    /// different types are unequal, but a string and a string literal are
    /// of one type and compare by text. Two literals compare by key. A
    /// literal that the arena does not know has no text and equals no
    /// string. Objects and functions are equal to nothing.
    pub open spec fn same(self, other: ValueView, strings: Seq<Seq<char>>) -> bool {
        match (self, other) {
            (ValueView::Nil, ValueView::Nil) => true,
            (ValueView::Bool(a), ValueView::Bool(b)) => a == b,
            (ValueView::String(a), ValueView::String(b)) => a == b,
            (ValueView::String(a), ValueView::StringLiteral(k)) => ValueView::literal_text(
                k,
                strings,
            ) == Some(a),
            (ValueView::StringLiteral(k), ValueView::String(b)) => ValueView::literal_text(
                k,
                strings,
            ) == Some(b),
            (ValueView::StringLiteral(j), ValueView::StringLiteral(k)) => j == k,
            _ => false,
        }
    }

    /// Equality; defined for every pair of values. Two numbers are compared
    /// by the host.
    pub open spec fn eq(self, other: ValueView, strings: Seq<Seq<char>>) -> Option<OutcomeView> {
        match (self, other) {
            (ValueView::Number(a), ValueView::Number(b)) => Some(
                OutcomeView::Ask(Question::Comparison(Comparison::Equal, a, b)),
            ),
            _ => Some(OutcomeView::Value(ValueView::Bool(self.same(other, strings)))),
        }
    }

    /// Inequality: the negation of equality.
    pub open spec fn neq(self, other: ValueView, strings: Seq<Seq<char>>) -> Option<OutcomeView> {
        match (self, other) {
            (ValueView::Number(a), ValueView::Number(b)) => Some(
                OutcomeView::Ask(Question::Comparison(Comparison::NotEqual, a, b)),
            ),
            _ => Some(OutcomeView::Value(ValueView::Bool(!self.same(other, strings)))),
        }
    }

    /// How a key is shown where there is no text to show for it. Keys are
    /// numbered from 1.
    pub open spec fn key_tag(before: Seq<char>, index: nat, after: Seq<char>) -> Seq<char> {
        before + decimal(index + 1) + after
    }

    /// What `print` writes for a value: `nil`, `true` or `false`, the number,
    /// the text of a string, and a tag for what has no text.
    pub open spec fn render(self, strings: Seq<Seq<char>>) -> PrintableView {
        match self {
            ValueView::Nil => PrintableView::Text("nil"@),
            ValueView::Bool(b) => PrintableView::Text(
                if b {
                    "true"@
                } else {
                    "false"@
                },
            ),
            ValueView::Number(bits) => PrintableView::Number(bits),
            ValueView::String(text) => PrintableView::Text(text),
            ValueView::Object => PrintableView::Text("<object>"@),
            ValueView::Function(k) => PrintableView::Text(
                ValueView::key_tag("<fun spur|"@, k, "|>"@),
            ),
            ValueView::NativeFunction(k) => PrintableView::Text(
                ValueView::key_tag("<fun spur|"@, k, "|>"@),
            ),
            ValueView::StringLiteral(k) => match ValueView::literal_text(k, strings) {
                Some(text) => PrintableView::Text(text),
                None => PrintableView::Text(ValueView::key_tag("StringLiteral(spur|"@, k, "|)"@)),
            },
        }
    }

    /// The tag under which a value's type is shown in error messages.
    pub open spec fn name(self) -> Seq<char> {
        match self {
            ValueView::Nil => "<nil>"@,
            ValueView::Bool(_) => "<bool>"@,
            ValueView::Number(_) => "<number>"@,
            ValueView::String(_) => "<string>"@,
            ValueView::Object => "<object>"@,
            ValueView::Function(_) => "<function>"@,
            ValueView::NativeFunction(_) => "<function>"@,
            ValueView::StringLiteral(_) => "<string>"@,
        }
    }
}

/// Every value but `nil` and `false` is truthy.
pub proof fn lemma_truthiness(v: ValueView)
    ensures
        !ValueView::Nil.truthiness(),
        !ValueView::Bool(false).truthiness(),
        v != ValueView::Nil && v != ValueView::Bool(false) ==> v.truthiness(),
{
}

/// Adding two numbers asks for their sum. Adding a string and a string, or a
/// string and a literal that the arena knows, concatenates their texts.
/// Adding a number and a string of either kind is undefined.
pub proof fn lemma_add(a: u64, b: u64, s: Seq<char>, t: Seq<char>, k: nat, strings: Seq<Seq<char>>)
    ensures
        ValueView::Number(a).add(ValueView::Number(b), strings) == Some(
            OutcomeView::Ask(Question::Arithmetic(Arithmetic::Add, a, b)),
        ),
        ValueView::String(s).add(ValueView::String(t), strings) == Some(
            OutcomeView::Value(ValueView::String(s + t)),
        ),
        k < strings.len() ==> ValueView::String(s).add(ValueView::StringLiteral(k), strings)
            == Some(OutcomeView::Value(ValueView::String(s + strings[k as int]))),
        ValueView::Number(a).add(ValueView::String(s), strings) is None,
        ValueView::Number(a).add(ValueView::StringLiteral(k), strings) is None,
{
}

/// Equality does not depend on the order of its operands, and inequality
/// is its negation, for every pair of values that are not both numbers.
pub proof fn lemma_eq_symmetric(a: ValueView, b: ValueView, strings: Seq<Seq<char>>)
    requires
        !(a is Number && b is Number),
    ensures
        a.eq(b, strings) == b.eq(a, strings),
        a.neq(b, strings) == b.neq(a, strings),
        a.eq(b, strings) == Some(OutcomeView::Value(ValueView::Bool(a.same(b, strings)))),
        a.neq(b, strings) == Some(OutcomeView::Value(ValueView::Bool(!a.same(b, strings)))),
{
}

/// A string equals the literal that was interned from its text, whichever
/// operand comes first, and is not unequal to it.
pub proof fn lemma_literal_equals_its_text(s: Seq<char>, k: nat, strings: Seq<Seq<char>>)
    requires
        k < strings.len(),
        strings[k as int] == s,
    ensures
        ValueView::String(s).eq(ValueView::StringLiteral(k), strings) == Some(
            OutcomeView::Value(ValueView::Bool(true)),
        ),
        ValueView::StringLiteral(k).eq(ValueView::String(s), strings) == Some(
            OutcomeView::Value(ValueView::Bool(true)),
        ),
        ValueView::String(s).neq(ValueView::StringLiteral(k), strings) == Some(
            OutcomeView::Value(ValueView::Bool(false)),
        ),
        ValueView::StringLiteral(k).neq(ValueView::String(s), strings) == Some(
            OutcomeView::Value(ValueView::Bool(false)),
        ),
{
}

/// `Rc::clone`: another handle to the same shared value.
#[verifier::external_body]
fn share<T>(shared: &Rc<T>) -> (other: Rc<T>)
    ensures
        other == *shared,
{
    Rc::clone(shared)
}

impl Value {
    pub fn nil() -> (v: Self)
        ensures
            v == Value::Nil,
    {
        Value::Nil
    }

    pub fn bool(b: bool) -> (v: Self)
        ensures
            v == Value::Bool(b),
    {
        Value::Bool(b)
    }

    /// The number whose double has the bits `bits`.
    pub fn number(bits: u64) -> (v: Self)
        ensures
            v == Value::Number(bits),
    {
        Value::Number(bits)
    }

    pub fn string(str: String) -> (v: Self)
        ensures
            v@ == ValueView::String(str@),
    {
        Value::String(Rc::new(str))
    }

    pub fn object(obj: Object) -> (v: Self)
        ensures
            v@ == ValueView::Object,
    {
        Value::Object(Rc::new(obj))
    }

    pub fn function(func: Function) -> (v: Self)
        ensures
            v@ == ValueView::Function(key_index(func.name)),
    {
        Value::Function(Rc::new(func))
    }

    pub fn native_function(func: NativeFunction) -> (v: Self)
        ensures
            v@ == ValueView::NativeFunction(key_index(func.name)),
    {
        Value::NativeFunction(Rc::new(func))
    }

    pub fn string_literal(spur: Spur) -> (v: Self)
        ensures
            v == Value::StringLiteral(spur),
    {
        Value::StringLiteral(spur)
    }

    /// Only `nil` and `false` are falsy; every other value is truthy.
    pub fn truthiness(&self) -> (truthy: bool)
        ensures
            truthy == self@.truthiness(),
    {
        match self {
            Value::Nil => false,
            Value::Bool(b) => *b,
            _ => true,
        }
    }

    pub fn not(&self) -> (result: Option<Value>)
        ensures
            result matches Some(v) && self@.not() == Some(v@),
    {
        Some(Value::Bool(!self.truthiness()))
    }

    pub fn minus(&self) -> (result: Option<Outcome>)
        ensures
            outcome_view(result) == self@.minus(),
    {
        match self {
            Value::Number(bits) => Some(Outcome::Ask(Question::Negate(*bits))),
            _ => None,
        }
    }

    pub fn add(self, other: Self, arena: &Rodeo) -> (result: Option<Outcome>)
        ensures
            outcome_view(result) == self@.add(other@, interned(*arena)),
    {
        match (self, other) {
            (Value::Number(a), Value::Number(b)) => Some(
                Outcome::Ask(Question::Arithmetic(Arithmetic::Add, a, b)),
            ),
            (Value::String(str1), Value::String(str2)) => {
                let mut new_str = (*str1).clone();
                new_str.append(str2.as_str());
                Some(Outcome::Value(Value::string(new_str)))
            },
            (Value::String(str1), Value::StringLiteral(spur)) => {
                match try_resolve(arena, &spur) {
                    Some(str2) => {
                        let mut new_str = (*str1).clone();
                        new_str.append(str2);
                        Some(Outcome::Value(Value::string(new_str)))
                    },
                    None => None,
                }
            },
            _ => None,
        }
    }

    pub fn sub(self, other: Self) -> (result: Option<Outcome>)
        ensures
            outcome_view(result) == self@.sub(other@),
    {
        match (self, other) {
            (Value::Number(a), Value::Number(b)) => Some(
                Outcome::Ask(Question::Arithmetic(Arithmetic::Subtract, a, b)),
            ),
            _ => None,
        }
    }

    pub fn mul(self, other: Self) -> (result: Option<Outcome>)
        ensures
            outcome_view(result) == self@.mul(other@),
    {
        match (self, other) {
            (Value::Number(a), Value::Number(b)) => Some(
                Outcome::Ask(Question::Arithmetic(Arithmetic::Multiply, a, b)),
            ),
            _ => None,
        }
    }

    pub fn div(self, other: Self) -> (result: Option<Outcome>)
        ensures
            outcome_view(result) == self@.div(other@),
    {
        match (self, other) {
            (Value::Number(a), Value::Number(b)) => Some(
                Outcome::Ask(Question::Arithmetic(Arithmetic::Divide, a, b)),
            ),
            _ => None,
        }
    }

    /// Decides `ValueView::same`.
    fn same(&self, other: &Self, arena: &Rodeo) -> (same: bool)
        ensures
            same == self@.same(other@, interned(*arena)),
    {
        match (self, other) {
            (Value::Nil, Value::Nil) => true,
            (Value::Bool(b1), Value::Bool(b2)) => *b1 == *b2,
            (Value::String(str1), Value::String(str2)) => **str1 == **str2,
            (Value::String(str1), Value::StringLiteral(str2)) => {
                match try_resolve(arena, str2) {
                    Some(text) => text_equals(str1.as_str(), text),
                    None => false,
                }
            },
            (Value::StringLiteral(str1), Value::String(str2)) => {
                match try_resolve(arena, str1) {
                    Some(text) => text_equals(text, str2.as_str()),
                    None => false,
                }
            },
            (Value::StringLiteral(str1), Value::StringLiteral(str2)) => same_key(str1, str2),
            _ => false,
        }
    }

    pub fn eq(&self, other: &Self, arena: &Rodeo) -> (result: Option<Outcome>)
        ensures
            outcome_view(result) == self@.eq(other@, interned(*arena)),
    {
        match (self, other) {
            (Value::Number(a), Value::Number(b)) => Some(
                Outcome::Ask(Question::Comparison(Comparison::Equal, *a, *b)),
            ),
            _ => Some(Outcome::Value(Value::Bool(self.same(other, arena)))),
        }
    }

    pub fn neq(&self, other: &Self, arena: &Rodeo) -> (result: Option<Outcome>)
        ensures
            outcome_view(result) == self@.neq(other@, interned(*arena)),
    {
        match (self, other) {
            (Value::Number(a), Value::Number(b)) => Some(
                Outcome::Ask(Question::Comparison(Comparison::NotEqual, *a, *b)),
            ),
            _ => Some(Outcome::Value(Value::Bool(!self.same(other, arena)))),
        }
    }

    pub fn gt(&self, other: &Self) -> (result: Option<Outcome>)
        ensures
            outcome_view(result) == self@.gt(other@),
    {
        match (self, other) {
            (Value::Number(a), Value::Number(b)) => Some(
                Outcome::Ask(Question::Comparison(Comparison::Greater, *a, *b)),
            ),
            _ => None,
        }
    }

    pub fn ge(&self, other: &Self) -> (result: Option<Outcome>)
        ensures
            outcome_view(result) == self@.ge(other@),
    {
        match (self, other) {
            (Value::Number(a), Value::Number(b)) => Some(
                Outcome::Ask(Question::Comparison(Comparison::GreaterEqual, *a, *b)),
            ),
            _ => None,
        }
    }

    pub fn lt(&self, other: &Self) -> (result: Option<Outcome>)
        ensures
            outcome_view(result) == self@.lt(other@),
    {
        match (self, other) {
            (Value::Number(a), Value::Number(b)) => Some(
                Outcome::Ask(Question::Comparison(Comparison::Less, *a, *b)),
            ),
            _ => None,
        }
    }

    pub fn le(&self, other: &Self) -> (result: Option<Outcome>)
        ensures
            outcome_view(result) == self@.le(other@),
    {
        match (self, other) {
            (Value::Number(a), Value::Number(b)) => Some(
                Outcome::Ask(Question::Comparison(Comparison::LessEqual, *a, *b)),
            ),
            _ => None,
        }
    }

    /// What `print` writes for this value.
    pub fn render(&self, arena: &Rodeo) -> (shown: Printable)
        ensures
            shown@ == self@.render(interned(*arena)),
    {
        match self {
            Value::Nil => Printable::Text(String::from_str("nil")),
            Value::Bool(b) => Printable::Text(
                if *b {
                    String::from_str("true")
                } else {
                    String::from_str("false")
                },
            ),
            Value::Number(bits) => Printable::Number(*bits),
            Value::String(text) => Printable::Text((**text).clone()),
            Value::Object(_) => Printable::Text(String::from_str("<object>")),
            Value::Function(f) => Printable::Text(key_tag("<fun spur|", &f.name, "|>")),
            Value::NativeFunction(f) => Printable::Text(key_tag("<fun spur|", &f.name, "|>")),
            Value::StringLiteral(key) => match try_resolve(arena, key) {
                Some(text) => Printable::Text(String::from_str(text)),
                None => Printable::Text(key_tag("StringLiteral(spur|", key, "|)")),
            },
        }
    }

    pub fn name(&self) -> (tag: &'static str)
        ensures
            tag@ == self@.name(),
    {
        match self {
            Value::Nil => "<nil>",
            Value::Bool(_) => "<bool>",
            Value::Number(_) => "<number>",
            Value::String(_) => "<string>",
            Value::Object(_) => "<object>",
            Value::Function(_) => "<function>",
            Value::NativeFunction(_) => "<function>",
            Value::StringLiteral(_) => "<string>",
        }
    }
}

impl Clone for Value {
    /// Copies what is small and shares what is large: no text is copied.
    fn clone(&self) -> (copy: Self)
        ensures
            copy == *self,
    {
        match self {
            Value::Nil => Value::Nil,
            Value::Bool(b) => Value::Bool(*b),
            Value::Number(num) => Value::Number(*num),
            Value::Function(fun) => Value::Function(share(fun)),
            Value::NativeFunction(fun) => Value::NativeFunction(share(fun)),
            Value::String(str) => Value::String(share(str)),
            Value::Object(obj) => Value::Object(share(obj)),
            Value::StringLiteral(spur) => Value::StringLiteral(*spur),
        }
    }
}

/// Computes `ValueView::key_tag`.
fn key_tag(before: &str, key: &Spur, after: &str) -> (tag: String)
    ensures
        tag@ == ValueView::key_tag(before@, key_index(*key), after@),
{
    let mut tag = String::from_str(before);
    let index = index_of(key);
    push_decimal(&mut tag, index + 1);
    tag.append(after);
    tag
}

/// The view of an operator's result.
pub open spec fn outcome_view(result: Option<Outcome>) -> Option<OutcomeView> {
    match result {
        Some(outcome) => Some(outcome@),
        None => None,
    }
}

} // verus!
