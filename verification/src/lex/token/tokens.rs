//! The payloads of tokens: punctuation, operators, keywords and literals,
//! each fixed symbol with its canonical spelling.

use vstd::prelude::*;
use vstd::std_specs::convert::{FromSpecImpl, TryFromSpecImpl};
use crate::util::{spells, to_chars};

verus! {

/// Why a text is no token of the kind asked for.
#[derive(Debug, Clone, Copy, PartialEq, Eq, Structural)]
pub enum TokenParseError {
    InvalidToken,
}

#[derive(Debug, Clone, Copy, PartialEq, Eq, PartialOrd, Ord, Hash, Structural)]
pub enum Punctuation {
    ParenLeft,
    ParenRight,
    BraceLeft,
    BraceRight,
    Comma,
    Dot,
    Semicolon,
}

impl Punctuation {
    /// The character that spells this punctuation mark.
    pub open spec fn symbol(self) -> char {
        match self {
            Punctuation::ParenLeft => '(',
            Punctuation::ParenRight => ')',
            Punctuation::BraceLeft => '{',
            Punctuation::BraceRight => '}',
            Punctuation::Comma => ',',
            Punctuation::Dot => '.',
            Punctuation::Semicolon => ';',
        }
    }

    /// The punctuation mark that `c` spells, if any.
    pub open spec fn recognize(c: char) -> Option<Punctuation> {
        if c == '(' {
            Some(Punctuation::ParenLeft)
        } else if c == ')' {
            Some(Punctuation::ParenRight)
        } else if c == '{' {
            Some(Punctuation::BraceLeft)
        } else if c == '}' {
            Some(Punctuation::BraceRight)
        } else if c == ',' {
            Some(Punctuation::Comma)
        } else if c == '.' {
            Some(Punctuation::Dot)
        } else if c == ';' {
            Some(Punctuation::Semicolon)
        } else {
            None
        }
    }

    /// Spelling a punctuation mark and reading the spelling back gives the
    /// same mark.
    pub proof fn lemma_round_trip(self)
        ensures
            Punctuation::recognize(self.symbol()) == Some(self),
    {
    }

    /// A character that is read as a punctuation mark is that mark's
    /// spelling.
    pub proof fn lemma_recognized_is_spelled(c: char)
        ensures
            Punctuation::recognize(c) matches Some(p) ==> p.symbol() == c,
    {
    }
}

impl From<Punctuation> for char {
    fn from(value: Punctuation) -> (c: char) {
        match value {
            Punctuation::ParenLeft => '(',
            Punctuation::ParenRight => ')',
            Punctuation::BraceLeft => '{',
            Punctuation::BraceRight => '}',
            Punctuation::Comma => ',',
            Punctuation::Dot => '.',
            Punctuation::Semicolon => ';',
        }
    }
}

impl FromSpecImpl<Punctuation> for char {
    open spec fn obeys_from_spec() -> bool {
        true
    }

    open spec fn from_spec(value: Punctuation) -> char {
        value.symbol()
    }
}

impl TryFrom<char> for Punctuation {
    type Error = TokenParseError;

    fn try_from(value: char) -> (r: Result<Self, Self::Error>) {
        match value {
            '(' => Ok(Punctuation::ParenLeft),
            ')' => Ok(Punctuation::ParenRight),
            '{' => Ok(Punctuation::BraceLeft),
            '}' => Ok(Punctuation::BraceRight),
            ',' => Ok(Punctuation::Comma),
            '.' => Ok(Punctuation::Dot),
            ';' => Ok(Punctuation::Semicolon),
            _ => Err(TokenParseError::InvalidToken),
        }
    }
}

impl TryFromSpecImpl<char> for Punctuation {
    open spec fn obeys_try_from_spec() -> bool {
        true
    }

    open spec fn try_from_spec(value: char) -> Result<Self, Self::Error> {
        match Punctuation::recognize(value) {
            Some(p) => Ok(p),
            None => Err(TokenParseError::InvalidToken),
        }
    }
}


#[derive(Debug, Clone, Copy, PartialEq, Eq, PartialOrd, Ord, Hash, Structural)]
pub enum Operator {
    Bang,
    BangEqual,
    Equal,
    EqualEqual,
    Greater,
    GreaterEqual,
    Less,
    LessEqual,
    Plus,
    Minus,
    Star,
    Slash,
}

impl Operator {
    /// The canonical spelling of this operator, as a string.
    pub open spec fn word(self) -> &'static str {
        match self {
            Operator::Bang => "!",
            Operator::BangEqual => "!=",
            Operator::Equal => "=",
            Operator::EqualEqual => "==",
            Operator::Greater => ">",
            Operator::GreaterEqual => ">=",
            Operator::Less => "<",
            Operator::LessEqual => "<=",
            Operator::Plus => "+",
            Operator::Minus => "-",
            Operator::Star => "*",
            Operator::Slash => "/",
        }
    }

    /// The canonical spelling of this operator, as characters.
    pub open spec fn spelling(self) -> Seq<char> {
        self.word()@
    }

    /// The operator that `text` spells, if any.
    pub open spec fn recognize(text: Seq<char>) -> Option<Operator> {
        if text == "!"@ {
            Some(Operator::Bang)
        } else if text == "!="@ {
            Some(Operator::BangEqual)
        } else if text == "="@ {
            Some(Operator::Equal)
        } else if text == "=="@ {
            Some(Operator::EqualEqual)
        } else if text == ">"@ {
            Some(Operator::Greater)
        } else if text == ">="@ {
            Some(Operator::GreaterEqual)
        } else if text == "<"@ {
            Some(Operator::Less)
        } else if text == "<="@ {
            Some(Operator::LessEqual)
        } else if text == "+"@ {
            Some(Operator::Plus)
        } else if text == "-"@ {
            Some(Operator::Minus)
        } else if text == "*"@ {
            Some(Operator::Star)
        } else if text == "/"@ {
            Some(Operator::Slash)
        } else {
            None
        }
    }

    /// The characters of each operator's spelling.
    pub proof fn lemma_spellings()
        ensures
            "!"@.len() == 1 && "!"@[0] == '!',
            "!="@.len() == 2 && "!="@[0] == '!' && "!="@[1] == '=',
            "="@.len() == 1 && "="@[0] == '=',
            "=="@.len() == 2 && "=="@[0] == '=' && "=="@[1] == '=',
            ">"@.len() == 1 && ">"@[0] == '>',
            ">="@.len() == 2 && ">="@[0] == '>' && ">="@[1] == '=',
            "<"@.len() == 1 && "<"@[0] == '<',
            "<="@.len() == 2 && "<="@[0] == '<' && "<="@[1] == '=',
            "+"@.len() == 1 && "+"@[0] == '+',
            "-"@.len() == 1 && "-"@[0] == '-',
            "*"@.len() == 1 && "*"@[0] == '*',
            "/"@.len() == 1 && "/"@[0] == '/',
    {
        reveal_strlit("!");
        reveal_strlit("!=");
        reveal_strlit("=");
        reveal_strlit("==");
        reveal_strlit(">");
        reveal_strlit(">=");
        reveal_strlit("<");
        reveal_strlit("<=");
        reveal_strlit("+");
        reveal_strlit("-");
        reveal_strlit("*");
        reveal_strlit("/");
    }

    /// Spelling an operator and reading the spelling back gives the same
    /// operator.
    pub proof fn lemma_round_trip(self)
        ensures
            Operator::recognize(self.spelling()) == Some(self),
    {
        Operator::lemma_spellings();
    }

    /// A text that is read as an operator is that operator's spelling.
    pub proof fn lemma_recognized_is_spelled(text: Seq<char>)
        ensures
            Operator::recognize(text) matches Some(k) ==> k.spelling() == text,
    {
    }

    /// Reads `text` as an operator.
    pub fn lookup(text: &Vec<char>) -> (found: Option<Operator>)
        ensures
            found == Operator::recognize(text@),
    {
        if spells(text, "!") {
            Some(Operator::Bang)
        } else if spells(text, "!=") {
            Some(Operator::BangEqual)
        } else if spells(text, "=") {
            Some(Operator::Equal)
        } else if spells(text, "==") {
            Some(Operator::EqualEqual)
        } else if spells(text, ">") {
            Some(Operator::Greater)
        } else if spells(text, ">=") {
            Some(Operator::GreaterEqual)
        } else if spells(text, "<") {
            Some(Operator::Less)
        } else if spells(text, "<=") {
            Some(Operator::LessEqual)
        } else if spells(text, "+") {
            Some(Operator::Plus)
        } else if spells(text, "-") {
            Some(Operator::Minus)
        } else if spells(text, "*") {
            Some(Operator::Star)
        } else if spells(text, "/") {
            Some(Operator::Slash)
        } else {
            None
        }
    }
}

impl From<Operator> for &'static str {
    fn from(value: Operator) -> (word: &'static str) {
        match value {
            Operator::Bang => "!",
            Operator::BangEqual => "!=",
            Operator::Equal => "=",
            Operator::EqualEqual => "==",
            Operator::Greater => ">",
            Operator::GreaterEqual => ">=",
            Operator::Less => "<",
            Operator::LessEqual => "<=",
            Operator::Plus => "+",
            Operator::Minus => "-",
            Operator::Star => "*",
            Operator::Slash => "/",
        }
    }
}

impl FromSpecImpl<Operator> for &'static str {
    open spec fn obeys_from_spec() -> bool {
        true
    }

    open spec fn from_spec(value: Operator) -> &'static str {
        value.word()
    }
}

impl TryFrom<&str> for Operator {
    type Error = TokenParseError;

    fn try_from(value: &str) -> (r: Result<Self, Self::Error>) {
        let text = to_chars(value);
        match Operator::lookup(&text) {
            Some(k) => Ok(k),
            None => Err(TokenParseError::InvalidToken),
        }
    }
}

impl TryFromSpecImpl<&str> for Operator {
    open spec fn obeys_try_from_spec() -> bool {
        true
    }

    open spec fn try_from_spec(value: &str) -> Result<Self, Self::Error> {
        match Operator::recognize(value@) {
            Some(k) => Ok(k),
            None => Err(TokenParseError::InvalidToken),
        }
    }
}

#[derive(Debug, Clone, Copy, PartialEq, Eq, PartialOrd, Ord, Hash, Structural)]
pub enum Keyword {
    True,
    False,
    And,
    Or,
    Class,
    If,
    Else,
    For,
    While,
    Fun,
    Nil,
    Print,
    Return,
    Super,
    This,
    Var,
}

impl Keyword {
    /// The canonical spelling of this keyword, as a string.
    pub open spec fn word(self) -> &'static str {
        match self {
            Keyword::True => "true",
            Keyword::False => "false",
            Keyword::And => "and",
            Keyword::Or => "or",
            Keyword::Class => "class",
            Keyword::If => "if",
            Keyword::Else => "else",
            Keyword::For => "for",
            Keyword::While => "while",
            Keyword::Fun => "fun",
            Keyword::Nil => "nil",
            Keyword::Print => "print",
            Keyword::Return => "return",
            Keyword::Super => "super",
            Keyword::This => "this",
            Keyword::Var => "var",
        }
    }

    /// The canonical spelling of this keyword, as characters.
    pub open spec fn spelling(self) -> Seq<char> {
        self.word()@
    }

    /// The keyword that `text` spells, if any.
    pub open spec fn recognize(text: Seq<char>) -> Option<Keyword> {
        if text == "true"@ {
            Some(Keyword::True)
        } else if text == "false"@ {
            Some(Keyword::False)
        } else if text == "and"@ {
            Some(Keyword::And)
        } else if text == "or"@ {
            Some(Keyword::Or)
        } else if text == "class"@ {
            Some(Keyword::Class)
        } else if text == "if"@ {
            Some(Keyword::If)
        } else if text == "else"@ {
            Some(Keyword::Else)
        } else if text == "for"@ {
            Some(Keyword::For)
        } else if text == "while"@ {
            Some(Keyword::While)
        } else if text == "fun"@ {
            Some(Keyword::Fun)
        } else if text == "nil"@ {
            Some(Keyword::Nil)
        } else if text == "print"@ {
            Some(Keyword::Print)
        } else if text == "return"@ {
            Some(Keyword::Return)
        } else if text == "super"@ {
            Some(Keyword::Super)
        } else if text == "this"@ {
            Some(Keyword::This)
        } else if text == "var"@ {
            Some(Keyword::Var)
        } else {
            None
        }
    }

    /// The characters of each keyword's spelling.
    pub proof fn lemma_spellings()
        ensures
            "true"@.len() == 4 && "true"@[0] == 't' && "true"@[1] == 'r' && "true"@[2] == 'u' && "true"@[3] == 'e',
            "false"@.len() == 5 && "false"@[0] == 'f' && "false"@[1] == 'a' && "false"@[2] == 'l' && "false"@[3] == 's' && "false"@[4] == 'e',
            "and"@.len() == 3 && "and"@[0] == 'a' && "and"@[1] == 'n' && "and"@[2] == 'd',
            "or"@.len() == 2 && "or"@[0] == 'o' && "or"@[1] == 'r',
            "class"@.len() == 5 && "class"@[0] == 'c' && "class"@[1] == 'l' && "class"@[2] == 'a' && "class"@[3] == 's' && "class"@[4] == 's',
            "if"@.len() == 2 && "if"@[0] == 'i' && "if"@[1] == 'f',
            "else"@.len() == 4 && "else"@[0] == 'e' && "else"@[1] == 'l' && "else"@[2] == 's' && "else"@[3] == 'e',
            "for"@.len() == 3 && "for"@[0] == 'f' && "for"@[1] == 'o' && "for"@[2] == 'r',
            "while"@.len() == 5 && "while"@[0] == 'w' && "while"@[1] == 'h' && "while"@[2] == 'i' && "while"@[3] == 'l' && "while"@[4] == 'e',
            "fun"@.len() == 3 && "fun"@[0] == 'f' && "fun"@[1] == 'u' && "fun"@[2] == 'n',
            "nil"@.len() == 3 && "nil"@[0] == 'n' && "nil"@[1] == 'i' && "nil"@[2] == 'l',
            "print"@.len() == 5 && "print"@[0] == 'p' && "print"@[1] == 'r' && "print"@[2] == 'i' && "print"@[3] == 'n' && "print"@[4] == 't',
            "return"@.len() == 6 && "return"@[0] == 'r' && "return"@[1] == 'e' && "return"@[2] == 't' && "return"@[3] == 'u' && "return"@[4] == 'r' && "return"@[5] == 'n',
            "super"@.len() == 5 && "super"@[0] == 's' && "super"@[1] == 'u' && "super"@[2] == 'p' && "super"@[3] == 'e' && "super"@[4] == 'r',
            "this"@.len() == 4 && "this"@[0] == 't' && "this"@[1] == 'h' && "this"@[2] == 'i' && "this"@[3] == 's',
            "var"@.len() == 3 && "var"@[0] == 'v' && "var"@[1] == 'a' && "var"@[2] == 'r',
    {
        reveal_strlit("true");
        reveal_strlit("false");
        reveal_strlit("and");
        reveal_strlit("or");
        reveal_strlit("class");
        reveal_strlit("if");
        reveal_strlit("else");
        reveal_strlit("for");
        reveal_strlit("while");
        reveal_strlit("fun");
        reveal_strlit("nil");
        reveal_strlit("print");
        reveal_strlit("return");
        reveal_strlit("super");
        reveal_strlit("this");
        reveal_strlit("var");
    }

    /// Spelling a keyword and reading the spelling back gives the same
    /// keyword.
    pub proof fn lemma_round_trip(self)
        ensures
            Keyword::recognize(self.spelling()) == Some(self),
    {
        Keyword::lemma_spellings();
    }

    /// A text that is read as a keyword is that keyword's spelling.
    pub proof fn lemma_recognized_is_spelled(text: Seq<char>)
        ensures
            Keyword::recognize(text) matches Some(k) ==> k.spelling() == text,
    {
    }

    /// Reads `text` as a keyword.
    pub fn lookup(text: &Vec<char>) -> (found: Option<Keyword>)
        ensures
            found == Keyword::recognize(text@),
    {
        if spells(text, "true") {
            Some(Keyword::True)
        } else if spells(text, "false") {
            Some(Keyword::False)
        } else if spells(text, "and") {
            Some(Keyword::And)
        } else if spells(text, "or") {
            Some(Keyword::Or)
        } else if spells(text, "class") {
            Some(Keyword::Class)
        } else if spells(text, "if") {
            Some(Keyword::If)
        } else if spells(text, "else") {
            Some(Keyword::Else)
        } else if spells(text, "for") {
            Some(Keyword::For)
        } else if spells(text, "while") {
            Some(Keyword::While)
        } else if spells(text, "fun") {
            Some(Keyword::Fun)
        } else if spells(text, "nil") {
            Some(Keyword::Nil)
        } else if spells(text, "print") {
            Some(Keyword::Print)
        } else if spells(text, "return") {
            Some(Keyword::Return)
        } else if spells(text, "super") {
            Some(Keyword::Super)
        } else if spells(text, "this") {
            Some(Keyword::This)
        } else if spells(text, "var") {
            Some(Keyword::Var)
        } else {
            None
        }
    }
}

impl From<Keyword> for &'static str {
    fn from(value: Keyword) -> (word: &'static str) {
        match value {
            Keyword::True => "true",
            Keyword::False => "false",
            Keyword::And => "and",
            Keyword::Or => "or",
            Keyword::Class => "class",
            Keyword::If => "if",
            Keyword::Else => "else",
            Keyword::For => "for",
            Keyword::While => "while",
            Keyword::Fun => "fun",
            Keyword::Nil => "nil",
            Keyword::Print => "print",
            Keyword::Return => "return",
            Keyword::Super => "super",
            Keyword::This => "this",
            Keyword::Var => "var",
        }
    }
}

impl FromSpecImpl<Keyword> for &'static str {
    open spec fn obeys_from_spec() -> bool {
        true
    }

    open spec fn from_spec(value: Keyword) -> &'static str {
        value.word()
    }
}

impl TryFrom<&str> for Keyword {
    type Error = TokenParseError;

    fn try_from(value: &str) -> (r: Result<Self, Self::Error>) {
        let text = to_chars(value);
        match Keyword::lookup(&text) {
            Some(k) => Ok(k),
            None => Err(TokenParseError::InvalidToken),
        }
    }
}

impl TryFromSpecImpl<&str> for Keyword {
    open spec fn obeys_try_from_spec() -> bool {
        true
    }

    open spec fn try_from_spec(value: &str) -> Result<Self, Self::Error> {
        match Keyword::recognize(value@) {
            Some(k) => Ok(k),
            None => Err(TokenParseError::InvalidToken),
        }
    }
}

/// A token that carries text or a number of its own.
#[derive(Debug, Clone, PartialEq, PartialOrd)]
pub enum Literal {
    /// A string literal: the characters between the quotes.
    String(String),
    /// A name that is no keyword.
    Identifier(String),
    /// A number literal: the bit pattern of its IEEE 754 double.
    Number(u64),
}

/// What a `Literal` holds, as mathematical values.
pub enum LiteralView {
    String(Seq<char>),
    Identifier(Seq<char>),
    Number(u64),
}

impl View for Literal {
    type V = LiteralView;

    open spec fn view(&self) -> LiteralView {
        match self {
            Literal::String(text) => LiteralView::String(text@),
            Literal::Identifier(name) => LiteralView::Identifier(name@),
            Literal::Number(bits) => LiteralView::Number(*bits),
        }
    }
}

} // verus!

