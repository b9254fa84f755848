use vstd::prelude::*;
use crate::number::{Number, lexeme_value, valid_lexeme, LIMIT};
use crate::text::string_to_chars;
use crate::token_type::{TokenType, kind_name};

verus! {

/// One lexical unit: its kind, the line it was read on, and the text it carries
/// (the characters of a string, the lexeme of a number, the name of an identifier).
#[derive(Clone, PartialEq, Debug)]
pub struct Token {
    pub kind: TokenType,
    pub line: usize,
    pub value: Option<String>,
}

/// A value that a token carries.
pub enum ValueTypes {
    STRING(String),
    NUMBER(Number),
    BOOL(bool),
}

/// The text a token carries, or the empty text.
pub open spec fn token_text(t: Token) -> Seq<char> {
    match t.value {
        Some(s) => s@,
        None => Seq::empty(),
    }
}

/// The number a NUMBER token denotes, when its text is a lexeme in range.
pub open spec fn number_of(t: Token) -> Option<int> {
    match t.value {
        Some(s) => if valid_lexeme(s@) && lexeme_value(s@) <= LIMIT {
            Some(lexeme_value(s@))
        } else {
            None
        },
        None => None,
    }
}

fn clone_opt_string(s: &Option<String>) -> (r: Option<String>)
    ensures
        r is Some <==> s is Some,
        r matches Some(x) ==> s matches Some(y) && x@ == y@,
{
    match s {
        Some(x) => Some(x.clone()),
        None => None,
    }
}

impl Token {
    pub fn new(kind: TokenType, line: usize, value: Option<String>) -> (r: Self)
        ensures
            r == (Token { kind, line, value }),
    {
        Token { kind, line, value }
    }

    /// A copy of the token.
    pub fn duplicate(&self) -> (r: Token)
        ensures
            r.kind == self.kind,
            r.line == self.line,
            token_text(r) == token_text(*self),
            r.value is Some <==> self.value is Some,
    {
        Token { kind: self.kind, line: self.line, value: clone_opt_string(&self.value) }
    }

    /// The kind's name, or the empty text for the end of input.
    pub fn get_lexeme(&self) -> (r: String)
        ensures
            r@ == (if self.kind == TokenType::EOF { Seq::empty() } else { kind_name(self.kind) }),
    {
        match self.kind {
            TokenType::EOF => String::new(),
            kind => kind.name(),
        }
    }

    /// The literal value a token stands for; `None` for other kinds, and for a token
    /// whose carried text is missing or, for a number, no lexeme in range.
    pub fn get_value(&self) -> (r: Option<ValueTypes>)
        ensures
            self.kind == TokenType::FALSE ==> r == Some(ValueTypes::BOOL(false)),
            self.kind == TokenType::TRUE ==> r == Some(ValueTypes::BOOL(true)),
            (self.kind == TokenType::STRING || self.kind == TokenType::IDENTIFIER) ==> (match r {
                Some(ValueTypes::STRING(s)) => self.value is Some && s@ == token_text(*self),
                None => self.value is None,
                _ => false,
            }),
            self.kind == TokenType::NUMBER ==> (match r {
                Some(ValueTypes::NUMBER(n)) => number_of(*self) == Some(n@),
                None => number_of(*self) is None,
                _ => false,
            }),
            !(self.kind == TokenType::FALSE || self.kind == TokenType::TRUE || self.kind
                == TokenType::STRING || self.kind == TokenType::IDENTIFIER || self.kind
                == TokenType::NUMBER) ==> r is None,
    {
        match self.kind {
            TokenType::FALSE => Some(ValueTypes::BOOL(false)),
            TokenType::TRUE => Some(ValueTypes::BOOL(true)),
            TokenType::STRING | TokenType::IDENTIFIER => match &self.value {
                Some(s) => Some(ValueTypes::STRING(s.clone())),
                None => None,
            },
            TokenType::NUMBER => match &self.value {
                Some(s) => {
                    let cs = string_to_chars(s);
                    match Number::from_lexeme(&cs) {
                        Some(n) => Some(ValueTypes::NUMBER(n)),
                        None => None,
                    }
                },
                None => None,
            },
            _ => None,
        }
    }
}

} // verus!
