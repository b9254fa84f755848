use vstd::prelude::*;
use crate::ast::{Literal, Val, val_text};
use crate::number::{nat_digits, write_digits};
use crate::text::{chars_to_string, lit_chars, push_all, string_to_chars};
use crate::token::Token;
use crate::token_type::TokenType;

verus! {

/// A syntax error: what was expected, and the token found instead.
#[derive(Clone, Debug)]
pub struct ParseError {
    pub message: String,
    pub token: Token,
}

/// `[line N] Error at end: message`, or `... at 'LEXEME': message`.
pub open spec fn perr_text(message: Seq<char>, kind: TokenType, line: nat) -> Seq<char> {
    "[line "@ + nat_digits(line) + "] Error"@ + (if kind == TokenType::EOF {
        " at end"@
    } else {
        " at '"@ + crate::token_type::kind_name(kind) + "'"@
    }) + ": "@ + message
}

pub open spec fn parse_error_text(e: ParseError) -> Seq<char> {
    perr_text(e.message@, e.token.kind, e.token.line as nat)
}

impl ParseError {
    pub fn new(message: String, token: Token) -> (r: Self)
        ensures
            r == (ParseError { message, token }),
    {
        ParseError { message, token }
    }

    /// The diagnostic line for the error.
    pub fn to_text(&self) -> (r: String)
        ensures
            r@ == parse_error_text(*self),
    {
        let mut out = lit_chars("[line ");
        write_digits(self.token.line as u128, &mut out);
        push_all(&mut out, &lit_chars("] Error"));
        if self.token.kind == TokenType::EOF {
            push_all(&mut out, &lit_chars(" at end"));
        } else {
            push_all(&mut out, &lit_chars(" at '"));
            push_all(&mut out, &string_to_chars(&self.token.get_lexeme()));
            push_all(&mut out, &lit_chars("'"));
        }
        push_all(&mut out, &lit_chars(": "));
        push_all(&mut out, &string_to_chars(&self.message));
        proof {
            assert(out@ =~= parse_error_text(*self));
        }
        chars_to_string(&out)
    }
}

/// A lexical error: an unexpected character or an unterminated string or comment.
#[derive(Clone, PartialEq, Debug)]
pub struct ScanError {
    pub line: usize,
    pub message: String,
}

/// `[line N] Error: message`.
pub open spec fn scan_error_text(e: ScanError) -> Seq<char> {
    "[line "@ + nat_digits(e.line as nat) + "] Error: "@ + e.message@
}

impl ScanError {
    pub fn to_text(&self) -> (r: String)
        ensures
            r@ == scan_error_text(*self),
    {
        let mut out = lit_chars("[line ");
        write_digits(self.line as u128, &mut out);
        push_all(&mut out, &lit_chars("] Error: "));
        push_all(&mut out, &string_to_chars(&self.message));
        proof {
            assert(out@ =~= scan_error_text(*self));
        }
        chars_to_string(&out)
    }
}

/// The values an evaluation error was raised on.
#[derive(Clone, PartialEq, Debug)]
pub enum Operands {
    UNARY(Literal),
    BINARY(Literal, Literal),
    VAR,
}

pub enum OperandsV {
    Unary(Val),
    Binary(Val, Val),
    Var,
}

impl View for Operands {
    type V = OperandsV;

    open spec fn view(&self) -> OperandsV {
        match self {
            Operands::UNARY(l) => OperandsV::Unary(l@),
            Operands::BINARY(l, r) => OperandsV::Binary(l@, r@),
            Operands::VAR => OperandsV::Var,
        }
    }
}

/// An evaluation error as the contracts see it.
pub struct ErrV {
    pub message: Seq<char>,
    pub operands: OperandsV,
}

/// An error raised while evaluating: a type mismatch, a division by zero, a number out
/// of range, or an undefined variable.
#[derive(Clone, Debug)]
pub struct EvaluationError {
    pub message: String,
    pub operands: Operands,
}

impl View for EvaluationError {
    type V = ErrV;

    open spec fn view(&self) -> ErrV {
        ErrV { message: self.message@, operands: self.operands@ }
    }
}

/// An operand as an error shows it: `nil` as `NIL`, other values by their text.
pub open spec fn operand_text(v: Val) -> Seq<char> {
    if v == Val::Nil { "NIL"@ } else { val_text(v) }
}

pub open spec fn evaluation_error_text(e: ErrV) -> Seq<char> {
    match e.operands {
        OperandsV::Unary(v) => operand_text(v) + " literal - "@ + e.message,
        OperandsV::Binary(a, b) => operand_text(a) + " "@ + operand_text(b) + " literal - "@
            + e.message,
        OperandsV::Var => "VAR - "@ + e.message,
    }
}

impl EvaluationError {
    fn new(message: String, operands: Operands) -> (r: Self)
        ensures
            r == (EvaluationError { message, operands }),
    {
        EvaluationError { message, operands }
    }

    pub fn new_unary(message: String, lit: Literal) -> (r: Self)
        ensures
            r@ == (ErrV { message: message@, operands: OperandsV::Unary(lit@) }),
    {
        EvaluationError::new(message, Operands::UNARY(lit))
    }

    pub fn new_binary(message: String, lit1: Literal, lit2: Literal) -> (r: Self)
        ensures
            r@ == (ErrV { message: message@, operands: OperandsV::Binary(lit1@, lit2@) }),
    {
        EvaluationError::new(message, Operands::BINARY(lit1, lit2))
    }

    pub fn new_var(message: String) -> (r: Self)
        ensures
            r@ == (ErrV { message: message@, operands: OperandsV::Var }),
    {
        EvaluationError::new(message, Operands::VAR)
    }

    fn literal_to_message(lit: &Literal) -> (r: Vec<char>)
        ensures
            r@ == operand_text(lit@),
    {
        match lit {
            Literal::NIL => lit_chars("NIL"),
            _ => string_to_chars(&lit.to_text()),
        }
    }

    /// The diagnostic line for the error.
    pub fn to_text(&self) -> (r: String)
        ensures
            r@ == evaluation_error_text(self@),
    {
        let mut out: Vec<char> = Vec::new();
        match &self.operands {
            Operands::UNARY(lit) => {
                push_all(&mut out, &EvaluationError::literal_to_message(lit));
                push_all(&mut out, &lit_chars(" literal - "));
            },
            Operands::BINARY(a, b) => {
                push_all(&mut out, &EvaluationError::literal_to_message(a));
                push_all(&mut out, &lit_chars(" "));
                push_all(&mut out, &EvaluationError::literal_to_message(b));
                push_all(&mut out, &lit_chars(" literal - "));
            },
            Operands::VAR => {
                push_all(&mut out, &lit_chars("VAR - "));
            },
        }
        push_all(&mut out, &string_to_chars(&self.message));
        proof {
            assert(out@ =~= evaluation_error_text(self@));
        }
        chars_to_string(&out)
    }
}

/// A failed lookup or assignment of a variable.
#[derive(Clone, Debug)]
pub struct RuntimeError {
    pub message: String,
}

impl RuntimeError {
    pub fn new(message: String) -> (r: Self)
        ensures
            r == (RuntimeError { message }),
    {
        RuntimeError { message }
    }

    /// The diagnostic text: the message itself.
    pub fn to_text(&self) -> (r: String)
        ensures
            r@ == self.message@,
    {
        self.message.clone()
    }
}

} // verus!
