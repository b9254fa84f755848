use vstd::prelude::*;
use crate::number::{Number, number_text};
use crate::token::Token;

verus! {

/// A runtime value as the contracts see it.
pub enum Val {
    Bool(bool),
    Num(int),
    Str(Seq<char>),
    Nil,
}

/// A runtime value of the language.
#[derive(Clone, PartialEq, Debug)]
pub enum Literal {
    BOOL(bool),
    NUMBER(Number),
    STRING(String),
    NIL,
}

impl View for Literal {
    type V = Val;

    open spec fn view(&self) -> Val {
        match self {
            Literal::BOOL(b) => Val::Bool(*b),
            Literal::NUMBER(n) => Val::Num(n@),
            Literal::STRING(s) => Val::Str(s@),
            Literal::NIL => Val::Nil,
        }
    }
}

/// `false` and `nil` are false; every other value is true.
pub open spec fn truthy(v: Val) -> bool {
    !(v == Val::Bool(false) || v == Val::Nil)
}

/// The textual form of a value, as `print` writes it.
pub open spec fn val_text(v: Val) -> Seq<char> {
    match v {
        Val::Bool(b) => if b { "true"@ } else { "false"@ },
        Val::Num(n) => number_text(n),
        Val::Str(s) => s,
        Val::Nil => "nil"@,
    }
}

impl Literal {
    /// A copy of the value.
    pub fn duplicate(&self) -> (r: Literal)
        ensures
            r@ == self@,
    {
        match self {
            Literal::BOOL(b) => Literal::BOOL(*b),
            Literal::NUMBER(n) => Literal::NUMBER(*n),
            Literal::STRING(s) => Literal::STRING(s.clone()),
            Literal::NIL => Literal::NIL,
        }
    }

    /// The textual form of the value.
    pub fn to_text(&self) -> (r: String)
        ensures
            r@ == val_text(self@),
    {
        match self {
            Literal::BOOL(b) => if *b { "true".to_string() } else { "false".to_string() },
            Literal::NUMBER(n) => n.to_text(),
            Literal::STRING(s) => s.clone(),
            Literal::NIL => "nil".to_string(),
        }
    }
}

#[derive(PartialEq, Debug)]
pub struct Unary {
    pub op: Token,
    pub rhs: Box<Expr>,
}

impl Unary {
    pub fn new(op: Token, rhs: Box<Expr>) -> (r: Self)
        ensures
            r == (Unary { op, rhs }),
    {
        Unary { op, rhs }
    }
}

#[derive(PartialEq, Debug)]
pub struct Binary {
    pub op: Token,
    pub lhs: Box<Expr>,
    pub rhs: Box<Expr>,
}

impl Binary {
    pub fn new(op: Token, lhs: Box<Expr>, rhs: Box<Expr>) -> (r: Self)
        ensures
            r == (Binary { op, lhs, rhs }),
    {
        Binary { op, lhs, rhs }
    }
}

#[derive(PartialEq, Debug)]
pub struct Grouping {
    pub expr: Box<Expr>,
}

impl Grouping {
    pub fn new(expr: Box<Expr>) -> (r: Grouping)
        ensures
            r == (Grouping { expr }),
    {
        Grouping { expr }
    }
}

/// `lhs, rhs`: evaluates `lhs` for its effect, then yields `rhs`.
#[derive(PartialEq, Debug)]
pub struct Comma {
    pub lhs: Box<Expr>,
    pub rhs: Box<Expr>,
}

impl Comma {
    pub fn new(lhs: Box<Expr>, rhs: Box<Expr>) -> (r: Self)
        ensures
            r == (Comma { lhs, rhs }),
    {
        Comma { lhs, rhs }
    }
}

/// `cond ? then_expr : else_expr`.
#[derive(PartialEq, Debug)]
pub struct Ternary {
    pub cond: Box<Expr>,
    pub then_expr: Box<Expr>,
    pub else_expr: Box<Expr>,
}

impl Ternary {
    pub fn new(cond: Box<Expr>, then_expr: Box<Expr>, else_expr: Box<Expr>) -> (r: Self)
        ensures
            r == (Ternary { cond, then_expr, else_expr }),
    {
        Ternary { cond, then_expr, else_expr }
    }
}

/// A read of the variable `name`.
#[derive(PartialEq, Debug)]
pub struct Variable {
    pub name: Token,
}

impl Variable {
    pub fn new(name: Token) -> (r: Self)
        ensures
            r == (Variable { name }),
    {
        Variable { name }
    }
}

/// `name = value`: a write to an existing variable.
#[derive(PartialEq, Debug)]
pub struct Assign {
    pub name: Token,
    pub value: Box<Expr>,
}

impl Assign {
    pub fn new(name: Token, value: Box<Expr>) -> (r: Self)
        ensures
            r == (Assign { name, value }),
    {
        Assign { name, value }
    }
}

/// An expression tree; each node owns its children.
#[derive(PartialEq, Debug)]
pub enum Expr {
    COMMA(Comma),
    TERNARY(Ternary),
    BINARY(Binary),
    GROUPING(Grouping),
    LITERAL(Literal),
    UNARY(Unary),
    VARIABLE(Variable),
    ASSIGN(Assign),
}

/// A statement.
#[derive(PartialEq, Debug)]
pub enum Stmt {
    BLOCK(Block),
    EXPRESSION(Expression),
    PRINT(Print),
    VAR(Var),
}

/// An expression evaluated for its effect.
#[derive(PartialEq, Debug)]
pub struct Expression {
    pub expr: Box<Expr>,
}

impl Expression {
    pub fn new(expr: Box<Expr>) -> (r: Self)
        ensures
            r == (Expression { expr }),
    {
        Expression { expr }
    }
}

/// `print expr;`
#[derive(PartialEq, Debug)]
pub struct Print {
    pub expr: Box<Expr>,
}

impl Print {
    pub fn new(expr: Box<Expr>) -> (r: Self)
        ensures
            r == (Print { expr }),
    {
        Print { expr }
    }
}

/// `var name;` or `var name = initializer;`
#[derive(PartialEq, Debug)]
pub struct Var {
    pub name: Token,
    pub initializer: Option<Box<Expr>>,
}

impl Var {
    pub fn new(name: Token, initializer: Option<Box<Expr>>) -> (r: Self)
        ensures
            r == (Var { name, initializer }),
    {
        Var { name, initializer }
    }
}

/// A sequence of statements run in a scope of its own.
#[derive(PartialEq, Debug)]
pub struct Block {
    pub statements: Vec<Stmt>,
}

impl Block {
    pub fn new(statements: Vec<Stmt>) -> (r: Self)
        ensures
            r == (Block { statements }),
    {
        Block { statements }
    }
}

} // verus!
