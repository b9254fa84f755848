use vstd::prelude::*;
use crate::ast::{
    Assign, Binary, Comma, Expr, Expression, Grouping, Literal, Print, Stmt, Ternary, Unary, Val,
    Var, Variable,
};
use crate::error::ParseError;
use crate::number::{LIMIT, is_digit, lexeme_value, valid_lexeme};
use crate::scanner::{TokV, tok_view, toks_view};
use crate::text::{chars_to_string, lit_chars};
use crate::token::{Token, ValueTypes};
use crate::token_type::TokenType;

verus! {

/// An expression tree as the contracts see it.
pub enum ExprV {
    Comma(Box<ExprV>, Box<ExprV>),
    Ternary(Box<ExprV>, Box<ExprV>, Box<ExprV>),
    Binary(TokenType, Box<ExprV>, Box<ExprV>),
    Grouping(Box<ExprV>),
    Lit(Val),
    Unary(TokenType, Box<ExprV>),
    Variable(Seq<char>),
    Assign(Seq<char>, Box<ExprV>),
}

/// A statement as the contracts see it.
pub enum StmtV {
    Expression(ExprV),
    Print(ExprV),
    Var(Seq<char>, Option<ExprV>),
    Block,
}

pub open spec fn text_of(o: Option<Seq<char>>) -> Seq<char> {
    match o {
        Some(s) => s,
        None => Seq::empty(),
    }
}

pub open spec fn expr_view(e: Expr) -> ExprV
    decreases e,
{
    match e {
        Expr::COMMA(c) => ExprV::Comma(Box::new(expr_view(*c.lhs)), Box::new(expr_view(*c.rhs))),
        Expr::TERNARY(t) => ExprV::Ternary(
            Box::new(expr_view(*t.cond)),
            Box::new(expr_view(*t.then_expr)),
            Box::new(expr_view(*t.else_expr)),
        ),
        Expr::BINARY(b) => ExprV::Binary(
            b.op.kind,
            Box::new(expr_view(*b.lhs)),
            Box::new(expr_view(*b.rhs)),
        ),
        Expr::GROUPING(g) => ExprV::Grouping(Box::new(expr_view(*g.expr))),
        Expr::LITERAL(l) => ExprV::Lit(l@),
        Expr::UNARY(u) => ExprV::Unary(u.op.kind, Box::new(expr_view(*u.rhs))),
        Expr::VARIABLE(v) => ExprV::Variable(text_of(tok_view(v.name).text)),
        Expr::ASSIGN(a) => ExprV::Assign(text_of(tok_view(a.name).text), Box::new(expr_view(*a.value))),
    }
}

pub open spec fn stmt_view(s: Stmt) -> StmtV {
    match s {
        Stmt::EXPRESSION(e) => StmtV::Expression(expr_view(*e.expr)),
        Stmt::PRINT(p) => StmtV::Print(expr_view(*p.expr)),
        Stmt::VAR(v) => StmtV::Var(
            text_of(tok_view(v.name).text),
            match v.initializer {
                Some(e) => Some(expr_view(*e)),
                None => None,
            },
        ),
        Stmt::BLOCK(_) => StmtV::Block,
    }
}

/// A parse error as the contracts see it: the message and the offending token.
pub type PErr = (Seq<char>, TokV);

pub open spec fn perr_view(e: ParseError) -> PErr {
    (e.message@, tok_view(e.token))
}

/// The token list ends with the end-of-input token.
pub open spec fn tokens_ok(ts: Seq<TokV>) -> bool {
    ts.len() >= 1 && ts.last().kind == TokenType::EOF
}

pub open spec fn kind_at(ts: Seq<TokV>, p: int) -> TokenType {
    ts[p].kind
}

pub open spec fn at_end(ts: Seq<TokV>, p: int) -> bool {
    kind_at(ts, p) == TokenType::EOF
}

/// The position after the token at `p`; the end-of-input token is never passed.
pub open spec fn adv(ts: Seq<TokV>, p: int) -> int {
    if at_end(ts, p) { p } else { p + 1 }
}

pub open spec fn check(ts: Seq<TokV>, p: int, k: TokenType) -> bool {
    !at_end(ts, p) && kind_at(ts, p) == k
}

/// The operators of a left-associative tier: 2 factor, 3 term, 4 comparison,
/// 5 equality, 6 comma.
pub open spec fn tier_op(lvl: nat, k: TokenType) -> bool {
    if lvl == 2 {
        k == TokenType::SLASH || k == TokenType::STAR
    } else if lvl == 3 {
        k == TokenType::MINUS || k == TokenType::PLUS
    } else if lvl == 4 {
        k == TokenType::GREATER || k == TokenType::GREATEREQUAL || k == TokenType::LESS || k
            == TokenType::LESSEQUAL
    } else if lvl == 5 {
        k == TokenType::BANGEQUAL || k == TokenType::EQUALEQUAL
    } else if lvl == 6 {
        k == TokenType::COMMA
    } else {
        false
    }
}

pub open spec fn join(lvl: nat, op: TokenType, l: ExprV, r: ExprV) -> ExprV {
    if lvl == 6 {
        ExprV::Comma(Box::new(l), Box::new(r))
    } else {
        ExprV::Binary(op, Box::new(l), Box::new(r))
    }
}

pub type PRes = (Result<ExprV, PErr>, int);

pub open spec fn fail(msg: Seq<char>, ts: Seq<TokV>, p: int) -> PRes {
    (Err((msg, ts[p])), p)
}

/// A result position that is not ahead of `p`, or past the last token: parsing never
/// gives one.
pub open spec fn bad(ts: Seq<TokV>, q: int, p: int) -> bool {
    q < p || q >= ts.len()
}

pub open spec fn number_val(t: Option<Seq<char>>) -> Option<int> {
    match t {
        Some(s) => if valid_lexeme(s) && lexeme_value(s) <= LIMIT {
            Some(lexeme_value(s))
        } else {
            None
        },
        None => None,
    }
}

pub open spec fn missing_operand(ts: Seq<TokV>, p: int, lvl: nat) -> PRes
    decreases ts.len() - p, 0nat, 0nat,
{
    if 0 <= p < ts.len() - 1 {
        let (_, q) = parse_level(ts, p + 1, lvl);
        (Err(("Missing left-hand Operand"@, ts[p])), q)
    } else {
        fail(Seq::empty(), ts, p)
    }
}

/// The expression that starts at `p` at precedence level `lvl` (0 primary, 1 unary,
/// 2 factor, 3 term, 4 comparison, 5 equality, 6 comma, 7 ternary, 8 assignment),
/// and the position after it, or after the tokens read before an error.
pub open spec fn parse_level(ts: Seq<TokV>, p: int, lvl: nat) -> PRes
    decreases ts.len() - p, lvl, 1nat,
{
    if !(0 <= p < ts.len()) || !tokens_ok(ts) {
        (Err((Seq::empty(), TokV { kind: TokenType::EOF, line: 0, text: None })), p)
    } else if lvl == 0 {
        let k = kind_at(ts, p);
        if at_end(ts, p) {
            fail("Expect expression"@, ts, p)
        } else if k == TokenType::NIL {
            (Ok(ExprV::Lit(Val::Nil)), p + 1)
        } else if k == TokenType::TRUE {
            (Ok(ExprV::Lit(Val::Bool(true))), p + 1)
        } else if k == TokenType::FALSE {
            (Ok(ExprV::Lit(Val::Bool(false))), p + 1)
        } else if k == TokenType::STRING {
            match ts[p].text {
                Some(s) => (Ok(ExprV::Lit(Val::Str(s))), p + 1),
                None => (Err(("Expect number, string or bool"@, ts[p])), p + 1),
            }
        } else if k == TokenType::NUMBER {
            match number_val(ts[p].text) {
                Some(n) => (Ok(ExprV::Lit(Val::Num(n))), p + 1),
                None => (Err(("Expect number, string or bool"@, ts[p])), p + 1),
            }
        } else if k == TokenType::IDENTIFIER {
            (Ok(ExprV::Variable(text_of(ts[p].text))), p + 1)
        } else if k == TokenType::LEFTPAREN {
            let (r, q) = parse_level(ts, p + 1, 8);
            if bad(ts, q, p + 1) {
                fail(Seq::empty(), ts, p)
            } else {
                match r {
                    Err(e) => (Err(e), q),
                    Ok(e) => if check(ts, q, TokenType::RIGHTPAREN) {
                        (Ok(ExprV::Grouping(Box::new(e))), q + 1)
                    } else {
                        fail("Expect ')' after expression"@, ts, q)
                    },
                }
            }
        } else if tier_op(5, k) {
            missing_operand(ts, p, 5)
        } else if tier_op(4, k) {
            missing_operand(ts, p, 4)
        } else if k == TokenType::PLUS {
            missing_operand(ts, p, 3)
        } else if tier_op(2, k) {
            missing_operand(ts, p, 2)
        } else {
            fail("Expect expression"@, ts, p)
        }
    } else if lvl == 1 {
        let k = kind_at(ts, p);
        if k == TokenType::BANG || k == TokenType::MINUS {
            let (r, q) = parse_level(ts, p + 1, 1);
            match r {
                Ok(e) => (Ok(ExprV::Unary(k, Box::new(e))), q),
                Err(x) => (Err(x), q),
            }
        } else {
            parse_level(ts, p, 0)
        }
    } else if lvl <= 6 {
        let (r, q) = parse_level(ts, p, (lvl - 1) as nat);
        if bad(ts, q, p) {
            fail(Seq::empty(), ts, p)
        } else {
            match r {
                Err(x) => (Err(x), q),
                Ok(e) => parse_rest(ts, q, lvl, e),
            }
        }
    } else if lvl == 7 {
        let (r, q) = parse_level(ts, p, 6);
        if bad(ts, q, p) {
            fail(Seq::empty(), ts, p)
        } else {
            match r {
                Err(x) => (Err(x), q),
                Ok(c) => if check(ts, q, TokenType::QUESTION) {
                    let (r2, q2) = parse_level(ts, q + 1, 8);
                    if bad(ts, q2, q + 1) {
                        fail(Seq::empty(), ts, p)
                    } else {
                        match r2 {
                            Err(x) => (Err(x), q2),
                            Ok(t) => if check(ts, q2, TokenType::COLON) {
                                let (r3, q3) = parse_level(ts, q2 + 1, 7);
                                match r3 {
                                    Err(x) => (Err(x), q3),
                                    Ok(e) => (
                                        Ok(ExprV::Ternary(Box::new(c), Box::new(t), Box::new(e))),
                                        q3,
                                    ),
                                }
                            } else {
                                fail("Expect ':' after THEN of conditional expression"@, ts, q2)
                            },
                        }
                    }
                } else {
                    (Ok(c), q)
                },
            }
        }
    } else {
        let (r, q) = parse_level(ts, p, 7);
        if bad(ts, q, p) {
            fail(Seq::empty(), ts, p)
        } else {
            match r {
                Err(x) => (Err(x), q),
                Ok(lhs) => if check(ts, q, TokenType::EQUAL) {
                    let (r2, q2) = parse_level(ts, q + 1, 8);
                    match r2 {
                        Err(x) => (Err(x), q2),
                        Ok(v) => match lhs {
                            ExprV::Variable(name) => (Ok(ExprV::Assign(name, Box::new(v))), q2),
                            _ => (Err(("Invalid assignment target."@, ts[q])), q2),
                        },
                    }
                } else {
                    (Ok(lhs), q)
                },
            }
        }
    }
}

/// The rest of a left-associative tier after its left operand `lhs`, from `p`.
pub open spec fn parse_rest(ts: Seq<TokV>, p: int, lvl: nat, lhs: ExprV) -> PRes
    decreases ts.len() - p, lvl, 0nat,
{
    if !(0 <= p < ts.len()) || !tokens_ok(ts) || lvl < 2 {
        (Err((Seq::empty(), TokV { kind: TokenType::EOF, line: 0, text: None })), p)
    } else if !at_end(ts, p) && tier_op(lvl, kind_at(ts, p)) {
        let op = kind_at(ts, p);
        let (r, q) = parse_level(ts, p + 1, (lvl - 1) as nat);
        if bad(ts, q, p + 1) {
            fail(Seq::empty(), ts, p)
        } else {
            match r {
                Err(x) => (Err(x), q),
                Ok(rhs) => parse_rest(ts, q, lvl, join(lvl, op, lhs, rhs)),
            }
        }
    } else {
        (Ok(lhs), p)
    }
}

/// A kind that starts a statement: error recovery stops before it.
pub open spec fn starts_statement(k: TokenType) -> bool {
    k == TokenType::CLASS || k == TokenType::FUN || k == TokenType::VAR || k == TokenType::FOR
        || k == TokenType::IF || k == TokenType::WHILE || k == TokenType::PRINT || k
        == TokenType::RETURN
}

/// Skips tokens from `p` up to a statement boundary: just after a ';', or before a
/// statement keyword, or at the end of input.
pub open spec fn sync_from(ts: Seq<TokV>, p: int) -> int
    decreases ts.len() - p,
{
    if !(1 <= p < ts.len()) || at_end(ts, p) || kind_at(ts, p - 1) == TokenType::SEMICOLON
        || starts_statement(kind_at(ts, p)) {
        p
    } else {
        sync_from(ts, p + 1)
    }
}

/// Error recovery from the token at `p`, which is passed first.
pub open spec fn synchronize_spec(ts: Seq<TokV>, p: int) -> int {
    sync_from(ts, adv(ts, p))
}

pub type SRes = (Result<StmtV, PErr>, int);

/// `expr ;` after an expression that ended at `q`, or the error `msg` there.
pub open spec fn terminated(ts: Seq<TokV>, r: Result<ExprV, PErr>, q: int, msg: Seq<char>, print: bool) -> SRes {
    match r {
        Err(x) => (Err(x), q),
        Ok(e) => if check(ts, q, TokenType::SEMICOLON) {
            (Ok(if print { StmtV::Print(e) } else { StmtV::Expression(e) }), q + 1)
        } else {
            (Err((msg, ts[q])), q)
        },
    }
}

/// `var name;` or `var name = expr;` after the `var` keyword, which ends at `p`; an
/// error comes with the position where it was found.
pub open spec fn var_declaration_spec(ts: Seq<TokV>, p: int) -> SRes {
    if !check(ts, p, TokenType::IDENTIFIER) {
        (Err(("Expect variable name"@, ts[p])), p)
    } else {
        let name = text_of(ts[p].text);
        if check(ts, p + 1, TokenType::EQUAL) {
            let (r, q) = parse_level(ts, p + 2, 8);
            match r {
                Err(x) => (Err(x), q),
                Ok(e) => if check(ts, q, TokenType::SEMICOLON) {
                    (Ok(StmtV::Var(name, Some(e))), q + 1)
                } else {
                    (Err(("Expect ';' after value."@, ts[q])), q)
                },
            }
        } else if check(ts, p + 1, TokenType::SEMICOLON) {
            (Ok(StmtV::Var(name, None)), p + 2)
        } else {
            (Err(("Expect ';' after value."@, ts[p + 1])), p + 1)
        }
    }
}

/// A print or expression statement at `p`; an error comes with the position where it
/// was found.
pub open spec fn statement_spec(ts: Seq<TokV>, p: int) -> SRes {
    if check(ts, p, TokenType::PRINT) {
        let (r, q) = parse_level(ts, p + 1, 8);
        terminated(ts, r, q, "Expect ';' after value."@, true)
    } else {
        let (r, q) = parse_level(ts, p, 8);
        terminated(ts, r, q, "Expect ';' after value."@, false)
    }
}

/// The declaration or statement at `p`, and where parsing goes on after it; after an
/// error, that is the next statement boundary.
pub open spec fn declaration_spec(ts: Seq<TokV>, p: int) -> SRes {
    let (r, q) = if check(ts, p, TokenType::VAR) {
        var_declaration_spec(ts, p + 1)
    } else {
        statement_spec(ts, p)
    };
    match r {
        Ok(st) => (Ok(st), q),
        Err(x) => (Err(x), synchronize_spec(ts, q)),
    }
}

/// The statements from `p` to the end of input, each parsed or reported.
pub open spec fn parse_from(ts: Seq<TokV>, p: int) -> Seq<Result<StmtV, PErr>>
    decreases ts.len() - p,
{
    if !(0 <= p < ts.len()) || at_end(ts, p) {
        Seq::empty()
    } else {
        let (r, q) = declaration_spec(ts, p);
        if q <= p || q > ts.len() {
            Seq::empty()
        } else {
            seq![r] + parse_from(ts, q)
        }
    }
}

pub open spec fn sres_v(r: Result<Stmt, ParseError>) -> Result<StmtV, PErr> {
    match r {
        Ok(s) => Ok(stmt_view(s)),
        Err(x) => Err(perr_view(x)),
    }
}

pub open spec fn res_v(r: Result<Expr, ParseError>) -> Result<ExprV, PErr> {
    match r {
        Ok(e) => Ok(expr_view(e)),
        Err(x) => Err(perr_view(x)),
    }
}

fn text(s: &str) -> (r: String)
    ensures
        r@ == s@,
{
    chars_to_string(&lit_chars(s))
}

/// A recursive-descent parser over a token list that ends with the end-of-input token.
pub struct Parser {
    tokens: Vec<Token>,
    current: usize,
}

impl Parser {
    /// The tokens being parsed.
    pub closed spec fn ts(&self) -> Seq<TokV> {
        toks_view(self.tokens@)
    }

    /// The position of the next token.
    pub closed spec fn pos(&self) -> int {
        self.current as int
    }

    pub closed spec fn wf(&self) -> bool {
        &&& tokens_ok(self.ts())
        &&& self.current < self.tokens@.len()
    }

    pub fn new(tokens: Vec<Token>) -> (r: Self)
        requires
            tokens_ok(toks_view(tokens@)),
        ensures
            r.wf(),
            r.ts() == toks_view(tokens@),
            r.pos() == 0,
    {
        let current: usize = 0;
        Parser { tokens, current }
    }

    fn peek(&self) -> (r: &Token)
        requires
            self.wf(),
        ensures
            tok_view(*r) == self.ts()[self.pos()],
    {
        &self.tokens[self.current]
    }

    fn previous(&self) -> (r: Token)
        requires
            self.wf(),
            self.current >= 1,
        ensures
            tok_view(r) == self.ts()[self.pos() - 1],
    {
        let t = self.tokens[self.current - 1].duplicate();
        proof {
            assert(tok_view(t) == tok_view(self.tokens@[self.current - 1]));
        }
        t
    }

    fn is_at_end(&self) -> (r: bool)
        requires
            self.wf(),
        ensures
            r == at_end(self.ts(), self.pos()),
    {
        self.peek().kind == TokenType::EOF
    }

    /// Moves past the next token, unless it is the end of input, and returns it.
    fn advance(&mut self) -> (r: Token)
        requires
            old(self).wf(),
        ensures
            final(self).wf(),
            final(self).ts() == old(self).ts(),
            final(self).pos() == adv(old(self).ts(), old(self).pos()),
            tok_view(r) == old(self).ts()[old(self).pos()],
    {
        if !self.is_at_end() {
            let n = self.tokens.len();
            proof {
                assert(self.ts()[self.tokens@.len() - 1].kind == TokenType::EOF);
                assert(self.ts()[self.current as int].kind != TokenType::EOF);
                assert(self.current < self.tokens@.len() - 1);
            }
            self.current += 1;
            return self.previous();
        }
        let t = self.tokens[self.current].duplicate();
        t
    }

    fn check(&self, tt: TokenType) -> (r: bool)
        requires
            self.wf(),
        ensures
            r == check(self.ts(), self.pos(), tt),
    {
        if self.is_at_end() {
            return false;
        }
        self.peek().kind == tt
    }

    /// Moves past the next token when it is of one of the kinds.
    fn match_types(&mut self, types: Vec<TokenType>) -> (r: bool)
        requires
            old(self).wf(),
        ensures
            final(self).wf(),
            final(self).ts() == old(self).ts(),
            r == exists|i: int| 0 <= i < types@.len() && check(old(self).ts(), old(self).pos(), #[trigger] types@[i]),
            final(self).pos() == if r { old(self).pos() + 1 } else { old(self).pos() },
    {
        let mut i: usize = 0;
        while i < types.len()
            invariant
                self == old(self),
                self.wf(),
                i <= types@.len(),
                forall|j: int| 0 <= j < i ==> !check(self.ts(), self.pos(), #[trigger] types@[j]),
            decreases types@.len() - i,
        {
            if self.check(types[i]) {
                self.advance();
                return true;
            }
            i += 1;
        }
        false
    }

    fn error_here(&self, message: &str) -> (r: ParseError)
        requires
            self.wf(),
        ensures
            perr_view(r) == (message@, self.ts()[self.pos()]),
    {
        ParseError::new(text(message), self.tokens[self.current].duplicate())
    }

    /// Moves past the next token when it is of kind `tt`; otherwise the error `message`
    /// at that token.
    fn consume(&mut self, tt: TokenType, message: &str) -> (r: Result<Token, ParseError>)
        requires
            old(self).wf(),
        ensures
            final(self).wf(),
            final(self).ts() == old(self).ts(),
            check(old(self).ts(), old(self).pos(), tt) ==> (r matches Ok(t) && tok_view(t)
                == old(self).ts()[old(self).pos()] && final(self).pos() == old(self).pos() + 1),
            !check(old(self).ts(), old(self).pos(), tt) ==> (r matches Err(e) && perr_view(e)
                == (message@, old(self).ts()[old(self).pos()]) && final(self).pos() == old(
                self,
            ).pos()),
    {
        if self.check(tt) {
            return Ok(self.advance());
        }
        Err(self.error_here(message))
    }

    /// The expression at precedence level `lvl`.
    fn level(&mut self, lvl: u8) -> (r: Result<Expr, ParseError>)
        requires
            old(self).wf(),
            lvl <= 8,
        ensures
            final(self).wf(),
            final(self).ts() == old(self).ts(),
            final(self).pos() >= old(self).pos(),
            parse_level(old(self).ts(), old(self).pos(), lvl as nat) == (res_v(r), final(self).pos()),
        decreases old(self).ts().len() - old(self).pos(), lvl, 2nat,
    {
        if lvl == 0 {
            self.primary()
        } else if lvl == 1 {
            self.unary()
        } else if lvl <= 6 {
            self.binary_tier(lvl)
        } else if lvl == 7 {
            self.ternary()
        } else {
            self.assignment()
        }
    }

    fn expression(&mut self) -> (r: Result<Expr, ParseError>)
        requires
            old(self).wf(),
        ensures
            final(self).wf(),
            final(self).ts() == old(self).ts(),
            final(self).pos() >= old(self).pos(),
            parse_level(old(self).ts(), old(self).pos(), 8) == (res_v(r), final(self).pos()),
        decreases old(self).ts().len() - old(self).pos(), 8nat, 3nat,
    {
        self.assignment()
    }

    fn assignment(&mut self) -> (r: Result<Expr, ParseError>)
        requires
            old(self).wf(),
        ensures
            final(self).wf(),
            final(self).ts() == old(self).ts(),
            final(self).pos() >= old(self).pos(),
            parse_level(old(self).ts(), old(self).pos(), 8) == (res_v(r), final(self).pos()),
        decreases old(self).ts().len() - old(self).pos(), 8nat, 1nat,
    {
        let lhs = match self.ternary() {
            Ok(e) => e,
            Err(e) => return Err(e),
        };
        if self.check(TokenType::EQUAL) {
            let eq = self.advance();
            let value = match self.assignment() {
                Ok(v) => v,
                Err(e) => return Err(e),
            };
            return match lhs {
                Expr::VARIABLE(v) => Ok(Expr::ASSIGN(Assign::new(v.name, Box::new(value)))),
                _ => Err(ParseError::new(text("Invalid assignment target."), eq)),
            };
        }
        Ok(lhs)
    }

    fn ternary(&mut self) -> (r: Result<Expr, ParseError>)
        requires
            old(self).wf(),
        ensures
            final(self).wf(),
            final(self).ts() == old(self).ts(),
            final(self).pos() >= old(self).pos(),
            parse_level(old(self).ts(), old(self).pos(), 7) == (res_v(r), final(self).pos()),
        decreases old(self).ts().len() - old(self).pos(), 7nat, 1nat,
    {
        let cond = match self.comma() {
            Ok(e) => e,
            Err(e) => return Err(e),
        };
        if self.check(TokenType::QUESTION) {
            self.advance();
            let then_expr = match self.expression() {
                Ok(e) => e,
                Err(e) => return Err(e),
            };
            if !self.check(TokenType::COLON) {
                return Err(self.error_here("Expect ':' after THEN of conditional expression"));
            }
            self.advance();
            let else_expr = match self.ternary() {
                Ok(e) => e,
                Err(e) => return Err(e),
            };
            return Ok(Expr::TERNARY(Ternary::new(Box::new(cond), Box::new(then_expr), Box::new(else_expr))));
        }
        Ok(cond)
    }

    fn comma(&mut self) -> (r: Result<Expr, ParseError>)
        requires
            old(self).wf(),
        ensures
            final(self).wf(),
            final(self).ts() == old(self).ts(),
            final(self).pos() >= old(self).pos(),
            parse_level(old(self).ts(), old(self).pos(), 6) == (res_v(r), final(self).pos()),
        decreases old(self).ts().len() - old(self).pos(), 6nat, 1nat,
    {
        self.binary_tier(6)
    }

    fn equality(&mut self) -> (r: Result<Expr, ParseError>)
        requires
            old(self).wf(),
        ensures
            final(self).wf(),
            final(self).ts() == old(self).ts(),
            final(self).pos() >= old(self).pos(),
            parse_level(old(self).ts(), old(self).pos(), 5) == (res_v(r), final(self).pos()),
        decreases old(self).ts().len() - old(self).pos(), 5nat, 1nat,
    {
        self.binary_tier(5)
    }

    fn comparison(&mut self) -> (r: Result<Expr, ParseError>)
        requires
            old(self).wf(),
        ensures
            final(self).wf(),
            final(self).ts() == old(self).ts(),
            final(self).pos() >= old(self).pos(),
            parse_level(old(self).ts(), old(self).pos(), 4) == (res_v(r), final(self).pos()),
        decreases old(self).ts().len() - old(self).pos(), 4nat, 1nat,
    {
        self.binary_tier(4)
    }

    fn term(&mut self) -> (r: Result<Expr, ParseError>)
        requires
            old(self).wf(),
        ensures
            final(self).wf(),
            final(self).ts() == old(self).ts(),
            final(self).pos() >= old(self).pos(),
            parse_level(old(self).ts(), old(self).pos(), 3) == (res_v(r), final(self).pos()),
        decreases old(self).ts().len() - old(self).pos(), 3nat, 1nat,
    {
        self.binary_tier(3)
    }

    fn factor(&mut self) -> (r: Result<Expr, ParseError>)
        requires
            old(self).wf(),
        ensures
            final(self).wf(),
            final(self).ts() == old(self).ts(),
            final(self).pos() >= old(self).pos(),
            parse_level(old(self).ts(), old(self).pos(), 2) == (res_v(r), final(self).pos()),
        decreases old(self).ts().len() - old(self).pos(), 2nat, 1nat,
    {
        self.binary_tier(2)
    }

    /// A left-associative tier: operands of the level below joined by the tier's
    /// operators, folded to the left.
    fn binary_tier(&mut self, lvl: u8) -> (r: Result<Expr, ParseError>)
        requires
            old(self).wf(),
            2 <= lvl <= 6,
        ensures
            final(self).wf(),
            final(self).ts() == old(self).ts(),
            final(self).pos() >= old(self).pos(),
            parse_level(old(self).ts(), old(self).pos(), lvl as nat) == (res_v(r), final(self).pos()),
        decreases old(self).ts().len() - old(self).pos(), lvl, 0nat,
    {
        let ghost ts = self.ts();
        let ghost p0 = self.pos();
        let mut expr = match self.level(lvl - 1) {
            Ok(e) => e,
            Err(e) => return Err(e),
        };
        while !self.is_at_end() && tier_op_exec(lvl, self.peek().kind)
            invariant
                self.wf(),
                self.ts() == ts,
                self.pos() >= p0,
                2 <= lvl <= 6,
                ts == old(self).ts(),
                p0 == old(self).pos(),
                parse_level(ts, p0, lvl as nat) == parse_rest(ts, self.pos(), lvl as nat, expr_view(expr)),
            decreases ts.len() - self.pos(),
        {
            let op = self.advance();
            let rhs = match self.level(lvl - 1) {
                Ok(e) => e,
                Err(e) => return Err(e),
            };
            expr = if lvl == 6 {
                Expr::COMMA(Comma::new(Box::new(expr), Box::new(rhs)))
            } else {
                Expr::BINARY(Binary::new(op, Box::new(expr), Box::new(rhs)))
            };
        }
        Ok(expr)
    }

    fn unary(&mut self) -> (r: Result<Expr, ParseError>)
        requires
            old(self).wf(),
        ensures
            final(self).wf(),
            final(self).ts() == old(self).ts(),
            final(self).pos() >= old(self).pos(),
            parse_level(old(self).ts(), old(self).pos(), 1) == (res_v(r), final(self).pos()),
        decreases old(self).ts().len() - old(self).pos(), 1nat, 1nat,
    {
        let k = self.peek().kind;
        if k == TokenType::BANG || k == TokenType::MINUS {
            let op = self.advance();
            return match self.unary() {
                Ok(rhs) => Ok(Expr::UNARY(Unary::new(op, Box::new(rhs)))),
                Err(e) => Err(e),
            };
        }
        self.primary()
    }

    /// After an operator with no left operand: reads the rest of its tier so that
    /// parsing goes on after it, and reports the missing operand.
    fn missing_operand(&mut self, lvl: u8) -> (r: Result<Expr, ParseError>)
        requires
            old(self).wf(),
            2 <= lvl <= 5,
            !at_end(old(self).ts(), old(self).pos()),
        ensures
            final(self).wf(),
            final(self).ts() == old(self).ts(),
            final(self).pos() >= old(self).pos(),
            missing_operand(old(self).ts(), old(self).pos(), lvl as nat) == (res_v(r), final(self).pos()),
        decreases old(self).ts().len() - old(self).pos(), 0nat, 0nat,
    {
        proof {
            assert(self.ts()[self.tokens@.len() - 1].kind == TokenType::EOF);
        }
        let op = self.advance();
        let _ = self.level(lvl);
        Err(ParseError::new(text("Missing left-hand Operand"), op))
    }

    fn primary(&mut self) -> (r: Result<Expr, ParseError>)
        requires
            old(self).wf(),
        ensures
            final(self).wf(),
            final(self).ts() == old(self).ts(),
            final(self).pos() >= old(self).pos(),
            parse_level(old(self).ts(), old(self).pos(), 0) == (res_v(r), final(self).pos()),
        decreases old(self).ts().len() - old(self).pos(), 0nat, 1nat,
    {
        if self.is_at_end() {
            return Err(self.error_here("Expect expression"));
        }
        let k = self.peek().kind;
        if k == TokenType::NIL {
            self.advance();
            return Ok(Expr::LITERAL(Literal::NIL));
        }
        if k == TokenType::STRING || k == TokenType::NUMBER || k == TokenType::FALSE || k
            == TokenType::TRUE {
            let tok = self.advance();
            return match tok.get_value() {
                Some(ValueTypes::NUMBER(n)) => Ok(Expr::LITERAL(Literal::NUMBER(n))),
                Some(ValueTypes::STRING(s)) => Ok(Expr::LITERAL(Literal::STRING(s))),
                Some(ValueTypes::BOOL(b)) => Ok(Expr::LITERAL(Literal::BOOL(b))),
                None => Err(ParseError::new(text("Expect number, string or bool"), tok)),
            };
        }
        if k == TokenType::IDENTIFIER {
            let tok = self.advance();
            return Ok(Expr::VARIABLE(Variable::new(tok)));
        }
        if k == TokenType::LEFTPAREN {
            self.advance();
            let expr = match self.expression() {
                Ok(e) => e,
                Err(e) => return Err(e),
            };
            if !self.check(TokenType::RIGHTPAREN) {
                return Err(self.error_here("Expect ')' after expression"));
            }
            self.advance();
            return Ok(Expr::GROUPING(Grouping::new(Box::new(expr))));
        }
        if k == TokenType::BANGEQUAL || k == TokenType::EQUALEQUAL {
            return self.missing_operand(5);
        }
        if k == TokenType::GREATER || k == TokenType::GREATEREQUAL || k == TokenType::LESS || k
            == TokenType::LESSEQUAL {
            return self.missing_operand(4);
        }
        if k == TokenType::PLUS {
            return self.missing_operand(3);
        }
        if k == TokenType::SLASH || k == TokenType::STAR {
            return self.missing_operand(2);
        }
        Err(self.error_here("Expect expression"))
    }
}

impl Parser {
    /// Parses statements up to the end of input; a statement with a syntax error gives
    /// its error, and parsing resumes at the next statement boundary.
    pub fn parse(&mut self) -> (r: Vec<Result<Stmt, ParseError>>)
        requires
            old(self).wf(),
        ensures
            Seq::new(r@.len(), |i: int| sres_v(r@[i])) == parse_from(old(self).ts(), old(self).pos()),
    {
        let ghost ts = self.ts();
        let ghost p0 = self.pos();
        let mut statements: Vec<Result<Stmt, ParseError>> = Vec::new();
        while !self.is_at_end()
            invariant
                self.wf(),
                self.ts() == ts,
                Seq::new(statements@.len(), |i: int| sres_v(statements@[i])) + parse_from(ts, self.pos())
                    == parse_from(ts, p0),
            decreases ts.len() - self.pos(),
        {
            let ghost before = statements@;
            let st = self.declaration();
            statements.push(st);
            proof {
                assert(Seq::new(statements@.len(), |i: int| sres_v(statements@[i])) =~= Seq::new(
                    before.len(),
                    |i: int| sres_v(before[i]),
                ) + seq![sres_v(st)]);
            }
        }
        proof {
            assert(Seq::new(statements@.len(), |i: int| sres_v(statements@[i])) + parse_from(ts, self.pos())
                =~= Seq::new(statements@.len(), |i: int| sres_v(statements@[i])));
        }
        statements
    }

    fn declaration(&mut self) -> (r: Result<Stmt, ParseError>)
        requires
            old(self).wf(),
            !at_end(old(self).ts(), old(self).pos()),
        ensures
            final(self).wf(),
            final(self).ts() == old(self).ts(),
            final(self).pos() > old(self).pos(),
            declaration_spec(old(self).ts(), old(self).pos()) == (sres_v(r), final(self).pos()),
    {
        let r = if self.match_types(vec![TokenType::VAR]) {
            self.var_declaration()
        } else {
            self.statement()
        };
        match r {
            Ok(s) => Ok(s),
            Err(e) => {
                self.synchronize();
                Err(e)
            },
        }
    }
}

impl Parser {
    fn var_declaration(&mut self) -> (r: Result<Stmt, ParseError>)
        requires
            old(self).wf(),
        ensures
            final(self).wf(),
            final(self).ts() == old(self).ts(),
            final(self).pos() >= old(self).pos(),
            r is Ok ==> final(self).pos() > old(self).pos(),
            var_declaration_spec(old(self).ts(), old(self).pos()) == (sres_v(r), final(self).pos()),
    {
        let name = match self.consume(TokenType::IDENTIFIER, "Expect variable name") {
            Ok(t) => t,
            Err(e) => return Err(e),
        };
        let mut initializer: Option<Box<Expr>> = None;
        if self.match_types(vec![TokenType::EQUAL]) {
            match self.expression() {
                Ok(e) => {
                    initializer = Some(Box::new(e));
                },
                Err(e) => return Err(e),
            }
        }
        match self.consume(TokenType::SEMICOLON, "Expect ';' after value.") {
            Ok(_) => {},
            Err(e) => return Err(e),
        };
        Ok(Stmt::VAR(Var::new(name, initializer)))
    }

    fn statement(&mut self) -> (r: Result<Stmt, ParseError>)
        requires
            old(self).wf(),
        ensures
            final(self).wf(),
            final(self).ts() == old(self).ts(),
            final(self).pos() >= old(self).pos(),
            r is Ok ==> final(self).pos() > old(self).pos(),
            statement_spec(old(self).ts(), old(self).pos()) == (sres_v(r), final(self).pos()),
    {
        if self.match_types(vec![TokenType::PRINT]) {
            return self.print_statement();
        }
        self.expression_statement()
    }

    fn print_statement(&mut self) -> (r: Result<Stmt, ParseError>)
        requires
            old(self).wf(),
        ensures
            final(self).wf(),
            final(self).ts() == old(self).ts(),
            final(self).pos() >= old(self).pos(),
            r is Ok ==> final(self).pos() > old(self).pos(),
            ({
                let (x, q) = parse_level(old(self).ts(), old(self).pos(), 8);
                terminated(old(self).ts(), x, q, "Expect ';' after value."@, true)
            }) == (sres_v(r), final(self).pos()),
    {
        let expr = match self.expression() {
            Ok(e) => e,
            Err(e) => return Err(e),
        };
        match self.consume(TokenType::SEMICOLON, "Expect ';' after value.") {
            Ok(_) => {},
            Err(e) => return Err(e),
        };
        Ok(Stmt::PRINT(Print::new(Box::new(expr))))
    }

    fn expression_statement(&mut self) -> (r: Result<Stmt, ParseError>)
        requires
            old(self).wf(),
        ensures
            final(self).wf(),
            final(self).ts() == old(self).ts(),
            final(self).pos() >= old(self).pos(),
            r is Ok ==> final(self).pos() > old(self).pos(),
            ({
                let (x, q) = parse_level(old(self).ts(), old(self).pos(), 8);
                terminated(old(self).ts(), x, q, "Expect ';' after value."@, false)
            }) == (sres_v(r), final(self).pos()),
    {
        let expr = match self.expression() {
            Ok(e) => e,
            Err(e) => return Err(e),
        };
        match self.consume(TokenType::SEMICOLON, "Expect ';' after value.") {
            Ok(_) => {},
            Err(e) => return Err(e),
        };
        Ok(Stmt::EXPRESSION(Expression::new(Box::new(expr))))
    }

    /// Discards tokens up to the next statement boundary.
    fn synchronize(&mut self)
        requires
            old(self).wf(),
        ensures
            final(self).wf(),
            final(self).ts() == old(self).ts(),
            final(self).pos() == synchronize_spec(old(self).ts(), old(self).pos()),
            final(self).pos() >= adv(old(self).ts(), old(self).pos()),
    {
        self.advance();
        let ghost start = self.pos();
        while !self.is_at_end()
            invariant
                self.wf(),
                self.ts() == old(self).ts(),
                start == adv(old(self).ts(), old(self).pos()),
                self.pos() >= start,
                self.pos() >= 1 || self.pos() == start,
                sync_from(self.ts(), self.pos()) == sync_from(self.ts(), start),
            decreases self.ts().len() - self.pos(),
        {
            if self.current >= 1 && self.previous().kind == TokenType::SEMICOLON {
                return;
            }
            let k = self.peek().kind;
            if k == TokenType::CLASS || k == TokenType::FUN || k == TokenType::VAR || k
                == TokenType::FOR || k == TokenType::IF || k == TokenType::WHILE || k
                == TokenType::PRINT || k == TokenType::RETURN {
                return;
            }
            if self.current == 0 {
                return;
            }
            self.advance();
        }
    }
}

fn tier_op_exec(lvl: u8, k: TokenType) -> (r: bool)
    ensures
        r == tier_op(lvl as nat, k),
{
    if lvl == 2 {
        k == TokenType::SLASH || k == TokenType::STAR
    } else if lvl == 3 {
        k == TokenType::MINUS || k == TokenType::PLUS
    } else if lvl == 4 {
        k == TokenType::GREATER || k == TokenType::GREATEREQUAL || k == TokenType::LESS || k
            == TokenType::LESSEQUAL
    } else if lvl == 5 {
        k == TokenType::BANGEQUAL || k == TokenType::EQUALEQUAL
    } else if lvl == 6 {
        k == TokenType::COMMA
    } else {
        false
    }
}

} // verus!

verus! {

proof fn lemma_digits_end(src: Seq<char>, j: int, k: int)
    requires
        0 <= j <= k <= src.len(),
        forall|x: int| j <= x < k ==> is_digit(#[trigger] src[x]),
        k == src.len() || !is_digit(src[k]),
    ensures
        crate::scanner::digits_end(src, j) == k,
    decreases k - j,
{
    if j < k {
        lemma_digits_end(src, j + 1, k);
    }
}

/// A number lexeme alone scans to one NUMBER token carrying it, on line 1.
proof fn lemma_scan_lexeme(src: Seq<char>)
    requires
        valid_lexeme(src),
    ensures
        crate::scanner::scan_spec(src).1 == Seq::<(int, Seq<char>)>::empty(),
        crate::scanner::scan_spec(src).0 == seq![
            TokV { kind: TokenType::NUMBER, line: 1, text: Some(src) },
            TokV { kind: TokenType::EOF, line: 1, text: None },
        ],
{
    let n = src.len() as int;
    if crate::number::all_digits(src) && src.len() > 0 {
        lemma_digits_end(src, 0, n);
        assert(crate::scanner::number_end(src, 0) == n);
    } else {
        let k = choose|k: int|
            0 < k < src.len() - 1 && src[k] == '.' && crate::number::all_digits(src.subrange(0, k))
                && crate::number::all_digits(src.subrange(k + 1, src.len() as int));
        assert forall|x: int| 0 <= x < k implies is_digit(#[trigger] src[x]) by {
            assert(src[x] == src.subrange(0, k)[x]);
        }
        assert forall|x: int| k + 1 <= x < n implies is_digit(#[trigger] src[x]) by {
            assert(src[x] == src.subrange(k + 1, n)[x - k - 1]);
        }
        lemma_digits_end(src, 0, k);
        lemma_digits_end(src, k + 1, n);
        assert(is_digit(src[k + 1]));
        assert(crate::scanner::number_end(src, 0) == n);
    }
    if crate::number::all_digits(src) && src.len() > 0 {
        assert(is_digit(src[0]));
    } else {
        let k = choose|k: int|
            0 < k < src.len() - 1 && src[k] == '.' && crate::number::all_digits(src.subrange(0, k))
                && crate::number::all_digits(src.subrange(k + 1, src.len() as int));
        assert(src[0] == src.subrange(0, k)[0]);
    }
    let c = src[0];
    assert('0' <= c <= '9');
    assert(src.subrange(0, n) =~= src);
    let st = crate::scanner::step(src, 0, 1);
    assert(st == crate::scanner::StepV {
        next: n,
        line: 1,
        tok: Some(TokV { kind: TokenType::NUMBER, line: 1, text: Some(src) }),
        err: None,
    });
    let tail = crate::scanner::scan_from(src, n, 1);
    assert(tail == (seq![TokV { kind: TokenType::EOF, line: 1, text: None }], Seq::<(int, Seq<char>)>::empty()));
    assert(crate::scanner::scan_from(src, 0, 1) == (crate::scanner::opt_seq(st.tok) + tail.0, crate::scanner::opt_seq(st.err) + tail.1));
    assert(crate::scanner::opt_seq(st.err) =~= Seq::<(int, Seq<char>)>::empty());
    assert(crate::scanner::scan_spec(src).1 =~= Seq::<(int, Seq<char>)>::empty());
    assert(crate::scanner::scan_spec(src).0 =~= seq![
        TokV { kind: TokenType::NUMBER, line: 1, text: Some(src) },
        TokV { kind: TokenType::EOF, line: 1, text: None },
    ]);
}

/// A NUMBER token alone parses, at every level, to the literal it denotes.
proof fn lemma_parse_lone_number(ts: Seq<TokV>, text: Seq<char>, m: int)
    requires
        ts == seq![
            TokV { kind: TokenType::NUMBER, line: 1, text: Some(text) },
            TokV { kind: TokenType::EOF, line: 1, text: None },
        ],
        number_val(Some(text)) == Some(m),
    ensures
        parse_level(ts, 0, 8) == (Ok::<ExprV, PErr>(ExprV::Lit(Val::Num(m))), 1int),
{
    let lit = ExprV::Lit(Val::Num(m));
    assert(parse_level(ts, 0, 0) == (Ok::<ExprV, PErr>(lit), 1int));
    assert(parse_level(ts, 0, 1) == (Ok::<ExprV, PErr>(lit), 1int));
    assert(parse_rest(ts, 1, 2, lit) == (Ok::<ExprV, PErr>(lit), 1int));
    assert(parse_level(ts, 0, 2) == (Ok::<ExprV, PErr>(lit), 1int));
    assert(parse_rest(ts, 1, 3, lit) == (Ok::<ExprV, PErr>(lit), 1int));
    assert(parse_level(ts, 0, 3) == (Ok::<ExprV, PErr>(lit), 1int));
    assert(parse_rest(ts, 1, 4, lit) == (Ok::<ExprV, PErr>(lit), 1int));
    assert(parse_level(ts, 0, 4) == (Ok::<ExprV, PErr>(lit), 1int));
    assert(parse_rest(ts, 1, 5, lit) == (Ok::<ExprV, PErr>(lit), 1int));
    assert(parse_level(ts, 0, 5) == (Ok::<ExprV, PErr>(lit), 1int));
    assert(parse_rest(ts, 1, 6, lit) == (Ok::<ExprV, PErr>(lit), 1int));
    assert(parse_level(ts, 0, 6) == (Ok::<ExprV, PErr>(lit), 1int));
    assert(parse_level(ts, 0, 7) == (Ok::<ExprV, PErr>(lit), 1int));
    assert(parse_level(ts, 0, 8) == (Ok::<ExprV, PErr>(lit), 1int));
}

/// Printing a number in range and reading the text back through the scanner and the
/// parser gives a literal of the same number: the text scans to one NUMBER token, and
/// the expression it parses to is that number. (A negative number prints with a leading
/// '-', which reads back as negation of the printed magnitude.)
pub proof fn lemma_number_reads_back(m: int)
    requires
        0 <= m <= LIMIT,
    ensures
        crate::scanner::scan_spec(crate::number::number_text(m)).1 == Seq::<(int, Seq<char>)>::empty(),
        crate::scanner::scan_spec(crate::number::number_text(m)).0 == seq![
            TokV { kind: TokenType::NUMBER, line: 1, text: Some(crate::number::number_text(m)) },
            TokV { kind: TokenType::EOF, line: 1, text: None },
        ],
        parse_level(crate::scanner::scan_spec(crate::number::number_text(m)).0, 0, 8) == (
            Ok::<ExprV, PErr>(ExprV::Lit(Val::Num(m))),
            1int,
        ),
{
    let src = crate::number::number_text(m);
    crate::number::lemma_number_text_round_trip(m);
    lemma_scan_lexeme(src);
    lemma_parse_lone_number(crate::scanner::scan_spec(src).0, src, m);
}

/// A number lexeme followed by ';' scans to a NUMBER token, a SEMICOLON token and the
/// end of input, all on line 1.
proof fn lemma_scan_lexeme_statement(src: Seq<char>)
    requires
        valid_lexeme(src),
    ensures
        crate::scanner::scan_spec(src.push(';')).1 == Seq::<(int, Seq<char>)>::empty(),
        crate::scanner::scan_spec(src.push(';')).0 == seq![
            TokV { kind: TokenType::NUMBER, line: 1, text: Some(src) },
            TokV { kind: TokenType::SEMICOLON, line: 1, text: None },
            TokV { kind: TokenType::EOF, line: 1, text: None },
        ],
{
    let full = src.push(';');
    let n = src.len() as int;
    if crate::number::all_digits(src) && src.len() > 0 {
        assert forall|x: int| 0 <= x < n implies is_digit(#[trigger] full[x]) by {
            assert(full[x] == src[x]);
        }
        lemma_digits_end(full, 0, n);
        assert(crate::scanner::number_end(full, 0) == n);
        assert(is_digit(full[0]));
    } else {
        let k = choose|k: int|
            0 < k < src.len() - 1 && src[k] == '.' && crate::number::all_digits(src.subrange(0, k))
                && crate::number::all_digits(src.subrange(k + 1, src.len() as int));
        assert forall|x: int| 0 <= x < k implies is_digit(#[trigger] full[x]) by {
            assert(full[x] == src.subrange(0, k)[x]);
        }
        assert forall|x: int| k + 1 <= x < n implies is_digit(#[trigger] full[x]) by {
            assert(full[x] == src.subrange(k + 1, n)[x - k - 1]);
        }
        lemma_digits_end(full, 0, k);
        lemma_digits_end(full, k + 1, n);
        assert(is_digit(full[k + 1]));
        assert(full[k] == '.');
        assert(crate::scanner::number_end(full, 0) == n);
        assert(is_digit(full[0]));
    }
    assert(full.subrange(0, n) =~= src);
    let st = crate::scanner::step(full, 0, 1);
    assert(st == crate::scanner::StepV {
        next: n,
        line: 1,
        tok: Some(TokV { kind: TokenType::NUMBER, line: 1, text: Some(src) }),
        err: None,
    });
    let st2 = crate::scanner::step(full, n, 1);
    assert(full[n] == ';');
    assert(st2 == crate::scanner::emit(n + 1, 1, TokenType::SEMICOLON));
    let tail = crate::scanner::scan_from(full, n + 1, 1);
    assert(tail == (seq![TokV { kind: TokenType::EOF, line: 1, text: None }], Seq::<(int, Seq<char>)>::empty()));
    let mid = crate::scanner::scan_from(full, n, 1);
    assert(mid == (crate::scanner::opt_seq(st2.tok) + tail.0, crate::scanner::opt_seq(st2.err) + tail.1));
    assert(crate::scanner::scan_from(full, 0, 1) == (crate::scanner::opt_seq(st.tok) + mid.0, crate::scanner::opt_seq(st.err) + mid.1));
    assert(crate::scanner::opt_seq(st.err) =~= Seq::<(int, Seq<char>)>::empty());
    assert(crate::scanner::opt_seq(st2.err) =~= Seq::<(int, Seq<char>)>::empty());
    assert(crate::scanner::scan_spec(full).1 =~= Seq::<(int, Seq<char>)>::empty());
    assert(crate::scanner::scan_spec(full).0 =~= seq![
        TokV { kind: TokenType::NUMBER, line: 1, text: Some(src) },
        TokV { kind: TokenType::SEMICOLON, line: 1, text: None },
        TokV { kind: TokenType::EOF, line: 1, text: None },
    ]);
}

/// A NUMBER token then ';' parses to one expression statement of the literal it denotes.
proof fn lemma_parse_number_statement(ts: Seq<TokV>, text: Seq<char>, m: int)
    requires
        ts == seq![
            TokV { kind: TokenType::NUMBER, line: 1, text: Some(text) },
            TokV { kind: TokenType::SEMICOLON, line: 1, text: None },
            TokV { kind: TokenType::EOF, line: 1, text: None },
        ],
        number_val(Some(text)) == Some(m),
    ensures
        parse_from(ts, 0) == seq![Ok::<StmtV, PErr>(StmtV::Expression(ExprV::Lit(Val::Num(m))))],
{
    let lit = ExprV::Lit(Val::Num(m));
    assert(parse_level(ts, 0, 0) == (Ok::<ExprV, PErr>(lit), 1int));
    assert(parse_level(ts, 0, 1) == (Ok::<ExprV, PErr>(lit), 1int));
    assert(parse_rest(ts, 1, 2, lit) == (Ok::<ExprV, PErr>(lit), 1int));
    assert(parse_level(ts, 0, 2) == (Ok::<ExprV, PErr>(lit), 1int));
    assert(parse_rest(ts, 1, 3, lit) == (Ok::<ExprV, PErr>(lit), 1int));
    assert(parse_level(ts, 0, 3) == (Ok::<ExprV, PErr>(lit), 1int));
    assert(parse_rest(ts, 1, 4, lit) == (Ok::<ExprV, PErr>(lit), 1int));
    assert(parse_level(ts, 0, 4) == (Ok::<ExprV, PErr>(lit), 1int));
    assert(parse_rest(ts, 1, 5, lit) == (Ok::<ExprV, PErr>(lit), 1int));
    assert(parse_level(ts, 0, 5) == (Ok::<ExprV, PErr>(lit), 1int));
    assert(parse_rest(ts, 1, 6, lit) == (Ok::<ExprV, PErr>(lit), 1int));
    assert(parse_level(ts, 0, 6) == (Ok::<ExprV, PErr>(lit), 1int));
    assert(parse_level(ts, 0, 7) == (Ok::<ExprV, PErr>(lit), 1int));
    assert(parse_level(ts, 0, 8) == (Ok::<ExprV, PErr>(lit), 1int));
    assert(statement_spec(ts, 0) == (Ok::<StmtV, PErr>(StmtV::Expression(lit)), 2int));
    assert(declaration_spec(ts, 0) == (Ok::<StmtV, PErr>(StmtV::Expression(lit)), 2int));
    assert(parse_from(ts, 2) =~= Seq::<Result<StmtV, PErr>>::empty());
    assert(parse_from(ts, 0) =~= seq![Ok::<StmtV, PErr>(StmtV::Expression(lit))]);
}

/// The statement `t;`, where `t` is the printed text of a number in range, scans without
/// errors and parses to one expression statement whose expression is that number.
pub proof fn lemma_number_statement_reads_back(m: int)
    requires
        0 <= m <= LIMIT,
    ensures
        crate::scanner::scan_spec(crate::number::number_text(m).push(';')).1 == Seq::<
            (int, Seq<char>),
        >::empty(),
        parse_from(crate::scanner::scan_spec(crate::number::number_text(m).push(';')).0, 0) == seq![
            Ok::<StmtV, PErr>(StmtV::Expression(ExprV::Lit(Val::Num(m)))),
        ],
{
    let src = crate::number::number_text(m);
    crate::number::lemma_number_text_round_trip(m);
    lemma_scan_lexeme_statement(src);
    lemma_parse_number_statement(crate::scanner::scan_spec(src.push(';')).0, src, m);
}

} // verus!
