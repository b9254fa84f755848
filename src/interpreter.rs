use vstd::prelude::*;
use crate::ast::{
    Binary, Block, Comma, Expr, Literal, Stmt, Ternary, Unary, Val, truthy, val_text,
};
use crate::environment::{Environment, assign_in, define_in, lookup, undefined_message};
use crate::error::{ErrV, EvaluationError, OperandsV};
use crate::number::{Number, add_spec, div_spec, mul_spec, number_text, sub_spec};
use crate::text::{chars_to_string, lit_chars, push_all, string_to_chars};
use crate::parser::{ExprV, StmtV, expr_view, stmt_view};
use crate::token::{Token, token_text};
use crate::token_type::TokenType;

verus! {

/// Scopes from the global one to the innermost.
pub type Scopes = Seq<Map<Seq<char>, Val>>;

pub open spec fn type_error_binary(l: Val, r: Val) -> ErrV {
    ErrV { message: "Invalid operation on binary operand"@, operands: OperandsV::Binary(l, r) }
}

pub open spec fn type_error_unary(v: Val) -> ErrV {
    ErrV { message: "Invalid operation on unary operand."@, operands: OperandsV::Unary(v) }
}

pub open spec fn division_by_zero(l: Val, r: Val) -> ErrV {
    ErrV { message: "Division by zero"@, operands: OperandsV::Binary(l, r) }
}

pub open spec fn overflow(l: Val, r: Val) -> ErrV {
    ErrV { message: "Numeric overflow"@, operands: OperandsV::Binary(l, r) }
}

pub open spec fn undefined_variable(name: Seq<char>) -> ErrV {
    ErrV { message: undefined_message(name), operands: OperandsV::Var }
}

/// A numeric result, or the overflow error when it left the range.
pub open spec fn num_result(o: Option<int>, l: Val, r: Val) -> Result<Val, ErrV> {
    match o {
        Some(v) => Ok(Val::Num(v)),
        None => Err(overflow(l, r)),
    }
}

/// What a unary operator gives for an operand.
pub open spec fn unary_spec(op: TokenType, v: Val) -> Result<Val, ErrV> {
    match (op, v) {
        (TokenType::MINUS, Val::Num(n)) => Ok(Val::Num(-n)),
        (TokenType::BANG, _) => Ok(Val::Bool(!truthy(v))),
        _ => Err(type_error_unary(v)),
    }
}

/// What a binary operator gives for two operands.
pub open spec fn binary_spec(op: TokenType, l: Val, r: Val) -> Result<Val, ErrV> {
    match (op, l, r) {
        (TokenType::MINUS, Val::Num(a), Val::Num(b)) => num_result(sub_spec(a, b), l, r),
        (TokenType::PLUS, Val::Num(a), Val::Num(b)) => num_result(add_spec(a, b), l, r),
        (TokenType::PLUS, Val::Str(a), Val::Str(b)) => Ok(Val::Str(a + b)),
        (TokenType::PLUS, Val::Str(a), Val::Num(b)) => Ok(Val::Str(a + number_text(b))),
        (TokenType::PLUS, Val::Num(a), Val::Str(b)) => Ok(Val::Str(number_text(a) + b)),
        (TokenType::SLASH, Val::Num(a), Val::Num(b)) => if b == 0 {
            Err(division_by_zero(l, r))
        } else {
            num_result(div_spec(a, b), l, r)
        },
        (TokenType::STAR, Val::Num(a), Val::Num(b)) => num_result(mul_spec(a, b), l, r),
        (TokenType::GREATER, Val::Num(a), Val::Num(b)) => Ok(Val::Bool(a > b)),
        (TokenType::GREATEREQUAL, Val::Num(a), Val::Num(b)) => Ok(Val::Bool(a >= b)),
        (TokenType::LESS, Val::Num(a), Val::Num(b)) => Ok(Val::Bool(a < b)),
        (TokenType::LESSEQUAL, Val::Num(a), Val::Num(b)) => Ok(Val::Bool(a <= b)),
        (TokenType::BANGEQUAL, Val::Num(a), Val::Num(b)) => Ok(Val::Bool(a != b)),
        (TokenType::BANGEQUAL, Val::Nil, Val::Nil) => Ok(Val::Bool(false)),
        (TokenType::BANGEQUAL, Val::Num(_), Val::Nil) => Ok(Val::Bool(true)),
        (TokenType::BANGEQUAL, Val::Nil, Val::Num(_)) => Ok(Val::Bool(true)),
        (TokenType::EQUALEQUAL, Val::Num(a), Val::Num(b)) => Ok(Val::Bool(a == b)),
        (TokenType::EQUALEQUAL, Val::Nil, Val::Nil) => Ok(Val::Bool(true)),
        (TokenType::EQUALEQUAL, Val::Num(_), Val::Nil) => Ok(Val::Bool(false)),
        (TokenType::EQUALEQUAL, Val::Nil, Val::Num(_)) => Ok(Val::Bool(false)),
        _ => Err(type_error_binary(l, r)),
    }
}

/// The value of an expression and the scopes after it, from left to right; an error
/// stops the evaluation where it is raised.
pub open spec fn eval(e: ExprV, env: Scopes) -> (Result<Val, ErrV>, Scopes)
    decreases e,
{
    match e {
        ExprV::Lit(v) => (Ok(v), env),
        ExprV::Grouping(g) => eval(*g, env),
        ExprV::Unary(op, rhs) => {
            let (r, env1) = eval(*rhs, env);
            match r {
                Ok(v) => (unary_spec(op, v), env1),
                Err(x) => (Err(x), env1),
            }
        },
        ExprV::Binary(op, lhs, rhs) => {
            let (l, env1) = eval(*lhs, env);
            match l {
                Err(x) => (Err(x), env1),
                Ok(lv) => {
                    let (r, env2) = eval(*rhs, env1);
                    match r {
                        Err(x) => (Err(x), env2),
                        Ok(rv) => (binary_spec(op, lv, rv), env2),
                    }
                },
            }
        },
        ExprV::Comma(lhs, rhs) => {
            let (l, env1) = eval(*lhs, env);
            match l {
                Err(x) => (Err(x), env1),
                Ok(_) => eval(*rhs, env1),
            }
        },
        ExprV::Ternary(cond, then_e, else_e) => {
            let (c, env1) = eval(*cond, env);
            match c {
                Err(x) => (Err(x), env1),
                Ok(cv) => if truthy(cv) {
                    eval(*then_e, env1)
                } else {
                    eval(*else_e, env1)
                },
            }
        },
        ExprV::Variable(name) => match lookup(env, name) {
            Some(x) => (Ok(x), env),
            None => (Err(undefined_variable(name)), env),
        },
        ExprV::Assign(name, value) => {
            let (r, env1) = eval(*value, env);
            match r {
                Err(x) => (Err(x), env1),
                Ok(v) => match assign_in(env1, name, v) {
                    Some(env2) => (Ok(v), env2),
                    None => (Err(undefined_variable(name)), env1),
                },
            }
        },
    }
}

/// Runs a statement other than a block: its result (`nil` but for an expression
/// statement, which yields its value), the scopes after it, and the lines it printed.
pub open spec fn exec_v(s: StmtV, env: Scopes) -> (Result<Val, ErrV>, Scopes, Seq<Seq<char>>) {
    match s {
        StmtV::Expression(e) => {
            let (r, env1) = eval(e, env);
            (r, env1, Seq::empty())
        },
        StmtV::Print(e) => {
            let (r, env1) = eval(e, env);
            match r {
                Ok(v) => (Ok(Val::Nil), env1, seq![val_text(v)]),
                Err(x) => (Err(x), env1, Seq::empty()),
            }
        },
        StmtV::Var(name, init) => match init {
            Some(e) => {
                let (r, env1) = eval(e, env);
                match r {
                    Ok(x) => (Ok(Val::Nil), define_in(env1, name, x), Seq::empty()),
                    Err(x) => (Err(x), env1, Seq::empty()),
                }
            },
            None => (Ok(Val::Nil), define_in(env, name, Val::Nil), Seq::empty()),
        },
        StmtV::Block => (Ok(Val::Nil), env, Seq::empty()),
    }
}

/// Dividing by zero is an error, never a value: when the left operand evaluates to a
/// number and the right one to zero, the division fails with the division-by-zero error.
pub proof fn lemma_division_by_zero_fails(lhs: ExprV, rhs: ExprV, env: Scopes)
    requires
        eval(lhs, env).0 matches Ok(Val::Num(_)),
        eval(rhs, eval(lhs, env).1).0 == Ok::<Val, ErrV>(Val::Num(0)),
    ensures
        eval(ExprV::Binary(TokenType::SLASH, Box::new(lhs), Box::new(rhs)), env).0 == Err::<
            Val,
            ErrV,
        >(division_by_zero(eval(lhs, env).0->Ok_0, Val::Num(0))),
{
}

/// `+` joins two strings, and a string and a number in either order, the number written
/// as its decimal text.
pub proof fn lemma_concatenation(a: Seq<char>, b: Seq<char>, n: int)
    ensures
        binary_spec(TokenType::PLUS, Val::Str(a), Val::Str(b)) == Ok::<Val, ErrV>(Val::Str(a + b)),
        binary_spec(TokenType::PLUS, Val::Str(a), Val::Num(n)) == Ok::<Val, ErrV>(
            Val::Str(a + number_text(n)),
        ),
        binary_spec(TokenType::PLUS, Val::Num(n), Val::Str(b)) == Ok::<Val, ErrV>(
            Val::Str(number_text(n) + b),
        ),
{
}

/// Logical negation follows truthiness: `false` and `nil` give `true`, every other
/// value gives `false`.
pub proof fn lemma_negation(v: Val)
    ensures
        unary_spec(TokenType::BANG, v) == Ok::<Val, ErrV>(
            Val::Bool(v == Val::Bool(false) || v == Val::Nil),
        ),
{
}

/// The comma operator: an error of the left operand is the result and the right one is
/// not evaluated; otherwise the left value is dropped and the right operand is evaluated
/// in the scopes the left one left.
pub proof fn lemma_comma(lhs: ExprV, rhs: ExprV, env: Scopes)
    ensures
        eval(ExprV::Comma(Box::new(lhs), Box::new(rhs)), env) == (match eval(lhs, env).0 {
            Err(x) => (Err(x), eval(lhs, env).1),
            Ok(_) => eval(rhs, eval(lhs, env).1),
        }),
{
}

/// A conditional evaluates only the branch its condition selects, in the scopes the
/// condition left; the other branch has no effect.
pub proof fn lemma_ternary_short_circuit(cond: ExprV, then_e: ExprV, else_e: ExprV, env: Scopes)
    ensures
        eval(ExprV::Ternary(Box::new(cond), Box::new(then_e), Box::new(else_e)), env) == (match eval(
            cond,
            env,
        ).0 {
            Err(x) => (Err(x), eval(cond, env).1),
            Ok(v) => if truthy(v) {
                eval(then_e, eval(cond, env).1)
            } else {
                eval(else_e, eval(cond, env).1)
            },
        }),
{
}

proof fn lemma_assign_keeps_unbound(s: Scopes, m: Seq<char>, v: Val, n: Seq<char>)
    requires
        lookup(s, n) is None,
    ensures
        assign_in(s, m, v) matches Some(t) ==> lookup(t, n) is None,
    decreases s.len(),
{
    if s.len() > 0 {
        if s.last().contains_key(m) {
            let t = s.update(s.len() - 1, s.last().insert(m, v));
            assert(t.drop_last() =~= s.drop_last());
        } else {
            lemma_assign_keeps_unbound(s.drop_last(), m, v, n);
            match assign_in(s.drop_last(), m, v) {
                Some(t0) => {
                    assert(t0.push(s.last()).drop_last() =~= t0);
                },
                None => {},
            }
        }
    }
}

/// Evaluation never creates a binding: a name unbound before is unbound after.
pub proof fn lemma_eval_keeps_unbound(e: ExprV, env: Scopes, n: Seq<char>)
    requires
        lookup(env, n) is None,
    ensures
        lookup(eval(e, env).1, n) is None,
    decreases e,
{
    match e {
        ExprV::Lit(_) => {},
        ExprV::Variable(_) => {},
        ExprV::Grouping(g) => lemma_eval_keeps_unbound(*g, env, n),
        ExprV::Unary(_, r) => lemma_eval_keeps_unbound(*r, env, n),
        ExprV::Binary(_, l, r) => {
            lemma_eval_keeps_unbound(*l, env, n);
            lemma_eval_keeps_unbound(*r, eval(*l, env).1, n);
        },
        ExprV::Comma(l, r) => {
            lemma_eval_keeps_unbound(*l, env, n);
            lemma_eval_keeps_unbound(*r, eval(*l, env).1, n);
        },
        ExprV::Ternary(c, t, f) => {
            lemma_eval_keeps_unbound(*c, env, n);
            lemma_eval_keeps_unbound(*t, eval(*c, env).1, n);
            lemma_eval_keeps_unbound(*f, eval(*c, env).1, n);
        },
        ExprV::Assign(m, v) => {
            lemma_eval_keeps_unbound(*v, env, n);
            let (r, env1) = eval(*v, env);
            if r is Ok {
                lemma_assign_keeps_unbound(env1, m, r->Ok_0, n);
            }
        },
    }
}

/// Reading or assigning a name that no scope binds fails with the undefined-variable
/// error, which names it.
pub proof fn lemma_undefined_variable(name: Seq<char>, value: ExprV, env: Scopes)
    requires
        lookup(env, name) is None,
    ensures
        eval(ExprV::Variable(name), env) == (Err::<Val, ErrV>(undefined_variable(name)), env),
        eval(value, env).0 is Ok ==> eval(ExprV::Assign(name, Box::new(value)), env).0 == Err::<
            Val,
            ErrV,
        >(undefined_variable(name)),
        undefined_variable(name).message == "Undefined variable "@ + name,
{
    lemma_eval_keeps_unbound(value, env, name);
    let env1 = eval(value, env).1;
    if eval(value, env).0 is Ok {
        lemma_lookup_none_assign(env1, name, eval(value, env).0->Ok_0);
    }
}

proof fn lemma_lookup_none_assign(s: Scopes, n: Seq<char>, v: Val)
    requires
        lookup(s, n) is None,
    ensures
        assign_in(s, n, v) is None,
    decreases s.len(),
{
    if s.len() > 0 {
        lemma_lookup_none_assign(s.drop_last(), n, v);
    }
}

/// `var x;` binds `x` to `nil` in the innermost scope, and reading `x` then yields `nil`.
pub proof fn lemma_declaration_without_initializer(name: Seq<char>, env: Scopes)
    requires
        env.len() >= 1,
    ensures
        exec_v(StmtV::Var(name, None), env) == (Ok::<Val, ErrV>(Val::Nil), define_in(
            env,
            name,
            Val::Nil,
        ), Seq::<Seq<char>>::empty()),
        eval(ExprV::Variable(name), define_in(env, name, Val::Nil)).0 == Ok::<Val, ErrV>(Val::Nil),
{
    let t = define_in(env, name, Val::Nil);
    assert(t.last() == env.last().insert(name, Val::Nil));
}

pub open spec fn res_view(r: Result<Literal, EvaluationError>) -> Result<Val, ErrV> {
    match r {
        Ok(l) => Ok(l@),
        Err(e) => Err(e@),
    }
}

/// Applies a unary operator to an evaluated operand.
pub fn apply_unary(op: &Token, v: Literal) -> (r: Result<Literal, EvaluationError>)
    ensures
        res_view(r) == unary_spec(op.kind, v@),
{
    match (op.kind, v) {
        (TokenType::MINUS, Literal::NUMBER(n)) => Ok(Literal::NUMBER(n.neg())),
        (TokenType::BANG, Literal::BOOL(b)) => Ok(Literal::BOOL(!b)),
        (TokenType::BANG, Literal::NIL) => Ok(Literal::BOOL(true)),
        (TokenType::BANG, _) => Ok(Literal::BOOL(false)),
        (_, lit) => Err(
            EvaluationError::new_unary(
                chars_to_string(&lit_chars("Invalid operation on unary operand.")),
                lit,
            ),
        ),
    }
}

fn number_or_overflow(o: Option<Number>, l: Literal, r: Literal) -> (res: Result<
    Literal,
    EvaluationError,
>)
    ensures
        o matches Some(n) ==> res_view(res) == Ok::<Val, ErrV>(Val::Num(n@)),
        o is None ==> res_view(res) == Err::<Val, ErrV>(overflow(l@, r@)),
{
    match o {
        Some(n) => Ok(Literal::NUMBER(n)),
        None => Err(
            EvaluationError::new_binary(
                chars_to_string(&lit_chars("Numeric overflow")),
                l,
                r,
            ),
        ),
    }
}

fn concat(a: &Vec<char>, b: &Vec<char>) -> (r: Literal)
    ensures
        r@ == Val::Str(a@ + b@),
{
    let mut out: Vec<char> = Vec::new();
    push_all(&mut out, a);
    push_all(&mut out, b);
    proof {
        assert(out@ =~= a@ + b@);
    }
    Literal::STRING(chars_to_string(&out))
}

/// Applies a binary operator to two evaluated operands.
pub fn apply_binary(op: &Token, l: Literal, r: Literal) -> (res: Result<Literal, EvaluationError>)
    ensures
        res_view(res) == binary_spec(op.kind, l@, r@),
{
    match (op.kind, &l, &r) {
        (TokenType::MINUS, Literal::NUMBER(a), Literal::NUMBER(b)) => {
            let o = a.sub(b);
            number_or_overflow(o, l, r)
        },
        (TokenType::PLUS, Literal::NUMBER(a), Literal::NUMBER(b)) => {
            let o = a.add(b);
            number_or_overflow(o, l, r)
        },
        (TokenType::PLUS, Literal::STRING(a), Literal::STRING(b)) => Ok(
            concat(&string_to_chars(a), &string_to_chars(b)),
        ),
        (TokenType::PLUS, Literal::STRING(a), Literal::NUMBER(b)) => Ok(
            concat(&string_to_chars(a), &b.text_chars()),
        ),
        (TokenType::PLUS, Literal::NUMBER(a), Literal::STRING(b)) => Ok(
            concat(&a.text_chars(), &string_to_chars(b)),
        ),
        (TokenType::SLASH, Literal::NUMBER(a), Literal::NUMBER(b)) => {
            if b.is_zero() {
                Err(
                    EvaluationError::new_binary(
                        chars_to_string(&lit_chars("Division by zero")),
                        l,
                        r,
                    ),
                )
            } else {
                let o = a.div(b);
                number_or_overflow(o, l, r)
            }
        },
        (TokenType::STAR, Literal::NUMBER(a), Literal::NUMBER(b)) => {
            let o = a.mul(b);
            number_or_overflow(o, l, r)
        },
        (TokenType::GREATER, Literal::NUMBER(a), Literal::NUMBER(b)) => Ok(Literal::BOOL(b.lt(a))),
        (TokenType::GREATEREQUAL, Literal::NUMBER(a), Literal::NUMBER(b)) => Ok(
            Literal::BOOL(b.le(a)),
        ),
        (TokenType::LESS, Literal::NUMBER(a), Literal::NUMBER(b)) => Ok(Literal::BOOL(a.lt(b))),
        (TokenType::LESSEQUAL, Literal::NUMBER(a), Literal::NUMBER(b)) => Ok(
            Literal::BOOL(a.le(b)),
        ),
        (TokenType::BANGEQUAL, Literal::NUMBER(a), Literal::NUMBER(b)) => Ok(
            Literal::BOOL(!a.equals(b)),
        ),
        (TokenType::BANGEQUAL, Literal::NIL, Literal::NIL) => Ok(Literal::BOOL(false)),
        (TokenType::BANGEQUAL, Literal::NUMBER(_), Literal::NIL) => Ok(Literal::BOOL(true)),
        (TokenType::BANGEQUAL, Literal::NIL, Literal::NUMBER(_)) => Ok(Literal::BOOL(true)),
        (TokenType::EQUALEQUAL, Literal::NUMBER(a), Literal::NUMBER(b)) => Ok(
            Literal::BOOL(a.equals(b)),
        ),
        (TokenType::EQUALEQUAL, Literal::NIL, Literal::NIL) => Ok(Literal::BOOL(true)),
        (TokenType::EQUALEQUAL, Literal::NUMBER(_), Literal::NIL) => Ok(Literal::BOOL(false)),
        (TokenType::EQUALEQUAL, Literal::NIL, Literal::NUMBER(_)) => Ok(Literal::BOOL(false)),
        _ => Err(
            EvaluationError::new_binary(
                chars_to_string(&lit_chars("Invalid operation on binary operand")),
                l,
                r,
            ),
        ),
    }
}

/// The text lines that `print` statements wrote.
pub open spec fn lines(v: Seq<String>) -> Seq<Seq<char>> {
    Seq::new(v.len(), |i: int| v[i]@)
}

/// Runs one statement; a block runs its statements in a new innermost scope, which
/// is dropped after it.
pub open spec fn exec_stmt(s: Stmt, env: Scopes) -> (Result<Val, ErrV>, Scopes, Seq<Seq<char>>)
    decreases s, 0nat,
{
    match s {
        Stmt::BLOCK(b) => {
            let (r, env1, out) = exec_seq(b.statements@, 0, env.push(Map::empty()));
            (r, env1.drop_last(), out)
        },
        _ => exec_v(stmt_view(s), env),
    }
}

/// Runs `ss[i..]` in order, stopping at the first error.
pub open spec fn exec_seq(ss: Seq<Stmt>, i: int, env: Scopes) -> (
    Result<Val, ErrV>,
    Scopes,
    Seq<Seq<char>>,
)
    decreases ss, ss.len() - i,
{
    if i < 0 || i >= ss.len() {
        (Ok(Val::Nil), env, Seq::empty())
    } else {
        let (r, env1, out1) = exec_stmt(ss[i], env);
        match r {
            Err(x) => (Err(x), env1, out1),
            Ok(_) => {
                let (r2, env2, out2) = exec_seq(ss, i + 1, env1);
                (r2, env2, out1 + out2)
            },
        }
    }
}

/// Evaluates statements against the variables it holds, collecting what they print.
pub struct Interpreter {
    environment: Environment,
    output: Vec<String>,
}

impl Interpreter {
    pub closed spec fn wf(&self) -> bool {
        self.environment.wf() && self.environment@.len() >= 1
    }

    /// A well-formed interpreter always has its global scope.
    pub proof fn lemma_has_scope(&self)
        requires
            self.wf(),
        ensures
            self.scopes().len() >= 1,
    {
    }

    /// The scopes of the interpreter's variables.
    pub closed spec fn scopes(&self) -> Scopes {
        self.environment@
    }

    /// The lines printed and not yet taken.
    pub closed spec fn printed(&self) -> Seq<Seq<char>> {
        lines(self.output@)
    }

    pub fn new() -> (r: Self)
        ensures
            r.wf(),
            r.scopes() == seq![Map::<Seq<char>, Val>::empty()],
            r.printed() == Seq::<Seq<char>>::empty(),
    {
        let r = Interpreter { environment: Environment::new(), output: Vec::new() };
        proof {
            assert(lines(r.output@) =~= Seq::<Seq<char>>::empty());
        }
        r
    }

    /// Hands out the printed lines, leaving none.
    pub fn take_output(&mut self) -> (r: Vec<String>)
        ensures
            final(self).wf() == old(self).wf(),
            lines(r@) == old(self).printed(),
            final(self).printed() == Seq::<Seq<char>>::empty(),
            final(self).scopes() == old(self).scopes(),
    {
        let mut out: Vec<String> = Vec::new();
        std::mem::swap(&mut out, &mut self.output);
        proof {
            assert(lines(self.output@) =~= Seq::<Seq<char>>::empty());
        }
        out
    }

    /// Runs one statement.
    pub fn interpret(&mut self, s: &Stmt) -> (r: Result<Literal, EvaluationError>)
        requires
            old(self).wf(),
        ensures
            final(self).wf(),
            (res_view(r), final(self).scopes(), final(self).printed()) == ({
                let (x, env, out) = exec_stmt(*s, old(self).scopes());
                (x, env, old(self).printed() + out)
            }),
    {
        self.visit_stmt(s)
    }

    /// Evaluates an expression.
    pub fn evaluate(&mut self, e: &Expr) -> (r: Result<Literal, EvaluationError>)
        requires
            old(self).wf(),
        ensures
            final(self).wf(),
            (res_view(r), final(self).scopes()) == eval(expr_view(*e), old(self).scopes()),
            final(self).scopes().len() == old(self).scopes().len(),
            final(self).printed() == old(self).printed(),
        decreases *e, 1nat,
    {
        match e {
            Expr::LITERAL(l) => Ok(l.duplicate()),
            Expr::GROUPING(g) => self.evaluate(&g.expr),
            Expr::UNARY(u) => {
                match self.evaluate(&u.rhs) {
                    Ok(v) => apply_unary(&u.op, v),
                    Err(x) => Err(x),
                }
            },
            Expr::BINARY(b) => self.visit_binary(b),
            Expr::COMMA(c) => self.visit_comma(c),
            Expr::TERNARY(t) => self.visit_ternary(t),
            Expr::VARIABLE(v) => {
                let name = name_of(&v.name);
                match self.environment.get(&name) {
                    Ok(x) => Ok(x),
                    Err(err) => Err(EvaluationError::new_var(err.message)),
                }
            },
            Expr::ASSIGN(a) => {
                match self.evaluate(&a.value) {
                    Err(x) => Err(x),
                    Ok(v) => {
                        let name = name_of(&a.name);
                        let keep = v.duplicate();
                        match self.environment.assign(name, v) {
                            Ok(()) => Ok(keep),
                            Err(err) => Err(EvaluationError::new_var(err.message)),
                        }
                    },
                }
            },
        }
    }

    fn visit_binary(&mut self, b: &Binary) -> (r: Result<Literal, EvaluationError>)
        requires
            old(self).wf(),
        ensures
            final(self).wf(),
            (res_view(r), final(self).scopes()) == eval(expr_view(Expr::BINARY(*b)), old(self).scopes()),
            final(self).scopes().len() == old(self).scopes().len(),
            final(self).printed() == old(self).printed(),
        decreases Expr::BINARY(*b), 0nat,
    {
        proof {
            let whole = Expr::BINARY(*b);
            assert(decreases_to!(whole => whole->BINARY_0));
            assert(decreases_to!(*b => b.lhs));
            assert(decreases_to!(*b => b.rhs));
        }
        let l = match self.evaluate(&b.lhs) {
            Ok(lit) => lit,
            Err(e) => return Err(e),
        };
        let r = match self.evaluate(&b.rhs) {
            Ok(lit) => lit,
            Err(e) => return Err(e),
        };
        apply_binary(&b.op, l, r)
    }

    fn visit_comma(&mut self, c: &Comma) -> (r: Result<Literal, EvaluationError>)
        requires
            old(self).wf(),
        ensures
            final(self).wf(),
            (res_view(r), final(self).scopes()) == eval(expr_view(Expr::COMMA(*c)), old(self).scopes()),
            final(self).scopes().len() == old(self).scopes().len(),
            final(self).printed() == old(self).printed(),
        decreases Expr::COMMA(*c), 0nat,
    {
        proof {
            let whole = Expr::COMMA(*c);
            assert(decreases_to!(whole => whole->COMMA_0));
            assert(decreases_to!(*c => c.lhs));
            assert(decreases_to!(*c => c.rhs));
        }
        match self.evaluate(&c.lhs) {
            Ok(_) => self.evaluate(&c.rhs),
            Err(e) => Err(e),
        }
    }

    fn visit_ternary(&mut self, t: &Ternary) -> (r: Result<Literal, EvaluationError>)
        requires
            old(self).wf(),
        ensures
            final(self).wf(),
            (res_view(r), final(self).scopes()) == eval(expr_view(Expr::TERNARY(*t)), old(self).scopes()),
            final(self).scopes().len() == old(self).scopes().len(),
            final(self).printed() == old(self).printed(),
        decreases Expr::TERNARY(*t), 0nat,
    {
        proof {
            let whole = Expr::TERNARY(*t);
            assert(decreases_to!(whole => whole->TERNARY_0));
            assert(decreases_to!(*t => t.cond));
            assert(decreases_to!(*t => t.then_expr));
            assert(decreases_to!(*t => t.else_expr));
        }
        let cond = match self.evaluate(&t.cond) {
            Ok(lit) => lit,
            Err(e) => return Err(e),
        };
        match cond {
            Literal::BOOL(false) | Literal::NIL => self.evaluate(&t.else_expr),
            _ => self.evaluate(&t.then_expr),
        }
    }

    fn visit_stmt(&mut self, s: &Stmt) -> (r: Result<Literal, EvaluationError>)
        requires
            old(self).wf(),
        ensures
            final(self).wf(),
            (res_view(r), final(self).scopes(), final(self).printed()) == ({
                let (x, env, out) = exec_stmt(*s, old(self).scopes());
                (x, env, old(self).printed() + out)
            }),
            final(self).scopes().len() == old(self).scopes().len(),
        decreases *s, 1nat, 0nat,
    {
        match s {
            Stmt::EXPRESSION(e) => {
                let r = self.evaluate(&e.expr);
                proof {
                    assert(self.printed() =~= old(self).printed() + Seq::empty());
                }
                r
            },
            Stmt::PRINT(p) => {
                match self.evaluate(&p.expr) {
                    Ok(lit) => {
                        let text = lit.to_text();
                        let ghost before = self.output@;
                        self.output.push(text);
                        proof {
                            assert(lines(self.output@) =~= lines(before) + seq![val_text(lit@)]);
                        }
                        Ok(Literal::NIL)
                    },
                    Err(e) => {
                        proof {
                            assert(self.printed() =~= old(self).printed() + Seq::empty());
                        }
                        Err(e)
                    },
                }
            },
            Stmt::VAR(v) => {
                let name = name_of(&v.name);
                match &v.initializer {
                    Some(init) => {
                        match self.evaluate(init) {
                            Ok(value) => self.environment.define(name, value),
                            Err(e) => {
                                proof {
                                    assert(self.printed() =~= old(self).printed() + Seq::empty());
                                }
                                return Err(e);
                            },
                        }
                    },
                    None => self.environment.define(name, Literal::NIL),
                }
                proof {
                    assert(self.printed() =~= old(self).printed() + Seq::empty());
                }
                Ok(Literal::NIL)
            },
            Stmt::BLOCK(b) => self.visit_block(b),
        }
    }

    fn visit_block(&mut self, b: &Block) -> (r: Result<Literal, EvaluationError>)
        requires
            old(self).wf(),
        ensures
            final(self).wf(),
            (res_view(r), final(self).scopes(), final(self).printed()) == ({
                let (x, env, out) = exec_stmt(Stmt::BLOCK(*b), old(self).scopes());
                (x, env, old(self).printed() + out)
            }),
            final(self).scopes().len() == old(self).scopes().len(),
        decreases Stmt::BLOCK(*b), 0nat, b.statements@.len() + 1,
    {
        self.environment.push_scope();
        let r = self.run_seq(b, 0);
        self.environment.pop_scope();
        r
    }

    /// Runs the statements of a block from the `i`-th on, stopping at the first error.
    fn run_seq(&mut self, b: &Block, i: usize) -> (r: Result<Literal, EvaluationError>)
        requires
            old(self).wf(),
            i <= b.statements@.len(),
        ensures
            final(self).wf(),
            (res_view(r), final(self).scopes(), final(self).printed()) == ({
                let (x, env, out) = exec_seq(b.statements@, i as int, old(self).scopes());
                (x, env, old(self).printed() + out)
            }),
            final(self).scopes().len() == old(self).scopes().len(),
        decreases Stmt::BLOCK(*b), 0nat, b.statements@.len() - i,
    {
        if i >= b.statements.len() {
            proof {
                assert(self.printed() =~= old(self).printed() + Seq::empty());
            }
            return Ok(Literal::NIL);
        }
        proof {
            let whole = Stmt::BLOCK(*b);
            assert(decreases_to!(whole => whole->BLOCK_0));
            assert(decreases_to!(*b => b.statements));
            assert(decreases_to!(b.statements => b.statements@));
            assert(decreases_to!(b.statements@ => b.statements@[i as int]));
        }
        let r = self.visit_stmt(&b.statements[i]);
        match r {
            Ok(_) => {
                let r2 = self.run_seq(b, i + 1);
                proof {
                    let step = exec_stmt(b.statements@[i as int], old(self).scopes());
                    let rest = exec_seq(b.statements@, i + 1, step.1);
                    assert(self.printed() =~= old(self).printed() + (step.2 + rest.2));
                }
                r2
            },
            Err(e) => Err(e),
        }
    }
}

/// The name a token carries, or the empty text.
fn name_of(t: &Token) -> (r: String)
    ensures
        r@ == token_text(*t),
{
    match &t.value {
        Some(s) => s.clone(),
        None => String::new(),
    }
}

} // verus!
