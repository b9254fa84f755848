use vstd::prelude::*;
use crate::ast::{Block, Expr, Stmt, val_text};
use crate::parser::{ExprV, StmtV, expr_view, stmt_view, text_of};
use crate::scanner::tok_view;
use crate::text::{chars_to_string, lit_chars, push_all, string_to_chars};
use crate::token_type::kind_name;

verus! {

/// The parenthesized prefix form of an expression.
pub open spec fn expr_text(e: ExprV) -> Seq<char>
    decreases e,
{
    match e {
        ExprV::Comma(l, r) => "("@ + expr_text(*l) + " "@ + expr_text(*r) + ")"@,
        ExprV::Ternary(c, t, f) => "(TERNARY IF "@ + expr_text(*c) + " THEN "@ + expr_text(*t)
            + " ELSE "@ + expr_text(*f) + ")"@,
        ExprV::Binary(op, l, r) => "("@ + kind_name(op) + " "@ + expr_text(*l) + " "@ + expr_text(
            *r,
        ) + ")"@,
        ExprV::Grouping(g) => "(GROUP "@ + expr_text(*g) + ")"@,
        ExprV::Lit(v) => val_text(v),
        ExprV::Unary(op, r) => "("@ + kind_name(op) + " "@ + expr_text(*r) + ")"@,
        ExprV::Variable(name) => "(VARIABLE "@ + name + ")"@,
        ExprV::Assign(name, v) => "(ASSIGN "@ + name + " "@ + expr_text(*v) + ")"@,
    }
}

/// The parenthesized form of a statement other than a block.
pub open spec fn stmt_v_text(s: StmtV) -> Seq<char> {
    match s {
        StmtV::Expression(e) => "(Expression "@ + expr_text(e) + ")"@,
        StmtV::Print(e) => "(Print "@ + expr_text(e) + ")"@,
        StmtV::Var(name, init) => match init {
            Some(e) => "(VAR "@ + name + " "@ + expr_text(e) + ")"@,
            None => "(VAR "@ + name + " NIL)"@,
        },
        StmtV::Block => "(Block)"@,
    }
}

/// The parenthesized form of a statement; a block lists its statements.
pub open spec fn stmt_text(s: Stmt) -> Seq<char>
    decreases s, 0nat,
{
    match s {
        Stmt::BLOCK(b) => "(Block"@ + stmts_text(b.statements@, 0) + ")"@,
        _ => stmt_v_text(stmt_view(s)),
    }
}

/// Each statement of `ss[i..]`, preceded by a space.
pub open spec fn stmts_text(ss: Seq<Stmt>, i: int) -> Seq<char>
    decreases ss, ss.len() - i,
{
    if i < 0 || i >= ss.len() {
        Seq::empty()
    } else {
        " "@ + stmt_text(ss[i]) + stmts_text(ss, i + 1)
    }
}

/// Renders statements in a parenthesized prefix form.
pub struct AstPrinter;

impl AstPrinter {
    pub fn new() -> (r: Self) {
        AstPrinter {}
    }

    /// The text of a statement.
    pub fn printer(&mut self, stmt: &Stmt) -> (r: String)
        ensures
            r@ == stmt_text(*stmt),
    {
        let mut out: Vec<char> = Vec::new();
        write_stmt(stmt, &mut out);
        proof {
            assert(out@ =~= stmt_text(*stmt));
        }
        chars_to_string(&out)
    }
}

fn put(out: &mut Vec<char>, s: &str)
    ensures
        final(out)@ == old(out)@ + s@,
{
    push_all(out, &lit_chars(s));
}

#[verifier::rlimit(60)]
fn write_expr(e: &Expr, out: &mut Vec<char>)
    ensures
        final(out)@ == old(out)@ + expr_text(expr_view(*e)),
    decreases *e,
{
    let ghost o = out@;
    match e {
        Expr::COMMA(c) => {
            put(out, "(");
            write_expr(&c.lhs, out);
            put(out, " ");
            write_expr(&c.rhs, out);
            put(out, ")");
        },
        Expr::TERNARY(t) => {
            put(out, "(TERNARY IF ");
            write_expr(&t.cond, out);
            put(out, " THEN ");
            write_expr(&t.then_expr, out);
            put(out, " ELSE ");
            write_expr(&t.else_expr, out);
            put(out, ")");
        },
        Expr::BINARY(b) => {
            put(out, "(");
            push_all(out, &string_to_chars(&b.op.kind.name()));
            put(out, " ");
            write_expr(&b.lhs, out);
            put(out, " ");
            write_expr(&b.rhs, out);
            put(out, ")");
        },
        Expr::GROUPING(g) => {
            put(out, "(GROUP ");
            write_expr(&g.expr, out);
            put(out, ")");
        },
        Expr::LITERAL(l) => {
            push_all(out, &string_to_chars(&l.to_text()));
        },
        Expr::UNARY(u) => {
            put(out, "(");
            push_all(out, &string_to_chars(&u.op.kind.name()));
            put(out, " ");
            write_expr(&u.rhs, out);
            put(out, ")");
        },
        Expr::VARIABLE(v) => {
            put(out, "(VARIABLE ");
            write_name(&v.name.value, out);
            put(out, ")");
        },
        Expr::ASSIGN(a) => {
            put(out, "(ASSIGN ");
            write_name(&a.name.value, out);
            put(out, " ");
            write_expr(&a.value, out);
            put(out, ")");
        },
    }
    proof {
        assert(out@ =~= o + expr_text(expr_view(*e)));
    }
}

fn write_name(v: &Option<String>, out: &mut Vec<char>)
    ensures
        final(out)@ == old(out)@ + text_of(
            match *v {
                Some(s) => Some(s@),
                None => None,
            },
        ),
{
    match v {
        Some(s) => push_all(out, &string_to_chars(s)),
        None => {
            proof {
                assert(out@ =~= out@ + Seq::<char>::empty());
            }
        },
    }
}

fn write_stmt(s: &Stmt, out: &mut Vec<char>)
    ensures
        final(out)@ == old(out)@ + stmt_text(*s),
    decreases *s, 1nat,
{
    let ghost o = out@;
    match s {
        Stmt::EXPRESSION(e) => {
            put(out, "(Expression ");
            write_expr(&e.expr, out);
            put(out, ")");
        },
        Stmt::PRINT(p) => {
            put(out, "(Print ");
            write_expr(&p.expr, out);
            put(out, ")");
        },
        Stmt::VAR(v) => {
            put(out, "(VAR ");
            write_name(&v.name.value, out);
            match &v.initializer {
                Some(e) => {
                    put(out, " ");
                    write_expr(e, out);
                    put(out, ")");
                },
                None => put(out, " NIL)"),
            }
        },
        Stmt::BLOCK(b) => {
            put(out, "(Block");
            write_stmts(b, 0, out);
            put(out, ")");
        },
    }
    proof {
        assert(out@ =~= o + stmt_text(*s));
    }
}

fn write_stmts(b: &Block, i: usize, out: &mut Vec<char>)
    requires
        i <= b.statements@.len(),
    ensures
        final(out)@ == old(out)@ + stmts_text(b.statements@, i as int),
    decreases Stmt::BLOCK(*b), 0nat, b.statements@.len() - i,
{
    if i >= b.statements.len() {
        proof {
            assert(out@ =~= out@ + Seq::<char>::empty());
        }
        return;
    }
    let ghost o = out@;
    proof {
        let whole = Stmt::BLOCK(*b);
        assert(decreases_to!(whole => whole->BLOCK_0));
        assert(decreases_to!(*b => b.statements));
        assert(decreases_to!(b.statements => b.statements@));
        assert(decreases_to!(b.statements@ => b.statements@[i as int]));
    }
    put(out, " ");
    write_stmt(&b.statements[i], out);
    write_stmts(b, i + 1, out);
    proof {
        assert(out@ =~= o + stmts_text(b.statements@, i as int));
    }
}

} // verus!
