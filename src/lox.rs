use vstd::prelude::*;
use crate::ast::{Val, val_text};
use crate::ast_printer::{AstPrinter, stmt_v_text};
use crate::error::{ErrV, ScanError, evaluation_error_text, perr_text, scan_error_text};
use crate::interpreter::{Interpreter, Scopes, exec_v, lines, res_view};
use crate::parser::{PErr, Parser, StmtV, parse_from, sres_v, stmt_view, tokens_ok};
use crate::ast::Stmt;
use crate::error::ParseError;
use crate::scanner::{Scanner, TokV, scan_spec, toks_view};

verus! {

pub open spec fn scan_errors_text(es: Seq<(int, Seq<char>)>) -> Seq<Seq<char>> {
    Seq::new(
        es.len(),
        |i: int| "[line "@ + crate::number::nat_digits(es[i].0 as nat) + "] Error: "@ + es[i].1,
    )
}

pub open spec fn outcome_text(r: Result<Val, ErrV>) -> Seq<char> {
    match r {
        Ok(v) => val_text(v),
        Err(x) => evaluation_error_text(x),
    }
}

/// What one parsed statement writes, the scopes after it, and whether it was an error.
pub open spec fn run_one(r: Result<StmtV, PErr>, env: Scopes) -> (Seq<Seq<char>>, Scopes, bool) {
    match r {
        Err(pe) => (seq![perr_text(pe.0, pe.1.kind, pe.1.line as nat)], env, true),
        Ok(s) => {
            let (x, env1, printed) = exec_v(s, env);
            (seq![stmt_v_text(s)] + printed + seq![outcome_text(x)], env1, x is Err)
        },
    }
}

/// The lines that running parsed statements `rs[i..]` writes, the scopes after them,
/// and whether any of them was an error. A statement with a syntax error writes its
/// diagnostic; a parsed one writes its tree, what it prints, and its value or its
/// evaluation error.
pub open spec fn run_stmts(rs: Seq<Result<StmtV, PErr>>, i: int, env: Scopes) -> (
    Seq<Seq<char>>,
    Scopes,
    bool,
)
    decreases rs.len() - i,
{
    if i < 0 || i >= rs.len() {
        (Seq::empty(), env, false)
    } else {
        let (head, env1, err) = run_one(rs[i], env);
        let (o, e, f) = run_stmts(rs, i + 1, env1);
        (head + o, e, err || f)
    }
}

/// What running a source text writes, the scopes after it, and whether it met an
/// error. After a lexical error nothing is run.
pub open spec fn run_spec(src: Seq<char>, env: Scopes) -> (Seq<Seq<char>>, Scopes, bool) {
    let (toks, errs) = scan_spec(src);
    if errs.len() > 0 {
        (scan_errors_text(errs), env, true)
    } else if !tokens_ok(toks) {
        (Seq::empty(), env, false)
    } else {
        run_stmts(parse_from(toks, 0), 0, env)
    }
}

/// A session: the interpreter's variables persist from one run to the next.
pub struct Lox {
    has_error: bool,
    interpreter: Interpreter,
}

impl Lox {
    pub closed spec fn wf(&self) -> bool {
        self.interpreter.wf() && self.interpreter.printed().len() == 0
    }

    /// A well-formed session always has its global scope.
    pub proof fn lemma_has_scope(&self)
        requires
            self.wf(),
        ensures
            self.scopes().len() >= 1,
    {
        self.interpreter.lemma_has_scope();
    }

    /// The variables of the session.
    pub closed spec fn scopes(&self) -> Scopes {
        self.interpreter.scopes()
    }

    pub closed spec fn error_seen(&self) -> bool {
        self.has_error
    }

    pub fn new() -> (r: Self)
        ensures
            r.wf(),
            r.scopes() == seq![Map::<Seq<char>, Val>::empty()],
            !r.error_seen(),
    {
        Lox { has_error: false, interpreter: Interpreter::new() }
    }

    /// Whether an error was met since the last reset.
    pub fn had_error(&self) -> (r: bool)
        ensures
            r == self.error_seen(),
    {
        self.has_error
    }

    /// Forgets the errors met so far; the variables stay.
    pub fn reset_errors(&mut self)
        requires
            old(self).wf(),
        ensures
            final(self).wf(),
            final(self).scopes() == old(self).scopes(),
            !final(self).error_seen(),
    {
        self.has_error = false;
    }

    fn run_statement(
        &mut self,
        st: &Result<Stmt, ParseError>,
        printer: &mut AstPrinter,
        out: &mut Vec<String>,
    )
        requires
            old(self).wf(),
            !(sres_v(*st) matches Ok(StmtV::Block)),
        ensures
            final(self).wf(),
            ({
                let (head, env1, err) = run_one(sres_v(*st), old(self).scopes());
                &&& lines(final(out)@) == lines(old(out)@) + head
                &&& final(self).scopes() == env1
                &&& final(self).error_seen() == (old(self).error_seen() || err)
            }),
    {
        let ghost before = out@;
        match st {
            Err(pe) => {
                let t = pe.to_text();
                out.push(t);
                self.has_error = true;
                proof {
                    lemma_lines_push(before, t);
                    assert(lines(out@) =~= lines(before) + seq![t@]);
                }
            },
            Ok(stmt) => {
                let head = printer.printer(stmt);
                out.push(head);
                let result = self.interpreter.interpret(stmt);
                let printed = self.interpreter.take_output();
                push_lines(out, printed);
                let ghost o2 = out@;
                let tail = match result {
                    Ok(lit) => lit.to_text(),
                    Err(e) => {
                        self.has_error = true;
                        e.to_text()
                    },
                };
                out.push(tail);
                proof {
                    lemma_lines_push(before, head);
                    lemma_lines_push(o2, tail);
                    let (r0, env1, pr) = exec_v(stmt_view(*stmt), old(self).scopes());
                    assert(lines(printed@) == pr);
                    assert(lines(out@) =~= lines(before) + (seq![head@] + pr + seq![tail@]));
                }
            },
        }
    }

    /// Scans, parses and runs a source text; returns the lines to show, in order.
    pub fn run(&mut self, source: Vec<char>) -> (r: Vec<String>)
        requires
            old(self).wf(),
            source@.len() < usize::MAX,
        ensures
            final(self).wf(),
            ({
                let (out, env, err) = run_spec(source@, old(self).scopes());
                &&& lines(r@) == out
                &&& final(self).scopes() == env
                &&& final(self).error_seen() == (old(self).error_seen() || err)
            }),
    {
        let ghost src = source@;
        let mut scanner = Scanner::new(source);
        let tokens = scanner.scan_tokens();
        let errors = scanner.errors();
        let mut out: Vec<String> = Vec::new();
        if errors.len() > 0 {
            let mut i: usize = 0;
            while i < errors.len()
                invariant
                    i <= errors@.len(),
                    crate::scanner::errs_view(errors@) == scan_spec(src).1,
                    lines(out@) == scan_errors_text(scan_spec(src).1).subrange(0, i as int),
                    scan_errors_text(scan_spec(src).1).len() == errors@.len(),
                decreases errors@.len() - i,
            {
                let t = errors[i].to_text();
                let ghost o = out@;
                out.push(t);
                i += 1;
                proof {
                    lemma_lines_push(o, t);
                }
                proof {
                    assert(lines(out@) =~= scan_errors_text(scan_spec(src).1).subrange(0, i as int));
                }
            }
            self.has_error = true;
            proof {
                assert(lines(out@) =~= scan_errors_text(scan_spec(src).1));
            }
            return out;
        }
        if tokens.len() == 0 || tokens[tokens.len() - 1].kind != crate::token_type::TokenType::EOF {
            proof {
                assert(lines(out@) =~= Seq::<Seq<char>>::empty());
            }
            return out;
        }
        let mut parser = Parser::new(tokens);
        let ghost parser_ts = parser.ts();
        let statements = parser.parse();
        let ghost rs = Seq::new(statements@.len(), |i: int| sres_v(statements@[i]));
        let mut printer = AstPrinter::new();
        let ghost env0 = self.scopes();
        let ghost err0 = self.has_error;
        let mut i: usize = 0;
        let ghost mut prefix: Seq<Seq<char>> = Seq::empty();
        let ghost mut seen = false;
        proof {
            assert(lines(out@) =~= prefix);
        }
        while i < statements.len()
            invariant
                self.wf(),
                i <= statements@.len(),
                rs == Seq::new(statements@.len(), |i: int| sres_v(statements@[i])),
                rs == parse_from(parser_ts, 0),
                lines(out@) == prefix,
                run_stmts(rs, 0, env0) == ({
                    let (o, e, f) = run_stmts(rs, i as int, self.scopes());
                    (prefix + o, e, seen || f)
                }),
                self.has_error == (err0 || seen),
            decreases statements@.len() - i,
        {
            let ghost before = lines(out@);
            let ghost env_i = self.scopes();
            proof {
                lemma_no_block(parser_ts, 0);
                assert(rs[i as int] == sres_v(statements@[i as int]));
            }
            self.run_statement(&statements[i], &mut printer, &mut out);
            proof {
                let (head, env1, err) = run_one(rs[i as int], env_i);
                let (o, e, f) = run_stmts(rs, i + 1, env1);
                assert(run_stmts(rs, i as int, env_i) == (head + o, e, err || f));
                assert((prefix + head) + o =~= prefix + (head + o));
                prefix = prefix + head;
                seen = seen || err;
            }
            i += 1;
        }
        out
    }
}

proof fn lemma_lines_push(v: Seq<String>, x: String)
    ensures
        lines(v.push(x)) == lines(v).push(x@),
{
    assert(lines(v.push(x)) =~= lines(v).push(x@));
}

proof fn lemma_no_block(ts: Seq<TokV>, p: int)
    ensures
        forall|i: int| 0 <= i < parse_from(ts, p).len() ==> !(#[trigger] parse_from(ts, p)[i] matches Ok(StmtV::Block)),
    decreases ts.len() - p,
{
    if 0 <= p < ts.len() && !crate::parser::at_end(ts, p) {
        let (r, q) = crate::parser::declaration_spec(ts, p);
        if !(q <= p || q > ts.len()) {
            lemma_no_block(ts, q);
            assert(parse_from(ts, p) == seq![r] + parse_from(ts, q));
        }
    }
}

fn push_lines(out: &mut Vec<String>, more: Vec<String>)
    ensures
        lines(final(out)@) == lines(old(out)@) + lines(more@),
{
    let mut i: usize = 0;
    while i < more.len()
        invariant
            i <= more@.len(),
            lines(out@) == lines(old(out)@) + lines(more@.subrange(0, i as int)),
        decreases more@.len() - i,
    {
        let ghost o = out@;
        out.push(more[i].clone());
        i += 1;
        proof {
            lemma_lines_push(o, more@[i - 1]);
            assert(more@.subrange(0, i as int) =~= more@.subrange(0, i - 1).push(more@[i - 1]));
            lemma_lines_push(more@.subrange(0, i - 1), more@[i - 1]);
            assert(lines(out@) =~= lines(old(out)@) + lines(more@.subrange(0, i as int)));
        }
    }
    proof {
        assert(more@.subrange(0, i as int) =~= more@);
    }
}

} // verus!
