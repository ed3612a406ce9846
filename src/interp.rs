use crate::eval::{eval_expr, Evaluator, Frames};
use crate::eval_diag::{Diag, DiagData, EvalError, Failure};
use crate::obj::{render_value, Value, ValueObj};
use crate::parser::span_text;
use crate::scope::declared;
use crate::syntax::{ChoStatement, InStatement, InvocationStatement, Programme, Statement};
use vstd::prelude::*;

verus! {

/// What a statement does: the frames after it and the line it prints, or
/// the failure that stops it.
#[verifier::opaque]
pub open spec fn run_statement(st: Statement, src: Seq<char>, env: Frames) -> Result<
    (Frames, Option<Seq<char>>),
    Failure,
> {
    match st {
        Statement::Cho(c) => {
            let v = match c.rhs {
                None => Ok(Value::Undefined),
                Some(e) => eval_expr(e, src, env),
            };
            match v {
                Err(f) => Err(f),
                Ok(v) => {
                    let name = span_text(src, c.lhs.0);
                    let (ok, m) = declared(env.last(), name, v);
                    if ok {
                        Ok((env.update(env.len() - 1, m), None))
                    } else {
                        Err(Failure::AlreadyDeclaredInScope(name))
                    }
                },
            }
        },
        Statement::In(p) => match eval_expr(p.expr, src, env) {
            Ok(v) => Ok((env, Some(render_value(v)))),
            Err(f) => Err(f),
        },
        Statement::Invocation(_) => Ok((env, None)),
    }
}

/// What a run of `stmts` does from the frames `env`: the lines printed, the
/// index and failure of the statement that stopped it if one did, and the
/// frames at the end.
pub open spec fn run_statements(stmts: Seq<Statement>, src: Seq<char>, env: Frames) -> (
    Seq<Seq<char>>,
    Option<(int, Failure)>,
    Frames,
)
    decreases stmts.len(),
{
    if stmts.len() == 0 {
        (Seq::empty(), None, env)
    } else {
        let (out, err, fr) = run_statements(stmts.drop_last(), src, env);
        if err is Some {
            (out, err, fr)
        } else {
            match run_statement(stmts.last(), src, fr) {
                Err(f) => (out, Some(((stmts.len() - 1) as int, f)), fr),
                Ok((fr2, printed)) => (
                    match printed {
                        Some(line) => out.push(line),
                        None => out,
                    },
                    None,
                    fr2,
                ),
            }
        }
    }
}

/// The texts of some strings.
pub open spec fn texts(v: Seq<String>) -> Seq<Seq<char>> {
    v.map_values(|s: String| s@)
}

proof fn lemma_texts_push(v: Seq<String>, s: String)
    ensures
        texts(v.push(s)) == texts(v).push(s@),
{
    assert(texts(v.push(s)) =~= texts(v).push(s@));
}

proof fn lemma_run_step(stmts: Seq<Statement>, i: int, src: Seq<char>, env: Frames)
    requires
        0 <= i < stmts.len(),
    ensures
        ({
            let (out, err, fr) = run_statements(stmts.take(i), src, env);
            run_statements(stmts.take(i + 1), src, env) == if err is Some {
                (out, err, fr)
            } else {
                match run_statement(stmts[i], src, fr) {
                    Err(f) => (out, Some((i, f)), fr),
                    Ok((fr2, printed)) => (
                        match printed {
                            Some(line) => out.push(line),
                            None => out,
                        },
                        None,
                        fr2,
                    ),
                }
            }
        }),
{
    assert(stmts.take(i + 1).drop_last() =~= stmts.take(i));
}

pub open spec fn ran<'a>(
    r: Result<Option<String>, Diag>,
    expected: Result<(Frames, Option<Seq<char>>), Failure>,
    old: Evaluator<'a>,
    new: Evaluator<'a>,
) -> bool {
    &&& new.wf()
    &&& new.text() == old.text()
    &&& new.line() == old.line()
    &&& match r {
        Ok(p) => expected == Ok::<(Frames, Option<Seq<char>>), Failure>(
            (
                new.frames(),
                match p {
                    Some(s) => Some(s@),
                    None => None,
                },
            ),
        ),
        Err(d) => new.frames() == old.frames() && d.line == old.line() && match d.data {
            DiagData::EvalError(e) => expected == Err::<(Frames, Option<Seq<char>>), Failure>(e@),
            DiagData::ParseError(_) => false,
        },
    }
}

/// The lines printed and the diagnostic that stopped a run, if any.
pub struct Outcome {
    pub printed: Vec<String>,
    pub error: Option<Diag>,
}

impl ChoStatement {
    /// Evaluates the initial value (undefined where there is none) and
    /// declares the name in the innermost frame.
    pub fn interpret(&self, ev: &mut Evaluator) -> (r: Result<(), Diag>)
        requires
            old(ev).wf(),
        ensures
            ran(
                match r {
                    Ok(_) => Ok(None),
                    Err(d) => Err(d),
                },
                run_statement(Statement::Cho(*self), old(ev).text(), old(ev).frames()),
                *old(ev),
                *final(ev),
            ),
    {
        proof {
            reveal(run_statement);
        }
        proof {
            ev.lemma_wf();
        }
        let value = match &self.rhs {
            Some(expr) => match expr.evaluate(ev) {
                Ok(v) => v,
                Err(d) => return Err(d),
            },
            None => ValueObj::Undefined,
        };
        let name = ev.snippet(&self.lhs.0);
        let ghost v = value@;
        let ghost n = name@;
        if ev.declare(name, value) {
            Ok(())
        } else {
            proof {
                let f = old(ev).frames();
                assert(f.update(f.len() - 1, f.last()) =~= f);
            }
            let name = ev.snippet(&self.lhs.0);
            Err(ev.failure(EvalError::AlreadyDeclaredInScope { name }))
        }
    }
}

impl InStatement {
    /// The display form of the value of the expression, to be printed.
    pub fn interpret(&self, ev: &mut Evaluator) -> (r: Result<String, Diag>)
        requires
            old(ev).wf(),
        ensures
            ran(
                match r {
                    Ok(s) => Ok(Some(s)),
                    Err(d) => Err(d),
                },
                run_statement(Statement::In(*self), old(ev).text(), old(ev).frames()),
                *old(ev),
                *final(ev),
            ),
    {
        proof {
            reveal(run_statement);
        }
        match self.expr.evaluate(ev) {
            Ok(v) => Ok(v.render()),
            Err(d) => Err(d),
        }
    }
}

impl InvocationStatement {
    /// A call has no meaning yet: it is read and passed over.
    pub fn interpret(&self, ev: &mut Evaluator) -> (r: Result<(), Diag>)
        requires
            old(ev).wf(),
        ensures
            r is Ok,
            *final(ev) == *old(ev),
    {
        Ok(())
    }
}

impl Statement {
    /// Runs the statement; gives the line it prints, if any.
    pub fn interpret(&self, ev: &mut Evaluator) -> (r: Result<Option<String>, Diag>)
        requires
            old(ev).wf(),
        ensures
            ran(r, run_statement(*self, old(ev).text(), old(ev).frames()), *old(ev), *final(ev)),
    {
        proof {
            reveal(run_statement);
        }
        match self {
            Statement::Cho(st) => match st.interpret(ev) {
                Ok(()) => Ok(None),
                Err(d) => Err(d),
            },
            Statement::In(st) => match st.interpret(ev) {
                Ok(s) => Ok(Some(s)),
                Err(d) => Err(d),
            },
            Statement::Invocation(st) => {
                let _ = st.interpret(ev);
                Ok(None)
            },
        }
    }
}

impl<'a> Evaluator<'a> {
    /// Runs the statements of `prog` in order and stops at the first that
    /// fails; what ran before stays done.
    pub fn interpret(&mut self, prog: &Programme) -> (r: Outcome)
        requires
            old(self).wf(),
            prog.statements.len() == prog.lines.len(),
        ensures
            final(self).wf(),
            final(self).text() == old(self).text(),
            ({
                let (out, err, fr) = run_statements(
                    prog.statements@,
                    old(self).text(),
                    old(self).frames(),
                );
                &&& texts(r.printed@) == out
                &&& final(self).frames() == fr
                &&& match err {
                    None => r.error is None,
                    Some((i, f)) => r.error matches Some(d) && d.line == prog.lines@[i] && match d.data {
                        DiagData::EvalError(e) => e@ == f,
                        DiagData::ParseError(_) => false,
                    },
                }
            }),
    {
        let ghost src = self.text();
        let ghost env0 = self.frames();
        let mut printed: Vec<String> = Vec::new();
        let mut i: usize = 0;
        proof {
            assert(prog.statements@.take(0) =~= Seq::<Statement>::empty());
            assert(texts(printed@) =~= Seq::<Seq<char>>::empty());
        }
        while i < prog.statements.len()
            invariant
                self.wf(),
                self.text() == src,
                src == old(self).text(),
                env0 == old(self).frames(),
                i <= prog.statements.len(),
                prog.statements.len() == prog.lines.len(),
                run_statements(prog.statements@.take(i as int), src, env0).1 is None,
                texts(printed@) == run_statements(prog.statements@.take(i as int), src, env0).0,
                self.frames() == run_statements(prog.statements@.take(i as int), src, env0).2,
            decreases prog.statements.len() - i,
        {
            proof {
                lemma_run_step(prog.statements@, i as int, src, env0);
            }
            self.set_line(prog.lines[i]);
            match prog.statements[i].interpret(self) {
                Ok(Some(s)) => {
                    proof {
                        lemma_texts_push(printed@, s);
                    }
                    printed.push(s);
                },
                Ok(None) => {},
                Err(d) => {
                    proof {
                        lemma_run_stops(prog.statements@, i as int + 1, src, env0);
                        assert(prog.statements@.take(prog.statements@.len() as int) =~= prog.statements@);
                    }
                    return Outcome { printed, error: Some(d) };
                },
            }
            i = i + 1;
        }
        proof {
            assert(prog.statements@.take(i as int) =~= prog.statements@);
        }
        Outcome { printed, error: None }
    }
}

/// Once a run has stopped, later statements change nothing.
proof fn lemma_run_stops(stmts: Seq<Statement>, k: int, src: Seq<char>, env: Frames)
    requires
        0 <= k <= stmts.len(),
        run_statements(stmts.take(k), src, env).1 is Some,
    ensures
        run_statements(stmts.take(stmts.len() as int), src, env) == run_statements(stmts.take(k), src, env),
    decreases stmts.len() - k,
{
    if k < stmts.len() {
        assert(stmts.take(k + 1).drop_last() =~= stmts.take(k));
        lemma_run_stops(stmts, k + 1, src, env);
    }
}

} // verus!
