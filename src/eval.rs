use crate::chars::byte_len;
use crate::eval_diag::{Diag, DiagData, EvalError, Failure};
use crate::expr::{
    AddAffixedExpr, Expr, Field, MulAffixedExpr, PathExpr, PrefixedExpr, PrefixedExprKind,
    TerminalExpr, TupleExpr,
};
use crate::number::{fraction_literal, integer_literal, LiteralError, NumericalObj};
use crate::obj::{
    lemma_values_push, operate, value_wf, values_model, values_wf,
    Operation, OperationKind, StringObj, TupleObj, Value, ValueObj,
};
use crate::grammar::{diag_is, programme_parse, programme_reads, Parse};
use crate::lexeme::Kind;
use crate::parser::{kind_at, span_text, Parser};
use crate::scope::Scope;
use crate::syntax::Programme;
use crate::terminal::{place, Decimal, DoubleQuotedString, Float, Literal, Place, Span};
use vstd::prelude::*;
use vstd::string::StringExecFns;

verus! {

broadcast use {vstd::seq::axiom_seq_subrange_decreases, vstd::std_specs::vec::axiom_vec_index_decreases};

/// The frames of names that evaluation sees, innermost last.
pub type Frames = Seq<Map<Seq<char>, Value>>;

/// The value of `name` in the innermost frame that holds it.
pub open spec fn lookup(frames: Frames, name: Seq<char>) -> Option<Value>
    decreases frames.len(),
{
    if frames.len() == 0 {
        None
    } else if frames.last().contains_key(name) {
        Some(frames.last()[name])
    } else {
        lookup(frames.drop_last(), name)
    }
}

/// The text of a string literal without its quotes; an unterminated one
/// loses only its opening quote.
pub open spec fn unquote(t: Seq<char>) -> Seq<char> {
    if t.len() == 0 {
        t
    } else if t.len() >= 2 && t.last() == t[0] {
        t.subrange(1, t.len() - 1)
    } else {
        t.subrange(1, t.len() as int)
    }
}

pub open spec fn literal_value(r: Result<(int, int), LiteralError>, text: Seq<char>) -> Result<
    Value,
    Failure,
> {
    match r {
        Ok(v) => Ok(Value::Number(v.0, v.1)),
        Err(LiteralError::Malformed) => Err(Failure::MalformedLiteral(text)),
        Err(LiteralError::OutOfRange) => Err(Failure::OutOfRange(text)),
    }
}

pub open spec fn eval_literal(l: Literal, src: Seq<char>) -> Result<Value, Failure> {
    match l {
        Literal::Decimal(d) => literal_value(integer_literal(span_text(src, d.0)), span_text(src, d.0)),
        Literal::Float(f) => literal_value(fraction_literal(span_text(src, f.0)), span_text(src, f.0)),
        Literal::DoubleQuotedString(q) => Ok(Value::Text(unquote(span_text(src, q.0)))),
    }
}

pub open spec fn then_operate(k: OperationKind, a: Result<Value, Failure>, b: Result<Value, Failure>) -> Result<
    Value,
    Failure,
> {
    match a {
        Err(f) => Err(f),
        Ok(x) => match b {
            Err(f) => Err(f),
            Ok(y) => operate(k, x, y),
        },
    }
}

/// The value of an expression over the source text and the frames of names;
/// operands are evaluated left to right and the first failure stops it.
pub open spec fn eval_expr(e: Expr, src: Seq<char>, env: Frames) -> Result<Value, Failure>
    decreases e,
{
    eval_add(e.0, src, env)
}

pub open spec fn eval_add(e: AddAffixedExpr, src: Seq<char>, env: Frames) -> Result<Value, Failure>
    decreases e,
{
    match e.lhs {
        None => eval_mul(e.rhs.1, src, env),
        Some(l) => then_operate(
            if e.rhs.0 {
                OperationKind::Add
            } else {
                OperationKind::Subtract
            },
            eval_add(*l, src, env),
            eval_mul(e.rhs.1, src, env),
        ),
    }
}

pub open spec fn eval_mul(e: MulAffixedExpr, src: Seq<char>, env: Frames) -> Result<Value, Failure>
    decreases e,
{
    match e.lhs {
        None => eval_prefix(e.rhs.1, src, env),
        Some(l) => then_operate(
            if e.rhs.0 {
                OperationKind::Multiply
            } else {
                OperationKind::Divide
            },
            eval_mul(*l, src, env),
            eval_prefix(e.rhs.1, src, env),
        ),
    }
}

pub open spec fn eval_prefix(p: PrefixedExpr, src: Seq<char>, env: Frames) -> Result<Value, Failure>
    decreases p,
{
    match p.prefix {
        Some(PrefixedExprKind::Minus) => then_operate(
            OperationKind::NegativePrefix,
            Ok(Value::Undefined),
            eval_path(p.expr, src, env),
        ),
        None => eval_path(p.expr, src, env),
    }
}

pub open spec fn eval_path(p: PathExpr, src: Seq<char>, env: Frames) -> Result<Value, Failure>
    decreases p,
{
    match p {
        PathExpr::Root(t) => eval_terminal(t, src, env),
        PathExpr::WithFields { .. } => Err(Failure::Unsupported("field access"@)),
    }
}

pub open spec fn eval_terminal(t: TerminalExpr, src: Seq<char>, env: Frames) -> Result<Value, Failure>
    decreases t,
{
    match t {
        TerminalExpr::Field(f) => eval_field(f, src, env),
        TerminalExpr::Literal(l) => eval_literal(l, src),
        TerminalExpr::Tuple(t) => eval_tuple(t, src, env),
    }
}

pub open spec fn eval_field(f: Field, src: Seq<char>, env: Frames) -> Result<Value, Failure> {
    if f.args is Some {
        Err(Failure::Unsupported("method invocation"@))
    } else {
        let name = span_text(src, f.name.0);
        match lookup(env, name) {
            Some(v) => Ok(v),
            None => Err(Failure::NotFoundInScope(name)),
        }
    }
}

/// A tuple of one element is that element in parentheses.
pub open spec fn eval_tuple(t: TupleExpr, src: Seq<char>, env: Frames) -> Result<Value, Failure>
    decreases t,
{
    if t.0.len() == 1 {
        eval_expr(t.0@[0], src, env)
    } else {
        match eval_list(t.0@, src, env) {
            Ok(vs) => Ok(Value::Tuple(vs)),
            Err(f) => Err(f),
        }
    }
}

pub open spec fn eval_list(s: Seq<Expr>, src: Seq<char>, env: Frames) -> Result<Seq<Value>, Failure>
    decreases s,
{
    if s.len() == 0 {
        Ok(Seq::empty())
    } else {
        match eval_list(s.drop_last(), src, env) {
            Err(f) => Err(f),
            Ok(vs) => match eval_expr(s.last(), src, env) {
                Ok(v) => Ok(vs.push(v)),
                Err(f) => Err(f),
            },
        }
    }
}

/// Sizes of expressions, which evaluation makes smaller at every step.
pub open spec fn size_expr(e: Expr) -> nat
    decreases e,
{
    1 + size_add(e.0)
}

pub open spec fn size_add(e: AddAffixedExpr) -> nat
    decreases e,
{
    1 + match e.lhs {
        Some(l) => size_add(*l),
        None => 0,
    } + size_mul(e.rhs.1)
}

pub open spec fn size_mul(e: MulAffixedExpr) -> nat
    decreases e,
{
    1 + match e.lhs {
        Some(l) => size_mul(*l),
        None => 0,
    } + size_prefix(e.rhs.1)
}

pub open spec fn size_prefix(p: PrefixedExpr) -> nat
    decreases p,
{
    1 + size_path(p.expr)
}

pub open spec fn size_path(p: PathExpr) -> nat
    decreases p,
{
    match p {
        PathExpr::Root(t) => 1 + size_terminal(t),
        PathExpr::WithFields { lhs, rhs } => 1 + size_path(*lhs) + size_field(rhs),
    }
}

pub open spec fn size_terminal(t: TerminalExpr) -> nat
    decreases t,
{
    match t {
        TerminalExpr::Field(f) => 1 + size_field(f),
        TerminalExpr::Literal(_) => 1,
        TerminalExpr::Tuple(t) => 1 + size_tuple(t),
    }
}

pub open spec fn size_field(f: Field) -> nat
    decreases f,
{
    1 + match f.args {
        Some(t) => size_tuple(t),
        None => 0,
    }
}

pub open spec fn size_tuple(t: TupleExpr) -> nat
    decreases t,
{
    1 + size_list(t.0@)
}

pub open spec fn size_list(s: Seq<Expr>) -> nat
    decreases s,
{
    if s.len() == 0 {
        0
    } else {
        size_list(s.drop_last()) + size_expr(s.last())
    }
}

proof fn lemma_size_list_index(s: Seq<Expr>, i: int)
    requires
        0 <= i < s.len(),
    ensures
        size_expr(s[i]) <= size_list(s),
    decreases s.len(),
{
    if i < s.len() - 1 {
        lemma_size_list_index(s.drop_last(), i);
    }
}

proof fn lemma_eval_list_step(s: Seq<Expr>, i: int, src: Seq<char>, env: Frames)
    requires
        0 <= i < s.len(),
    ensures
        eval_list(s.take(i + 1), src, env) == match eval_list(s.take(i), src, env) {
            Err(f) => Err(f),
            Ok(vs) => match eval_expr(s[i], src, env) {
                Ok(v) => Ok(vs.push(v)),
                Err(f) => Err(f),
            },
        },
{
    assert(s.take(i + 1).drop_last() =~= s.take(i));
}

/// Once a prefix of the list fails, the whole list fails the same way.
proof fn lemma_eval_list_err(s: Seq<Expr>, k: int, src: Seq<char>, env: Frames)
    requires
        0 <= k <= s.len(),
        eval_list(s.take(k), src, env) is Err,
    ensures
        eval_list(s.take(s.len() as int), src, env) == eval_list(s.take(k), src, env),
    decreases s.len() - k,
{
    if k < s.len() {
        lemma_eval_list_step(s, k, src, env);
        lemma_eval_list_err(s, k + 1, src, env);
    }
}

/// An evaluation that gives `r` at line `line` agrees with `expected`: the
/// same value, or a diagnostic of that line with the same failure.
pub open spec fn evaluates_to(r: Result<ValueObj, Diag>, expected: Result<Value, Failure>, line: u32) -> bool {
    match r {
        Ok(v) => expected == Ok::<Value, Failure>(v@) && value_wf(v),
        Err(d) => d.line == line && match d.data {
            DiagData::EvalError(e) => expected == Err::<Value, Failure>(e@),
            DiagData::ParseError(_) => false,
        },
    }
}

/// Runs statements over a source text: the parser that read it, the frames
/// of names, and the line of the statement that runs.
pub struct Evaluator<'a> {
    parser: Parser<'a>,
    scope_stack: Vec<Scope>,
    line: u32,
}

impl<'a> Evaluator<'a> {
    /// The source text.
    pub closed spec fn text(&self) -> Seq<char> {
        self.parser.text()
    }

    /// The frames of names, innermost last.
    pub closed spec fn frames(&self) -> Frames {
        self.scope_stack@.map_values(|s: Scope| s.view())
    }

    /// The line of the statement that runs.
    pub closed spec fn line(&self) -> u32 {
        self.line
    }

    pub closed spec fn wf(&self) -> bool {
        &&& self.parser.wf()
        &&& self.scope_stack.len() >= 1
        &&& forall|i: int| 0 <= i < self.scope_stack.len() ==> (#[trigger] self.scope_stack@[i]).wf()
    }

    pub proof fn lemma_wf(&self)
        requires
            self.wf(),
        ensures
            self.frames().len() >= 1,
    {
    }

    /// An evaluator over `input`, with one empty global frame.
    pub fn new(input: &'a str) -> (r: Self)
        requires
            byte_len(input@) < u32::MAX,
        ensures
            r.wf(),
            r.text() == input@,
            r.frames() == seq![Map::<Seq<char>, Value>::empty()],
            r.parse_failures() == 0,
            r.line() == 1,
            r.parse_start() == (0int, if kind_at(input@, 0) == Kind::Eol {
                2int
            } else {
                1int
            }),
            r.parse_nesting() == 0,
    {
        let mut scope_stack: Vec<Scope> = Vec::new();
        scope_stack.push(Scope::global());
        let r = Evaluator { parser: Parser::new(input), scope_stack, line: 1 };
        assert(r.frames() =~= seq![Map::<Seq<char>, Value>::empty()]);
        r
    }

    /// The innermost frame.
    pub fn current_scope(&self) -> (r: &Scope)
        requires
            self.wf(),
        ensures
            r.wf(),
            r.view() == self.frames().last(),
    {
        let n = self.scope_stack.len();
        &self.scope_stack[n - 1]
    }

    /// The line of the statement that runs.
    pub fn cur_line(&self) -> (r: u32)
        ensures
            r == self.line(),
    {
        self.line
    }

    /// The text of a byte span of the source.
    pub fn snippet(&self, span: &Span) -> (r: String)
        requires
            self.wf(),
        ensures
            r@ == span_text(self.text(), *span),
    {
        String::from_str(self.parser.get_snippet(span.0, span.1))
    }

    /// Parses the source as a programme; gives nothing where that fails,
    /// and the parse diagnostics tell why.
    pub fn parse(&mut self) -> (r: Option<Programme>)
        requires
            old(self).wf(),
        ensures
            final(self).wf(),
            final(self).text() == old(self).text(),
            final(self).frames() == old(self).frames(),
            final(self).line() == old(self).line(),
            r matches Some(p) ==> p.statements.len() == p.lines.len(),
            r is Some ==> final(self).parse_failures() == old(self).parse_failures(),
            r is None ==> final(self).parse_failures() == old(self).parse_failures() + 1,
            match programme_parse(old(self).text(), old(self).parse_start(), old(self).parse_nesting()) {
                Parse::Read(e) => r matches Some(p) && programme_reads(
                    old(self).text(),
                    old(self).parse_start(),
                    p.statements@,
                    p.lines@,
                ) == Some(e),
                Parse::Failed(at, f) => r is None && diag_is(
                    old(self).text(),
                    at,
                    f,
                    final(self).last_parse_diag(),
                ),
                Parse::Declined => false,
            },
    {
        let r = self.parser.visit_programme();
        proof {
            assert(self.frames() =~= old(self).frames());
        }
        r
    }

    /// Where the next parse starts: the index of the parser's current
    /// lexeme, and its line.
    pub closed spec fn parse_start(&self) -> Place {
        place(self.parser)
    }

    /// How many brackets the parser has open.
    pub closed spec fn parse_nesting(&self) -> nat {
        self.parser.nesting()
    }

    /// The diagnostic of the last failed parse.
    pub closed spec fn last_parse_diag(&self) -> crate::diag::Diag {
        self.parser.last_diag()
    }

    /// How many parses have failed.
    pub closed spec fn parse_failures(&self) -> nat {
        self.parser.diag_count()
    }

    /// The diagnostics of the parse.
    pub fn parse_diagnostics(&self) -> (r: &Vec<crate::diag::Diag>)
        ensures
            r.len() == self.parse_failures(),
    {
        self.parser.diagnostics()
    }

    /// The value bound to `name` in the innermost frame that holds it.
    pub fn lookup(&self, name: &String) -> (r: Option<ValueObj>)
        requires
            self.wf(),
        ensures
            match r {
                Some(v) => lookup(self.frames(), name@) == Some(v@) && value_wf(v),
                None => lookup(self.frames(), name@) is None,
            },
    {
        let mut i = self.scope_stack.len();
        proof {
            assert(self.frames().take(i as int) =~= self.frames());
        }
        while i > 0
            invariant
                self.wf(),
                i <= self.scope_stack.len(),
                lookup(self.frames().take(i as int), name@) == lookup(self.frames(), name@),
            decreases i,
        {
            let ghost f = self.frames().take(i as int);
            assert(f.drop_last() =~= self.frames().take(i - 1));
            match self.scope_stack[i - 1].get(name) {
                Some(v) => return Some(v.duplicate()),
                None => {},
            }
            i = i - 1;
        }
        None
    }

    /// Makes the statement on line `line` the one that runs.
    pub fn set_line(&mut self, line: u32)
        requires
            old(self).wf(),
        ensures
            final(self).wf(),
            final(self).text() == old(self).text(),
            final(self).frames() == old(self).frames(),
            final(self).line() == line,
    {
        self.line = line;
    }

    /// Declares `name` in the innermost frame, if that frame does not hold
    /// it yet.
    pub fn declare(&mut self, name: String, value: ValueObj) -> (r: bool)
        requires
            old(self).wf(),
            value_wf(value),
        ensures
            final(self).wf(),
            final(self).text() == old(self).text(),
            final(self).line() == old(self).line(),
            ({
                let (ok, m) = crate::scope::declared(old(self).frames().last(), name@, value@);
                &&& r == ok
                &&& final(self).frames() == old(self).frames().update(
                    old(self).frames().len() - 1,
                    m,
                )
            }),
    {
        let ghost old_frames = self.frames();
        let mut scope = self.scope_stack.pop().unwrap();
        proof {
            assert(old(self).scope_stack@[old(self).scope_stack.len() - 1] == scope);
        }
        let ok = scope.declare(name, value);
        self.scope_stack.push(scope);
        proof {
            assert forall|i: int| 0 <= i < self.scope_stack.len() implies (
            #[trigger] self.scope_stack@[i]).wf() by {
                if i < self.scope_stack.len() - 1 {
                    assert(self.scope_stack@[i] == old(self).scope_stack@[i]);
                }
            }
            assert(self.frames() =~= old_frames.update(old_frames.len() - 1, scope.view()));
        }
        ok
    }

    /// The diagnostic of `e` on the line of the statement that runs.
    pub(crate) fn failure(&self, e: EvalError) -> (d: Diag)
        ensures
            d.line == self.line(),
            d.data == DiagData::EvalError(e),
    {
        Diag { line: self.line, data: DiagData::EvalError(e) }
    }
}

impl Expr {
    pub fn evaluate(&self, ev: &Evaluator) -> (r: Result<ValueObj, Diag>)
        requires
            ev.wf(),
        ensures
            evaluates_to(r, eval_expr(*self, ev.text(), ev.frames()), ev.line()),
        decreases size_expr(*self),
    {
        self.0.evaluate(ev)
    }
}

fn apply(ev: &Evaluator, kind: OperationKind, a: ValueObj, b: ValueObj) -> (r: Result<ValueObj, Diag>)
    requires
        value_wf(a),
        value_wf(b),
    ensures
        evaluates_to(r, operate(kind, a@, b@), ev.line()),
{
    let op = Operation { kind, operands: (a, b) };
    match op.evaluate() {
        Ok(v) => Ok(v),
        Err(e) => Err(ev.failure(e)),
    }
}

impl AddAffixedExpr {
    pub fn evaluate(&self, ev: &Evaluator) -> (r: Result<ValueObj, Diag>)
        requires
            ev.wf(),
        ensures
            evaluates_to(r, eval_add(*self, ev.text(), ev.frames()), ev.line()),
        decreases size_add(*self),
    {
        match &self.lhs {
            None => self.rhs.1.evaluate(ev),
            Some(l) => {
                let a = l.evaluate(ev)?;
                let b = self.rhs.1.evaluate(ev)?;
                let kind = if self.rhs.0 {
                    OperationKind::Add
                } else {
                    OperationKind::Subtract
                };
                apply(ev, kind, a, b)
            },
        }
    }
}

impl MulAffixedExpr {
    pub fn evaluate(&self, ev: &Evaluator) -> (r: Result<ValueObj, Diag>)
        requires
            ev.wf(),
        ensures
            evaluates_to(r, eval_mul(*self, ev.text(), ev.frames()), ev.line()),
        decreases size_mul(*self),
    {
        match &self.lhs {
            None => self.rhs.1.evaluate(ev),
            Some(l) => {
                let a = l.evaluate(ev)?;
                let b = self.rhs.1.evaluate(ev)?;
                let kind = if self.rhs.0 {
                    OperationKind::Multiply
                } else {
                    OperationKind::Divide
                };
                apply(ev, kind, a, b)
            },
        }
    }
}

impl PrefixedExpr {
    pub fn evaluate(&self, ev: &Evaluator) -> (r: Result<ValueObj, Diag>)
        requires
            ev.wf(),
        ensures
            evaluates_to(r, eval_prefix(*self, ev.text(), ev.frames()), ev.line()),
        decreases size_prefix(*self),
    {
        match self.prefix {
            Some(PrefixedExprKind::Minus) => {
                let v = self.expr.evaluate(ev)?;
                apply(ev, OperationKind::NegativePrefix, ValueObj::Undefined, v)
            },
            None => self.expr.evaluate(ev),
        }
    }
}

impl PathExpr {
    pub fn evaluate(&self, ev: &Evaluator) -> (r: Result<ValueObj, Diag>)
        requires
            ev.wf(),
        ensures
            evaluates_to(r, eval_path(*self, ev.text(), ev.frames()), ev.line()),
        decreases size_path(*self),
    {
        match self {
            PathExpr::Root(root) => root.evaluate(ev),
            PathExpr::WithFields { .. } => Err(
                ev.failure(EvalError::Unsupported { what: String::from_str("field access") }),
            ),
        }
    }
}

impl TerminalExpr {
    pub fn evaluate(&self, ev: &Evaluator) -> (r: Result<ValueObj, Diag>)
        requires
            ev.wf(),
        ensures
            evaluates_to(r, eval_terminal(*self, ev.text(), ev.frames()), ev.line()),
        decreases size_terminal(*self),
    {
        match self {
            TerminalExpr::Field(field) => field.evaluate(ev),
            TerminalExpr::Literal(lit) => lit.evaluate(ev),
            TerminalExpr::Tuple(tuple) => tuple.evaluate(ev),
        }
    }
}

impl Field {
    /// The value of the name; a call has no meaning yet.
    pub fn evaluate(&self, ev: &Evaluator) -> (r: Result<ValueObj, Diag>)
        requires
            ev.wf(),
        ensures
            evaluates_to(r, eval_field(*self, ev.text(), ev.frames()), ev.line()),
        decreases size_field(*self),
    {
        if self.args.is_some() {
            return Err(
                ev.failure(EvalError::Unsupported { what: String::from_str("method invocation") }),
            );
        }
        let name = ev.snippet(&self.name.0);
        match ev.lookup(&name) {
            Some(v) => Ok(v),
            None => Err(ev.failure(EvalError::NotFoundInScope { name })),
        }
    }
}

impl TupleExpr {
    pub fn evaluate(&self, ev: &Evaluator) -> (r: Result<ValueObj, Diag>)
        requires
            ev.wf(),
        ensures
            evaluates_to(r, eval_tuple(*self, ev.text(), ev.frames()), ev.line()),
        decreases size_tuple(*self),
    {
        if self.0.len() == 1 {
            proof {
                lemma_size_list_index(self.0@, 0);
            }
            return self.0[0].evaluate(ev);
        }
        let ghost src = ev.text();
        let ghost env = ev.frames();
        let mut values: Vec<ValueObj> = Vec::new();
        let mut i: usize = 0;
        proof {
            assert(self.0@.take(0) =~= Seq::<Expr>::empty());
        }
        while i < self.0.len()
            invariant
                ev.wf(),
                src == ev.text(),
                env == ev.frames(),
                i <= self.0.len(),
                eval_list(self.0@.take(i as int), src, env) == Ok::<Seq<Value>, Failure>(
                    values_model(values@),
                ),
                values_wf(values@),
            decreases self.0.len() - i,
        {
            proof {
                lemma_size_list_index(self.0@, i as int);
                lemma_eval_list_step(self.0@, i as int, src, env);
            }
            let v = match self.0[i].evaluate(ev) {
                Ok(v) => v,
                Err(d) => {
                    proof {
                        lemma_eval_list_err(self.0@, i + 1, src, env);
                        assert(self.0@.take(self.0@.len() as int) =~= self.0@);
                    }
                    return Err(d);
                },
            };
            proof {
                lemma_values_push(values@, v);
            }
            values.push(v);
            i = i + 1;
        }
        proof {
            assert(self.0@.take(i as int) =~= self.0@);
        }
        Ok(ValueObj::Tuple(TupleObj(values)))
    }
}

impl Literal {
    pub fn evaluate(&self, ev: &Evaluator) -> (r: Result<ValueObj, Diag>)
        requires
            ev.wf(),
        ensures
            evaluates_to(r, eval_literal(*self, ev.text()), ev.line()),
    {
        match self {
            Literal::Decimal(lit) => lit.evaluate(ev),
            Literal::Float(lit) => lit.evaluate(ev),
            Literal::DoubleQuotedString(lit) => lit.evaluate(ev),
        }
    }
}

impl Decimal {
    pub fn evaluate(&self, ev: &Evaluator) -> (r: Result<ValueObj, Diag>)
        requires
            ev.wf(),
        ensures
            evaluates_to(r, eval_literal(Literal::Decimal(*self), ev.text()), ev.line()),
    {
        let lit = ev.snippet(&self.0);
        match NumericalObj::from_integer_literal(lit.as_str()) {
            Ok(n) => Ok(ValueObj::Numerical(n)),
            Err(LiteralError::Malformed) => Err(ev.failure(EvalError::MalformedLiteral { lit })),
            Err(LiteralError::OutOfRange) => Err(ev.failure(EvalError::OutOfRange { text: lit })),
        }
    }
}

impl Float {
    pub fn evaluate(&self, ev: &Evaluator) -> (r: Result<ValueObj, Diag>)
        requires
            ev.wf(),
        ensures
            evaluates_to(r, eval_literal(Literal::Float(*self), ev.text()), ev.line()),
    {
        let lit = ev.snippet(&self.0);
        match NumericalObj::from_fraction_literal(lit.as_str()) {
            Ok(n) => Ok(ValueObj::Numerical(n)),
            Err(LiteralError::Malformed) => Err(ev.failure(EvalError::MalformedLiteral { lit })),
            Err(LiteralError::OutOfRange) => Err(ev.failure(EvalError::OutOfRange { text: lit })),
        }
    }
}

impl DoubleQuotedString {
    /// The text between the quotes.
    pub fn evaluate(&self, ev: &Evaluator) -> (r: Result<ValueObj, Diag>)
        requires
            ev.wf(),
        ensures
            evaluates_to(r, eval_literal(Literal::DoubleQuotedString(*self), ev.text()), ev.line()),
    {
        let lit = ev.snippet(&self.0);
        let t = lit.as_str();
        let n = t.unicode_len();
        let inner = if n == 0 {
            t
        } else if n >= 2 && t.get_char(n - 1) == t.get_char(0) {
            t.substring_char(1, n - 1)
        } else {
            t.substring_char(1, n)
        };
        Ok(ValueObj::String(StringObj(String::from_str(inner))))
    }
}

} // verus!
