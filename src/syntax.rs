use crate::diag::Diag;
use crate::expr::{declined, expecting, starts_terminal, Expr, PathExpr, TerminalExpr};
use crate::grammar::{
    cho_parse, cho_reads, diag_is, in_parse, in_reads, invocation_parse, outcome, path_full, programme_parse, programme_reads, statement_parse, statement_reads,
    statements_read, unfold_cho_parse, unfold_cho_reads, unfold_in_parse, unfold_in_reads,
    unfold_invocation_parse, unfold_programme_parse, unfold_programme_reads,
    unfold_statement_parse, unfold_statement_reads, unfold_statements_read, Parse,
};
use crate::lexeme::Kind;
use crate::parser::Parser;
use crate::terminal::{at_keyword, keyword_text, place, protocol, Ident, Keyword};
use vstd::prelude::*;

verus! {

/// `cho <name>` with an optional `= <expr>`: declares a name.
#[derive(Debug)]
pub struct ChoStatement {
    pub lhs: Ident,
    pub rhs: Option<Expr>,
}

/// `trong <expr>`: prints the value of the expression.
#[derive(Debug)]
pub struct InStatement {
    pub expr: Expr,
}

/// A path whose last field is a call, standing alone as a statement.
#[derive(Debug)]
pub struct InvocationStatement(pub PathExpr);

#[derive(Debug)]
pub enum Statement {
    Cho(ChoStatement),
    In(InStatement),
    Invocation(InvocationStatement),
}

/// The statements of a source text, with the line on which each starts.
#[derive(Debug)]
pub struct Programme {
    pub statements: Vec<Statement>,
    pub lines: Vec<u32>,
}

/// Whether the last field of a path is a call.
pub open spec fn ends_in_call(p: PathExpr) -> bool {
    match p {
        PathExpr::Root(TerminalExpr::Field(f)) => f.args is Some,
        PathExpr::Root(_) => false,
        PathExpr::WithFields { lhs: _, rhs } => rhs.args is Some,
    }
}

/// Where a statement can start: a keyword, or a terminal expression.
pub open spec fn starts_statement(s: Seq<char>, i: int, k: Kind) -> bool {
    at_keyword(s, i, Keyword::Cho) || at_keyword(s, i, Keyword::Trong) || starts_terminal(k)
}

impl ChoStatement {
    /// `cho`, a name, and where `=` follows, an expression.
    pub fn accept(parser: &mut Parser) -> (r: Result<Option<ChoStatement>, Diag>)
        requires
            old(parser).wf(),
        ensures
            protocol(*old(parser), *final(parser), r),
            declined(r) <==> !at_keyword(old(parser).text(), old(parser).at(), Keyword::Cho),
            outcome(r, cho_parse(old(parser).text(), place(*old(parser)), old(parser).nesting()), *old(parser), *final(parser)),
            r matches Ok(Some(n)) ==> cho_reads(old(parser).text(), place(*old(parser)), n) == Some(
                place(*final(parser)),
            ),
    {
        let ghost s = parser.text();
        let ghost st0 = place(*parser);
        let ghost d = parser.nesting();
        proof {
            parser.lemma_wf();
            unfold_cho_parse(s, st0, d);
        }
        if !Keyword::check(parser, Keyword::Cho) {
            return Ok(None);
        }
        parser.next_non_ws_lexeme(true);
        proof {
            parser.lemma_wf();
        }
        let lhs = match Ident::accept(parser) {
            Err(e) => return Err(e),
            Ok(None) => return Err(expecting(parser, "the left-hand side for declaration")),
            Ok(Some(i)) => i,
        };
        parser.skip_ws_if_any(false);
        proof {
            parser.lemma_wf();
        }
        let ghost b = place(*parser);
        if parser.cur_kind() == Kind::Equal {
            parser.next_non_ws_lexeme(true);
            proof {
                parser.lemma_wf();
            }
            let rhs = match Expr::accept(parser) {
                Err(e) => return Err(e),
                Ok(None) => return Err(
                    expecting(parser, "the right-hand side expression for assignment"),
                ),
                Ok(Some(e)) => e,
            };
            let c = ChoStatement { lhs, rhs: Some(rhs) };
            proof {
                unfold_cho_reads(s, st0, c);
            }
            Ok(Some(c))
        } else {
            let c = ChoStatement { lhs, rhs: None };
            proof {
                unfold_cho_reads(s, st0, c);
            }
            Ok(Some(c))
        }
    }
}

impl InStatement {
    /// `trong` and the expression to print.
    pub fn accept(parser: &mut Parser) -> (r: Result<Option<InStatement>, Diag>)
        requires
            old(parser).wf(),
        ensures
            protocol(*old(parser), *final(parser), r),
            declined(r) <==> !at_keyword(old(parser).text(), old(parser).at(), Keyword::Trong),
            outcome(r, in_parse(old(parser).text(), place(*old(parser)), old(parser).nesting()), *old(parser), *final(parser)),
            r matches Ok(Some(n)) ==> in_reads(old(parser).text(), place(*old(parser)), n) == Some(
                place(*final(parser)),
            ),
    {
        let ghost s = parser.text();
        let ghost st0 = place(*parser);
        let ghost d = parser.nesting();
        proof {
            parser.lemma_wf();
            unfold_in_parse(s, st0, d);
        }
        if !Keyword::check(parser, Keyword::Trong) {
            return Ok(None);
        }
        parser.next_non_ws_lexeme(true);
        proof {
            parser.lemma_wf();
        }
        match Expr::accept(parser) {
            Err(e) => Err(e),
            Ok(None) => Err(expecting(parser, "an expression to print")),
            Ok(Some(expr)) => {
                let x = InStatement { expr };
                proof {
                    unfold_in_reads(s, st0, x);
                }
                Ok(Some(x))
            },
        }
    }
}

impl InvocationStatement {
    /// A path that ends in a call; any other path is no statement.
    pub fn accept(parser: &mut Parser) -> (r: Result<Option<InvocationStatement>, Diag>)
        requires
            old(parser).wf(),
        ensures
            protocol(*old(parser), *final(parser), r),
            declined(r) <==> !starts_terminal(old(parser).current().kind),
            outcome(r, invocation_parse(old(parser).text(), place(*old(parser)), old(parser).nesting()), *old(parser), *final(parser)),
            r matches Ok(Some(st)) ==> ends_in_call(st.0) && path_full(old(parser).text(), place(*old(parser)), st.0) == Some(
                place(*final(parser)),
            ),
    {
        let ghost s = parser.text();
        let ghost st0 = place(*parser);
        let ghost d = parser.nesting();
        proof {
            unfold_invocation_parse(s, st0, d);
        }
        match PathExpr::accept(parser) {
            Err(e) => Err(e),
            Ok(None) => Ok(None),
            Ok(Some(path)) => {
                proof {
                    parser.lemma_wf();
                }
                let call = match &path {
                    PathExpr::Root(TerminalExpr::Field(f)) => f.args.is_some(),
                    PathExpr::Root(_) => false,
                    PathExpr::WithFields { lhs: _, rhs } => rhs.args.is_some(),
                };
                if call {
                    Ok(Some(InvocationStatement(path)))
                } else {
                    Err(expecting(parser, "a statement"))
                }
            },
        }
    }
}

impl Statement {
    /// A declaration, a print statement or an invocation, tried in that
    /// order.
    pub fn accept(parser: &mut Parser) -> (r: Result<Option<Statement>, Diag>)
        requires
            old(parser).wf(),
        ensures
            protocol(*old(parser), *final(parser), r),
            declined(r) <==> !starts_statement(
                old(parser).text(),
                old(parser).at(),
                old(parser).current().kind,
            ),
            outcome(r, statement_parse(old(parser).text(), place(*old(parser)), old(parser).nesting()), *old(parser), *final(parser)),
            r matches Ok(Some(n)) ==> statement_reads(old(parser).text(), place(*old(parser)), n) == Some(
                place(*final(parser)),
            ),
    {
        let ghost s = parser.text();
        let ghost st0 = place(*parser);
        let ghost d = parser.nesting();
        proof {
            parser.lemma_wf();
            reveal_strlit("cho");
            reveal_strlit("trong");
            assert(keyword_text(Keyword::Cho).len() != keyword_text(Keyword::Trong).len());
            unfold_statement_parse(s, st0, d);
        }
        match ChoStatement::accept(parser) {
            Err(e) => return Err(e),
            Ok(Some(st)) => {
                let x = Statement::Cho(st);
                proof {
                    unfold_statement_reads(s, st0, x);
                }
                return Ok(Some(x));
            },
            Ok(None) => {},
        }
        match InStatement::accept(parser) {
            Err(e) => return Err(e),
            Ok(Some(st)) => {
                let x = Statement::In(st);
                proof {
                    unfold_statement_reads(s, st0, x);
                }
                return Ok(Some(x));
            },
            Ok(None) => {},
        }
        match InvocationStatement::accept(parser) {
            Err(e) => Err(e),
            Ok(Some(st)) => {
                let x = Statement::Invocation(st);
                proof {
                    unfold_statement_reads(s, st0, x);
                }
                Ok(Some(x))
            },
            Ok(None) => Ok(None),
        }
    }
}

impl Programme {
    /// Statements, one after another, with blanks and line ends between
    /// them, up to the first place where no statement starts; the first
    /// statement that fails stops it with its diagnostic.
    pub fn accept(parser: &mut Parser) -> (r: Result<Option<Programme>, Diag>)
        requires
            old(parser).wf(),
        ensures
            final(parser).wf(),
            final(parser).text() == old(parser).text(),
            final(parser).diag_count() == old(parser).diag_count(),
            r matches Ok(p) ==> p is Some && p->Some_0.statements.len() == p->Some_0.lines.len(),
            r is Ok ==> !starts_statement(
                final(parser).text(),
                final(parser).at(),
                final(parser).current().kind,
            ),
            match programme_parse(old(parser).text(), place(*old(parser)), old(parser).nesting()) {
                Parse::Read(e) => r matches Ok(Some(p)) && place(*final(parser)) == e
                    && programme_reads(old(parser).text(), place(*old(parser)), p.statements@, p.lines@)
                    == Some(e),
                Parse::Failed(at, f) => r matches Err(dg) && diag_is(old(parser).text(), at, f, dg),
                Parse::Declined => false,
            },
    {
        let ghost s = parser.text();
        let ghost st0 = place(*parser);
        let ghost d = parser.nesting();
        let mut statements: Vec<Statement> = Vec::new();
        let mut lines: Vec<u32> = Vec::new();
        proof {
            unfold_statements_read(s, st0, statements@, lines@);
        }
        loop
            invariant_except_break
                programme_parse(s, st0, d) == programme_parse(s, place(*parser), d),
                statements_read(s, st0, statements@, lines@) == Some(place(*parser)),
            invariant
                parser.wf(),
                parser.text() == old(parser).text(),
                s == old(parser).text(),
                st0 == place(*old(parser)),
                d == old(parser).nesting(),
                parser.diag_count() == old(parser).diag_count(),
                parser.nesting() == old(parser).nesting(),
                statements.len() == lines.len(),
            ensures
                !starts_statement(parser.text(), parser.at(), parser.current().kind),
                programme_parse(s, st0, d) == Parse::Read(place(*parser)),
                programme_reads(s, st0, statements@, lines@) == Some(place(*parser)),
            decreases parser.text().len() - parser.at(),
        {
            proof {
                parser.lemma_wf();
            }
            let ghost p = place(*parser);
            parser.skip_ws_if_any(true);
            proof {
                parser.lemma_wf();
                unfold_programme_parse(s, p, d);
            }
            let line = parser.line_number();
            let ghost before_s = statements@;
            let ghost before_l = lines@;
            match Statement::accept(parser) {
                Err(e) => return Err(e),
                Ok(Some(st)) => {
                    statements.push(st);
                    lines.push(line);
                    proof {
                        assert(statements@.drop_last() =~= before_s);
                        assert(lines@.drop_last() =~= before_l);
                        unfold_statements_read(s, st0, statements@, lines@);
                    }
                },
                Ok(None) => {
                    proof {
                        unfold_programme_reads(s, st0, statements@, lines@);
                    }
                    break;
                },
            }
            proof {
                parser.lemma_wf();
            }
        }
        Ok(Some(Programme { statements, lines }))
    }
}

} // verus!
