use crate::diag::{BracketKind, Diag, DiagData, Error};
use crate::lexeme::Kind;
use crate::syntax::ends_in_call;
use crate::parser::{kind_at, Parser, MAX_NESTING};
use crate::grammar::{
    field_call, path_call, path_loop_call, unfold_path_call, unfold_path_loop_call,
    unfold_add_chain, unfold_add_full, unfold_add_loop, unfold_add_parse, unfold_expr_parse, unfold_expr_reads, unfold_field_parse, unfold_field_reads, unfold_list_head, unfold_list_last, unfold_list_parse, unfold_list_reads, unfold_mul_chain, unfold_mul_full, unfold_mul_loop, unfold_mul_parse, unfold_path_chain, unfold_path_full, unfold_path_loop, unfold_path_parse, unfold_prefix_parse, unfold_prefix_reads, unfold_terminal_parse, unfold_terminal_reads, unfold_tuple_parse, unfold_tuple_reads,
    add_chain, add_full, add_loop, add_parse, expr_parse, expr_reads, field_parse, field_reads,
    list_head, list_last, list_parse, list_reads, mul_chain, mul_full, mul_loop, mul_parse,
    outcome, path_chain, path_full, path_loop, path_parse, prefix_parse, prefix_reads,
    past, terminal_parse, terminal_reads, tuple_parse, tuple_reads, Fault, Parse,
};
use crate::terminal::{
    place, protocol, starts_literal, Ident, Literal,
};
use vstd::prelude::*;
use vstd::string::StringExecFns;

verus! {

/// An expression: a chain of additions and subtractions.
#[derive(Debug)]
pub struct Expr(pub AddAffixedExpr);

/// `lhs + rhs` or `lhs - rhs` (the flag is true for `+`), or `rhs` alone
/// where there is no `lhs`.
#[derive(Debug)]
pub struct AddAffixedExpr {
    pub lhs: Option<Box<AddAffixedExpr>>,
    pub rhs: (bool, MulAffixedExpr),
}

/// `lhs * rhs` or `lhs / rhs` (the flag is true for `*`), or `rhs` alone
/// where there is no `lhs`.
#[derive(Debug)]
pub struct MulAffixedExpr {
    pub lhs: Option<Box<MulAffixedExpr>>,
    pub rhs: (bool, PrefixedExpr),
}

#[derive(Clone, Copy, Debug, PartialEq, Eq, Structural)]
pub enum PrefixedExprKind {
    Minus,
}

/// A path, negated where a prefix stands before it.
#[derive(Debug)]
pub struct PrefixedExpr {
    pub prefix: Option<PrefixedExprKind>,
    pub expr: PathExpr,
}

/// A terminal followed by `.field` accesses.
#[derive(Debug)]
pub enum PathExpr {
    Root(TerminalExpr),
    WithFields { lhs: Box<PathExpr>, rhs: Field },
}

#[derive(Debug)]
pub enum TerminalExpr {
    Field(Field),
    Literal(Literal),
    Tuple(TupleExpr),
}

/// A name, with the arguments of a call where a parenthesised tuple
/// follows it.
#[derive(Debug)]
pub struct Field {
    pub name: Ident,
    pub args: Option<TupleExpr>,
}

/// Expressions between parentheses, separated by commas.
#[derive(Debug)]
pub struct TupleExpr(pub Vec<Expr>);

/// Kinds of lexeme that start a terminal expression.
pub open spec fn starts_terminal(k: Kind) -> bool {
    starts_literal(k) || k == Kind::LeftParen || k == Kind::Word
}

/// Kinds of lexeme that start an expression.
pub open spec fn starts_expr(k: Kind) -> bool {
    starts_terminal(k) || k == Kind::Minus
}

pub open spec fn declined<T>(r: Result<Option<T>, Diag>) -> bool {
    r is Ok && r->Ok_0 is None
}

/// A diagnostic that says what the grammar required at the current lexeme.
pub fn expecting(parser: &Parser, what: &str) -> (d: Diag)
    requires
        parser.wf(),
    ensures
        d.line == parser.line(),
        d.span.0 as int == parser.byte_pos(),
        d.span.1 == parser.current().len,
        d.data matches DiagData::Error(Error::Expecting { expected }) && expected@ == what@,
{
    Diag {
        line: parser.line_number(),
        span: parser.cur_span(),
        data: DiagData::Error(Error::Expecting { expected: String::from_str(what) }),
    }
}

impl Expr {
    pub fn accept(parser: &mut Parser) -> (r: Result<Option<Expr>, Diag>)
        requires
            old(parser).wf(),
        ensures
            protocol(*old(parser), *final(parser), r),
            declined(r) <==> !starts_expr(old(parser).current().kind),
            outcome(r, expr_parse(old(parser).text(), place(*old(parser)), old(parser).nesting()), *old(parser), *final(parser)),
            r matches Ok(Some(n)) ==> expr_reads(old(parser).text(), place(*old(parser)), n) == Some(
                place(*final(parser)),
            ),
        decreases old(parser).text().len() - old(parser).at(), 8nat,
    {
        let ghost s = parser.text();
        let ghost st0 = place(*parser);
        let ghost d = parser.nesting();
        proof {
            parser.lemma_wf();
        }
        proof {
            unfold_expr_parse(s, st0, d);
        }
        match AddAffixedExpr::accept(parser) {
            Err(e) => Err(e),
            Ok(None) => Ok(None),
            Ok(Some(e)) => {
                let x = Expr(e);
                proof {
                    unfold_expr_reads(s, st0, x);
                }
                Ok(Some(x))
            },
        }
    }
}

impl AddAffixedExpr {
    pub fn accept(parser: &mut Parser) -> (r: Result<Option<AddAffixedExpr>, Diag>)
        requires
            old(parser).wf(),
        ensures
            protocol(*old(parser), *final(parser), r),
            declined(r) <==> !starts_expr(old(parser).current().kind),
            outcome(r, add_parse(old(parser).text(), place(*old(parser)), old(parser).nesting()), *old(parser), *final(parser)),
            r matches Ok(Some(n)) ==> add_full(old(parser).text(), place(*old(parser)), n) == Some(
                place(*final(parser)),
            ),
        decreases old(parser).text().len() - old(parser).at(), 7nat,
    {
        let ghost s = parser.text();
        let ghost st0 = place(*parser);
        let ghost d = parser.nesting();
        proof {
            parser.lemma_wf();
        }
        let first = match MulAffixedExpr::accept(parser) {
            Err(e) => {
                assert(add_parse(s, st0, d) == mul_parse(s, st0, d)) by {
                    unfold_add_parse(s, st0, d);
                }
                return Err(e);
            },
            Ok(None) => {
                assert(add_parse(s, st0, d) == mul_parse(s, st0, d)) by {
                    unfold_add_parse(s, st0, d);
                }
                return Ok(None);
            },
            Ok(Some(x)) => x,
        };
        proof {
            parser.lemma_wf();
        }
        let mut lhs: Option<Box<AddAffixedExpr>> = None;
        let mut rhs = (true, first);
        assert(add_parse(s, st0, d) == add_loop(s, place(*parser), d)) by {
            unfold_add_parse(s, st0, d);
        }
        assert(add_chain(s, st0, AddAffixedExpr { lhs, rhs }) == Some(place(*parser))) by {
            unfold_add_chain(s, st0, AddAffixedExpr { lhs, rhs });
        }
        loop
            invariant_except_break
                add_parse(s, st0, d) == add_loop(s, place(*parser), d),
                add_chain(s, st0, AddAffixedExpr { lhs, rhs }) == Some(place(*parser)),
            invariant
                parser.wf(),
                parser.text() == old(parser).text(),
                s == old(parser).text(),
                st0 == place(*old(parser)),
                d == old(parser).nesting(),
                parser.diag_count() == old(parser).diag_count(),
                parser.nesting() == old(parser).nesting(),
                parser.at() > old(parser).at(),
                starts_expr(old(parser).current().kind),
            ensures
                add_parse(s, st0, d) == Parse::Read(place(*parser)),
                add_full(s, st0, AddAffixedExpr { lhs, rhs }) == Some(place(*parser)),
            decreases parser.text().len() - parser.at(),
        {
            proof {
                parser.lemma_wf();
            }
            let ghost a = place(*parser);
            parser.skip_ws_if_any(true);
            proof {
                parser.lemma_wf();
            }
            let op = match parser.cur_kind() {
                Kind::Plus => true,
                Kind::Minus => false,
                _ => {
                    proof {
                        parser.lemma_wf();
                    }
                    assert(add_loop(s, a, d) == Parse::Read(place(*parser))) by {
                        unfold_add_loop(s, a, d);
                    }
                    assert(add_full(s, st0, AddAffixedExpr { lhs, rhs }) == Some(place(*parser))) by {
                        unfold_add_full(s, st0, AddAffixedExpr { lhs, rhs });
                    }
                    break;
                },
            };
            let ghost c = place(*parser);
            parser.next_non_ws_lexeme(true);
            proof {
                parser.lemma_wf();
            }
            let ghost n = place(*parser);
            let ghost old_tree = AddAffixedExpr { lhs, rhs };
            lhs = Some(Box::new(AddAffixedExpr { lhs, rhs }));
            let next = match MulAffixedExpr::accept(parser) {
                Err(e) => {
                    assert(add_loop(s, a, d) == mul_parse(s, n, d)) by {
                        unfold_add_loop(s, a, d);
                    }
                    return Err(e);
                },
                Ok(None) => {
                    assert(add_loop(s, a, d) == Parse::Failed(
                        n,
                        Fault::Expecting("an expression after operator"@),
                    )) by {
                        unfold_add_loop(s, a, d);
                    }
                    return Err(expecting(parser, "an expression after operator"));
                },
                Ok(Some(x)) => x,
            };
            proof {
                parser.lemma_wf();
            }
            rhs = (op, next);
            assert(add_loop(s, a, d) == add_loop(s, place(*parser), d)) by {
                unfold_add_loop(s, a, d);
            }
            assert(add_chain(s, st0, AddAffixedExpr { lhs, rhs }) == Some(place(*parser))) by {
                unfold_add_chain(s, st0, AddAffixedExpr { lhs, rhs });
            }
        }
        Ok(Some(AddAffixedExpr { lhs, rhs }))
    }
}

impl MulAffixedExpr {
    pub fn accept(parser: &mut Parser) -> (r: Result<Option<MulAffixedExpr>, Diag>)
        requires
            old(parser).wf(),
        ensures
            protocol(*old(parser), *final(parser), r),
            declined(r) <==> !starts_expr(old(parser).current().kind),
            outcome(r, mul_parse(old(parser).text(), place(*old(parser)), old(parser).nesting()), *old(parser), *final(parser)),
            r matches Ok(Some(n)) ==> mul_full(old(parser).text(), place(*old(parser)), n) == Some(
                place(*final(parser)),
            ),
        decreases old(parser).text().len() - old(parser).at(), 6nat,
    {
        let ghost s = parser.text();
        let ghost st0 = place(*parser);
        let ghost d = parser.nesting();
        proof {
            parser.lemma_wf();
        }
        let first = match PrefixedExpr::accept(parser) {
            Err(e) => {
                assert(mul_parse(s, st0, d) == prefix_parse(s, st0, d)) by {
                    unfold_mul_parse(s, st0, d);
                }
                return Err(e);
            },
            Ok(None) => {
                assert(mul_parse(s, st0, d) == prefix_parse(s, st0, d)) by {
                    unfold_mul_parse(s, st0, d);
                }
                return Ok(None);
            },
            Ok(Some(x)) => x,
        };
        proof {
            parser.lemma_wf();
        }
        let mut lhs: Option<Box<MulAffixedExpr>> = None;
        let mut rhs = (true, first);
        assert(mul_parse(s, st0, d) == mul_loop(s, place(*parser), d)) by {
            unfold_mul_parse(s, st0, d);
        }
        assert(mul_chain(s, st0, MulAffixedExpr { lhs, rhs }) == Some(place(*parser))) by {
            unfold_mul_chain(s, st0, MulAffixedExpr { lhs, rhs });
        }
        loop
            invariant_except_break
                mul_parse(s, st0, d) == mul_loop(s, place(*parser), d),
                mul_chain(s, st0, MulAffixedExpr { lhs, rhs }) == Some(place(*parser)),
            invariant
                parser.wf(),
                parser.text() == old(parser).text(),
                s == old(parser).text(),
                st0 == place(*old(parser)),
                d == old(parser).nesting(),
                parser.diag_count() == old(parser).diag_count(),
                parser.nesting() == old(parser).nesting(),
                parser.at() > old(parser).at(),
                starts_expr(old(parser).current().kind),
            ensures
                mul_parse(s, st0, d) == Parse::Read(place(*parser)),
                mul_full(s, st0, MulAffixedExpr { lhs, rhs }) == Some(place(*parser)),
            decreases parser.text().len() - parser.at(),
        {
            proof {
                parser.lemma_wf();
            }
            let ghost a = place(*parser);
            parser.skip_ws_if_any(true);
            proof {
                parser.lemma_wf();
            }
            let op = match parser.cur_kind() {
                Kind::Asterisk => true,
                Kind::Slash => false,
                _ => {
                    proof {
                        parser.lemma_wf();
                    }
                    assert(mul_loop(s, a, d) == Parse::Read(place(*parser))) by {
                        unfold_mul_loop(s, a, d);
                    }
                    assert(mul_full(s, st0, MulAffixedExpr { lhs, rhs }) == Some(place(*parser))) by {
                        unfold_mul_full(s, st0, MulAffixedExpr { lhs, rhs });
                    }
                    break;
                },
            };
            let ghost c = place(*parser);
            parser.next_non_ws_lexeme(true);
            proof {
                parser.lemma_wf();
            }
            let ghost n = place(*parser);
            let ghost old_tree = MulAffixedExpr { lhs, rhs };
            lhs = Some(Box::new(MulAffixedExpr { lhs, rhs }));
            let next = match PrefixedExpr::accept(parser) {
                Err(e) => {
                    assert(mul_loop(s, a, d) == prefix_parse(s, n, d)) by {
                        unfold_mul_loop(s, a, d);
                    }
                    return Err(e);
                },
                Ok(None) => {
                    assert(mul_loop(s, a, d) == Parse::Failed(
                        n,
                        Fault::Expecting("an expression after operator"@),
                    )) by {
                        unfold_mul_loop(s, a, d);
                    }
                    return Err(expecting(parser, "an expression after operator"));
                },
                Ok(Some(x)) => x,
            };
            proof {
                parser.lemma_wf();
            }
            rhs = (op, next);
            assert(mul_loop(s, a, d) == mul_loop(s, place(*parser), d)) by {
                unfold_mul_loop(s, a, d);
            }
            assert(mul_chain(s, st0, MulAffixedExpr { lhs, rhs }) == Some(place(*parser))) by {
                unfold_mul_chain(s, st0, MulAffixedExpr { lhs, rhs });
            }
        }
        Ok(Some(MulAffixedExpr { lhs, rhs }))
    }
}

impl PrefixedExpr {
    pub fn accept(parser: &mut Parser) -> (r: Result<Option<PrefixedExpr>, Diag>)
        requires
            old(parser).wf(),
        ensures
            protocol(*old(parser), *final(parser), r),
            declined(r) <==> !starts_expr(old(parser).current().kind),
            outcome(r, prefix_parse(old(parser).text(), place(*old(parser)), old(parser).nesting()), *old(parser), *final(parser)),
            r matches Ok(Some(n)) ==> prefix_reads(old(parser).text(), place(*old(parser)), n) == Some(
                place(*final(parser)),
            ),
        decreases old(parser).text().len() - old(parser).at(), 5nat,
    {
        let ghost s = parser.text();
        let ghost st0 = place(*parser);
        let ghost d = parser.nesting();
        proof {
            parser.lemma_wf();
        }
        if parser.cur_kind() == Kind::Minus {
            parser.next_non_ws_lexeme(true);
            proof {
                parser.lemma_wf();
            }
            let ghost n = place(*parser);
            assert(prefix_parse(s, st0, d) == match path_parse(s, n, d) {
                Parse::Declined => Parse::Failed(n, Fault::Expecting("an expression"@)),
                other => other,
            }) by {
                unfold_prefix_parse(s, st0, d);
            }
            match PathExpr::accept(parser) {
                Err(e) => Err(e),
                Ok(None) => Err(expecting(parser, "an expression")),
                Ok(Some(p)) => {
                    let x = PrefixedExpr { prefix: Some(PrefixedExprKind::Minus), expr: p };
                    proof {
                        unfold_prefix_reads(s, st0, x);
                    }
                    Ok(Some(x))
                },
            }
        } else {
            assert(prefix_parse(s, st0, d) == path_parse(s, st0, d)) by {
                unfold_prefix_parse(s, st0, d);
            }
            match PathExpr::accept(parser) {
                Err(e) => Err(e),
                Ok(None) => Ok(None),
                Ok(Some(p)) => {
                    let x = PrefixedExpr { prefix: None, expr: p };
                    proof {
                        unfold_prefix_reads(s, st0, x);
                    }
                    Ok(Some(x))
                },
            }
        }
    }
}

impl PathExpr {
    pub fn accept(parser: &mut Parser) -> (r: Result<Option<PathExpr>, Diag>)
        requires
            old(parser).wf(),
        ensures
            protocol(*old(parser), *final(parser), r),
            declined(r) <==> !starts_terminal(old(parser).current().kind),
            outcome(r, path_parse(old(parser).text(), place(*old(parser)), old(parser).nesting()), *old(parser), *final(parser)),
            r matches Ok(Some(n)) ==> path_full(old(parser).text(), place(*old(parser)), n) == Some(
                place(*final(parser)),
            ),
            r matches Ok(Some(n)) ==> ends_in_call(n) == path_call(
                old(parser).text(),
                place(*old(parser)),
                old(parser).nesting(),
            ),
        decreases old(parser).text().len() - old(parser).at(), 4nat,
    {
        let ghost s = parser.text();
        let ghost st0 = place(*parser);
        let ghost d = parser.nesting();
        proof {
            parser.lemma_wf();
        }
        let mut path = match TerminalExpr::accept(parser) {
            Err(e) => {
                assert(path_parse(s, st0, d) == terminal_parse(s, st0, d)) by {
                    unfold_path_parse(s, st0, d);
                }
                return Err(e);
            },
            Ok(None) => {
                assert(path_parse(s, st0, d) == terminal_parse(s, st0, d)) by {
                    unfold_path_parse(s, st0, d);
                }
                return Ok(None);
            },
            Ok(Some(t)) => PathExpr::Root(t),
        };
        proof {
            parser.lemma_wf();
        }
        assert(path_parse(s, st0, d) == path_loop(s, place(*parser), d)) by {
            unfold_path_parse(s, st0, d);
        }
        assert(path_chain(s, st0, path) == Some(place(*parser))) by {
            unfold_path_chain(s, st0, path);
        }
        proof {
            unfold_path_call(s, st0, d);
        }
        loop
            invariant_except_break
                path_parse(s, st0, d) == path_loop(s, place(*parser), d),
                path_chain(s, st0, path) == Some(place(*parser)),
                path_call(s, st0, d) == path_loop_call(s, place(*parser), ends_in_call(path), d),
            invariant
                parser.wf(),
                parser.text() == old(parser).text(),
                s == old(parser).text(),
                st0 == place(*old(parser)),
                d == old(parser).nesting(),
                parser.diag_count() == old(parser).diag_count(),
                parser.nesting() == old(parser).nesting(),
                parser.at() > old(parser).at(),
                starts_terminal(old(parser).current().kind),
            ensures
                path_parse(s, st0, d) == Parse::Read(place(*parser)),
                path_full(s, st0, path) == Some(place(*parser)),
                path_call(s, st0, d) == ends_in_call(path),
            decreases parser.text().len() - parser.at(),
        {
            proof {
                parser.lemma_wf();
            }
            let ghost a = place(*parser);
            parser.skip_ws_if_any(false);
            proof {
                parser.lemma_wf();
            }
            if parser.cur_kind() != Kind::Period {
                proof {
                    parser.lemma_wf();
                }
                assert(path_loop(s, a, d) == Parse::Read(place(*parser))) by {
                    unfold_path_loop(s, a, d);
                }
                assert(path_full(s, st0, path) == Some(place(*parser))) by {
                    unfold_path_full(s, st0, path);
                }
                proof {
                    unfold_path_loop_call(s, a, ends_in_call(path), d);
                }
                break;
            }
            parser.next_non_ws_lexeme(true);
            proof {
                parser.lemma_wf();
            }
            let ghost n = place(*parser);
            let field = match Field::accept(parser) {
                Err(e) => {
                    assert(path_loop(s, a, d) == field_parse(s, n, d)) by {
                        unfold_path_loop(s, a, d);
                    }
                    return Err(e);
                },
                Ok(None) => {
                    assert(path_loop(s, a, d) == Parse::Failed(
                        n,
                        Fault::Expecting("a terminal expression after `.`"@),
                    )) by {
                        unfold_path_loop(s, a, d);
                    }
                    return Err(expecting(parser, "a terminal expression after `.`"));
                },
                Ok(Some(f)) => f,
            };
            proof {
                parser.lemma_wf();
                unfold_path_loop_call(s, a, ends_in_call(path), d);
            }
            path = PathExpr::WithFields { lhs: Box::new(path), rhs: field };
            assert(path_loop(s, a, d) == path_loop(s, place(*parser), d)) by {
                unfold_path_loop(s, a, d);
            }
            assert(path_chain(s, st0, path) == Some(place(*parser))) by {
                unfold_path_chain(s, st0, path);
            }
        }
        Ok(Some(path))
    }
}

impl Field {
    /// A name, then its arguments where a parenthesised tuple follows on
    /// the same line.
    pub fn accept(parser: &mut Parser) -> (r: Result<Option<Field>, Diag>)
        requires
            old(parser).wf(),
        ensures
            protocol(*old(parser), *final(parser), r),
            declined(r) <==> old(parser).current().kind != Kind::Word,
            outcome(r, field_parse(old(parser).text(), place(*old(parser)), old(parser).nesting()), *old(parser), *final(parser)),
            r matches Ok(Some(n)) ==> field_reads(old(parser).text(), place(*old(parser)), n) == Some(
                place(*final(parser)),
            ),
            r matches Ok(Some(n)) ==> (n.args is Some) == field_call(
                old(parser).text(),
                place(*old(parser)),
                old(parser).nesting(),
            ),
        decreases old(parser).text().len() - old(parser).at(), 2nat,
    {
        let ghost s = parser.text();
        let ghost st0 = place(*parser);
        let ghost d = parser.nesting();
        proof {
            parser.lemma_wf();
        }
        let name = match Ident::accept(parser) {
            Err(e) => return Err(e),
            Ok(None) => {
                assert(field_parse(s, st0, d) == Parse::Declined) by {
                    unfold_field_parse(s, st0, d);
                }
                return Ok(None);
            },
            Ok(Some(i)) => i,
        };
        parser.skip_ws_if_any(false);
        proof {
            parser.lemma_wf();
        }
        let ghost b = place(*parser);
        assert(field_parse(s, st0, d) == match tuple_parse(s, b, d) {
            Parse::Declined => Parse::Read(b),
            other => other,
        }) by {
            unfold_field_parse(s, st0, d);
        }
        let args = match TupleExpr::accept(parser) {
            Err(e) => return Err(e),
            Ok(None) => None,
            Ok(Some(t)) => Some(t),
        };
        assert(field_reads(s, st0, Field { name, args }) == Some(place(*parser))) by {
            unfold_field_reads(s, st0, Field { name, args });
        }
        Ok(Some(Field { name, args }))
    }
}

impl TupleExpr {
    /// `(`, expressions separated by commas, and `)`; a missing `)` is an
    /// unclosed parenthesis.
    pub fn accept(parser: &mut Parser) -> (r: Result<Option<TupleExpr>, Diag>)
        requires
            old(parser).wf(),
        ensures
            protocol(*old(parser), *final(parser), r),
            declined(r) <==> old(parser).current().kind != Kind::LeftParen,
            outcome(r, tuple_parse(old(parser).text(), place(*old(parser)), old(parser).nesting()), *old(parser), *final(parser)),
            r matches Ok(Some(n)) ==> tuple_reads(old(parser).text(), place(*old(parser)), n) == Some(
                place(*final(parser)),
            ),
        decreases old(parser).text().len() - old(parser).at(), 1nat,
    {
        let ghost s = parser.text();
        let ghost st0 = place(*parser);
        let ghost d = parser.nesting();
        proof {
            parser.lemma_wf();
        }
        if parser.cur_kind() != Kind::LeftParen {
            assert(tuple_parse(s, st0, d) == Parse::Declined) by {
                unfold_tuple_parse(s, st0, d);
            }
            return Ok(None);
        }
        if !parser.enter_nesting() {
            assert(tuple_parse(s, st0, d) == Parse::Failed(st0, Fault::TooDeep)) by {
                unfold_tuple_parse(s, st0, d);
            }
            return Err(
                Diag {
                    line: parser.line_number(),
                    span: parser.cur_span(),
                    data: DiagData::Error(Error::TooDeeplyNested { limit: MAX_NESTING }),
                },
            );
        }
        parser.next_non_ws_lexeme(true);
        proof {
            parser.lemma_wf();
        }
        let ghost b = place(*parser);
        assert(tuple_parse(s, st0, d) == match list_parse(s, b, d + 1) {
            Parse::Read(q) => if kind_at(s, q.0) == Kind::RightParen {
                Parse::Read(past(s, q, false))
            } else {
                Parse::Failed(q, Fault::Unclosed)
            },
            other => other,
        }) by {
            unfold_tuple_parse(s, st0, d);
        }
        let mut exprs: Vec<Expr> = Vec::new();
        assert(list_head(s, b, exprs@) == Some(b)) by {
            unfold_list_head(s, b, exprs@);
        }
        loop
            invariant_except_break
                list_parse(s, b, d + 1) == list_parse(s, place(*parser), d + 1),
                list_head(s, b, exprs@) == Some(place(*parser)),
            invariant
                parser.wf(),
                parser.text() == old(parser).text(),
                s == old(parser).text(),
                parser.diag_count() == old(parser).diag_count(),
                parser.nesting() == old(parser).nesting() + 1,
                d == old(parser).nesting(),
                parser.at() > old(parser).at(),
                b.0 > old(parser).at(),
                st0 == place(*old(parser)),
                tuple_parse(s, st0, d) == match list_parse(s, b, d + 1) {
                    Parse::Read(q) => if kind_at(s, q.0) == Kind::RightParen {
                        Parse::Read(past(s, q, false))
                    } else {
                        Parse::Failed(q, Fault::Unclosed)
                    },
                    other => other,
                },
                old(parser).current().kind == Kind::LeftParen,
            ensures
                list_parse(s, b, d + 1) == Parse::Read(place(*parser)),
                list_reads(s, b, exprs@) == Some(place(*parser)),
            decreases parser.text().len() - parser.at(),
        {
            proof {
                parser.lemma_wf();
            }
            let ghost p = place(*parser);
            let ghost before = exprs@;
            let expr = match Expr::accept(parser) {
                Err(e) => {
                    assert(list_parse(s, p, d + 1) == expr_parse(s, p, d + 1)) by {
                        unfold_list_parse(s, p, d + 1);
                    }
                    return Err(e);
                },
                Ok(None) => {
                    assert(list_parse(s, p, d + 1) == Parse::Read(p)) by {
                        unfold_list_parse(s, p, d + 1);
                    }
                    assert(list_reads(s, b, exprs@) == Some(p)) by {
                        unfold_list_reads(s, b, exprs@);
                    }
                    break;
                },
                Ok(Some(x)) => x,
            };
            proof {
                parser.lemma_wf();
            }
            let ghost a = place(*parser);
            exprs.push(expr);
            proof {
                assert(exprs@.drop_last() =~= before);
            }
            parser.skip_ws_if_any(true);
            proof {
                parser.lemma_wf();
            }
            let ghost c = place(*parser);
            if parser.cur_kind() == Kind::Comma {
                parser.next_non_ws_lexeme(true);
                proof {
                    parser.lemma_wf();
                }
                assert(list_parse(s, p, d + 1) == list_parse(s, place(*parser), d + 1)) by {
                    unfold_list_parse(s, p, d + 1);
                }
                assert(list_head(s, b, exprs@) == Some(place(*parser))) by {
                    unfold_list_head(s, b, exprs@);
                }
            } else {
                assert(list_parse(s, p, d + 1) == Parse::Read(c)) by {
                    unfold_list_parse(s, p, d + 1);
                }
                assert(list_head(s, b, exprs@) is None) by {
                    unfold_list_head(s, b, exprs@);
                }
                assert(list_last(s, b, exprs@) == Some(c)) by {
                    unfold_list_last(s, b, exprs@);
                }
                assert(list_reads(s, b, exprs@) == Some(c)) by {
                    unfold_list_reads(s, b, exprs@);
                }
                break;
            }
        }
        parser.leave_nesting();
        proof {
            parser.lemma_wf();
        }
        if parser.cur_kind() != Kind::RightParen {
            let span = (parser.cur_span().0, 1);
            return Err(
                Diag {
                    line: parser.line_number(),
                    span,
                    data: DiagData::Error(Error::BracketNotClosed { kind: BracketKind::Parenthesis }),
                },
            );
        }
        let ghost q = place(*parser);
        parser.next_non_ws_lexeme(false);
        assert(tuple_reads(s, st0, TupleExpr(exprs)) == Some(place(*parser))) by {
            unfold_tuple_reads(s, st0, TupleExpr(exprs));
        }
        Ok(Some(TupleExpr(exprs)))
    }
}

impl TerminalExpr {
    /// A name (with or without arguments), a literal, or a tuple.
    pub fn accept(parser: &mut Parser) -> (r: Result<Option<TerminalExpr>, Diag>)
        requires
            old(parser).wf(),
        ensures
            protocol(*old(parser), *final(parser), r),
            declined(r) <==> !starts_terminal(old(parser).current().kind),
            outcome(r, terminal_parse(old(parser).text(), place(*old(parser)), old(parser).nesting()), *old(parser), *final(parser)),
            r matches Ok(Some(n)) ==> terminal_reads(old(parser).text(), place(*old(parser)), n) == Some(
                place(*final(parser)),
            ),
            r matches Ok(Some(n)) ==> (n matches TerminalExpr::Field(f) && f.args is Some) == (kind_at(
                old(parser).text(),
                old(parser).at(),
            ) == Kind::Word && field_call(old(parser).text(), place(*old(parser)), old(parser).nesting())),
        decreases old(parser).text().len() - old(parser).at(), 3nat,
    {
        let ghost s = parser.text();
        let ghost st0 = place(*parser);
        let ghost d = parser.nesting();
        proof {
            parser.lemma_wf();
        }
        match Field::accept(parser) {
            Err(e) => {
                assert(terminal_parse(s, st0, d) == field_parse(s, st0, d)) by {
                    unfold_terminal_parse(s, st0, d);
                }
                return Err(e);
            },
            Ok(Some(field)) => {
                assert(terminal_parse(s, st0, d) == field_parse(s, st0, d)) by {
                    unfold_terminal_parse(s, st0, d);
                }
                assert(terminal_reads(s, st0, TerminalExpr::Field(field)) == Some(place(*parser))) by {
                    unfold_terminal_reads(s, st0, TerminalExpr::Field(field));
                }
                return Ok(Some(TerminalExpr::Field(field)));
            },
            Ok(None) => {},
        }
        match Literal::accept(parser) {
            Err(e) => return Err(e),
            Ok(Some(lit)) => {
                assert(terminal_parse(s, st0, d) == Parse::Read(place(*parser))) by {
                    unfold_terminal_parse(s, st0, d);
                }
                assert(terminal_reads(s, st0, TerminalExpr::Literal(lit)) == Some(place(*parser))) by {
                    unfold_terminal_reads(s, st0, TerminalExpr::Literal(lit));
                }
                return Ok(Some(TerminalExpr::Literal(lit)));
            },
            Ok(None) => {},
        }
        assert(terminal_parse(s, st0, d) == tuple_parse(s, st0, d)) by {
            unfold_terminal_parse(s, st0, d);
        }
        match TupleExpr::accept(parser) {
            Err(e) => Err(e),
            Ok(Some(tuple)) => {
                assert(terminal_reads(s, st0, TerminalExpr::Tuple(tuple)) == Some(place(*parser))) by {
                    unfold_terminal_reads(s, st0, TerminalExpr::Tuple(tuple));
                }
                Ok(Some(TerminalExpr::Tuple(tuple)))
            },
            Ok(None) => Ok(None),
        }
    }
}

} // verus!
