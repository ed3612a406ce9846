use crate::chars::byte_offset;
use crate::diag::{BracketKind, Diag, DiagData, Error};
use crate::expr::{
    starts_expr, AddAffixedExpr, Expr, Field, MulAffixedExpr, PathExpr, PrefixedExpr,
    TerminalExpr, TupleExpr,
};
use crate::lexeme::Kind;
use crate::syntax::{ends_in_call, starts_statement, ChoStatement, InStatement, Statement};
use crate::lexer::lexeme_bytes;
use crate::parser::{kind_at, next_non_blank, skip_blanks, Parser, MAX_NESTING};
use crate::terminal::{
    at_keyword, ident_reads, ident_scan, literal_reads, place, starts_literal, Keyword, Place,
};
use vstd::prelude::*;

verus! {

broadcast use {vstd::seq::axiom_seq_subrange_decreases, vstd::std_specs::vec::axiom_vec_index_decreases};

/// Why a grammar rule fails.
pub enum Fault {
    /// What the grammar required, in words.
    Expecting(Seq<char>),
    /// A parenthesis has no matching close.
    Unclosed,
    /// Parentheses nest deeper than the limit.
    TooDeep,
}

/// What a grammar rule does from a place: it declines without reading, it
/// fails at a place, or it reads up to a place.
pub enum Parse {
    Declined,
    Failed(Place, Fault),
    Read(Place),
}

/// `d` is the diagnostic of `f` at the place `at`.
pub open spec fn diag_is(s: Seq<char>, at: Place, f: Fault, d: Diag) -> bool {
    &&& d.line as int == at.1
    &&& d.span.0 as int == byte_offset(s, at.0)
    &&& match f {
        Fault::Expecting(what) => d.span.1 as int == lexeme_bytes(s, at.0) && (d.data matches DiagData::Error(
            Error::Expecting { expected },
        ) && expected@ == what),
        Fault::Unclosed => d.span.1 == 1 && d.data == DiagData::Error(
            Error::BracketNotClosed { kind: BracketKind::Parenthesis },
        ),
        Fault::TooDeep => d.span.1 as int == lexeme_bytes(s, at.0) && d.data == DiagData::Error(
            Error::TooDeeplyNested { limit: MAX_NESTING },
        ),
    }
}

/// A rule that gives `r` and moves the parser from `old` to `new` did what
/// `p` says.
pub open spec fn outcome<'a, T>(r: Result<Option<T>, Diag>, p: Parse, old: Parser<'a>, new: Parser<'a>) -> bool {
    match p {
        Parse::Declined => r matches Ok(None),
        Parse::Failed(at, f) => (r matches Err(d) && diag_is(old.text(), at, f, d)),
        Parse::Read(e) => (r matches Ok(Some(_)) && place(new) == e),
    }
}

pub open spec fn in_text(s: Seq<char>, p: Place) -> bool {
    0 <= p.0 <= s.len()
}

/// What the expression rule does from `st`, with `d` brackets open.
pub closed spec fn expr_parse(s: Seq<char>, st: Place, d: nat) -> Parse
    decreases s.len() - st.0, 9nat,
{
    if !in_text(s, st) {
        Parse::Declined
    } else {
        add_parse(s, st, d)
    }
}

pub closed spec fn add_parse(s: Seq<char>, st: Place, d: nat) -> Parse
    decreases s.len() - st.0, 8nat,
{
    if !in_text(s, st) {
        Parse::Declined
    } else {
        match mul_parse(s, st, d) {
            Parse::Read(a) => if st.0 < a.0 <= s.len() {
                add_loop(s, a, d)
            } else {
                Parse::Read(a)
            },
            other => other,
        }
    }
}

/// The rest of a chain of additions after an operand that ends at `a`.
pub closed spec fn add_loop(s: Seq<char>, a: Place, d: nat) -> Parse
    decreases s.len() - a.0, 8nat,
{
    let c = skip_at(s, a, true);
    if kind_at(s, c.0) == Kind::Plus || kind_at(s, c.0) == Kind::Minus {
        let n = past(s, c, true);
        if !(0 <= a.0 < n.0 <= s.len()) {
            Parse::Read(c)
        } else {
            match mul_parse(s, n, d) {
                Parse::Read(b) => if n.0 <= b.0 <= s.len() {
                    add_loop(s, b, d)
                } else {
                    Parse::Read(b)
                },
                Parse::Declined => Parse::Failed(n, Fault::Expecting("an expression after operator"@)),
                other => other,
            }
        }
    } else {
        Parse::Read(c)
    }
}

pub closed spec fn mul_parse(s: Seq<char>, st: Place, d: nat) -> Parse
    decreases s.len() - st.0, 7nat,
{
    if !in_text(s, st) {
        Parse::Declined
    } else {
        match prefix_parse(s, st, d) {
            Parse::Read(a) => if st.0 < a.0 <= s.len() {
                mul_loop(s, a, d)
            } else {
                Parse::Read(a)
            },
            other => other,
        }
    }
}

/// The rest of a chain of products after an operand that ends at `a`.
pub closed spec fn mul_loop(s: Seq<char>, a: Place, d: nat) -> Parse
    decreases s.len() - a.0, 7nat,
{
    let c = skip_at(s, a, true);
    if kind_at(s, c.0) == Kind::Asterisk || kind_at(s, c.0) == Kind::Slash {
        let n = past(s, c, true);
        if !(0 <= a.0 < n.0 <= s.len()) {
            Parse::Read(c)
        } else {
            match prefix_parse(s, n, d) {
                Parse::Read(b) => if n.0 <= b.0 <= s.len() {
                    mul_loop(s, b, d)
                } else {
                    Parse::Read(b)
                },
                Parse::Declined => Parse::Failed(n, Fault::Expecting("an expression after operator"@)),
                other => other,
            }
        }
    } else {
        Parse::Read(c)
    }
}

pub closed spec fn prefix_parse(s: Seq<char>, st: Place, d: nat) -> Parse
    decreases s.len() - st.0, 6nat,
{
    if !in_text(s, st) {
        Parse::Declined
    } else if kind_at(s, st.0) == Kind::Minus {
        let n = past(s, st, true);
        if !(st.0 < n.0 <= s.len()) {
            Parse::Declined
        } else {
            match path_parse(s, n, d) {
                Parse::Declined => Parse::Failed(n, Fault::Expecting("an expression"@)),
                other => other,
            }
        }
    } else {
        path_parse(s, st, d)
    }
}

pub closed spec fn path_parse(s: Seq<char>, st: Place, d: nat) -> Parse
    decreases s.len() - st.0, 5nat,
{
    if !in_text(s, st) {
        Parse::Declined
    } else {
        match terminal_parse(s, st, d) {
            Parse::Read(a) => if st.0 < a.0 <= s.len() {
                path_loop(s, a, d)
            } else {
                Parse::Read(a)
            },
            other => other,
        }
    }
}

/// The rest of a path after a part that ends at `a`.
pub closed spec fn path_loop(s: Seq<char>, a: Place, d: nat) -> Parse
    decreases s.len() - a.0, 5nat,
{
    let c = skip_at(s, a, false);
    if kind_at(s, c.0) == Kind::Period {
        let n = past(s, c, true);
        if !(0 <= a.0 < n.0 <= s.len()) {
            Parse::Read(c)
        } else {
            match field_parse(s, n, d) {
                Parse::Read(b) => if n.0 <= b.0 <= s.len() {
                    path_loop(s, b, d)
                } else {
                    Parse::Read(b)
                },
                Parse::Declined => Parse::Failed(
                    n,
                    Fault::Expecting("a terminal expression after `.`"@),
                ),
                other => other,
            }
        }
    } else {
        Parse::Read(c)
    }
}

pub closed spec fn terminal_parse(s: Seq<char>, st: Place, d: nat) -> Parse
    decreases s.len() - st.0, 4nat,
{
    if !in_text(s, st) {
        Parse::Declined
    } else if kind_at(s, st.0) == Kind::Word {
        field_parse(s, st, d)
    } else if starts_literal(kind_at(s, st.0)) {
        Parse::Read(advance_at(s, st))
    } else {
        tuple_parse(s, st, d)
    }
}

pub closed spec fn field_parse(s: Seq<char>, st: Place, d: nat) -> Parse
    decreases s.len() - st.0, 3nat,
{
    if !in_text(s, st) || kind_at(s, st.0) != Kind::Word {
        Parse::Declined
    } else {
        let (j, l, e) = ident_scan(s, st.0, st.1);
        let b = skip_at(s, (j, l), false);
        if !(st.0 <= b.0 <= s.len()) {
            Parse::Declined
        } else {
            match tuple_parse(s, b, d) {
                Parse::Declined => Parse::Read(b),
                other => other,
            }
        }
    }
}

pub closed spec fn tuple_parse(s: Seq<char>, st: Place, d: nat) -> Parse
    decreases s.len() - st.0, 2nat,
{
    if !in_text(s, st) || kind_at(s, st.0) != Kind::LeftParen {
        Parse::Declined
    } else if d >= MAX_NESTING {
        Parse::Failed(st, Fault::TooDeep)
    } else {
        let b = past(s, st, true);
        if !(st.0 < b.0 <= s.len()) {
            Parse::Declined
        } else {
            match list_parse(s, b, d + 1) {
                Parse::Read(q) => if kind_at(s, q.0) == Kind::RightParen {
                    Parse::Read(past(s, q, false))
                } else {
                    Parse::Failed(q, Fault::Unclosed)
                },
                other => other,
            }
        }
    }
}

/// The elements of a tuple from `p`: where the parser stands once no
/// further element follows.
pub closed spec fn list_parse(s: Seq<char>, p: Place, d: nat) -> Parse
    decreases s.len() - p.0, 10nat,
{
    if !in_text(s, p) {
        Parse::Read(p)
    } else {
        match expr_parse(s, p, d) {
            Parse::Declined => Parse::Read(p),
            Parse::Read(a) => {
                let c = skip_at(s, a, true);
                if kind_at(s, c.0) == Kind::Comma {
                    let n = past(s, c, true);
                    if p.0 < n.0 <= s.len() {
                        list_parse(s, n, d)
                    } else {
                        Parse::Read(c)
                    }
                } else {
                    Parse::Read(c)
                }
            },
            other => other,
        }
    }
}

pub open spec fn advance_at(s: Seq<char>, st: Place) -> Place {
    crate::parser::advance(s, st.0, st.1)
}

pub open spec fn skip_at(s: Seq<char>, st: Place, including_eol: bool) -> Place {
    skip_blanks(s, st.0, st.1, including_eol)
}

pub open spec fn past(s: Seq<char>, st: Place, including_eol: bool) -> Place {
    next_non_blank(s, st.0, st.1, including_eol)
}

/// Where the parser stands after reading the expression `e` from `st`, if
/// `e` is the expression that the grammar reads there. The functions below
/// do the same for each kind of node; those named `..._chain` stop right
/// after the last operand, before the blanks that end the chain.
pub closed spec fn expr_reads(s: Seq<char>, st: Place, e: Expr) -> Option<Place>
    decreases e, 0nat,
{
    add_full(s, st, e.0)
}

pub closed spec fn add_full(s: Seq<char>, st: Place, e: AddAffixedExpr) -> Option<Place>
    decreases e, 1nat,
{
    match add_chain(s, st, e) {
        None => None,
        Some(a) => {
            let c = skip_at(s, a, true);
            if kind_at(s, c.0) != Kind::Plus && kind_at(s, c.0) != Kind::Minus {
                Some(c)
            } else {
                None
            }
        },
    }
}

pub closed spec fn add_chain(s: Seq<char>, st: Place, e: AddAffixedExpr) -> Option<Place>
    decreases e, 0nat,
{
    match e.lhs {
        None => if e.rhs.0 {
            mul_full(s, st, e.rhs.1)
        } else {
            None
        },
        Some(l) => match add_chain(s, st, *l) {
            None => None,
            Some(a) => {
                let c = skip_at(s, a, true);
                if kind_at(s, c.0) == (if e.rhs.0 {
                    Kind::Plus
                } else {
                    Kind::Minus
                }) {
                    mul_full(s, past(s, c, true), e.rhs.1)
                } else {
                    None
                }
            },
        },
    }
}

pub closed spec fn mul_full(s: Seq<char>, st: Place, e: MulAffixedExpr) -> Option<Place>
    decreases e, 1nat,
{
    match mul_chain(s, st, e) {
        None => None,
        Some(a) => {
            let c = skip_at(s, a, true);
            if kind_at(s, c.0) != Kind::Asterisk && kind_at(s, c.0) != Kind::Slash {
                Some(c)
            } else {
                None
            }
        },
    }
}

pub closed spec fn mul_chain(s: Seq<char>, st: Place, e: MulAffixedExpr) -> Option<Place>
    decreases e, 0nat,
{
    match e.lhs {
        None => if e.rhs.0 {
            prefix_reads(s, st, e.rhs.1)
        } else {
            None
        },
        Some(l) => match mul_chain(s, st, *l) {
            None => None,
            Some(a) => {
                let c = skip_at(s, a, true);
                if kind_at(s, c.0) == (if e.rhs.0 {
                    Kind::Asterisk
                } else {
                    Kind::Slash
                }) {
                    prefix_reads(s, past(s, c, true), e.rhs.1)
                } else {
                    None
                }
            },
        },
    }
}

pub closed spec fn prefix_reads(s: Seq<char>, st: Place, p: PrefixedExpr) -> Option<Place>
    decreases p, 0nat,
{
    match p.prefix {
        Some(_) => if kind_at(s, st.0) == Kind::Minus {
            path_full(s, past(s, st, true), p.expr)
        } else {
            None
        },
        None => if kind_at(s, st.0) != Kind::Minus {
            path_full(s, st, p.expr)
        } else {
            None
        },
    }
}

pub closed spec fn path_full(s: Seq<char>, st: Place, p: PathExpr) -> Option<Place>
    decreases p, 1nat,
{
    match path_chain(s, st, p) {
        None => None,
        Some(a) => {
            let c = skip_at(s, a, false);
            if kind_at(s, c.0) != Kind::Period {
                Some(c)
            } else {
                None
            }
        },
    }
}

pub closed spec fn path_chain(s: Seq<char>, st: Place, p: PathExpr) -> Option<Place>
    decreases p, 0nat,
{
    match p {
        PathExpr::Root(t) => terminal_reads(s, st, t),
        PathExpr::WithFields { lhs, rhs } => match path_chain(s, st, *lhs) {
            None => None,
            Some(a) => {
                let c = skip_at(s, a, false);
                if kind_at(s, c.0) == Kind::Period {
                    field_reads(s, past(s, c, true), rhs)
                } else {
                    None
                }
            },
        },
    }
}

pub closed spec fn terminal_reads(s: Seq<char>, st: Place, t: TerminalExpr) -> Option<Place>
    decreases t, 0nat,
{
    match t {
        TerminalExpr::Field(f) => field_reads(s, st, f),
        TerminalExpr::Literal(l) => literal_reads(s, st, l),
        TerminalExpr::Tuple(u) => tuple_reads(s, st, u),
    }
}

pub closed spec fn field_reads(s: Seq<char>, st: Place, f: Field) -> Option<Place>
    decreases f, 0nat,
{
    match ident_reads(s, st, f.name) {
        None => None,
        Some(a) => {
            let b = skip_at(s, a, false);
            match f.args {
                None => if kind_at(s, b.0) != Kind::LeftParen {
                    Some(b)
                } else {
                    None
                },
                Some(t) => tuple_reads(s, b, t),
            }
        },
    }
}

pub closed spec fn tuple_reads(s: Seq<char>, st: Place, t: TupleExpr) -> Option<Place>
    decreases t, 0nat,
{
    if kind_at(s, st.0) != Kind::LeftParen {
        None
    } else {
        match list_reads(s, past(s, st, true), t.0@) {
            None => None,
            Some(c) => if kind_at(s, c.0) == Kind::RightParen {
                Some(past(s, c, false))
            } else {
                None
            },
        }
    }
}

/// Where the parser stands after the elements `es` of a tuple, each taken
/// with the comma after it.
pub closed spec fn list_head(s: Seq<char>, st: Place, es: Seq<Expr>) -> Option<Place>
    decreases es, 0nat,
{
    if es.len() == 0 {
        Some(st)
    } else {
        match list_head(s, st, es.drop_last()) {
            None => None,
            Some(p) => match expr_reads(s, p, es.last()) {
                None => None,
                Some(a) => {
                    let c = skip_at(s, a, true);
                    if kind_at(s, c.0) == Kind::Comma {
                        Some(past(s, c, true))
                    } else {
                        None
                    }
                },
            },
        }
    }
}

/// Where the parser stands after the elements `es` of a tuple whose last
/// element has no comma after it.
pub closed spec fn list_last(s: Seq<char>, st: Place, es: Seq<Expr>) -> Option<Place>
    decreases es, 0nat,
{
    if es.len() == 0 {
        None
    } else {
        match list_head(s, st, es.drop_last()) {
            None => None,
            Some(p) => match expr_reads(s, p, es.last()) {
                None => None,
                Some(a) => {
                    let c = skip_at(s, a, true);
                    if kind_at(s, c.0) != Kind::Comma {
                        Some(c)
                    } else {
                        None
                    }
                },
            },
        }
    }
}

/// Where the parser stands after the elements `es` of a tuple, before its
/// closing parenthesis.
pub closed spec fn list_reads(s: Seq<char>, st: Place, es: Seq<Expr>) -> Option<Place>
    decreases es, 1nat,
{
    match list_head(s, st, es) {
        Some(p) => if !starts_expr(kind_at(s, p.0)) {
            Some(p)
        } else {
            list_last(s, st, es)
        },
        None => list_last(s, st, es),
    }
}


pub proof fn unfold_expr_parse(s: Seq<char>, st: Place, d: nat)
    ensures
        expr_parse(s, st, d) == ({
    if !in_text(s, st) {
        Parse::Declined
    } else {
        add_parse(s, st, d)
    }
}),
{
}

pub proof fn unfold_add_parse(s: Seq<char>, st: Place, d: nat)
    ensures
        add_parse(s, st, d) == ({
    if !in_text(s, st) {
        Parse::Declined
    } else {
        match mul_parse(s, st, d) {
            Parse::Read(a) => if st.0 < a.0 <= s.len() {
                add_loop(s, a, d)
            } else {
                Parse::Read(a)
            },
            other => other,
        }
    }
}),
{
}

pub proof fn unfold_add_loop(s: Seq<char>, a: Place, d: nat)
    ensures
        add_loop(s, a, d) == ({
    let c = skip_at(s, a, true);
    if kind_at(s, c.0) == Kind::Plus || kind_at(s, c.0) == Kind::Minus {
        let n = past(s, c, true);
        if !(0 <= a.0 < n.0 <= s.len()) {
            Parse::Read(c)
        } else {
            match mul_parse(s, n, d) {
                Parse::Read(b) => if n.0 <= b.0 <= s.len() {
                    add_loop(s, b, d)
                } else {
                    Parse::Read(b)
                },
                Parse::Declined => Parse::Failed(n, Fault::Expecting("an expression after operator"@)),
                other => other,
            }
        }
    } else {
        Parse::Read(c)
    }
}),
{
}

pub proof fn unfold_mul_parse(s: Seq<char>, st: Place, d: nat)
    ensures
        mul_parse(s, st, d) == ({
    if !in_text(s, st) {
        Parse::Declined
    } else {
        match prefix_parse(s, st, d) {
            Parse::Read(a) => if st.0 < a.0 <= s.len() {
                mul_loop(s, a, d)
            } else {
                Parse::Read(a)
            },
            other => other,
        }
    }
}),
{
}

pub proof fn unfold_mul_loop(s: Seq<char>, a: Place, d: nat)
    ensures
        mul_loop(s, a, d) == ({
    let c = skip_at(s, a, true);
    if kind_at(s, c.0) == Kind::Asterisk || kind_at(s, c.0) == Kind::Slash {
        let n = past(s, c, true);
        if !(0 <= a.0 < n.0 <= s.len()) {
            Parse::Read(c)
        } else {
            match prefix_parse(s, n, d) {
                Parse::Read(b) => if n.0 <= b.0 <= s.len() {
                    mul_loop(s, b, d)
                } else {
                    Parse::Read(b)
                },
                Parse::Declined => Parse::Failed(n, Fault::Expecting("an expression after operator"@)),
                other => other,
            }
        }
    } else {
        Parse::Read(c)
    }
}),
{
}

pub proof fn unfold_prefix_parse(s: Seq<char>, st: Place, d: nat)
    ensures
        prefix_parse(s, st, d) == ({
    if !in_text(s, st) {
        Parse::Declined
    } else if kind_at(s, st.0) == Kind::Minus {
        let n = past(s, st, true);
        if !(st.0 < n.0 <= s.len()) {
            Parse::Declined
        } else {
            match path_parse(s, n, d) {
                Parse::Declined => Parse::Failed(n, Fault::Expecting("an expression"@)),
                other => other,
            }
        }
    } else {
        path_parse(s, st, d)
    }
}),
{
}

pub proof fn unfold_path_parse(s: Seq<char>, st: Place, d: nat)
    ensures
        path_parse(s, st, d) == ({
    if !in_text(s, st) {
        Parse::Declined
    } else {
        match terminal_parse(s, st, d) {
            Parse::Read(a) => if st.0 < a.0 <= s.len() {
                path_loop(s, a, d)
            } else {
                Parse::Read(a)
            },
            other => other,
        }
    }
}),
{
}

pub proof fn unfold_path_loop(s: Seq<char>, a: Place, d: nat)
    ensures
        path_loop(s, a, d) == ({
    let c = skip_at(s, a, false);
    if kind_at(s, c.0) == Kind::Period {
        let n = past(s, c, true);
        if !(0 <= a.0 < n.0 <= s.len()) {
            Parse::Read(c)
        } else {
            match field_parse(s, n, d) {
                Parse::Read(b) => if n.0 <= b.0 <= s.len() {
                    path_loop(s, b, d)
                } else {
                    Parse::Read(b)
                },
                Parse::Declined => Parse::Failed(
                    n,
                    Fault::Expecting("a terminal expression after `.`"@),
                ),
                other => other,
            }
        }
    } else {
        Parse::Read(c)
    }
}),
{
}

pub proof fn unfold_terminal_parse(s: Seq<char>, st: Place, d: nat)
    ensures
        terminal_parse(s, st, d) == ({
    if !in_text(s, st) {
        Parse::Declined
    } else if kind_at(s, st.0) == Kind::Word {
        field_parse(s, st, d)
    } else if starts_literal(kind_at(s, st.0)) {
        Parse::Read(advance_at(s, st))
    } else {
        tuple_parse(s, st, d)
    }
}),
{
}

pub proof fn unfold_field_parse(s: Seq<char>, st: Place, d: nat)
    ensures
        field_parse(s, st, d) == ({
    if !in_text(s, st) || kind_at(s, st.0) != Kind::Word {
        Parse::Declined
    } else {
        let (j, l, e) = ident_scan(s, st.0, st.1);
        let b = skip_at(s, (j, l), false);
        if !(st.0 <= b.0 <= s.len()) {
            Parse::Declined
        } else {
            match tuple_parse(s, b, d) {
                Parse::Declined => Parse::Read(b),
                other => other,
            }
        }
    }
}),
{
}

pub proof fn unfold_tuple_parse(s: Seq<char>, st: Place, d: nat)
    ensures
        tuple_parse(s, st, d) == ({
    if !in_text(s, st) || kind_at(s, st.0) != Kind::LeftParen {
        Parse::Declined
    } else if d >= MAX_NESTING {
        Parse::Failed(st, Fault::TooDeep)
    } else {
        let b = past(s, st, true);
        if !(st.0 < b.0 <= s.len()) {
            Parse::Declined
        } else {
            match list_parse(s, b, d + 1) {
                Parse::Read(q) => if kind_at(s, q.0) == Kind::RightParen {
                    Parse::Read(past(s, q, false))
                } else {
                    Parse::Failed(q, Fault::Unclosed)
                },
                other => other,
            }
        }
    }
}),
{
}

pub proof fn unfold_list_parse(s: Seq<char>, p: Place, d: nat)
    ensures
        list_parse(s, p, d) == ({
    if !in_text(s, p) {
        Parse::Read(p)
    } else {
        match expr_parse(s, p, d) {
            Parse::Declined => Parse::Read(p),
            Parse::Read(a) => {
                let c = skip_at(s, a, true);
                if kind_at(s, c.0) == Kind::Comma {
                    let n = past(s, c, true);
                    if p.0 < n.0 <= s.len() {
                        list_parse(s, n, d)
                    } else {
                        Parse::Read(c)
                    }
                } else {
                    Parse::Read(c)
                }
            },
            other => other,
        }
    }
}),
{
}

pub proof fn unfold_expr_reads(s: Seq<char>, st: Place, e: Expr)
    ensures
        expr_reads(s, st, e) == ({
    add_full(s, st, e.0)
}),
{
}

pub proof fn unfold_add_full(s: Seq<char>, st: Place, e: AddAffixedExpr)
    ensures
        add_full(s, st, e) == ({
    match add_chain(s, st, e) {
        None => None,
        Some(a) => {
            let c = skip_at(s, a, true);
            if kind_at(s, c.0) != Kind::Plus && kind_at(s, c.0) != Kind::Minus {
                Some(c)
            } else {
                None
            }
        },
    }
}),
{
}

pub proof fn unfold_add_chain(s: Seq<char>, st: Place, e: AddAffixedExpr)
    ensures
        add_chain(s, st, e) == ({
    match e.lhs {
        None => if e.rhs.0 {
            mul_full(s, st, e.rhs.1)
        } else {
            None
        },
        Some(l) => match add_chain(s, st, *l) {
            None => None,
            Some(a) => {
                let c = skip_at(s, a, true);
                if kind_at(s, c.0) == (if e.rhs.0 {
                    Kind::Plus
                } else {
                    Kind::Minus
                }) {
                    mul_full(s, past(s, c, true), e.rhs.1)
                } else {
                    None
                }
            },
        },
    }
}),
{
}

pub proof fn unfold_mul_full(s: Seq<char>, st: Place, e: MulAffixedExpr)
    ensures
        mul_full(s, st, e) == ({
    match mul_chain(s, st, e) {
        None => None,
        Some(a) => {
            let c = skip_at(s, a, true);
            if kind_at(s, c.0) != Kind::Asterisk && kind_at(s, c.0) != Kind::Slash {
                Some(c)
            } else {
                None
            }
        },
    }
}),
{
}

pub proof fn unfold_mul_chain(s: Seq<char>, st: Place, e: MulAffixedExpr)
    ensures
        mul_chain(s, st, e) == ({
    match e.lhs {
        None => if e.rhs.0 {
            prefix_reads(s, st, e.rhs.1)
        } else {
            None
        },
        Some(l) => match mul_chain(s, st, *l) {
            None => None,
            Some(a) => {
                let c = skip_at(s, a, true);
                if kind_at(s, c.0) == (if e.rhs.0 {
                    Kind::Asterisk
                } else {
                    Kind::Slash
                }) {
                    prefix_reads(s, past(s, c, true), e.rhs.1)
                } else {
                    None
                }
            },
        },
    }
}),
{
}

pub proof fn unfold_prefix_reads(s: Seq<char>, st: Place, p: PrefixedExpr)
    ensures
        prefix_reads(s, st, p) == ({
    match p.prefix {
        Some(_) => if kind_at(s, st.0) == Kind::Minus {
            path_full(s, past(s, st, true), p.expr)
        } else {
            None
        },
        None => if kind_at(s, st.0) != Kind::Minus {
            path_full(s, st, p.expr)
        } else {
            None
        },
    }
}),
{
}

pub proof fn unfold_path_full(s: Seq<char>, st: Place, p: PathExpr)
    ensures
        path_full(s, st, p) == ({
    match path_chain(s, st, p) {
        None => None,
        Some(a) => {
            let c = skip_at(s, a, false);
            if kind_at(s, c.0) != Kind::Period {
                Some(c)
            } else {
                None
            }
        },
    }
}),
{
}

pub proof fn unfold_path_chain(s: Seq<char>, st: Place, p: PathExpr)
    ensures
        path_chain(s, st, p) == ({
    match p {
        PathExpr::Root(t) => terminal_reads(s, st, t),
        PathExpr::WithFields { lhs, rhs } => match path_chain(s, st, *lhs) {
            None => None,
            Some(a) => {
                let c = skip_at(s, a, false);
                if kind_at(s, c.0) == Kind::Period {
                    field_reads(s, past(s, c, true), rhs)
                } else {
                    None
                }
            },
        },
    }
}),
{
}

pub proof fn unfold_terminal_reads(s: Seq<char>, st: Place, t: TerminalExpr)
    ensures
        terminal_reads(s, st, t) == ({
    match t {
        TerminalExpr::Field(f) => field_reads(s, st, f),
        TerminalExpr::Literal(l) => literal_reads(s, st, l),
        TerminalExpr::Tuple(u) => tuple_reads(s, st, u),
    }
}),
{
}

pub proof fn unfold_field_reads(s: Seq<char>, st: Place, f: Field)
    ensures
        field_reads(s, st, f) == ({
    match ident_reads(s, st, f.name) {
        None => None,
        Some(a) => {
            let b = skip_at(s, a, false);
            match f.args {
                None => if kind_at(s, b.0) != Kind::LeftParen {
                    Some(b)
                } else {
                    None
                },
                Some(t) => tuple_reads(s, b, t),
            }
        },
    }
}),
{
}

pub proof fn unfold_tuple_reads(s: Seq<char>, st: Place, t: TupleExpr)
    ensures
        tuple_reads(s, st, t) == ({
    if kind_at(s, st.0) != Kind::LeftParen {
        None
    } else {
        match list_reads(s, past(s, st, true), t.0@) {
            None => None,
            Some(c) => if kind_at(s, c.0) == Kind::RightParen {
                Some(past(s, c, false))
            } else {
                None
            },
        }
    }
}),
{
}

pub proof fn unfold_list_head(s: Seq<char>, st: Place, es: Seq<Expr>)
    ensures
        list_head(s, st, es) == ({
    if es.len() == 0 {
        Some(st)
    } else {
        match list_head(s, st, es.drop_last()) {
            None => None,
            Some(p) => match expr_reads(s, p, es.last()) {
                None => None,
                Some(a) => {
                    let c = skip_at(s, a, true);
                    if kind_at(s, c.0) == Kind::Comma {
                        Some(past(s, c, true))
                    } else {
                        None
                    }
                },
            },
        }
    }
}),
{
}

pub proof fn unfold_list_last(s: Seq<char>, st: Place, es: Seq<Expr>)
    ensures
        list_last(s, st, es) == ({
    if es.len() == 0 {
        None
    } else {
        match list_head(s, st, es.drop_last()) {
            None => None,
            Some(p) => match expr_reads(s, p, es.last()) {
                None => None,
                Some(a) => {
                    let c = skip_at(s, a, true);
                    if kind_at(s, c.0) != Kind::Comma {
                        Some(c)
                    } else {
                        None
                    }
                },
            },
        }
    }
}),
{
}

pub proof fn unfold_list_reads(s: Seq<char>, st: Place, es: Seq<Expr>)
    ensures
        list_reads(s, st, es) == ({
    match list_head(s, st, es) {
        Some(p) => if !starts_expr(kind_at(s, p.0)) {
            Some(p)
        } else {
            list_last(s, st, es)
        },
        None => list_last(s, st, es),
    }
}),
{
}

/// Whether the name read from `st` (a field) has arguments.
pub open spec fn field_call(s: Seq<char>, st: Place, d: nat) -> bool {
    let (j, l, e) = ident_scan(s, st.0, st.1);
    tuple_parse(s, skip_at(s, (j, l), false), d) is Read
}

/// Whether the path read from `st` ends in a call.
pub closed spec fn path_call(s: Seq<char>, st: Place, d: nat) -> bool {
    match terminal_parse(s, st, d) {
        Parse::Read(a) => if st.0 < a.0 <= s.len() {
            path_loop_call(s, a, kind_at(s, st.0) == Kind::Word && field_call(s, st, d), d)
        } else {
            false
        },
        _ => false,
    }
}

/// Whether the rest of a path after a part that ends at `a` ends in a
/// call; `last` says whether that part was one.
pub closed spec fn path_loop_call(s: Seq<char>, a: Place, last: bool, d: nat) -> bool
    decreases s.len() - a.0,
{
    let c = skip_at(s, a, false);
    if kind_at(s, c.0) == Kind::Period {
        let n = past(s, c, true);
        if !(0 <= a.0 < n.0 <= s.len()) {
            last
        } else {
            match field_parse(s, n, d) {
                Parse::Read(b) => if n.0 <= b.0 <= s.len() {
                    path_loop_call(s, b, field_call(s, n, d), d)
                } else {
                    last
                },
                _ => last,
            }
        }
    } else {
        last
    }
}

pub proof fn unfold_path_call(s: Seq<char>, st: Place, d: nat)
    ensures
        path_call(s, st, d) == match terminal_parse(s, st, d) {
            Parse::Read(a) => if st.0 < a.0 <= s.len() {
                path_loop_call(s, a, kind_at(s, st.0) == Kind::Word && field_call(s, st, d), d)
            } else {
                false
            },
            _ => false,
        },
{
}

pub proof fn unfold_path_loop_call(s: Seq<char>, a: Place, last: bool, d: nat)
    ensures
        path_loop_call(s, a, last, d) == ({
            let c = skip_at(s, a, false);
            if kind_at(s, c.0) == Kind::Period {
                let n = past(s, c, true);
                if !(0 <= a.0 < n.0 <= s.len()) {
                    last
                } else {
                    match field_parse(s, n, d) {
                        Parse::Read(b) => if n.0 <= b.0 <= s.len() {
                            path_loop_call(s, b, field_call(s, n, d), d)
                        } else {
                            last
                        },
                        _ => last,
                    }
                }
            } else {
                last
            }
        }),
{
}

/// What the declaration rule does from `st`.
pub closed spec fn cho_parse(s: Seq<char>, st: Place, d: nat) -> Parse {
    if !in_text(s, st) || !at_keyword(s, st.0, Keyword::Cho) {
        Parse::Declined
    } else {
        let n = past(s, st, true);
        if kind_at(s, n.0) != Kind::Word {
            Parse::Failed(n, Fault::Expecting("the left-hand side for declaration"@))
        } else {
            let (j, l, e) = ident_scan(s, n.0, n.1);
            let b = skip_at(s, (j, l), false);
            if kind_at(s, b.0) == Kind::Equal {
                let m = past(s, b, true);
                match expr_parse(s, m, d) {
                    Parse::Declined => Parse::Failed(
                        m,
                        Fault::Expecting("the right-hand side expression for assignment"@),
                    ),
                    other => other,
                }
            } else {
                Parse::Read(b)
            }
        }
    }
}

/// Where the parser stands after reading the declaration `c` from `st`, if
/// `c` is the declaration that the grammar reads there.
pub closed spec fn cho_reads(s: Seq<char>, st: Place, c: ChoStatement) -> Option<Place> {
    if !at_keyword(s, st.0, Keyword::Cho) {
        None
    } else {
        match ident_reads(s, past(s, st, true), c.lhs) {
            None => None,
            Some(a) => {
                let b = skip_at(s, a, false);
                match c.rhs {
                    None => if kind_at(s, b.0) != Kind::Equal {
                        Some(b)
                    } else {
                        None
                    },
                    Some(e) => if kind_at(s, b.0) == Kind::Equal {
                        expr_reads(s, past(s, b, true), e)
                    } else {
                        None
                    },
                }
            },
        }
    }
}

/// What the print rule does from `st`.
pub closed spec fn in_parse(s: Seq<char>, st: Place, d: nat) -> Parse {
    if !in_text(s, st) || !at_keyword(s, st.0, Keyword::Trong) {
        Parse::Declined
    } else {
        let m = past(s, st, true);
        match expr_parse(s, m, d) {
            Parse::Declined => Parse::Failed(m, Fault::Expecting("an expression to print"@)),
            other => other,
        }
    }
}

pub closed spec fn in_reads(s: Seq<char>, st: Place, p: InStatement) -> Option<Place> {
    if !at_keyword(s, st.0, Keyword::Trong) {
        None
    } else {
        expr_reads(s, past(s, st, true), p.expr)
    }
}

/// What the invocation rule does from `st`: a path that does not end in a
/// call is no statement.
pub closed spec fn invocation_parse(s: Seq<char>, st: Place, d: nat) -> Parse {
    match path_parse(s, st, d) {
        Parse::Read(q) => if path_call(s, st, d) {
            Parse::Read(q)
        } else {
            Parse::Failed(q, Fault::Expecting("a statement"@))
        },
        other => other,
    }
}

/// What the statement rule does from `st`: a declaration, a print, or an
/// invocation, tried in that order.
pub closed spec fn statement_parse(s: Seq<char>, st: Place, d: nat) -> Parse {
    if !in_text(s, st) {
        Parse::Declined
    } else if at_keyword(s, st.0, Keyword::Cho) {
        cho_parse(s, st, d)
    } else if at_keyword(s, st.0, Keyword::Trong) {
        in_parse(s, st, d)
    } else {
        invocation_parse(s, st, d)
    }
}

pub closed spec fn statement_reads(s: Seq<char>, st: Place, x: Statement) -> Option<Place> {
    match x {
        Statement::Cho(c) => cho_reads(s, st, c),
        Statement::In(p) => if !at_keyword(s, st.0, Keyword::Cho) {
            in_reads(s, st, p)
        } else {
            None
        },
        Statement::Invocation(i) => if !at_keyword(s, st.0, Keyword::Cho) && !at_keyword(
            s,
            st.0,
            Keyword::Trong,
        ) && ends_in_call(i.0) {
            path_full(s, st, i.0)
        } else {
            None
        },
    }
}

/// What the programme rule does from `st`: statements one after another,
/// blanks and line ends between them, up to the first place where no
/// statement starts; the first statement that fails stops it.
pub closed spec fn programme_parse(s: Seq<char>, st: Place, d: nat) -> Parse
    decreases s.len() - st.0,
{
    let q = skip_at(s, st, true);
    if !(0 <= st.0 <= q.0 <= s.len()) {
        Parse::Read(q)
    } else {
        match statement_parse(s, q, d) {
            Parse::Declined => Parse::Read(q),
            Parse::Read(e) => if q.0 < e.0 <= s.len() {
                programme_parse(s, e, d)
            } else {
                Parse::Read(e)
            },
            other => other,
        }
    }
}

/// Where the parser stands after the statements `stmts`, read one after
/// another from `st`, the statement `i` starting on line `lines[i]`.
pub closed spec fn statements_read(s: Seq<char>, st: Place, stmts: Seq<Statement>, lines: Seq<u32>) -> Option<Place>
    decreases stmts.len(),
{
    if stmts.len() != lines.len() {
        None
    } else if stmts.len() == 0 {
        Some(st)
    } else {
        match statements_read(s, st, stmts.drop_last(), lines.drop_last()) {
            None => None,
            Some(p) => {
                let q = skip_at(s, p, true);
                if lines.last() as int == q.1 {
                    statement_reads(s, q, stmts.last())
                } else {
                    None
                }
            },
        }
    }
}

/// Where the parser stands after reading the programme of `stmts` and
/// `lines` from `st`, if that is the programme that the grammar reads there.
pub closed spec fn programme_reads(s: Seq<char>, st: Place, stmts: Seq<Statement>, lines: Seq<u32>) -> Option<Place> {
    match statements_read(s, st, stmts, lines) {
        None => None,
        Some(p) => {
            let q = skip_at(s, p, true);
            if !starts_statement(s, q.0, kind_at(s, q.0)) {
                Some(q)
            } else {
                None
            }
        },
    }
}

pub proof fn unfold_cho_parse(s: Seq<char>, st: Place, d: nat)
    ensures
        cho_parse(s, st, d) == ({
    if !in_text(s, st) || !at_keyword(s, st.0, Keyword::Cho) {
        Parse::Declined
    } else {
        let n = past(s, st, true);
        if kind_at(s, n.0) != Kind::Word {
            Parse::Failed(n, Fault::Expecting("the left-hand side for declaration"@))
        } else {
            let (j, l, e) = ident_scan(s, n.0, n.1);
            let b = skip_at(s, (j, l), false);
            if kind_at(s, b.0) == Kind::Equal {
                let m = past(s, b, true);
                match expr_parse(s, m, d) {
                    Parse::Declined => Parse::Failed(
                        m,
                        Fault::Expecting("the right-hand side expression for assignment"@),
                    ),
                    other => other,
                }
            } else {
                Parse::Read(b)
            }
        }
    }
}),
{
}

pub proof fn unfold_cho_reads(s: Seq<char>, st: Place, c: ChoStatement)
    ensures
        cho_reads(s, st, c) == ({
    if !at_keyword(s, st.0, Keyword::Cho) {
        None
    } else {
        match ident_reads(s, past(s, st, true), c.lhs) {
            None => None,
            Some(a) => {
                let b = skip_at(s, a, false);
                match c.rhs {
                    None => if kind_at(s, b.0) != Kind::Equal {
                        Some(b)
                    } else {
                        None
                    },
                    Some(e) => if kind_at(s, b.0) == Kind::Equal {
                        expr_reads(s, past(s, b, true), e)
                    } else {
                        None
                    },
                }
            },
        }
    }
}),
{
}

pub proof fn unfold_in_parse(s: Seq<char>, st: Place, d: nat)
    ensures
        in_parse(s, st, d) == ({
    if !in_text(s, st) || !at_keyword(s, st.0, Keyword::Trong) {
        Parse::Declined
    } else {
        let m = past(s, st, true);
        match expr_parse(s, m, d) {
            Parse::Declined => Parse::Failed(m, Fault::Expecting("an expression to print"@)),
            other => other,
        }
    }
}),
{
}

pub proof fn unfold_in_reads(s: Seq<char>, st: Place, p: InStatement)
    ensures
        in_reads(s, st, p) == ({
    if !at_keyword(s, st.0, Keyword::Trong) {
        None
    } else {
        expr_reads(s, past(s, st, true), p.expr)
    }
}),
{
}

pub proof fn unfold_invocation_parse(s: Seq<char>, st: Place, d: nat)
    ensures
        invocation_parse(s, st, d) == ({
    match path_parse(s, st, d) {
        Parse::Read(q) => if path_call(s, st, d) {
            Parse::Read(q)
        } else {
            Parse::Failed(q, Fault::Expecting("a statement"@))
        },
        other => other,
    }
}),
{
}

pub proof fn unfold_statement_parse(s: Seq<char>, st: Place, d: nat)
    ensures
        statement_parse(s, st, d) == ({
    if !in_text(s, st) {
        Parse::Declined
    } else if at_keyword(s, st.0, Keyword::Cho) {
        cho_parse(s, st, d)
    } else if at_keyword(s, st.0, Keyword::Trong) {
        in_parse(s, st, d)
    } else {
        invocation_parse(s, st, d)
    }
}),
{
}

pub proof fn unfold_statement_reads(s: Seq<char>, st: Place, x: Statement)
    ensures
        statement_reads(s, st, x) == ({
    match x {
        Statement::Cho(c) => cho_reads(s, st, c),
        Statement::In(p) => if !at_keyword(s, st.0, Keyword::Cho) {
            in_reads(s, st, p)
        } else {
            None
        },
        Statement::Invocation(i) => if !at_keyword(s, st.0, Keyword::Cho) && !at_keyword(
            s,
            st.0,
            Keyword::Trong,
        ) && ends_in_call(i.0) {
            path_full(s, st, i.0)
        } else {
            None
        },
    }
}),
{
}

pub proof fn unfold_programme_parse(s: Seq<char>, st: Place, d: nat)
    ensures
        programme_parse(s, st, d) == ({
    let q = skip_at(s, st, true);
    if !(0 <= st.0 <= q.0 <= s.len()) {
        Parse::Read(q)
    } else {
        match statement_parse(s, q, d) {
            Parse::Declined => Parse::Read(q),
            Parse::Read(e) => if q.0 < e.0 <= s.len() {
                programme_parse(s, e, d)
            } else {
                Parse::Read(e)
            },
            other => other,
        }
    }
}),
{
}

pub proof fn unfold_statements_read(s: Seq<char>, st: Place, stmts: Seq<Statement>, lines: Seq<u32>)
    ensures
        statements_read(s, st, stmts, lines) == ({
    if stmts.len() != lines.len() {
        None
    } else if stmts.len() == 0 {
        Some(st)
    } else {
        match statements_read(s, st, stmts.drop_last(), lines.drop_last()) {
            None => None,
            Some(p) => {
                let q = skip_at(s, p, true);
                if lines.last() as int == q.1 {
                    statement_reads(s, q, stmts.last())
                } else {
                    None
                }
            },
        }
    }
}),
{
}

pub proof fn unfold_programme_reads(s: Seq<char>, st: Place, stmts: Seq<Statement>, lines: Seq<u32>)
    ensures
        programme_reads(s, st, stmts, lines) == ({
    match statements_read(s, st, stmts, lines) {
        None => None,
        Some(p) => {
            let q = skip_at(s, p, true);
            if !starts_statement(s, q.0, kind_at(s, q.0)) {
                Some(q)
            } else {
                None
            }
        },
    }
}),
{
}

} // verus!
