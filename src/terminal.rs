use crate::chars::byte_offset;
use crate::diag::Diag;
use crate::lexeme::Kind;
use crate::lexer::{lemma_lex_at_bounds, lexeme_bytes};
use crate::parser::{advance, kind_at, next_index, next_non_blank, Parser};
use vstd::prelude::*;

verus! {

/// A byte span of the input: its start and its length.
pub type Span = (u32, u32);

/// What every grammar rule promises: the parser stays well formed over the
/// same input and never moves back; a rule that declines has consumed
/// nothing, and one that accepts has consumed something.
pub open spec fn protocol<'a, T>(old: Parser<'a>, new: Parser<'a>, r: Result<Option<T>, Diag>) -> bool {
    &&& new.wf()
    &&& new.text() == old.text()
    &&& new.diag_count() == old.diag_count()
    &&& new.at() >= old.at()
    &&& (r is Ok ==> new.nesting() == old.nesting())
    &&& (r is Ok && r->Ok_0 is None ==> new == old)
    &&& (r is Ok && r->Ok_0 is Some ==> new.at() > old.at())
}

/// A word that starts a statement.
#[derive(Clone, Copy, Debug, PartialEq, Eq, Structural)]
pub enum Keyword {
    /// Starts a declaration.
    Cho,
    /// Starts a print statement.
    Trong,
}

pub open spec fn keyword_text(k: Keyword) -> Seq<char> {
    match k {
        Keyword::Cho => "cho"@,
        Keyword::Trong => "trong"@,
    }
}

/// Whether the current lexeme of a parser at `i` is the word of `kw`.
pub open spec fn at_keyword(s: Seq<char>, i: int, kw: Keyword) -> bool {
    kind_at(s, i) == Kind::Word && s.subrange(i, next_index(s, i)) == keyword_text(kw)
}

impl Keyword {
    pub fn as_str(&self) -> (r: &'static str)
        ensures
            r@ == keyword_text(*self),
    {
        match self {
            Keyword::Cho => "cho",
            Keyword::Trong => "trong",
        }
    }

    /// Whether the current lexeme is the word of `kw`; reads nothing.
    pub fn check(parser: &Parser, kw: Keyword) -> (r: bool)
        requires
            parser.wf(),
        ensures
            r == at_keyword(parser.text(), parser.at(), kw),
    {
        proof {
            parser.lemma_wf();
        }
        parser.cur_kind() == Kind::Word && parser.cur_lexeme_snippet_is(kw.as_str())
    }

    /// Takes the word of `kw` and the blanks and line ends after it.
    pub fn accept(parser: &mut Parser, kw: Keyword) -> (r: Result<Option<Keyword>, Diag>)
        requires
            old(parser).wf(),
        ensures
            protocol(*old(parser), *final(parser), r),
            r is Ok,
            at_keyword(old(parser).text(), old(parser).at(), kw) ==> r == Ok::<Option<Keyword>, Diag>(
                Some(kw),
            ) && (final(parser).at(), final(parser).line()) == next_non_blank(
                old(parser).text(),
                old(parser).at(),
                old(parser).line(),
                true,
            ),
            !at_keyword(old(parser).text(), old(parser).at(), kw) ==> r == Ok::<
                Option<Keyword>,
                Diag,
            >(None),
    {
        proof {
            parser.lemma_wf();
        }
        if Self::check(parser, kw) {
            parser.next_non_ws_lexeme(true);
            Ok(Some(kw))
        } else {
            Ok(None)
        }
    }
}

/// A name: one word, or words with single runs of spaces between them.
#[derive(Debug)]
pub struct Ident(pub Span);

/// The text of a fractional numeral, such as `3.14`.
#[derive(Debug)]
pub struct Float(pub Span);

/// The text of an integral numeral, such as `1_000`.
#[derive(Debug)]
pub struct Decimal(pub Span);

/// The text of a quoted string, quotes included.
#[derive(Debug)]
pub struct DoubleQuotedString(pub Span);

#[derive(Debug)]
pub enum Literal {
    Float(Float),
    Decimal(Decimal),
    DoubleQuotedString(DoubleQuotedString),
}

/// Where the parser stands after the name that starts with the word at `i`,
/// its line, and the index just past the name's last word. A name takes one
/// more word where blanks of plain spaces and then a word follow.
pub open spec fn ident_scan(s: Seq<char>, i: int, line: int) -> (int, int, int)
    decreases s.len() - i,
{
    let (w, l1) = advance(s, i, line);
    if kind_at(s, w) == Kind::WordSpaces {
        let (x, l2) = advance(s, w, l1);
        if kind_at(s, x) == Kind::Word && i < x <= s.len() {
            ident_scan(s, x, l2)
        } else {
            (x, l2, next_index(s, i))
        }
    } else {
        (w, l1, next_index(s, i))
    }
}

pub proof fn lemma_ident_scan(s: Seq<char>, i: int, line: int)
    requires
        0 <= i < s.len(),
        kind_at(s, i) == Kind::Word,
    ensures
        i < next_index(s, i) <= ident_scan(s, i, line).2 <= ident_scan(s, i, line).0 <= s.len(),
        line <= ident_scan(s, i, line).1,
    decreases s.len() - i,
{
    lemma_lex_at_bounds(s, i);
    let (w, l1) = advance(s, i, line);
    lemma_lex_at_bounds(s, w);
    if kind_at(s, w) == Kind::WordSpaces {
        let (x, l2) = advance(s, w, l1);
        lemma_lex_at_bounds(s, x);
        if kind_at(s, x) == Kind::Word && i < x <= s.len() {
            lemma_ident_scan(s, x, l2);
        }
    }
}

/// A parser's place: the index of its current lexeme, and its line.
pub type Place = (int, int);

pub open spec fn place<'a>(p: Parser<'a>) -> Place {
    (p.at(), p.line())
}

/// Where the parser stands after reading the name `id` from `st`, if `id`
/// is the name that starts there.
pub open spec fn ident_reads(s: Seq<char>, st: Place, id: Ident) -> Option<Place> {
    if kind_at(s, st.0) == Kind::Word {
        let (j, l, e) = ident_scan(s, st.0, st.1);
        if id.0.0 as int == byte_offset(s, st.0) && id.0.1 as int == byte_offset(s, e) - byte_offset(
            s,
            st.0,
        ) {
            Some((j, l))
        } else {
            None
        }
    } else {
        None
    }
}

/// `span` is the byte span of the lexeme at index `i`.
pub open spec fn lexeme_span_at(s: Seq<char>, i: int, span: Span) -> bool {
    span.0 as int == byte_offset(s, i) && span.1 as int == lexeme_bytes(s, i)
}

/// Where the parser stands after reading the literal `lit` from `st`, if
/// `lit` is the literal that stands there.
pub open spec fn literal_reads(s: Seq<char>, st: Place, lit: Literal) -> Option<Place> {
    let (k, span) = match lit {
        Literal::Float(f) => (Kind::Float, f.0),
        Literal::Decimal(d) => (Kind::Decimal, d.0),
        Literal::DoubleQuotedString(q) => (Kind::String, q.0),
    };
    if kind_at(s, st.0) == k && lexeme_span_at(s, st.0, span) {
        Some(advance(s, st.0, st.1))
    } else {
        None
    }
}

/// The span of a literal lexeme at the parser's place, and the parser's
/// place after it.
pub open spec fn literal_step<'a>(old: Parser<'a>, new: Parser<'a>, span: Span) -> bool {
    &&& span.0 as int == old.byte_pos()
    &&& span.1 == old.current().len
    &&& (new.at(), new.line()) == advance(old.text(), old.at(), old.line())
}

impl Ident {
    /// Takes a name: a word, then while plain spaces and a word follow, those
    /// too. Blanks after the name are taken as well.
    pub fn accept(parser: &mut Parser) -> (r: Result<Option<Ident>, Diag>)
        requires
            old(parser).wf(),
        ensures
            protocol(*old(parser), *final(parser), r),
            r is Ok,
            old(parser).current().kind == Kind::Word <==> r->Ok_0 is Some,
            r matches Ok(Some(id)) ==> ident_reads(old(parser).text(), place(*old(parser)), id) == Some(
                place(*final(parser)),
            ),
    {
        proof {
            parser.lemma_wf();
        }
        if parser.cur_kind() != Kind::Word {
            return Ok(None);
        }
        let ghost s = parser.text();
        let ghost i0 = parser.at();
        let ghost line0 = parser.line();
        let start = parser.cur_span().0;
        let mut len = parser.lexeme().len;
        let ghost mut wi = i0;
        proof {
            lemma_ident_scan(s, i0, line0);
        }
        loop
            invariant_except_break
                i0 <= wi < s.len(),
                parser.at() == wi,
                kind_at(s, wi) == Kind::Word,
                ident_scan(s, wi, parser.line()) == ident_scan(s, i0, line0),
                len == byte_offset(s, next_index(s, wi)) - byte_offset(s, i0),
            invariant
                parser.wf(),
                parser.text() == s,
                parser.diag_count() == old(parser).diag_count(),
                parser.nesting() == old(parser).nesting(),
                start == byte_offset(s, i0),
                0 <= i0 < s.len(),
            ensures
                parser.at() == ident_scan(s, i0, line0).0,
                parser.line() == ident_scan(s, i0, line0).1,
                len == byte_offset(s, ident_scan(s, i0, line0).2) - byte_offset(s, i0),
            decreases s.len() - wi,
        {
            let ghost line = parser.line();
            proof {
                parser.lemma_wf();
                lemma_lex_at_bounds(s, wi);
                crate::chars::lemma_byte_offset_mono(s, i0, next_index(s, wi));
            }
            let ws = parser.next_lexeme();
            proof {
                parser.lemma_wf();
            }
            if ws.kind != Kind::WordSpaces {
                break;
            }
            let added = ws.len;
            let word = parser.next_lexeme();
            proof {
                parser.lemma_wf();
                lemma_lex_at_bounds(s, next_index(s, wi));
            }
            if word.kind != Kind::Word {
                break;
            }
            proof {
                let x = parser.at();
                lemma_lex_at_bounds(s, x);
                crate::chars::lemma_byte_offset_mono(s, next_index(s, wi), x);
                crate::chars::lemma_byte_offset_mono(s, x, next_index(s, x));
                crate::chars::lemma_byte_offset_mono(s, next_index(s, x), s.len() as int);
                crate::chars::lemma_byte_offset_full(s);
                wi = x;
            }
            len = len + added + word.len;
        }
        proof {
            lemma_ident_scan(s, i0, line0);
        }
        Ok(Some(Ident((start, len))))
    }
}

impl Float {
    pub fn accept(parser: &mut Parser) -> (r: Result<Option<Float>, Diag>)
        requires
            old(parser).wf(),
        ensures
            protocol(*old(parser), *final(parser), r),
            r is Ok,
            old(parser).current().kind == Kind::Float <==> r->Ok_0 is Some,
            r->Ok_0 is Some ==> literal_step(*old(parser), *final(parser), r->Ok_0->Some_0.0),
    {
        proof {
            parser.lemma_wf();
        }
        if parser.cur_kind() == Kind::Float {
            let span = parser.cur_span();
            parser.next_lexeme();
            Ok(Some(Float(span)))
        } else {
            Ok(None)
        }
    }
}

impl Decimal {
    pub fn accept(parser: &mut Parser) -> (r: Result<Option<Decimal>, Diag>)
        requires
            old(parser).wf(),
        ensures
            protocol(*old(parser), *final(parser), r),
            r is Ok,
            old(parser).current().kind == Kind::Decimal <==> r->Ok_0 is Some,
            r->Ok_0 is Some ==> literal_step(*old(parser), *final(parser), r->Ok_0->Some_0.0),
    {
        proof {
            parser.lemma_wf();
        }
        if parser.cur_kind() == Kind::Decimal {
            let span = parser.cur_span();
            parser.next_lexeme();
            Ok(Some(Decimal(span)))
        } else {
            Ok(None)
        }
    }
}

impl DoubleQuotedString {
    pub fn accept(parser: &mut Parser) -> (r: Result<Option<DoubleQuotedString>, Diag>)
        requires
            old(parser).wf(),
        ensures
            protocol(*old(parser), *final(parser), r),
            r is Ok,
            old(parser).current().kind == Kind::String <==> r->Ok_0 is Some,
            r->Ok_0 is Some ==> literal_step(*old(parser), *final(parser), r->Ok_0->Some_0.0),
    {
        proof {
            parser.lemma_wf();
        }
        if parser.cur_kind() == Kind::String {
            let span = parser.cur_span();
            parser.next_lexeme();
            Ok(Some(DoubleQuotedString(span)))
        } else {
            Ok(None)
        }
    }
}

pub open spec fn starts_literal(k: Kind) -> bool {
    k == Kind::Float || k == Kind::Decimal || k == Kind::String
}

impl Literal {
    /// Takes a numeral or a quoted string.
    pub fn accept(parser: &mut Parser) -> (r: Result<Option<Literal>, Diag>)
        requires
            old(parser).wf(),
        ensures
            protocol(*old(parser), *final(parser), r),
            r is Ok,
            starts_literal(old(parser).current().kind) <==> r->Ok_0 is Some,
            r->Ok_0 is Some ==> (final(parser).at(), final(parser).line()) == advance(
                old(parser).text(),
                old(parser).at(),
                old(parser).line(),
            ),
            r matches Ok(Some(lit)) ==> literal_reads(old(parser).text(), place(*old(parser)), lit)
                == Some(place(*final(parser))),
            r->Ok_0 is Some ==> match r->Ok_0->Some_0 {
                Literal::Float(f) => old(parser).current().kind == Kind::Float && literal_step(
                    *old(parser),
                    *final(parser),
                    f.0,
                ),
                Literal::Decimal(d) => old(parser).current().kind == Kind::Decimal && literal_step(
                    *old(parser),
                    *final(parser),
                    d.0,
                ),
                Literal::DoubleQuotedString(q) => old(parser).current().kind == Kind::String
                    && literal_step(*old(parser), *final(parser), q.0),
            },
    {
        proof {
            parser.lemma_wf();
        }
        if let Some(float) = Float::accept(parser)? {
            Ok(Some(Literal::Float(float)))
        } else if let Some(decimal) = Decimal::accept(parser)? {
            Ok(Some(Literal::Decimal(decimal)))
        } else if let Some(dqs) = DoubleQuotedString::accept(parser)? {
            Ok(Some(Literal::DoubleQuotedString(dqs)))
        } else {
            Ok(None)
        }
    }
}

} // verus!
