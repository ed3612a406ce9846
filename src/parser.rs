use crate::chars::{
    byte_len, byte_offset, char_at_byte, lemma_byte_offset_full, lemma_byte_offset_mono,
    lemma_char_at_byte_bounds, lemma_char_at_byte_mono,
};
use crate::diag::Diag;
use crate::lexeme::{Kind, Lexeme};
use crate::lexer::{lemma_lex_at_bounds, lex_at, lexeme_bytes, Lexer};
use crate::grammar::{diag_is, programme_parse, programme_reads, Parse};
use crate::syntax::Programme;
use crate::terminal::place;
use vstd::prelude::*;

verus! {

pub open spec fn kind_at(s: Seq<char>, i: int) -> Kind {
    lex_at(s, i).0
}

pub open spec fn next_index(s: Seq<char>, i: int) -> int {
    lex_at(s, i).1
}

/// The parser's place after it moves from the lexeme at `i` to the next one,
/// with the line count: a line end that becomes current starts a new line.
pub open spec fn advance(s: Seq<char>, i: int, line: int) -> (int, int) {
    let j = next_index(s, i);
    (j, if kind_at(s, j) == Kind::Eol { line + 1 } else { line })
}

pub open spec fn is_blank(k: Kind, including_eol: bool) -> bool {
    k == Kind::Whitespaces || k == Kind::WordSpaces || (including_eol && k == Kind::Eol)
}

/// The parser's place after it moves over blanks (and line ends if asked)
/// from the lexeme at `i`.
pub open spec fn skip_blanks(s: Seq<char>, i: int, line: int, including_eol: bool) -> (int, int)
    decreases s.len() - i,
{
    if 0 <= i < s.len() && is_blank(kind_at(s, i), including_eol) && i < next_index(s, i)
        && next_index(s, i) <= s.len() {
        let (j, l) = advance(s, i, line);
        skip_blanks(s, j, l, including_eol)
    } else {
        (i, line)
    }
}

/// The parser's place after it moves past the lexeme at `i` and then over
/// blanks.
pub open spec fn next_non_blank(s: Seq<char>, i: int, line: int, including_eol: bool) -> (int, int) {
    let (j, l) = advance(s, i, line);
    skip_blanks(s, j, l, including_eol)
}

/// The characters of the byte span `(start, len)` of `s`.
pub open spec fn span_text(s: Seq<char>, span: (u32, u32)) -> Seq<char> {
    s.subrange(
        char_at_byte(s, 0, span.0 as int),
        char_at_byte(s, 0, span.0 + span.1),
    )
}

/// Whether two texts hold the same characters.
pub fn same_text(a: &str, b: &str) -> (r: bool)
    ensures
        r == (a@ == b@),
{
    let n = a.unicode_len();
    if n != b.unicode_len() {
        return false;
    }
    let mut i: usize = 0;
    while i < n
        invariant
            n == a@.len() == b@.len(),
            i <= n,
            forall|j: int| 0 <= j < i ==> a@[j] == b@[j],
        decreases n - i,
    {
        if a.get_char(i) != b.get_char(i) {
            return false;
        }
        i = i + 1;
    }
    assert(a@ =~= b@);
    true
}

/// A cursor over the lexemes of the input, with the current lexeme, its
/// byte offset and its line.
pub struct Parser<'a> {
    input: &'a str,
    lexer: Lexer,
    pub cur_pos: u32,
    pub cur_lexeme: Lexeme,
    pub cur_line: u32,
    cur_index: usize,
    nesting: u32,
    diag: Vec<Diag>,
}

/// How deep brackets may nest; deeper input is refused with a diagnostic
/// rather than followed by ever deeper recursion.
pub const MAX_NESTING: u32 = 200;

impl<'a> Parser<'a> {
    /// The characters of the input.
    pub closed spec fn text(&self) -> Seq<char> {
        self.lexer.text()
    }

    /// Character index of the current lexeme.
    pub closed spec fn at(&self) -> int {
        self.cur_index as int
    }

    /// The current lexeme.
    pub closed spec fn current(&self) -> Lexeme {
        self.cur_lexeme
    }

    /// The line of the current lexeme.
    pub closed spec fn line(&self) -> int {
        self.cur_line as int
    }

    /// Byte offset of the current lexeme.
    pub closed spec fn byte_pos(&self) -> int {
        self.cur_pos as int
    }

    /// How many brackets are open around the current lexeme.
    pub closed spec fn nesting(&self) -> nat {
        self.nesting as nat
    }

    /// The diagnostic kept last.
    pub closed spec fn last_diag(&self) -> Diag {
        self.diag@.last()
    }

    pub closed spec fn diag_count(&self) -> nat {
        self.diag.len() as nat
    }

    pub closed spec fn wf(&self) -> bool {
        &&& self.lexer.wf()
        &&& self.input@ == self.lexer.text()
        &&& byte_len(self.text()) < u32::MAX
        &&& 0 <= self.cur_index <= self.text().len()
        &&& self.lexer.position() == next_index(self.text(), self.at())
        &&& self.cur_lexeme.kind == kind_at(self.text(), self.at())
        &&& self.cur_lexeme.len == lexeme_bytes(self.text(), self.at())
        &&& self.cur_pos == byte_offset(self.text(), self.at())
        &&& 1 <= self.cur_line <= byte_offset(self.text(), next_index(self.text(), self.at())) + 1
    }

    pub proof fn lemma_wf(&self)
        requires
            self.wf(),
        ensures
            0 <= self.at() <= self.text().len(),
            byte_len(self.text()) < u32::MAX,
            self.current().kind == kind_at(self.text(), self.at()),
            self.current().len == lexeme_bytes(self.text(), self.at()),
            self.byte_pos() == byte_offset(self.text(), self.at()),
            self.at() < self.text().len() ==> self.at() < next_index(self.text(), self.at()) <= self.text().len(),
            self.current().kind == Kind::Eof <==> self.at() == self.text().len(),
            self.line() >= 1,
    {
        lemma_lex_at_bounds(self.text(), self.at());
    }

    pub fn new(input: &'a str) -> (r: Self)
        requires
            byte_len(input@) < u32::MAX,
        ensures
            r.wf(),
            r.text() == input@,
            r.at() == 0,
            r.line() == if kind_at(input@, 0) == Kind::Eol {
                2int
            } else {
                1int
            },
            r.diag_count() == 0,
            r.nesting() == 0,
    {
        let mut lexer = Lexer::new(input);
        let cur_lexeme = lexer.next();
        proof {
            lexer.lemma_wf();
            lemma_lex_at_bounds(input@, 0);
            assert(input@.take(0) =~= Seq::<char>::empty());
            lemma_byte_offset_mono(input@, 0, next_index(input@, 0));
        }
        let cur_line: u32 = if cur_lexeme.kind == Kind::Eol {
            2
        } else {
            1
        };
        Parser {
            input,
            lexer,
            cur_pos: 0,
            cur_lexeme,
            cur_line,
            cur_index: 0,
            nesting: 0,
            diag: Vec::new(),
        }
    }

    /// Moves to the next lexeme and gives it.
    pub fn next_lexeme(&mut self) -> (r: Lexeme)
        requires
            old(self).wf(),
        ensures
            final(self).nesting() == old(self).nesting(),
            final(self).wf(),
            final(self).text() == old(self).text(),
            final(self).diag_count() == old(self).diag_count(),
            (final(self).at(), final(self).line()) == advance(
                old(self).text(),
                old(self).at(),
                old(self).line(),
            ),
            r == final(self).current(),
            final(self).at() >= old(self).at(),
            old(self).current().kind != Kind::Eof ==> final(self).at() > old(self).at(),
    {
        let ghost s = self.text();
        let ghost i = self.at();
        proof {
            self.lemma_wf();
            self.lexer.lemma_wf();
        }
        let j = self.lexer_position();
        let next = self.lexer.next();
        proof {
            lemma_lex_at_bounds(s, j as int);
            lemma_byte_offset_mono(s, i, j as int);
            lemma_byte_offset_mono(s, j as int, next_index(s, j as int));
            lemma_byte_offset_mono(s, next_index(s, j as int), s.len() as int);
            lemma_byte_offset_full(s);
        }
        self.cur_pos = self.cur_pos + self.cur_lexeme.len;
        self.cur_lexeme = next;
        self.cur_index = j;
        if next.kind == Kind::Eol {
            self.cur_line = self.cur_line + 1;
        }
        next
    }

    /// Character index of the lexer, just past the current lexeme.
    fn lexer_position(&self) -> (r: usize)
        requires
            self.wf(),
        ensures
            r == next_index(self.text(), self.at()),
    {
        self.lexer.cursor()
    }

    /// Moves over blanks (and line ends if asked), where the current lexeme
    /// is one; gives the lexeme it stops at.
    pub fn skip_ws_if_any(&mut self, including_eol: bool) -> (r: Lexeme)
        requires
            old(self).wf(),
        ensures
            final(self).nesting() == old(self).nesting(),
            final(self).wf(),
            final(self).text() == old(self).text(),
            final(self).diag_count() == old(self).diag_count(),
            (final(self).at(), final(self).line()) == skip_blanks(
                old(self).text(),
                old(self).at(),
                old(self).line(),
                including_eol,
            ),
            r == final(self).current(),
            final(self).at() >= old(self).at(),
        decreases old(self).text().len() - old(self).at(),
    {
        proof {
            self.lemma_wf();
        }
        let k = self.cur_lexeme.kind;
        if k == Kind::Whitespaces || k == Kind::WordSpaces || (including_eol && k == Kind::Eol) {
            self.next_lexeme();
            self.skip_ws_if_any(including_eol)
        } else {
            self.cur_lexeme
        }
    }

    /// Parses the whole input as a programme; where that fails, keeps the
    /// diagnostic and gives nothing.
    pub fn visit_programme(&mut self) -> (r: Option<Programme>)
        requires
            old(self).wf(),
        ensures
            final(self).wf(),
            final(self).text() == old(self).text(),
            r is Some ==> final(self).diag_count() == old(self).diag_count(),
            r is None ==> final(self).diag_count() == old(self).diag_count() + 1,
            r matches Some(p) ==> p.statements.len() == p.lines.len(),
            match programme_parse(old(self).text(), place(*old(self)), old(self).nesting()) {
                Parse::Read(e) => r matches Some(p) && programme_reads(
                    old(self).text(),
                    place(*old(self)),
                    p.statements@,
                    p.lines@,
                ) == Some(e),
                Parse::Failed(at, f) => r is None && diag_is(
                    old(self).text(),
                    at,
                    f,
                    final(self).last_diag(),
                ),
                Parse::Declined => false,
            },
    {
        match Programme::accept(self) {
            Ok(Some(prog)) => Some(prog),
            Ok(None) => None,
            Err(d) => {
                self.diag.push(d);
                None
            },
        }
    }

    /// The diagnostics kept so far.
    pub fn diagnostics(&self) -> (r: &Vec<Diag>)
        ensures
            r.len() == self.diag_count(),
    {
        &self.diag
    }

    /// The text of the byte span `(start, len)` of the input.
    pub fn get_snippet(&self, start: u32, len: u32) -> (r: &'a str)
        requires
            self.wf(),
        ensures
            r@ == span_text(self.text(), (start, len)),
    {
        let from = self.lexer.char_index_of_byte(start as u64);
        let to = self.lexer.char_index_of_byte(start as u64 + len as u64);
        proof {
            lemma_char_at_byte_bounds(self.text(), 0, start as int);
            lemma_char_at_byte_bounds(self.text(), 0, start + len);
            lemma_char_at_byte_mono(self.text(), 0, start as int, start + len);
        }
        self.input.substring_char(from, to)
    }

    /// The text of the current lexeme.
    pub fn cur_lexeme_snippet(&self) -> (r: &'a str)
        requires
            self.wf(),
        ensures
            r@ == self.text().subrange(self.at(), next_index(self.text(), self.at())),
    {
        proof {
            self.lemma_wf();
        }
        self.input.substring_char(self.cur_index, self.lexer_position())
    }

    /// Whether the text of the current lexeme is `expected`.
    pub fn cur_lexeme_snippet_is(&self, expected: &str) -> (r: bool)
        requires
            self.wf(),
        ensures
            r == (self.text().subrange(self.at(), next_index(self.text(), self.at())) == expected@),
    {
        same_text(self.cur_lexeme_snippet(), expected)
    }

    /// Opens one more level of brackets, where the limit allows it.
    pub fn enter_nesting(&mut self) -> (r: bool)
        requires
            old(self).wf(),
        ensures
            final(self).wf(),
            final(self).text() == old(self).text(),
            final(self).diag_count() == old(self).diag_count(),
            final(self).at() == old(self).at(),
            final(self).line() == old(self).line(),
            final(self).current() == old(self).current(),
            final(self).byte_pos() == old(self).byte_pos(),
            r == (old(self).nesting() < MAX_NESTING),
            r ==> final(self).nesting() == old(self).nesting() + 1,
            !r ==> *final(self) == *old(self),
    {
        if self.nesting < MAX_NESTING {
            self.nesting = self.nesting + 1;
            true
        } else {
            false
        }
    }

    /// Closes a level of brackets.
    pub fn leave_nesting(&mut self)
        requires
            old(self).wf(),
        ensures
            final(self).wf(),
            final(self).text() == old(self).text(),
            final(self).diag_count() == old(self).diag_count(),
            final(self).at() == old(self).at(),
            final(self).line() == old(self).line(),
            final(self).current() == old(self).current(),
            final(self).byte_pos() == old(self).byte_pos(),
            final(self).nesting() == if old(self).nesting() > 0 {
                old(self).nesting() - 1
            } else {
                0
            },
    {
        if self.nesting > 0 {
            self.nesting = self.nesting - 1;
        }
    }

    /// The kind of the current lexeme.
    pub fn cur_kind(&self) -> (r: Kind)
        ensures
            r == self.current().kind,
    {
        self.cur_lexeme.kind
    }

    /// The current lexeme.
    pub fn lexeme(&self) -> (r: Lexeme)
        ensures
            r == self.current(),
    {
        self.cur_lexeme
    }

    /// The line of the current lexeme.
    pub fn line_number(&self) -> (r: u32)
        ensures
            r == self.line(),
    {
        self.cur_line
    }

    /// The byte span of the current lexeme.
    pub fn cur_span(&self) -> (r: (u32, u32))
        ensures
            r.0 as int == self.byte_pos(),
            r.1 == self.current().len,
    {
        (self.cur_pos, self.cur_lexeme.len)
    }

    /// Moves to the next lexeme, then over blanks (and line ends if asked);
    /// gives the lexeme it stops at.
    pub fn next_non_ws_lexeme(&mut self, including_eol: bool) -> (r: Lexeme)
        requires
            old(self).wf(),
        ensures
            final(self).nesting() == old(self).nesting(),
            final(self).wf(),
            final(self).text() == old(self).text(),
            final(self).diag_count() == old(self).diag_count(),
            (final(self).at(), final(self).line()) == next_non_blank(
                old(self).text(),
                old(self).at(),
                old(self).line(),
                including_eol,
            ),
            r == final(self).current(),
            final(self).at() >= old(self).at(),
            old(self).current().kind != Kind::Eof ==> final(self).at() > old(self).at(),
    {
        self.next_lexeme();
        self.skip_ws_if_any(including_eol)
    }
}

} // verus!
