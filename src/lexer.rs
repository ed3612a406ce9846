use crate::chars::{
    byte_len, byte_offset, check_is_digit, check_is_extended_lower, check_is_extended_upper,
    check_is_white_space, is_digit,
    is_letter, is_white_space, lemma_byte_offset_full, lemma_byte_offset_mono,
    lemma_byte_offset_step, chars_of, width_of, char_at_byte,
};
use crate::lexeme::{Kind, Lexeme};
use vstd::prelude::*;

verus! {

/// A class of characters that a lexeme keeps taking while they come.
#[derive(Clone, Copy, Debug, PartialEq, Eq, Structural)]
pub enum Run {
    Spaces,
    NotEol,
    OtherWhitespace,
    WordChar,
    NotQuote(char),
    Digits,
}

pub open spec fn in_run(r: Run, c: char) -> bool {
    match r {
        Run::Spaces => c == ' ',
        Run::NotEol => c != '\n',
        Run::OtherWhitespace => is_white_space(c) && c != ' ' && c != '\n',
        Run::WordChar => is_letter(c) || c == '_' || is_digit(c),
        Run::NotQuote(q) => c != q,
        Run::Digits => is_digit(c),
    }
}

/// The first index at or after `i` whose character is not in the run.
pub open spec fn run_end(s: Seq<char>, i: int, r: Run) -> int
    decreases s.len() - i,
{
    if 0 <= i < s.len() && in_run(r, s[i]) {
        run_end(s, i + 1, r)
    } else {
        i
    }
}

/// The kind of a lexeme made of the single character `c`.
pub open spec fn punct_kind(c: char) -> Kind {
    if c == '+' {
        Kind::Plus
    } else if c == '-' {
        Kind::Minus
    } else if c == '*' {
        Kind::Asterisk
    } else if c == '/' {
        Kind::Slash
    } else if c == '=' {
        Kind::Equal
    } else if c == ':' {
        Kind::Colon
    } else if c == '.' {
        Kind::Period
    } else if c == ',' {
        Kind::Comma
    } else if c == '>' {
        Kind::Greater
    } else if c == '<' {
        Kind::Less
    } else if c == '{' {
        Kind::LeftBrace
    } else if c == '}' {
        Kind::RightBrace
    } else if c == '(' {
        Kind::LeftParen
    } else if c == ')' {
        Kind::RightParen
    } else if c == '[' {
        Kind::LeftBracket
    } else if c == ']' {
        Kind::RightBracket
    } else {
        Kind::Invalid
    }
}

/// The lexeme that starts at character index `i` of `s`: its kind and the
/// index just past it.
pub open spec fn lex_at(s: Seq<char>, i: int) -> (Kind, int) {
    if i >= s.len() {
        (Kind::Eof, i)
    } else {
        let c = s[i];
        if c == '\n' {
            (Kind::Eol, i + 1)
        } else if c == ' ' {
            (Kind::WordSpaces, run_end(s, i + 1, Run::Spaces))
        } else if c == '#' {
            (Kind::Comment, run_end(s, i + 1, Run::NotEol))
        } else if is_white_space(c) {
            (Kind::Whitespaces, run_end(s, i + 1, Run::OtherWhitespace))
        } else if is_letter(c) || c == '_' {
            (Kind::Word, run_end(s, i + 1, Run::WordChar))
        } else if c == '"' || c == '\'' {
            let j = run_end(s, i + 1, Run::NotQuote(c));
            (Kind::String, if j < s.len() { j + 1 } else { j })
        } else if is_digit(c) {
            let j = run_end(s, i + 1, Run::Digits);
            if j < s.len() && s[j] == '.' {
                (Kind::Float, run_end(s, j + 1, Run::Digits))
            } else {
                (Kind::Decimal, j)
            }
        } else {
            (punct_kind(c), i + 1)
        }
    }
}

/// Byte length of the lexeme that starts at character index `i`.
pub open spec fn lexeme_bytes(s: Seq<char>, i: int) -> int {
    byte_offset(s, lex_at(s, i).1) - byte_offset(s, i)
}

/// Sum of the byte lengths of the lexemes read one after the other from
/// character index `i` up to the end of the input.
pub open spec fn lexed_bytes(s: Seq<char>, i: int) -> int
    decreases s.len() - i,
{
    let e = lex_at(s, i).1;
    if i >= s.len() || e <= i || e > s.len() {
        0
    } else {
        lexeme_bytes(s, i) + lexed_bytes(s, e)
    }
}

pub proof fn lemma_run_end_bounds(s: Seq<char>, i: int, r: Run)
    requires
        0 <= i <= s.len(),
    ensures
        i <= run_end(s, i, r) <= s.len(),
    decreases s.len() - i,
{
    if i < s.len() && in_run(r, s[i]) {
        lemma_run_end_bounds(s, i + 1, r);
    }
}

pub proof fn lemma_lex_at_bounds(s: Seq<char>, i: int)
    requires
        0 <= i <= s.len(),
    ensures
        i < s.len() ==> i < lex_at(s, i).1 <= s.len(),
        i == s.len() ==> lex_at(s, i) == (Kind::Eof, i),
        lex_at(s, i).0 == Kind::Eof <==> i == s.len(),
{
    if i < s.len() {
        let c = s[i];
        lemma_run_end_bounds(s, i + 1, Run::Spaces);
        lemma_run_end_bounds(s, i + 1, Run::NotEol);
        lemma_run_end_bounds(s, i + 1, Run::OtherWhitespace);
        lemma_run_end_bounds(s, i + 1, Run::WordChar);
        lemma_run_end_bounds(s, i + 1, Run::NotQuote(c));
        lemma_run_end_bounds(s, i + 1, Run::Digits);
        let j = run_end(s, i + 1, Run::Digits);
        if j < s.len() {
            lemma_run_end_bounds(s, j + 1, Run::Digits);
        }
    }
}

/// Once the input is used up, every further lexeme is an end of file that
/// takes no bytes and leaves the position where it is.
pub proof fn lemma_eof_repeats(s: Seq<char>, i: int)
    requires
        i >= s.len(),
    ensures
        lex_at(s, i) == (Kind::Eof, i),
        lexeme_bytes(s, i) == 0,
{
}

/// The lexemes read one after the other from the start, up to the end of
/// file, have byte lengths that add up to the byte length of the input.
pub proof fn lemma_lexemes_cover_input(s: Seq<char>)
    ensures
        lexed_bytes(s, 0) == byte_len(s),
{
    lemma_lexed_bytes_from(s, 0);
    lemma_byte_offset_full(s);
    assert(s.take(0) =~= Seq::<char>::empty());
}

proof fn lemma_lexed_bytes_from(s: Seq<char>, i: int)
    requires
        0 <= i <= s.len(),
    ensures
        lexed_bytes(s, i) == byte_offset(s, s.len() as int) - byte_offset(s, i),
    decreases s.len() - i,
{
    lemma_lex_at_bounds(s, i);
    if i < s.len() {
        let e = lex_at(s, i).1;
        lemma_lexed_bytes_from(s, e);
    }
}

/// A cursor over the input that hands out one lexeme per call.
pub struct Lexer {
    chars: Vec<char>,
    pos: usize,
    byte_pos: usize,
}

impl Lexer {
    /// The characters of the input.
    pub closed spec fn text(&self) -> Seq<char> {
        self.chars@
    }

    /// Character index of the cursor.
    pub closed spec fn position(&self) -> int {
        self.pos as int
    }

    pub closed spec fn wf(&self) -> bool {
        &&& self.pos <= self.chars.len()
        &&& self.byte_pos == byte_offset(self.chars@, self.pos as int)
        &&& byte_len(self.chars@) <= u32::MAX
    }

    pub proof fn lemma_wf(&self)
        requires
            self.wf(),
        ensures
            0 <= self.position() <= self.text().len(),
            byte_len(self.text()) <= u32::MAX,
    {
    }

    /// Index of the first character whose byte offset reaches `b`.
    pub fn char_index_of_byte(&self, b: u64) -> (r: usize)
        requires
            self.wf(),
        ensures
            r == char_at_byte(self.text(), 0, b as int),
    {
        let mut i: usize = 0;
        let mut offset: u64 = 0;
        proof {
            assert(self.chars@.take(0) =~= Seq::<char>::empty());
        }
        while i < self.chars.len() && offset < b
            invariant
                self.wf(),
                i <= self.chars.len(),
                offset == byte_offset(self.chars@, i as int),
                char_at_byte(self.chars@, i as int, b as int) == char_at_byte(self.chars@, 0, b as int),
            decreases self.chars.len() - i,
        {
            proof {
                lemma_byte_offset_step(self.chars@, i as int);
                lemma_byte_offset_mono(self.chars@, i + 1, self.chars.len() as int);
                lemma_byte_offset_full(self.chars@);
            }
            offset = offset + width_of(self.chars[i]) as u64;
            i = i + 1;
        }
        i
    }

    /// Character index of the cursor.
    pub fn cursor(&self) -> (r: usize)
        ensures
            r == self.position(),
    {
        self.pos
    }

    pub fn new(input: &str) -> (r: Self)
        requires
            byte_len(input@) <= u32::MAX,
        ensures
            r.wf(),
            r.text() == input@,
            r.position() == 0,
    {
        let chars = chars_of(input);
        proof {
            assert(chars@.take(0) =~= Seq::<char>::empty());
        }
        Lexer { chars, pos: 0, byte_pos: 0 }
    }

    fn peek_char(&self) -> (r: Option<char>)
        requires
            self.wf(),
        ensures
            r == if self.pos < self.chars.len() {
                Some(self.chars@[self.pos as int])
            } else {
                None::<char>
            },
    {
        if self.pos < self.chars.len() {
            Some(self.chars[self.pos])
        } else {
            None
        }
    }

    fn next_char(&mut self) -> (r: Option<char>)
        requires
            old(self).wf(),
        ensures
            final(self).wf(),
            final(self).chars@ == old(self).chars@,
            r == if old(self).pos < old(self).chars.len() {
                Some(old(self).chars@[old(self).pos as int])
            } else {
                None::<char>
            },
            final(self).pos == if old(self).pos < old(self).chars.len() {
                old(self).pos + 1
            } else {
                old(self).pos as int
            },
    {
        let ch = self.peek_char();
        if let Some(c) = ch {
            proof {
                lemma_byte_offset_step(self.chars@, self.pos as int);
                lemma_byte_offset_mono(self.chars@, self.pos + 1, self.chars.len() as int);
                lemma_byte_offset_full(self.chars@);
            }
            self.byte_pos = self.byte_pos + width_of(c);
            self.pos = self.pos + 1;
        }
        ch
    }

    /// Whether `ch` is a letter that may start or continue a word: ASCII, or
    /// one of the accented letters of the Vietnamese alphabet.
    pub fn check_is_alpha(ch: char) -> (r: bool)
        ensures
            r == is_letter(ch),
    {
        ('a' <= ch && ch <= 'z') || ('A' <= ch && ch <= 'Z') || check_is_extended_lower(ch)
            || check_is_extended_upper(ch)
    }

    fn run_holds(r: Run, c: char) -> (b: bool)
        ensures
            b == in_run(r, c),
    {
        match r {
            Run::Spaces => c == ' ',
            Run::NotEol => c != '\n',
            Run::OtherWhitespace => check_is_white_space(c) && c != ' ' && c != '\n',
            Run::WordChar => Self::check_is_alpha(c) || c == '_' || check_is_digit(c),
            Run::NotQuote(q) => c != q,
            Run::Digits => check_is_digit(c),
        }
    }

    fn advance_char_while(&mut self, r: Run)
        requires
            old(self).wf(),
        ensures
            final(self).wf(),
            final(self).chars@ == old(self).chars@,
            final(self).pos == run_end(old(self).chars@, old(self).pos as int, r),
        decreases old(self).chars.len() - old(self).pos,
    {
        if let Some(c) = self.peek_char() {
            if Self::run_holds(r, c) {
                self.next_char();
                self.advance_char_while(r);
            }
        }
    }

    /// Reads the lexeme at the cursor and moves past it.
    pub fn next(&mut self) -> (r: Lexeme)
        requires
            old(self).wf(),
        ensures
            final(self).wf(),
            final(self).text() == old(self).text(),
            r.kind == lex_at(old(self).text(), old(self).position()).0,
            final(self).position() == lex_at(old(self).text(), old(self).position()).1,
            r.len == lexeme_bytes(old(self).text(), old(self).position()),
            old(self).position() >= old(self).text().len() ==> r == (Lexeme { kind: Kind::Eof, len: 0 })
                && final(self).position() == old(self).position(),
    {
        let ghost s = self.chars@;
        let ghost i = self.pos as int;
        let start_byte = self.byte_pos;
        let kind = match self.next_char() {
            None => Kind::Eof,
            Some(c) => {
                if c == '\n' {
                    Kind::Eol
                } else if c == ' ' {
                    self.advance_char_while(Run::Spaces);
                    Kind::WordSpaces
                } else if c == '#' {
                    self.advance_char_while(Run::NotEol);
                    Kind::Comment
                } else if check_is_white_space(c) {
                    self.advance_char_while(Run::OtherWhitespace);
                    Kind::Whitespaces
                } else if Self::check_is_alpha(c) || c == '_' {
                    self.advance_char_while(Run::WordChar);
                    Kind::Word
                } else if c == '"' || c == '\'' {
                    self.advance_char_while(Run::NotQuote(c));
                    self.next_char();
                    Kind::String
                } else if check_is_digit(c) {
                    self.advance_char_while(Run::Digits);
                    match self.peek_char() {
                        Some('.') => {
                            self.next_char();
                            self.advance_char_while(Run::Digits);
                            Kind::Float
                        },
                        _ => Kind::Decimal,
                    }
                } else {
                    Self::punct(c)
                }
            },
        };
        proof {
            lemma_lex_at_bounds(s, i);
            lemma_byte_offset_mono(s, i, self.pos as int);
            lemma_byte_offset_mono(s, self.pos as int, s.len() as int);
            lemma_byte_offset_full(s);
        }
        let byte_len = (self.byte_pos - start_byte) as u32;
        Lexeme { kind, len: byte_len }
    }

    fn punct(c: char) -> (k: Kind)
        ensures
            k == punct_kind(c),
    {
        match c {
            '+' => Kind::Plus,
            '-' => Kind::Minus,
            '*' => Kind::Asterisk,
            '/' => Kind::Slash,
            '=' => Kind::Equal,
            ':' => Kind::Colon,
            '.' => Kind::Period,
            ',' => Kind::Comma,
            '>' => Kind::Greater,
            '<' => Kind::Less,
            '{' => Kind::LeftBrace,
            '}' => Kind::RightBrace,
            '(' => Kind::LeftParen,
            ')' => Kind::RightParen,
            '[' => Kind::LeftBracket,
            ']' => Kind::RightBracket,
            _ => Kind::Invalid,
        }
    }
}

} // verus!
