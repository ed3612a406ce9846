use vstd::prelude::*;

verus! {

/// The class of a lexeme.
#[derive(Clone, Copy, Debug, PartialEq, Eq, Structural)]
pub enum Kind {
    Invalid,
    Eof,
    Eol,
    WordSpaces,
    Whitespaces,
    Comment,
    Word,
    Float,
    Decimal,
    String,
    Plus,
    Minus,
    Asterisk,
    Slash,
    Equal,
    Colon,
    Period,
    Comma,
    Greater,
    Less,
    LeftBrace,
    RightBrace,
    LeftParen,
    RightParen,
    LeftBracket,
    RightBracket,
}

/// One classified piece of the input: its kind and its length in bytes.
#[derive(Clone, Copy, Debug, PartialEq, Eq, Structural)]
pub struct Lexeme {
    pub kind: Kind,
    pub len: u32,
}

/// How a kind reads in a message.
pub open spec fn kind_description(k: Kind) -> Seq<char> {
    match k {
        Kind::Invalid => "an invalid character"@,
        Kind::Eof => "end of file"@,
        Kind::Eol => "end of line"@,
        Kind::WordSpaces => "word spaces"@,
        Kind::Whitespaces => "whitespaces"@,
        Kind::Comment => "a comment"@,
        Kind::Word => "a word"@,
        Kind::Float => "a floating point number"@,
        Kind::Decimal => "a decimal number"@,
        Kind::String => "a string"@,
        Kind::Plus => "a plus sign '+'"@,
        Kind::Minus => "a minus sign '-'"@,
        Kind::Asterisk => "an asterisk '*'"@,
        Kind::Slash => "a slash '/'"@,
        Kind::Equal => "an equal sign '='"@,
        Kind::Colon => "a colon ':'"@,
        Kind::Period => "a period '.'"@,
        Kind::Comma => "a comma ','"@,
        Kind::Greater => "a greater than sign '>'"@,
        Kind::Less => "a less than sign '<'"@,
        Kind::LeftBrace => "a left brace '{'"@,
        Kind::RightBrace => "a right brace '}'"@,
        Kind::LeftParen => "a left parenthesis '('"@,
        Kind::RightParen => "a right parenthesis ')'"@,
        Kind::LeftBracket => "a left bracket '['"@,
        Kind::RightBracket => "a right bracket ']'"@,
    }
}

impl Kind {
    /// The phrase that names this kind in a diagnostic.
    pub fn description(&self) -> (r: &'static str)
        ensures
            r@ == kind_description(*self),
    {
        match self {
            Kind::Invalid => "an invalid character",
            Kind::Eof => "end of file",
            Kind::Eol => "end of line",
            Kind::WordSpaces => "word spaces",
            Kind::Whitespaces => "whitespaces",
            Kind::Comment => "a comment",
            Kind::Word => "a word",
            Kind::Float => "a floating point number",
            Kind::Decimal => "a decimal number",
            Kind::String => "a string",
            Kind::Plus => "a plus sign '+'",
            Kind::Minus => "a minus sign '-'",
            Kind::Asterisk => "an asterisk '*'",
            Kind::Slash => "a slash '/'",
            Kind::Equal => "an equal sign '='",
            Kind::Colon => "a colon ':'",
            Kind::Period => "a period '.'",
            Kind::Comma => "a comma ','",
            Kind::Greater => "a greater than sign '>'",
            Kind::Less => "a less than sign '<'",
            Kind::LeftBrace => "a left brace '{'",
            Kind::RightBrace => "a right brace '}'",
            Kind::LeftParen => "a left parenthesis '('",
            Kind::RightParen => "a right parenthesis ')'",
            Kind::LeftBracket => "a left bracket '['",
            Kind::RightBracket => "a right bracket ']'",
        }
    }
}

} // verus!
