use crate::lexeme::{kind_description, Kind};
use crate::number::{int_digits, push_decimal};
use vstd::prelude::*;
use vstd::string::StringExecFns;

verus! {

/// The kind of an opening bracket.
#[derive(Clone, Copy, Debug, PartialEq, Eq, Structural)]
pub enum BracketKind {
    Parenthesis,
    Brace,
    Bracket,
}

pub open spec fn bracket_name(k: BracketKind) -> Seq<char> {
    match k {
        BracketKind::Parenthesis => "parenthesis"@,
        BracketKind::Brace => "brace"@,
        BracketKind::Bracket => "bracket"@,
    }
}

impl BracketKind {
    pub fn name(&self) -> (r: &'static str)
        ensures
            r@ == bracket_name(*self),
    {
        match self {
            BracketKind::Parenthesis => "parenthesis",
            BracketKind::Brace => "brace",
            BracketKind::Bracket => "bracket",
        }
    }
}

/// Why a parse failed.
#[derive(Clone, Debug)]
pub enum Error {
    /// One of the kinds `expected` was required where `found` stands.
    UnexpectedLexeme { expected: Vec<Kind>, found: Kind },
    /// What the grammar required at this place, in words.
    Expecting { expected: String },
    /// An opening bracket has no matching close.
    BracketNotClosed { kind: BracketKind },
    /// Brackets are nested deeper than the parser follows.
    TooDeeplyNested { limit: u32 },
}

#[derive(Clone, Debug)]
pub enum DiagData {
    Error(Error),
}

/// A parse failure: its line, the byte span it points at, and what it is.
#[derive(Debug)]
pub struct Diag {
    pub line: u32,
    pub span: (u32, u32),
    pub data: DiagData,
}

/// The descriptions of `kinds`, joined by `, `.
pub open spec fn join_kinds(kinds: Seq<Kind>) -> Seq<char>
    decreases kinds.len(),
{
    if kinds.len() == 0 {
        Seq::empty()
    } else if kinds.len() == 1 {
        kind_description(kinds[0])
    } else {
        join_kinds(kinds.drop_last()) + ", "@ + kind_description(kinds.last())
    }
}

pub open spec fn data_message(d: DiagData) -> Seq<char> {
    match d {
        DiagData::Error(Error::UnexpectedLexeme { expected, found }) => "Unexpected lexeme: expected "@
            + join_kinds(expected@) + ", found "@ + kind_description(found),
        DiagData::Error(Error::Expecting { expected }) => "Expecting "@ + expected@,
        DiagData::Error(Error::BracketNotClosed { kind }) => "This "@ + bracket_name(kind)
            + " has not been closed."@,
        DiagData::Error(Error::TooDeeplyNested { limit }) => "Brackets nest deeper than "@
            + int_digits(limit as nat) + " levels"@,
    }
}

impl DiagData {
    /// The descriptions of `kinds`, joined by `, `.
    pub fn print_vec(kinds: &Vec<Kind>) -> (r: String)
        ensures
            r@ == join_kinds(kinds@),
    {
        let mut r = String::new();
        let mut i: usize = 0;
        proof {
            assert(kinds@.take(0) =~= Seq::<Kind>::empty());
        }
        while i < kinds.len()
            invariant
                i <= kinds.len(),
                r@ == join_kinds(kinds@.take(i as int)),
            decreases kinds.len() - i,
        {
            proof {
                assert(kinds@.take(i + 1).drop_last() =~= kinds@.take(i as int));
            }
            if i > 0 {
                r.append(", ");
            }
            r.append(kinds[i].description());
            proof {
                if i == 0 {
                    assert(kinds@.take(1) =~= seq![kinds@[0]]);
                    assert(r@ =~= join_kinds(kinds@.take(1)));
                } else {
                    assert(r@ =~= join_kinds(kinds@.take(i + 1)));
                }
            }
            i = i + 1;
        }
        proof {
            assert(kinds@.take(i as int) =~= kinds@);
        }
        r
    }

    /// The human-readable message.
    pub fn message(&self) -> (r: String)
        ensures
            r@ == data_message(*self),
    {
        match self {
            DiagData::Error(Error::UnexpectedLexeme { expected, found }) => {
                let mut r = String::from_str("Unexpected lexeme: expected ");
                let list = Self::print_vec(expected);
                r.append(list.as_str());
                r.append(", found ");
                r.append(found.description());
                r
            },
            DiagData::Error(Error::Expecting { expected }) => {
                let mut r = String::from_str("Expecting ");
                r.append(expected.as_str());
                r
            },
            DiagData::Error(Error::BracketNotClosed { kind }) => {
                let mut r = String::from_str("This ");
                r.append(kind.name());
                r.append(" has not been closed.");
                r
            },
            DiagData::Error(Error::TooDeeplyNested { limit }) => {
                let mut r = String::from_str("Brackets nest deeper than ");
                push_decimal(&mut r, *limit as u64);
                r.append(" levels");
                r
            },
        }
    }
}

} // verus!
