use vilang::chars::chars_of;
use vilang::lexeme::{Kind, Lexeme};
use vilang::lexer::Lexer;

fn expect(lexer: &mut Lexer, kind: Kind, len: u32) {
    let lexeme = lexer.next();
    assert!(
        lexeme.kind == kind && lexeme.len == len,
        "Expected {:?} with length {}, got {:?} with length {}",
        kind,
        len,
        lexeme.kind,
        lexeme.len
    );
}

fn expect_eof(lexer: &mut Lexer) {
    expect(lexer, Kind::Eof, 0);
}

#[test]
fn lib_always_pass() {
    assert!(true);
}

#[test]
fn empty_repeated_eofs() {
    let mut lexer = Lexer::new("");
    expect_eof(&mut lexer);
    expect_eof(&mut lexer);
    expect_eof(&mut lexer);
}

#[test]
fn whitespaces() {
    let mut lexer = Lexer::new("\t\r\u{2003}");
    expect(&mut lexer, Kind::Whitespaces, 5);
    expect_eof(&mut lexer);
}

#[test]
fn word_spaces() {
    let mut lexer = Lexer::new("  ");
    expect(&mut lexer, Kind::WordSpaces, 2);
    expect_eof(&mut lexer);
}

#[test]
fn word() {
    let mut lexer = Lexer::new("hello_world123");
    expect(&mut lexer, Kind::Word, 14);
    expect_eof(&mut lexer);
}

#[test]
fn word_with_unicode() {
    // U+221A and U+2020 are neither letters nor blanks: each is an invalid
    // lexeme of three bytes between two words.
    let mut lexer = Lexer::new("xin_ch√†o123");
    expect(&mut lexer, Kind::Word, 6);
    expect(&mut lexer, Kind::Invalid, 3);
    expect(&mut lexer, Kind::Invalid, 3);
    expect(&mut lexer, Kind::Word, 4);
    expect_eof(&mut lexer);
}

#[test]
fn word_with_vietnamese_letters() {
    let mut lexer = Lexer::new("xin_chào123");
    expect(&mut lexer, Kind::Word, 12);
    expect_eof(&mut lexer);
}

#[test]
fn decimal() {
    let mut lexer = Lexer::new("123456");
    expect(&mut lexer, Kind::Decimal, 6);
    expect_eof(&mut lexer);
}

#[test]
fn float() {
    let mut lexer = Lexer::new("3.25+1.");
    expect(&mut lexer, Kind::Float, 4);
    expect(&mut lexer, Kind::Plus, 1);
    expect(&mut lexer, Kind::Float, 2);
    expect_eof(&mut lexer);
}

#[test]
fn string() {
    let mut lexer = Lexer::new("\"Hello, World!\" 'Another one'");
    expect(&mut lexer, Kind::String, 15);
    expect(&mut lexer, Kind::WordSpaces, 1);
    expect(&mut lexer, Kind::String, 13);
    expect_eof(&mut lexer);
}

#[test]
fn unterminated_string() {
    let mut lexer = Lexer::new("'abc\nd");
    expect(&mut lexer, Kind::String, 6);
    expect_eof(&mut lexer);
}

#[test]
fn comment() {
    let mut lexer = Lexer::new("# This is a comment\nNext line");
    expect(&mut lexer, Kind::Comment, 19);
    expect(&mut lexer, Kind::Eol, 1);
    expect(&mut lexer, Kind::Word, 4);
    expect(&mut lexer, Kind::WordSpaces, 1);
    expect(&mut lexer, Kind::Word, 4);
    expect_eof(&mut lexer);
}

#[test]
fn punctuation_and_invalid() {
    let mut lexer = Lexer::new("+-*/=:.,><{}()[]?");
    for kind in [
        Kind::Plus,
        Kind::Minus,
        Kind::Asterisk,
        Kind::Slash,
        Kind::Equal,
        Kind::Colon,
        Kind::Period,
        Kind::Comma,
        Kind::Greater,
        Kind::Less,
        Kind::LeftBrace,
        Kind::RightBrace,
        Kind::LeftParen,
        Kind::RightParen,
        Kind::LeftBracket,
        Kind::RightBracket,
        Kind::Invalid,
    ] {
        expect(&mut lexer, kind, 1);
    }
    expect_eof(&mut lexer);
}

#[test]
fn eof_repeats_after_input() {
    let mut lexer = Lexer::new("ab");
    expect(&mut lexer, Kind::Word, 2);
    for _ in 0..5 {
        assert_eq!(lexer.next(), Lexeme { kind: Kind::Eof, len: 0 });
    }
}

#[test]
fn lexeme_lengths_cover_input() {
    let input = "cho tên = 1.5 * (2, 'x')\t# note\n\u{00a0}trong tên ¤";
    let mut lexer = Lexer::new(input);
    let mut total: usize = 0;
    loop {
        let lexeme = lexer.next();
        if lexeme.kind == Kind::Eof {
            assert_eq!(lexeme.len, 0);
            break;
        }
        assert!(lexeme.len > 0);
        total += lexeme.len as usize;
    }
    assert_eq!(total, input.len());
}

#[test]
fn chars_of_keeps_characters() {
    assert_eq!(chars_of("aé\n"), vec!['a', 'é', '\n']);
}

#[test]
fn kind_descriptions() {
    assert_eq!(Kind::LeftParen.description(), "a left parenthesis '('");
    assert_eq!(Kind::Eof.description(), "end of file");
}
