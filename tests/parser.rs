use vilang::expr::{Field, MulAffixedExpr, PathExpr, TerminalExpr};
use vilang::diag::{BracketKind, DiagData, Error};
use vilang::lexeme::Kind;
use vilang::parser::Parser;
use vilang::syntax::{Programme, Statement};
use vilang::terminal::{Ident, Keyword};

fn parse(input: &str) -> Option<Programme> {
    let mut parser = Parser::new(input);
    parser.visit_programme()
}

fn parse_error(input: &str) -> (u32, DiagData) {
    let mut parser = Parser::new(input);
    assert!(parser.visit_programme().is_none());
    let diags = parser.diagnostics();
    assert_eq!(diags.len(), 1);
    (diags[0].line, diags[0].data.clone())
}

#[test]
fn always_pass() {
    assert!(true);
}

#[test]
fn parser_skip() {
    let input = "   \t    cho myVar";
    let mut parser = Parser::new(input);
    parser.next_non_ws_lexeme(true);
    assert_eq!(parser.cur_lexeme.kind, Kind::Word);
    assert_eq!(parser.cur_lexeme.len, 3);
}

#[test]
fn ident_accept() {
    let input = "myVar  cho";
    let mut parser = Parser::new(input);
    let ident = Ident::accept(&mut parser);
    assert!(matches!(ident, Ok(Some(Ident((0, 10))))), "Got {:?}", ident);
}

#[test]
fn cho_stmt() {
    let input = "cho  myVariable";
    let mut parser = Parser::new(input);
    match parser.visit_programme() {
        None => {
            for d in parser.diagnostics() {
                println!("{:?}", d);
            }
            panic!("Failed to parse programme")
        }
        Some(prog) => {
            assert_eq!(prog.statements.len(), 1);
            match &prog.statements[0] {
                Statement::Cho(cho_stmt) => {
                    assert!(
                        matches!(cho_stmt.lhs, Ident((5, 10))),
                        "Got {:?}",
                        cho_stmt.lhs
                    );
                }
                other => panic!("Got {:?}", other),
            }
        }
    };
}

#[test]
fn snippet_of_multibyte_text() {
    let parser = Parser::new("cho tên = 1");
    assert_eq!(parser.get_snippet(4, 4), "tên");
    assert_eq!(parser.cur_lexeme_snippet(), "cho");
    assert!(parser.cur_lexeme_snippet_is("cho"));
    assert!(Keyword::check(&parser, Keyword::Cho));
    assert!(!Keyword::check(&parser, Keyword::Trong));
}

#[test]
fn lines_are_counted() {
    let mut parser = Parser::new("\n\na");
    assert_eq!(parser.cur_line, 2);
    parser.skip_ws_if_any(true);
    assert_eq!(parser.cur_line, 3);
    assert_eq!(parser.cur_lexeme.kind, Kind::Word);
    assert_eq!(parser.cur_pos, 2);
}

#[test]
fn programme_of_statements() {
    let prog = parse("cho x = 1 + 2 * 3\n\ntrong x\nf(1)\n").unwrap();
    assert_eq!(prog.statements.len(), 3);
    assert_eq!(prog.lines, vec![1, 3, 4]);
    assert!(matches!(prog.statements[0], Statement::Cho(_)));
    assert!(matches!(prog.statements[1], Statement::In(_)));
    assert!(matches!(prog.statements[2], Statement::Invocation(_)));
}

#[test]
fn multi_word_name() {
    let prog = parse("cho my  long name = 2").unwrap();
    match &prog.statements[0] {
        Statement::Cho(c) => assert!(matches!(c.lhs, Ident((4, 13)))),
        other => panic!("Got {:?}", other),
    }
}

#[test]
fn empty_programme() {
    let prog = parse("  \n\t\n").unwrap();
    assert!(prog.statements.is_empty());
}

#[test]
fn unterminated_tuple_is_unclosed_parenthesis() {
    let (_, data) = parse_error("trong (1, 2");
    assert!(matches!(
        data,
        DiagData::Error(Error::BracketNotClosed { kind: BracketKind::Parenthesis })
    ));
    assert_eq!(data.message(), "This parenthesis has not been closed.");
}

#[test]
fn missing_operand_after_operator() {
    let (line, data) = parse_error("cho a = 1 +\n\n");
    assert_eq!(line, 3);
    assert_eq!(data.message(), "Expecting an expression after operator");
}

#[test]
fn declaration_needs_a_name() {
    let (_, data) = parse_error("cho = 1");
    assert_eq!(data.message(), "Expecting the left-hand side for declaration");
}

#[test]
fn print_needs_an_expression() {
    let (_, data) = parse_error("trong");
    assert_eq!(data.message(), "Expecting an expression to print");
}

#[test]
fn bare_name_is_no_statement() {
    let (_, data) = parse_error("x");
    assert_eq!(data.message(), "Expecting a statement");
}

#[test]
fn field_needs_a_name_after_period() {
    let (_, data) = parse_error("a.(1)");
    assert_eq!(data.message(), "Expecting a terminal expression after `.`");
}

#[test]
fn unexpected_lexeme_message() {
    let data = DiagData::Error(Error::UnexpectedLexeme {
        expected: vec![Kind::Word, Kind::Comma],
        found: Kind::Eof,
    });
    assert_eq!(
        data.message(),
        "Unexpected lexeme: expected a word, a comma ',', found end of file"
    );
    assert_eq!(DiagData::print_vec(&vec![]), "");
}

#[test]
fn nesting_limit() {
    let deep = format!("trong {}1{}", "(".repeat(300), ")".repeat(300));
    let (_, data) = parse_error(&deep);
    assert_eq!(data.message(), "Brackets nest deeper than 200 levels");
    let fine = format!("trong {}1{}", "(".repeat(100), ")".repeat(100));
    assert!(parse(&fine).is_some());
}

#[test]
fn path_nests_left_in_source_order() {
    let mut parser = Parser::new("a.b.c");
    let path = PathExpr::accept(&mut parser).unwrap().unwrap();
    assert_eq!(parser.cur_lexeme.kind, Kind::Eof);
    match path {
        PathExpr::WithFields { lhs, rhs } => {
            assert!(matches!(rhs.name, Ident((4, 1))) && rhs.args.is_none());
            match *lhs {
                PathExpr::WithFields { lhs, rhs } => {
                    assert!(matches!(rhs.name, Ident((2, 1))));
                    match *lhs {
                        PathExpr::Root(TerminalExpr::Field(f)) => {
                            assert!(matches!(f.name, Ident((0, 1))) && f.args.is_none())
                        }
                        other => panic!("Got {:?}", other),
                    }
                }
                other => panic!("Got {:?}", other),
            }
        }
        other => panic!("Got {:?}", other),
    }
}

#[test]
fn product_stops_at_plus() {
    let mut parser = Parser::new("2 * 3 + 4");
    let m = MulAffixedExpr::accept(&mut parser).unwrap().unwrap();
    assert!(m.rhs.0 && m.lhs.is_some());
    assert_eq!(parser.cur_lexeme.kind, Kind::Plus);
    assert_eq!(parser.cur_pos, 6);
}

#[test]
fn field_takes_arguments_when_parenthesis_follows() {
    let mut parser = Parser::new("f (1, 2)");
    let f = Field::accept(&mut parser).unwrap().unwrap();
    assert_eq!(f.args.unwrap().0.len(), 2);
    let mut parser = Parser::new("g + 1");
    let g = Field::accept(&mut parser).unwrap().unwrap();
    assert!(g.args.is_none());
}

#[test]
fn lone_minus_is_an_error() {
    let (_, data) = parse_error("trong -");
    assert_eq!(data.message(), "Expecting an expression");
}
