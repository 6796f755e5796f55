use gelato::app::calculator::Calculator;
use gelato::ast::{Abstraction, Group, Statement, Statements, Term};
use gelato::error::ASTError;
use gelato::lexer::ident::Ident;
use gelato::lexer::span::Span;
use gelato::lexer::tokens::Tokens;
use gelato::lexer::Lexer;
use gelato::parse::{parse_line, FromTokens};
use gelato::render::remove_multiple_whitespace;

fn tokens(text: &str) -> Tokens {
    Lexer::new(text.to_string()).parse()
}

fn parsed(text: &str) -> Result<Statements, ASTError> {
    Statements::from_tokens(&mut tokens(text))
}

fn message(text: &str) -> String {
    match parsed(text) {
        Ok(statements) => panic!("{} was accepted as {}", text, statements.to_string()),
        Err(ASTError::Syntax(message)) => message,
        Err(ASTError::EmptyTokenList) => panic!("{} reported the end of the tokens", text),
    }
}

fn rendered(text: &str) -> String {
    match parsed(text) {
        Ok(statements) => statements.to_string(),
        Err(error) => panic!("{} was refused: {}", text, error.to_string()),
    }
}

fn term(name: &str) -> Term {
    Term { name: Ident { span: Span::new(0..0), ident: name.to_string() } }
}

#[test]
fn missing_identifier_is_refused() {
    assert_eq!(message("\\"), "expected identifier");
    assert_eq!(message("\\ 1 . x"), "expected identifier");
    assert_eq!(message("\\ . x"), "expected identifier");
    assert_eq!(message("\\ (x) . x"), "expected identifier");
    assert_eq!(message("a \\"), "expected identifier");
}

#[test]
fn missing_dot_is_refused() {
    assert_eq!(message("\\x"), "Expected Punt");
    assert_eq!(message("\\x y"), "Expected Punct");
    assert_eq!(message("\\x (y)"), "Expected Punct");
    assert_eq!(message("\\x , y"), "Failed to locate '.'");
    assert_eq!(message("\\x \\ y"), "Failed to locate '.'");
}

#[test]
fn empty_bodies_are_refused() {
    assert_eq!(message("\\x."), "abstraction requires a body");
    assert_eq!(message("(\\x.) a"), "abstraction requires a body");
    assert_eq!(message("()"), "group requires a body");
    assert_eq!(message("a ( ) b"), "group requires a body");
    assert_eq!(message("(a ()) b"), "group requires a body");
}

#[test]
fn invalid_leading_tokens_are_refused() {
    assert_eq!(message("1"), "invalid syntax");
    assert_eq!(message("a 12 b"), "invalid syntax");
    assert_eq!(message(". a"), "invalid syntax");
    assert_eq!(message("a = b"), "invalid syntax");
    assert_eq!(message("(a + b)"), "invalid syntax");
    assert_eq!(message("\\x.x \"1\""), "invalid syntax");
}

#[test]
fn first_violation_is_reported() {
    assert_eq!(message("1 \\"), "invalid syntax");
    assert_eq!(message("() 1"), "group requires a body");
    assert_eq!(message("(\\x) 1"), "Expected Punt");
}

#[test]
fn error_lines() {
    assert_eq!(
        ASTError::Syntax("invalid syntax".to_string()).to_string(),
        "Syntax error: invalid syntax"
    );
    assert_eq!(ASTError::EmptyTokenList.to_string(), "Finished Reading");
    match Calculator::new("\\x.") {
        Err(error) => assert_eq!(error.to_string(), "Syntax error: abstraction requires a body"),
        Ok(_) => panic!("an abstraction without a body was accepted"),
    }
}

#[test]
fn empty_line_is_an_empty_program() {
    match parsed("") {
        Ok(statements) => assert_eq!(statements.statements.len(), 0),
        Err(error) => panic!("refused: {}", error.to_string()),
    }
    match parsed("  \t \n") {
        Ok(statements) => assert_eq!(statements.statements.len(), 0),
        Err(error) => panic!("refused: {}", error.to_string()),
    }
}

#[test]
fn one_statement_at_a_time() {
    let mut line = tokens("a (b c) \\x.x y");
    match Statement::from_tokens(&mut line) {
        Ok(Statement::Term(first)) => assert_eq!(first.to_string(), "a"),
        other => panic!("expected a term, found {:?}", other),
    }
    assert_eq!(line.next, 1);
    match Statement::from_tokens(&mut line) {
        Ok(Statement::Group(second)) => {
            assert_eq!(second.statements.statements.len(), 2);
            assert!(second.only_contains_terms());
        }
        other => panic!("expected a group, found {:?}", other),
    }
    assert_eq!(line.next, 2);
    match Statement::from_tokens(&mut line) {
        Ok(Statement::Abstraction(third)) => {
            assert_eq!(third.variable.to_string(), "x");
            assert_eq!(third.next.statements.len(), 2);
            assert_eq!(third.to_string(), "λx.x y");
        }
        other => panic!("expected an abstraction, found {:?}", other),
    }
    assert_eq!(line.next, 7);
    assert!(matches!(Statement::from_tokens(&mut line), Err(ASTError::EmptyTokenList)));
    assert_eq!(line.next, 7);
}

#[test]
fn abstraction_takes_the_rest_of_its_level() {
    let program = parsed("(\\x.x y z) w").unwrap();
    assert_eq!(program.statements.len(), 2);
    match &program.statements[0] {
        Statement::Group(group) => {
            assert_eq!(group.statements.statements.len(), 1);
            assert!(!group.only_contains_terms());
            match &group.statements.statements[0] {
                Statement::Abstraction(abstraction) => {
                    assert_eq!(abstraction.next.statements.len(), 3);
                    assert!(abstraction.next_curried().is_none());
                }
                other => panic!("expected an abstraction, found {:?}", other),
            }
        }
        other => panic!("expected a group, found {:?}", other),
    }
    assert!(program.statements[1].is_term());
}

#[test]
fn brackets_of_every_kind_make_groups() {
    for text in ["(a b)", "{a b}", "[a b]", "<a b>"] {
        let program = parsed(text).unwrap();
        assert_eq!(program.statements.len(), 1);
        assert!(program.statements[0].is_group());
        assert!(!program.statements[0].is_term());
        assert!(!program.statements[0].is_abstraction());
        assert_eq!(program.to_string(), "a b");
    }
}

#[test]
fn rendering_reproduces_terms_with_single_spaces() {
    assert_eq!(rendered("a   b \t c"), "a b c");
    assert_eq!(rendered("  a\nb  "), "a b");
    assert_eq!(rendered("abc_DEF"), "abc_DEF");
}

#[test]
fn rendering_writes_lambda_and_drops_brackets() {
    assert_eq!(rendered("\\x.x"), "λx.x");
    assert_eq!(rendered("\\ x . x   y"), "λx.x y");
    assert_eq!(rendered("\\x.\\y.x y"), "λx.λy.x y");
    assert_eq!(rendered("(a)"), "a");
    assert_eq!(rendered("(\\a.\\b.a)(p)(q)"), "λa.λb.a p q");
    assert_eq!(rendered("a (b (c d)) e"), "a b c d e");
}

#[test]
fn rendering_each_kind_of_statement() {
    let name = term("n");
    assert_eq!(name.to_string(), "n");
    let abstraction = Abstraction {
        variable: term("x"),
        next: Statements {
            statements: vec![Statement::Term(term("x")), Statement::Term(term("y"))],
        },
    };
    assert_eq!(abstraction.to_string(), "λx.x y");
    let group = Group {
        statements: Statements {
            statements: vec![
                Statement::Term(term("f")),
                Statement::Abstraction(abstraction.clone()),
            ],
        },
    };
    assert_eq!(group.to_string(), "f λx.x y");
    assert_eq!(Statement::Group(group.clone()).to_string(), "f λx.x y");
    assert_eq!(Statement::Abstraction(abstraction).to_string(), "λx.x y");
    assert_eq!(Statement::Term(term("t")).to_string(), "t");
    assert_eq!(Statements { statements: vec![] }.to_string(), "");
    let hollow = Statements {
        statements: vec![
            Statement::Term(term("a")),
            Statement::Group(Group { statements: Statements { statements: vec![] } }),
            Statement::Term(term("b")),
        ],
    };
    assert_eq!(hollow.to_string(), "a b");
}

#[test]
fn white_space_is_collapsed() {
    assert_eq!(remove_multiple_whitespace("a  b".to_string()), "a b");
    assert_eq!(remove_multiple_whitespace("a \t\n b\t\tc".to_string()), "a b\tc");
    assert_eq!(remove_multiple_whitespace("  a".to_string()), " a");
    assert_eq!(remove_multiple_whitespace("a   ".to_string()), "a ");
    assert_eq!(remove_multiple_whitespace("".to_string()), "");
    assert_eq!(remove_multiple_whitespace("abc".to_string()), "abc");
    assert_eq!(remove_multiple_whitespace("a\u{a0}\u{a0}b".to_string()), "a\u{a0}b");
}

#[test]
fn curried_abstractions_are_found() {
    let program = parsed("\\x.\\y.x").unwrap();
    match program.statements.into_iter().next() {
        Some(Statement::Abstraction(mut outer)) => {
            match outer.next_curried() {
                Some(inner) => assert_eq!(inner.variable.to_string(), "y"),
                None => panic!("the inner abstraction was not found"),
            }
            match outer.next_curried_mut() {
                Some(inner) => inner.variable = term("z"),
                None => panic!("the inner abstraction was not found"),
            }
            assert_eq!(outer.to_string(), "λx.λz.x");
            match outer.next_curried_mut() {
                Some(inner) => assert!(inner.next_curried_mut().is_none()),
                None => panic!("the inner abstraction was not found"),
            }
        }
        other => panic!("expected an abstraction, found {:?}", other),
    }
}

#[test]
fn terms_are_compared_by_name() {
    let here = Term { name: Ident { span: Span::new(0..1), ident: "x".to_string() } };
    let there = Term { name: Ident { span: Span::new(7..8), ident: "x".to_string() } };
    assert!(here == there);
    assert!(here != term("y"));
    assert!(here.clone() == here);
}

#[test]
fn statements_grow_and_shrink_at_the_front() {
    let mut statements = Statements::new();
    assert!(statements.pop_front().is_none());
    statements.push_back(Statement::Term(term("b")));
    statements.push_front(Statement::Term(term("a")));
    statements.push_back(Statement::Term(term("c")));
    assert_eq!(statements.to_string(), "a b c");
    match statements.pop_front() {
        Some(front) => assert_eq!(front.to_string(), "a"),
        None => panic!("nothing at the front"),
    }
    assert_eq!(statements.clone().to_string(), "b c");
}

#[test]
fn cursor_stops_behind_the_token_that_broke_the_grammar() {
    let stop = |text: &str| {
        let mut line = tokens(text);
        assert!(Statements::from_tokens(&mut line).is_err());
        line.next
    };
    assert_eq!(stop("a \\"), 2);
    assert_eq!(stop("\\ 1 a"), 2);
    assert_eq!(stop("\\x"), 2);
    assert_eq!(stop("\\x y z"), 3);
    assert_eq!(stop("\\x , z"), 3);
    assert_eq!(stop("\\x."), 3);
    assert_eq!(stop("a () b"), 2);
    assert_eq!(stop("a (1) b"), 2);
    assert_eq!(stop("a b 1 c"), 3);
    assert_eq!(stop("\\x.a , b"), 5);
    let mut whole = tokens("a (b) \\x.x");
    assert!(Statements::from_tokens(&mut whole).is_ok());
    assert_eq!(whole.next, 6);
    let mut spent = Tokens { tokens: tokens("a b").tokens, next: 7 };
    match Statements::from_tokens(&mut spent) {
        Ok(statements) => assert_eq!(statements.statements.len(), 0),
        Err(error) => panic!("refused: {}", error.to_string()),
    }
    assert_eq!(spent.next, 7);
}

#[test]
fn layout_does_not_change_the_statements() {
    let shape = |statements: &Statements| format!("{:?}", statements.statements.len());
    let tight = parsed("(a)b(\\x.x(y))").unwrap();
    let loose = parsed("  [ a ]\tb  { \\ x . x < y > }\n").unwrap();
    assert_eq!(shape(&tight), shape(&loose));
    assert_eq!(tight.to_string(), loose.to_string());
    assert_eq!(tight.to_string(), "a b λx.x y");
    for program in [&tight, &loose] {
        assert!(program.statements[0].is_group());
        assert!(program.statements[1].is_term());
        match &program.statements[2] {
            Statement::Group(group) => match &group.statements.statements[0] {
                Statement::Abstraction(inner) => {
                    assert_eq!(inner.next.statements.len(), 2);
                    assert!(inner.next.statements[1].is_group());
                }
                other => panic!("expected an abstraction, found {:?}", other),
            },
            other => panic!("expected a group, found {:?}", other),
        }
    }
}

#[test]
fn a_line_is_parsed_in_one_call() {
    match parse_line("(\\x.x) y") {
        Ok(statements) => {
            assert_eq!(statements.statements.len(), 2);
            assert!(statements.is_well_formed());
            assert_eq!(statements.to_string(), "λx.x y");
        }
        Err(error) => panic!("refused: {}", error.to_string()),
    }
    match parse_line("(\\x.x) 1") {
        Err(ASTError::Syntax(message)) => assert_eq!(message, "invalid syntax"),
        other => panic!("expected a violation, found {:?}", other),
    }
}

