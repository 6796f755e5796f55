use gelato::app::macros::MacroTable;
use gelato::app::{App, Events, Response};
use gelato::lexer::delimiter::Delimiter;
use gelato::lexer::ident::Ident;
use gelato::lexer::literal::{LitKind, Literal};
use gelato::lexer::punct::Punct;
use gelato::lexer::span::Span;
use gelato::lexer::tokens::{Token, Tokens};
use gelato::lexer::{Lexer, Parse};

fn tokens(text: &str) -> Tokens {
    Lexer::new(text.to_string()).parse()
}

fn kinds(tokens: &Tokens) -> String {
    let mut out = String::new();
    for token in &tokens.tokens {
        match token {
            Token::Literal(_) => out.push('L'),
            Token::Ident(_) => out.push('I'),
            Token::Punct(_) => out.push('P'),
            Token::Group(group) => {
                out.push('(');
                out.push_str(&kinds(&group.tokens));
                out.push(')');
            }
        }
    }
    out
}

#[test]
fn scanning_a_line() {
    let line = tokens("(v x)(x<0>.0)");
    assert_eq!(line.next, 0);
    assert_eq!(kinds(&line), "(II)(I(L)PL)");
    match &line.tokens[0] {
        Token::Group(group) => {
            assert_eq!(group.open, '(');
            assert_eq!(group.close, ')');
            assert_eq!(group.span, Span::new(0..5));
            assert_eq!(group.tokens.tokens[1].span(), &Span::new(3..4));
        }
        other => panic!("expected a group, found {:?}", other),
    }
    match &line.tokens[1] {
        Token::Group(group) => {
            assert_eq!(group.span, Span::new(5..13));
            match &group.tokens.tokens[1] {
                Token::Group(inner) => {
                    assert_eq!(inner.open, '<');
                    assert_eq!(inner.close, '>');
                    assert_eq!(inner.span, Span::new(7..10));
                }
                other => panic!("expected a group, found {:?}", other),
            }
        }
        other => panic!("expected a group, found {:?}", other),
    }
}

#[test]
fn scanning_each_kind_of_token() {
    let line = tokens("  abc_D \\ 12\"3' \t.\n");
    assert_eq!(kinds(&line), "IPLP");
    assert_eq!(line.tokens[0].get_ident().unwrap().ident, "abc_D");
    assert_eq!(line.tokens[0].span(), &Span::new(2..7));
    assert_eq!(line.tokens[1].get_punct().unwrap().punct, "\\");
    assert_eq!(line.tokens[1].span(), &Span::new(8..9));
    let literal = line.tokens[2].get_literal().unwrap();
    assert_eq!(literal.value, "12\"3'");
    assert_eq!(literal.kind, LitKind::Number);
    assert_eq!(literal.span, Span::new(10..15));
    assert!(line.tokens[3].is_punct_subset("."));
    assert!(!line.tokens[3].is_punct_subset(","));
    assert!(!line.tokens[0].is_punct_subset("."));
}

#[test]
fn literal_kinds_follow_the_first_character() {
    assert_eq!(tokens("\"12").tokens[0].get_literal().unwrap().kind, LitKind::String);
    assert_eq!(tokens("7'").tokens[0].get_literal().unwrap().kind, LitKind::Number);
    let quote = tokens("'a'");
    assert_eq!(kinds(&quote), "PIP");
    let mut at_quote = Lexer::new("'1'".to_string());
    match Literal::parse(&mut at_quote) {
        Some(literal) => {
            assert_eq!(literal.kind, LitKind::Character);
            assert_eq!(literal.value, "'1'");
        }
        None => panic!("no literal"),
    }
}

#[test]
fn every_punctuation_symbol_is_one_token() {
    let line = tokens("~`!@#$%^&*-=+|;:',./\\?");
    assert_eq!(line.tokens.len(), 22);
    assert_eq!(kinds(&line), "PPPPPPPPPPPPPPPPPPPPPP");
    assert_eq!(line.to_string(), "~`!@#$%^&*-=+|;:',./\\?");
}

#[test]
fn scanning_stops_at_a_byte_that_starts_no_token() {
    assert_eq!(kinds(&tokens("a ) b")), "I");
    assert_eq!(kinds(&tokens("a \u{e9} b")), "I");
    assert_eq!(kinds(&tokens("a\rb")), "I");
    assert_eq!(kinds(&tokens("")), "");
}

#[test]
fn unterminated_group_closes_at_the_end_of_the_line() {
    let line = tokens("(a b");
    assert_eq!(kinds(&line), "(II)");
    match &line.tokens[0] {
        Token::Group(group) => {
            assert_eq!(group.close, '\0');
            assert_eq!(group.span, Span::new(0..4));
        }
        other => panic!("expected a group, found {:?}", other),
    }
    assert_eq!(kinds(&tokens("(")), "()");
    assert_eq!(kinds(&tokens("((a")), "((I))");
    assert_eq!(kinds(&tokens("(a  ")), "(I)");
}

#[test]
fn group_ends_at_a_stray_byte() {
    let line = tokens("(a ] b) c");
    assert_eq!(kinds(&line), "(I)I");
    match &line.tokens[0] {
        Token::Group(group) => {
            assert_eq!(group.close, '\0');
            assert_eq!(group.span, Span::new(0..4));
        }
        other => panic!("expected a group, found {:?}", other),
    }
    let empty = tokens("() a");
    assert_eq!(kinds(&empty), "()I");
    match &empty.tokens[0] {
        Token::Group(group) => {
            assert_eq!(group.close, '\0');
            assert_eq!(group.span, Span::new(0..2));
        }
        other => panic!("expected a group, found {:?}", other),
    }
}

#[test]
fn groups_close_with_their_own_bracket() {
    let line = tokens("{a [b] <c>} (d}");
    assert_eq!(kinds(&line), "(I(I)(I))(I)");
    match &line.tokens[1] {
        Token::Group(group) => {
            assert_eq!(group.open, '(');
            assert_eq!(group.close, '\0');
        }
        other => panic!("expected a group, found {:?}", other),
    }
}

#[test]
fn scanner_primitives() {
    let mut lexer = Lexer::new("  a1(-".to_string());
    assert!(!lexer.is_next_ident());
    lexer.skip_whitespace();
    assert!(lexer.is_next_ident());
    assert!(!lexer.is_next_literal() && !lexer.is_next_group() && !lexer.is_next_punct());
    assert_eq!(lexer.get_char(), 'a');
    assert_eq!(lexer.next_char(), 'a');
    assert!(lexer.is_next_literal());
    assert_eq!(lexer.next_char(), '1');
    assert!(lexer.is_next_group());
    assert_eq!(lexer.next_char(), '(');
    assert!(lexer.is_next_punct());
    assert_eq!(lexer.next_char(), '-');
    assert!(!lexer.is_next_ident());
    assert!(!lexer.is_next_literal() && !lexer.is_next_group() && !lexer.is_next_punct());
    lexer.skip_whitespace();
    assert_eq!(lexer.parse().tokens.len(), 0);
}

#[test]
fn parsing_single_tokens() {
    let mut lexer = Lexer::new("ab 1".to_string());
    let ident = Ident::parse(&mut lexer).unwrap();
    assert_eq!(ident.ident, "ab");
    assert_eq!(ident.span, Span::new(0..2));
    let nothing = Ident::parse(&mut lexer).unwrap();
    assert_eq!(nothing.ident, "");
    assert_eq!(nothing.span, Span::new(2..2));
    let no_punct = Punct::parse(&mut lexer).unwrap();
    assert_eq!(no_punct.punct, "");
    match Token::parse(&mut lexer) {
        Some(Token::Literal(literal)) => assert_eq!(literal.span, Span::new(3..4)),
        other => panic!("expected a literal, found {:?}", other),
    }
    assert!(Token::parse(&mut lexer).is_none());
    let mut dots = Lexer::new("..".to_string());
    let dot = Punct::parse(&mut dots).unwrap();
    assert!(dot.is_punct("."));
    assert!(!dot.is_punct(".."));
    assert_eq!(dot.span, Span::new(0..1));
    let mut odd = Lexer::new("xa b)c".to_string());
    let group = Delimiter::parse(&mut odd).unwrap();
    assert_eq!(group.open, 'x');
    assert_eq!(group.close, '\0');
    assert_eq!(group.tokens.tokens.len(), 2);
    assert_eq!(group.span, Span::new(0..5));
}

#[test]
fn token_queries() {
    let line = tokens("a . 1 (b)");
    assert!(line.tokens[0].is_ident() && !line.tokens[0].is_punct());
    assert!(line.tokens[1].is_punct() && !line.tokens[1].is_literal());
    assert!(line.tokens[2].is_literal() && !line.tokens[2].is_group());
    assert!(line.tokens[3].is_group() && !line.tokens[3].is_ident());
    assert!(line.tokens[0].get_punct().is_none() && line.tokens[0].get_group().is_none());
    assert!(line.tokens[1].get_ident().is_none() && line.tokens[1].get_literal().is_none());
    assert_eq!(line.tokens[3].get_group().unwrap().tokens.tokens.len(), 1);
    let inner = line.tokens[3].get_group().unwrap().tokens.tokens[0].get_ident().unwrap();
    assert_eq!(inner.ident, "b");
    assert!(line.tokens[0].get_ident().unwrap() != inner);
    assert!(line.tokens[0].get_ident().unwrap() == tokens("   a").tokens[0].get_ident().unwrap());
    assert!(line.tokens[1].get_punct().unwrap() == tokens(".").tokens[0].get_punct().unwrap());
    let one = tokens("   1").tokens[0].get_literal().unwrap();
    assert!(line.tokens[2].get_literal().unwrap() == one);
    assert!(line.tokens[2].get_literal().unwrap() != tokens("2").tokens[0].get_literal().unwrap());
}

#[test]
fn tokens_are_handed_out_in_order() {
    let mut line = tokens("a b");
    assert_eq!(line.next().unwrap().to_string(), "a");
    assert_eq!(line.next, 1);
    let copy = line.clone();
    assert_eq!(copy.next, 1);
    assert_eq!(line.next().unwrap().to_string(), "b");
    assert!(line.next().is_none());
    assert_eq!(line.next, 2);
    assert_eq!(line.tokens.len(), 2);
    assert_eq!(copy.to_string(), "b");
}

#[test]
fn token_text_keeps_the_spacing_inside_groups() {
    assert_eq!(tokens("a  b").to_string(), "ab");
    assert_eq!(tokens("(\\b.\\t.\\f.b t   f)").to_string(), "(\\b.\\t.\\f.b t   f)");
    assert_eq!(tokens("( a (b  c) )x").to_string(), "(a (b  c))x");
    let line = tokens("(a) 1 . b");
    assert_eq!(line.tokens[0].to_string(), "(a)");
    assert_eq!(line.tokens[1].to_string(), "1");
    assert_eq!(line.tokens[1].get_literal().unwrap().to_string(), "1");
    assert_eq!(line.tokens[2].get_punct().unwrap().to_string(), ".");
    assert_eq!(line.tokens[3].get_ident().unwrap().to_string(), "b");
    assert_eq!(line.tokens[0].get_group().unwrap().to_string(), "(a)");
    assert_eq!(tokens("()").to_string(), "(\0");
}

#[test]
fn token_text_of_hand_made_groups() {
    let ident = |name: &str, range: std::ops::Range<usize>| {
        Token::Ident(Ident { span: Span::new(range), ident: name.to_string() })
    };
    let group = Delimiter {
        span: Span::new(0..0),
        open: '[',
        close: ']',
        tokens: Tokens {
            tokens: vec![ident("a", 4..5), ident("b", 2..3), ident("c", 6..7)],
            next: 0,
        },
    };
    assert_eq!(group.to_string(), "[ab   c]");
    let later = Delimiter {
        span: Span::new(0..0),
        open: '[',
        close: ']',
        tokens: Tokens {
            tokens: vec![ident("a", 0..1), ident("b", 2..3), ident("c", 6..7)],
            next: 1,
        },
    };
    assert_eq!(later.to_string(), "[  b   c]");
    let spent = Delimiter {
        span: Span::new(0..0),
        open: '<',
        close: '>',
        tokens: Tokens { tokens: vec![ident("a", 0..1)], next: 5 },
    };
    assert_eq!(spent.to_string(), "<>");
    assert_eq!(Tokens { tokens: vec![ident("a", 0..1)], next: 5 }.to_string(), "");
}

#[test]
fn commands_are_recognised() {
    let app = App::new();
    assert_eq!(app.process_message(&"exit()".to_string()), Events::Exit);
    assert_eq!(app.process_message(&"  exit() \n".to_string()), Events::Exit);
    assert_eq!(app.process_message(&"\tclear()\n".to_string()), Events::Clear);
    assert_eq!(app.process_message(&"exit ()".to_string()), Events::Nothing);
    assert_eq!(app.process_message(&"(\\x.x) a\n".to_string()), Events::Nothing);
    assert_eq!(app.process_message(&"".to_string()), Events::Nothing);
    assert_eq!(Events::Exit.clone(), Events::Exit);
}

#[test]
fn macro_definitions_are_recognised() {
    let app = App::new();
    assert_eq!(
        app.process_message(&"#id = \\x.x\n".to_string()),
        Events::CreateMacro("#id".to_string(), "\\x.x".to_string())
    );
    assert_eq!(
        app.process_message(&"# if = (\\b.\\t.\\f.b t f)".to_string()),
        Events::CreateMacro("#if".to_string(), "(\\b.\\t.\\f.b t f)".to_string())
    );
    assert_eq!(
        app.process_message(&"#two = (# one  # one)".to_string()),
        Events::CreateMacro("#two".to_string(), "(#one  #one)".to_string())
    );
    assert_eq!(
        app.process_message(&"#e =".to_string()),
        Events::CreateMacro("#e".to_string(), "".to_string())
    );
    assert_eq!(app.process_message(&"# = a".to_string()), Events::Nothing);
    assert_eq!(app.process_message(&"#a b".to_string()), Events::Nothing);
    assert_eq!(app.process_message(&"#a".to_string()), Events::Nothing);
    assert_eq!(app.process_message(&"#".to_string()), Events::Nothing);
    assert_eq!(app.process_message(&"a = b".to_string()), Events::Nothing);
    assert_eq!(app.process_message(&"#1 = b".to_string()), Events::Nothing);
    let mut line = tokens("#m = a b");
    assert_eq!(app.parse_macro(&mut line), Some(("#m".to_string(), "ab".to_string())));
    assert_eq!(line.tokens.len(), 5);
    assert_eq!(line.next, 3);
    let mut other = tokens("m = a");
    assert_eq!(app.parse_macro(&mut other), None);
    assert_eq!(other.next, 1);
    let mut short = tokens("#m");
    assert_eq!(app.parse_macro(&mut short), None);
    assert_eq!(short.next, 2);
    let mut wrong = tokens("#m b c");
    assert_eq!(app.parse_macro(&mut wrong), None);
    assert_eq!(wrong.next, 3);
    let mut number = tokens("#1 = c");
    assert_eq!(app.parse_macro(&mut number), None);
    assert_eq!(number.next, 2);
}

#[test]
fn macros_are_applied_in_the_order_of_their_definition() {
    let mut app = App::new();
    let mut untouched = "#a b".to_string();
    app.apply_macros(&mut untouched);
    assert_eq!(untouched, "#a b");
    app.insert_macro("#a", "(\\x.x)");
    app.insert_macro("#b", "#a #a");
    assert_eq!(app.defined_macros().len(), 2);
    assert_eq!(app.defined_macros()[1], ("#b".to_string(), "(\\x.x) (\\x.x)".to_string()));
    let mut text = "#b #a c".to_string();
    app.apply_macros(&mut text);
    assert_eq!(text, "(\\x.x) (\\x.x) (\\x.x) c");
    app.insert_macro("#a", "y");
    assert_eq!(app.defined_macros().len(), 2);
    assert_eq!(app.defined_macros()[0], ("#a".to_string(), "y".to_string()));
    let mut again = "#a #b".to_string();
    app.apply_macros(&mut again);
    assert_eq!(again, "y (\\x.x) (\\x.x)");
}

#[test]
fn a_line_with_macros_is_evaluated() {
    let mut app = App::new();
    match app.process_message(&"#false = (\\x.\\y.y)".to_string()) {
        Events::CreateMacro(name, text) => app.insert_macro(&name, &text),
        other => panic!("expected a macro, found {:?}", other),
    }
    let line = "(\\b.\\t.\\f.b t f) #false a b".to_string();
    assert_eq!(app.process_message(&line), Events::Nothing);
    assert!(matches!(app.take_line(line), Response::Reduce));
    assert_eq!(app.held().statements().to_string(), "λb.λt.λf.b t f λx.λy.y a b");
    let mut last = String::new();
    let mut steps = 0;
    while app.step().is_running() {
        last = app.held().statements().to_string();
        steps += 1;
        assert!(steps < 50);
    }
    assert_eq!(last, "b");
}

#[test]
fn lines_are_taken_in() {
    let mut app = App::new();
    assert!(matches!(app.take_line("#id = (\\x.x)\n".to_string()), Response::Nothing));
    assert_eq!(app.defined_macros(), &vec![("#id".to_string(), "(\\x.x)".to_string())]);
    assert!(!app.held().state.is_some());
    assert!(matches!(app.take_line("  clear()\n".to_string()), Response::Clear));
    assert!(matches!(app.take_line("#id a\n".to_string()), Response::Reduce));
    assert_eq!(app.held().statements().to_string(), "λx.x a");
    assert!(app.held().can_step());
    match app.take_line("#id \\\n".to_string()) {
        Response::Refused(error) => {
            assert_eq!(error.to_string(), "Syntax error: expected identifier")
        }
        other => panic!("expected a refusal, found {:?}", other),
    }
    assert_eq!(app.held().statements().to_string(), "λx.x a");
    assert!(matches!(app.take_line("exit()".to_string()), Response::Exit));
    assert_eq!(app.defined_macros().len(), 1);
    assert!(matches!(app.take_line("".to_string()), Response::Reduce));
    assert_eq!(app.held().statements().statements.len(), 0);
}

#[test]
fn a_name_is_defined_once() {
    let mut table = MacroTable::new();
    assert_eq!(table.entries().len(), 0);
    table.insert("#a".to_string(), "1".to_string());
    table.insert("#b".to_string(), "2".to_string());
    table.insert("#a".to_string(), "3".to_string());
    table.insert("#c".to_string(), "#a".to_string());
    assert_eq!(
        table.entries(),
        &vec![
            ("#a".to_string(), "3".to_string()),
            ("#b".to_string(), "2".to_string()),
            ("#c".to_string(), "#a".to_string()),
        ]
    );
    let mut text = "#c #b #a #d".to_string();
    table.apply(&mut text);
    assert_eq!(text, "#a 2 3 #d");
}

fn assert_laid_out(tokens: &Tokens, low: usize, high: usize) {
    let mut reached = low;
    for token in &tokens.tokens {
        let span = token.span();
        assert!(reached <= span.range.start, "{:?} starts before {}", token, reached);
        assert!(span.range.start < span.range.end, "{:?} covers nothing", token);
        assert!(span.range.end <= high, "{:?} ends after {}", token, high);
        if let Token::Group(group) = token {
            assert_laid_out(&group.tokens, span.range.start + 1, span.range.end);
        }
        reached = span.range.end;
    }
}

#[test]
fn scanned_tokens_lie_one_behind_the_other() {
    for line in ["(v x)(x<0>.0)", "  a(b [c {d} e]  ) \\x.x 12 ((", "(a ] b) c", "()"] {
        assert_laid_out(&tokens(line), 0, line.len());
    }
}

#[test]
fn a_closed_group_ends_in_its_own_bracket() {
    let line = "x {a (b) c }  y";
    let scanned = tokens(line);
    match &scanned.tokens[1] {
        Token::Group(group) => {
            assert_eq!(group.open, '{');
            assert_eq!(group.close, '}');
            assert_eq!(group.span, Span::new(2..12));
            assert_eq!(&line[group.span.range.end - 1..group.span.range.end], "}");
            assert_eq!(group.tokens.tokens.len(), 3);
        }
        other => panic!("expected a group, found {:?}", other),
    }
}

