use gelato::app::calculator::Calculator;
use gelato::app::state::{AppState, ControlFlow};
use gelato::ast::{Abstraction, Group, Statement, Statements, Term};
use gelato::lexer::ident::Ident;
use gelato::lexer::span::Span;

fn term(name: &str) -> Term {
    Term { name: Ident { span: Span::new(0..0), ident: name.to_string() } }
}

fn var(name: &str) -> Statement {
    Statement::Term(term(name))
}

fn run(statements: Vec<Statement>) -> Statements {
    Statements { statements }
}

fn lambda(name: &str, body: Vec<Statement>) -> Statement {
    Statement::Abstraction(Abstraction { variable: term(name), next: run(body) })
}

fn group(items: Vec<Statement>) -> Statement {
    Statement::Group(Group { statements: run(items) })
}

fn calculator(text: &str) -> Calculator {
    match Calculator::new(text) {
        Ok(calculator) => calculator,
        Err(error) => panic!("{} was refused: {}", text, error.to_string()),
    }
}

fn shown(calculator: &Calculator) -> String {
    calculator.statements().to_string()
}

#[test]
fn bare_term_is_finished_at_once() {
    let mut state = AppState { statements: run(vec![var("x")]) };
    assert_eq!(state.step(), ControlFlow::Finished);
    assert_eq!(state.statements.to_string(), "x");
    assert_eq!(state.statements.statements.len(), 1);
}

#[test]
fn bare_term_from_text_is_finished_at_once() {
    let mut calc = calculator("x");
    assert_eq!(calc.step(), ControlFlow::Finished);
    assert_eq!(shown(&calc), "x");
}

#[test]
fn term_followed_by_more_is_finished() {
    let mut calc = calculator("x (\\a.a) y");
    assert_eq!(calc.step(), ControlFlow::Finished);
    assert_eq!(shown(&calc), "x λa.a y");
}

#[test]
fn empty_program_is_finished() {
    let mut state = AppState { statements: run(vec![]) };
    assert_eq!(state.step(), ControlFlow::Finished);
    assert_eq!(state.statements.statements.len(), 0);
    let mut none = Calculator::empty();
    assert_eq!(none.step(), ControlFlow::Finished);
    assert_eq!(shown(&none), "");
}

#[test]
fn currying_binds_one_argument_per_step() {
    let mut calc = calculator("(\\a.\\b.a)(p)(q)");
    assert_eq!(shown(&calc), "λa.λb.a p q");
    assert_eq!(calc.step(), ControlFlow::Running);
    assert_eq!(shown(&calc), "λb.p q");
    let after_first = calc.statements();
    assert_eq!(after_first.statements.len(), 2);
    match &after_first.statements[0] {
        Statement::Group(outer) => match &outer.statements.statements[0] {
            Statement::Abstraction(inner) => {
                assert_eq!(inner.variable.to_string(), "b");
                assert_eq!(inner.next.statements.len(), 1);
                assert!(inner.next.statements[0].is_group());
                assert_eq!(inner.next.to_string(), "p");
            }
            other => panic!("expected an abstraction, found {:?}", other),
        },
        other => panic!("expected a group, found {:?}", other),
    }
    assert_eq!(calc.step(), ControlFlow::Running);
    assert_eq!(shown(&calc), "p");
    let after_second = calc.statements();
    assert_eq!(after_second.statements.len(), 1);
    assert!(after_second.statements[0].is_group());
    assert_eq!(calc.step(), ControlFlow::Finished);
    assert_eq!(shown(&calc), "p");
    assert!(calc.statements().statements[0].is_term());
    assert_eq!(calc.step(), ControlFlow::Finished);
    assert_eq!(shown(&calc), "p");
}

#[test]
fn church_false_picks_its_second_argument() {
    let mut calc = calculator("(\\b.\\t.\\f.b t f)(\\x.\\y.y) a b");
    let mut forms: Vec<String> = Vec::new();
    let mut steps = 0;
    while calc.step().is_running() {
        forms.push(shown(&calc));
        steps += 1;
        assert!(steps < 50, "no end in sight");
    }
    assert_eq!(
        forms,
        vec![
            "λt.λf.λx.λy.y t f a b".to_string(),
            "λf.λx.λy.y a f b".to_string(),
            "λx.λy.y a b".to_string(),
            "λy.y b".to_string(),
            "b".to_string(),
        ]
    );
    assert_eq!(shown(&calc), "b");
    assert_eq!(calc.statements().statements.len(), 1);
    assert!(calc.statements().statements[0].is_term());
}

#[test]
fn self_application_never_finishes() {
    let mut calc = calculator("(\\x.x x)(\\x.x x)");
    let start = shown(&calc);
    assert_eq!(start, "λx.x x λx.x x");
    for _ in 0..200 {
        assert_eq!(calc.step(), ControlFlow::Running);
        assert!(calc.statements().is_well_formed());
        assert_eq!(shown(&calc), start);
        assert_eq!(calc.statements().statements.len(), 2);
    }
}

#[test]
fn shadowed_occurrences_are_untouched() {
    let mut calc = calculator("(\\x.x (\\x.x) (\\y.x y) x) a");
    assert_eq!(calc.step(), ControlFlow::Running);
    assert_eq!(shown(&calc), "a λx.x λy.a y a");
    let program = calc.statements();
    assert_eq!(program.statements.len(), 4);
    match &program.statements[1] {
        Statement::Group(shadow) => match &shadow.statements.statements[0] {
            Statement::Abstraction(inner) => {
                assert_eq!(inner.variable.to_string(), "x");
                assert_eq!(inner.next.to_string(), "x");
            }
            other => panic!("expected an abstraction, found {:?}", other),
        },
        other => panic!("expected a group, found {:?}", other),
    }
}

#[test]
fn replace_names_replaces_free_occurrences_only() {
    let mut body = run(vec![
        var("x"),
        var("y"),
        lambda("x", vec![var("x")]),
        lambda("z", vec![var("x"), var("z")]),
        group(vec![var("x")]),
    ]);
    AppState::replace_names(&mut body, &term("x"), &var("v"));
    assert_eq!(body.to_string(), "v y λx.x λz.v z v");
    assert_eq!(body.statements.len(), 5);
}

#[test]
fn replace_names_captures_free_variables() {
    let mut body = run(vec![lambda("y", vec![var("x")])]);
    AppState::replace_names(&mut body, &term("x"), &var("y"));
    assert_eq!(body.to_string(), "λy.y");
}

#[test]
fn abstraction_as_value_replaces_first_term_and_stops() {
    let mut body = run(vec![var("z"), var("x"), group(vec![var("x"), var("x")])]);
    let value = lambda("y", vec![var("y")]);
    AppState::replace_names(&mut body, &term("x"), &value);
    assert_eq!(body.statements.len(), 3);
    assert!(body.statements[0].is_group());
    assert_eq!(body.statements[0].to_string(), "λy.y");
    assert_eq!(body.statements[1].to_string(), "x");
    assert_eq!(body.statements[2].to_string(), "x x");
}

#[test]
fn abstraction_as_value_stops_in_each_run_of_its_own() {
    let mut body = run(vec![
        group(vec![var("x"), var("x")]),
        lambda("x", vec![var("x")]),
        var("a"),
        var("b"),
    ]);
    let value = lambda("y", vec![var("y")]);
    AppState::replace_names(&mut body, &term("x"), &value);
    assert_eq!(body.statements[0].to_string(), "λy.y x");
    assert_eq!(body.statements[1].to_string(), "λx.x");
    assert_eq!(body.statements[2].to_string(), "λy.y");
    assert!(body.statements[2].is_group());
    assert_eq!(body.statements[3].to_string(), "b");
}

#[test]
fn applying_to_a_bare_abstraction() {
    let mut calc = calculator("(\\x.x x) \\y.y");
    assert_eq!(calc.step(), ControlFlow::Running);
    assert_eq!(shown(&calc), "λy.y x");
    let program = calc.statements();
    assert_eq!(program.statements.len(), 2);
    assert!(program.statements[0].is_group());
    assert!(program.statements[1].is_term());
}

#[test]
fn push_statements_front_keeps_order() {
    let mut target = run(vec![var("c"), var("d")]);
    let rhs = run(vec![var("a"), var("b")]);
    AppState::push_statements_front(&mut target, &rhs);
    assert_eq!(target.to_string(), "a b c d");
    assert_eq!(rhs.to_string(), "a b");
    let mut same = run(vec![var("c")]);
    AppState::push_statements_front(&mut same, &run(vec![]));
    assert_eq!(same.to_string(), "c");
}

#[test]
fn group_that_starts_with_a_term_moves_its_input_to_the_front() {
    let mut calc = calculator("(a b) c d");
    assert_eq!(calc.step(), ControlFlow::Finished);
    assert_eq!(shown(&calc), "c a b d");
    assert_eq!(calc.statements().statements.len(), 4);
    assert_eq!(calc.step(), ControlFlow::Finished);
    assert_eq!(shown(&calc), "c a b d");
}

#[test]
fn group_without_input_loses_its_brackets() {
    let mut calc = calculator("(a b)");
    assert_eq!(calc.step(), ControlFlow::Finished);
    assert_eq!(calc.statements().statements.len(), 2);
    assert_eq!(calc.step(), ControlFlow::Finished);
    let mut lone = calculator("(\\x.x)");
    assert_eq!(lone.step(), ControlFlow::Finished);
    assert_eq!(shown(&lone), "λx.x");
    assert!(lone.statements().statements[0].is_abstraction());
    assert_eq!(lone.step(), ControlFlow::Finished);
}

#[test]
fn nested_group_drops_the_outer_input() {
    let mut calc = calculator("((a)) b");
    assert_eq!(calc.step(), ControlFlow::Running);
    assert_eq!(shown(&calc), "a");
    assert_eq!(calc.statements().statements.len(), 1);
}

#[test]
fn nested_group_is_applied_inside_the_outer_one() {
    let mut calc = calculator("((\\x.x) p q) r");
    assert_eq!(calc.step(), ControlFlow::Running);
    assert_eq!(shown(&calc), "p q");
    assert_eq!(calc.statements().statements.len(), 2);
}

#[test]
fn curried_chain_is_searched_for_a_group() {
    let mut calc = calculator("\\x.\\y.(\\z.z) y w");
    assert_eq!(shown(&calc), "λx.λy.λz.z y w");
    assert_eq!(calc.step(), ControlFlow::Running);
    assert_eq!(shown(&calc), "λx.λy.y w");
    assert_eq!(calc.step(), ControlFlow::Finished);
    assert_eq!(shown(&calc), "λx.λy.y w");
}

#[test]
fn deeper_curried_chain_is_searched_too() {
    let mut calc = calculator("\\a.\\b.\\c.(\\z.z z) c");
    assert_eq!(calc.step(), ControlFlow::Running);
    assert_eq!(shown(&calc), "λa.λb.λc.c c");
    assert_eq!(calc.step(), ControlFlow::Finished);
}

#[test]
fn group_at_the_head_of_an_abstraction_is_applied() {
    let mut calc = calculator("\\x.(\\y.y) a");
    assert_eq!(calc.step(), ControlFlow::Running);
    assert_eq!(shown(&calc), "λx.a");
    let program = calc.statements();
    assert_eq!(program.statements.len(), 1);
    match &program.statements[0] {
        Statement::Abstraction(outer) => {
            assert_eq!(outer.variable.to_string(), "x");
            assert_eq!(outer.next.statements.len(), 1);
            assert!(outer.next.statements[0].is_term());
            assert_eq!(outer.next.to_string(), "a");
        }
        other => panic!("expected an abstraction, found {:?}", other),
    }
    assert_eq!(calc.step(), ControlFlow::Finished);
    assert_eq!(shown(&calc), "λx.a");
    let mut bound = calculator("\\x.(\\y.y) x z");
    assert_eq!(bound.step(), ControlFlow::Running);
    assert_eq!(shown(&bound), "λx.x z");
    assert_eq!(bound.step(), ControlFlow::Finished);
}

#[test]
fn abstraction_that_ends_in_a_term_is_finished() {
    let mut plain = calculator("\\x.x");
    assert_eq!(plain.step(), ControlFlow::Finished);
    assert_eq!(shown(&plain), "λx.x");
    let mut curried = calculator("\\x.\\y.y (\\z.z) a");
    assert_eq!(curried.step(), ControlFlow::Finished);
    assert_eq!(shown(&curried), "λx.λy.y λz.z a");
}

#[test]
fn group_at_the_head_of_an_abstraction_without_input() {
    let mut calc = calculator("\\x.(\\y.y)");
    assert_eq!(calc.step(), ControlFlow::Running);
    assert_eq!(shown(&calc), "λx.λy.y");
    let program = calc.statements();
    match &program.statements[0] {
        Statement::Abstraction(outer) => assert!(outer.next_curried().is_some()),
        other => panic!("expected an abstraction, found {:?}", other),
    }
    assert_eq!(calc.step(), ControlFlow::Finished);
}

#[test]
fn body_that_stays_curried_is_kept_as_one_group() {
    let mut calc = calculator("(\\a.\\b.b a) p q");
    assert_eq!(calc.step(), ControlFlow::Running);
    let program = calc.statements();
    assert_eq!(program.statements.len(), 2);
    assert!(program.statements[0].is_group());
    assert_eq!(calc.step(), ControlFlow::Running);
    assert_eq!(shown(&calc), "q p");
    assert_eq!(calc.statements().statements.len(), 2);
}

#[test]
fn steps_keep_the_program_well_formed() {
    let mut calc = calculator("(\\f.\\x.f (f x)) (\\y.y) ((a)) (\\z.z z) b");
    let mut steps = 0;
    loop {
        assert!(calc.statements().is_well_formed());
        if !calc.step().is_running() || steps >= 40 {
            break;
        }
        steps += 1;
    }
    assert!(calc.statements().is_well_formed());
}

#[test]
fn well_formedness_is_decided() {
    assert!(run(vec![]).is_well_formed());
    assert!(run(vec![var("a"), group(vec![var("b")])]).is_well_formed());
    assert!(!run(vec![group(vec![])]).is_well_formed());
    assert!(!run(vec![lambda("x", vec![])]).is_well_formed());
    assert!(!run(vec![group(vec![lambda("x", vec![group(vec![])])])]).is_well_formed());
}

#[test]
fn control_flow_says_whether_it_runs() {
    assert!(ControlFlow::Running.is_running());
    assert!(!ControlFlow::Finished.is_running());
    assert!(ControlFlow::Finished < ControlFlow::Running);
}

#[test]
fn calculator_keeps_its_program_when_a_line_is_refused() {
    let mut calc = calculator("(\\x.x) a");
    assert!(calc.input("\\").is_err());
    assert_eq!(shown(&calc), "λx.x a");
    assert!(calc.input("b c").is_ok());
    assert_eq!(shown(&calc), "b c");
    assert!(calc.state.is_some());
    assert!(Calculator::empty().state.is_none());
    assert!(Calculator::new("(").is_err());
}
