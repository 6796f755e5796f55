use crate::ast::{AbstractionView, StatementView};
use crate::error::ASTErrorView;
use crate::lexer::delimiter::DelimiterView;
use crate::lexer::scan::{
    ident_byte, lemma_run_end, scan_ident, scan_token, scan_tokens, skip_blanks, span_of,
};
use crate::lexer::span::Span;
use crate::lexer::tokens::{TokenView, TokensView};
use crate::parse::{bytes_statements, parse_abstraction_at, parse_statements_at};
use crate::render::{
    collapse_to, collapse_whitespace, joined_to, no_runs, render_statement, render_statements,
    white_space,
};
use vstd::prelude::*;

verus! {

/// The span of a token that was written and not scanned.
pub open spec fn no_span() -> Span {
    span_of(0, 0)
}

/// The group token that holds `tokens` between round brackets.
pub open spec fn round_group(tokens: Seq<TokenView>) -> TokenView {
    TokenView::Group(
        DelimiterView {
            span: no_span(),
            open: '(',
            close: ')',
            tokens: TokensView { tokens, next: 0 },
        },
    )
}

/// The tokens that one statement is written with: an identifier for a
/// term; one group for a group; `\`, the variable, `.` and the body for an
/// abstraction.
pub open spec fn statement_tokens(statement: StatementView) -> Seq<TokenView>
    decreases statement, 0int,
{
    match statement {
        StatementView::Term(name) => seq![TokenView::Ident { span: no_span(), ident: name }],
        StatementView::Group(statements) => seq![round_group(tokens_from(statements, 0))],
        StatementView::Abstraction(abstraction) => seq![
            TokenView::Punct { span: no_span(), punct: "\\"@ },
            TokenView::Ident { span: no_span(), ident: abstraction.variable },
            TokenView::Punct { span: no_span(), punct: "."@ },
        ] + tokens_from(abstraction.next, 0),
    }
}

/// The tokens that the statements from index `at` on are written with.
pub open spec fn tokens_from(statements: Seq<StatementView>, at: int) -> Seq<TokenView>
    decreases statements, statements.len() - at,
{
    if at < 0 || at >= statements.len() {
        Seq::empty()
    } else {
        statement_tokens(statements[at]) + tokens_from(statements, at + 1)
    }
}

/// The tokens that a run of statements is written with.
pub open spec fn statements_tokens(statements: Seq<StatementView>) -> Seq<TokenView> {
    tokens_from(statements, 0)
}

/// Whether the statements have the form that parsing gives: no group and
/// no body is empty, and an abstraction is the last statement of its run,
/// since its body takes every token up to the end of the run.
pub open spec fn parsed_form(statements: Seq<StatementView>) -> bool
    decreases statements,
{
    forall|i: int|
        0 <= i < statements.len() ==> match #[trigger] statements[i] {
            StatementView::Abstraction(abstraction) => i == statements.len() - 1
                && abstraction.next.len() > 0 && parsed_form(abstraction.next),
            StatementView::Group(inner) => inner.len() > 0 && parsed_form(inner),
            StatementView::Term(_) => true,
        }
}

/// A token without what scanning adds to it: where it stood, which kind
/// of bracket a group had, and how far a group's cursor had moved.
pub open spec fn token_shape(token: TokenView) -> TokenView
    decreases token, 0int,
{
    match token {
        TokenView::Literal { kind, value, .. } => TokenView::Literal {
            span: no_span(),
            kind,
            value,
        },
        TokenView::Ident { ident, .. } => TokenView::Ident { span: no_span(), ident },
        TokenView::Punct { punct, .. } => TokenView::Punct { span: no_span(), punct },
        TokenView::Group(group) => round_group(
            shape_from(group.tokens.tokens, group.tokens.next as int),
        ),
    }
}

/// The shapes of the tokens from index `at` on.
pub open spec fn shape_from(tokens: Seq<TokenView>, at: int) -> Seq<TokenView>
    decreases tokens, tokens.len() - at,
{
    if at < 0 || at >= tokens.len() {
        Seq::empty()
    } else {
        seq![token_shape(tokens[at])] + shape_from(tokens, at + 1)
    }
}

/// What the tokens from `at` on stand for depends on those tokens alone.
pub proof fn lemma_parse_depends_on_rest(
    left: Seq<TokenView>,
    left_at: int,
    right: Seq<TokenView>,
    right_at: int,
)
    requires
        0 <= left_at <= left.len(),
        0 <= right_at <= right.len(),
        left.subrange(left_at, left.len() as int) == right.subrange(
            right_at,
            right.len() as int,
        ),
    ensures
        parse_statements_at(left, left_at) == parse_statements_at(right, right_at),
        parse_abstraction_at(left, left_at) == parse_abstraction_at(right, right_at),
    decreases left.len() - left_at,
{
    let left_rest = left.subrange(left_at, left.len() as int);
    let right_rest = right.subrange(right_at, right.len() as int);
    assert(left_rest.len() == right_rest.len());
    if left_at < left.len() {
        assert(left[left_at] == left_rest[0]);
        assert(right[right_at] == right_rest[0]);
        assert(left.subrange(left_at + 1, left.len() as int) == right.subrange(
            right_at + 1,
            right.len() as int,
        )) by {
            assert(left.subrange(left_at + 1, left.len() as int) =~= left_rest.subrange(
                1,
                left_rest.len() as int,
            ));
            assert(right.subrange(right_at + 1, right.len() as int) =~= right_rest.subrange(
                1,
                right_rest.len() as int,
            ));
        }
        lemma_parse_depends_on_rest(left, left_at + 1, right, right_at + 1);
        if left_at + 1 < left.len() {
            assert(left[left_at + 1] == left_rest[1]);
            assert(right[right_at + 1] == right_rest[1]);
            assert(left.subrange(left_at + 2, left.len() as int) == right.subrange(
                right_at + 2,
                right.len() as int,
            )) by {
                assert(left.subrange(left_at + 2, left.len() as int) =~= left_rest.subrange(
                    2,
                    left_rest.len() as int,
                ));
                assert(right.subrange(right_at + 2, right.len() as int) =~= right_rest.subrange(
                    2,
                    right_rest.len() as int,
                ));
            }
            lemma_parse_depends_on_rest(left, left_at + 2, right, right_at + 2);
        }
    }
}

/// A run of statements in parsed form, from index `at` on, is what its
/// own tokens stand for.
pub proof fn lemma_parse_of_tokens_from(statements: Seq<StatementView>, at: int)
    requires
        parsed_form(statements),
        0 <= at <= statements.len(),
    ensures
        parse_statements_at(tokens_from(statements, at), 0) == Ok::<
            Seq<StatementView>,
            ASTErrorView,
        >(statements.subrange(at, statements.len() as int)),
    decreases statements, statements.len() - at,
{
    let written = tokens_from(statements, at);
    let wanted = statements.subrange(at, statements.len() as int);
    if at < statements.len() {
        let after = tokens_from(statements, at + 1);
        let later = statements.subrange(at + 1, statements.len() as int);
        lemma_parse_of_tokens_from(statements, at + 1);
        assert(statements[at] == wanted[0]);
        let head = statement_tokens(statements[at]);
        assert(written == head + after);
        match statements[at] {
            StatementView::Term(name) => {
                assert(head == seq![TokenView::Ident { span: no_span(), ident: name }]);
                assert(written.subrange(1, written.len() as int) =~= after);
                assert(after.subrange(0, after.len() as int) =~= after);
                lemma_parse_depends_on_rest(written, 1, after, 0);
                assert(seq![statements[at]] + later =~= wanted);
                assert(written[0] == TokenView::Ident { span: no_span(), ident: name });
                assert(parse_statements_at(written, 0) == Ok::<
                    Seq<StatementView>,
                    ASTErrorView,
                >(wanted));
            },
            StatementView::Group(inner) => {
                lemma_parse_of_tokens_from(inner, 0);
                assert(inner.subrange(0, inner.len() as int) =~= inner);
                assert(head == seq![round_group(tokens_from(inner, 0))]);
                assert(written[0] == round_group(tokens_from(inner, 0)));
                assert(written.subrange(1, written.len() as int) =~= after);
                assert(after.subrange(0, after.len() as int) =~= after);
                lemma_parse_depends_on_rest(written, 1, after, 0);
                assert(seq![statements[at]] + later =~= wanted);
                assert(parse_statements_at(written, 0) == Ok::<
                    Seq<StatementView>,
                    ASTErrorView,
                >(wanted));
            },
            StatementView::Abstraction(abstraction) => {
                let body = tokens_from(abstraction.next, 0);
                lemma_parse_of_tokens_from(abstraction.next, 0);
                assert(abstraction.next.subrange(0, abstraction.next.len() as int)
                    =~= abstraction.next);
                assert(at == statements.len() - 1);
                assert(after =~= Seq::<TokenView>::empty());
                assert(head == seq![
                    TokenView::Punct { span: no_span(), punct: "\\"@ },
                    TokenView::Ident { span: no_span(), ident: abstraction.variable },
                    TokenView::Punct { span: no_span(), punct: "."@ },
                ] + body);
                assert(written.subrange(3, written.len() as int) =~= body);
                assert(body.subrange(0, body.len() as int) =~= body);
                lemma_parse_depends_on_rest(written, 3, body, 0);
                assert(written[0] == TokenView::Punct { span: no_span(), punct: "\\"@ });
                assert(written[1] == TokenView::Ident {
                    span: no_span(),
                    ident: abstraction.variable,
                });
                assert(written[2] == TokenView::Punct { span: no_span(), punct: "."@ });
                assert(seq![statements[at]] =~= wanted);
                assert(parse_abstraction_at(written, 1) == Ok::<AbstractionView, ASTErrorView>(
                    abstraction,
                ));
                assert(parse_statements_at(written, 0) == Ok::<
                    Seq<StatementView>,
                    ASTErrorView,
                >(wanted));
            },
        }
    } else {
        assert(wanted =~= Seq::<StatementView>::empty());
    }
}

/// Round trip, from statements. Statements in parsed form are what the
/// tokens they are written with stand for.
pub proof fn lemma_parse_of_written_statements(statements: Seq<StatementView>)
    requires
        parsed_form(statements),
    ensures
        parse_statements_at(statements_tokens(statements), 0) == Ok::<
            Seq<StatementView>,
            ASTErrorView,
        >(statements),
{
    lemma_parse_of_tokens_from(statements, 0);
    assert(statements.subrange(0, statements.len() as int) =~= statements);
}

/// The tokens of a run are the tokens of its first statement and those of
/// the statements after it.
proof fn lemma_tokens_of_prepended(first: StatementView, rest: Seq<StatementView>)
    ensures
        tokens_from(seq![first] + rest, 0) == statement_tokens(first) + tokens_from(rest, 0),
{
    let whole = seq![first] + rest;
    assert(whole.subrange(1, whole.len() as int) =~= rest);
    assert(rest.subrange(0, rest.len() as int) =~= rest);
    lemma_tokens_depend_on_rest(whole, 1, rest, 0);
}

/// The tokens of the statements from `at` on depend on those statements
/// alone.
proof fn lemma_tokens_depend_on_rest(
    left: Seq<StatementView>,
    left_at: int,
    right: Seq<StatementView>,
    right_at: int,
)
    requires
        0 <= left_at <= left.len(),
        0 <= right_at <= right.len(),
        left.subrange(left_at, left.len() as int) == right.subrange(
            right_at,
            right.len() as int,
        ),
    ensures
        tokens_from(left, left_at) == tokens_from(right, right_at),
    decreases left.len() - left_at,
{
    let left_rest = left.subrange(left_at, left.len() as int);
    let right_rest = right.subrange(right_at, right.len() as int);
    assert(left_rest.len() == right_rest.len());
    if left_at < left.len() {
        assert(left[left_at] == left_rest[0]);
        assert(right[right_at] == right_rest[0]);
        assert(left.subrange(left_at + 1, left.len() as int) =~= left_rest.subrange(
            1,
            left_rest.len() as int,
        ));
        assert(right.subrange(right_at + 1, right.len() as int) =~= right_rest.subrange(
            1,
            right_rest.len() as int,
        ));
        lemma_tokens_depend_on_rest(left, left_at + 1, right, right_at + 1);
    }
}

/// A statement in parsed form, put before a run in parsed form, gives a
/// run in parsed form, unless it is an abstraction with something after it.
proof fn lemma_parsed_form_of_prepended(first: StatementView, rest: Seq<StatementView>)
    requires
        parsed_form(rest),
        parsed_form(seq![first]),
        first is Abstraction ==> rest.len() == 0,
    ensures
        parsed_form(seq![first] + rest),
{
    let whole = seq![first] + rest;
    assert(seq![first][0] == first);
    assert forall|i: int| 0 <= i < whole.len() implies match #[trigger] whole[i] {
        StatementView::Abstraction(abstraction) => i == whole.len() - 1 && abstraction.next.len()
            > 0 && parsed_form(abstraction.next),
        StatementView::Group(inner) => inner.len() > 0 && parsed_form(inner),
        StatementView::Term(_) => true,
    } by {
        if i > 0 {
            assert(whole[i] == rest[i - 1]);
        } else {
            assert(whole[0] == first);
        }
    }
}

/// What parsing accepts, from index `at` on, is in parsed form and is
/// written with the shapes of the tokens it was read from.
pub proof fn lemma_tokens_of_parsed_from(tokens: Seq<TokenView>, at: int)
    requires
        0 <= at,
    ensures
        parse_statements_at(tokens, at) matches Ok(statements) ==> parsed_form(statements)
            && statements_tokens(statements) == shape_from(tokens, at),
    decreases tokens, tokens.len() - at,
{
    if at < tokens.len() {
        if let Ok(statements) = parse_statements_at(tokens, at) {
            match tokens[at] {
                TokenView::Ident { ident, .. } => {
                    lemma_tokens_of_parsed_from(tokens, at + 1);
                    let first = StatementView::Term(ident);
                    let rest = parse_statements_at(tokens, at + 1)->Ok_0;
                    assert(seq![first][0] == first);
                    lemma_parsed_form_of_prepended(first, rest);
                    lemma_tokens_of_prepended(first, rest);
                },
                TokenView::Group(group) => {
                    let inside = group.tokens.tokens;
                    let start = group.tokens.next as int;
                    let inner = parse_statements_at(inside, start)->Ok_0;
                    lemma_tokens_of_parsed_from(inside, start);
                    lemma_tokens_of_parsed_from(tokens, at + 1);
                    let first = StatementView::Group(inner);
                    let rest = parse_statements_at(tokens, at + 1)->Ok_0;
                    assert(seq![first][0] == first);
                    lemma_parsed_form_of_prepended(first, rest);
                    lemma_tokens_of_prepended(first, rest);
                },
                TokenView::Punct { punct, .. } => {
                    let abstraction = parse_abstraction_at(tokens, at + 1)->Ok_0;
                    let ident = tokens[at + 1]->ident;
                    lemma_tokens_of_parsed_from(tokens, at + 3);
                    let first = StatementView::Abstraction(abstraction);
                    assert(punct == "\\"@);
                    assert(tokens[at + 2]->punct == "."@);
                    assert(abstraction.next == parse_statements_at(tokens, at + 3)->Ok_0);
                    assert(shape_from(tokens, at + 2) == seq![token_shape(tokens[at + 2])]
                        + shape_from(tokens, at + 3));
                    assert(shape_from(tokens, at + 1) == seq![token_shape(tokens[at + 1])]
                        + shape_from(tokens, at + 2));
                    assert(shape_from(tokens, at) == seq![token_shape(tokens[at])] + shape_from(
                        tokens,
                        at + 1,
                    ));
                    assert(statements =~= seq![first]);
                    assert(tokens_from(statements, 0) == statement_tokens(first) + tokens_from(
                        statements,
                        1,
                    ));
                    assert(seq![first][0] == first);
                    assert(parsed_form(seq![first]));
                    assert(tokens_from(statements, 1) =~= Seq::<TokenView>::empty());
                    assert(shape_from(tokens, at) =~= seq![
                        TokenView::Punct { span: no_span(), punct: "\\"@ },
                        TokenView::Ident { span: no_span(), ident },
                        TokenView::Punct { span: no_span(), punct: "."@ },
                    ] + shape_from(tokens, at + 3));
                    assert(statements_tokens(statements) =~= shape_from(tokens, at));
                },
                TokenView::Literal { .. } => {},
            }
        }
    } else {
        assert(parsed_form(Seq::<StatementView>::empty()));
    }
}

/// Round trip, from tokens. When a run of tokens is accepted, writing the
/// parsed statements back as tokens gives the tokens that were read, group
/// for group: no brackets are added and none are removed. Only what the
/// scanner adds to a token is lost: where the token stood, and with it the
/// white space of the line, and which kind of bracket a group had.
pub proof fn lemma_written_statements_of_parsed(tokens: TokensView)
    ensures
        parse_statements_at(tokens.tokens, tokens.next as int) matches Ok(statements)
            ==> parsed_form(statements) && statements_tokens(statements) == shape_from(
            tokens.tokens,
            tokens.next as int,
        ),
{
    lemma_tokens_of_parsed_from(tokens.tokens, tokens.next as int);
}

/// The shapes of the tokens from `at` on are as many as those tokens, and
/// each is the shape of the token in its place.
pub proof fn lemma_shape_from(tokens: Seq<TokenView>, at: int)
    requires
        0 <= at <= tokens.len(),
    ensures
        shape_from(tokens, at).len() == tokens.len() - at,
        forall|i: int|
            0 <= i < tokens.len() - at ==> #[trigger] shape_from(tokens, at)[i] == token_shape(
                tokens[at + i],
            ),
    decreases tokens.len() - at,
{
    if at < tokens.len() {
        lemma_shape_from(tokens, at + 1);
        assert forall|i: int| 0 <= i < tokens.len() - at implies #[trigger] shape_from(
            tokens,
            at,
        )[i] == token_shape(tokens[at + i]) by {
            if i > 0 {
                assert(shape_from(tokens, at)[i] == shape_from(tokens, at + 1)[i - 1]);
            }
        }
    }
}

/// Parsing looks at the shapes of the tokens only: where the tokens stood
/// in the line, and so the white space between them, and which kind of
/// bracket a group had, change neither the statements nor the violation.
pub proof fn lemma_parse_ignores_layout(tokens: Seq<TokenView>, at: int)
    requires
        0 <= at,
    ensures
        parse_statements_at(tokens, at) == parse_statements_at(shape_from(tokens, at), 0),
        parse_abstraction_at(tokens, at) == parse_abstraction_at(shape_from(tokens, at), 0),
    decreases tokens, tokens.len() - at,
{
    let shapes = shape_from(tokens, at);
    if at < tokens.len() {
        lemma_shape_from(tokens, at);
        let later = shape_from(tokens, at + 1);
        lemma_parse_ignores_layout(tokens, at + 1);
        assert(shapes[0] == token_shape(tokens[at + 0]));
        assert(shapes.subrange(1, shapes.len() as int) =~= later);
        assert(later.subrange(0, later.len() as int) =~= later);
        lemma_parse_depends_on_rest(shapes, 1, later, 0);
        if let TokenView::Group(group) = tokens[at] {
            let inside = group.tokens.tokens;
            let start = group.tokens.next as int;
            lemma_parse_ignores_layout(inside, start);
        }
        if at + 1 < tokens.len() {
            let latest = shape_from(tokens, at + 2);
            lemma_parse_ignores_layout(tokens, at + 2);
            assert(shapes[1] == token_shape(tokens[at + 1]));
            assert(shapes.subrange(2, shapes.len() as int) =~= latest);
            assert(latest.subrange(0, latest.len() as int) =~= latest);
            lemma_parse_depends_on_rest(shapes, 2, latest, 0);
        }
    }
}

/// Two runs of tokens that differ in layout only stand for the same
/// statements, or break the grammar in the same way.
pub proof fn lemma_same_shape_same_statements(left: TokensView, right: TokensView)
    requires
        shape_from(left.tokens, left.next as int) == shape_from(right.tokens, right.next as int),
    ensures
        parse_statements_at(left.tokens, left.next as int) == parse_statements_at(
            right.tokens,
            right.next as int,
        ),
{
    lemma_parse_ignores_layout(left.tokens, left.next as int);
    lemma_parse_ignores_layout(right.tokens, right.next as int);
}

/// Whether a name is not empty and holds no white space, as every
/// identifier of a line is.
pub open spec fn plain_name(name: Seq<char>) -> bool {
    name.len() > 0 && forall|i: int| 0 <= i < name.len() ==> !white_space(#[trigger] name[i])
}

/// Whether every token is an identifier with a plain name.
pub open spec fn identifiers_only(tokens: Seq<TokenView>) -> bool {
    forall|i: int|
        0 <= i < tokens.len() ==> (#[trigger] tokens[i]) is Ident && plain_name(tokens[i]->ident)
}

/// The first `n` identifiers, with one space between each two.
pub open spec fn identifiers_joined(tokens: Seq<TokenView>, n: int) -> Seq<char>
    decreases n,
{
    if n <= 0 || n > tokens.len() {
        Seq::empty()
    } else if n == 1 {
        tokens[0]->ident
    } else {
        identifiers_joined(tokens, n - 1) + seq![' '] + tokens[n - 1]->ident
    }
}

/// The terms that a run of identifiers stands for.
pub open spec fn terms_of(tokens: Seq<TokenView>) -> Seq<StatementView> {
    Seq::new(tokens.len(), |i: int| StatementView::Term(tokens[i]->ident))
}

/// Identifiers from index `at` on are parsed into one term each.
proof fn lemma_identifiers_are_terms(tokens: Seq<TokenView>, at: int)
    requires
        identifiers_only(tokens),
        0 <= at <= tokens.len(),
    ensures
        parse_statements_at(tokens, at) == Ok::<Seq<StatementView>, ASTErrorView>(
            terms_of(tokens).subrange(at, tokens.len() as int),
        ),
    decreases tokens.len() - at,
{
    let wanted = terms_of(tokens).subrange(at, tokens.len() as int);
    if at < tokens.len() {
        lemma_identifiers_are_terms(tokens, at + 1);
        assert(tokens[at] is Ident);
        assert(seq![StatementView::Term(tokens[at]->ident)] + terms_of(tokens).subrange(
            at + 1,
            tokens.len() as int,
        ) =~= wanted);
    } else {
        assert(wanted =~= Seq::<StatementView>::empty());
    }
}

/// The texts of the first `n` terms, joined, are the first `n`
/// identifiers, joined.
proof fn lemma_terms_joined(tokens: Seq<TokenView>, n: int)
    requires
        0 <= n <= tokens.len(),
    ensures
        joined_to(terms_of(tokens), n) == identifiers_joined(tokens, n),
    decreases n,
{
    if n > 0 {
        lemma_terms_joined(tokens, n - 1);
        let terms = terms_of(tokens);
        assert(terms[n - 1] == StatementView::Term(tokens[n - 1]->ident));
        assert(render_statement(terms[n - 1]) == tokens[n - 1]->ident);
        assert(terms.len() == tokens.len());
    }
}

/// Plain identifiers, joined by single spaces, hold no run of white space
/// and end in a character that is none.
proof fn lemma_identifiers_joined_have_no_runs(tokens: Seq<TokenView>, n: int)
    requires
        identifiers_only(tokens),
        0 < n <= tokens.len(),
    ensures
        no_runs(identifiers_joined(tokens, n)),
        identifiers_joined(tokens, n).len() > 0,
        !white_space(identifiers_joined(tokens, n).last()),
    decreases n,
{
    let name = tokens[n - 1]->ident;
    assert(plain_name(name));
    if n > 1 {
        lemma_identifiers_joined_have_no_runs(tokens, n - 1);
        let before = identifiers_joined(tokens, n - 1);
        let text = identifiers_joined(tokens, n);
        assert(text == before + seq![' '] + name);
        assert forall|i: int| 0 <= i < text.len() - 1 implies !(white_space(#[trigger] text[i])
            && white_space(text[i + 1])) by {
            if i + 1 < before.len() {
                assert(text[i] == before[i] && text[i + 1] == before[i + 1]);
            } else if i + 1 == before.len() {
                assert(text[i] == before.last());
            } else if i == before.len() {
                assert(text[i + 1] == name[0]);
            } else {
                assert(text[i] == name[i - before.len() - 1]);
            }
        }
        assert(text.last() == name.last());
    }
}

/// Collapsing changes nothing in the first `n` characters of a text that
/// holds no run of white space.
proof fn lemma_collapse_without_runs(text: Seq<char>, n: int)
    requires
        no_runs(text),
        0 <= n <= text.len(),
    ensures
        collapse_to(text, n) == text.subrange(0, n),
    decreases n,
{
    if n > 0 {
        lemma_collapse_without_runs(text, n - 1);
        if n >= 2 {
            assert(!(white_space(text[n - 2]) && white_space(text[n - 2 + 1])));
        }
        assert(text.subrange(0, n - 1).push(text[n - 1]) =~= text.subrange(0, n));
    } else {
        assert(text.subrange(0, 0) =~= Seq::<char>::empty());
    }
}

/// The identifier that is scanned where an identifier starts has a plain
/// name: it is not empty, and letters and `_` are no white space.
pub proof fn lemma_scanned_identifier_is_plain(bytes: Seq<u8>, start: int)
    requires
        0 <= start < bytes.len(),
        ident_byte(bytes[start]),
    ensures
        plain_name(scan_ident(bytes, start).0->ident),
{
    let class = |c: u8| ident_byte(c);
    let end = scan_ident(bytes, start).1;
    let name = scan_ident(bytes, start).0->ident;
    lemma_run_end(bytes, start, class);
    lemma_run_end(bytes, start + 1, class);
    assert forall|i: int| 0 <= i < name.len() implies !white_space(#[trigger] name[i]) by {
        assert(class(bytes[start + i]));
        assert(name[i] == bytes[start + i] as char);
    }
}

/// Every identifier among the tokens of a line has a plain name.
pub proof fn lemma_scanned_identifiers_are_plain(bytes: Seq<u8>, cursor: int)
    requires
        0 <= cursor,
    ensures
        forall|i: int|
            0 <= i < scan_tokens(bytes, cursor).0.len() && (#[trigger] scan_tokens(
                bytes,
                cursor,
            ).0[i]) is Ident ==> plain_name(scan_tokens(bytes, cursor).0[i]->ident),
    decreases bytes.len() - cursor,
{
    let tokens = scan_tokens(bytes, cursor).0;
    let scanned = scan_token(bytes, cursor);
    if let Some(token) = scanned.0 {
        let start = skip_blanks(bytes, cursor);
        if token is Ident {
            lemma_scanned_identifier_is_plain(bytes, start);
        }
        if !(scanned.1 <= cursor || scanned.1 > bytes.len()) {
            lemma_scanned_identifiers_are_plain(bytes, scanned.1);
            let more = scan_tokens(bytes, scanned.1).0;
            assert forall|i: int|
                0 <= i < tokens.len() && (#[trigger] tokens[i]) is Ident implies plain_name(
                tokens[i]->ident,
            ) by {
                if i > 0 {
                    assert(tokens[i] == more[i - 1]);
                }
            }
        }
    }
}

/// Round trip, on text, from the line. When a line holds identifiers
/// only, it is parsed into the terms of those names, and the terms are
/// written as the identifiers with one space between each two: the line as
/// it was, up to its white space.
pub proof fn lemma_line_of_identifiers_is_written_as_read(bytes: Seq<u8>)
    requires
        forall|i: int|
            0 <= i < scan_tokens(bytes, 0).0.len() ==> (#[trigger] scan_tokens(bytes, 0).0[i])
                is Ident,
    ensures
        bytes_statements(bytes, 0) == Ok::<Seq<StatementView>, ASTErrorView>(
            terms_of(scan_tokens(bytes, 0).0),
        ),
        render_statements(terms_of(scan_tokens(bytes, 0).0)) == identifiers_joined(
            scan_tokens(bytes, 0).0,
            scan_tokens(bytes, 0).0.len() as int,
        ),
{
    lemma_scanned_identifiers_are_plain(bytes, 0);
    lemma_identifiers_are_written_as_read(scan_tokens(bytes, 0).0);
}

/// Round trip, on text. A line of identifiers is parsed into the terms of
/// those names, and the terms are written as the identifiers with one
/// space between each two: the line as it was, up to its white space.
pub proof fn lemma_identifiers_are_written_as_read(tokens: Seq<TokenView>)
    requires
        identifiers_only(tokens),
    ensures
        parse_statements_at(tokens, 0) == Ok::<Seq<StatementView>, ASTErrorView>(
            terms_of(tokens),
        ),
        render_statements(terms_of(tokens)) == identifiers_joined(tokens, tokens.len() as int),
{
    let terms = terms_of(tokens);
    let text = identifiers_joined(tokens, tokens.len() as int);
    lemma_identifiers_are_terms(tokens, 0);
    assert(terms.subrange(0, tokens.len() as int) =~= terms);
    lemma_terms_joined(tokens, tokens.len() as int);
    if tokens.len() > 0 {
        lemma_identifiers_joined_have_no_runs(tokens, tokens.len() as int);
    }
    lemma_collapse_without_runs(text, text.len() as int);
    assert(text.subrange(0, text.len() as int) =~= text);
    assert(collapse_whitespace(text) == text);
}

} // verus!
