use crate::ast::{
    all_well_formed, Abstraction, AbstractionView, Group, Statement, StatementView, Statements,
    Term,
};
use crate::error::{ASTError, ASTErrorView};
use crate::lexer::scan::scan_tokens;
use crate::lexer::tokens::{Token, TokenView, Tokens, TokensView};
use crate::lexer::Lexer;
use vstd::prelude::*;
use vstd::string::StringExecFns;

verus! {

/// The message for a `\` that no identifier follows.
pub open spec fn expected_identifier() -> Seq<char> {
    "expected identifier"@
}

/// The message for a `\x` after which the tokens end.
pub open spec fn expected_punct_at_end() -> Seq<char> {
    "Expected Punt"@
}

/// The message for a `\x` that something other than punctuation follows.
pub open spec fn expected_punct() -> Seq<char> {
    "Expected Punct"@
}

/// The message for a `\x` that punctuation other than `.` follows.
pub open spec fn expected_dot() -> Seq<char> {
    "Failed to locate '.'"@
}

/// The message for a `\x.` that nothing follows.
pub open spec fn abstraction_requires_body() -> Seq<char> {
    "abstraction requires a body"@
}

/// The message for a pair of brackets with nothing between them.
pub open spec fn group_requires_body() -> Seq<char> {
    "group requires a body"@
}

/// The message for a token that cannot start a statement.
pub open spec fn invalid_syntax() -> Seq<char> {
    "invalid syntax"@
}

/// The ways in which a run of tokens can break the grammar.
pub enum Violation {
    /// After `\` the bound identifier or the `.` is missing.
    MissingBinding,
    /// A statement starts with a literal or with punctuation other than `\`.
    InvalidLeadingToken,
    /// An abstraction or a group has nothing in it.
    EmptyBody,
}

/// The violation that a syntax message reports, if it is one of the
/// parser's messages.
pub open spec fn violation_of(message: Seq<char>) -> Option<Violation> {
    if message == expected_identifier() || message == expected_punct_at_end() || message
        == expected_punct() || message == expected_dot() {
        Some(Violation::MissingBinding)
    } else if message == invalid_syntax() {
        Some(Violation::InvalidLeadingToken)
    } else if message == abstraction_requires_body() || message == group_requires_body() {
        Some(Violation::EmptyBody)
    } else {
        None
    }
}

/// Puts `first` before the statements that reading the rest gave; a failure
/// of the rest is the failure of the whole.
pub open spec fn prepend(
    first: StatementView,
    rest: Result<Seq<StatementView>, ASTErrorView>,
) -> Result<Seq<StatementView>, ASTErrorView> {
    match rest {
        Ok(statements) => Ok(seq![first] + statements),
        Err(error) => Err(error),
    }
}

/// What the tokens after `\`, from index `at` on, make of an abstraction:
/// an identifier, a `.`, and a body that is not empty.
pub open spec fn parse_abstraction_at(tokens: Seq<TokenView>, at: int) -> Result<
    AbstractionView,
    ASTErrorView,
>
    decreases tokens, tokens.len() - at, 0int,
{
    if at < 0 || at >= tokens.len() {
        Err(ASTErrorView::Syntax(expected_identifier()))
    } else {
        match tokens[at] {
            TokenView::Ident { ident, .. } => {
                if at + 1 >= tokens.len() {
                    Err(ASTErrorView::Syntax(expected_punct_at_end()))
                } else {
                    match tokens[at + 1] {
                        TokenView::Punct { punct, .. } => {
                            if punct == "."@ {
                                match parse_statements_at(tokens, at + 2) {
                                    Ok(next) => {
                                        if next.len() == 0 {
                                            Err(
                                                ASTErrorView::Syntax(
                                                    abstraction_requires_body(),
                                                ),
                                            )
                                        } else {
                                            Ok(AbstractionView { variable: ident, next })
                                        }
                                    },
                                    Err(error) => Err(error),
                                }
                            } else {
                                Err(ASTErrorView::Syntax(expected_dot()))
                            }
                        },
                        _ => Err(ASTErrorView::Syntax(expected_punct())),
                    }
                }
            },
            _ => Err(ASTErrorView::Syntax(expected_identifier())),
        }
    }
}

/// The grammar. The statements that the tokens from index `at` on stand
/// for, or the first violation met when reading them from left to right:
///
/// - an identifier is a term;
/// - a group is a group of the statements that its own tokens stand for, of
///   which there must be at least one;
/// - `\`, an identifier, `.` and at least one statement are an abstraction,
///   whose body takes every token that is left;
/// - nothing else starts a statement.
pub open spec fn parse_statements_at(tokens: Seq<TokenView>, at: int) -> Result<
    Seq<StatementView>,
    ASTErrorView,
>
    decreases tokens, tokens.len() - at, 1int,
{
    if at < 0 || at >= tokens.len() {
        Ok(Seq::empty())
    } else {
        match tokens[at] {
            TokenView::Ident { ident, .. } => prepend(
                StatementView::Term(ident),
                parse_statements_at(tokens, at + 1),
            ),
            TokenView::Group(group) => {
                match parse_statements_at(group.tokens.tokens, group.tokens.next as int) {
                    Ok(statements) => {
                        if statements.len() == 0 {
                            Err(ASTErrorView::Syntax(group_requires_body()))
                        } else {
                            prepend(
                                StatementView::Group(statements),
                                parse_statements_at(tokens, at + 1),
                            )
                        }
                    },
                    Err(error) => Err(error),
                }
            },
            TokenView::Punct { punct, .. } => {
                if punct == "\\"@ {
                    match parse_abstraction_at(tokens, at + 1) {
                        Ok(abstraction) => Ok(seq![StatementView::Abstraction(abstraction)]),
                        Err(error) => Err(error),
                    }
                } else {
                    Err(ASTErrorView::Syntax(invalid_syntax()))
                }
            },
            TokenView::Literal { .. } => Err(ASTErrorView::Syntax(invalid_syntax())),
        }
    }
}

/// The one statement that starts at index `at`, with the index at which the
/// next one starts; `EmptyTokenList` when no token is left at `at`.
pub open spec fn parse_statement_at(tokens: Seq<TokenView>, at: int) -> Result<
    (StatementView, int),
    ASTErrorView,
> {
    if at < 0 || at >= tokens.len() {
        Err(ASTErrorView::EmptyTokenList)
    } else {
        match tokens[at] {
            TokenView::Ident { ident, .. } => Ok((StatementView::Term(ident), at + 1)),
            TokenView::Group(group) => {
                match parse_statements_at(group.tokens.tokens, group.tokens.next as int) {
                    Ok(statements) => {
                        if statements.len() == 0 {
                            Err(ASTErrorView::Syntax(group_requires_body()))
                        } else {
                            Ok((StatementView::Group(statements), at + 1))
                        }
                    },
                    Err(error) => Err(error),
                }
            },
            TokenView::Punct { punct, .. } => {
                if punct == "\\"@ {
                    match parse_abstraction_at(tokens, at + 1) {
                        Ok(abstraction) => Ok(
                            (StatementView::Abstraction(abstraction), tokens.len() as int),
                        ),
                        Err(error) => Err(error),
                    }
                } else {
                    Err(ASTErrorView::Syntax(invalid_syntax()))
                }
            },
            TokenView::Literal { .. } => Err(ASTErrorView::Syntax(invalid_syntax())),
        }
    }
}

/// Where the cursor stands after an abstraction was read from index `at`
/// on, or after the reading failed: behind the token that broke the
/// grammar, or at the end of the tokens when one was missing.
pub open spec fn abstraction_end_at(tokens: Seq<TokenView>, at: int) -> int
    decreases tokens, tokens.len() - at, 0int,
{
    if at < 0 || at >= tokens.len() {
        at
    } else if !(tokens[at] is Ident) {
        at + 1
    } else if at + 1 >= tokens.len() {
        at + 1
    } else {
        match tokens[at + 1] {
            TokenView::Punct { punct, .. } => {
                if punct == "."@ {
                    statements_end_at(tokens, at + 2)
                } else {
                    at + 2
                }
            },
            _ => at + 2,
        }
    }
}

/// Where the cursor stands after the statements from index `at` on were
/// read: at the end of the tokens when all were accepted, and behind the
/// token at which the reading failed otherwise.
pub open spec fn statements_end_at(tokens: Seq<TokenView>, at: int) -> int
    decreases tokens, tokens.len() - at, 1int,
{
    if at < 0 || at >= tokens.len() {
        at
    } else {
        match tokens[at] {
            TokenView::Ident { .. } => statements_end_at(tokens, at + 1),
            TokenView::Group(group) => {
                match parse_statements_at(group.tokens.tokens, group.tokens.next as int) {
                    Ok(statements) => {
                        if statements.len() == 0 {
                            at + 1
                        } else {
                            statements_end_at(tokens, at + 1)
                        }
                    },
                    Err(_) => at + 1,
                }
            },
            TokenView::Punct { punct, .. } => {
                if punct == "\\"@ {
                    abstraction_end_at(tokens, at + 1)
                } else {
                    at + 1
                }
            },
            TokenView::Literal { .. } => at + 1,
        }
    }
}

/// Where the cursor stands after one statement was read at index `at`.
pub open spec fn statement_end_at(tokens: Seq<TokenView>, at: int) -> int {
    if at < 0 || at >= tokens.len() {
        at
    } else {
        match tokens[at] {
            TokenView::Punct { punct, .. } => {
                if punct == "\\"@ {
                    abstraction_end_at(tokens, at + 1)
                } else {
                    at + 1
                }
            },
            _ => at + 1,
        }
    }
}

/// The statements that the tokens under and after the cursor stand for.
pub open spec fn parse_statements(tokens: TokensView) -> Result<
    Seq<StatementView>,
    ASTErrorView,
> {
    parse_statements_at(tokens.tokens, tokens.next as int)
}

/// The statement that starts under the cursor.
pub open spec fn parse_statement(tokens: TokensView) -> Result<StatementView, ASTErrorView> {
    match parse_statement_at(tokens.tokens, tokens.next as int) {
        Ok((statement, _)) => Ok(statement),
        Err(error) => Err(error),
    }
}

/// The statements that the rest of a line stands for, from position
/// `cursor` on: the line is scanned into tokens and the tokens are parsed.
pub open spec fn bytes_statements(bytes: Seq<u8>, cursor: int) -> Result<
    Seq<StatementView>,
    ASTErrorView,
> {
    parse_statements(TokensView { tokens: scan_tokens(bytes, cursor).0, next: 0 })
}

/// The statements that a line of text stands for.
pub open spec fn line_statements(text: Seq<char>) -> Result<Seq<StatementView>, ASTErrorView> {
    bytes_statements(vstd::utf8::encode_utf8(text), 0)
}

/// A run of statements is its first statement and the run that starts where
/// that one ends.
pub proof fn lemma_parse_statements_unfold(tokens: Seq<TokenView>, at: int)
    ensures
        parse_statements_at(tokens, at) == (match parse_statement_at(tokens, at) {
            Ok((first, after)) => prepend(first, parse_statements_at(tokens, after)),
            Err(ASTErrorView::EmptyTokenList) => Ok(Seq::empty()),
            Err(error) => Err(error),
        }),
        parse_statement_at(tokens, at) matches Ok((_, after)) ==> at < after <= tokens.len(),
{
    if 0 <= at < tokens.len() {
        match tokens[at] {
            TokenView::Punct { punct, .. } => {
                if punct == "\\"@ {
                    match parse_abstraction_at(tokens, at + 1) {
                        Ok(abstraction) => {
                            let only = seq![StatementView::Abstraction(abstraction)];
                            assert(only + Seq::<StatementView>::empty() =~= only);
                        },
                        Err(error) => {
                            lemma_abstraction_failure(tokens, at + 1);
                        },
                    }
                }
            },
            TokenView::Group(group) => {
                lemma_failure_is_violation(group.tokens.tokens, group.tokens.next as int);
            },
            _ => {},
        }
    }
}

/// Reading an abstraction never reports the end of the tokens.
pub proof fn lemma_abstraction_failure(tokens: Seq<TokenView>, at: int)
    ensures
        match parse_abstraction_at(tokens, at) {
            Ok(abstraction) => abstraction.well_formed(),
            Err(ASTErrorView::Syntax(message)) => violation_of(message) is Some,
            Err(ASTErrorView::EmptyTokenList) => false,
        },
    decreases tokens, tokens.len() - at, 0int,
{
    reveal_strlit("expected identifier");
    reveal_strlit("Expected Punt");
    reveal_strlit("Expected Punct");
    reveal_strlit("Failed to locate '.'");
    reveal_strlit("abstraction requires a body");
    reveal_strlit("group requires a body");
    reveal_strlit("invalid syntax");
    if 0 <= at < tokens.len() {
        match tokens[at] {
            TokenView::Ident { ident, .. } => {
                if at + 1 < tokens.len() {
                    match tokens[at + 1] {
                        TokenView::Punct { punct, .. } => {
                            if punct == "."@ {
                                lemma_failure_is_violation(tokens, at + 2);
                            }
                        },
                        _ => {},
                    }
                }
            },
            _ => {},
        }
    }
}

/// Parsing is total, and every failure is one of the three violations of
/// the grammar: a binding left unfinished after `\`, a token that cannot
/// start a statement, or an abstraction or group with nothing in it. The
/// end of the tokens is never reported as a failure. What parsing accepts
/// is well formed: no group in it and no abstraction's body is empty.
pub proof fn lemma_failure_is_violation(tokens: Seq<TokenView>, at: int)
    ensures
        match parse_statements_at(tokens, at) {
            Ok(statements) => all_well_formed(statements),
            Err(ASTErrorView::Syntax(message)) => violation_of(message) is Some,
            Err(ASTErrorView::EmptyTokenList) => false,
        },
    decreases tokens, tokens.len() - at, 1int,
{
    reveal_strlit("expected identifier");
    reveal_strlit("Expected Punt");
    reveal_strlit("Expected Punct");
    reveal_strlit("Failed to locate '.'");
    reveal_strlit("abstraction requires a body");
    reveal_strlit("group requires a body");
    reveal_strlit("invalid syntax");
    if 0 <= at < tokens.len() {
        match tokens[at] {
            TokenView::Ident { ident, .. } => {
                lemma_failure_is_violation(tokens, at + 1);
            },
            TokenView::Group(group) => {
                lemma_failure_is_violation(group.tokens.tokens, group.tokens.next as int);
                lemma_failure_is_violation(tokens, at + 1);
            },
            TokenView::Punct { punct, .. } => {
                if punct == "\\"@ {
                    lemma_abstraction_failure(tokens, at + 1);
                }
            },
            TokenView::Literal { .. } => {},
        }
    }
}

/// Every line is either accepted, as well-formed statements, or refused
/// for one of the three violations of the grammar.
pub proof fn lemma_line_is_accepted_or_violates(text: Seq<char>)
    ensures
        match line_statements(text) {
            Ok(statements) => all_well_formed(statements),
            Err(ASTErrorView::Syntax(message)) => violation_of(message) is Some,
            Err(ASTErrorView::EmptyTokenList) => false,
        },
{
    lemma_failure_is_violation(scan_tokens(vstd::utf8::encode_utf8(text), 0).0, 0);
}

/// Puts the statements read so far before what reading the rest gives.
pub open spec fn prepend_all(
    done: Seq<StatementView>,
    rest: Result<Seq<StatementView>, ASTErrorView>,
) -> Result<Seq<StatementView>, ASTErrorView> {
    match rest {
        Ok(statements) => Ok(done + statements),
        Err(error) => Err(error),
    }
}

/// Building a value from the tokens under and after a cursor.
pub trait FromTokens: Sized + View {
    /// What the tokens stand for: the value as plain data, or the violation.
    spec fn parsed(tokens: TokensView) -> Result<Self::V, ASTErrorView>;

    /// Where the cursor stands after the reading.
    spec fn read_to(tokens: TokensView) -> int;

    /// Reads the value that the tokens stand for and moves the cursor past
    /// what was read. The tokens themselves stay as they are.
    fn from_tokens(tokens: &mut Tokens) -> (result: Result<Self, ASTError>)
        ensures
            final(tokens).tokens == old(tokens).tokens,
            final(tokens).next == Self::read_to(old(tokens)@),
            final(tokens).next >= old(tokens).next,
            match result {
                Ok(value) => Self::parsed(old(tokens)@) == Ok::<Self::V, ASTErrorView>(value@),
                Err(error) => Self::parsed(old(tokens)@) == Err::<Self::V, ASTErrorView>(
                    error@,
                ),
            },
    ;
}

impl FromTokens for Statement {
    open spec fn parsed(tokens: TokensView) -> Result<StatementView, ASTErrorView> {
        parse_statement(tokens)
    }

    open spec fn read_to(tokens: TokensView) -> int {
        statement_end_at(tokens.tokens, tokens.next as int)
    }

    /// One statement. `EmptyTokenList` when no token is left under the
    /// cursor; an abstraction takes every token that is left.
    fn from_tokens(tokens: &mut Tokens) -> (result: Result<Self, ASTError>)
        ensures
            result matches Ok(statement) ==> parse_statement_at(
                old(tokens)@.tokens,
                old(tokens).next as int,
            ) == Ok::<(StatementView, int), ASTErrorView>(
                (statement@, final(tokens).next as int),
            ) && statement@.well_formed(),
    {
        read_statement(tokens)
    }
}

impl FromTokens for Statements {
    open spec fn parsed(tokens: TokensView) -> Result<Seq<StatementView>, ASTErrorView> {
        parse_statements(tokens)
    }

    open spec fn read_to(tokens: TokensView) -> int {
        statements_end_at(tokens.tokens, tokens.next as int)
    }

    /// Every statement up to the end of the tokens. The first violation
    /// ends the reading; the end of the tokens is no failure.
    fn from_tokens(tokens: &mut Tokens) -> (result: Result<Self, ASTError>)
        ensures
            result matches Ok(statements) ==> all_well_formed(statements@),
            result is Ok ==> final(tokens).next >= final(tokens).tokens.len(),
            result matches Err(error) ==> (error@ matches ASTErrorView::Syntax(message)
                && violation_of(message) is Some),
    {
        read_statements(tokens)
    }
}

/// Reads the binding and the body of an abstraction, after its `\`.
fn read_abstraction(tokens: &mut Tokens) -> (result: Result<Abstraction, ASTError>)
    ensures
        final(tokens).tokens == old(tokens).tokens,
        final(tokens).next == abstraction_end_at(old(tokens)@.tokens, old(tokens).next as int),
        final(tokens).next >= old(tokens).next,
        old(tokens).next <= old(tokens).tokens.len() ==> final(tokens).next
            <= final(tokens).tokens.len(),
        match result {
            Ok(abstraction) => parse_abstraction_at(old(tokens)@.tokens, old(tokens).next as int)
                == Ok::<AbstractionView, ASTErrorView>(abstraction@) && final(tokens).next
                >= final(tokens).tokens.len(),
            Err(error) => parse_abstraction_at(old(tokens)@.tokens, old(tokens).next as int)
                == Err::<AbstractionView, ASTErrorView>(error@),
        },
    decreases old(tokens)@.tokens, old(tokens)@.left(), 0int,
{
    let variable = match tokens.next() {
        Some(token) => match token.get_ident() {
            Some(ident) => ident,
            None => {
                return Err(ASTError::Syntax(String::from_str("expected identifier")));
            },
        },
        None => {
            return Err(ASTError::Syntax(String::from_str("expected identifier")));
        },
    };
    let dot = match tokens.next() {
        Some(token) => match token.get_punct() {
            Some(punct) => punct,
            None => {
                return Err(ASTError::Syntax(String::from_str("Expected Punct")));
            },
        },
        None => {
            return Err(ASTError::Syntax(String::from_str("Expected Punt")));
        },
    };
    if !dot.is_punct(".") {
        return Err(ASTError::Syntax(String::from_str("Failed to locate '.'")));
    }
    let next = match read_statements(tokens) {
        Ok(statements) => statements,
        Err(error) => {
            return Err(error);
        },
    };
    if next.statements.len() == 0 {
        return Err(ASTError::Syntax(String::from_str("abstraction requires a body")));
    }
    Ok(Abstraction { variable: Term { name: variable }, next })
}

/// Reads one statement.
fn read_statement(tokens: &mut Tokens) -> (result: Result<Statement, ASTError>)
    ensures
        final(tokens).tokens == old(tokens).tokens,
        final(tokens).next == statement_end_at(old(tokens)@.tokens, old(tokens).next as int),
        final(tokens).next >= old(tokens).next,
        old(tokens).next <= old(tokens).tokens.len() ==> final(tokens).next
            <= final(tokens).tokens.len(),
        match result {
            Ok(statement) => parse_statement_at(old(tokens)@.tokens, old(tokens).next as int)
                == Ok::<(StatementView, int), ASTErrorView>(
                (statement@, final(tokens).next as int),
            ) && statement@.well_formed(),
            Err(error) => parse_statement_at(old(tokens)@.tokens, old(tokens).next as int)
                == Err::<(StatementView, int), ASTErrorView>(error@),
        },
        result matches Err(ASTError::EmptyTokenList) ==> old(tokens).next
            >= old(tokens).tokens.len(),
    decreases old(tokens)@.tokens, old(tokens)@.left(), 1int,
{
    let token = match tokens.next() {
        Some(token) => token,
        None => {
            return Err(ASTError::EmptyTokenList);
        },
    };
    match token {
        Token::Punct(punct) => {
            if punct.is_punct("\\") {
                proof {
                    lemma_abstraction_failure(tokens@.tokens, tokens.next as int);
                }
                match read_abstraction(tokens) {
                    Ok(abstraction) => Ok(Statement::Abstraction(abstraction)),
                    Err(error) => Err(error),
                }
            } else {
                Err(ASTError::Syntax(String::from_str("invalid syntax")))
            }
        },
        Token::Ident(ident) => Ok(Statement::Term(Term { name: ident })),
        Token::Group(group) => {
            let mut inner = group.tokens;
            proof {
                lemma_failure_is_violation(inner@.tokens, inner.next as int);
            }
            match read_statements(&mut inner) {
                Ok(statements) => {
                    if statements.statements.len() == 0 {
                        Err(ASTError::Syntax(String::from_str("group requires a body")))
                    } else {
                        Ok(Statement::Group(Group { statements }))
                    }
                },
                Err(error) => Err(error),
            }
        },
        Token::Literal(_) => Err(ASTError::Syntax(String::from_str("invalid syntax"))),
    }
}

/// Reads statements until the tokens end.
fn read_statements(tokens: &mut Tokens) -> (result: Result<Statements, ASTError>)
    ensures
        final(tokens).tokens == old(tokens).tokens,
        final(tokens).next == statements_end_at(old(tokens)@.tokens, old(tokens).next as int),
        final(tokens).next >= old(tokens).next,
        old(tokens).next <= old(tokens).tokens.len() ==> final(tokens).next
            <= final(tokens).tokens.len(),
        match result {
            Ok(statements) => parse_statements_at(old(tokens)@.tokens, old(tokens).next as int)
                == Ok::<Seq<StatementView>, ASTErrorView>(statements@) && final(tokens).next
                >= final(tokens).tokens.len() && all_well_formed(statements@),
            Err(error) => parse_statements_at(old(tokens)@.tokens, old(tokens).next as int)
                == Err::<Seq<StatementView>, ASTErrorView>(error@),
        },
        result matches Err(error) ==> (error@ matches ASTErrorView::Syntax(message)
            && violation_of(message) is Some),
    decreases old(tokens)@.tokens, old(tokens)@.left(), 2int,
{
    let ghost all = tokens@.tokens;
    let ghost start = tokens.next as int;
    let mut statements: Vec<Statement> = Vec::new();
    loop
        invariant
            tokens.tokens == old(tokens).tokens,
            tokens@.tokens == all,
            start == old(tokens).next,
            start <= tokens.next,
            parse_statements_at(all, start) == prepend_all(
                Statements { statements }@,
                parse_statements_at(all, tokens.next as int),
            ),
            statements_end_at(all, start) == statements_end_at(all, tokens.next as int),
            all == old(tokens)@.tokens,
            old(tokens).next <= old(tokens).tokens.len() ==> tokens.next <= tokens.tokens.len(),
        decreases tokens@.left(),
    {
        let ghost at = tokens.next as int;
        let ghost done = Statements { statements }@;
        proof {
            lemma_parse_statements_unfold(all, at);
        }
        match read_statement(tokens) {
            Ok(statement) => {
                statements.push(statement);
                proof {
                    let rest = parse_statements_at(all, tokens.next as int);
                    assert(Statements { statements }@ =~= done + seq![statement@]);
                    if let Ok(more) = rest {
                        assert(done + (seq![statement@] + more) =~= (done + seq![statement@])
                            + more);
                    }
                }
            },
            Err(ASTError::EmptyTokenList) => {
                proof {
                    assert(done + Seq::<StatementView>::empty() =~= done);
                    lemma_failure_is_violation(all, start);
                }
                return Ok(Statements { statements });
            },
            Err(error) => {
                proof {
                    lemma_failure_is_violation(all, start);
                }
                return Err(error);
            },
        }
    }
}

/// Scans a line and parses its tokens: the statements that the line stands
/// for, which are well formed, or the violation of the grammar that it
/// holds.
pub fn parse_line(text: &str) -> (result: Result<Statements, ASTError>)
    ensures
        match result {
            Ok(statements) => line_statements(text@) == Ok::<Seq<StatementView>, ASTErrorView>(
                statements@,
            ) && all_well_formed(statements@),
            Err(error) => line_statements(text@) == Err::<Seq<StatementView>, ASTErrorView>(
                error@,
            ),
        },
        result matches Err(error) ==> (error@ matches ASTErrorView::Syntax(message)
            && violation_of(message) is Some),
{
    let mut lexer = Lexer::new(text.to_owned());
    let mut tokens = lexer.parse();
    read_statements(&mut tokens)
}

} // verus!
