use crate::app::reduction::{
    application_of, apply_abstraction_to, currying_step_of, group_unfolded, input_of,
    lemma_replace_keeps_shape, lemma_step_keeps_well_formed, replace, replace_from, step_of,
};
use crate::ast::{
    all_well_formed, clone_statement, clone_statements, Abstraction, Group, Statement,
    StatementView, Statements, Term,
};
use crate::error::{ASTError, ASTErrorView};
use crate::lexer::Lexer;
use crate::parse::{bytes_statements, violation_of, FromTokens};
use vstd::prelude::*;

verus! {


/// What a step reports: whether another step may change the program.
#[derive(Debug, Clone, Copy, PartialEq, Eq, PartialOrd, Ord, Structural)]
pub enum ControlFlow {
    Finished,
    Running,
}

impl ControlFlow {
    /// Whether another step is to be taken.
    pub fn is_running(self) -> (running: bool)
        ensures
            running == (self == ControlFlow::Running),
    {
        self == Self::Running
    }
}

/// The program that is being reduced.
pub struct AppState {
    pub statements: Statements,
}

impl AppState {
    /// Scans the rest of the line under `lexer` and parses it into the
    /// program to reduce. A program that is accepted is well formed; a line
    /// that is refused is refused for a violation of the grammar.
    pub fn new(lexer: &mut Lexer) -> (result: Result<Self, ASTError>)
        ensures
            final(lexer).bytes() == old(lexer).bytes(),
            match result {
                Ok(state) => bytes_statements(old(lexer).bytes(), old(lexer).cursor()) == Ok::<
                    Seq<StatementView>,
                    ASTErrorView,
                >(state.statements@) && all_well_formed(state.statements@),
                Err(error) => bytes_statements(old(lexer).bytes(), old(lexer).cursor()) == Err::<
                    Seq<StatementView>,
                    ASTErrorView,
                >(error@),
            },
            result matches Err(error) ==> (error@ matches ASTErrorView::Syntax(message)
                && violation_of(message) is Some),
    {
        let mut tokens = lexer.parse();
        match Statements::from_tokens(&mut tokens) {
            Ok(statements) => Ok(Self { statements }),
            Err(error) => Err(error),
        }
    }

    /// Puts `to` in for the variable `from` throughout the body of an
    /// abstraction that binds `from`; see [`replace_from`] for what counts
    /// as an occurrence.
    pub fn replace_names(statements: &mut Statements, from: &Term, to: &Statement)
        ensures
            final(statements)@ == replace(old(statements)@, from@, to@),
            final(statements)@.len() == old(statements)@.len(),
            all_well_formed(old(statements)@) && to@.well_formed() ==> all_well_formed(
                final(statements)@,
            ),
        decreases old(statements)@,
    {
        let ghost body = statements@;
        proof {
            lemma_replace_keeps_shape(body, 0, from@, to@);
        }
        let mut i: usize = 0;
        while i < statements.statements.len()
            invariant
                i <= statements.statements.len(),
                body == old(statements)@,
                statements@.len() == body.len(),
                statements.statements.len() == body.len(),
                statements@.subrange(i as int, body.len() as int) == body.subrange(
                    i as int,
                    body.len() as int,
                ),
                replace_from(body, 0, from@, to@) == statements@.subrange(0, i as int)
                    + replace_from(body, i as int, from@, to@),
            decreases statements.statements.len() - i,
        {
            let ghost before = statements@;
            let ghost items = statements.statements@;
            assert(before[i as int] == body[i as int]) by {
                assert(before.subrange(i as int, body.len() as int)[0] == body.subrange(
                    i as int,
                    body.len() as int,
                )[0]);
            }
            let statement = &mut statements.statements[i];
            match statement {
                Statement::Abstraction(abstraction) => {
                    if !(abstraction.variable == *from) {
                        Self::replace_names(&mut abstraction.next, from, to);
                    }
                },
                Statement::Group(group) => {
                    Self::replace_names(&mut group.statements, from, to);
                },
                Statement::Term(term) => {
                    if to.is_abstraction() {
                        let mut only = Statements::new();
                        only.push_back(clone_statement(to));
                        *statement = Statement::Group(Group { statements: only });
                        proof {
                            let scanned = replace_from(body, i as int, from@, to@);
                            let whole = before.subrange(0, i as int) + scanned;
                            lemma_replace_keeps_shape(body, i as int, from@, to@);
                            lemma_replace_keeps_shape(body, 0, from@, to@);
                            let changed = statements.statements@;
                            assert forall|j: int| 0 <= j < body.len() implies statements@[j]
                                == whole[j] by {
                                if j > i {
                                    assert(changed[j] == items[j]);
                                    assert(before.subrange(i as int, body.len() as int)[j - i]
                                        == body.subrange(i as int, body.len() as int)[j - i]);
                                    assert(scanned[j - i] == body.subrange(
                                        i + 1,
                                        body.len() as int,
                                    )[j - i - 1]);
                                } else if j < i {
                                    assert(changed[j] == items[j]);
                                }
                            }
                            assert(statements@ =~= whole);
                        }
                        return ;
                    } else if *term == *from {
                        *statement = clone_statement(to);
                    }
                },
            }
            proof {
                let changed = statements.statements@;
                assert forall|j: int| 0 <= j < before.len() && j != i implies statements@[j]
                    == before[j] by {
                    assert(changed[j] == items[j]);
                }
            }
            i += 1;
            proof {
                let here = replace_from(body, i - 1, from@, to@)[0];
                assert(statements@[i - 1] == here);
                assert(statements@.subrange(0, i as int) =~= before.subrange(0, i - 1).push(
                    here,
                ));
                assert forall|j: int| i <= j < body.len() implies statements@[j] == body[j] by {
                    assert(before.subrange(i - 1, body.len() as int)[j - i + 1] == body.subrange(
                        i - 1,
                        body.len() as int,
                    )[j - i + 1]);
                }
                assert(statements@.subrange(i as int, body.len() as int) =~= body.subrange(
                    i as int,
                    body.len() as int,
                ));
                assert(before.subrange(0, i - 1) + (seq![here] + replace_from(
                    body,
                    i as int,
                    from@,
                    to@,
                )) =~= before.subrange(0, i - 1).push(here) + replace_from(
                    body,
                    i as int,
                    from@,
                    to@,
                ));
            }
        }
        proof {
            assert(statements@.subrange(0, i as int) =~= statements@);
            assert(statements@ + Seq::<StatementView>::empty() =~= statements@);
        }
    }

    /// Pushes the statements of `rhs` onto the front of `statements`, in the
    /// order in which `rhs` holds them.
    pub fn push_statements_front(statements: &mut Statements, rhs: &Statements)
        ensures
            final(statements)@ == rhs@ + old(statements)@,
    {
        let mut front = clone_statements(rhs);
        front.statements.append(&mut statements.statements);
        assert(front@ =~= rhs@ + old(statements)@);
        *statements = front;
    }

    /// Applies an abstraction that was the first statement of
    /// `parent_group` to `input`, and leaves the outcome in front of what the
    /// group still holds.
    fn apply_abstraction(
        parent_group: &mut Group,
        abstraction: &mut Abstraction,
        input: Option<Statement>,
    ) -> (flow: ControlFlow)
        requires
            old(abstraction)@.next.len() > 0,
        ensures
            (final(parent_group)@, flow) == apply_abstraction_to(
                old(parent_group)@,
                old(abstraction)@,
                match input {
                    Some(value) => Some(value@),
                    None => None,
                },
            ),
    {
        if let Some(input) = input {
            Self::replace_names(&mut abstraction.next, &abstraction.variable, &input);
            if abstraction.next.statements[0].is_abstraction() {
                parent_group.statements.push_front(
                    Statement::Group(Group { statements: clone_statements(&abstraction.next) }),
                );
            } else {
                Self::push_statements_front(&mut parent_group.statements, &abstraction.next);
            }
            ControlFlow::Running
        } else {
            parent_group.statements.push_front(
                Statement::Abstraction(abstraction.clone()),
            );
            ControlFlow::Finished
        }
    }

    /// Applies a group that was taken from the front of
    /// `parent_statements`: the statement after it is its input, and what
    /// the group unfolds to is put back in its place. The group itself is
    /// left holding what it unfolded to.
    fn application(parent_statements: &mut Statements, group: &mut Group) -> (flow: ControlFlow)
        requires
            old(group)@.len() > 0,
            all_well_formed(old(group)@),
        ensures
            (final(parent_statements)@, flow) == application_of(
                old(parent_statements)@,
                old(group)@,
            ),
            final(group)@ == group_unfolded(old(group)@, input_of(old(parent_statements)@)).0,
        decreases old(group)@,
    {
        let input = parent_statements.pop_front();
        let front = match group.statements.pop_front() {
            Some(front) => front,
            None => {
                return ControlFlow::Finished;
            },
        };
        assert(old(group)@[0].well_formed());
        let ret = match front {
            Statement::Abstraction(mut abstraction) => {
                Self::apply_abstraction(group, &mut abstraction, input)
            },
            Statement::Group(mut g) => {
                proof {
                    let rest = old(group)@.drop_first();
                    assert forall|i: int| 0 <= i < rest.len() implies (
                    #[trigger] rest[i]).well_formed() by {
                        assert(rest[i] == old(group)@[i + 1]);
                    }
                }
                Self::application(&mut group.statements, &mut g);
                ControlFlow::Running
            },
            Statement::Term(t) => {
                group.statements.push_front(Statement::Term(t));
                if let Some(input) = input {
                    group.statements.push_front(input);
                }
                assert(group@ =~= group_unfolded(
                    old(group)@,
                    input_of(old(parent_statements)@),
                ).0);
                ControlFlow::Finished
            },
        };
        Self::push_statements_front(parent_statements, &group.statements);
        ret
    }

    /// Looks for a group to apply at the end of the chain of curried
    /// abstractions that starts with `abstraction`.
    fn currying_step(abstraction: &mut Abstraction) -> (flow: ControlFlow)
        requires
            old(abstraction)@.well_formed(),
        ensures
            (final(abstraction)@, flow) == currying_step_of(old(abstraction)@),
        decreases old(abstraction)@,
    {
        assert(old(abstraction)@.next[0].well_formed());
        if abstraction.next.statements[0].is_group() {
            if let Some(Statement::Group(mut group)) = abstraction.next.pop_front() {
                proof {
                    let rest = old(abstraction)@.next.drop_first();
                    assert forall|i: int| 0 <= i < rest.len() implies (
                    #[trigger] rest[i]).well_formed() by {
                        assert(rest[i] == old(abstraction)@.next[i + 1]);
                    }
                }
                Self::application(&mut abstraction.next, &mut group);
            }
            return ControlFlow::Running;
        }
        if let Some(next) = abstraction.next_curried_mut() {
            let flow = Self::currying_step(next);
            assert(abstraction@.next =~= currying_step_of(old(abstraction)@).0.next);
            return flow;
        }
        assert(abstraction@.next =~= old(abstraction)@.next);
        ControlFlow::Finished
    }

    /// Processes a single step of the program: contracts at most one redex,
    /// the leftmost and outermost, in place.
    ///
    /// The program must be well formed, as every parsed program is; it is
    /// well formed again afterwards, so the caller can step until
    /// `Finished` is reported.
    pub fn step(&mut self) -> (flow: ControlFlow)
        requires
            all_well_formed(old(self).statements@),
        ensures
            (final(self).statements@, flow) == step_of(old(self).statements@),
            all_well_formed(final(self).statements@),
    {
        proof {
            lemma_step_keeps_well_formed(self.statements@);
        }
        let statement = if let Some(s) = self.statements.pop_front() {
            s
        } else {
            return ControlFlow::Finished;
        };
        assert(old(self).statements@[0].well_formed());
        match statement {
            Statement::Abstraction(mut abstraction) => {
                let ret = Self::currying_step(&mut abstraction);
                self.statements.push_front(Statement::Abstraction(abstraction));
                ret
            },
            Statement::Term(_) => {
                self.statements.push_front(statement);
                assert(self.statements@ =~= old(self).statements@);
                ControlFlow::Finished
            },
            Statement::Group(mut group) => Self::application(&mut self.statements, &mut group),
        }
    }
}

} // verus!
