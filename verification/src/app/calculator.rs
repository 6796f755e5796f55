use crate::app::reduction::step_of;
use crate::app::state::{AppState, ControlFlow};
use crate::ast::{all_well_formed, StatementView, Statements};
use crate::error::{ASTError, ASTErrorView};
use crate::lexer::Lexer;
use crate::parse::{line_statements, violation_of};
use vstd::prelude::*;

verus! {

/// A calculator holds the line that was entered last and the program that
/// came of it, if the line was accepted.
pub struct Calculator {
    lexer: Lexer,
    pub state: Option<AppState>,
}

impl Calculator {
    /// The program as it stands: empty while no line has been accepted.
    pub closed spec fn program(&self) -> Seq<StatementView> {
        match self.state {
            Some(state) => state.statements@,
            None => Seq::empty(),
        }
    }

    /// Whether a line has been accepted.
    pub closed spec fn has_program(&self) -> bool {
        self.state is Some
    }

    /// A calculator with no program.
    pub fn empty() -> (calculator: Self)
        ensures
            !calculator.has_program(),
            calculator.program() == Seq::<StatementView>::empty(),
    {
        let lexer = Lexer::new(String::new());
        let state = None;
        Self { lexer, state }
    }

    /// A calculator with the program that `text` stands for.
    pub fn new(text: &str) -> (result: Result<Self, ASTError>)
        ensures
            match result {
                Ok(calculator) => calculator.has_program() && line_statements(text@) == Ok::<
                    Seq<StatementView>,
                    ASTErrorView,
                >(calculator.program()) && all_well_formed(calculator.program()),
                Err(error) => line_statements(text@) == Err::<Seq<StatementView>, ASTErrorView>(
                    error@,
                ),
            },
            result matches Err(error) ==> (error@ matches ASTErrorView::Syntax(message)
                && violation_of(message) is Some),
    {
        let mut lexer = Lexer::new(text.to_owned());
        let state = match AppState::new(&mut lexer) {
            Ok(state) => Some(state),
            Err(error) => {
                return Err(error);
            },
        };
        Ok(Self { lexer, state })
    }

    /// Takes a new line. When the line is accepted, the program that it
    /// stands for replaces the one held so far; when it is refused, the
    /// program held so far stays.
    pub fn input(&mut self, text: &str) -> (result: Result<(), ASTError>)
        ensures
            match result {
                Ok(_) => final(self).has_program() && line_statements(text@) == Ok::<
                    Seq<StatementView>,
                    ASTErrorView,
                >(final(self).program()) && all_well_formed(final(self).program()),
                Err(error) => line_statements(text@) == Err::<Seq<StatementView>, ASTErrorView>(
                    error@,
                ) && final(self).has_program() == old(self).has_program() && final(self).program()
                    == old(self).program(),
            },
            result matches Err(error) ==> (error@ matches ASTErrorView::Syntax(message)
                && violation_of(message) is Some),
    {
        self.lexer = Lexer::new(text.to_owned());
        let state = match AppState::new(&mut self.lexer) {
            Ok(state) => state,
            Err(error) => {
                return Err(error);
            },
        };
        self.state = Some(state);
        Ok(())
    }

    /// A copy of the program as it stands.
    pub fn statements(&self) -> (statements: Statements)
        ensures
            statements@ == self.program(),
    {
        if let Some(state) = &self.state {
            state.statements.clone()
        } else {
            Statements::new()
        }
    }

    /// Whether the program is well formed, so that it can be stepped. A
    /// program that came of a line is, and so is what a step leaves of it.
    pub fn can_step(&self) -> (can: bool)
        ensures
            can == all_well_formed(self.program()),
    {
        match &self.state {
            Some(state) => state.statements.is_well_formed(),
            None => true,
        }
    }

    /// One step of reduction on the program. Without a program there is
    /// nothing to do.
    pub fn step(&mut self) -> (flow: ControlFlow)
        requires
            all_well_formed(old(self).program()),
        ensures
            all_well_formed(final(self).program()),
            final(self).has_program() == old(self).has_program(),
            (final(self).program(), flow) == step_of(old(self).program()),
    {
        match &mut self.state {
            Some(state) => state.step(),
            None => ControlFlow::Finished,
        }
    }
}

} // verus!
