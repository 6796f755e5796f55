use crate::lexer::ident::Ident;
use vstd::prelude::*;

pub use crate::parse::FromTokens;
pub use crate::render::remove_multiple_whitespace;

verus! {

/// A variable, where it is bound and where it occurs. Two terms are the same
/// variable when their names are equal.
#[derive(Debug)]
pub struct Term {
    pub name: Ident,
}

/// λvariable.next
#[derive(Debug)]
pub struct Abstraction {
    pub variable: Term,
    pub next: Statements,
}

/// A parenthesised run of statements: a function followed by its arguments.
#[derive(Debug)]
pub struct Group {
    pub statements: Statements,
}

/// S ::= λ<term>.<statements> | <term> | (S ...)
#[derive(Debug)]
pub enum Statement {
    Abstraction(Abstraction),
    Group(Group),
    Term(Term),
}

/// A run of statements, read from the front. It is both the children of a
/// node and the stack that reduction works on.
#[derive(Debug)]
pub struct Statements {
    pub statements: Vec<Statement>,
}

/// A statement as plain data: names are sequences of characters, runs of
/// statements are sequences.
pub enum StatementView {
    Abstraction(AbstractionView),
    Group(Seq<StatementView>),
    Term(Seq<char>),
}

/// An abstraction as plain data.
pub struct AbstractionView {
    pub variable: Seq<char>,
    pub next: Seq<StatementView>,
}

/// The plain data of one statement.
pub open spec fn statement_view(statement: Statement) -> StatementView
    decreases statement,
{
    match statement {
        Statement::Abstraction(abstraction) => StatementView::Abstraction(
            AbstractionView {
                variable: abstraction.variable.name.ident@,
                next: statement_seq_view(abstraction.next.statements@),
            },
        ),
        Statement::Group(group) => StatementView::Group(
            statement_seq_view(group.statements.statements@),
        ),
        Statement::Term(term) => StatementView::Term(term.name.ident@),
    }
}

/// The plain data of each statement of a sequence, in order.
pub open spec fn statement_seq_view(statements: Seq<Statement>) -> Seq<StatementView>
    decreases statements,
{
    Seq::new(
        statements.len(),
        |i: int|
            if 0 <= i < statements.len() {
                statement_view(statements[i])
            } else {
                arbitrary()
            },
    )
}

impl View for Term {
    type V = Seq<char>;

    open spec fn view(&self) -> Seq<char> {
        self.name.ident@
    }
}

impl View for Statements {
    type V = Seq<StatementView>;

    open spec fn view(&self) -> Seq<StatementView> {
        statement_seq_view(self.statements@)
    }
}

impl View for Abstraction {
    type V = AbstractionView;

    open spec fn view(&self) -> AbstractionView {
        AbstractionView { variable: self.variable@, next: self.next@ }
    }
}

impl View for Group {
    type V = Seq<StatementView>;

    open spec fn view(&self) -> Seq<StatementView> {
        self.statements@
    }
}

impl View for Statement {
    type V = StatementView;

    open spec fn view(&self) -> StatementView {
        statement_view(*self)
    }
}

impl StatementView {
    /// Whether every group in the statement, and every abstraction's body,
    /// holds at least one statement.
    pub open spec fn well_formed(self) -> bool
        decreases self,
    {
        match self {
            StatementView::Abstraction(abstraction) => abstraction.next.len() > 0
                && all_well_formed(abstraction.next),
            StatementView::Group(statements) => statements.len() > 0 && all_well_formed(
                statements,
            ),
            StatementView::Term(_) => true,
        }
    }
}

impl AbstractionView {
    /// Whether the body is not empty and every statement in it is well formed.
    pub open spec fn well_formed(self) -> bool {
        self.next.len() > 0 && all_well_formed(self.next)
    }

    /// The abstraction that the body starts with, if it starts with one.
    pub open spec fn next_curried(self) -> Option<AbstractionView> {
        if self.next.len() > 0 {
            match self.next[0] {
                StatementView::Abstraction(inner) => Some(inner),
                _ => None,
            }
        } else {
            None
        }
    }
}

/// Whether every statement of the run is well formed. The run itself may be
/// empty.
pub open spec fn all_well_formed(statements: Seq<StatementView>) -> bool
    decreases statements,
{
    forall|i: int| 0 <= i < statements.len() ==> (#[trigger] statements[i]).well_formed()
}

/// Copies a statement with everything in it.
pub fn clone_statement(statement: &Statement) -> (copy: Statement)
    ensures
        copy@ == statement@,
    decreases statement,
{
    match statement {
        Statement::Abstraction(abstraction) => Statement::Abstraction(
            Abstraction {
                variable: Term { name: abstraction.variable.name.clone() },
                next: clone_statements(&abstraction.next),
            },
        ),
        Statement::Group(group) => Statement::Group(
            Group { statements: clone_statements(&group.statements) },
        ),
        Statement::Term(term) => Statement::Term(Term { name: term.name.clone() }),
    }
}

/// Copies a run of statements.
pub fn clone_statements(statements: &Statements) -> (copy: Statements)
    ensures
        copy@ == statements@,
    decreases statements,
{
    let mut copied: Vec<Statement> = Vec::new();
    let mut i: usize = 0;
    while i < statements.statements.len()
        invariant
            i <= statements.statements.len(),
            copied@.len() == i,
            forall|j: int|
                0 <= j < i ==> statement_view(#[trigger] copied@[j]) == statement_view(
                    statements.statements@[j],
                ),
        decreases statements.statements.len() - i,
    {
        copied.push(clone_statement(&statements.statements[i]));
        i += 1;
    }
    assert(statement_seq_view(copied@) =~= statement_seq_view(statements.statements@));
    Statements { statements: copied }
}

impl Clone for Term {
    fn clone(&self) -> (term: Self)
        ensures
            term == *self,
    {
        Term { name: self.name.clone() }
    }
}

impl Clone for Abstraction {
    fn clone(&self) -> (abstraction: Self)
        ensures
            abstraction@ == self@,
    {
        Abstraction { variable: self.variable.clone(), next: clone_statements(&self.next) }
    }
}

impl Clone for Group {
    fn clone(&self) -> (group: Self)
        ensures
            group@ == self@,
    {
        Group { statements: clone_statements(&self.statements) }
    }
}

impl Clone for Statement {
    fn clone(&self) -> (statement: Self)
        ensures
            statement@ == self@,
    {
        clone_statement(self)
    }
}

impl Clone for Statements {
    fn clone(&self) -> (statements: Self)
        ensures
            statements@ == self@,
    {
        clone_statements(self)
    }
}

impl PartialEq for Term {
    fn eq(&self, other: &Self) -> (equal: bool) {
        self.name == other.name
    }
}

impl vstd::std_specs::cmp::PartialEqSpecImpl for Term {
    open spec fn obeys_eq_spec() -> bool {
        true
    }

    open spec fn eq_spec(&self, other: &Self) -> bool {
        self@ == other@
    }
}

impl Abstraction {
    /// The abstraction that the body starts with, if it starts with one.
    pub fn next_curried(&self) -> (inner: Option<&Abstraction>)
        requires
            self@.next.len() > 0,
        ensures
            inner matches Some(abstraction) ==> self.next.statements@[0]
                == Statement::Abstraction(*abstraction),
            inner is None ==> !(self.next.statements@[0] is Abstraction),
            match inner {
                Some(abstraction) => self@.next_curried() == Some(abstraction@),
                None => self@.next_curried() is None,
            },
    {
        if let Statement::Abstraction(abs) = &self.next.statements[0] {
            Some(abs)
        } else {
            None
        }
    }

    /// As [`Abstraction::next_curried`], for changing the inner abstraction in
    /// place: what the caller leaves in it becomes the first statement of the
    /// body, and nothing else changes.
    pub fn next_curried_mut(&mut self) -> (inner: Option<&mut Abstraction>)
        requires
            old(self)@.next.len() > 0,
        ensures
            match inner {
                Some(abstraction) => {
                    &&& old(self).next.statements@[0] == Statement::Abstraction(*abstraction)
                    &&& old(self)@.next_curried() == Some(abstraction@)
                    &&& final(self).variable == old(self).variable
                    &&& final(self).next.statements@ == old(self).next.statements@.update(
                        0,
                        Statement::Abstraction(*final(abstraction)),
                    )
                },
                None => {
                    &&& old(self)@.next_curried() is None
                    &&& final(self).variable == old(self).variable
                    &&& final(self).next.statements@ == old(self).next.statements@
                },
            },
    {
        if let Statement::Abstraction(abs) = &mut self.next.statements[0] {
            Some(abs)
        } else {
            None
        }
    }
}

impl Group {
    /// Whether no statement directly in the group is an abstraction.
    pub fn only_contains_terms(&self) -> (only: bool)
        ensures
            only == (forall|i: int| 0 <= i < self@.len() ==> !(#[trigger] self@[i] is Abstraction)),
    {
        let mut i: usize = 0;
        while i < self.statements.statements.len()
            invariant
                i <= self.statements.statements.len(),
                forall|j: int| 0 <= j < i ==> !(#[trigger] self@[j] is Abstraction),
            decreases self.statements.statements.len() - i,
        {
            if self.statements.statements[i].is_abstraction() {
                assert(self@[i as int] is Abstraction);
                return false;
            }
            i += 1;
        }
        true
    }
}

impl Statement {
    /// Whether the statement is an abstraction.
    pub fn is_abstraction(&self) -> (is: bool)
        ensures
            is == (self@ is Abstraction),
    {
        if let Self::Abstraction(_) = self {
            true
        } else {
            false
        }
    }

    /// Whether the statement is a group.
    pub fn is_group(&self) -> (is: bool)
        ensures
            is == (self@ is Group),
    {
        if let Self::Group(_) = self {
            true
        } else {
            false
        }
    }

    /// Whether the statement is a term.
    pub fn is_term(&self) -> (is: bool)
        ensures
            is == (self@ is Term),
    {
        if let Self::Term(_) = self {
            true
        } else {
            false
        }
    }
}

impl Statements {
    /// A run with no statement in it.
    pub fn new() -> (statements: Self)
        ensures
            statements@ == Seq::<StatementView>::empty(),
    {
        let statements = Statements { statements: Vec::new() };
        assert(statements@ =~= Seq::<StatementView>::empty());
        statements
    }

    /// Takes the first statement out of the run; `None`, and nothing changes,
    /// when the run is empty.
    pub fn pop_front(&mut self) -> (front: Option<Statement>)
        ensures
            match front {
                Some(statement) => {
                    &&& old(self)@.len() > 0
                    &&& statement == old(self).statements@[0]
                    &&& statement@ == old(self)@[0]
                    &&& final(self)@ == old(self)@.drop_first()
                },
                None => {
                    &&& old(self)@.len() == 0
                    &&& final(self)@ == old(self)@
                },
            },
    {
        if self.statements.len() == 0 {
            return None;
        }
        let front = self.statements.remove(0);
        assert(self@ =~= old(self)@.drop_first());
        Some(front)
    }

    /// Puts a statement before the others.
    pub fn push_front(&mut self, statement: Statement)
        ensures
            final(self)@ == seq![statement@] + old(self)@,
    {
        self.statements.insert(0, statement);
        assert(self@ =~= seq![statement@] + old(self)@);
    }

    /// Puts a statement after the others.
    pub fn push_back(&mut self, statement: Statement)
        ensures
            final(self)@ == old(self)@.push(statement@),
    {
        self.statements.push(statement);
        assert(self@ =~= old(self)@.push(statement@));
    }
}

/// Whether the statement is well formed.
fn statement_is_well_formed(statement: &Statement) -> (well: bool)
    ensures
        well == statement@.well_formed(),
    decreases statement, 0int,
{
    match statement {
        Statement::Abstraction(abstraction) => abstraction.next.statements.len() > 0
            && statements_are_well_formed(&abstraction.next),
        Statement::Group(group) => group.statements.statements.len() > 0
            && statements_are_well_formed(&group.statements),
        Statement::Term(_) => true,
    }
}

/// Whether every statement of the run is well formed.
fn statements_are_well_formed(statements: &Statements) -> (well: bool)
    ensures
        well == all_well_formed(statements@),
    decreases statements, 1int,
{
    let mut i: usize = 0;
    while i < statements.statements.len()
        invariant
            i <= statements.statements.len(),
            statements@.len() == statements.statements.len(),
            forall|j: int| 0 <= j < i ==> (#[trigger] statements@[j]).well_formed(),
        decreases statements.statements.len() - i,
    {
        if !statement_is_well_formed(&statements.statements[i]) {
            assert(!statements@[i as int].well_formed());
            return false;
        }
        i += 1;
    }
    true
}

impl Statements {
    /// Whether no group in the statements and no abstraction's body is
    /// empty. Reduction needs this, and keeps it.
    pub fn is_well_formed(&self) -> (well: bool)
        ensures
            well == all_well_formed(self@),
    {
        statements_are_well_formed(self)
    }
}

} // verus!
