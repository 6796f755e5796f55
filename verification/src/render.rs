use crate::ast::{Abstraction, Group, Statement, StatementView, Statements, Term};
use vstd::prelude::*;
use vstd::string::StringExecFns;

verus! {

/// Whether `c` has Unicode's `White_Space` property: the controls from
/// tab to carriage return, the space, next line, the no-break spaces, the
/// Ogham space mark, the spaces of fixed width from U+2000 to U+200A, the
/// line and paragraph separators, the medium mathematical space and the
/// ideographic space.
pub open spec fn white_space(c: char) -> bool {
    let code = c as u32;
    ||| 0x0009 <= code <= 0x000d
    ||| code == 0x0020
    ||| code == 0x0085
    ||| code == 0x00a0
    ||| code == 0x1680
    ||| 0x2000 <= code <= 0x200a
    ||| code == 0x2028
    ||| code == 0x2029
    ||| code == 0x202f
    ||| code == 0x205f
    ||| code == 0x3000
}

/// `char::is_whitespace` of the standard library: whether the character
/// has the `White_Space` property of the Unicode character database.
pub assume_specification[ char::is_whitespace ](c: char) -> (white: bool)
    ensures
        white == white_space(c),
;

/// `String::push` of the standard library: the character is added at the
/// end of the text, and the text before it stays as it was.
pub assume_specification[ std::string::String::push ](text: &mut std::string::String, c: char)
    ensures
        final(text)@ == old(text)@.push(c),
;

/// The first `n` characters of `text`, with each run of white space cut
/// down to the character that starts it.
pub open spec fn collapse_to(text: Seq<char>, n: int) -> Seq<char>
    decreases n,
{
    if n <= 0 || n > text.len() {
        Seq::empty()
    } else if white_space(text[n - 1]) && n >= 2 && white_space(text[n - 2]) {
        collapse_to(text, n - 1)
    } else {
        collapse_to(text, n - 1).push(text[n - 1])
    }
}

/// `text` with each run of white space cut down to the character that
/// starts it.
pub open spec fn collapse_whitespace(text: Seq<char>) -> Seq<char> {
    collapse_to(text, text.len() as int)
}

/// Whether no character of white space follows another in the text.
pub open spec fn no_runs(text: Seq<char>) -> bool {
    forall|i: int|
        0 <= i < text.len() - 1 ==> !(white_space(#[trigger] text[i]) && white_space(text[i + 1]))
}

/// What collapsing leaves of the first `n` characters holds no run of
/// white space, and ends in white space only if those characters do.
proof fn lemma_collapse_to_has_no_runs(text: Seq<char>, n: int)
    requires
        0 <= n <= text.len(),
    ensures
        no_runs(collapse_to(text, n)),
        n > 0 ==> collapse_to(text, n).len() > 0 && white_space(collapse_to(text, n).last())
            == white_space(text[n - 1]),
    decreases n,
{
    if n > 0 {
        lemma_collapse_to_has_no_runs(text, n - 1);
        let before = collapse_to(text, n - 1);
        let after = collapse_to(text, n);
        if !(white_space(text[n - 1]) && n >= 2 && white_space(text[n - 2])) {
            assert forall|i: int| 0 <= i < after.len() - 1 implies !(white_space(
                #[trigger] after[i],
            ) && white_space(after[i + 1])) by {
                if i < before.len() - 1 {
                    assert(after[i] == before[i]);
                    assert(after[i + 1] == before[i + 1]);
                } else {
                    assert(after[i] == before.last());
                    assert(after[i + 1] == text[n - 1]);
                }
            }
        }
    }
}

/// Repeated white space collapses: in a collapsed text no character of
/// white space follows another.
pub proof fn lemma_collapsed_has_no_runs(text: Seq<char>)
    ensures
        no_runs(collapse_whitespace(text)),
{
    lemma_collapse_to_has_no_runs(text, text.len() as int);
}

/// The text of one statement: `λ`, the variable, `.` and the body for an
/// abstraction; the statements of a group, with no brackets round them;
/// the name of a term.
pub open spec fn render_statement(statement: StatementView) -> Seq<char>
    decreases statement, 0int,
{
    match statement {
        StatementView::Abstraction(abstraction) => seq!['λ'] + abstraction.variable + seq!['.']
            + render_statements(abstraction.next),
        StatementView::Group(statements) => render_statements(statements),
        StatementView::Term(name) => name,
    }
}

/// The texts of the first `n` statements, with one space between each two.
pub open spec fn joined_to(statements: Seq<StatementView>, n: int) -> Seq<char>
    decreases statements, n,
{
    if n <= 0 || n > statements.len() {
        Seq::empty()
    } else if n == 1 {
        render_statement(statements[0])
    } else {
        joined_to(statements, n - 1) + seq![' '] + render_statement(statements[n - 1])
    }
}

/// The text of a run of statements: the statements' texts with a space
/// between each two, and runs of white space collapsed.
pub open spec fn render_statements(statements: Seq<StatementView>) -> Seq<char>
    decreases statements, statements.len() + 1,
{
    collapse_whitespace(joined_to(statements, statements.len() as int))
}

/// Cuts each run of white space in `str` down to the character that starts
/// it.
pub fn remove_multiple_whitespace(str: String) -> (ret: String)
    ensures
        ret@ == collapse_whitespace(str@),
{
    let mut ret = String::new();
    let mut whitespace_prev = false;
    for c in it: str.chars()
        invariant
            it.seq() == str@,
            ret@ == collapse_to(str@, it.index() as int),
            whitespace_prev == (it.index() > 0 && white_space(str@[it.index() - 1])),
    {
        if c.is_whitespace() {
            if !whitespace_prev {
                ret.push(c);
            }
            whitespace_prev = true;
        } else {
            ret.push(c);
            whitespace_prev = false;
        }
    }
    ret
}

/// The text of one statement.
fn statement_text(statement: &Statement) -> (text: String)
    ensures
        text@ == render_statement(statement@),
    decreases statement, 0int,
{
    match statement {
        Statement::Abstraction(abstraction) => {
            let mut text = String::new();
            text.push('λ');
            text.append(abstraction.variable.name.ident.as_str());
            text.push('.');
            let next = statements_text(&abstraction.next);
            text.append(next.as_str());
            assert(text@ =~= render_statement(statement@));
            text
        },
        Statement::Group(group) => statements_text(&group.statements),
        Statement::Term(term) => term.name.ident.clone(),
    }
}

/// The text of a run of statements.
fn statements_text(statements: &Statements) -> (text: String)
    ensures
        text@ == render_statements(statements@),
    decreases statements, 1int,
{
    let mut str = String::new();
    let mut i: usize = 0;
    while i < statements.statements.len()
        invariant
            i <= statements.statements.len(),
            statements@.len() == statements.statements.len(),
            str@ == joined_to(statements@, i as int),
        decreases statements.statements.len() - i,
    {
        if i > 0 {
            str.push(' ');
        }
        let one = statement_text(&statements.statements[i]);
        str.append(one.as_str());
        i += 1;
        assert(str@ =~= joined_to(statements@, i as int));
    }
    remove_multiple_whitespace(str)
}

impl Term {
    /// The term's name.
    pub fn to_string(&self) -> (text: String)
        ensures
            text@ == self@,
    {
        self.name.ident.clone()
    }
}

impl Abstraction {
    /// `λ`, the variable, `.` and the text of the body.
    pub fn to_string(&self) -> (text: String)
        ensures
            text@ == render_statement(StatementView::Abstraction(self@)),
    {
        let mut text = String::new();
        text.push('λ');
        text.append(self.variable.name.ident.as_str());
        text.push('.');
        let next = statements_text(&self.next);
        text.append(next.as_str());
        assert(text@ =~= render_statement(StatementView::Abstraction(self@)));
        text
    }
}

impl Group {
    /// The text of the group's statements. A group is written without its
    /// brackets.
    pub fn to_string(&self) -> (text: String)
        ensures
            text@ == render_statements(self@),
    {
        statements_text(&self.statements)
    }
}

impl Statement {
    /// The canonical text of the statement.
    pub fn to_string(&self) -> (text: String)
        ensures
            text@ == render_statement(self@),
    {
        statement_text(self)
    }
}

impl Statements {
    /// The canonical text of the statements: their texts with one space
    /// between each two, and runs of white space collapsed.
    pub fn to_string(&self) -> (text: String)
        ensures
            text@ == render_statements(self@),
    {
        statements_text(self)
    }
}

} // verus!
