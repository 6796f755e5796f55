use crate::app::state::ControlFlow;
use crate::ast::{all_well_formed, AbstractionView, StatementView};
use vstd::prelude::*;

verus! {

/// The statements from index `at` on, after the substitution of `value` for
/// `name` has scanned them from left to right:
///
/// - an abstraction that binds `name` again is left as it is, and any other
///   abstraction has its body scanned;
/// - a group has its statements scanned;
/// - when `value` is an abstraction, the first term that the scan meets
///   becomes a group that holds `value` alone, whatever the term's name, and
///   the statements after it in this run are not scanned;
/// - otherwise a term named `name` becomes `value` and the scan goes on.
///
/// Names are compared as text: a variable that is free in `value` is
/// captured by a binder of the same name that it lands under.
pub open spec fn replace_from(
    body: Seq<StatementView>,
    at: int,
    name: Seq<char>,
    value: StatementView,
) -> Seq<StatementView>
    decreases body, body.len() - at,
{
    if at < 0 || at >= body.len() {
        Seq::empty()
    } else {
        match body[at] {
            StatementView::Abstraction(abstraction) => {
                let here = if abstraction.variable == name {
                    body[at]
                } else {
                    StatementView::Abstraction(
                        AbstractionView {
                            variable: abstraction.variable,
                            next: replace_from(abstraction.next, 0, name, value),
                        },
                    )
                };
                seq![here] + replace_from(body, at + 1, name, value)
            },
            StatementView::Group(statements) => seq![
                StatementView::Group(replace_from(statements, 0, name, value)),
            ] + replace_from(body, at + 1, name, value),
            StatementView::Term(term) => {
                if value is Abstraction {
                    seq![StatementView::Group(seq![value])] + body.subrange(
                        at + 1,
                        body.len() as int,
                    )
                } else if term == name {
                    seq![value] + replace_from(body, at + 1, name, value)
                } else {
                    seq![body[at]] + replace_from(body, at + 1, name, value)
                }
            },
        }
    }
}

/// The body of an abstraction that binds `name`, after `value` was put in
/// for `name`.
pub open spec fn replace(
    body: Seq<StatementView>,
    name: Seq<char>,
    value: StatementView,
) -> Seq<StatementView> {
    replace_from(body, 0, name, value)
}

/// The statements that take the place of a group whose first statement was
/// the abstraction, and what the step reports. `rest` is what the group
/// holds after the abstraction, `input` the statement that followed the
/// group.
///
/// With an input, the input is put in for the bound variable. A body that
/// still starts with an abstraction stays together as one group; any other
/// body loses its brackets. Without an input the abstraction stays as it is.
pub open spec fn apply_abstraction_to(
    rest: Seq<StatementView>,
    abstraction: AbstractionView,
    input: Option<StatementView>,
) -> (Seq<StatementView>, ControlFlow) {
    match input {
        Some(value) => {
            let body = replace(abstraction.next, abstraction.variable, value);
            if body.len() > 0 && body[0] is Abstraction {
                (seq![StatementView::Group(body)] + rest, ControlFlow::Running)
            } else {
                (body + rest, ControlFlow::Running)
            }
        },
        None => (seq![StatementView::Abstraction(abstraction)] + rest, ControlFlow::Finished),
    }
}

/// The statements that a group leaves in place of itself, before what
/// follows it.
///
/// The statement that followed the group, if there was one, is taken as the
/// input. When the group starts with an abstraction, the abstraction is
/// applied to the input. When it starts with a group, that inner group is
/// reduced among the statements after it, and the input is dropped. When it
/// starts with a term, nothing can be reduced: the input is put before the
/// term. In each case the group's brackets are gone afterwards.
pub open spec fn group_unfolded(
    group: Seq<StatementView>,
    input: Option<StatementView>,
) -> (Seq<StatementView>, ControlFlow)
    decreases group, 0int,
{
    if group.len() == 0 {
        (group, ControlFlow::Finished)
    } else {
        let rest = group.drop_first();
        match group[0] {
            StatementView::Abstraction(abstraction) => apply_abstraction_to(
                rest,
                abstraction,
                input,
            ),
            StatementView::Group(inner) => (application_of(rest, inner).0, ControlFlow::Running),
            StatementView::Term(_) => match input {
                Some(value) => (seq![value] + group, ControlFlow::Finished),
                None => (group, ControlFlow::Finished),
            },
        }
    }
}

/// The first statement of `parent`, if it has one: the input of a group
/// that stood before `parent`.
pub open spec fn input_of(parent: Seq<StatementView>) -> Option<StatementView> {
    if parent.len() > 0 {
        Some(parent[0])
    } else {
        None
    }
}

/// `parent` without the statement that a group before it takes as input.
pub open spec fn after_input(parent: Seq<StatementView>) -> Seq<StatementView> {
    if parent.len() > 0 {
        parent.drop_first()
    } else {
        parent
    }
}

/// What `parent` becomes when the group that stood before it is applied, and
/// what the application reports.
pub open spec fn application_of(
    parent: Seq<StatementView>,
    group: Seq<StatementView>,
) -> (Seq<StatementView>, ControlFlow)
    decreases group, 1int,
{
    let unfolded = group_unfolded(group, input_of(parent));
    (unfolded.0 + after_input(parent), unfolded.1)
}

impl AbstractionView {
    /// The abstraction with `inner` as the first statement of its body.
    pub open spec fn with_inner(self, inner: AbstractionView) -> AbstractionView {
        AbstractionView {
            variable: self.variable,
            next: self.next.update(0, StatementView::Abstraction(inner)),
        }
    }
}

/// One step inside an abstraction that stands first in the program.
///
/// The chain of curried abstractions is descended: the abstraction itself,
/// the abstraction that its body starts with, the one that that body starts
/// with, and so on, down to the first whose body does not start with an
/// abstraction. When that body starts with a group, the group is applied
/// among the statements after it in the body, which is a step. When it
/// starts with a term, nothing changes.
pub open spec fn currying_step_of(abstraction: AbstractionView) -> (AbstractionView, ControlFlow)
    decreases abstraction,
{
    if abstraction.next.len() > 0 && abstraction.next[0] is Group {
        (
            AbstractionView {
                variable: abstraction.variable,
                next: application_of(
                    abstraction.next.drop_first(),
                    abstraction.next[0]->Group_0,
                ).0,
            },
            ControlFlow::Running,
        )
    } else {
        match abstraction.next_curried() {
            Some(inner) => {
                let deeper = currying_step_of(inner);
                (abstraction.with_inner(deeper.0), deeper.1)
            },
            None => (abstraction, ControlFlow::Finished),
        }
    }
}

/// One step of normal-order reduction: the program after it, and whether
/// another step may change it.
///
/// An empty program and one that starts with a term are finished. One that
/// starts with an abstraction steps inside its curried chain. One that
/// starts with a group has the group applied to the statement after it, and
/// reports what the application reports.
pub open spec fn step_of(program: Seq<StatementView>) -> (Seq<StatementView>, ControlFlow) {
    if program.len() == 0 {
        (program, ControlFlow::Finished)
    } else {
        match program[0] {
            StatementView::Term(_) => (program, ControlFlow::Finished),
            StatementView::Abstraction(abstraction) => {
                let stepped = currying_step_of(abstraction);
                (
                    seq![StatementView::Abstraction(stepped.0)] + program.drop_first(),
                    stepped.1,
                )
            },
            StatementView::Group(group) => application_of(program.drop_first(), group),
        }
    }
}

/// Substitution keeps the number of statements, and keeps a well-formed
/// body well formed when the value is well formed.
pub proof fn lemma_replace_keeps_shape(
    body: Seq<StatementView>,
    at: int,
    name: Seq<char>,
    value: StatementView,
)
    requires
        0 <= at <= body.len(),
    ensures
        replace_from(body, at, name, value).len() == body.len() - at,
        all_well_formed(body) && value.well_formed() ==> all_well_formed(
            replace_from(body, at, name, value),
        ),
    decreases body, body.len() - at,
{
    if at < body.len() {
        let result = replace_from(body, at, name, value);
        match body[at] {
            StatementView::Abstraction(abstraction) => {
                lemma_replace_keeps_shape(abstraction.next, 0, name, value);
                lemma_replace_keeps_shape(body, at + 1, name, value);
            },
            StatementView::Group(statements) => {
                lemma_replace_keeps_shape(statements, 0, name, value);
                lemma_replace_keeps_shape(body, at + 1, name, value);
            },
            StatementView::Term(term) => {
                if !(value is Abstraction) {
                    lemma_replace_keeps_shape(body, at + 1, name, value);
                }
            },
        }
        if all_well_formed(body) && value.well_formed() {
            assert forall|i: int| 0 <= i < result.len() implies (
            #[trigger] result[i]).well_formed() by {
                if i > 0 {
                    if body[at] is Term && value is Abstraction {
                        assert(result[i] == body[at + i]);
                    } else {
                        assert(result[i] == replace_from(body, at + 1, name, value)[i - 1]);
                    }
                } else {
                    assert(body[at].well_formed());
                    if body[at] is Term && value is Abstraction {
                        assert(seq![value][0].well_formed());
                    }
                }
            }
        }
    }
}

/// Applying a group keeps a well-formed program well formed, and puts at
/// least one statement in the group's place.
pub proof fn lemma_application_keeps_well_formed(
    parent: Seq<StatementView>,
    group: Seq<StatementView>,
)
    requires
        all_well_formed(parent),
        group.len() > 0,
        all_well_formed(group),
    ensures
        all_well_formed(application_of(parent, group).0),
        application_of(parent, group).0.len() > 0,
    decreases group,
{
    let input = input_of(parent);
    let rest = group.drop_first();
    let unfolded = group_unfolded(group, input).0;
    assert(group[0].well_formed());
    assert(all_well_formed(rest)) by {
        assert forall|i: int| 0 <= i < rest.len() implies (#[trigger] rest[i]).well_formed() by {
            assert(rest[i] == group[i + 1]);
        }
    }
    assert(all_well_formed(after_input(parent))) by {
        let after = after_input(parent);
        assert forall|i: int| 0 <= i < after.len() implies (#[trigger] after[i]).well_formed() by {
            assert(after[i] == parent[i + 1]);
        }
    }
    match group[0] {
        StatementView::Abstraction(abstraction) => {
            match input {
                Some(value) => {
                    assert(value == parent[0]);
                    lemma_replace_keeps_shape(abstraction.next, 0, abstraction.variable, value);
                    let body = replace(abstraction.next, abstraction.variable, value);
                    if body[0] is Abstraction {
                        assert(StatementView::Group(body).well_formed());
                        lemma_concat_well_formed(seq![StatementView::Group(body)], rest);
                    } else {
                        lemma_concat_well_formed(body, rest);
                    }
                },
                None => {
                    lemma_concat_well_formed(seq![group[0]], rest);
                },
            }
        },
        StatementView::Group(inner) => {
            lemma_application_keeps_well_formed(rest, inner);
        },
        StatementView::Term(_) => {
            match input {
                Some(value) => {
                    assert(value == parent[0]);
                    lemma_concat_well_formed(seq![value], group);
                },
                None => {},
            }
        },
    }
    lemma_concat_well_formed(unfolded, after_input(parent));
}

/// Two well-formed runs, one after the other, are a well-formed run.
pub proof fn lemma_concat_well_formed(front: Seq<StatementView>, back: Seq<StatementView>)
    requires
        all_well_formed(front),
        all_well_formed(back),
    ensures
        all_well_formed(front + back),
{
    let whole = front + back;
    assert forall|i: int| 0 <= i < whole.len() implies (#[trigger] whole[i]).well_formed() by {
        if i < front.len() {
            assert(whole[i] == front[i]);
        } else {
            assert(whole[i] == back[i - front.len()]);
        }
    }
}

/// A step inside an abstraction keeps it well formed.
pub proof fn lemma_currying_step_keeps_well_formed(abstraction: AbstractionView)
    requires
        abstraction.well_formed(),
    ensures
        currying_step_of(abstraction).0.well_formed(),
    decreases abstraction,
{
    assert(abstraction.next[0].well_formed());
    if abstraction.next[0] is Group {
        let rest = abstraction.next.drop_first();
        assert(all_well_formed(rest)) by {
            assert forall|i: int| 0 <= i < rest.len() implies (
            #[trigger] rest[i]).well_formed() by {
                assert(rest[i] == abstraction.next[i + 1]);
            }
        }
        lemma_application_keeps_well_formed(rest, abstraction.next[0]->Group_0);
    } else {
        match abstraction.next_curried() {
            Some(inner) => {
                let stepped = currying_step_of(abstraction).0;
                lemma_currying_step_keeps_well_formed(inner);
                assert forall|i: int| 0 <= i < stepped.next.len() implies (
                #[trigger] stepped.next[i]).well_formed() by {
                    if i > 0 {
                        assert(stepped.next[i] == abstraction.next[i]);
                    }
                }
            },
            None => {},
        }
    }
}

/// Invariant of reduction: a step keeps a well-formed program well formed,
/// so no later step meets an empty group or an empty body.
pub proof fn lemma_step_keeps_well_formed(program: Seq<StatementView>)
    requires
        all_well_formed(program),
    ensures
        all_well_formed(step_of(program).0),
{
    if program.len() > 0 {
        let rest = program.drop_first();
        assert(program[0].well_formed());
        assert(all_well_formed(rest)) by {
            assert forall|i: int| 0 <= i < rest.len() implies (
            #[trigger] rest[i]).well_formed() by {
                assert(rest[i] == program[i + 1]);
            }
        }
        match program[0] {
            StatementView::Term(_) => {},
            StatementView::Abstraction(abstraction) => {
                lemma_currying_step_keeps_well_formed(abstraction);
                lemma_concat_well_formed(
                    seq![StatementView::Abstraction(currying_step_of(abstraction).0)],
                    rest,
                );
            },
            StatementView::Group(group) => {
                lemma_application_keeps_well_formed(rest, group);
            },
        }
    }
}

/// The statement in which every free occurrence of the variable `name` is
/// `value`: a term named `name` is replaced, and nothing changes under an
/// abstraction that binds `name` again.
pub open spec fn substituted(
    statement: StatementView,
    name: Seq<char>,
    value: StatementView,
) -> StatementView
    decreases statement,
{
    match statement {
        StatementView::Term(term) => if term == name {
            value
        } else {
            statement
        },
        StatementView::Group(statements) => StatementView::Group(
            substituted_all(statements, name, value),
        ),
        StatementView::Abstraction(abstraction) => if abstraction.variable == name {
            statement
        } else {
            StatementView::Abstraction(
                AbstractionView {
                    variable: abstraction.variable,
                    next: substituted_all(abstraction.next, name, value),
                },
            )
        },
    }
}

/// [`substituted`], of each statement of a run.
pub open spec fn substituted_all(
    body: Seq<StatementView>,
    name: Seq<char>,
    value: StatementView,
) -> Seq<StatementView>
    decreases body,
{
    Seq::new(
        body.len(),
        |i: int|
            if 0 <= i < body.len() {
                substituted(body[i], name, value)
            } else {
                arbitrary()
            },
    )
}

/// The scan from `at` on gives the substituted statements from `at` on.
proof fn lemma_replace_from_is_substitution(
    body: Seq<StatementView>,
    at: int,
    name: Seq<char>,
    value: StatementView,
)
    requires
        !(value is Abstraction),
        0 <= at <= body.len(),
    ensures
        replace_from(body, at, name, value) == substituted_all(body, name, value).subrange(
            at,
            body.len() as int,
        ),
    decreases body, body.len() - at,
{
    let scanned = replace_from(body, at, name, value);
    let wanted = substituted_all(body, name, value).subrange(at, body.len() as int);
    if at < body.len() {
        lemma_replace_from_is_substitution(body, at + 1, name, value);
        match body[at] {
            StatementView::Abstraction(abstraction) => {
                lemma_replace_from_is_substitution(abstraction.next, 0, name, value);
                assert(substituted_all(abstraction.next, name, value).subrange(
                    0,
                    abstraction.next.len() as int,
                ) =~= substituted_all(abstraction.next, name, value));
            },
            StatementView::Group(statements) => {
                lemma_replace_from_is_substitution(statements, 0, name, value);
                assert(substituted_all(statements, name, value).subrange(
                    0,
                    statements.len() as int,
                ) =~= substituted_all(statements, name, value));
            },
            StatementView::Term(_) => {},
        }
        assert(scanned[0] == wanted[0]);
        assert(scanned =~= wanted);
    } else {
        assert(scanned =~= wanted);
    }
}

/// Shadowing. When an abstraction that binds `name` is applied to a value
/// that is not itself an abstraction, every free occurrence of `name` in
/// its body becomes the value, and the occurrences under a nested
/// abstraction that binds `name` again are untouched.
pub proof fn lemma_replace_is_substitution(
    body: Seq<StatementView>,
    name: Seq<char>,
    value: StatementView,
)
    requires
        !(value is Abstraction),
    ensures
        replace(body, name, value) == substituted_all(body, name, value),
{
    lemma_replace_from_is_substitution(body, 0, name, value);
    assert(substituted_all(body, name, value).subrange(0, body.len() as int)
        =~= substituted_all(body, name, value));
}

/// Shadowing, whatever the value is: an abstraction in the body that binds
/// `name` again comes out of the substitution as it went in.
pub proof fn lemma_replace_leaves_shadowed(
    body: Seq<StatementView>,
    at: int,
    i: int,
    name: Seq<char>,
    value: StatementView,
)
    requires
        0 <= at <= i < body.len(),
        body[i] matches StatementView::Abstraction(abstraction) && abstraction.variable == name,
    ensures
        replace_from(body, at, name, value)[i - at] == body[i],
    decreases i - at,
{
    lemma_replace_keeps_shape(body, at + 1, name, value);
    if at < i {
        lemma_replace_leaves_shadowed(body, at + 1, i, name, value);
        if body[at] is Term && value is Abstraction {
        } else {
            assert(replace_from(body, at, name, value)[i - at] == replace_from(
                body,
                at + 1,
                name,
                value,
            )[i - at - 1]);
        }
    }
}

/// Fixed point. A program that starts with a term is finished: a step
/// changes nothing and reports so.
pub proof fn lemma_term_is_fixed_point(program: Seq<StatementView>)
    requires
        program.len() > 0,
        program[0] is Term,
    ensures
        step_of(program) == (program, ControlFlow::Finished),
{
}

/// The program after `count` steps.
pub open spec fn after_steps(program: Seq<StatementView>, count: nat) -> Seq<StatementView>
    decreases count,
{
    if count == 0 {
        program
    } else {
        step_of(after_steps(program, (count - 1) as nat)).0
    }
}

/// `(λx.x x)`, for a variable `x`.
pub open spec fn self_application(variable: Seq<char>) -> StatementView {
    StatementView::Group(
        seq![
            StatementView::Abstraction(
                AbstractionView {
                    variable,
                    next: seq![StatementView::Term(variable), StatementView::Term(variable)],
                },
            ),
        ],
    )
}

/// `(λx.x x) (λx.x x)` steps to itself, whatever `x` is called, and the
/// step reports `Running`.
pub proof fn lemma_self_application_runs_forever(variable: Seq<char>)
    ensures
        step_of(seq![self_application(variable), self_application(variable)]) == (
            seq![self_application(variable), self_application(variable)],
            ControlFlow::Running,
        ),
{
    let omega = self_application(variable);
    let program = seq![omega, omega];
    let body = seq![StatementView::Term(variable), StatementView::Term(variable)];
    let rest = program.drop_first();
    assert(rest =~= seq![omega]);
    assert(input_of(rest) == Some(omega));
    assert(after_input(rest) =~= Seq::<StatementView>::empty());
    lemma_replace_is_substitution(body, variable, omega);
    assert(substituted_all(body, variable, omega) =~= program);
    let group = omega->Group_0;
    assert(group.drop_first() =~= Seq::<StatementView>::empty());
    assert(program + Seq::<StatementView>::empty() =~= program);
    assert(group_unfolded(group, Some(omega)).0 =~= program);
}

/// Non-termination. However many steps `(λx.x x) (λx.x x)` has taken, the
/// next one reports `Running` and leaves the program as it was at the
/// start: `Finished` is never reported.
pub proof fn lemma_self_application_never_finishes(variable: Seq<char>, count: nat)
    ensures
        after_steps(seq![self_application(variable), self_application(variable)], count)
            == seq![self_application(variable), self_application(variable)],
        step_of(
            after_steps(seq![self_application(variable), self_application(variable)], count),
        ).1 == ControlFlow::Running,
    decreases count,
{
    lemma_self_application_runs_forever(variable);
    if count > 0 {
        lemma_self_application_never_finishes(variable, (count - 1) as nat);
    }
}

} // verus!
