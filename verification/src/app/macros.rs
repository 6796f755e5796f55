use vstd::prelude::*;

verus! {

/// `text` with every match of `from` replaced by `to`, as `str::replace`
/// gives it.
pub uninterp spec fn str_replace(text: Seq<char>, from: Seq<char>, to: Seq<char>) -> Seq<char>;

/// `str::replace` of the standard library. What it returns depends on the
/// three texts alone; the contract gives that result a name.
#[verifier::external_body]
pub(crate) fn replace_text(text: &str, from: &str, to: &str) -> (replaced: String)
    ensures
        replaced@ == str_replace(text@, from@, to@),
{
    text.replace(from, to)
}

/// `text` after the first `n` macros were applied to it, one after the
/// other: each replaces every occurrence of its name by its text.
pub open spec fn expanded_to(text: Seq<char>, macros: Seq<(Seq<char>, Seq<char>)>, n: int) -> Seq<
    char,
>
    decreases n,
{
    if n <= 0 || n > macros.len() {
        text
    } else {
        str_replace(expanded_to(text, macros, n - 1), macros[n - 1].0, macros[n - 1].1)
    }
}

/// `text` after every macro was applied to it, in the order in which the
/// macros were first defined.
pub open spec fn expanded(text: Seq<char>, macros: Seq<(Seq<char>, Seq<char>)>) -> Seq<char> {
    expanded_to(text, macros, macros.len() as int)
}

/// The index of the first macro at or after `at` that is called `name`;
/// the number of macros when none is.
pub open spec fn macro_index(macros: Seq<(Seq<char>, Seq<char>)>, name: Seq<char>, at: int) -> int
    decreases macros.len() - at,
{
    if 0 <= at < macros.len() && macros[at].0 != name {
        macro_index(macros, name, at + 1)
    } else {
        at
    }
}

/// The macros after `name` was defined as `text`: a macro of that name
/// gets the new text and keeps its place, a new name goes to the end.
pub open spec fn defined(
    macros: Seq<(Seq<char>, Seq<char>)>,
    name: Seq<char>,
    text: Seq<char>,
) -> Seq<(Seq<char>, Seq<char>)> {
    let at = macro_index(macros, name, 0);
    if at < macros.len() {
        macros.update(at, (name, text))
    } else {
        macros.push((name, text))
    }
}

/// Whether no two macros have the same name.
pub open spec fn distinct_names(macros: Seq<(Seq<char>, Seq<char>)>) -> bool {
    forall|i: int, j: int|
        0 <= i < j < macros.len() ==> (#[trigger] macros[i]).0 != (#[trigger] macros[j]).0
}

/// Where [`macro_index`] points: at a macro of that name, with none of
/// that name before it, or behind the last macro when none has the name.
pub proof fn lemma_macro_index(macros: Seq<(Seq<char>, Seq<char>)>, name: Seq<char>, at: int)
    requires
        0 <= at <= macros.len(),
    ensures
        at <= macro_index(macros, name, at) <= macros.len(),
        macro_index(macros, name, at) < macros.len() ==> macros[macro_index(macros, name, at)].0
            == name,
        forall|i: int| at <= i < macro_index(macros, name, at) ==> (#[trigger] macros[i]).0 != name,
    decreases macros.len() - at,
{
    if at < macros.len() && macros[at].0 != name {
        lemma_macro_index(macros, name, at + 1);
    }
}

/// A name stands for one text: defining a macro keeps the names distinct,
/// and afterwards the name stands for the text that was given last.
pub proof fn lemma_defined_keeps_names_distinct(
    macros: Seq<(Seq<char>, Seq<char>)>,
    name: Seq<char>,
    text: Seq<char>,
)
    requires
        distinct_names(macros),
    ensures
        distinct_names(defined(macros, name, text)),
        macro_index(defined(macros, name, text), name, 0) < defined(macros, name, text).len(),
        defined(macros, name, text)[macro_index(defined(macros, name, text), name, 0)] == (
            name,
            text,
        ),
{
    let at = macro_index(macros, name, 0);
    let after = defined(macros, name, text);
    lemma_macro_index(macros, name, 0);
    lemma_macro_index(after, name, 0);
    assert(after[at] == (name, text));
    assert forall|i: int, j: int| 0 <= i < j < after.len() implies (#[trigger] after[i]).0 != (
    #[trigger] after[j]).0 by {
        if i != at && j != at {
            assert(after[i] == macros[i]);
            assert(after[j] == macros[j]);
        } else if i == at {
            if at < macros.len() {
                assert(macros[at].0 == name);
                assert(after[j] == macros[j]);
            }
        } else {
            assert(after[i] == macros[i]);
            if at < macros.len() {
                assert(macros[at].0 == name);
            }
        }
    }
}

/// The macros as plain data.
pub open spec fn macros_view(macros: Seq<(String, String)>) -> Seq<(Seq<char>, Seq<char>)> {
    Seq::new(macros.len(), |i: int| (macros[i].0@, macros[i].1@))
}

/// The macros of a session, each with its name and its text, in the
/// order in which the names were first defined. A name stands for one
/// text: no two macros have the same name.
pub struct MacroTable {
    list: Vec<(String, String)>,
}

impl View for MacroTable {
    type V = Seq<(Seq<char>, Seq<char>)>;

    closed spec fn view(&self) -> Seq<(Seq<char>, Seq<char>)> {
        macros_view(self.list@)
    }
}

impl MacroTable {
    /// No two macros have the same name.
    #[verifier::type_invariant]
    spec fn names_are_distinct(self) -> bool {
        distinct_names(macros_view(self.list@))
    }

    /// A table without macros.
    pub fn new() -> (table: Self)
        ensures
            table@ == Seq::<(Seq<char>, Seq<char>)>::empty(),
    {
        let table = Self { list: Vec::new() };
        assert(table@ =~= Seq::<(Seq<char>, Seq<char>)>::empty());
        table
    }

    /// The macros, none of them twice.
    pub fn entries(&self) -> (list: &Vec<(String, String)>)
        ensures
            macros_view(list@) == self@,
            distinct_names(self@),
    {
        proof {
            use_type_invariant(self);
        }
        &self.list
    }

    /// Defines `name` as `text`: a macro of that name gets the new text
    /// and keeps its place, a new name goes to the end.
    pub fn insert(&mut self, name: String, text: String)
        ensures
            final(self)@ == defined(old(self)@, name@, text@),
            distinct_names(final(self)@),
    {
        proof {
            use_type_invariant(&*self);
            lemma_defined_keeps_names_distinct(self@, name@, text@);
        }
        let mut list: Vec<(String, String)> = Vec::new();
        assert(macros_view(list@) =~= Seq::<(Seq<char>, Seq<char>)>::empty());
        core::mem::swap(&mut self.list, &mut list);
        let ghost before = macros_view(list@);
        let mut i: usize = 0;
        while i < list.len() && list[i].0 != name
            invariant
                i <= list.len(),
                macros_view(list@) == before,
                macro_index(before, name@, 0) == macro_index(before, name@, i as int),
            decreases list.len() - i,
        {
            i += 1;
        }
        if i < list.len() {
            list.set(i, (name, text));
        } else {
            list.push((name, text));
        }
        assert(macros_view(list@) =~= defined(before, name@, text@));
        self.list = list;
    }

    /// Applies every macro to `text`, macro after macro: each replaces
    /// every occurrence of its name by its text.
    pub fn apply(&self, text: &mut String)
        ensures
            final(text)@ == expanded(old(text)@, self@),
    {
        let mut i: usize = 0;
        while i < self.list.len()
            invariant
                i <= self.list.len(),
                self@.len() == self.list.len(),
                text@ == expanded_to(old(text)@, self@, i as int),
            decreases self.list.len() - i,
        {
            let replaced = replace_text(
                text.as_str(),
                self.list[i].0.as_str(),
                self.list[i].1.as_str(),
            );
            *text = replaced;
            i += 1;
        }
    }
}

} // verus!
