use crate::lexer::span::Span;
use vstd::prelude::*;

verus! {

/// What a literal's first character says it is.
#[derive(Debug, Clone, Copy, PartialEq, Eq, Structural)]
pub enum LitKind {
    Number,
    String,
    Character,
}

/// A literal, carried as the text that was scanned.
#[derive(Debug)]
pub struct Literal {
    pub span: Span,
    pub kind: LitKind,
    pub value: String,
}

impl View for Literal {
    type V = Seq<char>;

    open spec fn view(&self) -> Seq<char> {
        self.value@
    }
}

impl Clone for Literal {
    fn clone(&self) -> (literal: Self)
        ensures
            literal == *self,
    {
        Self { span: self.span.clone(), kind: self.kind, value: self.value.clone() }
    }
}

impl PartialEq for Literal {
    fn eq(&self, other: &Self) -> (equal: bool) {
        self.value == other.value && self.kind == other.kind
    }
}

impl vstd::std_specs::cmp::PartialEqSpecImpl for Literal {
    open spec fn obeys_eq_spec() -> bool {
        true
    }

    open spec fn eq_spec(&self, other: &Self) -> bool {
        self.value@ == other.value@ && self.kind == other.kind
    }
}

} // verus!
