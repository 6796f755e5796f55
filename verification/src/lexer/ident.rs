use crate::lexer::span::Span;
use vstd::prelude::*;

verus! {

/// An identifier: a run of ASCII letters and underscores.
#[derive(Debug)]
pub struct Ident {
    pub span: Span,
    pub ident: String,
}

impl View for Ident {
    type V = Seq<char>;

    /// An identifier stands for its text; where it was found does not count.
    open spec fn view(&self) -> Seq<char> {
        self.ident@
    }
}

impl Clone for Ident {
    fn clone(&self) -> (ident: Self)
        ensures
            ident == *self,
    {
        Self { span: self.span.clone(), ident: self.ident.clone() }
    }
}

impl PartialEq for Ident {
    fn eq(&self, other: &Self) -> (equal: bool) {
        self.ident == other.ident
    }
}

impl vstd::std_specs::cmp::PartialEqSpecImpl for Ident {
    open spec fn obeys_eq_spec() -> bool {
        true
    }

    open spec fn eq_spec(&self, other: &Self) -> bool {
        self.ident@ == other.ident@
    }
}

} // verus!
