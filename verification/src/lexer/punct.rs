use crate::lexer::span::Span;
use vstd::prelude::*;

verus! {

/// A punctuation token: one symbol of the scanner's fixed set.
#[derive(Debug)]
pub struct Punct {
    pub span: Span,
    pub punct: String,
}

impl View for Punct {
    type V = Seq<char>;

    open spec fn view(&self) -> Seq<char> {
        self.punct@
    }
}

impl Punct {
    /// Whether the symbol is `str`.
    pub fn is_punct(&self, str: &str) -> (matches: bool)
        ensures
            matches == (self.punct@ == str@),
    {
        let other: String = str.to_owned();
        self.punct == other
    }
}

impl Clone for Punct {
    fn clone(&self) -> (punct: Self)
        ensures
            punct == *self,
    {
        Self { span: self.span.clone(), punct: self.punct.clone() }
    }
}

impl PartialEq for Punct {
    fn eq(&self, other: &Self) -> (equal: bool) {
        self.punct == other.punct
    }
}

impl vstd::std_specs::cmp::PartialEqSpecImpl for Punct {
    open spec fn obeys_eq_spec() -> bool {
        true
    }

    open spec fn eq_spec(&self, other: &Self) -> bool {
        self.punct@ == other.punct@
    }
}

} // verus!
