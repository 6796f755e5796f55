use crate::lexer::span::Span;
use crate::lexer::tokens::{clone_tokens, tokens_view, Tokens, TokensView};
use vstd::prelude::*;

verus! {

/// A bracketed group of tokens, with the brackets that were found.
#[derive(Debug)]
pub struct Delimiter {
    pub span: Span,
    pub open: char,
    pub close: char,
    pub tokens: Tokens,
}

/// A group as plain data.
pub struct DelimiterView {
    pub span: Span,
    pub open: char,
    pub close: char,
    pub tokens: TokensView,
}

impl View for Delimiter {
    type V = DelimiterView;

    open spec fn view(&self) -> DelimiterView {
        DelimiterView {
            span: self.span,
            open: self.open,
            close: self.close,
            tokens: tokens_view(self.tokens),
        }
    }
}

impl Clone for Delimiter {
    fn clone(&self) -> (delimiter: Self)
        ensures
            delimiter@ == self@,
    {
        Self {
            span: self.span.clone(),
            open: self.open,
            close: self.close,
            tokens: clone_tokens(&self.tokens),
        }
    }
}

} // verus!
