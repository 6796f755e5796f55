use crate::lexer::delimiter::{Delimiter, DelimiterView};
use crate::lexer::ident::Ident;
use crate::lexer::literal::{LitKind, Literal};
use crate::lexer::punct::Punct;
use crate::lexer::span::Span;
use vstd::prelude::*;

verus! {

/// One unit of a scanned line. Brackets are already matched: a group holds
/// the tokens between them.
#[derive(Debug)]
pub enum Token {
    Literal(Literal),
    Ident(Ident),
    Punct(Punct),
    Group(Delimiter),
}

/// A run of tokens and a cursor into it: `next` is the index of the token that
/// the next call of [`Tokens::next`] hands out.
#[derive(Debug)]
pub struct Tokens {
    pub tokens: Vec<Token>,
    pub next: usize,
}

/// A token as plain data.
pub enum TokenView {
    Literal { span: Span, kind: LitKind, value: Seq<char> },
    Ident { span: Span, ident: Seq<char> },
    Punct { span: Span, punct: Seq<char> },
    Group(DelimiterView),
}

/// A run of tokens as plain data.
pub struct TokensView {
    pub tokens: Seq<TokenView>,
    pub next: nat,
}

impl TokensView {
    /// How many tokens have not been handed out yet.
    pub open spec fn left(self) -> nat {
        if self.next <= self.tokens.len() {
            (self.tokens.len() - self.next) as nat
        } else {
            0
        }
    }

    /// The tokens that have not been handed out yet.
    pub open spec fn remaining(self) -> Seq<TokenView> {
        if self.next <= self.tokens.len() {
            self.tokens.subrange(self.next as int, self.tokens.len() as int)
        } else {
            Seq::empty()
        }
    }
}

impl TokenView {
    /// Where the token was found.
    pub open spec fn span(self) -> Span {
        match self {
            TokenView::Literal { span, .. } => span,
            TokenView::Ident { span, .. } => span,
            TokenView::Punct { span, .. } => span,
            TokenView::Group(group) => group.span,
        }
    }
}

/// The plain data of one token.
pub open spec fn token_view(token: Token) -> TokenView
    decreases token,
{
    match token {
        Token::Literal(literal) => TokenView::Literal {
            span: literal.span,
            kind: literal.kind,
            value: literal.value@,
        },
        Token::Ident(ident) => TokenView::Ident { span: ident.span, ident: ident.ident@ },
        Token::Punct(punct) => TokenView::Punct { span: punct.span, punct: punct.punct@ },
        Token::Group(group) => TokenView::Group(
            DelimiterView {
                span: group.span,
                open: group.open,
                close: group.close,
                tokens: tokens_view(group.tokens),
            },
        ),
    }
}

/// The plain data of each token of a sequence, in order.
pub open spec fn token_seq_view(tokens: Seq<Token>) -> Seq<TokenView>
    decreases tokens,
{
    Seq::new(
        tokens.len(),
        |i: int|
            if 0 <= i < tokens.len() {
                token_view(tokens[i])
            } else {
                arbitrary()
            },
    )
}

/// The plain data of a run of tokens.
pub open spec fn tokens_view(tokens: Tokens) -> TokensView
    decreases tokens,
{
    TokensView { tokens: token_seq_view(tokens.tokens@), next: tokens.next as nat }
}

impl View for Token {
    type V = TokenView;

    open spec fn view(&self) -> TokenView {
        token_view(*self)
    }
}

impl View for Tokens {
    type V = TokensView;

    open spec fn view(&self) -> TokensView {
        tokens_view(*self)
    }
}

/// Copies a token with everything in it.
pub fn clone_token(token: &Token) -> (copy: Token)
    ensures
        copy@ == token@,
    decreases token,
{
    match token {
        Token::Literal(literal) => Token::Literal(literal.clone()),
        Token::Ident(ident) => Token::Ident(ident.clone()),
        Token::Punct(punct) => Token::Punct(punct.clone()),
        Token::Group(group) => Token::Group(
            Delimiter {
                span: group.span.clone(),
                open: group.open,
                close: group.close,
                tokens: clone_tokens(&group.tokens),
            },
        ),
    }
}

/// Copies a run of tokens; the copy's cursor stands where the cursor of
/// `tokens` stands.
pub fn clone_tokens(tokens: &Tokens) -> (copy: Tokens)
    ensures
        copy@ == tokens@,
    decreases tokens,
{
    let mut copied: Vec<Token> = Vec::new();
    let mut i: usize = 0;
    while i < tokens.tokens.len()
        invariant
            i <= tokens.tokens.len(),
            copied@.len() == i,
            forall|j: int|
                0 <= j < i ==> token_view(#[trigger] copied@[j]) == token_view(
                    tokens.tokens@[j],
                ),
        decreases tokens.tokens.len() - i,
    {
        copied.push(clone_token(&tokens.tokens[i]));
        i += 1;
    }
    assert(token_seq_view(copied@) =~= token_seq_view(tokens.tokens@));
    Tokens { tokens: copied, next: tokens.next }
}

impl Clone for Token {
    fn clone(&self) -> (token: Self)
        ensures
            token@ == self@,
    {
        clone_token(self)
    }
}

impl Clone for Tokens {
    fn clone(&self) -> (tokens: Self)
        ensures
            tokens@ == self@,
    {
        clone_tokens(self)
    }
}

impl Token {
    /// Where the token was found.
    pub fn span(&self) -> (span: &Span)
        ensures
            *span == self@.span(),
    {
        match self {
            Token::Group(g) => &g.span,
            Token::Ident(ident) => &ident.span,
            Token::Literal(literal) => &literal.span,
            Token::Punct(punct) => &punct.span,
        }
    }

    /// Whether the token is a literal.
    pub fn is_literal(&self) -> (is: bool)
        ensures
            is == (self@ is Literal),
    {
        if let Self::Literal(_) = self {
            return true;
        }
        false
    }

    /// Whether the token is an identifier.
    pub fn is_ident(&self) -> (is: bool)
        ensures
            is == (self@ is Ident),
    {
        if let Self::Ident(_) = self {
            return true;
        }
        false
    }

    /// Whether the token is a group.
    pub fn is_group(&self) -> (is: bool)
        ensures
            is == (self@ is Group),
    {
        if let Self::Group(_) = self {
            return true;
        }
        false
    }

    /// Whether the token is punctuation.
    pub fn is_punct(&self) -> (is: bool)
        ensures
            is == (self@ is Punct),
    {
        if let Self::Punct(_) = self {
            return true;
        }
        false
    }

    /// Whether the token is the punctuation `c`.
    pub fn is_punct_subset(&self, c: &str) -> (is: bool)
        ensures
            is == (self@ matches TokenView::Punct { punct, .. } && punct == c@),
    {
        if let Self::Punct(p) = self {
            return p.is_punct(c);
        }
        false
    }

    /// A copy of the literal, if the token is one.
    pub fn get_literal(&self) -> (literal: Option<Literal>)
        ensures
            literal == (match *self {
                Token::Literal(l) => Some(l),
                _ => None,
            }),
    {
        if let Self::Literal(lit) = self {
            return Some(lit.clone());
        }
        None
    }

    /// A copy of the group, if the token is one.
    pub fn get_group(&self) -> (group: Option<Delimiter>)
        ensures
            match self@ {
                TokenView::Group(g) => group is Some && group->0@ == g,
                _ => group is None,
            },
    {
        if let Self::Group(del) = self {
            return Some(del.clone());
        }
        None
    }

    /// A copy of the identifier, if the token is one.
    pub fn get_ident(&self) -> (ident: Option<Ident>)
        ensures
            ident == (match *self {
                Token::Ident(i) => Some(i),
                _ => None,
            }),
    {
        if let Self::Ident(ident) = self {
            return Some(ident.clone());
        }
        None
    }

    /// A copy of the punctuation, if the token is that.
    pub fn get_punct(&self) -> (punct: Option<Punct>)
        ensures
            punct == (match *self {
                Token::Punct(p) => Some(p),
                _ => None,
            }),
    {
        if let Self::Punct(punct) = self {
            return Some(punct.clone());
        }
        None
    }
}

impl Tokens {
    /// Hands out a copy of the token under the cursor and moves the cursor
    /// past it; `None`, and nothing changes, when no token is left.
    pub fn next(&mut self) -> (token: Option<Token>)
        ensures
            final(self).tokens == old(self).tokens,
            match token {
                Some(token) => {
                    &&& old(self).next < old(self).tokens.len()
                    &&& token@ == old(self)@.tokens[old(self).next as int]
                    &&& final(self).next == old(self).next + 1
                },
                None => {
                    &&& old(self).next >= old(self).tokens.len()
                    &&& final(self).next == old(self).next
                },
            },
            token is Some <==> old(self)@.remaining().len() > 0,
            token matches Some(token) ==> token@ == old(self)@.remaining()[0],
            token is Some ==> final(self)@.remaining() == old(self)@.remaining().drop_first(),
            token is None ==> final(self)@.remaining() == old(self)@.remaining(),
    {
        if self.next >= self.tokens.len() {
            return None;
        }
        let token = clone_token(&self.tokens[self.next]);
        self.next += 1;
        assert(self@.remaining() =~= old(self)@.remaining().drop_first());
        Some(token)
    }
}

} // verus!
