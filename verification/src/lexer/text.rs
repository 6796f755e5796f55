use crate::lexer::delimiter::Delimiter;
use crate::lexer::ident::Ident;
use crate::lexer::literal::Literal;
use crate::lexer::punct::Punct;
use crate::lexer::tokens::{Token, TokenView, Tokens, TokensView};
use vstd::prelude::*;
use vstd::string::StringExecFns;

verus! {

/// `count` spaces.
pub open spec fn spaces(count: int) -> Seq<char> {
    Seq::new(
        if count > 0 {
            count as nat
        } else {
            0
        },
        |i: int| ' ',
    )
}

/// How many bytes lie between the end of one token and the start of the
/// next; none where the spans overlap.
pub open spec fn gap(previous_end: int, start: int) -> int {
    if start >= previous_end {
        start - previous_end
    } else {
        0
    }
}

/// The text of a token as it was scanned.
pub open spec fn token_text(token: TokenView) -> Seq<char>
    decreases token, 0int,
{
    match token {
        TokenView::Literal { value, .. } => value,
        TokenView::Ident { ident, .. } => ident,
        TokenView::Punct { punct, .. } => punct,
        TokenView::Group(group) => seq![group.open] + spaced_to(
            group.tokens.tokens,
            group.tokens.next as int,
            group.tokens.tokens.len() as int,
        ) + seq![group.close],
    }
}

/// Where the token before index `at` ended, for the spacing inside a
/// group. Before the first token that is written, this is where the
/// group's first token starts.
pub open spec fn previous_end(tokens: Seq<TokenView>, first: int, at: int) -> int {
    if at <= first {
        tokens[0].span().start()
    } else {
        tokens[at - 1].span().end()
    }
}

/// The tokens of a group from index `first` up to `n`, each with as many
/// spaces before it as bytes lay between it and the token before.
pub open spec fn spaced_to(tokens: Seq<TokenView>, first: int, n: int) -> Seq<char>
    decreases tokens, n,
{
    if first < 0 || n <= first || n > tokens.len() {
        Seq::empty()
    } else {
        spaced_to(tokens, first, n - 1) + spaces(
            gap(previous_end(tokens, first, n - 1), tokens[n - 1].span().start()),
        ) + token_text(tokens[n - 1])
    }
}

/// The texts of the tokens from index `first` up to `n`, with nothing
/// between them.
pub open spec fn concat_to(tokens: Seq<TokenView>, first: int, n: int) -> Seq<char>
    decreases tokens, n,
{
    if first < 0 || n <= first || n > tokens.len() {
        Seq::empty()
    } else {
        concat_to(tokens, first, n - 1) + token_text(tokens[n - 1])
    }
}

/// The text of the tokens that have not been handed out yet, with nothing
/// between them.
pub open spec fn tokens_text(tokens: TokensView) -> Seq<char> {
    concat_to(tokens.tokens, tokens.next as int, tokens.tokens.len() as int)
}

/// The text of one token.
fn text_of_token(token: &Token) -> (text: String)
    ensures
        text@ == token_text(token@),
    decreases token,
{
    match token {
        Token::Group(group) => text_of_group(group),
        Token::Ident(ident) => ident.ident.clone(),
        Token::Literal(literal) => literal.value.clone(),
        Token::Punct(punct) => punct.punct.clone(),
    }
}

/// The text of a group, its brackets included.
fn text_of_group(group: &Delimiter) -> (text: String)
    ensures
        text@ == token_text(TokenView::Group(group@)),
    decreases group,
{
    let ghost tokens = group@.tokens.tokens;
    let first = group.tokens.next;
    let len = group.tokens.tokens.len();
    let mut text = String::new();
    text.push(group.open);
    if first < len {
        let mut last_end: usize = group.tokens.tokens[0].span().range.start;
        let mut i: usize = first;
        while i < len
            invariant
                first <= i <= len,
                first == group.tokens.next,
                len == group.tokens.tokens.len(),
                tokens == group@.tokens.tokens,
                tokens.len() == len,
                last_end == previous_end(tokens, first as int, i as int),
                text@ == seq![group.open] + spaced_to(tokens, first as int, i as int),
            decreases len - i,
        {
            let token = &group.tokens.tokens[i];
            assert(token@ == tokens[i as int]);
            let start = token.span().range.start;
            let mut missing: usize = if start >= last_end {
                start - last_end
            } else {
                0
            };
            let ghost before = text@;
            let ghost width = missing;
            while missing > 0
                invariant
                    missing <= width,
                    text@ == before + spaces(width - missing),
                decreases missing,
            {
                text.push(' ');
                missing -= 1;
                assert(text@ =~= before + spaces(width - missing));
            }
            let one = text_of_token(token);
            text.append(one.as_str());
            last_end = token.span().range.end;
            i += 1;
            assert(text@ =~= seq![group.open] + spaced_to(tokens, first as int, i as int));
        }
    }
    text.push(group.close);
    assert(text@ =~= token_text(TokenView::Group(group@)));
    text
}

/// The text of the tokens from the cursor on.
fn text_of_tokens(tokens: &Tokens) -> (text: String)
    ensures
        text@ == tokens_text(tokens@),
{
    let mut text = String::new();
    let len = tokens.tokens.len();
    let first = tokens.next;
    if first < len {
        let mut i: usize = first;
        while i < len
            invariant
                first <= i <= len,
                first == tokens.next,
                len == tokens.tokens.len(),
                tokens@.tokens.len() == len,
                text@ == concat_to(tokens@.tokens, first as int, i as int),
            decreases len - i,
        {
            let one = text_of_token(&tokens.tokens[i]);
            text.append(one.as_str());
            i += 1;
        }
    }
    text
}

impl Ident {
    /// The identifier's text.
    pub fn to_string(&self) -> (text: String)
        ensures
            text@ == self@,
    {
        self.ident.clone()
    }
}

impl Punct {
    /// The symbol.
    pub fn to_string(&self) -> (text: String)
        ensures
            text@ == self@,
    {
        self.punct.clone()
    }
}

impl Literal {
    /// The literal as it was written.
    pub fn to_string(&self) -> (text: String)
        ensures
            text@ == self@,
    {
        self.value.clone()
    }
}

impl Delimiter {
    /// The group as it was written: the opening bracket, the tokens that
    /// have not been handed out, spaced as their spans say, and the closing
    /// bracket.
    pub fn to_string(&self) -> (text: String)
        ensures
            text@ == token_text(TokenView::Group(self@)),
    {
        text_of_group(self)
    }
}

impl Token {
    /// The token as it was written.
    pub fn to_string(&self) -> (text: String)
        ensures
            text@ == token_text(self@),
    {
        text_of_token(self)
    }
}

impl Tokens {
    /// The tokens that have not been handed out, written one after the
    /// other with nothing between them.
    pub fn to_string(&self) -> (text: String)
        ensures
            text@ == tokens_text(self@),
    {
        text_of_tokens(self)
    }
}

} // verus!
