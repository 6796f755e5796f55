use crate::lexer::delimiter::{Delimiter, DelimiterView};
use crate::lexer::ident::Ident;
use crate::lexer::layout::{
    closed_at, laid_out, lemma_scanned_group_is_laid_out, lemma_scanned_tokens_are_laid_out,
    token_laid_out,
};
use crate::lexer::literal::{LitKind, Literal};
use crate::lexer::punct::Punct;
use crate::lexer::scan::{
    blank_byte, closes, group_byte, ident_byte, literal_byte, punct_byte, run_end, scan_group,
    scan_group_items, scan_ident, scan_literal, scan_punct, scan_token, scan_tokens, skip_blanks,
    text_of,
};
use crate::lexer::span::Span;
use crate::lexer::tokens::{Token, TokenView, Tokens, TokensView};
use vstd::prelude::*;

pub mod delimiter;
pub mod ident;
pub mod layout;
pub mod literal;
pub mod punct;
pub mod scan;
pub mod span;
pub mod text;
pub mod tokens;

verus! {

/// Reading one kind of token from the line under a scanner.
pub trait Parse: Sized + View {
    /// Whether a token of this kind may be asked for at `cursor`.
    spec fn starts_at(bytes: Seq<u8>, cursor: int) -> bool;

    /// What the line holds at `cursor`, and where the scanner stands
    /// afterwards.
    spec fn scanned(bytes: Seq<u8>, cursor: int) -> (Option<Self::V>, int);

    /// Reads the token under the scanner and moves the scanner past it.
    fn parse(lexer: &mut Lexer) -> (parsed: Option<Self>)
        requires
            Self::starts_at(old(lexer).bytes(), old(lexer).cursor()),
        ensures
            final(lexer).bytes() == old(lexer).bytes(),
            final(lexer).cursor() == Self::scanned(old(lexer).bytes(), old(lexer).cursor()).1,
            match parsed {
                Some(token) => Self::scanned(old(lexer).bytes(), old(lexer).cursor()).0 == Some(
                    token@,
                ),
                None => Self::scanned(old(lexer).bytes(), old(lexer).cursor()).0 is None,
            },
    ;
}

/// A scanner: a line of text and the position up to which it was read.
pub struct Lexer {
    buf: String,
    cursor: usize,
}

impl Lexer {
    /// The position never lies behind the end of the line.
    #[verifier::type_invariant]
    spec fn in_bounds(self) -> bool {
        self.cursor <= vstd::utf8::encode_utf8(self.buf@).len()
    }

    /// The line, as the bytes of its UTF-8 encoding.
    pub closed spec fn bytes(&self) -> Seq<u8> {
        vstd::utf8::encode_utf8(self.buf@)
    }

    /// The position of the next byte to read.
    pub closed spec fn cursor(&self) -> int {
        self.cursor as int
    }

    /// A scanner at the start of the line `buf`.
    pub fn new(buf: String) -> (lexer: Self)
        ensures
            lexer.bytes() == vstd::utf8::encode_utf8(buf@),
            lexer.cursor() == 0,
    {
        Self { buf, cursor: 0usize }
    }

    /// The length of the line in bytes.
    fn len(&self) -> (len: usize)
        ensures
            len == self.bytes().len(),
            self.cursor() <= len,
    {
        proof {
            use_type_invariant(self);
        }
        self.buf.as_str().as_bytes().len()
    }

    /// The byte at `at`.
    fn byte(&self, at: usize) -> (c: u8)
        requires
            at < self.bytes().len(),
        ensures
            c == self.bytes()[at as int],
            at < usize::MAX,
    {
        let bytes = self.buf.as_str().as_bytes();
        assert(bytes@.len() == bytes.len());
        bytes[at]
    }

    /// Every token of the rest of the line. Scanning stops at the end of
    /// the line or at the first byte that starts no token.
    pub fn parse(&mut self) -> (tokens: Tokens)
        ensures
            final(self).bytes() == old(self).bytes(),
            tokens@ == (TokensView {
                tokens: scan_tokens(old(self).bytes(), old(self).cursor()).0,
                next: 0,
            }),
            final(self).cursor() == scan_tokens(old(self).bytes(), old(self).cursor()).1,
            old(self).cursor() <= final(self).cursor() <= final(self).bytes().len(),
            laid_out(tokens@.tokens, old(self).cursor(), old(self).bytes().len() as int),
    {
        let mut tokens: Vec<Token> = Vec::new();
        let len = self.len();
        let ghost bytes = self.bytes();
        let ghost start = self.cursor();
        proof {
            lemma_scanned_tokens_are_laid_out(bytes, start);
        }
        loop
            invariant_except_break
                start <= self.cursor() <= bytes.len(),
                scan_tokens(bytes, start).0 == (Tokens { tokens, next: 0 })@.tokens + scan_tokens(
                    bytes,
                    self.cursor(),
                ).0,
                scan_tokens(bytes, start).1 == scan_tokens(bytes, self.cursor()).1,
            invariant
                self.bytes() == bytes,
                bytes == old(self).bytes(),
                start == old(self).cursor(),
                len == bytes.len(),
            ensures
                scan_tokens(bytes, start).0 == (Tokens { tokens, next: 0 })@.tokens,
                scan_tokens(bytes, start).1 == self.cursor(),
            decreases bytes.len() - self.cursor(),
        {
            let ghost before = (Tokens { tokens, next: 0 })@.tokens;
            if self.cursor >= len {
                assert(before + Seq::<TokenView>::empty() =~= before);
                break ;
            }
            match self.parse_token() {
                Some(token) => {
                    tokens.push(token);
                    proof {
                        let more = scan_tokens(bytes, self.cursor()).0;
                        assert((Tokens { tokens, next: 0 })@.tokens =~= before.push(token@));
                        assert(before + (seq![token@] + more) =~= before.push(token@) + more);
                    }
                },
                None => {
                    assert(before + Seq::<TokenView>::empty() =~= before);
                    break ;
                },
            }
        }
        Tokens { tokens, next: 0 }
    }

    /// Moves past the blanks under the scanner.
    pub fn skip_whitespace(&mut self)
        ensures
            final(self).bytes() == old(self).bytes(),
            final(self).cursor() == skip_blanks(old(self).bytes(), old(self).cursor()),
            old(self).cursor() <= final(self).cursor() <= final(self).bytes().len(),
    {
        let len = self.len();
        while self.cursor < len && is_blank(self.byte(self.cursor))
            invariant
                self.bytes() == old(self).bytes(),
                len == self.bytes().len(),
                old(self).cursor() <= self.cursor() <= len,
                skip_blanks(self.bytes(), self.cursor()) == skip_blanks(
                    old(self).bytes(),
                    old(self).cursor(),
                ),
            decreases len - self.cursor,
        {
            self.cursor += 1;
        }
    }

    /// Whether a punctuation symbol stands under the scanner.
    pub fn is_next_punct(&self) -> (is: bool)
        ensures
            is == (self.cursor() < self.bytes().len() && punct_byte(self.bytes()[self.cursor()])),
    {
        if self.cursor >= self.len() {
            return false;
        }
        is_punct(self.byte(self.cursor))
    }

    /// Whether a byte of a literal stands under the scanner.
    pub fn is_next_literal(&self) -> (is: bool)
        ensures
            is == (self.cursor() < self.bytes().len() && literal_byte(
                self.bytes()[self.cursor()],
            )),
    {
        if self.cursor >= self.len() {
            return false;
        }
        is_literal(self.byte(self.cursor))
    }

    /// Whether an opening bracket stands under the scanner.
    pub fn is_next_group(&self) -> (is: bool)
        ensures
            is == (self.cursor() < self.bytes().len() && group_byte(self.bytes()[self.cursor()])),
    {
        if self.cursor >= self.len() {
            return false;
        }
        is_group(self.byte(self.cursor))
    }

    /// Whether a byte of an identifier stands under the scanner.
    pub fn is_next_ident(&self) -> (is: bool)
        ensures
            is == (self.cursor() < self.bytes().len() && ident_byte(self.bytes()[self.cursor()])),
    {
        if self.cursor >= self.len() {
            return false;
        }
        is_ident(self.byte(self.cursor))
    }

    /// The byte under the scanner, as a character. There must be one.
    pub fn get_char(&mut self) -> (c: char)
        requires
            old(self).cursor() < old(self).bytes().len(),
        ensures
            *final(self) == *old(self),
            c == old(self).bytes()[old(self).cursor()] as char,
    {
        let c = self.byte(self.cursor);
        c as char
    }

    /// The byte under the scanner, as a character; the scanner moves past
    /// it. There must be one.
    pub fn next_char(&mut self) -> (c: char)
        requires
            old(self).cursor() < old(self).bytes().len(),
        ensures
            final(self).bytes() == old(self).bytes(),
            final(self).cursor() == old(self).cursor() + 1,
            c == old(self).bytes()[old(self).cursor()] as char,
    {
        let c = self.byte(self.cursor);
        self.cursor += 1;
        c as char
    }

    fn parse_token(&mut self) -> (token: Option<Token>)
        ensures
            final(self).bytes() == old(self).bytes(),
            final(self).cursor() == scan_token(old(self).bytes(), old(self).cursor()).1,
            match token {
                Some(token) => scan_token(old(self).bytes(), old(self).cursor()).0 == Some(
                    token@,
                ) && old(self).cursor() < final(self).cursor(),
                None => scan_token(old(self).bytes(), old(self).cursor()).0 is None,
            },
            old(self).cursor() <= final(self).cursor() <= final(self).bytes().len(),
    {
        read_token(self)
    }
}

fn is_blank(c: u8) -> (is: bool)
    ensures
        is == blank_byte(c),
{
    c == 0x20 || c == 0x09 || c == 0x0a
}

fn is_punct(c: u8) -> (is: bool)
    ensures
        is == punct_byte(c),
{
    c == 0x7e || c == 0x60 || c == 0x21 || c == 0x40 || c == 0x23 || c == 0x24 || c == 0x25 || c
        == 0x5e || c == 0x26 || c == 0x2a || c == 0x2d || c == 0x3d || c == 0x2b || c == 0x7c || c
        == 0x3b || c == 0x3a || c == 0x27 || c == 0x2c || c == 0x2e || c == 0x2f || c == 0x5c
        || c == 0x3f
}

fn is_literal(c: u8) -> (is: bool)
    ensures
        is == literal_byte(c),
{
    (0x30 <= c && c <= 0x39) || c == 0x22 || c == 0x27
}

fn is_group(c: u8) -> (is: bool)
    ensures
        is == group_byte(c),
{
    c == 0x28 || c == 0x7b || c == 0x5b || c == 0x3c
}

fn is_ident(c: u8) -> (is: bool)
    ensures
        is == ident_byte(c),
{
    (0x61 <= c && c <= 0x7a) || (0x41 <= c && c <= 0x5a) || c == 0x5f
}

fn is_closing(open: u8, close: u8) -> (is: bool)
    ensures
        is == closes(open, close),
{
    (open == 0x28 && close == 0x29) || (open == 0x7b && close == 0x7d) || (open == 0x3c && close
        == 0x3e) || (open == 0x5b && close == 0x5d)
}

/// Reads the identifier under the scanner.
fn read_ident(lexer: &mut Lexer) -> (ident: Ident)
    ensures
        final(lexer).bytes() == old(lexer).bytes(),
        final(lexer).cursor() == scan_ident(old(lexer).bytes(), old(lexer).cursor()).1,
        Token::Ident(ident)@ == scan_ident(old(lexer).bytes(), old(lexer).cursor()).0,
        old(lexer).cursor() <= final(lexer).cursor() <= final(lexer).bytes().len(),
        old(lexer).cursor() < old(lexer).bytes().len() && ident_byte(
            old(lexer).bytes()[old(lexer).cursor()],
        ) ==> old(lexer).cursor() < final(lexer).cursor(),
{
    let start = lexer.cursor;
    let ghost bytes = lexer.bytes();
    proof {
        use_type_invariant(&*lexer);
    }
    let ghost class = |c: u8| ident_byte(c);
    let mut ident = String::new();
    while lexer.is_next_ident()
        invariant
            lexer.bytes() == bytes,
            start <= lexer.cursor() <= bytes.len(),
            start == old(lexer).cursor(),
            bytes == old(lexer).bytes(),
            class == (|c: u8| ident_byte(c)),
            run_end(bytes, start as int, class) == run_end(bytes, lexer.cursor(), class),
            ident@ == text_of(bytes.subrange(start as int, lexer.cursor())),
        decreases bytes.len() - lexer.cursor(),
    {
        let c = lexer.next_char();
        ident.push(c);
        assert(ident@ =~= text_of(bytes.subrange(start as int, lexer.cursor())));
    }
    let end = lexer.cursor;
    Ident { ident, span: Span::new(start..end) }
}

/// Reads the punctuation symbol under the scanner, if one stands there.
fn read_punct(lexer: &mut Lexer) -> (punct: Punct)
    ensures
        final(lexer).bytes() == old(lexer).bytes(),
        final(lexer).cursor() == scan_punct(old(lexer).bytes(), old(lexer).cursor()).1,
        Token::Punct(punct)@ == scan_punct(old(lexer).bytes(), old(lexer).cursor()).0,
        old(lexer).cursor() <= final(lexer).cursor() <= final(lexer).bytes().len(),
{
    let start = lexer.cursor;
    let ghost bytes = lexer.bytes();
    proof {
        use_type_invariant(&*lexer);
    }
    let mut punct = String::new();
    assert(punct@ =~= text_of(bytes.subrange(start as int, start as int)));
    if lexer.is_next_punct() {
        let c = lexer.next_char();
        punct.push(c);
        assert(punct@ =~= text_of(bytes.subrange(start as int, start + 1)));
    }
    let end = lexer.cursor;
    Punct { punct, span: Span::new(start..end) }
}

/// Reads the literal under the scanner.
fn read_literal(lexer: &mut Lexer) -> (literal: Literal)
    requires
        old(lexer).cursor() < old(lexer).bytes().len(),
        literal_byte(old(lexer).bytes()[old(lexer).cursor()]),
    ensures
        final(lexer).bytes() == old(lexer).bytes(),
        final(lexer).cursor() == scan_literal(old(lexer).bytes(), old(lexer).cursor()).1,
        Token::Literal(literal)@ == scan_literal(old(lexer).bytes(), old(lexer).cursor()).0,
        old(lexer).cursor() < final(lexer).cursor() <= final(lexer).bytes().len(),
{
    let start = lexer.cursor;
    let ghost bytes = lexer.bytes();
    proof {
        use_type_invariant(&*lexer);
    }
    let ghost class = |c: u8| literal_byte(c);
    let first = lexer.byte(start);
    let mut value = String::new();
    while lexer.is_next_literal()
        invariant
            lexer.bytes() == bytes,
            start <= lexer.cursor() <= bytes.len(),
            start == old(lexer).cursor(),
            bytes == old(lexer).bytes(),
            class == (|c: u8| literal_byte(c)),
            run_end(bytes, start as int, class) == run_end(bytes, lexer.cursor(), class),
            value@ == text_of(bytes.subrange(start as int, lexer.cursor())),
        decreases bytes.len() - lexer.cursor(),
    {
        let c = lexer.next_char();
        value.push(c);
        assert(value@ =~= text_of(bytes.subrange(start as int, lexer.cursor())));
    }
    let kind = if first == 0x27 {
        LitKind::Character
    } else if first == 0x22 {
        LitKind::String
    } else {
        LitKind::Number
    };
    let end = lexer.cursor;
    Literal { span: Span::new(start..end), kind, value }
}

/// Reads the group whose opening bracket stands under the scanner.
fn read_group(lexer: &mut Lexer) -> (group: Delimiter)
    requires
        old(lexer).cursor() < old(lexer).bytes().len(),
    ensures
        final(lexer).bytes() == old(lexer).bytes(),
        final(lexer).cursor() == scan_group(old(lexer).bytes(), old(lexer).cursor()).1,
        group@ == scan_group(old(lexer).bytes(), old(lexer).cursor()).0,
        old(lexer).cursor() < final(lexer).cursor() <= final(lexer).bytes().len(),
        token_laid_out(TokenView::Group(group@)),
        group.close != 0 as char ==> closed_at(old(lexer).bytes(), old(lexer).cursor()),
    decreases old(lexer).bytes().len() - old(lexer).cursor(), 0int,
{
    let start = lexer.cursor;
    let len = lexer.len();
    let ghost bytes = lexer.bytes();
    proof {
        lemma_scanned_group_is_laid_out(bytes, start as int);
    }
    let open = lexer.byte(start);
    lexer.cursor += 1;
    let mut close: u8 = 0;
    let mut tokens: Vec<Token> = Vec::new();
    let ghost whole = scan_group_items(bytes, start + 1, open);
    loop
        invariant_except_break
            start < lexer.cursor() <= len,
            close == 0,
            whole.tokens == (Tokens { tokens, next: 0 })@.tokens + scan_group_items(
                bytes,
                lexer.cursor(),
                open,
            ).tokens,
            whole.close == scan_group_items(bytes, lexer.cursor(), open).close,
            whole.stop == scan_group_items(bytes, lexer.cursor(), open).stop,
        invariant
            lexer.bytes() == bytes,
            bytes == old(lexer).bytes(),
            start == old(lexer).cursor(),
            len == bytes.len(),
            whole == scan_group_items(bytes, start + 1, open),
        ensures
            lexer.bytes() == bytes,
            start < lexer.cursor() <= len,
            whole.tokens == (Tokens { tokens, next: 0 })@.tokens,
            whole.close == close as char,
            whole.stop == lexer.cursor(),
        decreases len - lexer.cursor(),
    {
        let ghost before = (Tokens { tokens, next: 0 })@.tokens;
        let token = match read_token(lexer) {
            Some(token) => token,
            None => {
                assert(before + Seq::<TokenView>::empty() =~= before);
                break ;
            },
        };
        lexer.skip_whitespace();
        tokens.push(token);
        proof {
            assert((Tokens { tokens, next: 0 })@.tokens =~= before.push(token@));
            let more = scan_group_items(bytes, lexer.cursor(), open).tokens;
            assert(before + (seq![token@] + more) =~= before.push(token@) + more);
        }
        if lexer.cursor >= len {
            break ;
        }
        let get = lexer.byte(lexer.cursor);
        if is_closing(open, get) {
            close = get;
            break ;
        }
    }
    if lexer.cursor < len {
        lexer.cursor += 1;
    }
    let end = lexer.cursor;
    Delimiter {
        span: Span::new(start..end),
        open: open as char,
        close: close as char,
        tokens: Tokens { tokens, next: 0 },
    }
}

/// Reads the token that starts at or after the scanner's position.
fn read_token(lexer: &mut Lexer) -> (token: Option<Token>)
    ensures
        final(lexer).bytes() == old(lexer).bytes(),
        final(lexer).cursor() == scan_token(old(lexer).bytes(), old(lexer).cursor()).1,
        match token {
            Some(token) => scan_token(old(lexer).bytes(), old(lexer).cursor()).0 == Some(token@)
                && old(lexer).cursor() < final(lexer).cursor(),
            None => scan_token(old(lexer).bytes(), old(lexer).cursor()).0 is None,
        },
        old(lexer).cursor() <= final(lexer).cursor() <= final(lexer).bytes().len(),
    decreases old(lexer).bytes().len() - old(lexer).cursor(), 1int,
{
    lexer.skip_whitespace();
    if lexer.is_next_punct() {
        return Some(Token::Punct(read_punct(lexer)));
    }
    if lexer.is_next_ident() {
        return Some(Token::Ident(read_ident(lexer)));
    }
    if lexer.is_next_literal() {
        return Some(Token::Literal(read_literal(lexer)));
    }
    if lexer.is_next_group() {
        return Some(Token::Group(read_group(lexer)));
    }
    None
}

impl Parse for Token {
    open spec fn starts_at(bytes: Seq<u8>, cursor: int) -> bool {
        true
    }

    open spec fn scanned(bytes: Seq<u8>, cursor: int) -> (Option<TokenView>, int) {
        scan_token(bytes, cursor)
    }

    fn parse(tokenizer: &mut Lexer) -> (parsed: Option<Token>) {
        read_token(tokenizer)
    }
}

impl Parse for Ident {
    open spec fn starts_at(bytes: Seq<u8>, cursor: int) -> bool {
        true
    }

    open spec fn scanned(bytes: Seq<u8>, cursor: int) -> (Option<Seq<char>>, int) {
        (Some(scan_ident(bytes, cursor).0->ident), scan_ident(bytes, cursor).1)
    }

    /// The identifier under the scanner. It is empty where no identifier
    /// starts.
    fn parse(tokenizer: &mut Lexer) -> (parsed: Option<Self>)
        ensures
            parsed matches Some(ident) && Token::Ident(ident)@ == scan_ident(
                old(tokenizer).bytes(),
                old(tokenizer).cursor(),
            ).0,
    {
        Some(read_ident(tokenizer))
    }
}

impl Parse for Punct {
    open spec fn starts_at(bytes: Seq<u8>, cursor: int) -> bool {
        true
    }

    open spec fn scanned(bytes: Seq<u8>, cursor: int) -> (Option<Seq<char>>, int) {
        (Some(scan_punct(bytes, cursor).0->punct), scan_punct(bytes, cursor).1)
    }

    /// The punctuation symbol under the scanner. It is empty where no
    /// symbol stands.
    fn parse(tokenizer: &mut Lexer) -> (parsed: Option<Self>)
        ensures
            parsed matches Some(punct) && Token::Punct(punct)@ == scan_punct(
                old(tokenizer).bytes(),
                old(tokenizer).cursor(),
            ).0,
    {
        Some(read_punct(tokenizer))
    }
}

impl Parse for Literal {
    /// A literal can only be read where one starts.
    open spec fn starts_at(bytes: Seq<u8>, cursor: int) -> bool {
        0 <= cursor < bytes.len() && literal_byte(bytes[cursor])
    }

    open spec fn scanned(bytes: Seq<u8>, cursor: int) -> (Option<Seq<char>>, int) {
        (Some(scan_literal(bytes, cursor).0->value), scan_literal(bytes, cursor).1)
    }

    fn parse(tokenizer: &mut Lexer) -> (parsed: Option<Self>)
        ensures
            parsed matches Some(literal) && Token::Literal(literal)@ == scan_literal(
                old(tokenizer).bytes(),
                old(tokenizer).cursor(),
            ).0,
    {
        Some(read_literal(tokenizer))
    }
}

impl Parse for Delimiter {
    /// A group can only be read where a byte is left to open it.
    open spec fn starts_at(bytes: Seq<u8>, cursor: int) -> bool {
        0 <= cursor < bytes.len()
    }

    open spec fn scanned(bytes: Seq<u8>, cursor: int) -> (Option<DelimiterView>, int) {
        (Some(scan_group(bytes, cursor).0), scan_group(bytes, cursor).1)
    }

    /// The group that the byte under the scanner opens, whatever that byte
    /// is: only a bracket can be closed again. The group's tokens lie
    /// inside its span, and a group that has a closing character was
    /// closed by the bracket that matches its opening one.
    fn parse(tokenizer: &mut Lexer) -> (parsed: Option<Self>)
        ensures
            parsed matches Some(group) && token_laid_out(TokenView::Group(group@)) && (group.close
                != 0 as char ==> closed_at(old(tokenizer).bytes(), old(tokenizer).cursor())),
    {
        Some(read_group(tokenizer))
    }
}

} // verus!
