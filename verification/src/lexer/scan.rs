use crate::lexer::delimiter::DelimiterView;
use crate::lexer::literal::LitKind;
use crate::lexer::span::Span;
use crate::lexer::tokens::{TokenView, TokensView};
use std::ops::Range;
use vstd::prelude::*;

verus! {

/// Whether the scanner skips the byte between tokens: space, tab, newline.
pub open spec fn blank_byte(c: u8) -> bool {
    c == 0x20 || c == 0x09 || c == 0x0a
}

/// Whether the byte is one of the punctuation symbols
/// ``~ ` ! @ # $ % ^ & * - = + | ; : ' , . / \ ?``.
pub open spec fn punct_byte(c: u8) -> bool {
    c == 0x7e || c == 0x60 || c == 0x21 || c == 0x40 || c == 0x23 || c == 0x24 || c == 0x25 || c
        == 0x5e || c == 0x26 || c == 0x2a || c == 0x2d || c == 0x3d || c == 0x2b || c == 0x7c || c
        == 0x3b || c == 0x3a || c == 0x27 || c == 0x2c || c == 0x2e || c == 0x2f || c == 0x5c || c
        == 0x3f
}

/// Whether the byte can stand in a literal: a digit, `"` or `'`.
pub open spec fn literal_byte(c: u8) -> bool {
    (0x30 <= c <= 0x39) || c == 0x22 || c == 0x27
}

/// Whether the byte opens a group: `(`, `{`, `[` or `<`.
pub open spec fn group_byte(c: u8) -> bool {
    c == 0x28 || c == 0x7b || c == 0x5b || c == 0x3c
}

/// Whether the byte can stand in an identifier: an ASCII letter or `_`.
pub open spec fn ident_byte(c: u8) -> bool {
    (0x61 <= c <= 0x7a) || (0x41 <= c <= 0x5a) || c == 0x5f
}

/// Whether `close` is the bracket that ends a group opened by `open`.
pub open spec fn closes(open: u8, close: u8) -> bool {
    (open == 0x28 && close == 0x29) || (open == 0x7b && close == 0x7d) || (open == 0x3c && close
        == 0x3e) || (open == 0x5b && close == 0x5d)
}

/// The bytes as characters, each byte taken as the code point of its value.
pub open spec fn text_of(bytes: Seq<u8>) -> Seq<char> {
    Seq::new(bytes.len(), |i: int| bytes[i] as char)
}

/// The span from `start` up to `end`.
pub open spec fn span_of(start: int, end: int) -> Span {
    Span { range: Range { start: start as usize, end: end as usize } }
}

/// Where the run of bytes of one class that starts at `cursor` ends.
pub open spec fn run_end(bytes: Seq<u8>, cursor: int, class: spec_fn(u8) -> bool) -> int
    decreases bytes.len() - cursor,
{
    if 0 <= cursor < bytes.len() && class(bytes[cursor]) {
        run_end(bytes, cursor + 1, class)
    } else {
        cursor
    }
}

/// A run ends within the line, holds bytes of its class only, and is not
/// followed by a byte of its class.
pub proof fn lemma_run_end(bytes: Seq<u8>, cursor: int, class: spec_fn(u8) -> bool)
    requires
        0 <= cursor <= bytes.len(),
    ensures
        cursor <= run_end(bytes, cursor, class) <= bytes.len(),
        forall|i: int| cursor <= i < run_end(bytes, cursor, class) ==> class(#[trigger] bytes[i]),
        run_end(bytes, cursor, class) < bytes.len() ==> !class(
            bytes[run_end(bytes, cursor, class)],
        ),
    decreases bytes.len() - cursor,
{
    if cursor < bytes.len() && class(bytes[cursor]) {
        lemma_run_end(bytes, cursor + 1, class);
    }
}

/// The first position at or after `cursor` that holds no blank.
pub open spec fn skip_blanks(bytes: Seq<u8>, cursor: int) -> int {
    run_end(bytes, cursor, |c: u8| blank_byte(c))
}

/// What a literal's first byte says it is.
pub open spec fn literal_kind(first: u8) -> LitKind {
    if first == 0x27 {
        LitKind::Character
    } else if first == 0x22 {
        LitKind::String
    } else {
        LitKind::Number
    }
}

/// The identifier at `cursor`: the longest run of identifier bytes, which
/// is empty where no identifier starts.
pub open spec fn scan_ident(bytes: Seq<u8>, cursor: int) -> (TokenView, int) {
    let end = run_end(bytes, cursor, |c: u8| ident_byte(c));
    (
        TokenView::Ident {
            span: span_of(cursor, end),
            ident: text_of(bytes.subrange(cursor, end)),
        },
        end,
    )
}

/// The punctuation at `cursor`: one symbol, or nothing where no symbol
/// stands.
pub open spec fn scan_punct(bytes: Seq<u8>, cursor: int) -> (TokenView, int) {
    let end = if 0 <= cursor < bytes.len() && punct_byte(bytes[cursor]) {
        cursor + 1
    } else {
        cursor
    };
    (
        TokenView::Punct {
            span: span_of(cursor, end),
            punct: text_of(bytes.subrange(cursor, end)),
        },
        end,
    )
}

/// The literal at `cursor`: the longest run of literal bytes, whose first
/// byte gives the kind.
pub open spec fn scan_literal(bytes: Seq<u8>, cursor: int) -> (TokenView, int) {
    let end = run_end(bytes, cursor, |c: u8| literal_byte(c));
    (
        TokenView::Literal {
            span: span_of(cursor, end),
            kind: literal_kind(bytes[cursor]),
            value: text_of(bytes.subrange(cursor, end)),
        },
        end,
    )
}

/// What the scanner finds in a group after its opening bracket.
pub struct GroupItems {
    /// The tokens of the group.
    pub tokens: Seq<TokenView>,
    /// The closing bracket, or the character of code 0 where the group was
    /// not closed by its own bracket.
    pub close: char,
    /// Where the scanner stopped: at the closing bracket, at a byte that
    /// starts no token, or at the end of the line.
    pub stop: int,
}

/// The token that starts at or after `cursor`, blanks skipped, and where
/// the scanner stands after it. Where no token starts, because the line has
/// ended or the byte found starts none, there is no token and the scanner
/// stands behind the blanks.
pub open spec fn scan_token(bytes: Seq<u8>, cursor: int) -> (Option<TokenView>, int)
    decreases bytes.len() - cursor, 1int,
{
    let start = skip_blanks(bytes, cursor);
    if cursor < 0 || start < cursor || start >= bytes.len() {
        (None, start)
    } else if punct_byte(bytes[start]) {
        (Some(scan_punct(bytes, start).0), scan_punct(bytes, start).1)
    } else if ident_byte(bytes[start]) {
        (Some(scan_ident(bytes, start).0), scan_ident(bytes, start).1)
    } else if literal_byte(bytes[start]) {
        (Some(scan_literal(bytes, start).0), scan_literal(bytes, start).1)
    } else if group_byte(bytes[start]) {
        (Some(TokenView::Group(scan_group(bytes, start).0)), scan_group(bytes, start).1)
    } else {
        (None, start)
    }
}

/// The group whose opening bracket stands at `start`, and where the
/// scanner stands after it.
///
/// The scanner steps over the byte at which the group's tokens stopped:
/// the closing bracket, or whatever else stood there. At the end of the
/// line there is nothing to step over, and the group ends there, unclosed.
pub open spec fn scan_group(bytes: Seq<u8>, start: int) -> (DelimiterView, int)
    decreases bytes.len() - start, 0int,
{
    if 0 <= start < bytes.len() {
        let items = scan_group_items(bytes, start + 1, bytes[start]);
        let end = if items.stop < bytes.len() {
            items.stop + 1
        } else {
            items.stop
        };
        (
            DelimiterView {
                span: span_of(start, end),
                open: bytes[start] as char,
                close: items.close,
                tokens: TokensView { tokens: items.tokens, next: 0 },
            },
            end,
        )
    } else {
        (
            DelimiterView {
                span: span_of(start, start),
                open: 0 as char,
                close: 0 as char,
                tokens: TokensView { tokens: Seq::empty(), next: 0 },
            },
            start,
        )
    }
}

/// The tokens of a group opened by `open`, read from `cursor` on.
///
/// After each token the blanks are skipped. The group ends at the bracket
/// that closes `open`, which is looked for only directly after a token; at
/// the end of the line; and at a byte that starts no token.
pub open spec fn scan_group_items(bytes: Seq<u8>, cursor: int, open: u8) -> GroupItems
    decreases bytes.len() - cursor, 2int,
{
    let scanned = scan_token(bytes, cursor);
    match scanned.0 {
        None => GroupItems { tokens: Seq::empty(), close: 0 as char, stop: scanned.1 },
        Some(token) => {
            let at = skip_blanks(bytes, scanned.1);
            if at <= cursor || at >= bytes.len() {
                GroupItems { tokens: seq![token], close: 0 as char, stop: at }
            } else if closes(open, bytes[at]) {
                GroupItems { tokens: seq![token], close: bytes[at] as char, stop: at }
            } else {
                let more = scan_group_items(bytes, at, open);
                GroupItems { tokens: seq![token] + more.tokens, close: more.close, stop: more.stop }
            }
        },
    }
}

/// Every token of the line from `cursor` on, and where the scanner stops:
/// at the end of the line, or at the first byte that starts no token.
pub open spec fn scan_tokens(bytes: Seq<u8>, cursor: int) -> (Seq<TokenView>, int)
    decreases bytes.len() - cursor,
{
    let scanned = scan_token(bytes, cursor);
    match scanned.0 {
        None => (Seq::empty(), scanned.1),
        Some(token) => {
            if scanned.1 <= cursor || scanned.1 > bytes.len() {
                (seq![token], scanned.1)
            } else {
                let more = scan_tokens(bytes, scanned.1);
                (seq![token] + more.0, more.1)
            }
        },
    }
}

} // verus!
