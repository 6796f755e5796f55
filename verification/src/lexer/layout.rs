use crate::lexer::scan::{
    blank_byte, closes, group_byte, ident_byte, lemma_run_end, literal_byte, punct_byte, scan_group,
    scan_group_items, scan_token, scan_tokens, skip_blanks,
};
use crate::lexer::tokens::TokenView;
use vstd::prelude::*;

verus! {

/// Whether the tokens lie between `low` and `high`, each covering at
/// least one byte, one behind the other, and the tokens of each group
/// between the group's brackets.
pub open spec fn laid_out(tokens: Seq<TokenView>, low: int, high: int) -> bool
    decreases tokens, 1int,
{
    &&& forall|i: int|
        0 <= i < tokens.len() ==> low <= (#[trigger] tokens[i]).span().start()
            < tokens[i].span().end() <= high && token_laid_out(tokens[i])
    &&& forall|i: int, j: int|
        0 <= i < j < tokens.len() ==> (#[trigger] tokens[i]).span().end()
            <= (#[trigger] tokens[j]).span().start()
}

/// Whether the tokens of a group lie inside it, behind its opening bracket.
pub open spec fn token_laid_out(token: TokenView) -> bool
    decreases token, 0int,
{
    match token {
        TokenView::Group(group) => laid_out(
            group.tokens.tokens,
            group.span.start() + 1,
            group.span.end(),
        ),
        _ => true,
    }
}

/// Whether a group was closed by its own bracket: it holds at least one
/// token, its last byte is the bracket that closes the one at `start`, and
/// that bracket is recorded as its closing character.
pub open spec fn closed_at(bytes: Seq<u8>, start: int) -> bool {
    let group = scan_group(bytes, start).0;
    &&& group.tokens.tokens.len() > 0
    &&& start + 1 < group.span.end() <= bytes.len()
    &&& closes(bytes[start], bytes[group.span.end() - 1])
    &&& group.close == bytes[group.span.end() - 1] as char
}

/// A token that was scanned lies behind the cursor and ends where the
/// scanner stands afterwards.
pub proof fn lemma_scanned_token_is_laid_out(bytes: Seq<u8>, cursor: int)
    requires
        0 <= cursor <= bytes.len() <= usize::MAX,
    ensures
        cursor <= scan_token(bytes, cursor).1 <= bytes.len(),
        scan_token(bytes, cursor).0 matches Some(token) ==> {
            &&& cursor <= token.span().start() < token.span().end()
            &&& token.span().end() == scan_token(bytes, cursor).1
            &&& token_laid_out(token)
        },
    decreases bytes.len() - cursor, 1int,
{
    let start = skip_blanks(bytes, cursor);
    lemma_run_end(bytes, cursor, |c: u8| blank_byte(c));
    assert(skip_blanks(bytes, cursor) == start);
    if start < bytes.len() {
        if punct_byte(bytes[start]) {
        } else if ident_byte(bytes[start]) {
            lemma_run_end(bytes, start, |c: u8| ident_byte(c));
            lemma_run_end(bytes, start + 1, |c: u8| ident_byte(c));
        } else if literal_byte(bytes[start]) {
            lemma_run_end(bytes, start, |c: u8| literal_byte(c));
            lemma_run_end(bytes, start + 1, |c: u8| literal_byte(c));
        } else if group_byte(bytes[start]) {
            lemma_scanned_group_is_laid_out(bytes, start);
        }
    }
}

/// A group that was scanned covers its opening bracket and its tokens; a
/// closing character other than that of code 0 is the bracket that closed
/// it.
pub proof fn lemma_scanned_group_is_laid_out(bytes: Seq<u8>, start: int)
    requires
        0 <= start < bytes.len() <= usize::MAX,
    ensures
        scan_group(bytes, start).0.span.start() == start,
        scan_group(bytes, start).0.span.end() == scan_group(bytes, start).1,
        start < scan_group(bytes, start).1 <= bytes.len(),
        scan_group(bytes, start).0.open == bytes[start] as char,
        laid_out(
            scan_group(bytes, start).0.tokens.tokens,
            start + 1,
            scan_group(bytes, start).1,
        ),
        scan_group(bytes, start).0.close != 0 as char ==> closed_at(bytes, start),
    decreases bytes.len() - start, 0int,
{
    lemma_scanned_items_are_laid_out(bytes, start + 1, bytes[start]);
    let items = scan_group_items(bytes, start + 1, bytes[start]);
    let end = scan_group(bytes, start).1;
    lemma_laid_out_widens(items.tokens, start + 1, items.stop, start + 1, end);
}

/// The tokens of a group lie between where they were looked for and where
/// the scanner stopped; a closing character other than that of code 0
/// stands where the scanner stopped and closes the group.
pub proof fn lemma_scanned_items_are_laid_out(bytes: Seq<u8>, cursor: int, open: u8)
    requires
        0 <= cursor <= bytes.len() <= usize::MAX,
    ensures
        cursor <= scan_group_items(bytes, cursor, open).stop <= bytes.len(),
        laid_out(
            scan_group_items(bytes, cursor, open).tokens,
            cursor,
            scan_group_items(bytes, cursor, open).stop,
        ),
        scan_group_items(bytes, cursor, open).close != 0 as char ==> {
            let items = scan_group_items(bytes, cursor, open);
            &&& items.tokens.len() > 0
            &&& items.stop < bytes.len()
            &&& closes(open, bytes[items.stop])
            &&& items.close == bytes[items.stop] as char
        },
    decreases bytes.len() - cursor, 2int,
{
    let scanned = scan_token(bytes, cursor);
    let items = scan_group_items(bytes, cursor, open);
    lemma_scanned_token_is_laid_out(bytes, cursor);
    if let Some(token) = scanned.0 {
        let at = skip_blanks(bytes, scanned.1);
        lemma_run_end(bytes, scanned.1, |c: u8| blank_byte(c));
        assert(skip_blanks(bytes, scanned.1) == at);
        if at <= cursor || at >= bytes.len() || closes(open, bytes[at]) {
            assert(items.tokens =~= seq![token]);
        } else {
            lemma_scanned_items_are_laid_out(bytes, at, open);
            let more = scan_group_items(bytes, at, open);
            lemma_laid_out_prepend(token, more.tokens, cursor, at, more.stop);
        }
    }
}

/// The tokens of a line lie behind the cursor, one behind the other, each
/// within the line.
pub proof fn lemma_scanned_tokens_are_laid_out(bytes: Seq<u8>, cursor: int)
    requires
        0 <= cursor <= bytes.len() <= usize::MAX,
    ensures
        cursor <= scan_tokens(bytes, cursor).1 <= bytes.len(),
        laid_out(scan_tokens(bytes, cursor).0, cursor, bytes.len() as int),
    decreases bytes.len() - cursor,
{
    let scanned = scan_token(bytes, cursor);
    lemma_scanned_token_is_laid_out(bytes, cursor);
    if let Some(token) = scanned.0 {
        if scanned.1 <= cursor || scanned.1 > bytes.len() {
            assert(scan_tokens(bytes, cursor).0 =~= seq![token]);
        } else {
            lemma_scanned_tokens_are_laid_out(bytes, scanned.1);
            let more = scan_tokens(bytes, scanned.1).0;
            lemma_laid_out_prepend(token, more, cursor, scanned.1, bytes.len() as int);
        }
    }
}

/// Tokens that lie between two bounds lie between wider bounds.
pub proof fn lemma_laid_out_widens(
    tokens: Seq<TokenView>,
    low: int,
    high: int,
    lower: int,
    higher: int,
)
    requires
        laid_out(tokens, low, high),
        lower <= low,
        high <= higher,
    ensures
        laid_out(tokens, lower, higher),
{
}

/// A token that ends before the others start can be put before them.
pub proof fn lemma_laid_out_prepend(
    first: TokenView,
    rest: Seq<TokenView>,
    low: int,
    middle: int,
    high: int,
)
    requires
        low <= first.span().start() < first.span().end() <= middle <= high,
        token_laid_out(first),
        laid_out(rest, middle, high),
    ensures
        laid_out(seq![first] + rest, low, high),
{
    let tokens = seq![first] + rest;
    assert forall|i: int| 0 <= i < tokens.len() implies low <= (
    #[trigger] tokens[i]).span().start() < tokens[i].span().end() <= high && token_laid_out(
        tokens[i],
    ) by {
        if i > 0 {
            assert(tokens[i] == rest[i - 1]);
        }
    }
    assert forall|i: int, j: int| 0 <= i < j < tokens.len() implies (
    #[trigger] tokens[i]).span().end() <= (#[trigger] tokens[j]).span().start() by {
        assert(tokens[j] == rest[j - 1]);
        if i > 0 {
            assert(tokens[i] == rest[i - 1]);
        }
    }
}

} // verus!
