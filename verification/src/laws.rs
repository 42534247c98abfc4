//! Laws of the token stream, proved of the grammar itself.

use vstd::prelude::*;
use vstd::utf8::{
    decode_utf8, decode_utf8_encode_utf8, decode_utf8_split, encode_utf8, encode_utf8_decode_utf8,
    encode_utf8_valid_utf8, valid_utf8, valid_utf8_split,
};
use crate::lexer::{
    is_cover, joined_text, lemma_token_ends_at_boundary, scan_from, token_at, token_stream,
    tokens_at, Span, TokenType, TokenView,
};
use crate::locality::{lemma_token_in_piece, piece};
use crate::rules::{lemma_next_token_len, next_token};
use crate::text::{lemma_boundary_iff_starts_char, starts_char};

verus! {

/// The scanner classifies no position as `EOF` and none as a boolean
/// literal.
pub proof fn lemma_next_token_kind(bytes: Seq<u8>, pos: int)
    ensures
        next_token(bytes, pos).0 != TokenType::EOF,
        next_token(bytes, pos).0 != TokenType::BooleanLiteral,
{
}

/// The spans from `pos` on lie end to end from `pos` to the end of the
/// buffer, and only the last of them is the `EOF`.
pub proof fn lemma_scan_from_is_chain(bytes: Seq<u8>, pos: int)
    requires
        0 <= pos <= bytes.len(),
    ensures
        scan_from(bytes, pos).len() >= 1,
        scan_from(bytes, pos)[0].start == pos,
        scan_from(bytes, pos).last() == (Span {
            kind: TokenType::EOF,
            start: bytes.len() as int,
            end: bytes.len() as int,
        }),
        forall|i: int|
            0 <= i < scan_from(bytes, pos).len() - 1 ==> {
                let span = #[trigger] scan_from(bytes, pos)[i];
                &&& span.kind != TokenType::EOF
                &&& span.kind != TokenType::BooleanLiteral
                &&& pos <= span.start < span.end <= bytes.len()
                &&& span.kind == next_token(bytes, span.start).0
                &&& span.end == span.start + next_token(bytes, span.start).1
            },
        forall|i: int, j: int|
            0 <= i && j == i + 1 && j < scan_from(bytes, pos).len() ==> (#[trigger] scan_from(
                bytes,
                pos,
            )[i]).end == (#[trigger] scan_from(bytes, pos)[j]).start,
    decreases bytes.len() - pos,
{
    if pos < bytes.len() {
        let len = next_token(bytes, pos).1;
        lemma_next_token_len(bytes, pos);
        lemma_next_token_kind(bytes, pos);
        lemma_scan_from_is_chain(bytes, pos + len);
        let rest = scan_from(bytes, pos + len);
        let all = scan_from(bytes, pos);
        assert forall|i: int| 0 <= i < all.len() - 1 implies {
            let span = #[trigger] all[i];
            &&& span.kind != TokenType::EOF
            &&& span.kind != TokenType::BooleanLiteral
            &&& pos <= span.start < span.end <= bytes.len()
            &&& span.kind == next_token(bytes, span.start).0
            &&& span.end == span.start + next_token(bytes, span.start).1
        } by {
            if i > 0 {
                assert(all[i] == rest[i - 1]);
            }
        }
        assert forall|i: int, j: int| 0 <= i && j == i + 1 && j < all.len() implies (
        #[trigger] all[i]).end == (#[trigger] all[j]).start by {
            assert(all[j] == rest[j - 1]);
            if i > 0 {
                assert(all[i] == rest[i - 1]);
            }
        }
    }
}

/// In well-formed text every span of the stream starts and ends at a
/// character boundary.
pub proof fn lemma_spans_at_boundaries(bytes: Seq<u8>, pos: int, i: int)
    requires
        valid_utf8(bytes),
        starts_char(bytes, pos),
        0 <= i < scan_from(bytes, pos).len(),
    ensures
        starts_char(bytes, scan_from(bytes, pos)[i].start),
        starts_char(bytes, scan_from(bytes, pos)[i].end),
    decreases i,
{
    lemma_scan_from_is_chain(bytes, pos);
    if pos < bytes.len() {
        let len = next_token(bytes, pos).1;
        lemma_token_ends_at_boundary(bytes, pos);
        if i > 0 {
            lemma_spans_at_boundaries(bytes, pos + len, i - 1);
            assert(scan_from(bytes, pos)[i] == scan_from(bytes, pos + len)[i - 1]);
        }
    }
}

/// The texts of the tokens from a character boundary on spell the rest of
/// the buffer.
pub proof fn lemma_joined_text_from(bytes: Seq<u8>, pos: int)
    requires
        valid_utf8(bytes),
        starts_char(bytes, pos),
    ensures
        joined_text(tokens_at(bytes, scan_from(bytes, pos))) == decode_utf8(
            bytes.subrange(pos, bytes.len() as int),
        ),
    decreases bytes.len() - pos,
{
    let tokens = tokens_at(bytes, scan_from(bytes, pos));
    let suffix = bytes.subrange(pos, bytes.len() as int);
    if pos < bytes.len() {
        let len = next_token(bytes, pos).1 as int;
        lemma_next_token_len(bytes, pos);
        lemma_token_ends_at_boundary(bytes, pos);
        lemma_joined_text_from(bytes, pos + len);
        assert(tokens.drop_first() =~= tokens_at(bytes, scan_from(bytes, pos + len)));
        lemma_boundary_iff_starts_char(bytes, pos);
        valid_utf8_split(bytes, pos);
        lemma_boundary_iff_starts_char(suffix, len);
        decode_utf8_split(suffix, len);
        assert(suffix.subrange(0, len) =~= bytes.subrange(pos, pos + len));
        assert(suffix.subrange(len, suffix.len() as int) =~= bytes.subrange(
            pos + len,
            bytes.len() as int,
        ));
    } else {
        assert(tokens.drop_first() =~= Seq::<TokenView>::empty());
        assert(joined_text(tokens.drop_first()) =~= Seq::<char>::empty());
        assert(bytes.subrange(pos, pos) =~= suffix);
        assert(joined_text(tokens) =~= decode_utf8(suffix));
    }
}

/// The token stream of any text is non-empty, ends in its only `EOF`, and
/// tiles the text's bytes: each token ends where the next starts.
pub proof fn law_stream_is_cover(source: Seq<char>)
    ensures
        is_cover(token_stream(source), encode_utf8(source).len() as int),
{
    let bytes = encode_utf8(source);
    lemma_scan_from_is_chain(bytes, 0);
    let spans = scan_from(bytes, 0);
    let tokens = token_stream(source);
    assert forall|i: int| 0 <= i < tokens.len() - 1 implies (#[trigger] tokens[i]).token_type
        != TokenType::EOF && tokens[i].start < tokens[i].end by {
        assert(tokens[i] == token_at(bytes, spans[i]));
    }
    assert forall|i: int, j: int| 0 <= i && j == i + 1 && j < tokens.len() implies (
    #[trigger] tokens[i]).end == (#[trigger] tokens[j]).start by {
        assert(tokens[i] == token_at(bytes, spans[i]));
        assert(tokens[j] == token_at(bytes, spans[j]));
    }
}

/// Joining the texts of the tokens of any text, in order, gives the text
/// back.
pub proof fn law_stream_spells_source(source: Seq<char>)
    ensures
        joined_text(token_stream(source)) == source,
{
    let bytes = encode_utf8(source);
    encode_utf8_valid_utf8(source);
    lemma_joined_text_from(bytes, 0);
    assert(bytes.subrange(0, bytes.len() as int) =~= bytes);
    encode_utf8_decode_utf8(source);
}

/// In well-formed text the bytes between two character boundaries are
/// well-formed text.
pub proof fn lemma_piece_is_valid(bytes: Seq<u8>, start: int, end: int)
    requires
        valid_utf8(bytes),
        start <= end,
        starts_char(bytes, start),
        starts_char(bytes, end),
    ensures
        valid_utf8(bytes.subrange(start, end)),
{
    let head = bytes.subrange(0, end);
    lemma_boundary_iff_starts_char(bytes, end);
    valid_utf8_split(bytes, end);
    lemma_boundary_iff_starts_char(head, start);
    valid_utf8_split(head, start);
    assert(head.subrange(start, head.len() as int) =~= bytes.subrange(start, end));
}

/// The text of every token of a stream is the source between the token's
/// offsets: its bytes are the source's bytes from `start` to `end`.
pub proof fn law_token_text_is_slice(source: Seq<char>, i: int)
    requires
        0 <= i < token_stream(source).len(),
    ensures
        0 <= token_stream(source)[i].start <= token_stream(source)[i].end <= encode_utf8(
            source,
        ).len(),
        encode_utf8(token_stream(source)[i].value) == encode_utf8(source).subrange(
            token_stream(source)[i].start,
            token_stream(source)[i].end,
        ),
{
    let bytes = encode_utf8(source);
    let spans = scan_from(bytes, 0);
    encode_utf8_valid_utf8(source);
    lemma_scan_from_is_chain(bytes, 0);
    lemma_spans_at_boundaries(bytes, 0, i);
    assert(token_stream(source)[i] == token_at(bytes, spans[i]));
    if i == spans.len() - 1 {
        assert(spans[i] == spans.last());
    }
    lemma_piece_is_valid(bytes, spans[i].start, spans[i].end);
    decode_utf8_encode_utf8(bytes.subrange(spans[i].start, spans[i].end));
}

/// No token of a stream is a boolean literal: the grammar has no rule for
/// one.
pub proof fn law_no_boolean_literal(source: Seq<char>, i: int)
    requires
        0 <= i < token_stream(source).len(),
    ensures
        token_stream(source)[i].token_type != TokenType::BooleanLiteral,
{
    let bytes = encode_utf8(source);
    let spans = scan_from(bytes, 0);
    lemma_scan_from_is_chain(bytes, 0);
    assert(token_stream(source)[i] == token_at(bytes, spans[i]));
    if i == spans.len() - 1 {
        assert(spans[i] == spans.last());
    }
}

/// The bytes of the token that starts at `pos`, scanned alone, are that one
/// token and the `EOF` behind it.
pub proof fn lemma_piece_rescans(bytes: Seq<u8>, pos: int)
    requires
        0 <= pos < bytes.len(),
    ensures
        scan_from(piece(bytes, pos, next_token(bytes, pos).1 as int), 0) == seq![
            Span {
                kind: next_token(bytes, pos).0,
                start: 0,
                end: next_token(bytes, pos).1 as int,
            },
            Span {
                kind: TokenType::EOF,
                start: next_token(bytes, pos).1 as int,
                end: next_token(bytes, pos).1 as int,
            },
        ],
{
    let n = next_token(bytes, pos).1 as int;
    let alone = piece(bytes, pos, n);
    lemma_next_token_len(bytes, pos);
    lemma_token_in_piece(bytes, pos);
    assert(scan_from(alone, n) =~= seq![Span { kind: TokenType::EOF, start: n, end: n }]);
    assert(scan_from(alone, 0) =~= seq![
        Span { kind: next_token(bytes, pos).0, start: 0, end: n },
        Span { kind: TokenType::EOF, start: n, end: n },
    ]);
}

/// What the scanner makes of a token's text taken alone: the same token,
/// moved to offset 0, and the `EOF` behind it; of the text of an `EOF`, the
/// `EOF` alone.
pub open spec fn rescanned(token: TokenView) -> Seq<TokenView> {
    let len = token.end - token.start;
    let eof = TokenView { token_type: TokenType::EOF, value: seq![], start: len, end: len };
    if token.token_type == TokenType::EOF {
        seq![eof]
    } else {
        seq![
            TokenView { token_type: token.token_type, value: token.value, start: 0, end: len },
            eof,
        ]
    }
}

/// The stream of the empty text is the `EOF` alone.
pub proof fn lemma_empty_stream()
    ensures
        token_stream(Seq::<char>::empty()) == seq![
            TokenView { token_type: TokenType::EOF, value: Seq::<char>::empty(), start: 0, end: 0 },
        ],
{
    let bytes = encode_utf8(Seq::<char>::empty());
    assert(bytes =~= Seq::<u8>::empty());
    assert(bytes.subrange(0, 0) =~= bytes);
    assert(decode_utf8(bytes) =~= Seq::<char>::empty());
    assert(scan_from(bytes, 0) =~= seq![Span { kind: TokenType::EOF, start: 0, end: 0 }]);
    assert(token_stream(Seq::<char>::empty()) =~= seq![
        TokenView { token_type: TokenType::EOF, value: Seq::<char>::empty(), start: 0, end: 0 },
    ]);
}

/// The stream of the text of the token that starts at `pos`, taken alone.
pub proof fn lemma_token_text_rescans(bytes: Seq<u8>, pos: int)
    requires
        valid_utf8(bytes),
        0 <= pos < bytes.len(),
        starts_char(bytes, pos),
    ensures
        token_stream(
            decode_utf8(piece(bytes, pos, next_token(bytes, pos).1 as int)),
        ) == rescanned(
            token_at(
                bytes,
                Span {
                    kind: next_token(bytes, pos).0,
                    start: pos,
                    end: pos + next_token(bytes, pos).1,
                },
            ),
        ),
{
    let kind = next_token(bytes, pos).0;
    let n = next_token(bytes, pos).1 as int;
    let alone = piece(bytes, pos, n);
    let text = decode_utf8(alone);
    lemma_next_token_len(bytes, pos);
    lemma_token_ends_at_boundary(bytes, pos);
    lemma_piece_is_valid(bytes, pos, pos + n);
    decode_utf8_encode_utf8(alone);
    lemma_piece_rescans(bytes, pos);
    let spans = scan_from(alone, 0);
    assert(spans.len() == 2);
    assert(alone.subrange(0, n) =~= alone);
    assert(alone.subrange(n, n) =~= Seq::<u8>::empty());
    assert(decode_utf8(Seq::<u8>::empty()) =~= Seq::<char>::empty());
    assert(token_at(alone, spans[0]) == (TokenView {
        token_type: kind,
        value: text,
        start: 0,
        end: n,
    }));
    assert(token_at(alone, spans[1]) == (TokenView {
        token_type: TokenType::EOF,
        value: Seq::<char>::empty(),
        start: n,
        end: n,
    }));
    lemma_next_token_kind(bytes, pos);
    assert(tokens_at(alone, spans) =~= rescanned(
        token_at(bytes, Span { kind, start: pos, end: pos + n }),
    ));
}

/// Scanning the text of any one token of a stream, taken alone, yields
/// exactly one token of the same kind and text, followed by the `EOF`.
pub proof fn law_token_rescans_alone(source: Seq<char>, i: int)
    requires
        0 <= i < token_stream(source).len(),
    ensures
        token_stream(token_stream(source)[i].value) == rescanned(token_stream(source)[i]),
{
    let bytes = encode_utf8(source);
    let spans = scan_from(bytes, 0);
    let token = token_stream(source)[i];
    encode_utf8_valid_utf8(source);
    lemma_scan_from_is_chain(bytes, 0);
    lemma_spans_at_boundaries(bytes, 0, i);
    assert(token == token_at(bytes, spans[i]));
    if i == spans.len() - 1 {
        assert(spans[i] == spans.last());
        assert(bytes.subrange(bytes.len() as int, bytes.len() as int) =~= Seq::<u8>::empty());
        assert(decode_utf8(Seq::<u8>::empty()) =~= Seq::<char>::empty());
        lemma_empty_stream();
    } else {
        lemma_token_text_rescans(bytes, spans[i].start);
    }
}

} // verus!
