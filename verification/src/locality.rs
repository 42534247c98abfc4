//! Every rule decides from the token's own bytes: cut out of the buffer, a
//! token is matched by the same rule, in full.

use vstd::prelude::*;
use crate::classes::{lemma_run_len, lemma_run_len_unique, run_len, ByteClass};
use crate::lexer::TokenType;
use crate::rules::{
    comment_len, error_len, has_bytes_at, has_keyword, identifier_len, keyword_kind, keyword_text, lemma_keyword_is_word, lemma_keyword_text_is_word, lemma_next_token_len,
    line_break_len, next_token, number_len, string_literal_len, symbol_len, whitespace_len,
};

verus! {

/// The `n` bytes of `bytes` that start at `pos`.
pub open spec fn piece(bytes: Seq<u8>, pos: int, n: int) -> Seq<u8> {
    bytes.subrange(pos, pos + n)
}

/// A run inside a piece is the run in the buffer, cut off at the piece's end.
pub proof fn lemma_run_len_in_piece(bytes: Seq<u8>, pos: int, n: int, i: int, class: ByteClass)
    requires
        0 <= pos,
        pos + n <= bytes.len(),
        0 <= i <= n,
    ensures
        run_len(piece(bytes, pos, n), i, class) == if run_len(bytes, pos + i, class) <= n - i {
            run_len(bytes, pos + i, class)
        } else {
            (n - i) as nat
        },
    decreases n - i,
{
    if i < n {
        assert(piece(bytes, pos, n)[i] == bytes[pos + i]);
        if class.contains(bytes[pos + i]) {
            lemma_run_len_in_piece(bytes, pos, n, i + 1, class);
        }
    }
}

/// What the rules other than the reserved words make of a piece: a rule
/// that fails in the buffer fails on the piece, and a rule that matches the
/// whole piece in the buffer matches the whole piece alone.
pub proof fn lemma_rules_in_piece(bytes: Seq<u8>, pos: int, n: int)
    requires
        0 <= pos,
        1 <= n,
        pos + n <= bytes.len(),
    ensures
        line_break_len(piece(bytes, pos, n), 0) == line_break_len(bytes, pos),
        symbol_len(piece(bytes, pos, n), 0) == symbol_len(bytes, pos),
        whitespace_len(bytes, pos) == 0 ==> whitespace_len(piece(bytes, pos, n), 0) == 0,
        whitespace_len(bytes, pos) == n ==> whitespace_len(piece(bytes, pos, n), 0) == n,
        string_literal_len(bytes, pos) == 0 ==> string_literal_len(piece(bytes, pos, n), 0) == 0,
        string_literal_len(bytes, pos) == n ==> string_literal_len(piece(bytes, pos, n), 0) == n,
        identifier_len(bytes, pos) == 0 ==> identifier_len(piece(bytes, pos, n), 0) == 0,
        identifier_len(bytes, pos) == n ==> identifier_len(piece(bytes, pos, n), 0) == n,
        number_len(bytes, pos) == 0 ==> number_len(piece(bytes, pos, n), 0) == 0,
        number_len(bytes, pos) == n ==> number_len(piece(bytes, pos, n), 0) == n,
        comment_len(bytes, pos) == 0 ==> comment_len(piece(bytes, pos, n), 0) == 0,
        comment_len(bytes, pos) == n ==> comment_len(piece(bytes, pos, n), 0) == n,
        error_len(bytes, pos) == n ==> error_len(piece(bytes, pos, n), 0) == n,
{
    let p = piece(bytes, pos, n);
    assert(p[0] == bytes[pos]);
    if n >= 2 {
        assert(p[1] == bytes[pos + 1]);
        lemma_run_len_in_piece(bytes, pos, n, 2, ByteClass::NotLineBreak);
    }
    lemma_run_len_in_piece(bytes, pos, n, 0, ByteClass::Blank);
    lemma_run_len_in_piece(bytes, pos, n, 0, ByteClass::Word);
    lemma_run_len_in_piece(bytes, pos, n, 0, ByteClass::Digit);
    lemma_run_len_in_piece(bytes, pos, n, 1, ByteClass::Digit);
    lemma_run_len_in_piece(bytes, pos, n, 1, ByteClass::NotQuote);
    lemma_run_len_in_piece(bytes, pos, n, 1, ByteClass::Continuation);
    lemma_run_len(bytes, pos + 1, ByteClass::NotQuote);
}

/// Where a piece is the whole word that starts at `pos`, or no word starts
/// there, a reserved word stands at the head of the piece exactly when it
/// stands at `pos` in the buffer.
pub proof fn lemma_has_keyword_in_piece(bytes: Seq<u8>, pos: int, n: int, kind: TokenType)
    requires
        0 <= pos,
        1 <= n,
        pos + n <= bytes.len(),
        identifier_len(bytes, pos) == n || identifier_len(bytes, pos) == 0,
    ensures
        has_keyword(piece(bytes, pos, n), 0, kind) == has_keyword(bytes, pos, kind),
{
    let p = piece(bytes, pos, n);
    let word = keyword_text(kind);
    let m = word.len() as int;
    lemma_keyword_text_is_word(kind);
    assert(p[0] == bytes[pos]);
    if m > 0 && has_bytes_at(bytes, pos, word) {
        assert(bytes[pos] == bytes.subrange(pos, pos + m)[0]);
    }
    if m > 0 && has_bytes_at(p, 0, word) {
        assert(p[0] == p.subrange(0, m)[0]);
    }
    if identifier_len(bytes, pos) == n {
        lemma_run_len(bytes, pos, ByteClass::Word);
        if has_keyword(bytes, pos, kind) {
            assert forall|i: int| pos <= i < pos + m implies ByteClass::Word.contains(
                #[trigger] bytes[i],
            ) by {
                assert(bytes[i] == bytes.subrange(pos, pos + m)[i - pos]);
            }
            lemma_run_len_unique(bytes, pos, ByteClass::Word, m as nat);
            assert(p.subrange(0, m) =~= bytes.subrange(pos, pos + m));
        }
        if has_keyword(p, 0, kind) {
            if m < n {
                assert(p[m] == bytes[pos + m]);
                assert(false);
            }
            assert(p.subrange(0, m) =~= bytes.subrange(pos, pos + m));
        }
    }
}

/// Under the same condition the piece holds the reserved word that the
/// buffer holds at `pos`, or none if the buffer holds none.
pub proof fn lemma_keyword_in_piece(bytes: Seq<u8>, pos: int, n: int)
    requires
        0 <= pos,
        1 <= n,
        pos + n <= bytes.len(),
        identifier_len(bytes, pos) == n || identifier_len(bytes, pos) == 0,
    ensures
        keyword_kind(piece(bytes, pos, n), 0) == keyword_kind(bytes, pos),
{
    lemma_has_keyword_in_piece(bytes, pos, n, TokenType::PluginKeyword);
    lemma_has_keyword_in_piece(bytes, pos, n, TokenType::UseKeyword);
    lemma_has_keyword_in_piece(bytes, pos, n, TokenType::PropKeyword);
    lemma_has_keyword_in_piece(bytes, pos, n, TokenType::EnumKeyword);
    lemma_has_keyword_in_piece(bytes, pos, n, TokenType::TypeKeyword);
    lemma_has_keyword_in_piece(bytes, pos, n, TokenType::ModelKeyword);
    lemma_has_keyword_in_piece(bytes, pos, n, TokenType::StringType);
    lemma_has_keyword_in_piece(bytes, pos, n, TokenType::NumberType);
    lemma_has_keyword_in_piece(bytes, pos, n, TokenType::BooleanType);
    lemma_has_keyword_in_piece(bytes, pos, n, TokenType::TextType);
    lemma_has_keyword_in_piece(bytes, pos, n, TokenType::DateType);
}

/// The bytes of the token that starts at `pos`, scanned alone, are one
/// token of the same kind and length.
pub proof fn lemma_token_in_piece(bytes: Seq<u8>, pos: int)
    requires
        0 <= pos < bytes.len(),
    ensures
        next_token(piece(bytes, pos, next_token(bytes, pos).1 as int), 0) == next_token(
            bytes,
            pos,
        ),
{
    let n = next_token(bytes, pos).1 as int;
    lemma_next_token_len(bytes, pos);
    lemma_rules_in_piece(bytes, pos, n);
    if keyword_kind(bytes, pos) is Some {
        lemma_keyword_is_word(bytes, pos);
    }
    if line_break_len(bytes, pos) > 0 || whitespace_len(bytes, pos) > 0 || string_literal_len(
        bytes,
        pos,
    ) > 0 {
    } else {
        lemma_keyword_in_piece(bytes, pos, n);
    }
}

} // verus!
