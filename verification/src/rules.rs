//! The grammar: one function per rule, each giving the length of the match
//! at a position, 0 where the rule does not apply.

use vstd::prelude::*;
use crate::classes::{
    is_ascii_byte, is_line_break, is_word, is_word_start, lemma_run_len, lemma_run_len_unique,
    run_len, scan_run, ByteClass,
};
use crate::lexer::TokenType;

verus! {

/// A single line feed or carriage return. A carriage return followed by a
/// line feed is two line breaks.
pub open spec fn line_break_len(bytes: Seq<u8>, pos: int) -> nat {
    if 0 <= pos < bytes.len() && is_line_break(bytes[pos]) {
        1
    } else {
        0
    }
}

/// One or more spaces and tabs, as many as there are.
pub open spec fn whitespace_len(bytes: Seq<u8>, pos: int) -> nat {
    run_len(bytes, pos, ByteClass::Blank)
}

/// A double quote, one or more bytes that are not a double quote, and the
/// closing double quote. The text between the quotes may span lines.
pub open spec fn string_literal_len(bytes: Seq<u8>, pos: int) -> nat {
    let body = run_len(bytes, pos + 1, ByteClass::NotQuote);
    if 0 <= pos < bytes.len() && bytes[pos] == '"' as u8 && body >= 1 && pos + 1 + body
        < bytes.len() {
        body + 2
    } else {
        0
    }
}

/// The spelling of a reserved word or primitive type name; empty for every
/// other kind of token.
pub open spec fn keyword_text(kind: TokenType) -> Seq<u8> {
    match kind {
        TokenType::PluginKeyword => seq![
            'p' as u8,
            'l' as u8,
            'u' as u8,
            'g' as u8,
            'i' as u8,
            'n' as u8,
        ],
        TokenType::UseKeyword => seq!['u' as u8, 's' as u8, 'e' as u8],
        TokenType::PropKeyword => seq!['p' as u8, 'r' as u8, 'o' as u8, 'p' as u8],
        TokenType::EnumKeyword => seq!['e' as u8, 'n' as u8, 'u' as u8, 'm' as u8],
        TokenType::TypeKeyword => seq!['t' as u8, 'y' as u8, 'p' as u8, 'e' as u8],
        TokenType::ModelKeyword => seq!['m' as u8, 'o' as u8, 'd' as u8, 'e' as u8, 'l' as u8],
        TokenType::StringType => seq![
            'S' as u8,
            't' as u8,
            'r' as u8,
            'i' as u8,
            'n' as u8,
            'g' as u8,
        ],
        TokenType::NumberType => seq![
            'N' as u8,
            'u' as u8,
            'm' as u8,
            'b' as u8,
            'e' as u8,
            'r' as u8,
        ],
        TokenType::BooleanType => seq![
            'B' as u8,
            'o' as u8,
            'o' as u8,
            'l' as u8,
            'e' as u8,
            'a' as u8,
            'n' as u8,
        ],
        TokenType::TextType => seq!['T' as u8, 'e' as u8, 'x' as u8, 't' as u8],
        TokenType::DateType => seq!['D' as u8, 'a' as u8, 't' as u8, 'e' as u8],
        _ => seq![],
    }
}

/// Whether the bytes at `pos` spell `word`.
pub open spec fn has_bytes_at(bytes: Seq<u8>, pos: int, word: Seq<u8>) -> bool {
    &&& 0 <= pos
    &&& pos + word.len() <= bytes.len()
    &&& bytes.subrange(pos, pos + word.len()) == word
}

/// Whether the reserved word of `kind` stands at `pos` as a whole word: the
/// byte after it, if there is one, cannot continue an identifier.
pub open spec fn has_keyword(bytes: Seq<u8>, pos: int, kind: TokenType) -> bool {
    let word = keyword_text(kind);
    &&& word.len() > 0
    &&& has_bytes_at(bytes, pos, word)
    &&& !(pos + word.len() < bytes.len() && is_word(bytes[pos + word.len()]))
}

/// The reserved word that stands at `pos` as a whole word, if any.
pub open spec fn keyword_kind(bytes: Seq<u8>, pos: int) -> Option<TokenType> {
    if has_keyword(bytes, pos, TokenType::PluginKeyword) {
        Some(TokenType::PluginKeyword)
    } else if has_keyword(bytes, pos, TokenType::UseKeyword) {
        Some(TokenType::UseKeyword)
    } else if has_keyword(bytes, pos, TokenType::PropKeyword) {
        Some(TokenType::PropKeyword)
    } else if has_keyword(bytes, pos, TokenType::EnumKeyword) {
        Some(TokenType::EnumKeyword)
    } else if has_keyword(bytes, pos, TokenType::TypeKeyword) {
        Some(TokenType::TypeKeyword)
    } else if has_keyword(bytes, pos, TokenType::ModelKeyword) {
        Some(TokenType::ModelKeyword)
    } else if has_keyword(bytes, pos, TokenType::StringType) {
        Some(TokenType::StringType)
    } else if has_keyword(bytes, pos, TokenType::NumberType) {
        Some(TokenType::NumberType)
    } else if has_keyword(bytes, pos, TokenType::BooleanType) {
        Some(TokenType::BooleanType)
    } else if has_keyword(bytes, pos, TokenType::TextType) {
        Some(TokenType::TextType)
    } else if has_keyword(bytes, pos, TokenType::DateType) {
        Some(TokenType::DateType)
    } else {
        None
    }
}

/// A reserved word or primitive type name, matched as a whole word.
pub open spec fn keyword_len(bytes: Seq<u8>, pos: int) -> nat {
    match keyword_kind(bytes, pos) {
        Some(kind) => keyword_text(kind).len(),
        None => 0,
    }
}

/// A letter or underscore, then letters, digits and underscores, as many as
/// there are.
pub open spec fn identifier_len(bytes: Seq<u8>, pos: int) -> nat {
    if 0 <= pos < bytes.len() && is_word_start(bytes[pos]) {
        run_len(bytes, pos, ByteClass::Word)
    } else {
        0
    }
}

/// An optional minus sign, then one or more digits, as many as there are.
pub open spec fn number_len(bytes: Seq<u8>, pos: int) -> nat {
    if 0 <= pos < bytes.len() && bytes[pos] == '-' as u8 {
        let digits = run_len(bytes, pos + 1, ByteClass::Digit);
        if digits > 0 {
            digits + 1
        } else {
            0
        }
    } else {
        run_len(bytes, pos, ByteClass::Digit)
    }
}

pub open spec fn spec_symbol_kind(b: u8) -> Option<TokenType> {
    if b == '{' as u8 {
        Some(TokenType::OpenBrace)
    } else if b == '}' as u8 {
        Some(TokenType::CloseBrace)
    } else if b == '(' as u8 {
        Some(TokenType::OpenParen)
    } else if b == ')' as u8 {
        Some(TokenType::CloseParen)
    } else if b == '[' as u8 {
        Some(TokenType::OpenSquare)
    } else if b == ']' as u8 {
        Some(TokenType::CloseSquare)
    } else if b == '@' as u8 {
        Some(TokenType::AtSymbol)
    } else if b == '?' as u8 {
        Some(TokenType::Optional)
    } else {
        None
    }
}

/// The kind of the structural symbol that `b` is, if it is one.
#[verifier::when_used_as_spec(spec_symbol_kind)]
pub fn symbol_kind(b: u8) -> (kind: Option<TokenType>)
    ensures
        kind == spec_symbol_kind(b),
{
    if b == '{' as u8 {
        Some(TokenType::OpenBrace)
    } else if b == '}' as u8 {
        Some(TokenType::CloseBrace)
    } else if b == '(' as u8 {
        Some(TokenType::OpenParen)
    } else if b == ')' as u8 {
        Some(TokenType::CloseParen)
    } else if b == '[' as u8 {
        Some(TokenType::OpenSquare)
    } else if b == ']' as u8 {
        Some(TokenType::CloseSquare)
    } else if b == '@' as u8 {
        Some(TokenType::AtSymbol)
    } else if b == '?' as u8 {
        Some(TokenType::Optional)
    } else {
        None
    }
}

/// One of the structural symbols `{ } ( ) [ ] @ ?`.
pub open spec fn symbol_len(bytes: Seq<u8>, pos: int) -> nat {
    if 0 <= pos < bytes.len() && symbol_kind(bytes[pos]) is Some {
        1
    } else {
        0
    }
}

/// Two slashes and everything up to, and without, the next line break.
pub open spec fn comment_len(bytes: Seq<u8>, pos: int) -> nat {
    if 0 <= pos && pos + 1 < bytes.len() && bytes[pos] == '/' as u8 && bytes[pos + 1]
        == '/' as u8 {
        2 + run_len(bytes, pos + 2, ByteClass::NotLineBreak)
    } else {
        0
    }
}

/// What an unclassifiable position yields: the byte there alone, or, where
/// that byte is not ASCII, the byte and the continuation bytes behind it, so
/// that a multi-byte character is never cut.
pub open spec fn error_len(bytes: Seq<u8>, pos: int) -> nat {
    if 0 <= pos < bytes.len() && !is_ascii_byte(bytes[pos]) {
        1 + run_len(bytes, pos + 1, ByteClass::Continuation)
    } else {
        1
    }
}

/// The kind and length of the token that starts at `pos`: the first rule, in
/// the grammar's fixed order, that matches there decides; where none does,
/// the position is an error.
pub open spec fn next_token(bytes: Seq<u8>, pos: int) -> (TokenType, nat) {
    if line_break_len(bytes, pos) > 0 {
        (TokenType::LineBreak, line_break_len(bytes, pos))
    } else if whitespace_len(bytes, pos) > 0 {
        (TokenType::Whitespace, whitespace_len(bytes, pos))
    } else if string_literal_len(bytes, pos) > 0 {
        (TokenType::StringLiteral, string_literal_len(bytes, pos))
    } else if keyword_kind(bytes, pos) is Some {
        (keyword_kind(bytes, pos)->0, keyword_len(bytes, pos))
    } else if identifier_len(bytes, pos) > 0 {
        (TokenType::Identifier, identifier_len(bytes, pos))
    } else if number_len(bytes, pos) > 0 {
        (TokenType::NumberLiteral, number_len(bytes, pos))
    } else if symbol_len(bytes, pos) > 0 {
        (symbol_kind(bytes[pos])->0, symbol_len(bytes, pos))
    } else if comment_len(bytes, pos) > 0 {
        (TokenType::Comment, comment_len(bytes, pos))
    } else {
        (TokenType::Error, error_len(bytes, pos))
    }
}

/// Whether the bytes at `pos` spell `word`.
pub fn spells(bytes: &[u8], pos: usize, word: &[u8]) -> (r: bool)
    ensures
        r == has_bytes_at(bytes@, pos as int, word@),
{
    if pos > bytes.len() || word.len() > bytes.len() - pos {
        return false;
    }
    let mut i: usize = 0;
    while i < word.len()
        invariant
            i <= word@.len(),
            pos + word@.len() <= bytes@.len() <= usize::MAX,
            forall|j: int| 0 <= j < i ==> bytes@[pos + j] == word@[j],
        decreases word@.len() - i,
    {
        if bytes[pos + i] != word[i] {
            assert(bytes@.subrange(pos as int, pos + word@.len())[i as int] != word@[i as int]);
            return false;
        }
        i = i + 1;
    }
    assert(bytes@.subrange(pos as int, pos + word@.len()) =~= word@);
    true
}

/// Whether `word` stands at `pos` and is not continued by a word byte.
fn whole_word(bytes: &[u8], pos: usize, word: &[u8]) -> (r: bool)
    ensures
        r == (has_bytes_at(bytes@, pos as int, word@) && !(pos + word@.len() < bytes@.len()
            && is_word(bytes@[pos + word@.len()]))),
{
    let len: usize = bytes.len();
    if !spells(bytes, pos, word) {
        return false;
    }
    let end: usize = pos + word.len();
    !(end < len && is_word(bytes[end]))
}

/// Matches a line break at `pos`.
pub fn match_line_break(bytes: &[u8], pos: usize) -> (n: usize)
    ensures
        n == line_break_len(bytes@, pos as int),
{
    if pos < bytes.len() && is_line_break(bytes[pos]) {
        1
    } else {
        0
    }
}

/// Matches a run of spaces and tabs at `pos`.
pub fn match_whitespace(bytes: &[u8], pos: usize) -> (n: usize)
    ensures
        n == whitespace_len(bytes@, pos as int),
{
    scan_run(bytes, pos, ByteClass::Blank)
}

/// Matches a string literal at `pos`.
pub fn match_string_literal(bytes: &[u8], pos: usize) -> (n: usize)
    ensures
        n == string_literal_len(bytes@, pos as int),
{
    if pos >= bytes.len() || bytes[pos] != '"' as u8 {
        return 0;
    }
    let body: usize = scan_run(bytes, pos + 1, ByteClass::NotQuote);
    if body >= 1 && pos + 1 + body < bytes.len() {
        body + 2
    } else {
        0
    }
}

/// Matches a reserved word or primitive type name at `pos`.
pub fn match_keyword(bytes: &[u8], pos: usize) -> (kind: Option<TokenType>)
    ensures
        kind == keyword_kind(bytes@, pos as int),
{
    let plugin: [u8; 6] = ['p' as u8, 'l' as u8, 'u' as u8, 'g' as u8, 'i' as u8, 'n' as u8];
    let use_: [u8; 3] = ['u' as u8, 's' as u8, 'e' as u8];
    let prop: [u8; 4] = ['p' as u8, 'r' as u8, 'o' as u8, 'p' as u8];
    let enum_: [u8; 4] = ['e' as u8, 'n' as u8, 'u' as u8, 'm' as u8];
    let type_: [u8; 4] = ['t' as u8, 'y' as u8, 'p' as u8, 'e' as u8];
    let model: [u8; 5] = ['m' as u8, 'o' as u8, 'd' as u8, 'e' as u8, 'l' as u8];
    let string: [u8; 6] = ['S' as u8, 't' as u8, 'r' as u8, 'i' as u8, 'n' as u8, 'g' as u8];
    let number: [u8; 6] = ['N' as u8, 'u' as u8, 'm' as u8, 'b' as u8, 'e' as u8, 'r' as u8];
    let boolean: [u8; 7] = [
        'B' as u8,
        'o' as u8,
        'o' as u8,
        'l' as u8,
        'e' as u8,
        'a' as u8,
        'n' as u8,
    ];
    let text: [u8; 4] = ['T' as u8, 'e' as u8, 'x' as u8, 't' as u8];
    let date: [u8; 4] = ['D' as u8, 'a' as u8, 't' as u8, 'e' as u8];
    assert(plugin@ =~= keyword_text(TokenType::PluginKeyword));
    assert(use_@ =~= keyword_text(TokenType::UseKeyword));
    assert(prop@ =~= keyword_text(TokenType::PropKeyword));
    assert(enum_@ =~= keyword_text(TokenType::EnumKeyword));
    assert(type_@ =~= keyword_text(TokenType::TypeKeyword));
    assert(model@ =~= keyword_text(TokenType::ModelKeyword));
    assert(string@ =~= keyword_text(TokenType::StringType));
    assert(number@ =~= keyword_text(TokenType::NumberType));
    assert(boolean@ =~= keyword_text(TokenType::BooleanType));
    assert(text@ =~= keyword_text(TokenType::TextType));
    assert(date@ =~= keyword_text(TokenType::DateType));
    if whole_word(bytes, pos, plugin.as_slice()) {
        Some(TokenType::PluginKeyword)
    } else if whole_word(bytes, pos, use_.as_slice()) {
        Some(TokenType::UseKeyword)
    } else if whole_word(bytes, pos, prop.as_slice()) {
        Some(TokenType::PropKeyword)
    } else if whole_word(bytes, pos, enum_.as_slice()) {
        Some(TokenType::EnumKeyword)
    } else if whole_word(bytes, pos, type_.as_slice()) {
        Some(TokenType::TypeKeyword)
    } else if whole_word(bytes, pos, model.as_slice()) {
        Some(TokenType::ModelKeyword)
    } else if whole_word(bytes, pos, string.as_slice()) {
        Some(TokenType::StringType)
    } else if whole_word(bytes, pos, number.as_slice()) {
        Some(TokenType::NumberType)
    } else if whole_word(bytes, pos, boolean.as_slice()) {
        Some(TokenType::BooleanType)
    } else if whole_word(bytes, pos, text.as_slice()) {
        Some(TokenType::TextType)
    } else if whole_word(bytes, pos, date.as_slice()) {
        Some(TokenType::DateType)
    } else {
        None
    }
}

/// Matches an identifier at `pos`.
pub fn match_identifier(bytes: &[u8], pos: usize) -> (n: usize)
    ensures
        n == identifier_len(bytes@, pos as int),
{
    if pos < bytes.len() && is_word_start(bytes[pos]) {
        scan_run(bytes, pos, ByteClass::Word)
    } else {
        0
    }
}

/// Matches a number literal at `pos`.
pub fn match_number(bytes: &[u8], pos: usize) -> (n: usize)
    ensures
        n == number_len(bytes@, pos as int),
{
    if pos < bytes.len() && bytes[pos] == '-' as u8 {
        let digits: usize = scan_run(bytes, pos + 1, ByteClass::Digit);
        if digits > 0 {
            digits + 1
        } else {
            0
        }
    } else {
        scan_run(bytes, pos, ByteClass::Digit)
    }
}

/// Matches a structural symbol at `pos`.
pub fn match_symbol(bytes: &[u8], pos: usize) -> (n: usize)
    ensures
        n == symbol_len(bytes@, pos as int),
{
    if pos < bytes.len() && symbol_kind(bytes[pos]).is_some() {
        1
    } else {
        0
    }
}

/// Matches a comment at `pos`.
pub fn match_comment(bytes: &[u8], pos: usize) -> (n: usize)
    ensures
        n == comment_len(bytes@, pos as int),
{
    if pos < bytes.len() && bytes.len() - pos >= 2 && bytes[pos] == '/' as u8 && bytes[pos + 1]
        == '/' as u8 {
        2 + scan_run(bytes, pos + 2, ByteClass::NotLineBreak)
    } else {
        0
    }
}

/// The width of the error token at `pos`.
pub fn error_width(bytes: &[u8], pos: usize) -> (n: usize)
    ensures
        n == error_len(bytes@, pos as int),
{
    if pos < bytes.len() && !is_ascii_byte(bytes[pos]) {
        1 + scan_run(bytes, pos + 1, ByteClass::Continuation)
    } else {
        1
    }
}

/// Every token is at least one byte long and ends inside the buffer.
pub proof fn lemma_next_token_len(bytes: Seq<u8>, pos: int)
    requires
        0 <= pos < bytes.len(),
    ensures
        1 <= next_token(bytes, pos).1,
        pos + next_token(bytes, pos).1 <= bytes.len(),
{
    lemma_run_len(bytes, pos, ByteClass::Blank);
    lemma_run_len(bytes, pos, ByteClass::Word);
    lemma_run_len(bytes, pos, ByteClass::Digit);
    lemma_run_len(bytes, pos + 1, ByteClass::Digit);
    lemma_run_len(bytes, pos + 1, ByteClass::Continuation);
    if pos + 2 <= bytes.len() {
        lemma_run_len(bytes, pos + 2, ByteClass::NotLineBreak);
    }
}

/// Classifies the token that starts at `pos` and measures it.
pub fn scan_token(bytes: &[u8], pos: usize) -> (token: (TokenType, usize))
    requires
        pos < bytes@.len(),
    ensures
        token.0 == next_token(bytes@, pos as int).0,
        token.1 == next_token(bytes@, pos as int).1,
        1 <= token.1,
        pos + token.1 <= bytes@.len(),
{
    proof {
        lemma_next_token_len(bytes@, pos as int);
    }
    let n: usize = match_line_break(bytes, pos);
    if n > 0 {
        return (TokenType::LineBreak, n);
    }
    let n: usize = match_whitespace(bytes, pos);
    if n > 0 {
        return (TokenType::Whitespace, n);
    }
    let n: usize = match_string_literal(bytes, pos);
    if n > 0 {
        return (TokenType::StringLiteral, n);
    }
    if let Some(kind) = match_keyword(bytes, pos) {
        let n: usize = match_identifier(bytes, pos);
        proof {
            lemma_keyword_is_word(bytes@, pos as int);
        }
        return (kind, n);
    }
    let n: usize = match_identifier(bytes, pos);
    if n > 0 {
        return (TokenType::Identifier, n);
    }
    let n: usize = match_number(bytes, pos);
    if n > 0 {
        return (TokenType::NumberLiteral, n);
    }
    if let Some(kind) = symbol_kind(bytes[pos]) {
        return (kind, 1);
    }
    let n: usize = match_comment(bytes, pos);
    if n > 0 {
        return (TokenType::Comment, n);
    }
    (TokenType::Error, error_width(bytes, pos))
}

/// A reserved word that stands at `pos` as a whole word is the run of word
/// bytes that starts there, and opens with a letter.
pub proof fn lemma_keyword_is_word(bytes: Seq<u8>, pos: int)
    requires
        keyword_kind(bytes, pos) is Some,
    ensures
        keyword_len(bytes, pos) == identifier_len(bytes, pos),
        keyword_len(bytes, pos) > 0,
        keyword_text(keyword_kind(bytes, pos)->0) == bytes.subrange(
            pos,
            pos + keyword_len(bytes, pos),
        ),
{
    let kind = keyword_kind(bytes, pos)->0;
    let word = keyword_text(kind);
    assert(has_keyword(bytes, pos, kind));
    lemma_keyword_text_is_word(kind);
    assert forall|i: int| pos <= i < pos + word.len() implies ByteClass::Word.contains(
        #[trigger] bytes[i],
    ) by {
        assert(bytes[i] == bytes.subrange(pos, pos + word.len())[i - pos]);
    }
    lemma_run_len_unique(bytes, pos, ByteClass::Word, word.len());
    assert(bytes[pos] == bytes.subrange(pos, pos + word.len())[0]);
}

/// The spelling of a reserved word is made of word bytes and opens with a
/// letter.
pub proof fn lemma_keyword_text_is_word(kind: TokenType)
    ensures
        forall|i: int|
            0 <= i < keyword_text(kind).len() ==> is_word(#[trigger] keyword_text(kind)[i]),
        keyword_text(kind).len() > 0 ==> is_word_start(keyword_text(kind)[0]),
{
}

} // verus!
