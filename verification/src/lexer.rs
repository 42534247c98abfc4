//! Tokens and the scanner that produces them.

use vstd::prelude::*;
use vstd::std_specs::cmp::PartialEqSpecImpl;
use vstd::string::StringSliceAdditionalSpecFns;
use vstd::utf8::{decode_utf8, encode_utf8, encode_utf8_valid_utf8, valid_utf8};
use crate::classes::{is_ascii_byte, lemma_run_len, ByteClass};
use crate::laws::{law_stream_is_cover, law_stream_spells_source};
use crate::rules::{
    keyword_kind, lemma_keyword_is_word, lemma_next_token_len, next_token, scan_token,
};
use crate::text::{lemma_starts_char_after_ascii, slice_text, starts_char};

verus! {

/// The kinds of token.
#[derive(Debug, Clone, Copy, PartialEq, Eq, Structural)]
pub enum TokenType {
    /// The reserved word `plugin`.
    PluginKeyword,
    /// The reserved word `use`.
    UseKeyword,
    /// The reserved word `prop`.
    PropKeyword,
    /// The reserved word `enum`.
    EnumKeyword,
    /// The reserved word `type`.
    TypeKeyword,
    /// The reserved word `model`.
    ModelKeyword,
    /// The primitive type name `String`.
    StringType,
    /// The primitive type name `Number`.
    NumberType,
    /// The primitive type name `Boolean`.
    BooleanType,
    /// The primitive type name `Text`.
    TextType,
    /// The primitive type name `Date`.
    DateType,
    /// A double-quoted run of one or more characters.
    StringLiteral,
    /// Decimal digits, with an optional leading minus sign.
    NumberLiteral,
    /// Reserved for the parser; the scanner never produces it.
    BooleanLiteral,
    /// `{`
    OpenBrace,
    /// `}`
    CloseBrace,
    /// `(`
    OpenParen,
    /// `)`
    CloseParen,
    /// `[`
    OpenSquare,
    /// `]`
    CloseSquare,
    /// `@`
    AtSymbol,
    /// The `?` marker.
    Optional,
    /// A name that is not a reserved word.
    Identifier,
    /// A run of spaces and tabs.
    Whitespace,
    /// A single line feed or carriage return.
    LineBreak,
    /// Two slashes and the rest of the line.
    Comment,
    /// A byte that no rule accepts; a whole character where the byte is not
    /// ASCII.
    Error,
    /// The zero-width token that ends every stream.
    EOF,
}

/// A classified slice of the source text. `start` and `end` are byte offsets
/// into the source, and `value` is the text between them.
#[derive(Debug, Clone)]
pub struct Token {
    pub token_type: TokenType,
    pub value: String,
    pub start: usize,
    pub end: usize,
}

/// What a token is in contracts: its kind, its text as characters, and its
/// span.
pub struct TokenView {
    pub token_type: TokenType,
    pub value: Seq<char>,
    pub start: int,
    pub end: int,
}

impl View for Token {
    type V = TokenView;

    open spec fn view(&self) -> TokenView {
        TokenView {
            token_type: self.token_type,
            value: self.value@,
            start: self.start as int,
            end: self.end as int,
        }
    }
}

impl PartialEq for Token {
    fn eq(&self, other: &Token) -> (r: bool) {
        self.token_type == other.token_type && self.value == other.value && self.start
            == other.start && self.end == other.end
    }
}

impl PartialEqSpecImpl for Token {
    open spec fn obeys_eq_spec() -> bool {
        true
    }

    open spec fn eq_spec(&self, other: &Token) -> bool {
        self@ == other@
    }
}

/// Builds a token of the given kind, text and span.
pub fn create_token(token_type: TokenType, value: &str, start: usize, end: usize) -> (token: Token)
    ensures
        token@ == (TokenView {
            token_type,
            value: value@,
            start: start as int,
            end: end as int,
        }),
{
    Token { token_type, value: value.to_owned(), start, end }
}

/// The kind and span of a token, without its text.
pub struct Span {
    pub kind: TokenType,
    pub start: int,
    pub end: int,
}

/// The spans of the tokens from `pos` to the end of `bytes`: the token that
/// starts at `pos`, then those that start where it ends, and last the
/// zero-width `EOF` at the end of the buffer.
pub open spec fn scan_from(bytes: Seq<u8>, pos: int) -> Seq<Span>
    decreases bytes.len() - pos,
{
    if 0 <= pos < bytes.len() {
        proof {
            lemma_next_token_len(bytes, pos);
        }
        seq![
            Span {
                kind: next_token(bytes, pos).0,
                start: pos,
                end: pos + next_token(bytes, pos).1,
            },
        ] + scan_from(bytes, pos + next_token(bytes, pos).1)
    } else {
        seq![Span { kind: TokenType::EOF, start: bytes.len() as int, end: bytes.len() as int }]
    }
}

/// The token that `span` cuts out of `bytes`.
pub open spec fn token_at(bytes: Seq<u8>, span: Span) -> TokenView {
    TokenView {
        token_type: span.kind,
        value: decode_utf8(bytes.subrange(span.start, span.end)),
        start: span.start,
        end: span.end,
    }
}

/// The tokens that `spans` cut out of `bytes`.
pub open spec fn tokens_at(bytes: Seq<u8>, spans: Seq<Span>) -> Seq<TokenView> {
    spans.map_values(|span: Span| token_at(bytes, span))
}

/// The token stream of a source text: the tokens that the scan of its UTF-8
/// bytes, from offset 0, cuts out of it.
pub open spec fn token_stream(source: Seq<char>) -> Seq<TokenView> {
    tokens_at(encode_utf8(source), scan_from(encode_utf8(source), 0))
}

/// The views of a sequence of tokens.
pub open spec fn token_views(tokens: Seq<Token>) -> Seq<TokenView> {
    tokens.map_values(|token: Token| token@)
}

/// Whether `tokens` tile a buffer of `len` bytes: the first starts at 0,
/// each ends where the next starts, none but the last is empty or an `EOF`,
/// and the last is the `EOF` at `[len, len)`.
pub open spec fn is_cover(tokens: Seq<TokenView>, len: int) -> bool {
    &&& tokens.len() >= 1
    &&& tokens[0].start == 0
    &&& tokens.last().token_type == TokenType::EOF
    &&& tokens.last().start == len
    &&& tokens.last().end == len
    &&& forall|i: int|
        0 <= i < tokens.len() - 1 ==> (#[trigger] tokens[i]).token_type != TokenType::EOF
            && tokens[i].start < tokens[i].end
    &&& forall|i: int, j: int|
        0 <= i && j == i + 1 && j < tokens.len() ==> (#[trigger] tokens[i]).end
            == (#[trigger] tokens[j]).start
}

/// The texts of `tokens`, joined in order.
pub open spec fn joined_text(tokens: Seq<TokenView>) -> Seq<char>
    decreases tokens.len(),
{
    if tokens.len() == 0 {
        seq![]
    } else {
        tokens[0].value + joined_text(tokens.drop_first())
    }
}

/// In well-formed text a token that starts at a character boundary ends at
/// one.
pub proof fn lemma_token_ends_at_boundary(bytes: Seq<u8>, pos: int)
    requires
        valid_utf8(bytes),
        0 <= pos < bytes.len(),
    ensures
        starts_char(bytes, pos + next_token(bytes, pos).1),
{
    let (kind, len) = next_token(bytes, pos);
    let end = pos + len;
    lemma_next_token_len(bytes, pos);
    lemma_run_len(bytes, pos, ByteClass::Blank);
    lemma_run_len(bytes, pos, ByteClass::Word);
    lemma_run_len(bytes, pos, ByteClass::Digit);
    lemma_run_len(bytes, pos + 1, ByteClass::Digit);
    lemma_run_len(bytes, pos + 1, ByteClass::NotQuote);
    lemma_run_len(bytes, pos + 1, ByteClass::Continuation);
    if pos + 2 <= bytes.len() {
        lemma_run_len(bytes, pos + 2, ByteClass::NotLineBreak);
    }
    if keyword_kind(bytes, pos) is Some {
        lemma_keyword_is_word(bytes, pos);
    }
    // A comment stops at a line break or at the end, an error at a byte that
    // starts a character; every other token ends with an ASCII byte.
    if kind != TokenType::Comment && !(kind == TokenType::Error && !is_ascii_byte(bytes[pos])) {
        assert(is_ascii_byte(bytes[end - 1]));
        lemma_starts_char_after_ascii(bytes, end - 1);
    }
}

/// Cuts `source_code` into tokens.
///
/// The scan never fails. At each position the first rule of the grammar
/// that matches decides the token; a position that no rule accepts becomes
/// an `Error` token of one byte, or of one whole character where the byte
/// there is not ASCII. The stream ends with its only `EOF` token, the
/// tokens tile the source, and their texts joined give the source back.
pub fn tokenize(source_code: &str) -> (tokens: Vec<Token>)
    ensures
        token_views(tokens@) == token_stream(source_code@),
        is_cover(token_views(tokens@), source_code.spec_bytes().len() as int),
        joined_text(token_views(tokens@)) == source_code@,
{
    proof {
        law_stream_is_cover(source_code@);
        law_stream_spells_source(source_code@);
    }
    let bytes = source_code.as_bytes();
    let n: usize = bytes.len();
    let mut tokens: Vec<Token> = Vec::new();
    let mut index: usize = 0;
    proof {
        encode_utf8_valid_utf8(source_code@);
        assert(token_views(tokens@) + tokens_at(bytes@, scan_from(bytes@, 0)) =~= token_stream(
            source_code@,
        ));
    }
    while index < n
        invariant
            index <= n,
            n == bytes@.len(),
            bytes@ == source_code.spec_bytes(),
            valid_utf8(bytes@),
            starts_char(bytes@, index as int),
            token_views(tokens@) + tokens_at(bytes@, scan_from(bytes@, index as int))
                == token_stream(source_code@),
        decreases n - index,
    {
        let (kind, len) = scan_token(bytes, index);
        let end: usize = index + len;
        proof {
            lemma_token_ends_at_boundary(bytes@, index as int);
        }
        let text = slice_text(source_code, index, end);
        let token = create_token(kind, text, index, end);
        proof {
            let span = Span { kind, start: index as int, end: end as int };
            assert(token@ == token_at(bytes@, span));
            assert(scan_from(bytes@, index as int) == seq![span] + scan_from(bytes@, end as int));
            assert(token_views(tokens@.push(token)) + tokens_at(
                bytes@,
                scan_from(bytes@, end as int),
            ) =~= token_views(tokens@) + tokens_at(bytes@, scan_from(bytes@, index as int)));
        }
        tokens.push(token);
        index = end;
    }
    let text = slice_text(source_code, n, n);
    let token = create_token(TokenType::EOF, text, n, n);
    proof {
        let span = Span { kind: TokenType::EOF, start: n as int, end: n as int };
        assert(token@ == token_at(bytes@, span));
        assert(scan_from(bytes@, n as int) == seq![span]);
        assert(token_views(tokens@.push(token)) =~= token_views(tokens@) + tokens_at(
            bytes@,
            scan_from(bytes@, n as int),
        ));
    }
    tokens.push(token);
    tokens
}

} // verus!
