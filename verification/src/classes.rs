//! Byte classes and maximal runs of bytes of one class.

use vstd::prelude::*;

verus! {

/// The sets of bytes that the grammar's greedy rules repeat over.
#[derive(Debug, Clone, Copy, PartialEq, Eq, Structural)]
pub enum ByteClass {
    /// Space or horizontal tab.
    Blank,
    /// ASCII letter, digit or underscore.
    Word,
    /// ASCII decimal digit.
    Digit,
    /// Any byte but the double quote.
    NotQuote,
    /// Any byte but line feed and carriage return.
    NotLineBreak,
    /// A byte of the form `10xxxxxx`, which continues a multi-byte character.
    Continuation,
}

pub open spec fn spec_is_line_break(b: u8) -> bool {
    b == '\n' as u8 || b == '\r' as u8
}

/// Line feed or carriage return.
#[verifier::when_used_as_spec(spec_is_line_break)]
pub fn is_line_break(b: u8) -> (r: bool)
    ensures
        r == spec_is_line_break(b),
{
    b == '\n' as u8 || b == '\r' as u8
}

pub open spec fn spec_is_blank(b: u8) -> bool {
    b == ' ' as u8 || b == '\t' as u8
}

/// Space or horizontal tab.
#[verifier::when_used_as_spec(spec_is_blank)]
pub fn is_blank(b: u8) -> (r: bool)
    ensures
        r == spec_is_blank(b),
{
    b == ' ' as u8 || b == '\t' as u8
}

pub open spec fn spec_is_digit(b: u8) -> bool {
    '0' as u8 <= b <= '9' as u8
}

/// ASCII decimal digit.
#[verifier::when_used_as_spec(spec_is_digit)]
pub fn is_digit(b: u8) -> (r: bool)
    ensures
        r == spec_is_digit(b),
{
    '0' as u8 <= b && b <= '9' as u8
}

pub open spec fn spec_is_word_start(b: u8) -> bool {
    ||| 'a' as u8 <= b <= 'z' as u8
    ||| 'A' as u8 <= b <= 'Z' as u8
    ||| b == '_' as u8
}

/// A byte that may open an identifier: ASCII letter or underscore.
#[verifier::when_used_as_spec(spec_is_word_start)]
pub fn is_word_start(b: u8) -> (r: bool)
    ensures
        r == spec_is_word_start(b),
{
    ('a' as u8 <= b && b <= 'z' as u8) || ('A' as u8 <= b && b <= 'Z' as u8) || b == '_' as u8
}

pub open spec fn spec_is_word(b: u8) -> bool {
    is_word_start(b) || is_digit(b)
}

/// A byte that may continue an identifier: ASCII letter, digit or underscore.
#[verifier::when_used_as_spec(spec_is_word)]
pub fn is_word(b: u8) -> (r: bool)
    ensures
        r == spec_is_word(b),
{
    is_word_start(b) || is_digit(b)
}

pub open spec fn spec_is_ascii_byte(b: u8) -> bool {
    b < 0x80
}

/// A byte that is a whole character by itself.
#[verifier::when_used_as_spec(spec_is_ascii_byte)]
pub fn is_ascii_byte(b: u8) -> (r: bool)
    ensures
        r == spec_is_ascii_byte(b),
{
    b < 0x80
}

impl ByteClass {
    pub open spec fn spec_contains(self, b: u8) -> bool {
        match self {
            ByteClass::Blank => is_blank(b),
            ByteClass::Word => is_word(b),
            ByteClass::Digit => is_digit(b),
            ByteClass::NotQuote => b != '"' as u8,
            ByteClass::NotLineBreak => !is_line_break(b),
            ByteClass::Continuation => 0x80 <= b <= 0xbf,
        }
    }

    /// Whether `b` belongs to the class.
    #[verifier::when_used_as_spec(spec_contains)]
    pub fn contains(self, b: u8) -> (r: bool)
        ensures
            r == self.spec_contains(b),
    {
        match self {
            ByteClass::Blank => is_blank(b),
            ByteClass::Word => is_word(b),
            ByteClass::Digit => is_digit(b),
            ByteClass::NotQuote => b != '"' as u8,
            ByteClass::NotLineBreak => !is_line_break(b),
            ByteClass::Continuation => 0x80 <= b && b <= 0xbf,
        }
    }
}

/// The length of the longest run of bytes of `class` that starts at `pos`.
/// It is 0 where `pos` is outside the buffer or the byte there is not in the
/// class.
pub open spec fn run_len(bytes: Seq<u8>, pos: int, class: ByteClass) -> nat
    decreases bytes.len() - pos,
{
    if 0 <= pos < bytes.len() && class.contains(bytes[pos]) {
        1 + run_len(bytes, pos + 1, class)
    } else {
        0
    }
}

/// A run stays inside the buffer, holds only bytes of its class, and stops
/// at the end of the buffer or in front of a byte outside the class.
pub proof fn lemma_run_len(bytes: Seq<u8>, pos: int, class: ByteClass)
    requires
        0 <= pos <= bytes.len(),
    ensures
        pos + run_len(bytes, pos, class) <= bytes.len(),
        forall|i: int|
            pos <= i < pos + run_len(bytes, pos, class) ==> class.contains(#[trigger] bytes[i]),
        pos + run_len(bytes, pos, class) < bytes.len() ==> !class.contains(
            bytes[pos + run_len(bytes, pos, class)],
        ),
    decreases bytes.len() - pos,
{
    if pos < bytes.len() && class.contains(bytes[pos]) {
        lemma_run_len(bytes, pos + 1, class);
    }
}

/// A stretch of bytes of one class that ends at the end of the buffer or in
/// front of a byte outside the class is the run that starts there.
pub proof fn lemma_run_len_unique(bytes: Seq<u8>, pos: int, class: ByteClass, n: nat)
    requires
        0 <= pos,
        pos + n <= bytes.len(),
        forall|i: int| pos <= i < pos + n ==> class.contains(#[trigger] bytes[i]),
        pos + n < bytes.len() ==> !class.contains(bytes[pos + n]),
    ensures
        run_len(bytes, pos, class) == n,
    decreases n,
{
    if n > 0 {
        lemma_run_len_unique(bytes, pos + 1, class, (n - 1) as nat);
    }
}

/// Measures the run of bytes of `class` that starts at `pos`.
pub fn scan_run(bytes: &[u8], pos: usize, class: ByteClass) -> (n: usize)
    ensures
        n == run_len(bytes@, pos as int, class),
        pos <= bytes@.len() ==> pos + n <= bytes@.len(),
{
    if pos >= bytes.len() {
        return 0;
    }
    let mut end: usize = pos;
    while end < bytes.len() && class.contains(bytes[end])
        invariant
            pos <= end <= bytes@.len(),
            run_len(bytes@, pos as int, class) == (end - pos) + run_len(bytes@, end as int, class),
        decreases bytes@.len() - end,
    {
        end = end + 1;
    }
    end - pos
}

} // verus!
