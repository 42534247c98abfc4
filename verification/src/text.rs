//! Character boundaries in UTF-8 text, and cutting text at them.

use vstd::prelude::*;
use vstd::string::StringSliceAdditionalSpecFns;
use vstd::utf8::{
    decode_utf8, encode_utf8_decode_utf8, encode_utf8_valid_utf8, is_char_boundary,
    is_char_boundary_iff_not_is_continuation_byte, is_char_boundary_start_end_of_seq,
    pop_first_scalar, valid_first_scalar, valid_utf8, valid_utf8_split,
};
use crate::classes::{is_ascii_byte, ByteClass};

verus! {

/// Whether a character starts at `pos` or the buffer ends there: the byte
/// at `pos`, if there is one, is not a continuation byte.
pub open spec fn starts_char(bytes: Seq<u8>, pos: int) -> bool {
    &&& 0 <= pos <= bytes.len()
    &&& pos < bytes.len() ==> !ByteClass::Continuation.contains(bytes[pos])
}

/// In well-formed text the character boundaries are the positions where a
/// character starts, and the end.
pub proof fn lemma_boundary_iff_starts_char(bytes: Seq<u8>, pos: int)
    requires
        valid_utf8(bytes),
    ensures
        is_char_boundary(bytes, pos) <==> starts_char(bytes, pos),
{
    if 0 <= pos < bytes.len() {
        is_char_boundary_iff_not_is_continuation_byte(bytes, pos);
    } else if pos == bytes.len() {
        is_char_boundary_start_end_of_seq(bytes);
    } else {
        reveal_with_fuel(is_char_boundary, 2);
    }
}

/// In well-formed text a character starts behind every ASCII byte.
pub proof fn lemma_starts_char_after_ascii(bytes: Seq<u8>, pos: int)
    requires
        valid_utf8(bytes),
        0 <= pos < bytes.len(),
        is_ascii_byte(bytes[pos]),
    ensures
        starts_char(bytes, pos + 1),
{
    lemma_boundary_iff_starts_char(bytes, pos);
    valid_utf8_split(bytes, pos);
    let suffix = bytes.subrange(pos, bytes.len() as int);
    assert(suffix[0] == bytes[pos]);
    assert(valid_first_scalar(suffix));
    let rest = pop_first_scalar(suffix);
    assert(valid_utf8(rest));
    if pos + 1 < bytes.len() {
        assert(rest[0] == bytes[pos + 1]);
        assert(valid_first_scalar(rest));
    }
}

/// The text between two character boundaries of `source`.
pub fn slice_text(source: &str, start: usize, end: usize) -> (piece: &str)
    requires
        start <= end,
        starts_char(source.spec_bytes(), start as int),
        starts_char(source.spec_bytes(), end as int),
    ensures
        piece.spec_bytes() == source.spec_bytes().subrange(start as int, end as int),
        piece@ == decode_utf8(source.spec_bytes().subrange(start as int, end as int)),
{
    let ghost bytes = source.spec_bytes();
    proof {
        encode_utf8_valid_utf8(source@);
        lemma_boundary_iff_starts_char(bytes, end as int);
    }
    let (head, _) = source.split_at(end);
    proof {
        encode_utf8_valid_utf8(head@);
        lemma_boundary_iff_starts_char(head.spec_bytes(), start as int);
    }
    let (_, piece) = head.split_at(start);
    proof {
        assert(piece.spec_bytes() =~= bytes.subrange(start as int, end as int));
        encode_utf8_decode_utf8(piece@);
    }
    piece
}

} // verus!
