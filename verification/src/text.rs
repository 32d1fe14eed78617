//! Decoding runs of input bytes as UTF-8 text.

use vstd::prelude::*;
use vstd::slice::slice_subrange;
use vstd::string::StringSliceAdditionalSpecFns;
use vstd::utf8::*;

verus! {

/// The text that the bytes of `s` from `from` up to `to` encode: the decoded
/// characters where the range lies within `s` and holds valid UTF-8, and
/// nothing otherwise.
pub open spec fn text_at(s: Seq<u8>, from: int, to: int) -> Option<Seq<char>> {
    if 0 <= from <= to <= s.len() && valid_utf8(s.subrange(from, to)) {
        Some(decode_utf8(s.subrange(from, to)))
    } else {
        None
    }
}

/// Calls `std::str::from_utf8`, which checks that a byte slice is valid UTF-8
/// and, if so, hands the same bytes back as a string slice. The contract
/// claims exactly that: a string comes back when and only when the bytes are
/// valid UTF-8, and its bytes are the given ones.
#[verifier::external_body]
fn str_from_utf8(bytes: &[u8]) -> (r: Option<&str>)
    ensures
        r is Some <==> valid_utf8(bytes@),
        r matches Some(text) ==> text.spec_bytes() == bytes@,
{
    match std::str::from_utf8(bytes) {
        Ok(text) => Some(text),
        Err(_) => None,
    }
}

/// Decodes the bytes of `input` from `from` up to `to` as UTF-8 text.
/// Returns `None` where the range does not lie within `input` or the bytes
/// are not valid UTF-8.
pub fn decode_text(input: &[u8], from: usize, to: usize) -> (r: Option<String>)
    ensures
        match r {
            Some(text) => text_at(input@, from as int, to as int) == Some(text@),
            None => text_at(input@, from as int, to as int) is None,
        },
{
    if from > to || to > input.len() {
        return None;
    }
    let run = slice_subrange(input, from, to);
    match str_from_utf8(run) {
        Some(text) => {
            proof {
                encode_utf8_decode_utf8(text@);
            }
            Some(text.to_owned())
        },
        None => None,
    }
}

/// Text decoded from valid UTF-8 encodes back to the bytes it came from.
pub proof fn lemma_text_at_bytes(s: Seq<u8>, from: int, to: int)
    requires
        text_at(s, from, to) is Some,
    ensures
        encode_utf8(text_at(s, from, to).unwrap()) == s.subrange(from, to),
{
    decode_utf8_encode_utf8(s.subrange(from, to));
}

/// The shape of one encoded character: an ASCII character is encoded as one
/// byte, its own code, and no byte in the encoding of any other character
/// is ASCII.
pub proof fn lemma_encoded_char(c: char)
    ensures
        c as u32 <= 0x7F ==> encode_scalar(c as u32) =~= seq![c as u8] && (c as u8) as char == c,
        c as u32 > 0x7F ==> encode_scalar(c as u32).len() >= 2 && forall|i: int|
            0 <= i < encode_scalar(c as u32).len() ==> #[trigger] encode_scalar(c as u32)[i]
                >= 0x80,
{
    let v = c as u32;
    if v <= 0x7F {
        assert((v & 0x7F) as u8 == v as u8) by (bit_vector)
            requires
                v <= 0x7F,
        ;
    }
    assert((0xC0u8 | ((v >> 6) & 0x1F) as u8) >= 0x80) by (bit_vector);
    assert((0xE0u8 | ((v >> 12) & 0x0F) as u8) >= 0x80) by (bit_vector);
    assert((0xF0u8 | ((v >> 18) & 0x7) as u8) >= 0x80) by (bit_vector);
    assert((0x80u8 | (v & 0x3F) as u8) >= 0x80) by (bit_vector);
    assert((0x80u8 | ((v >> 6) & 0x3F) as u8) >= 0x80) by (bit_vector);
    assert((0x80u8 | ((v >> 12) & 0x3F) as u8) >= 0x80) by (bit_vector);
}

/// ASCII bytes stand for themselves: an encoded text holds an ASCII byte
/// exactly where the text holds the character with that code.
pub proof fn lemma_ascii_in_encoding(text: Seq<char>, b: u8)
    requires
        b < 0x80,
    ensures
        encode_utf8(text).contains(b) <==> text.contains(b as char),
    decreases text.len(),
{
    if text.len() > 0 {
        let head = encode_scalar(text[0] as u32);
        let rest = text.drop_first();
        let tail = encode_utf8(rest);
        lemma_encoded_char(text[0]);
        lemma_ascii_in_encoding(rest, b);
        if encode_utf8(text).contains(b) {
            let j = choose|j: int| 0 <= j < encode_utf8(text).len() && encode_utf8(text)[j] == b;
            if j < head.len() {
                assert(head[j] == b);
                assert(text[0] == b as char);
            } else {
                assert(tail[j - head.len()] == b);
                let i = choose|i: int| 0 <= i < rest.len() && rest[i] == b as char;
                assert(text[i + 1] == b as char);
            }
        }
        if text.contains(b as char) {
            let i = choose|i: int| 0 <= i < text.len() && text[i] == b as char;
            if i == 0 {
                assert((head + tail)[0] == b);
            } else {
                assert(rest[i - 1] == b as char);
                let j = choose|j: int| 0 <= j < tail.len() && tail[j] == b;
                assert((head + tail)[head.len() + j] == b);
            }
        }
    }
}

/// Within valid UTF-8, a range that begins behind an ASCII byte, or at the
/// start, and ends in front of an ASCII byte, or at the end, is valid UTF-8
/// itself: ASCII bytes never stand inside the encoding of a character.
pub proof fn lemma_text_between_ascii(s: Seq<u8>, from: int, to: int)
    requires
        valid_utf8(s),
        0 <= from <= to <= s.len(),
        from == 0 || s[from - 1] < 0x80,
        to == s.len() || s[to] < 0x80,
    ensures
        text_at(s, from, to) is Some,
{
    let head = s.subrange(0, to);
    if to == s.len() {
        assert(head =~= s);
    } else {
        is_char_boundary_iff_not_is_continuation_byte(s, to);
        valid_utf8_split(s, to);
    }
    if from == 0 {
        assert(s.subrange(from, to) =~= head);
    } else {
        is_char_boundary_iff_not_is_continuation_byte(head, from - 1);
        valid_utf8_split(head, from - 1);
        let tail = head.subrange(from - 1, to);
        assert(tail[0] == s[from - 1]);
        assert(pop_first_scalar(tail) =~= s.subrange(from, to));
    }
}

} // verus!
