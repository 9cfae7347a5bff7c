//! Lower-case hexadecimal text for bytes, written and read by the `hex` crate.

use vstd::prelude::*;
use vstd::slice::slice_to_vec;
use vstd::string::*;
use crate::digits::ascii;

verus! {

/// `hex::FromHexError`, the error of the `hex` crate: it is carried through
/// and never looked into.
#[verifier::external_type_specification]
#[verifier::external_body]
pub struct ExFromHexError(hex::FromHexError);

/// The lower-case hexadecimal digit for `v`, which is below sixteen.
pub open spec fn hex_digit(v: int) -> u8 {
    if v < 10 {
        (48 + v) as u8
    } else {
        (87 + v) as u8
    }
}

/// The hexadecimal text of `data`, in ASCII: two lower-case digits for each
/// byte, the high half first.
pub open spec fn hex_encoding(data: Seq<u8>) -> Seq<u8> {
    Seq::new(
        2 * data.len(),
        |i: int|
            if i % 2 == 0 {
                hex_digit(data[i / 2] as int / 16)
            } else {
                hex_digit(data[i / 2] as int % 16)
            },
    )
}

/// Whether `b` is the ASCII code of a lower-case hexadecimal digit.
pub open spec fn is_lower_hex(b: u8) -> bool {
    48 <= b <= 57 || 97 <= b <= 102
}

/// Whether `b` is the ASCII code of a hexadecimal digit, in either case.
pub open spec fn is_hex(b: u8) -> bool {
    is_lower_hex(b) || 65 <= b <= 70
}

/// The value of the hexadecimal digit `b`.
pub open spec fn hex_value(b: u8) -> int {
    if 48 <= b <= 57 {
        b - 48
    } else if 97 <= b <= 102 {
        b - 87
    } else {
        b - 55
    }
}

/// The bytes that the hexadecimal text `text` stands for: one for each pair
/// of digits.
pub open spec fn hex_decoding(text: Seq<u8>) -> Seq<u8> {
    Seq::new(
        text.len() / 2,
        |i: int| (16 * hex_value(text[2 * i]) + hex_value(text[2 * i + 1])) as u8,
    )
}

pub open spec fn all_lower_hex(text: Seq<u8>) -> bool {
    forall|i: int| 0 <= i < text.len() ==> is_lower_hex(#[trigger] text[i])
}

pub open spec fn all_hex(text: Seq<u8>) -> bool {
    forall|i: int| 0 <= i < text.len() ==> is_hex(#[trigger] text[i])
}

/// Hexadecimal text is made of lower-case digits, and reads back as the
/// bytes it was written for.
pub proof fn lemma_hex_roundtrip(data: Seq<u8>)
    ensures
        hex_encoding(data).len() == 2 * data.len(),
        all_lower_hex(hex_encoding(data)),
        hex_decoding(hex_encoding(data)) == data,
{
    let t = hex_encoding(data);
    assert forall|i: int| 0 <= i < t.len() implies is_lower_hex(#[trigger] t[i]) by {
        let b = data[i / 2];
        assert(0 <= b as int / 16 < 16 && 0 <= b as int % 16 < 16);
    }
    assert forall|i: int| 0 <= i < data.len() implies hex_decoding(t)[i] == data[i] by {
        let b = data[i];
        assert((2 * i) % 2 == 0 && (2 * i) / 2 == i);
        assert((2 * i + 1) % 2 == 1 && (2 * i + 1) / 2 == i);
        assert(t[2 * i] == hex_digit(b as int / 16));
        assert(t[2 * i + 1] == hex_digit(b as int % 16));
    }
    assert(hex_decoding(t) =~= data);
}

/// Lower-case hexadecimal text of even length is the text of the bytes it
/// stands for.
pub proof fn lemma_hex_canonical(text: Seq<u8>)
    requires
        text.len() % 2 == 0,
        all_lower_hex(text),
    ensures
        hex_encoding(hex_decoding(text)) == text,
{
    let d = hex_decoding(text);
    let t = hex_encoding(d);
    assert forall|i: int| 0 <= i < text.len() implies t[i] == text[i] by {
        let k = i / 2;
        let hi = text[2 * k];
        let lo = text[2 * k + 1];
        assert(is_lower_hex(hi) && is_lower_hex(lo));
        assert(d[k] == 16 * hex_value(hi) + hex_value(lo));
        if i % 2 == 0 {
            assert(i == 2 * k);
        } else {
            assert(i == 2 * k + 1);
        }
    }
    assert(t =~= text);
}

/// `hex::encode`: the lower-case hexadecimal text of `data`, two digits for
/// each byte.
#[verifier::external_body]
pub(crate) fn hex_encode(data: &[u8]) -> (s: String)
    ensures
        s@ == ascii(hex_encoding(data@)),
{
    hex::encode(data)
}

/// `hex::decode_to_slice` into twenty bytes: it succeeds exactly on forty
/// hexadecimal digits, of either case, and then gives the byte of each pair.
#[verifier::external_body]
pub(crate) fn hex_decode_digest(text: &[u8]) -> (r: Result<[u8; 20], hex::FromHexError>)
    ensures
        match r {
            Ok(d) => text@.len() == 40 && all_hex(text@) && d@ == hex_decoding(text@),
            Err(_) => !(text@.len() == 40 && all_hex(text@)),
        },
{
    let mut out = [0u8; 20];
    hex::decode_to_slice(text, &mut out).map(|_| out)
}

/// The hexadecimal text of `data`, in ASCII.
pub fn hex_bytes(data: &[u8]) -> (r: Vec<u8>)
    ensures
        r@ == hex_encoding(data@),
{
    let text = hex_encode(data);
    let bytes = text.as_str().as_bytes();
    proof {
        let h = hex_encoding(data@);
        lemma_hex_roundtrip(data@);
        assert forall|i: int| 0 <= i < text@.len() implies '\0' <= #[trigger] text@[i] <= '\x7f' by {
            assert(is_lower_hex(h[i]));
        }
        vstd::utf8::is_ascii_chars_encode_utf8(text@);
        assert forall|i: int| 0 <= i < h.len() implies bytes@[i] == h[i] by {
            assert(is_lower_hex(h[i]));
            assert(text@[i] as u8 == bytes@[i]);
        }
        assert(bytes@ =~= h);
    }
    slice_to_vec(bytes)
}

} // verus!
