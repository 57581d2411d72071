//! Percent-encoding of request paths, on the UTF-8 bytes of a string.

use vstd::prelude::*;
use vstd::utf8::*;
use vstd::string::*;
use crate::text::string_of;

verus! {

/// The value of an ASCII hexadecimal digit, in either case.
pub open spec fn hex_value(b: u8) -> Option<int> {
    if 48 <= b <= 57 {
        Some(b - 48)
    } else if 65 <= b <= 70 {
        Some(b - 55)
    } else if 97 <= b <= 102 {
        Some(b - 87)
    } else {
        None
    }
}

/// The bytes that a percent-encoded byte string stands for. A `%` stands,
/// with the two hexadecimal digits after it, for one byte; every other byte
/// stands for itself. There is no result when a `%` is not followed by two
/// hexadecimal digits.
pub open spec fn percent_decoded(b: Seq<u8>) -> Option<Seq<u8>>
    decreases b.len(),
{
    if b.len() == 0 {
        Some(Seq::<u8>::empty())
    } else if b[0] == 37 {
        if b.len() >= 3 && hex_value(b[1]) is Some && hex_value(b[2]) is Some {
            match percent_decoded(b.skip(3)) {
                Some(rest) => Some(
                    seq![(hex_value(b[1])->0 * 16 + hex_value(b[2])->0) as u8] + rest,
                ),
                None => None,
            }
        } else {
            None
        }
    } else {
        match percent_decoded(b.skip(1)) {
            Some(rest) => Some(seq![b[0]] + rest),
            None => None,
        }
    }
}

/// The text that a percent-encoded string stands for: its bytes are decoded
/// and then read as UTF-8. There is no result when an escape is malformed or
/// when the decoded bytes are not UTF-8.
pub open spec fn uri_decoded(s: Seq<char>) -> Option<Seq<char>> {
    match percent_decoded(encode_utf8(s)) {
        Some(bytes) => if valid_utf8(bytes) {
            Some(decode_utf8(bytes))
        } else {
            None
        },
        None => None,
    }
}

/// Whether a byte is written as it is in an encoded path: the unreserved
/// characters (letters, digits, `-`, `_`, `.`, `~`) and the separator `/`.
pub open spec fn is_path_safe(b: u8) -> bool {
    ||| 48 <= b <= 57
    ||| 65 <= b <= 90
    ||| 97 <= b <= 122
    ||| b == 45
    ||| b == 95
    ||| b == 46
    ||| b == 126
    ||| b == 47
}

/// The upper-case hexadecimal digit for a value below 16.
pub open spec fn hex_digit(v: int) -> char {
    if v == 0 {
        '0'
    } else if v == 1 {
        '1'
    } else if v == 2 {
        '2'
    } else if v == 3 {
        '3'
    } else if v == 4 {
        '4'
    } else if v == 5 {
        '5'
    } else if v == 6 {
        '6'
    } else if v == 7 {
        '7'
    } else if v == 8 {
        '8'
    } else if v == 9 {
        '9'
    } else if v == 10 {
        'A'
    } else if v == 11 {
        'B'
    } else if v == 12 {
        'C'
    } else if v == 13 {
        'D'
    } else if v == 14 {
        'E'
    } else {
        'F'
    }
}

/// One byte in encoded form: itself when it is path-safe, else `%` and its
/// two hexadecimal digits.
pub open spec fn encoded_byte(b: u8) -> Seq<char> {
    if is_path_safe(b) {
        seq![b as char]
    } else {
        seq!['%', hex_digit(b as int / 16), hex_digit(b as int % 16)]
    }
}

/// A byte string in encoded form, byte by byte.
pub open spec fn percent_encoded(b: Seq<u8>) -> Seq<char>
    decreases b.len(),
{
    if b.len() == 0 {
        Seq::<char>::empty()
    } else {
        percent_encoded(b.drop_last()) + encoded_byte(b.last())
    }
}

/// A string in encoded form: the encoding of its UTF-8 bytes.
pub open spec fn uri_encoded(s: Seq<char>) -> Seq<char> {
    percent_encoded(encode_utf8(s))
}

/// `String::from_utf8`: the bytes as a string when they are valid UTF-8,
/// nothing otherwise.
#[verifier::external_body]
pub(crate) fn string_from_utf8(bytes: Vec<u8>) -> (r: Option<String>)
    ensures
        r is Some <==> valid_utf8(bytes@),
        r matches Some(s) ==> s@ == decode_utf8(bytes@),
{
    String::from_utf8(bytes).ok()
}

fn hex_of(b: u8) -> (r: Option<u8>)
    ensures
        r is Some <==> hex_value(b) is Some,
        r matches Some(v) ==> v == hex_value(b)->0 && v < 16,
{
    if 48 <= b && b <= 57 {
        Some(b - 48)
    } else if 65 <= b && b <= 70 {
        Some(b - 55)
    } else if 97 <= b && b <= 102 {
        Some(b - 87)
    } else {
        None
    }
}

/// Decodes percent escapes in a byte string.
pub fn percent_decode(b: &[u8]) -> (r: Option<Vec<u8>>)
    ensures
        r is Some <==> percent_decoded(b@) is Some,
        r matches Some(v) ==> v@ == percent_decoded(b@)->0,
{
    let mut out: Vec<u8> = Vec::new();
    let mut i: usize = 0;
    assert(b@.skip(0) =~= b@);
    while i < b.len()
        invariant
            i <= b.len(),
            percent_decoded(b@) == (match percent_decoded(b@.skip(i as int)) {
                Some(rest) => Some(out@ + rest),
                None => None,
            }),
        decreases b.len() - i,
    {
        let ghost tail = b@.skip(i as int);
        assert(tail[0] == b@[i as int]);
        if b[i] == 37 {
            if b.len() - i < 3 {
                return None;
            }
            assert(tail[1] == b@[i + 1] && tail[2] == b@[i + 2]);
            let hi = hex_of(b[i + 1]);
            let lo = hex_of(b[i + 2]);
            match (hi, lo) {
                (Some(h), Some(l)) => {
                    let byte: u8 = h * 16 + l;
                    out.push(byte);
                    proof {
                        assert(tail.skip(3) =~= b@.skip(i + 3));
                        match percent_decoded(b@.skip(i + 3)) {
                            Some(rest) => {
                                assert(out@ + rest =~= out@.drop_last() + (seq![byte] + rest));
                            },
                            None => {},
                        }
                    }
                    i += 3;
                },
                _ => {
                    return None;
                },
            }
        } else {
            let byte = b[i];
            out.push(byte);
            proof {
                assert(tail.skip(1) =~= b@.skip(i + 1));
                match percent_decoded(b@.skip(i + 1)) {
                    Some(rest) => {
                        assert(out@ + rest =~= out@.drop_last() + (seq![byte] + rest));
                    },
                    None => {},
                }
            }
            i += 1;
        }
    }
    assert(out@ + Seq::<u8>::empty() =~= out@);
    Some(out)
}

/// Decodes a percent-encoded string.
pub fn decode_uri(s: &str) -> (r: Option<String>)
    ensures
        r is Some <==> uri_decoded(s@) is Some,
        r matches Some(d) ==> d@ == uri_decoded(s@)->0,
{
    match percent_decode(s.as_bytes()) {
        Some(bytes) => string_from_utf8(bytes),
        None => None,
    }
}

fn hex_digit_of(v: u8) -> (r: char)
    requires
        v < 16,
    ensures
        r == hex_digit(v as int),
{
    if v == 0 {
        '0'
    } else if v == 1 {
        '1'
    } else if v == 2 {
        '2'
    } else if v == 3 {
        '3'
    } else if v == 4 {
        '4'
    } else if v == 5 {
        '5'
    } else if v == 6 {
        '6'
    } else if v == 7 {
        '7'
    } else if v == 8 {
        '8'
    } else if v == 9 {
        '9'
    } else if v == 10 {
        'A'
    } else if v == 11 {
        'B'
    } else if v == 12 {
        'C'
    } else if v == 13 {
        'D'
    } else if v == 14 {
        'E'
    } else {
        'F'
    }
}

fn is_path_safe_byte(b: u8) -> (r: bool)
    ensures
        r == is_path_safe(b),
{
    (48 <= b && b <= 57) || (65 <= b && b <= 90) || (97 <= b && b <= 122) || b == 45 || b == 95
        || b == 46 || b == 126 || b == 47
}

/// Encodes a string for use as a path in a URI: `/` and the unreserved
/// characters stay, every other byte of the UTF-8 form becomes an escape.
pub fn encode_uri(s: &str) -> (r: String)
    ensures
        r@ == uri_encoded(s@),
{
    let b = s.as_bytes();
    let mut out: Vec<char> = Vec::new();
    let mut i: usize = 0;
    while i < b.len()
        invariant
            i <= b.len(),
            out@ == percent_encoded(b@.take(i as int)),
        decreases b.len() - i,
    {
        let byte = b[i];
        proof {
            let t = b@.take(i + 1);
            assert(t.drop_last() =~= b@.take(i as int));
            assert(t.last() == byte);
        }
        if is_path_safe_byte(byte) {
            out.push(byte as char);
            assert(out@ =~= percent_encoded(b@.take(i as int)) + seq![byte as char]);
        } else {
            out.push('%');
            out.push(hex_digit_of(byte / 16));
            out.push(hex_digit_of(byte % 16));
            assert(out@ =~= percent_encoded(b@.take(i as int)) + seq![
                '%',
                hex_digit(byte as int / 16),
                hex_digit(byte as int % 16),
            ]);
        }
        i += 1;
    }
    assert(b@.take(b@.len() as int) =~= b@);
    string_of(out.as_slice())
}

/// The characters of an ASCII text as bytes.
pub open spec fn ascii_bytes(chars: Seq<char>) -> Seq<u8> {
    Seq::new(chars.len(), |i: int| chars[i] as u8)
}

/// The encoded form of a byte string begins with the encoded form of its
/// first byte.
pub proof fn lemma_percent_encoded_front(b: Seq<u8>)
    requires
        b.len() > 0,
    ensures
        percent_encoded(b) == encoded_byte(b[0]) + percent_encoded(b.drop_first()),
    decreases b.len(),
{
    if b.len() == 1 {
        assert(b.drop_last() =~= Seq::<u8>::empty());
        assert(b.drop_first() =~= Seq::<u8>::empty());
        assert(percent_encoded(b) =~= encoded_byte(b[0]) + percent_encoded(b.drop_first()));
    } else {
        let init = b.drop_last();
        let tail = b.drop_first();
        lemma_percent_encoded_front(init);
        assert(init.drop_first() =~= tail.drop_last());
        assert(init[0] == b[0]);
        assert(tail.last() == b.last());
        assert(percent_encoded(b) =~= encoded_byte(b[0]) + percent_encoded(tail));
    }
}

/// Every character of an encoded form is an ASCII character.
pub proof fn lemma_percent_encoded_is_ascii(b: Seq<u8>)
    ensures
        is_ascii_chars(percent_encoded(b)),
    decreases b.len(),
{
    if b.len() > 0 {
        lemma_percent_encoded_is_ascii(b.drop_last());
        let front = percent_encoded(b.drop_last());
        let last = encoded_byte(b.last());
        assert forall|i: int| 0 <= i < percent_encoded(b).len() implies '\0'
            <= #[trigger] percent_encoded(b)[i] <= '\u{7f}' by {
            if i < front.len() {
                assert(percent_encoded(b)[i] == front[i]);
            } else {
                assert(percent_encoded(b)[i] == last[i - front.len()]);
            }
        }
    }
}

/// The value of the hexadecimal digit that is written for a value below 16
/// is that value.
pub proof fn lemma_hex_digit_value(v: int)
    requires
        0 <= v < 16,
    ensures
        hex_value(hex_digit(v) as u8) == Some(v),
{
}

/// Decoding the encoded form of a byte, with more behind it, gives the byte
/// and what the rest decodes to.
pub proof fn lemma_decode_encoded_byte(byte: u8, rest: Seq<u8>)
    ensures
        percent_decoded(ascii_bytes(encoded_byte(byte)) + rest) == (match percent_decoded(rest) {
            Some(r) => Some(seq![byte] + r),
            None => None,
        }),
{
    let all = ascii_bytes(encoded_byte(byte)) + rest;
    if is_path_safe(byte) {
        assert(all[0] == byte);
        assert(all.skip(1) =~= rest);
    } else {
        let hi = byte as int / 16;
        let lo = byte as int % 16;
        lemma_hex_digit_value(hi);
        lemma_hex_digit_value(lo);
        assert(all[0] == 37);
        assert(all[1] == hex_digit(hi) as u8);
        assert(all[2] == hex_digit(lo) as u8);
        assert(all.skip(3) =~= rest);
        assert((hi * 16 + lo) as u8 == byte);
    }
}

/// Decoding the encoded form of a byte string gives the byte string back.
pub proof fn lemma_percent_round_trip(b: Seq<u8>)
    ensures
        percent_decoded(ascii_bytes(percent_encoded(b))) == Some(b),
    decreases b.len(),
{
    if b.len() == 0 {
        assert(ascii_bytes(percent_encoded(b)) =~= Seq::<u8>::empty());
    } else {
        let tail = b.drop_first();
        lemma_percent_encoded_front(b);
        lemma_percent_round_trip(tail);
        lemma_decode_encoded_byte(b[0], ascii_bytes(percent_encoded(tail)));
        assert(ascii_bytes(percent_encoded(b)) =~= ascii_bytes(encoded_byte(b[0])) + ascii_bytes(
            percent_encoded(tail),
        ));
        assert(seq![b[0]] + tail =~= b);
    }
}

/// Decoding the encoded form of a text gives the text back.
pub proof fn lemma_uri_round_trip(s: Seq<char>)
    ensures
        uri_decoded(uri_encoded(s)) == Some(s),
{
    let bytes = encode_utf8(s);
    let encoded = percent_encoded(bytes);
    lemma_percent_encoded_is_ascii(bytes);
    is_ascii_chars_encode_utf8(encoded);
    assert(encode_utf8(encoded) =~= ascii_bytes(encoded));
    lemma_percent_round_trip(bytes);
    encode_utf8_valid_utf8(s);
    encode_utf8_decode_utf8(s);
}

} // verus!
