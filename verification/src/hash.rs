//! Fingerprints and their hexadecimal form.
use crate::text::{chars_of, string_of, trim, trimmed};
use vstd::prelude::*;

verus! {

/// The bytes of a fingerprint.
pub const HASH_LEN: usize = 32;

/// The hexadecimal digit of a number below 16, in lower case.
pub open spec fn hex_digit(n: int) -> char {
    if n < 10 {
        (n + 0x30) as u8 as char
    } else {
        (n - 10 + 0x61) as u8 as char
    }
}

/// The value of a hexadecimal digit in either case.
pub open spec fn hex_value(c: char) -> Option<int> {
    if '0' <= c && c <= '9' {
        Some(c as u32 - 0x30)
    } else if 'a' <= c && c <= 'f' {
        Some(c as u32 - 0x61 + 10)
    } else if 'A' <= c && c <= 'F' {
        Some(c as u32 - 0x41 + 10)
    } else {
        None
    }
}

/// Bytes as hexadecimal text, two digits for each.
pub open spec fn hex_text(bytes: Seq<u8>) -> Seq<char> {
    Seq::new(
        2 * bytes.len(),
        |i: int|
            if i % 2 == 0 {
                hex_digit(bytes[i / 2] as int / 16)
            } else {
                hex_digit(bytes[i / 2] as int % 16)
            },
    )
}

/// A text of an even number of hexadecimal digits.
pub open spec fn is_hex(text: Seq<char>) -> bool {
    text.len() % 2 == 0 && forall|i: int|
        0 <= i < text.len() ==> hex_value(#[trigger] text[i]) is Some
}

/// The bytes that hexadecimal text stands for.
pub open spec fn hex_bytes(text: Seq<char>) -> Seq<u8> {
    Seq::new(
        text.len() / 2,
        |i: int| (hex_value(text[2 * i])->0 * 16 + hex_value(text[2 * i + 1])->0) as u8,
    )
}

/// `hex::encode` writes two lower-case digits for each byte.
#[verifier::external_body]
pub(crate) fn encode_hex(bytes: &[u8]) -> (r: String)
    ensures
        r@ == hex_text(bytes@),
{
    hex::encode(bytes)
}

/// `hex::decode` reads an even number of digits of either case, and nothing
/// else.
#[verifier::external_body]
pub(crate) fn decode_hex(text: &str) -> (r: Option<Vec<u8>>)
    ensures
        r is Some <==> is_hex(text@),
        r matches Some(bytes) ==> bytes@ == hex_bytes(text@),
{
    hex::decode(text).ok()
}

/// A text of exactly 64 hexadecimal digits.
pub open spec fn is_hash(text: Seq<char>) -> bool {
    text.len() == 64 && is_hex(text)
}

/// Copies the bytes of a fingerprint.
pub(crate) fn hash_array(bytes: &[u8]) -> (r: [u8; 32])
    requires
        bytes@.len() == 32,
    ensures
        r@ == bytes@,
{
    let mut r = [0u8;32];
    let mut i: usize = 0;
    while i < 32
        invariant
            i <= 32,
            bytes@.len() == 32,
            forall|j: int| 0 <= j < i ==> #[trigger] r@[j] == bytes@[j],
        decreases 32 - i,
    {
        r[i] = bytes[i];
        i += 1;
    }
    assert(r@ =~= bytes@);
    r
}

/// Reads a fingerprint of exactly 64 hexadecimal digits.
pub fn decode_hash(text: &str) -> (r: Option<[u8; 32]>)
    ensures
        r is Some <==> is_hash(text@),
        r matches Some(hash) ==> hash@ == hex_bytes(text@),
{
    match decode_hex(text) {
        Some(bytes) => if bytes.len() == HASH_LEN {
            Some(hash_array(bytes.as_slice()))
        } else {
            None
        },
        None => None,
    }
}

/// Writes a fingerprint as 64 hexadecimal digits.
pub fn fmt_hash(hash: &[u8; 32]) -> (r: String)
    ensures
        r@ == hex_text(hash@),
{
    encode_hex(hash.as_slice())
}

/// Reads a fingerprint, with white space around it.
pub fn parse_hash(value: &str) -> (r: Option<[u8; 32]>)
    ensures
        r is Some <==> is_hash(trimmed(value@)),
        r matches Some(hash) ==> hash@ == hex_bytes(trimmed(value@)),
{
    let chars = chars_of(value);
    decode_hash(string_of(&trim(&chars)).as_str())
}

proof fn lemma_hex_digit(n: int)
    requires
        0 <= n < 16,
    ensures
        hex_value(hex_digit(n)) == Some(n),
{
}

/// Reading back what was written gives the same bytes.
pub proof fn hex_reads_back(bytes: Seq<u8>)
    ensures
        is_hex(hex_text(bytes)),
        hex_bytes(hex_text(bytes)) == bytes,
{
    let text = hex_text(bytes);
    assert forall|i: int| 0 <= i < text.len() implies hex_value(#[trigger] text[i]) == Some(
        if i % 2 == 0 {
            bytes[i / 2] as int / 16
        } else {
            bytes[i / 2] as int % 16
        },
    ) by {
        lemma_hex_digit(bytes[i / 2] as int / 16);
        lemma_hex_digit(bytes[i / 2] as int % 16);
    }
    assert forall|i: int| 0 <= i < bytes.len() implies hex_bytes(text)[i] == bytes[i] by {
        assert(hex_value(text[2 * i]) == Some(bytes[i] as int / 16));
        assert(hex_value(text[2 * i + 1]) == Some(bytes[i] as int % 16));
    }
    assert(hex_bytes(text) =~= bytes);
}

/// A fingerprint reads back from its text.
pub proof fn hash_reads_back(hash: [u8; 32])
    ensures
        is_hash(hex_text(hash@)),
        hex_bytes(hex_text(hash@)) == hash@,
{
    hex_reads_back(hash@);
}

/// What a digit stands for.
pub open spec fn stands_for(c: char, n: int) -> bool {
    ||| 0 <= n <= 9 && c as int == '0' as int + n
    ||| 10 <= n <= 15 && c as int == 'a' as int + (n - 10)
}

/// A fingerprint is written as two lower-case digits for each byte, the
/// higher half first, and reads back.
#[verifier::spinoff_prover]
#[verifier::rlimit(60)]
pub proof fn fingerprints_are_written_in_hexadecimal(
    hash: &[u8; 32],
    text: String,
    value: &str,
    back: Option<[u8; 32]>,
    i: int,
)
    requires
        call_ensures(fmt_hash, (hash,), text),
        call_ensures(decode_hash, (value,), back),
        0 <= i < 32,
    ensures
        text@.len() == 64,
        stands_for(text@[2 * i], hash@[i] as int / 16),
        stands_for(text@[2 * i + 1], hash@[i] as int % 16),
        value@ == text@ ==> (back matches Some(h) && h@ == hash@),
{
    hash_reads_back(*hash);
}

/// A fingerprint is read only from 64 digits, in either case: each pair gives
/// the byte whose digits they are.
pub proof fn only_digits_are_read_as_fingerprints(value: &str, r: Option<[u8; 32]>, i: int)
    requires
        call_ensures(decode_hash, (value,), r),
    ensures
        value@.len() != 64 ==> r is None,
        r is Some && 0 <= i < 64 ==> {
            ||| '0' <= value@[i] <= '9'
            ||| 'a' <= value@[i] <= 'f'
            ||| 'A' <= value@[i] <= 'F'
        },
        r matches Some(h) ==> (0 <= i < 32 ==> (stands_for(value@[2 * i], h@[i] as int / 16)
            || 'A' <= value@[2 * i] <= 'F') && (stands_for(value@[2 * i + 1], h@[i] as int % 16)
            || 'A' <= value@[2 * i + 1] <= 'F')),
        r matches Some(h) ==> (0 <= i < 32 && 'A' <= value@[2 * i] <= 'F' ==> h@[i] as int / 16
            == 10 + (value@[2 * i] as int - 'A' as int)),
        r matches Some(h) ==> (0 <= i < 32 && 'A' <= value@[2 * i + 1] <= 'F' ==> h@[i] as int % 16
            == 10 + (value@[2 * i + 1] as int - 'A' as int)),
        value@.len() == 64 && (forall|k: int|
            0 <= k < 64 ==> '0' <= #[trigger] value@[k] <= '9' || 'a' <= value@[k] <= 'f' || 'A'
                <= value@[k] <= 'F') ==> r is Some,
{
    if let Some(h) = r {
        if 0 <= i < 64 {
            assert(hex_value(value@[i]) is Some);
        }
        if 0 <= i < 32 {
            assert(hex_value(value@[2 * i]) is Some);
            assert(hex_value(value@[2 * i + 1]) is Some);
            assert(h@[i] == hex_bytes(value@)[i]);
        }
    }
}

/// White space around a fingerprint does not count.
pub proof fn fingerprints_are_read_without_white_space(
    value: &str,
    inner: &str,
    r: Option<[u8; 32]>,
    plain: Option<[u8; 32]>,
)
    requires
        call_ensures(parse_hash, (value,), r),
        call_ensures(decode_hash, (inner,), plain),
        inner@ == trimmed(value@),
    ensures
        r is Some <==> plain is Some,
        r is Some ==> r->0@ == plain->0@,
{
}

} // verus!
