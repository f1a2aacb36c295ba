//! Hexadecimal text and SHA-256 digests.

use vstd::prelude::*;

use sha2::Digest;
#[allow(unused_imports)]
use vstd::string::StringSliceAdditionalSpecFns;

verus! {

/// The lower-case hexadecimal digit of a number below 16.
pub open spec fn hex_digit(n: int) -> char {
    if n < 10 {
        ('0' as int + n) as char
    } else {
        ('a' as int + (n - 10)) as char
    }
}

/// The lower-case hexadecimal text of bytes: two digits for each.
pub open spec fn hex_text(bytes: Seq<u8>) -> Seq<char> {
    Seq::new(
        2 * bytes.len(),
        |i: int|
            if i % 2 == 0 {
                hex_digit(bytes[i / 2] as int / 16)
            } else {
                hex_digit(bytes[i / 2] as int % 16)
            },
    )
}

/// The value of a hexadecimal digit, of either case.
pub open spec fn hex_value(c: u8) -> Option<int> {
    if 0x30 <= c <= 0x39 {
        Some(c - 0x30)
    } else if 0x61 <= c <= 0x66 {
        Some(c - 0x61 + 10)
    } else if 0x41 <= c <= 0x46 {
        Some(c - 0x41 + 10)
    } else {
        None
    }
}

/// The bytes that hexadecimal text stands for.
pub open spec fn hex_bytes(text: Seq<u8>) -> Seq<u8> {
    Seq::new(
        text.len() / 2,
        |i: int| (16 * hex_value(text[2 * i]).unwrap() + hex_value(text[2 * i + 1]).unwrap()) as u8,
    )
}

/// Whether a position holds the first byte of the text that is no digit.
pub open spec fn first_bad_digit(text: Seq<u8>, i: int) -> bool {
    0 <= i < text.len() && hex_value(text[i]) is None && forall|j: int|
        0 <= j < i ==> hex_value(#[trigger] text[j]) is Some
}

/// Why hexadecimal text cannot be decoded.
#[derive(Debug, Clone, Copy, PartialEq, Eq, Structural)]
pub enum HexError {
    /// A character is no hexadecimal digit.
    InvalidCharacter {
        /// The character.
        c: char,
        /// Where it stands.
        index: usize,
    },
    /// The number of digits is odd.
    OddLength,
    /// The length does not fit a container of fixed size.
    InvalidLength,
}

/// Encode bytes with `hex::encode`: two lower-case digits for each byte, the
/// higher four bits first.
#[verifier::external_body]
pub(crate) fn encode(data: &[u8]) -> (r: String)
    ensures
        r@ == hex_text(data@),
{
    hex::encode(data)
}

/// Decode hexadecimal text with `hex::decode`: an odd number of bytes is
/// refused first, then the first byte that is no digit; otherwise each pair of
/// digits gives a byte. It never reports a wrong length of a container.
#[verifier::external_body]
pub(crate) fn decode(text: &[u8]) -> (r: Result<Vec<u8>, HexError>)
    ensures
        match r {
            Ok(v) => {
                &&& text@.len() % 2 == 0
                &&& forall|i: int| 0 <= i < text@.len() ==> hex_value(#[trigger] text@[i]) is Some
                &&& v@ == hex_bytes(text@)
            },
            Err(HexError::OddLength) => text@.len() % 2 != 0,
            Err(HexError::InvalidCharacter { c, index }) => {
                &&& text@.len() % 2 == 0
                &&& first_bad_digit(text@, index as int)
                &&& c as int == text@[index as int] as int
            },
            Err(HexError::InvalidLength) => false,
        },
{
    match hex::decode(text) {
        Ok(v) => Ok(v),
        Err(hex::FromHexError::InvalidHexCharacter { c, index }) => {
            Err(HexError::InvalidCharacter { c, index })
        },
        Err(hex::FromHexError::OddLength) => Err(HexError::OddLength),
        Err(hex::FromHexError::InvalidStringLength) => Err(HexError::InvalidLength),
    }
}

/// The SHA-256 digest of bytes.
pub uninterp spec fn sha256_digest(data: Seq<u8>) -> Seq<u8>;

/// Compute a digest with `sha2::Sha256`: a function of the bytes alone, of 32
/// bytes.
#[verifier::external_body]
pub(crate) fn sha256(data: &[u8]) -> (r: Vec<u8>)
    ensures
        r@ == sha256_digest(data@),
        r@.len() == 32,
{
    sha2::Sha256::digest(data).to_vec()
}

/// The hexadecimal text of a digest.
pub fn digest_text(digest: &[u8]) -> (r: String)
    ensures
        r@ == hex_text(digest@),
{
    encode(digest)
}

/// The hexadecimal text of the SHA-256 digest of bytes.
pub fn sha256_text(data: &[u8]) -> (r: String)
    ensures
        r@ == hex_text(sha256_digest(data@)),
{
    let digest = sha256(data);
    digest_text(digest.as_slice())
}

/// Where the first byte stands that is no digit, if there is one.
pub open spec fn bad_digit(text: Seq<u8>) -> Option<int>
    decreases text.len(),
{
    if text.len() == 0 {
        None
    } else {
        match bad_digit(text.drop_last()) {
            Some(i) => Some(i),
            None => if hex_value(text.last()) is None {
                Some(text.len() - 1)
            } else {
                None
            },
        }
    }
}

/// What decoding hexadecimal text comes to.
pub open spec fn hex_decoded(text: Seq<u8>) -> Result<Seq<u8>, HexError> {
    if text.len() % 2 != 0 {
        Err(HexError::OddLength)
    } else {
        match bad_digit(text) {
            Some(i) => Err(
                HexError::InvalidCharacter { c: text[i] as char, index: i as usize },
            ),
            None => Ok(hex_bytes(text)),
        }
    }
}

proof fn lemma_bad_digit(text: Seq<u8>)
    ensures
        match bad_digit(text) {
            Some(i) => first_bad_digit(text, i),
            None => forall|j: int| 0 <= j < text.len() ==> hex_value(#[trigger] text[j]) is Some,
        },
    decreases text.len(),
{
    if text.len() > 0 {
        let init = text.drop_last();
        lemma_bad_digit(init);
        assert forall|j: int| 0 <= j < init.len() implies hex_value(#[trigger] text[j])
            == hex_value(init[j]) by {}
    }
}

/// Decode hexadecimal text.
pub fn decode_hex(text: &str) -> (r: Result<Vec<u8>, HexError>)
    ensures
        match r {
            Ok(v) => hex_decoded(text.spec_bytes()) == Ok::<Seq<u8>, HexError>(v@),
            Err(e) => hex_decoded(text.spec_bytes()) == Err::<Seq<u8>, HexError>(e),
        },
{
    let bytes = text.as_bytes();
    proof {
        lemma_bad_digit(bytes@);
    }
    decode(bytes)
}

/// Decoding undoes encoding: the digits of bytes stand for these bytes.
pub proof fn law_hex_round_trip(bytes: Seq<u8>, text: Seq<u8>)
    requires
        text.len() == hex_text(bytes).len(),
        forall|i: int| 0 <= i < text.len() ==> #[trigger] text[i] as int == hex_text(bytes)[i] as int,
    ensures
        forall|i: int| 0 <= i < text.len() ==> hex_value(#[trigger] text[i]) is Some,
        hex_bytes(text) == bytes,
{
    assert forall|i: int| 0 <= i < text.len() implies hex_value(#[trigger] text[i]) == Some(
        if i % 2 == 0 {
            bytes[i / 2] as int / 16
        } else {
            bytes[i / 2] as int % 16
        },
    ) by {
        assert(text[i] as int == hex_text(bytes)[i] as int);
    }
    assert forall|i: int| 0 <= i < bytes.len() implies hex_bytes(text)[i] == bytes[i] by {
        assert(hex_value(text[2 * i]) == Some(bytes[i] as int / 16)) by {
            assert((2 * i) / 2 == i);
        }
        assert(hex_value(text[2 * i + 1]) == Some(bytes[i] as int % 16)) by {
            assert((2 * i + 1) / 2 == i);
            assert((2 * i + 1) % 2 == 1);
        }
    }
    assert(hex_bytes(text) =~= bytes);
}

/// Text is decoded exactly if its length is even and every byte is a digit; it
/// then gives a byte for every two digits, the upper four bits first. Otherwise
/// the error says which of the two it was, and where the first byte stands that
/// is no digit.
pub proof fn law_hex_is_decoded(text: Seq<u8>, i: int)
    requires
        text.len() <= usize::MAX,
    ensures
        ({
            let r = hex_decoded(text);
            let digits = forall|j: int|
                0 <= j < text.len() ==> hex_value(#[trigger] text[j]) is Some;
            &&& r is Ok <==> text.len() % 2 == 0 && digits
            &&& r matches Ok(b) ==> 2 * b.len() == text.len() && (0 <= i < b.len() ==> b[i]
                == 16 * hex_value(text[2 * i])->0 + hex_value(text[2 * i + 1])->0)
            &&& text.len() % 2 != 0 ==> r == Err::<Seq<u8>, HexError>(HexError::OddLength)
            &&& text.len() % 2 == 0 && first_bad_digit(text, i) ==> r == Err::<Seq<u8>, HexError>(
                HexError::InvalidCharacter { c: text[i] as char, index: i as usize },
            )
        }),
{
    lemma_bad_digit(text);
    if first_bad_digit(text, i) {
        match bad_digit(text) {
            Some(j) => {
                if j < i {
                    assert(hex_value(text[j]) is Some);
                }
                if i < j {
                    assert(hex_value(text[i]) is Some);
                }
            },
            None => {
                assert(hex_value(text[i]) is Some);
            },
        }
    }
}

} // verus!
