//! Encodings of texts and bytes.

use base64::Engine;
use vstd::prelude::*;

use crate::text;

verus! {

/// Whether a byte stands for itself in an address.
pub open spec fn unreserved(b: u8) -> bool {
    ||| 48 <= b <= 57
    ||| 65 <= b <= 90
    ||| 97 <= b <= 122
    ||| b == 45
    ||| b == 46
    ||| b == 95
    ||| b == 126
}

/// The character for a digit in base sixteen.
pub open spec fn hex_digit(d: int) -> char {
    if d < 10 {
        (d + 48) as char
    } else {
        (d + 55) as char
    }
}

/// Some bytes in an address: those that stand for themselves, and a per cent sign and
/// two digits for each of the others.
pub open spec fn percent_encoded(b: Seq<u8>) -> Seq<char>
    decreases b.len(),
{
    if b.len() == 0 {
        Seq::empty()
    } else if unreserved(b.last()) {
        percent_encoded(b.drop_last()).push(b.last() as char)
    } else {
        percent_encoded(b.drop_last()) + seq![
            '%',
            hex_digit(b.last() as int / 16),
            hex_digit(b.last() as int % 16),
        ]
    }
}

/// Calls `urlencoding::encode`, which puts a per cent sign and two digits in base
/// sixteen for every byte of the text but letters, digits and `-`, `.`, `_` and `~`.
#[verifier::external_body]
pub(crate) fn url_encode(s: &str) -> (r: String)
    ensures
        r@ == percent_encoded(text::bytes_of(s@)),
{
    urlencoding::encode(s).into_owned()
}

/// The bytes that a text in base 64 stands for, or `None` where it stands for none.
pub uninterp spec fn base64_bytes(s: Seq<char>) -> Option<Seq<u8>>;

/// The bytes that a frame of compressed bytes holds, or `None` where it is none.
pub uninterp spec fn unpacked_bytes(b: Seq<u8>) -> Option<Seq<u8>>;

/// Bytes that may be missing.
pub open spec fn bytes_view(b: Option<Vec<u8>>) -> Option<Seq<u8>> {
    match b {
        Some(v) => Some(v@),
        None => None,
    }
}

/// Calls `decode` of `base64::engine::general_purpose::STANDARD`. Left unsaid is the
/// encoding itself.
#[verifier::external_body]
pub(crate) fn base64_decode(s: &str) -> (r: Option<Vec<u8>>)
    ensures
        bytes_view(r) == base64_bytes(s@),
{
    base64::engine::general_purpose::STANDARD.decode(s).ok()
}

/// Calls `zstd::decode_all`. Left unsaid is the compression itself.
#[verifier::external_body]
pub(crate) fn unpack(b: &[u8]) -> (r: Option<Vec<u8>>)
    ensures
        bytes_view(r) == unpacked_bytes(b@),
{
    zstd::decode_all(b).ok()
}

/// Letters, digits and the four marks `-`, `.`, `_` and `~` stand for themselves in an
/// address; each other byte is a per cent sign and its two digits in base sixteen. Texts are
/// taken byte by byte.
pub proof fn bytes_are_escaped_one_by_one(a: Seq<u8>, b: u8)
    ensures
        ({
            let c = b as char;
            let plain = 'a' <= c <= 'z' || 'A' <= c <= 'Z' || '0' <= c <= '9' || c == '-' || c
                == '.' || c == '_' || c == '~';
            let digits = "0123456789ABCDEF"@;
            &&& plain ==> percent_encoded(a.push(b)) == percent_encoded(a).push(c)
            &&& !plain ==> percent_encoded(a.push(b)) == percent_encoded(a) + seq![
                '%',
                digits[b as int / 16],
                digits[b as int % 16],
            ]
        }),
        percent_encoded(Seq::empty()) == Seq::<char>::empty(),
{
    reveal_strlit("0123456789ABCDEF");
    assert(a.push(b).drop_last() =~= a);
    assert(a.push(b).last() == b);
    let digits = "0123456789ABCDEF"@;
    assert forall|d: int| 0 <= d < 16 implies hex_digit(d) == #[trigger] digits[d] by {
        if d < 4 {
        } else if d < 8 {
        } else if d < 12 {
        }
    }
    assert(0 <= b as int / 16 < 16);
    assert(0 <= b as int % 16 < 16);
}

} // verus!
