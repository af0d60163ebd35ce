//! Content hashes.

use sha2::{Digest, Sha256};
use vstd::prelude::*;
use vstd::utf8::encode_utf8;

use crate::text;

verus! {

/// The SHA-256 digest of `bytes`.
pub uninterp spec fn sha256_digest(bytes: Seq<u8>) -> Seq<u8>;

/// `Sha256` of the `sha2` crate, fed with `bytes` at once.
///
/// The digest is a function of the bytes, and has 32 bytes.
#[verifier::external_body]
fn sha256(bytes: &[u8]) -> (r: Vec<u8>)
    ensures
        r@ == sha256_digest(bytes@),
        r@.len() == 32,
{
    let mut hasher = Sha256::new();
    hasher.update(bytes);
    hasher.finalize().to_vec()
}

/// The lower-case hexadecimal digit `d`, for `d` below sixteen.
pub open spec fn hex_digit(d: int) -> char {
    if d < 10 {
        (48 + d) as char
    } else {
        (87 + d) as char
    }
}

/// Two hexadecimal digits for each byte, the high one first.
pub open spec fn hex(bytes: Seq<u8>) -> Seq<char> {
    Seq::new(
        2 * bytes.len(),
        |i: int|
            if i % 2 == 0 {
                hex_digit(bytes[i / 2] as int / 16)
            } else {
                hex_digit(bytes[i / 2] as int % 16)
            },
    )
}

/// The identifier of a text: the hexadecimal SHA-256 of its UTF-8 bytes.
pub open spec fn text_id(s: Seq<char>) -> Seq<char> {
    hex(sha256_digest(encode_utf8(s)))
}

fn to_hex_digit(d: u8) -> (r: char)
    requires
        d < 16,
    ensures
        r == hex_digit(d as int),
{
    if d < 10 {
        (48 + d) as char
    } else {
        (87 + d) as char
    }
}

/// Two hexadecimal digits for each byte.
pub fn to_hex(bytes: &Vec<u8>) -> (r: String)
    ensures
        r@ == hex(bytes@),
{
    let mut out = String::new();
    let mut i: usize = 0;
    while i < bytes.len()
        invariant
            i <= bytes@.len(),
            out@ == hex(bytes@.take(i as int)),
        decreases bytes@.len() - i,
    {
        let b: u8 = bytes[i];
        out.push(to_hex_digit(b / 16));
        out.push(to_hex_digit(b % 16));
        proof {
            let before = bytes@.take(i as int);
            let after = bytes@.take(i + 1);
            assert forall|k: int| 0 <= k < 2 * after.len() implies out@[k] == hex(after)[k] by {
                if k < 2 * i {
                    assert(hex(after)[k] == hex(before)[k]) by {
                        assert(after[k / 2] == before[k / 2]);
                    }
                }
            }
            assert(out@ =~= hex(after));
        }
        i += 1;
    }
    assert(bytes@.take(i as int) =~= bytes@);
    out
}

/// The hexadecimal SHA-256 of a text.
pub fn sha256_hex(s: &str) -> (r: String)
    ensures
        r@ == text_id(s@),
        r@.len() == 64,
{
    to_hex(&sha256(s.as_bytes()))
}

/// Different digests have different hexadecimal forms, so an identifier names
/// one digest.
pub proof fn law_hex_is_injective(a: Seq<u8>, b: Seq<u8>)
    requires
        hex(a) == hex(b),
    ensures
        a == b,
{
    assert(hex(a).len() == 2 * a.len());
    assert(hex(b).len() == 2 * b.len());
    assert forall|i: int| 0 <= i < a.len() implies a[i] == b[i] by {
        assert(hex(a)[2 * i] == hex_digit(a[i] as int / 16));
        assert(hex(b)[2 * i] == hex_digit(b[i] as int / 16));
        assert(hex(a)[2 * i + 1] == hex_digit(a[i] as int % 16)) by {
            assert((2 * i + 1) / 2 == i);
        }
        assert(hex(b)[2 * i + 1] == hex_digit(b[i] as int % 16)) by {
            assert((2 * i + 1) / 2 == i);
        }
    }
    assert(a =~= b);
}

/// Each byte is written as two digits, first that of its sixteenths and then that
/// of what is left, with the letters from `a` to `f` behind the digits.
pub proof fn law_hex_is_by_sixteens(bytes: Seq<u8>, i: int)
    requires
        0 <= i < bytes.len(),
    ensures
        hex(bytes).len() == 2 * bytes.len(),
        ({
            let high = bytes[i] as int / 16;
            let low = bytes[i] as int % 16;
            &&& high < 10 ==> hex(bytes)[2 * i] as int == '0' as int + high
            &&& high >= 10 ==> hex(bytes)[2 * i] as int == 'a' as int + high - 10
            &&& low < 10 ==> hex(bytes)[2 * i + 1] as int == '0' as int + low
            &&& low >= 10 ==> hex(bytes)[2 * i + 1] as int == 'a' as int + low - 10
        }),
{
    assert((2 * i + 1) / 2 == i);
}

} // verus!
