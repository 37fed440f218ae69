//! Content fingerprints: the SHA3-512 digest of a byte sequence, written as
//! lower-case hexadecimal text.

use sha3::{Digest, Sha3_512};
use vstd::prelude::*;
use vstd::string::StringExecFns;

verus! {

/// The SHA3-512 digest of `data`, as computed by the `sha3` crate.
pub uninterp spec fn sha3_512(data: Seq<u8>) -> Seq<u8>;

/// Number of bytes in a SHA3-512 digest.
pub const DIGEST_LEN: usize = 64;

/// Number of characters in a fingerprint: two per digest byte.
pub const HASH_LEN: usize = 128;

/// Calls `sha3::Sha3_512` (`new`, `update`, `finalize`) on `data`.
///
/// Trusted: the result is the digest named by [`sha3_512`], and it is 64 bytes
/// long, the output size that `sha3` declares for `Sha3_512`.
#[verifier::external_body]
pub(crate) fn sha3_512_digest(data: &[u8]) -> (digest: Vec<u8>)
    ensures
        digest@ == sha3_512(data@),
        digest@.len() == DIGEST_LEN,
{
    let mut hasher = Sha3_512::new();
    hasher.update(data);
    hasher.finalize().to_vec()
}

/// The sixteen lower-case hexadecimal digits, in order of value.
pub open spec fn hex_digits() -> Seq<char> {
    seq!['0', '1', '2', '3', '4', '5', '6', '7', '8', '9', 'a', 'b', 'c', 'd', 'e', 'f']
}

/// The digit that stands at position `i` of the hexadecimal text of `bytes`:
/// the high half of byte `i / 2` at even positions, the low half at odd ones.
pub open spec fn hex_digit_at(bytes: Seq<u8>, i: int) -> char {
    let byte = bytes[i / 2] as int;
    if i % 2 == 0 {
        hex_digits()[byte / 16]
    } else {
        hex_digits()[byte % 16]
    }
}

/// Lower-case hexadecimal text of `bytes`, two digits per byte.
pub open spec fn hex_lower(bytes: Seq<u8>) -> Seq<char> {
    Seq::new(2 * bytes.len(), |i: int| hex_digit_at(bytes, i))
}

/// The fingerprint of `data`: its SHA3-512 digest in lower-case hexadecimal.
pub open spec fn digest_hex(data: Seq<u8>) -> Seq<char> {
    hex_lower(sha3_512(data))
}

/// Whether `c` is one of the sixteen lower-case hexadecimal digits.
pub open spec fn is_hex_digit(c: char) -> bool {
    exists|n: int| 0 <= n < 16 && hex_digits()[n] == c
}

/// No two of the sixteen digits are the same character.
pub proof fn lemma_hex_digits_differ(x: int, y: int)
    requires
        0 <= x < 16,
        0 <= y < 16,
        hex_digits()[x] == hex_digits()[y],
    ensures
        x == y,
{
}

/// Hexadecimal text is twice as long as the bytes it stands for and holds
/// hexadecimal digits only.
pub proof fn lemma_hex_lower_shape(bytes: Seq<u8>)
    ensures
        hex_lower(bytes).len() == 2 * bytes.len(),
        forall|i: int| 0 <= i < hex_lower(bytes).len() ==> is_hex_digit(#[trigger] hex_lower(bytes)[i]),
{
    assert forall|i: int| 0 <= i < hex_lower(bytes).len() implies is_hex_digit(
        #[trigger] hex_lower(bytes)[i],
    ) by {
        let byte = bytes[i / 2] as int;
        let n = if i % 2 == 0 {
            byte / 16
        } else {
            byte % 16
        };
        assert(0 <= n < 16);
        assert(hex_digits()[n] == hex_lower(bytes)[i]);
    }
}

/// Hexadecimal text loses nothing: two byte sequences with the same text are
/// the same sequence.
pub proof fn lemma_hex_lower_injective(a: Seq<u8>, b: Seq<u8>)
    requires
        hex_lower(a) == hex_lower(b),
    ensures
        a == b,
{
    assert(hex_lower(a).len() == 2 * a.len());
    assert(hex_lower(b).len() == 2 * b.len());
    assert(a.len() == b.len());
    assert forall|k: int| 0 <= k < a.len() implies a[k] == b[k] by {
        let x = a[k] as int;
        let y = b[k] as int;
        assert(hex_lower(a)[2 * k] == hex_digits()[x / 16]);
        assert(hex_lower(b)[2 * k] == hex_digits()[y / 16]);
        assert(hex_lower(a)[2 * k + 1] == hex_digits()[x % 16]);
        assert(hex_lower(b)[2 * k + 1] == hex_digits()[y % 16]);
        lemma_hex_digits_differ(x / 16, y / 16);
        lemma_hex_digits_differ(x % 16, y % 16);
    }
    assert(a =~= b);
}

/// Two fingerprints are equal exactly when the digests are.
pub proof fn lemma_digest_hex_equal(a: Seq<u8>, b: Seq<u8>)
    ensures
        digest_hex(a) == digest_hex(b) <==> sha3_512(a) == sha3_512(b),
{
    if digest_hex(a) == digest_hex(b) {
        lemma_hex_lower_injective(sha3_512(a), sha3_512(b));
    }
}

/// The one-character text of the hexadecimal digit with value `n`.
fn hex_digit_str(n: u8) -> (s: &'static str)
    requires
        n < 16,
    ensures
        s@ == seq![hex_digits()[n as int]],
{
    proof {
        reveal_strlit("0");
        reveal_strlit("1");
        reveal_strlit("2");
        reveal_strlit("3");
        reveal_strlit("4");
        reveal_strlit("5");
        reveal_strlit("6");
        reveal_strlit("7");
        reveal_strlit("8");
        reveal_strlit("9");
        reveal_strlit("a");
        reveal_strlit("b");
        reveal_strlit("c");
        reveal_strlit("d");
        reveal_strlit("e");
        reveal_strlit("f");
    }
    let s = match n {
        0 => "0",
        1 => "1",
        2 => "2",
        3 => "3",
        4 => "4",
        5 => "5",
        6 => "6",
        7 => "7",
        8 => "8",
        9 => "9",
        10 => "a",
        11 => "b",
        12 => "c",
        13 => "d",
        14 => "e",
        _ => "f",
    };
    assert(s@ =~= seq![hex_digits()[n as int]]);
    s
}

/// Writes `bytes` as lower-case hexadecimal text.
pub fn to_hex(bytes: &[u8]) -> (text: String)
    ensures
        text@ == hex_lower(bytes@),
{
    let mut text = String::new();
    let mut i: usize = 0;
    while i < bytes.len()
        invariant
            i <= bytes.len(),
            text@ == hex_lower(bytes@.take(i as int)),
        decreases bytes.len() - i,
    {
        let byte: u8 = bytes[i];
        let ghost before = text@;
        text.append(hex_digit_str(byte / 16));
        text.append(hex_digit_str(byte % 16));
        i += 1;
        proof {
            let taken = bytes@.take(i as int);
            assert(text@ == before + seq![hex_digits()[(byte / 16) as int]] + seq![
                hex_digits()[(byte % 16) as int],
            ]);
            assert forall|j: int| 0 <= j < 2 * i implies text@[j] == hex_digit_at(taken, j) by {
                if j < 2 * (i - 1) {
                    assert(before[j] == hex_digit_at(bytes@.take(i - 1), j));
                    assert(bytes@.take(i - 1)[j / 2] == taken[j / 2]);
                } else {
                    assert(taken[j / 2] == byte);
                }
            }
            assert(text@ =~= hex_lower(taken));
        }
    }
    proof {
        assert(bytes@.take(i as int) =~= bytes@);
    }
    text
}

} // verus!
