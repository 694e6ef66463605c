//! Content hashing: SHA-256 rendered as lower-case hexadecimal.
use vstd::prelude::*;
use vstd::string::StringSliceAdditionalSpecFns;
use sha2::Digest;

verus! {

/// What SHA-256 returns for a byte sequence (FIPS 180-4).
pub uninterp spec fn sha256(data: Seq<u8>) -> Seq<u8>;

/// Calls `sha2::Sha256::digest`: the 32-byte SHA-256 digest of `data`.
#[verifier::external_body]
fn sha256_digest(data: &[u8]) -> (d: Vec<u8>)
    ensures
        d@ == sha256(data@),
        d@.len() == 32,
{
    sha2::Sha256::digest(data).to_vec()
}

/// The lower-case hexadecimal digit of a value below 16.
pub open spec fn hex_digit(v: u8) -> char {
    if v < 10 {
        ((v as u32) + 48) as char
    } else {
        ((v as u32) + 87) as char
    }
}

/// Two lower-case hexadecimal digits per byte, high nibble first.
pub open spec fn hex_lower(data: Seq<u8>) -> Seq<char>
    decreases data.len(),
{
    if data.len() == 0 {
        seq![]
    } else {
        hex_lower(data.drop_last()) + seq![hex_digit(data.last() / 16), hex_digit(data.last() % 16)]
    }
}

/// Calls `hex::encode`, which writes each byte as two lower-case hexadecimal
/// digits, high nibble first.
#[verifier::external_body]
fn hex_encode(data: &[u8]) -> (s: String)
    ensures
        s@ == hex_lower(data@),
{
    hex::encode(data)
}

/// The bytes of the UTF-8 encoding of a string.
pub fn bytes_of(s: &str) -> (v: Vec<u8>)
    ensures
        v@ == s.spec_bytes(),
{
    let b = s.as_bytes();
    let mut v: Vec<u8> = Vec::new();
    let mut i: usize = 0;
    while i < b.len()
        invariant
            0 <= i <= b.len(),
            v@ == b@.take(i as int),
        decreases b.len() - i,
    {
        v.push(b[i]);
        i = i + 1;
        assert(v@ =~= b@.take(i as int));
    }
    assert(b@.take(b.len() as int) =~= b@);
    v
}

/// The SHA-256 of the bytes, as lower-case hex.
pub fn sha256_hex(data: &[u8]) -> (s: String)
    ensures
        s@ == hex_lower(sha256(data@)),
        s@.len() == 64,
{
    let d = sha256_digest(data);
    proof {
        lemma_hex_len(d@);
    }
    hex_encode(d.as_slice())
}

/// Hex text has two digits per byte.
pub proof fn lemma_hex_len(data: Seq<u8>)
    ensures
        hex_lower(data).len() == 2 * data.len(),
    decreases data.len(),
{
    if data.len() > 0 {
        lemma_hex_len(data.drop_last());
    }
}

} // verus!
