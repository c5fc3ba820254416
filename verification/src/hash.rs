//! Hashes of source text.
use vstd::prelude::*;

verus! {

/// The SHA-256 digest of some bytes.
pub uninterp spec fn sha256_digest(bytes: Seq<u8>) -> Seq<u8>;

/// `sha2::Sha256::digest`: a function of the bytes alone, which gives 32 bytes.
#[verifier::external_body]
fn sha256(bytes: &[u8]) -> (r: Vec<u8>)
    ensures
        r@ == sha256_digest(bytes@),
        r@.len() == 32,
{
    <sha2::Sha256 as sha2::Digest>::digest(bytes).to_vec()
}

/// The character of a hexadecimal digit.
pub open spec fn hex_digit(n: int) -> char {
    if n < 10 {
        (48 + n) as u8 as char
    } else {
        (87 + n) as u8 as char
    }
}

/// Bytes in hexadecimal digits, two for each.
pub open spec fn hex(bytes: Seq<u8>) -> Seq<char>
    decreases bytes.len(),
{
    if bytes.len() == 0 {
        Seq::empty()
    } else {
        hex(bytes.drop_last()).push(hex_digit(bytes.last() as int / 16)).push(
            hex_digit(bytes.last() as int % 16),
        )
    }
}

pub proof fn lemma_hex_len(bytes: Seq<u8>)
    ensures
        hex(bytes).len() == 2 * bytes.len(),
    decreases bytes.len(),
{
    if bytes.len() > 0 {
        lemma_hex_len(bytes.drop_last());
    }
}

proof fn lemma_digit_ascii(n: int)
    requires
        0 <= n < 16,
    ensures
        (hex_digit(n) as u32) < 128,
{
    let d: u8 = if n < 10 {
        (48 + n) as u8
    } else {
        (87 + n) as u8
    };
    assert(hex_digit(n) == d as char);
}

/// Hexadecimal digits are ASCII characters.
pub proof fn lemma_hex_ascii(bytes: Seq<u8>)
    ensures
        forall|i: int| 0 <= i < hex(bytes).len() ==> (#[trigger] hex(bytes)[i] as u32) < 128,
    decreases bytes.len(),
{
    if bytes.len() > 0 {
        lemma_hex_ascii(bytes.drop_last());
        lemma_digit_ascii(bytes.last() as int / 16);
        lemma_digit_ascii(bytes.last() as int % 16);
        let before = hex(bytes.drop_last());
        assert forall|i: int| 0 <= i < hex(bytes).len() implies (#[trigger] hex(bytes)[i] as u32)
            < 128 by {
            if i < before.len() {
                assert(hex(bytes)[i] == before[i]);
            }
        }
    }
}

fn hex_char(n: u8) -> (c: char)
    requires
        n < 16,
    ensures
        c == hex_digit(n as int),
{
    if n < 10 {
        (48 + n) as char
    } else {
        (87 + n) as char
    }
}

/// The first `n` bytes in hexadecimal digits.
fn hex_string(bytes: &Vec<u8>, n: usize) -> (r: String)
    requires
        n <= bytes@.len(),
    ensures
        r@ == hex(bytes@.take(n as int)),
{
    let mut out: String = String::new();
    let mut i: usize = 0;
    assert(bytes@.take(0).len() == 0);
    while i < n
        invariant
            i <= n <= bytes@.len(),
            out@ == hex(bytes@.take(i as int)),
        decreases n - i,
    {
        assert(bytes@.take(i + 1).drop_last() =~= bytes@.take(i as int));
        out.push(hex_char(bytes[i] / 16));
        out.push(hex_char(bytes[i] % 16));
        i += 1;
    }
    out
}

/// The SHA-256 hash of some bytes, in 64 hexadecimal digits.
pub open spec fn full_hash(bytes: Seq<u8>) -> Seq<char> {
    hex(sha256_digest(bytes))
}

/// The first 16 hexadecimal digits of the SHA-256 hash of some bytes.
pub open spec fn short_hash(bytes: Seq<u8>) -> Seq<char> {
    hex(sha256_digest(bytes).take(8))
}

pub fn full_hash_of(bytes: &[u8]) -> (r: String)
    ensures
        r@ == full_hash(bytes@),
        r@.len() == 64,
{
    let digest = sha256(bytes);
    assert(digest@.take(32) =~= digest@);
    proof {
        lemma_hex_len(digest@);
    }
    hex_string(&digest, 32)
}

/// The hash by which a change of a source file is noticed.
pub fn compute_source_hash(content: &[u8]) -> (r: String)
    ensures
        r@ == short_hash(content@),
        r@.len() == 16,
{
    let digest = sha256(content);
    proof {
        lemma_hex_len(digest@.take(8));
    }
    hex_string(&digest, 8)
}

} // verus!
