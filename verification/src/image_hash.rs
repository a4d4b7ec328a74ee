//! Perceptual hashes of images: their Base64 text and the distance between two
//! of them.

use vstd::prelude::*;

verus! {

/// The character of a six-bit value in the standard Base64 alphabet.
pub open spec fn base64_digit(v: nat) -> char {
    if v < 26 {
        (65 + v) as char
    } else if v < 52 {
        (97 + (v - 26)) as char
    } else if v < 62 {
        (48 + (v - 52)) as char
    } else if v == 62 {
        '+'
    } else {
        '/'
    }
}

/// Standard Base64 with `=` padding: each three bytes become four characters;
/// a last group of one or two bytes becomes two or three characters and padding.
pub open spec fn base64_encode(b: Seq<u8>) -> Seq<char>
    decreases b.len(),
{
    if b.len() == 0 {
        seq![]
    } else if b.len() == 1 {
        let n = b[0] as nat * 65536;
        seq![base64_digit(n / 262144), base64_digit((n / 4096) % 64), '=', '=']
    } else if b.len() == 2 {
        let n = b[0] as nat * 65536 + b[1] as nat * 256;
        seq![
            base64_digit(n / 262144),
            base64_digit((n / 4096) % 64),
            base64_digit((n / 64) % 64),
            '=',
        ]
    } else {
        let n = b[0] as nat * 65536 + b[1] as nat * 256 + b[2] as nat;
        seq![
            base64_digit(n / 262144),
            base64_digit((n / 4096) % 64),
            base64_digit((n / 64) % 64),
            base64_digit(n % 64),
        ] + base64_encode(b.subrange(3, b.len() as int))
    }
}

/// Builds an `img_hash::ImageHash` from the bytes with `from_bytes` (which does
/// not fail for the default byte container when the bit count fits a `usize`) and
/// calls `to_base64`, which is `base64::encode`: standard Base64 with padding.
#[verifier::external_body]
fn hash_to_base64(bytes: &[u8]) -> (r: String)
    requires
        bytes@.len() * 8 <= usize::MAX,
    ensures
        r@ == base64_encode(bytes@),
{
    match img_hash::ImageHash::<Box<[u8]>>::from_bytes(bytes) {
        Ok(hash) => hash.to_base64(),
        Err(_) => String::new(),
    }
}

/// The number of one bits of `x`.
pub open spec fn popcount(x: nat) -> nat
    decreases x,
{
    if x == 0 {
        0
    } else {
        x % 2 + popcount(x / 2)
    }
}

/// The number of bits in which the first `n` bytes of `a` and `b` differ.
pub open spec fn bits_differing(a: Seq<u8>, b: Seq<u8>, n: int) -> nat
    decreases n,
{
    if n <= 0 {
        0
    } else {
        bits_differing(a, b, n - 1) + popcount((a[n - 1] ^ b[n - 1]) as nat)
    }
}

pub open spec fn min_len(a: Seq<u8>, b: Seq<u8>) -> int {
    if a.len() <= b.len() {
        a.len() as int
    } else {
        b.len() as int
    }
}

/// The Hamming distance of two hashes: the number of bits in which they differ,
/// over the bytes that both have.
pub open spec fn hamming(a: Seq<u8>, b: Seq<u8>) -> nat {
    bits_differing(a, b, min_len(a, b))
}

spec fn two_to(k: nat) -> nat
    decreases k,
{
    if k == 0 {
        1
    } else {
        2 * two_to((k - 1) as nat)
    }
}

proof fn lemma_popcount_bound(x: nat, k: nat)
    requires
        x < two_to(k),
    ensures
        popcount(x) <= k,
    decreases k,
{
    if x > 0 {
        lemma_popcount_bound(x / 2, (k - 1) as nat);
    }
}

fn count_ones(x: u8) -> (r: u32)
    ensures
        r == popcount(x as nat),
        r <= 8,
{
    let mut v: u8 = x;
    let mut c: u32 = 0;
    proof {
        assert(two_to(8) == 256) by {
            reveal_with_fuel(two_to, 9);
        }
        lemma_popcount_bound(x as nat, 8);
    }
    while v > 0
        invariant
            c + popcount(v as nat) == popcount(x as nat),
            popcount(x as nat) <= 8,
        decreases v,
    {
        c = c + (v % 2) as u32;
        v = v / 2;
    }
    c
}

/// The Hamming distance of two hashes, as `img_hash::ImageHash::dist` counts it:
/// the one bits of the exclusive or of the bytes that both hashes have.
pub fn hash_distance(a: &[u8], b: &[u8]) -> (r: u32)
    requires
        min_len(a@, b@) * 8 <= u32::MAX,
    ensures
        r == hamming(a@, b@),
{
    let n = if a.len() <= b.len() {
        a.len()
    } else {
        b.len()
    };
    let mut total: u32 = 0;
    let mut i: usize = 0;
    while i < n
        invariant
            i <= n,
            n == min_len(a@, b@),
            n <= a@.len(),
            n <= b@.len(),
            n * 8 <= u32::MAX,
            total == bits_differing(a@, b@, i as int),
            total <= 8 * i,
        decreases n - i,
    {
        let ones = count_ones(a[i] ^ b[i]);
        total = total + ones;
        i = i + 1;
    }
    total
}

proof fn lemma_bits_differing_symmetric(a: Seq<u8>, b: Seq<u8>, n: int)
    ensures
        bits_differing(a, b, n) == bits_differing(b, a, n),
    decreases n,
{
    if n > 0 {
        lemma_bits_differing_symmetric(a, b, n - 1);
        let x = a[n - 1];
        let y = b[n - 1];
        assert(x ^ y == y ^ x) by (bit_vector);
    }
}

proof fn lemma_bits_differing_self(a: Seq<u8>, n: int)
    ensures
        bits_differing(a, a, n) == 0,
    decreases n,
{
    if n > 0 {
        lemma_bits_differing_self(a, n - 1);
        let x = a[n - 1];
        assert(x ^ x == 0) by (bit_vector);
    }
}

/// The distance of two hashes does not depend on their order, and a hash is at
/// distance zero from itself.
pub proof fn lemma_hamming_metric(a: Seq<u8>, b: Seq<u8>)
    ensures
        hamming(a, b) == hamming(b, a),
        hamming(a, a) == 0,
{
    lemma_bits_differing_symmetric(a, b, min_len(a, b));
    lemma_bits_differing_self(a, a.len() as int);
}

/// The longest hash, in bytes, whose bits can be counted in a `u32`.
pub const MAX_HASH_BYTES: usize = 0x1fff_ffff;

/// The hashes of two images, as Base64 text, and their distance.
pub struct ImageComparison {
    pub first_hash: String,
    pub second_hash: String,
    pub distance: u32,
}

/// The Base64 texts of two perceptual hashes and their distance.
pub fn compare_hashes(first: &[u8], second: &[u8]) -> (r: ImageComparison)
    requires
        first@.len() <= MAX_HASH_BYTES,
        second@.len() <= MAX_HASH_BYTES,
    ensures
        r.first_hash@ == base64_encode(first@),
        r.second_hash@ == base64_encode(second@),
        r.distance == hamming(first@, second@),
{
    ImageComparison {
        first_hash: hash_to_base64(first),
        second_hash: hash_to_base64(second),
        distance: hash_distance(first, second),
    }
}

} // verus!
