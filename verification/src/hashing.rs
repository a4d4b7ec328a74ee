//! Feeding integers to a `DefaultHasher` the way `Hasher::write_u64` and its
//! siblings do: each integer is written as its bytes in the target's native
//! order, in one `write` call.

use std::collections::hash_map::DefaultHasher;
use std::hash::Hasher;
use vstd::prelude::*;

verus! {

/// The `n` low bytes of `x`, least significant first.
pub open spec fn le_bytes(x: nat, n: nat) -> Seq<u8>
    decreases n,
{
    if n == 0 {
        seq![]
    } else {
        seq![(x % 256) as u8] + le_bytes(x / 256, (n - 1) as nat)
    }
}

/// The `n` low bytes of `x`, least significant first.
pub fn le_bytes_of(x: u64, n: usize) -> (r: Vec<u8>)
    ensures
        r@ == le_bytes(x as nat, n as nat),
{
    let mut r: Vec<u8> = Vec::new();
    let mut v: u64 = x;
    let mut i: usize = 0;
    while i < n
        invariant
            i <= n,
            r@ + le_bytes(v as nat, (n - i) as nat) == le_bytes(x as nat, n as nat),
        decreases n - i,
    {
        let ghost k = (n - i) as nat;
        assert(le_bytes(v as nat, k) == seq![(v % 256) as u8] + le_bytes(
            (v / 256) as nat,
            (k - 1) as nat,
        ));
        let ghost before = r@;
        r.push((v % 256) as u8);
        assert(r@ + le_bytes((v / 256) as nat, (k - 1) as nat) =~= before + le_bytes(v as nat, k));
        v = v / 256;
        i = i + 1;
    }
    assert(r@ + le_bytes(v as nat, 0) =~= r@);
    r
}

/// The bytes in the given order: as they are where `little`, reversed otherwise.
pub open spec fn in_order(b: Seq<u8>, little: bool) -> Seq<u8> {
    if little {
        b
    } else {
        b.reverse()
    }
}

/// The `n` low bytes of `x` in native order: least significant first on a
/// little-endian target (`little`), most significant first otherwise.
pub open spec fn ne_bytes(x: nat, n: nat, little: bool) -> Seq<u8> {
    in_order(le_bytes(x, n), little)
}

/// Calls `u64::to_ne_bytes`. Its documentation gives the bytes in the target's
/// native order, which is little- or big-endian; which of the two is not stated.
#[verifier::external_body]
fn u64_to_ne_bytes(x: u64) -> (r: [u8; 8])
    ensures
        r@ == le_bytes(x as nat, 8) || r@ == le_bytes(x as nat, 8).reverse(),
{
    x.to_ne_bytes()
}

/// Whether the target stores integers least significant byte first: the first
/// native byte of 1 is 1.
pub fn native_little_endian() -> (r: bool) {
    let probe = u64_to_ne_bytes(1);
    probe[0] == 1
}

/// The bytes in the given order.
pub fn ordered(b: Vec<u8>, little: bool) -> (r: Vec<u8>)
    ensures
        r@ == in_order(b@, little),
{
    if little {
        return b;
    }
    let mut r: Vec<u8> = Vec::new();
    let mut i: usize = b.len();
    while i > 0
        invariant
            i <= b@.len(),
            r@ == b@.subrange(i as int, b@.len() as int).reverse(),
        decreases i,
    {
        let ghost before = r@;
        r.push(b[i - 1]);
        assert(r@ =~= b@.subrange(i - 1, b@.len() as int).reverse());
        i = i - 1;
    }
    assert(b@.subrange(0, b@.len() as int) =~= b@);
    r
}

/// Writes the `n` low bytes of `x` in native order (`little` tells which), as one
/// write: what `Hasher::write_u64` and its siblings write.
pub fn write_ne(state: &mut DefaultHasher, x: u64, n: usize, little: bool)
    ensures
        final(state)@ == old(state)@.push(ne_bytes(x as nat, n as nat, little)),
{
    let bytes = ordered(le_bytes_of(x, n), little);
    state.write(bytes.as_slice());
}

} // verus!
