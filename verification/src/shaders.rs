//! The integer parts of the kernels: hashing of indices, and the scatter
//! plan of the particle-to-grid transfer.
use vstd::prelude::*;

pub mod bindless;

verus! {

/// `a * b` reduced modulo 2^32.
pub open spec fn spec_wrapping_product(a: u32, b: u32) -> u32 {
    ((a as int * b as int) % 0x1_0000_0000) as u32
}

/// Multiplies `*a` by `b`, wrapping around on overflow as the device does.
pub fn mult_update(a: &mut u32, b: u32)
    ensures
        *final(a) == spec_wrapping_product(*old(a), b),
{
    let product: u32 = a.wrapping_mul(b);
    *a = product;
}

/// Wang's integer hash of 32 bits.
pub open spec fn spec_wang32(x0: u32) -> u32 {
    let x1 = x0.wrapping_add(!x0 << 15);
    let x2 = x1 ^ (x1 >> 10);
    let x3 = x2.wrapping_add(x2 << 3);
    let x4 = x3 ^ (x3 >> 6);
    let x5 = x4.wrapping_add(!x4 << 11);
    x5 ^ (x5 >> 16)
}

/// Wang's integer hash of 32 bits.
pub fn wang32(x: u32) -> (r: u32)
    ensures
        r == spec_wang32(x),
{
    let mut x: u32 = x;
    x = x.wrapping_add(!x << 15);
    x ^= x >> 10;
    x = x.wrapping_add(x << 3);
    x ^= x >> 6;
    x = x.wrapping_add(!x << 11);
    x ^ (x >> 16)
}

/// The seed of `hash_many`.
pub const HASH_SEED: u32 = 0x9E37_79B9;

/// The bits of `x` moved up by `n` places, those that leave at the top
/// coming back in at the bottom.
pub open spec fn spec_rotate_left(x: u32, n: u32) -> u32 {
    (x << (n % 32)) | (x >> ((32 - n % 32) % 32))
}

/// `u32::rotate_left` of the standard library: the bits of `x` are shifted
/// left by `n` places, and the bits shifted out at the top are put back at
/// the bottom.
pub assume_specification[ u32::rotate_left ](x: u32, n: u32) -> (r: u32)
    ensures
        r == spec_rotate_left(x, n),
;

/// The accumulator of `hash_many` after one more word.
pub open spec fn spec_hash_mix(acc: u32, word: u32) -> u32 {
    let y = word.wrapping_mul(0x9E37_79B9) ^ (word >> 16);
    spec_rotate_left(acc ^ y.wrapping_add(0x85EB_CA6B), 13)
}

/// The accumulator of `hash_many` after the words of `xs`.
pub open spec fn spec_hash_fold(xs: Seq<u32>) -> u32
    decreases xs.len(),
{
    if xs.len() == 0 {
        HASH_SEED
    } else {
        spec_hash_mix(spec_hash_fold(xs.drop_last()), xs.last())
    }
}

/// Hash of several words: each word is mixed into an accumulator in turn,
/// and the accumulator is hashed at the end.
pub fn hash_many<const N: usize>(xs: [u32; N]) -> (r: u32)
    ensures
        r == spec_wang32(spec_hash_fold(xs@)),
{
    let mut acc: u32 = HASH_SEED;
    let mut i: usize = 0;
    assert(xs@.take(0) =~= Seq::<u32>::empty());
    while i < N
        invariant
            i <= N,
            xs@.len() == N,
            acc == spec_hash_fold(xs@.take(i as int)),
        decreases N - i,
    {
        let y: u32 = xs[i].wrapping_mul(0x9E37_79B9) ^ (xs[i] >> 16);
        acc ^= y.wrapping_add(0x85EB_CA6B);
        acc = acc.rotate_left(13);
        proof {
            let next = xs@.take(i + 1);
            assert(next.drop_last() =~= xs@.take(i as int));
            assert(next.last() == xs@[i as int]);
        }
        i = i + 1;
    }
    assert(xs@.take(N as int) =~= xs@);
    wang32(acc)
}

} // verus!
