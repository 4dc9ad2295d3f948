//! Arithmetic of aligned blocks: the network works on blocks whose length
//! is a power of two and whose start is a multiple of their length.
use vstd::prelude::*;
use vstd::arithmetic::div_mod::{
    lemma_fundamental_div_mod, lemma_fundamental_div_mod_converse, lemma_mod_pos_bound,
};
use crate::kernel::spec_partner;

verus! {

/// Whether `x` is the start of a block of length `len`.
pub open spec fn spec_aligned(x: int, len: int) -> bool {
    x % len == 0
}

/// Start of the block of length `len` that holds `i`.
pub open spec fn spec_block_start(i: int, len: int) -> int {
    i - i % len
}

/// The block of `i` starts at a multiple of `len`, at or below `i`, and
/// reaches beyond `i`.
pub proof fn lemma_block_start(i: int, len: int)
    requires
        i >= 0,
        len > 0,
    ensures
        0 <= spec_block_start(i, len) <= i < spec_block_start(i, len) + len,
        spec_aligned(spec_block_start(i, len), len),
        spec_block_start(i, len) == len * (i / len),
{
    lemma_fundamental_div_mod(i, len);
    lemma_mod_pos_bound(i, len);
    let q = i / len;
    assert(q >= 0) by (nonlinear_arith)
        requires
            i == len * q + i % len,
            0 <= i % len < len,
            i >= 0,
            len > 0,
    ;
    assert(len * q == q * len + 0) by (nonlinear_arith);
    lemma_fundamental_div_mod_converse(len * q, len, q, 0);
}

/// Inside the block that starts at `lo`, an index is its offset from `lo`
/// modulo the length, and the block is the one that holds it.
pub proof fn lemma_aligned_offset(lo: int, len: int, r: int)
    requires
        len > 0,
        lo >= 0,
        spec_aligned(lo, len),
        0 <= r < len,
    ensures
        (lo + r) % len == r,
        (lo + r) / len == lo / len,
        spec_block_start(lo + r, len) == lo,
{
    lemma_fundamental_div_mod(lo, len);
    let q = lo / len;
    assert(lo + r == q * len + r) by (nonlinear_arith)
        requires
            lo == len * q + 0,
    ;
    lemma_fundamental_div_mod_converse(lo + r, len, q, r);
}

/// Two block starts, one below the other, lie at least one block apart.
pub proof fn lemma_aligned_gap(x: int, y: int, len: int)
    requires
        len > 0,
        0 <= x < y,
        spec_aligned(x, len),
        spec_aligned(y, len),
    ensures
        x + len <= y,
{
    lemma_fundamental_div_mod(x, len);
    lemma_fundamental_div_mod(y, len);
    let qx = x / len;
    let qy = y / len;
    assert(qx < qy ==> x + len <= y) by (nonlinear_arith)
        requires
            x == len * qx,
            y == len * qy,
            len > 0,
    ;
    assert(qx >= qy ==> x >= y) by (nonlinear_arith)
        requires
            x == len * qx,
            y == len * qy,
            len > 0,
    ;
}

/// The start of a block is also the start of a block of any length that
/// divides its own.
pub proof fn lemma_aligned_finer(x: int, len: int, m: int)
    requires
        len > 0,
        m > 0,
        x >= 0,
        spec_aligned(x, len * m),
    ensures
        spec_aligned(x, len),
        spec_aligned(x + len * m, len),
        spec_aligned(x + len, len),
{
    assert(len * m > 0) by (nonlinear_arith)
        requires
            len > 0,
            m > 0,
    ;
    lemma_fundamental_div_mod(x, len * m);
    let q = x / (len * m);
    assert(x == (q * m) * len + 0 && x + len * m == (q * m + m) * len + 0 && x + len == (q * m
        + 1) * len + 0) by (nonlinear_arith)
        requires
            x == (len * m) * q + 0,
    ;
    lemma_fundamental_div_mod_converse(x, len, q * m, 0);
    lemma_fundamental_div_mod_converse(x + len * m, len, q * m + m, 0);
    lemma_fundamental_div_mod_converse(x + len, len, q * m + 1, 0);
}

/// In a block of length `2 * d`, the indices of the lower half are paired
/// with those `d` above them, the indices of the upper half with those `d`
/// below.
pub proof fn lemma_partner_in_block(lo: int, d: int, r: int)
    requires
        d > 0,
        lo >= 0,
        spec_aligned(lo, 2 * d),
        0 <= r < 2 * d,
    ensures
        spec_partner(lo + r, d) == (if r < d {
            lo + r + d
        } else {
            lo + r - d
        }),
{
    lemma_fundamental_div_mod(lo, 2 * d);
    let q = lo / (2 * d);
    if r < d {
        assert(lo + r == (2 * q) * d + r) by (nonlinear_arith)
            requires
                lo == (2 * d) * q + 0,
        ;
        lemma_fundamental_div_mod_converse(lo + r, d, 2 * q, r);
    } else {
        assert(lo + r == (2 * q + 1) * d + (r - d)) by (nonlinear_arith)
            requires
                lo == (2 * d) * q + 0,
        ;
        lemma_fundamental_div_mod_converse(lo + r, d, 2 * q + 1, r - d);
    }
}

/// Every index of a block has the quotient of the block's start by the
/// block's length.
pub proof fn lemma_block_quotient(lo: int, len: int, i: int)
    requires
        len > 0,
        lo >= 0,
        spec_aligned(lo, len),
        lo <= i < lo + len,
    ensures
        i / len == lo / len,
{
    lemma_aligned_offset(lo, len, i - lo);
}

} // verus!
