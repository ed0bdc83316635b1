//! Alignment arithmetic for pages and erase blocks.

use vstd::prelude::*;

use crate::{PAGE_SIZE, TRIM_SIZE};

verus! {

/// `off` rounded down to a multiple of `unit`.
pub open spec fn spec_align_down(off: int, unit: int) -> int {
    (off / unit) * unit
}

/// `off` rounded up to a multiple of `unit`.
pub open spec fn spec_align_up(off: int, unit: int) -> int {
    if off % unit == 0 {
        off
    } else {
        (off / unit) * unit + unit
    }
}

proof fn lemma_align_down(off: int, unit: int)
    requires
        0 <= off,
        0 < unit,
    ensures
        spec_align_down(off, unit) % unit == 0,
        spec_align_down(off, unit) <= off,
        off < spec_align_down(off, unit) + unit,
{
    let q = off / unit;
    vstd::arithmetic::div_mod::lemma_fundamental_div_mod(off, unit);
    vstd::arithmetic::div_mod::lemma_mod_bound(off, unit);
    assert((q * unit) % unit == 0) by {
        vstd::arithmetic::div_mod::lemma_mod_multiples_basic(q, unit);
    }
}

/// Between two distinct multiples of `p` lies at least one full unit.
pub proof fn lemma_aligned_step(a: int, c: int, p: int)
    requires
        0 < p,
        0 <= a < c,
        a % p == 0,
        c % p == 0,
    ensures
        a + p <= c,
{
    vstd::arithmetic::div_mod::lemma_fundamental_div_mod(a, p);
    vstd::arithmetic::div_mod::lemma_fundamental_div_mod(c, p);
    let qa = a / p;
    let qc = c / p;
    assert(a + p <= c) by (nonlinear_arith)
        requires
            a == p * qa,
            c == p * qc,
            a < c,
            0 < p,
    ;
}

/// Rounding down lands on the unique multiple of `p` at or below `x`.
pub proof fn lemma_align_down_in_block(a: int, x: int, p: int)
    requires
        0 < p,
        0 <= a <= x < a + p,
        a % p == 0,
    ensures
        (x / p) * p == a,
{
    vstd::arithmetic::div_mod::lemma_fundamental_div_mod(a, p);
    let q = a / p;
    assert(x == q * p + (x - a)) by {
        vstd::arithmetic::mul::lemma_mul_is_commutative(p, q);
    }
    vstd::arithmetic::div_mod::lemma_fundamental_div_mod_converse(x, p, q, x - a);
    assert((x / p) * p == a) by {
        vstd::arithmetic::mul::lemma_mul_is_commutative(p, q);
    }
}

/// A multiple of the erase-block size is also a multiple of the page
/// size.
pub proof fn lemma_trim_aligned_is_page_aligned(x: int)
    requires
        0 <= x,
        x % (TRIM_SIZE as int) == 0,
    ensures
        x % (PAGE_SIZE as int) == 0,
{
    vstd::arithmetic::div_mod::lemma_fundamental_div_mod(x, TRIM_SIZE as int);
    let q = x / (TRIM_SIZE as int);
    assert(x == q * (TRIM_SIZE as int) + 0);
    assert(q * (TRIM_SIZE as int) == (q * 64) * (PAGE_SIZE as int)) by (nonlinear_arith);
    assert((q * 64) * (PAGE_SIZE as int) % (PAGE_SIZE as int) == 0) by {
        vstd::arithmetic::div_mod::lemma_mod_multiples_basic(q * 64, PAGE_SIZE as int);
    }
}

/// A multiple of a `p`-aligned quantity is itself `p`-aligned.
pub proof fn lemma_mul_multiple_aligned(i: int, size: int, p: int)
    requires
        0 <= i,
        0 < p,
        size % p == 0,
    ensures
        (i * size) % p == 0,
{
    vstd::arithmetic::div_mod::lemma_fundamental_div_mod(size, p);
    let m = size / p;
    assert(i * size == (i * m) * p) by (nonlinear_arith)
        requires
            size == p * m,
    ;
    vstd::arithmetic::div_mod::lemma_mod_multiples_basic(i * m, p);
}

/// Rounds `off` down to a page boundary.
pub fn align(off: u64) -> (r: u64)
    ensures
        r == spec_align_down(off as int, PAGE_SIZE as int),
        r % PAGE_SIZE == 0,
        r <= off,
        off < r + PAGE_SIZE,
{
    proof {
        lemma_align_down(off as int, PAGE_SIZE as int);
    }
    (off / PAGE_SIZE) * PAGE_SIZE
}

/// Rounds `off` up to a page boundary.
pub fn align_up(off: u64) -> (r: u64)
    requires
        off + PAGE_SIZE <= u64::MAX,
    ensures
        r == spec_align_up(off as int, PAGE_SIZE as int),
        r % PAGE_SIZE == 0,
        off <= r,
        r < off + PAGE_SIZE,
{
    proof {
        lemma_align_down(off as int, PAGE_SIZE as int);
    }
    let down: u64 = (off / PAGE_SIZE) * PAGE_SIZE;
    if down != off {
        down + PAGE_SIZE
    } else {
        down
    }
}

/// Rounds `off` down to an erase-block boundary.
pub fn block_align(off: u64) -> (r: u64)
    ensures
        r == spec_align_down(off as int, TRIM_SIZE as int),
        r % TRIM_SIZE == 0,
        r <= off,
        off < r + TRIM_SIZE,
{
    proof {
        lemma_align_down(off as int, TRIM_SIZE as int);
    }
    (off / TRIM_SIZE) * TRIM_SIZE
}

/// Rounds `off` up to an erase-block boundary.
pub fn block_align_up(off: u64) -> (r: u64)
    requires
        off + TRIM_SIZE <= u64::MAX,
    ensures
        r == spec_align_up(off as int, TRIM_SIZE as int),
        r % TRIM_SIZE == 0,
        off <= r,
        r < off + TRIM_SIZE,
{
    proof {
        lemma_align_down(off as int, TRIM_SIZE as int);
    }
    let down: u64 = (off / TRIM_SIZE) * TRIM_SIZE;
    if down != off {
        down + TRIM_SIZE
    } else {
        down
    }
}

} // verus!
