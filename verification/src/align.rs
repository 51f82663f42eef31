//! Address-alignment utility: rounds an address up to a power-of-two
//! alignment boundary. Every allocation strategy and the heap activation
//! plan center their address arithmetic here.

use vstd::prelude::*;
use vstd::arithmetic::power2::{
    pow2, lemma_pow2_adds, lemma_pow2_pos, lemma_pow2_strictly_increases,
};
use vstd::arithmetic::div_mod::{
    lemma_add_mod_noop, lemma_fundamental_div_mod, lemma_mod_division_less_than_divisor,
    lemma_mod_multiples_basic, lemma_small_mod,
};
use vstd::arithmetic::mul::{
    lemma_mul_is_associative, lemma_mul_is_commutative, lemma_mul_is_distributive_add,
};
use vstd::bits::{low_bits_mask, lemma_usize_low_bits_mask_is_mod, lemma_usize_pow2_no_overflow};

verus! {

/// A valid allocation alignment: a power of two that fits in an address.
pub open spec fn is_power_of_two(n: int) -> bool {
    exists|k: nat| k < usize::BITS && n == pow2(k)
}

/// The smallest multiple of `align` that is greater than or equal to `addr`.
pub open spec fn align_up_spec(addr: int, align: int) -> int
    recommends
        addr >= 0,
        align >= 1,
{
    if addr % align == 0 {
        addr
    } else {
        addr + align - addr % align
    }
}

/// A power of two is at least one.
pub proof fn lemma_power_of_two_pos(n: int)
    requires
        is_power_of_two(n),
    ensures
        n >= 1,
{
    let k = choose|k: nat| k < usize::BITS && n == pow2(k);
    lemma_pow2_pos(k);
}

/// The smaller of two powers of two divides the larger.
pub proof fn lemma_power_of_two_divides(a: int, b: int)
    requires
        is_power_of_two(a),
        is_power_of_two(b),
        a <= b,
    ensures
        b % a == 0,
{
    let i = choose|i: nat| i < usize::BITS && a == pow2(i);
    let j = choose|j: nat| j < usize::BITS && b == pow2(j);
    lemma_pow2_pos(i);
    lemma_pow2_pos(j);
    if j < i {
        lemma_pow2_strictly_increases(j, i);
        assert(false);
    }
    lemma_pow2_adds(i, (j - i) as nat);
    lemma_mul_is_commutative(pow2(i) as int, pow2((j - i) as nat) as int);
    lemma_mod_multiples_basic(pow2((j - i) as nat) as int, a);
}

/// Divisibility is transitive: if `a` divides `x` and `b` divides `a`,
/// then `b` divides `x`.
pub proof fn lemma_mod_zero_trans(x: int, a: int, b: int)
    requires
        a >= 1,
        b >= 1,
        x % a == 0,
        a % b == 0,
    ensures
        x % b == 0,
{
    lemma_fundamental_div_mod(x, a);
    lemma_fundamental_div_mod(a, b);
    assert(x == (b * (a / b)) * (x / a));
    lemma_mul_is_associative(b, a / b, x / a);
    lemma_mod_multiples_basic((a / b) * (x / a), b);
}

/// The sum of two multiples of `m` is a multiple of `m`.
pub proof fn lemma_mod_zero_add(x: int, y: int, m: int)
    requires
        m >= 1,
        x % m == 0,
        y % m == 0,
    ensures
        (x + y) % m == 0,
{
    lemma_add_mod_noop(x, y, m);
    lemma_small_mod(0nat, m as nat);
}

/// `align_up_spec` yields a multiple of the alignment, at or above the
/// address, and less than one full alignment past it.
pub proof fn lemma_align_up_properties(addr: int, align: int)
    requires
        addr >= 0,
        align >= 1,
    ensures
        align_up_spec(addr, align) % align == 0,
        addr <= align_up_spec(addr, align) < addr + align,
{
    lemma_fundamental_div_mod(addr, align);
    lemma_mod_division_less_than_divisor(addr, align);
    if addr % align != 0 {
        let q = addr / align;
        assert(align_up_spec(addr, align) == align * q + align);
        lemma_mul_is_distributive_add(align, q, 1);
        assert(align * (q + 1) == align * q + align * 1);
        lemma_mul_is_commutative(align, q + 1);
        lemma_mod_multiples_basic(q + 1, align);
    }
}

/// Relates the bit-mask form of rounding up to `align_up_spec`, for a
/// power-of-two alignment.
proof fn lemma_align_up_mask(addr: usize, align: usize)
    requires
        is_power_of_two(align as int),
        addr + align - 1 <= usize::MAX,
    ensures
        (((addr + align - 1) as usize) & !((align - 1) as usize))
            == align_up_spec(addr as int, align as int),
{
    let k = choose|k: nat| k < usize::BITS && align as int == pow2(k);
    lemma_pow2_pos(k);
    lemma_usize_pow2_no_overflow(k);
    let t: usize = (addr + align - 1) as usize;
    let m: usize = (align - 1) as usize;
    assert(m == low_bits_mask(k) as usize);
    assert(t & m <= t && t & !m == t - (t & m)) by (bit_vector);
    lemma_usize_low_bits_mask_is_mod(t, k);
    assert(t & m == t % align);

    let a = addr as int;
    let al = align as int;
    let ti = a + al - 1;
    lemma_add_mod_noop(a, al - 1, al);
    lemma_small_mod((al - 1) as nat, al as nat);
    lemma_mod_division_less_than_divisor(a, al);
    if a % al == 0 {
        // ti % al == al - 1, so the mask clears exactly the padding.
        assert(ti % al == (al - 1) % al) by {
            lemma_small_mod(0nat, al as nat);
        }
        assert(t & !m == a);
    } else {
        let rem = a % al;
        // ti % al == (rem + al - 1) % al == rem - 1, one alignment below 2*al.
        vstd::arithmetic::div_mod::lemma_mod_add_multiples_vanish(rem - 1, al);
        lemma_small_mod((rem - 1) as nat, al as nat);
        assert(ti % al == rem - 1);
        assert(t & !m == a + al - rem);
    }
}

/// Align the given address `addr` upwards to alignment `align`.
///
/// `align` must be a power of two: callers guarantee it, and no run-time
/// check is paid for it.
pub fn align_up(addr: usize, align: usize) -> (r: usize)
    requires
        is_power_of_two(align as int),
        addr + align - 1 <= usize::MAX,
    ensures
        r == align_up_spec(addr as int, align as int),
        r % align == 0,
        addr <= r < addr + align,
{
    proof {
        lemma_power_of_two_pos(align as int);
        lemma_align_up_mask(addr, align);
        lemma_align_up_properties(addr as int, align as int);
    }
    (addr + (align - 1)) & !(align - 1)
}

} // verus!
