use vstd::arithmetic::div_mod::lemma_fundamental_div_mod_converse;
use vstd::arithmetic::power2::{lemma2_to64, lemma_pow2_pos, lemma_pow2_unfold, pow2};
use vstd::prelude::*;

verus! {

/// Whether bit `k` (counted from the least significant bit, which is bit 0) is set in the
/// two's-complement representation of `data`.
pub open spec fn bit_is_set(data: int, k: nat) -> bool {
    (data / (pow2(k) as int)) % 2 == 1
}

/// The value that `data` stands for when it is read as a two's-complement number
/// of `maxbit` bits: where bit `maxbit - 1` is set, `data` less `2^maxbit`; `data` otherwise.
pub open spec fn sign_extend(data: int, maxbit: int) -> int {
    if bit_is_set(data, (maxbit - 1) as nat) {
        data - pow2(maxbit as nat)
    } else {
        data
    }
}

proof fn lemma_shl_step(k: u32)
    by (bit_vector)
    requires
        k + 2 < usize::BITS,
    ensures
        (1isize << ((k + 1) as u32)) == 2 * (1isize << k),
        (1isize << 0u32) == 1,
{
}

proof fn lemma_one_shl_is_pow2(k: u32)
    requires
        k + 1 < usize::BITS,
    ensures
        (1isize << k) == pow2(k as nat),
    decreases k,
{
    if k == 0 {
        lemma_shl_step(0);
        lemma2_to64();
    } else {
        lemma_one_shl_is_pow2((k - 1) as u32);
        lemma_shl_step((k - 1) as u32);
        lemma_pow2_unfold(k as nat);
    }
}

proof fn lemma_split_at_bit(d: isize, k: u32)
    by (bit_vector)
    requires
        k + 1 < usize::BITS,
    ensures
        d == (d >> k) * (1isize << k) + (d & (((1isize << k) - 1) as isize)),
        0 <= (d & (((1isize << k) - 1) as isize)) < (1isize << k),
        (d & (1isize << k)) != 0 <==> ((d >> k) & 1) == 1,
        (d >> k) == ((d >> k) >> 1u32) * 2 + ((d >> k) & 1),
        0 <= ((d >> k) & 1) <= 1,
{
}

/// Testing bit `k` with a mask is testing it by division.
proof fn lemma_mask_test_is_bit(d: isize, k: u32)
    requires
        k + 1 < usize::BITS,
    ensures
        ((d & (1isize << k)) != 0) == bit_is_set(d as int, k as nat),
{
    let p = 1isize << k;
    let q = d >> k;
    let r = d & ((p - 1) as isize);
    lemma_split_at_bit(d, k);
    lemma_one_shl_is_pow2(k);
    lemma_pow2_pos(k as nat);
    assert(d as int == (p as int) * (q as int) + (r as int)) by (nonlinear_arith)
        requires
            d == q * p + r,
    ;
    lemma_fundamental_div_mod_converse(d as int, p as int, q as int, r as int);
    let h = q >> 1u32;
    let b = q & 1;
    lemma_fundamental_div_mod_converse(q as int, 2, h as int, b as int);
}

/// Whether a number counts as true, as every number but zero does.
fn c_cond(cond: isize) -> (r: bool)
    ensures
        r == (cond != 0),
{
    cond != 0
}

/// Reads `data` as a two's-complement number of `maxbit` bits.
///
/// The width must leave room for `2^maxbit` in an `isize`, and the result must fit.
pub fn bit_convert(data: isize, maxbit: isize) -> (r: isize)
    requires
        1 <= maxbit < usize::BITS - 1,
        isize::MIN <= sign_extend(data as int, maxbit as int),
    ensures
        r == sign_extend(data as int, maxbit as int),
{
    let mut d = data;
    let high: u32 = (maxbit - 1) as u32;
    let width: u32 = maxbit as u32;
    proof {
        lemma_mask_test_is_bit(d, high);
        lemma_one_shl_is_pow2(width);
    }
    if c_cond(d & (1isize << high)) {
        d -= 1isize << width;
    }
    d
}

/// On a value that fits in `maxbit` bits, sign extension maps the upper half of the
/// range onto the negative numbers: the result lies in `[-2^(maxbit-1), 2^(maxbit-1))`
/// and differs from `data` by `2^maxbit` exactly when `data >= 2^(maxbit-1)`.
pub proof fn lemma_sign_extend_in_range(data: int, maxbit: int)
    requires
        1 <= maxbit,
        0 <= data < pow2(maxbit as nat),
    ensures
        sign_extend(data, maxbit) == if data >= pow2((maxbit - 1) as nat) {
            data - pow2(maxbit as nat)
        } else {
            data
        },
        -pow2((maxbit - 1) as nat) <= sign_extend(data, maxbit) < pow2((maxbit - 1) as nat),
{
    let half = pow2((maxbit - 1) as nat) as int;
    lemma_pow2_pos((maxbit - 1) as nat);
    lemma_pow2_unfold(maxbit as nat);
    if data >= half {
        lemma_fundamental_div_mod_converse(data, half, 1, data - half);
    } else {
        lemma_fundamental_div_mod_converse(data, half, 0, data);
    }
}

} // verus!
