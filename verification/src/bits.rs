//! The two 32-bit halves of a 64-bit value, as the register file exposes them.
use vstd::prelude::*;

verus! {

/// The lower half of `value`.
pub open spec fn low_half(value: u64) -> u32 {
    (value % 0x1_0000_0000) as u32
}

/// The upper half of `value`.
pub open spec fn high_half(value: u64) -> u32 {
    (value / 0x1_0000_0000) as u32
}

/// The 64-bit value with the given halves.
pub open spec fn join_halves(high: u32, low: u32) -> u64 {
    (high * 0x1_0000_0000 + low) as u64
}

/// `n` is a power of two.
pub open spec fn is_power_of_two(n: int) -> bool {
    exists|k: nat| n == #[trigger] vstd::arithmetic::power2::pow2(k)
}

pub fn low_word(value: u64) -> (low: u32)
    ensures
        low == low_half(value),
{
    assert(value as u32 == (value % 0x1_0000_0000) as u32) by (bit_vector);
    value as u32
}

pub fn high_word(value: u64) -> (high: u32)
    ensures
        high == high_half(value),
{
    assert((value >> 32) as u32 == (value / 0x1_0000_0000) as u32) by (bit_vector);
    (value >> 32) as u32
}

/// Replaces the lower half of `value`.
pub fn with_low_word(value: u64, low: u32) -> (joined: u64)
    ensures
        joined == join_halves(high_half(value), low),
{
    assert(((value & !0xFFFF_FFFFu64) | (low as u64)) == (((value / 0x1_0000_0000) as u32)
        * 0x1_0000_0000 + low) as u64) by (bit_vector);
    (value & !0xFFFF_FFFF) | (low as u64)
}

/// Replaces the upper half of `value`.
pub fn with_high_word(value: u64, high: u32) -> (joined: u64)
    ensures
        joined == join_halves(high, low_half(value)),
{
    assert(((value & 0xFFFF_FFFFu64) | ((high as u64) << 32)) == (high * 0x1_0000_0000 + ((value
        % 0x1_0000_0000) as u32)) as u64) by (bit_vector);
    (value & 0xFFFF_FFFF) | ((high as u64) << 32)
}

/// Joining two halves and taking the value apart again gives the same halves,
/// and every value is made of its halves.
pub proof fn law_halves_join(high: u32, low: u32, value: u64)
    ensures
        low_half(join_halves(high, low)) == low,
        high_half(join_halves(high, low)) == high,
        join_halves(high_half(value), low_half(value)) == value,
{
}

/// The upper half counts in units of 2 to the power of 32, and the lower half
/// what is left: there is one way only to split a value so.
pub proof fn law_halves_are_places(value: u64, high: u32, low: u32)
    ensures
        value == high_half(value) * 0x1_0000_0000 + low_half(value),
        join_halves(high, low) == high * 0x1_0000_0000 + low,
        value == high * 0x1_0000_0000 + low ==> high == high_half(value) && low == low_half(value),
{
}

/// The powers of two among the 16-bit numbers are those with a single bit.
pub proof fn law_powers_of_two_have_one_bit(size: u16)
    ensures
        is_power_of_two(size as int) <==> size != 0 && size & ((size - 1) as u16) == 0,
        is_power_of_two(size as int) && size < 0x8000 ==> is_power_of_two(2 * size),
        is_power_of_two(1),
{
    vstd::arithmetic::power2::lemma2_to64();
    assert(1 == vstd::arithmetic::power2::pow2(0));
    if size == 0 {
        assert forall|k: nat| 0 != #[trigger] vstd::arithmetic::power2::pow2(k) by {
            vstd::arithmetic::power2::lemma_pow2_pos(k);
        }
    } else {
        lemma_single_bit(size, (size - 1) as u16);
    }
    if is_power_of_two(size as int) {
        let k = choose|k: nat| size == #[trigger] vstd::arithmetic::power2::pow2(k);
        vstd::arithmetic::power2::lemma_pow2_unfold(k + 1);
        assert(2 * size == vstd::arithmetic::power2::pow2(k + 1));
    }
}

/// Whether `size` is a power of two.
pub fn power_of_two(size: u16) -> (yes: bool)
    ensures
        yes == is_power_of_two(size as int),
{
    if size == 0 {
        proof {
            assert forall|k: nat| 0 != #[trigger] vstd::arithmetic::power2::pow2(k) by {
                vstd::arithmetic::power2::lemma_pow2_pos(k);
            }
        }
        return false;
    }
    proof {
        lemma_single_bit(size, (size - 1) as u16);
    }
    (size & (size - 1)) == 0
}

proof fn lemma_single_bit(size: u16, below: u16)
    requires
        below + 1 == size,
    ensures
        ((size & below) == 0) == is_power_of_two(size as int),
{
    vstd::arithmetic::power2::lemma2_to64();
    assert(((size & below) == 0) == (size == 1 || size == 2 || size == 4 || size == 8 || size == 16
        || size == 32 || size == 64 || size == 128 || size == 256 || size == 512 || size == 1024
        || size == 2048 || size == 4096 || size == 8192 || size == 16384 || size == 32768))
        by (bit_vector)
        requires
            below + 1 == size,
    ;
    if is_power_of_two(size as int) {
        let k = choose|k: nat| size == #[trigger] vstd::arithmetic::power2::pow2(k);
        if k >= 16 {
            if k > 16 {
                vstd::arithmetic::power2::lemma_pow2_strictly_increases(16, k);
            }
            assert(false);
        }
    }
}

} // verus!
