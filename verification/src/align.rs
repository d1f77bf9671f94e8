//! Rounding addresses up to a boundary.

use vstd::arithmetic::power2::pow2;
use vstd::bits::lemma_u64_low_bits_mask_is_mod;
use vstd::prelude::*;

verus! {

/// The least multiple of `alignment` that is not below `value`.
pub open spec fn round_up(value: int, alignment: int) -> int {
    (value + alignment - 1) / alignment * alignment
}

/// Rounds `value` up to a multiple of the power of two `alignment`.
///
/// With another `alignment` the bits of `alignment - 1` are still cleared from the sum, but the
/// result is no multiple of it.
pub fn align_up(value: u64, alignment: u64) -> (aligned: u64)
    requires
        0 < alignment,
        value + alignment - 1 <= u64::MAX,
    ensures
        aligned == ((value + alignment - 1) as u64) & !((alignment - 1) as u64),
        aligned & ((alignment - 1) as u64) == 0,
        aligned + (((value + alignment - 1) as u64) & ((alignment - 1) as u64)) == value + alignment
            - 1,
        forall|bits: nat|
            alignment == #[trigger] pow2(bits) ==> aligned == round_up(
                value as int,
                alignment as int,
            ),
        forall|bits: nat|
            alignment == #[trigger] pow2(bits) ==> aligned % alignment == 0 && value <= aligned
                < value + alignment,
{
    let sum: u64 = value + (alignment - 1);
    let mask: u64 = alignment - 1;
    let aligned: u64 = sum & !mask;
    proof {
        assert((sum & !mask) & mask == 0) by (bit_vector);
        assert((sum & !mask) + (sum & mask) == sum) by (bit_vector);
        law_round_up_is_the_least_multiple(value as int, alignment as int);
        assert forall|bits: nat| alignment == #[trigger] pow2(bits) implies aligned == round_up(
            value as int,
            alignment as int,
        ) by {
            if bits >= 64 {
                vstd::arithmetic::power2::lemma_pow2_strictly_increases(63, bits);
                vstd::arithmetic::power2::lemma2_to64_rest();
                if bits > 64 {
                    vstd::arithmetic::power2::lemma_pow2_strictly_increases(64, bits);
                }
            }
            lemma_u64_low_bits_mask_is_mod(sum, bits);
            assert(sum & !mask == sum - (sum & mask)) by (bit_vector);
            vstd::arithmetic::div_mod::lemma_fundamental_div_mod(sum as int, alignment as int);
            vstd::arithmetic::mul::lemma_mul_is_commutative(
                sum as int / alignment as int,
                alignment as int,
            );
        }
    }
    aligned
}

/// Rounding up gives a multiple of the alignment, the first one that is not below the value.
pub proof fn law_round_up_is_the_least_multiple(value: int, alignment: int)
    requires
        0 < alignment,
    ensures
        round_up(value, alignment) % alignment == 0,
        value <= round_up(value, alignment) < value + alignment,
{
    let sum = value + alignment - 1;
    vstd::arithmetic::div_mod::lemma_fundamental_div_mod(sum, alignment);
    vstd::arithmetic::mul::lemma_mul_is_commutative(sum / alignment, alignment);
    vstd::arithmetic::div_mod::lemma_mod_multiples_basic(sum / alignment, alignment);
}

} // verus!
