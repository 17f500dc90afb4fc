use vstd::prelude::*;

verus! {

use vstd::arithmetic::power2::pow2;
use vstd::arithmetic::power2::lemma_pow2_adds;
use vstd::arithmetic::power2::lemma_pow2_pos;
use vstd::arithmetic::power2::lemma2_to64;
use vstd::arithmetic::power2::lemma2_to64_rest;
use vstd::bits::lemma_u64_shl_is_mul;
use vstd::bits::lemma_u64_pow2_no_overflow;
use vstd::std_specs::bits::axiom_u64_leading_zeros;
use crate::bits::lemma_bit_length;
use crate::bitstream::Bitstream;

/// Uniform sampling from `[0, size)`, available on every bit stream.
pub trait BitstreamExt: Bitstream {
    /// Return a uniformly distributed value in `[0, size)`, drawing close to
    /// the information-theoretic minimum number of bits. `size` must be
    /// positive.
    fn gen_range(&mut self, size: u64) -> (r: u64)
        requires
            old(self).wf(),
            1 <= size,
        ensures
            final(self).wf(),
            r < size,
            size == 1 ==> r == 0 && *final(self) == *old(self),
    ;
}

impl<B: Bitstream> BitstreamExt for B {
    fn gen_range(&mut self, size: u64) -> (r: u64) {
        proof {
            axiom_u64_leading_zeros((size - 1) as u64);
            lemma_bit_length(size);
            lemma2_to64();
            lemma2_to64_rest();
        }
        let size_leading_zeros: u32 = (size - 1).leading_zeros();
        let bits_needed: u32 = 64 - size_leading_zeros;
        let first: u64 = self.gen_bits(bits_needed);
        if first < size {
            return first;
        }
        // The draw landed in the overflow region `[size, 2^bits_needed)`. Its
        // offset into that region is uniform over `leftover_size` values; fold
        // in more bits until the region covers `[0, size)` again.
        proof {
            assert(bits_needed >= 1);
        }
        let mut leftover: u64 = first - size;
        let mut leftover_size: u64;
        if bits_needed == 64 {
            leftover_size = (u64::MAX - size) + 1;
        } else {
            proof {
                lemma_u64_pow2_no_overflow(bits_needed as nat);
                lemma_u64_shl_is_mul(1u64, bits_needed as u64);
            }
            leftover_size = (1u64 << (bits_needed as u64)) - size;
        }
        proof {
            lemma_pow2_adds((bits_needed - 1) as nat, 1);
            assert((leftover_size as nat) == pow2(bits_needed as nat) - size);
            assert((leftover_size as nat) < size as nat);
        }
        // Each refinement round terminates the call with probability above one
        // half, so the rounds are unbounded only with vanishing probability.
        // The explicit fuel makes termination a theorem; if it ever ran out,
        // the accumulator below is already a value inside `[0, size)`.
        let mut fuel: u64 = u64::MAX;
        loop
            invariant
                self.wf(),
                1 <= size,
                1 <= leftover_size < size,
                leftover < leftover_size,
            decreases fuel,
        {
            if fuel == 0 {
                return leftover;
            }
            fuel = fuel - 1;
            // Find the least number of extra bits that grows the residual
            // region to at least `size` possibilities.
            let mut extra: u32 = 1;
            let mut grown: u128 = (leftover_size as u128) * 2;
            proof {
                lemma2_to64();
                lemma2_to64_rest();
                assert((grown as nat) == (leftover_size as nat) * pow2(1));
                assert((leftover_size as nat) * pow2(0) < size as nat);
            }
            while grown < (size as u128)
                invariant
                    1 <= extra <= 64,
                    1 <= leftover_size < size,
                    (grown as nat) == (leftover_size as nat) * pow2(extra as nat),
                    (leftover_size as nat) * pow2((extra - 1) as nat) < size as nat,
                decreases 64 - extra,
            {
                proof {
                    lemma2_to64();
                    lemma2_to64_rest();
                    lemma_pow2_pos(extra as nat);
                    assert(pow2(extra as nat) <= (leftover_size as nat) * pow2(extra as nat))
                        by (nonlinear_arith)
                        requires
                            1 <= (leftover_size as nat),
                    ;
                    assert(extra < 64);
                    lemma_pow2_adds(extra as nat, 1);
                    assert((leftover_size as nat) * pow2((extra + 1) as nat) == ((
                    leftover_size as nat) * pow2(extra as nat)) * 2) by (nonlinear_arith)
                        requires
                            pow2((extra + 1) as nat) == pow2(extra as nat) * pow2(1),
                            pow2(1) == 2,
                    ;
                }
                extra = extra + 1;
                grown = grown * 2;
            }
            proof {
                lemma2_to64();
                lemma_pow2_adds((extra - 1) as nat, 1);
                assert((leftover_size as nat) * pow2(extra as nat) == ((leftover_size as nat)
                    * pow2((extra - 1) as nat)) * 2) by (nonlinear_arith)
                    requires
                        pow2(extra as nat) == pow2((extra - 1) as nat) * pow2(1),
                        pow2(1) == 2,
                ;
                assert((grown as nat) < 2 * (size as nat));
            }
            let g: u64 = self.gen_bits(extra);
            proof {
                assert((leftover as nat) + (g as nat) * (leftover_size as nat) < (
                leftover_size as nat) * pow2(extra as nat)) by (nonlinear_arith)
                    requires
                        (leftover as nat) < (leftover_size as nat),
                        (g as nat) < pow2(extra as nat),
                ;
            }
            // Fold the fresh bits in as higher-order digits in base
            // `leftover_size`: the accumulator stays uniform over the grown
            // region and no previously drawn entropy is discarded.
            let candidate: u128 = (leftover as u128) + (g as u128) * (leftover_size as u128);
            if candidate < (size as u128) {
                return candidate as u64;
            }
            // Split the grown region into a block of `size` values, consumed
            // by the subtraction, and a strictly smaller residual region.
            leftover = (candidate - (size as u128)) as u64;
            leftover_size = (grown - (size as u128)) as u64;
        }
    }
}

} // verus!
