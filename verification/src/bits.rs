use vstd::prelude::*;

verus! {

use vstd::arithmetic::power2::pow2;
use vstd::arithmetic::power2::lemma_pow2_pos;
use vstd::arithmetic::power2::lemma2_to64_rest;
use vstd::arithmetic::div_mod::lemma_fundamental_div_mod;
use vstd::arithmetic::mul::lemma_mul_inequality;
use vstd::bits::lemma_u64_shl_is_mul;
use vstd::bits::lemma_u64_shr_is_div;
use vstd::bits::lemma_u64_pow2_no_overflow;
use vstd::std_specs::bits::u64_leading_zeros;
use vstd::std_specs::bits::axiom_u64_leading_zeros;

/// The low `num_bits` bits of `x`; the full word when all 64 bits are asked
/// for, since a 64-bit-wide mask cannot be built by shifting.
pub open spec fn mask_to(x: u64, num_bits: u32) -> u64
    recommends
        num_bits <= 64,
{
    if num_bits < 64 {
        x & (((1u64 << (num_bits as u64)) - 1) as u64)
    } else {
        x
    }
}

/// The `unused` bits still cached at the top of `cache`, moved down to the
/// bottom of the word; zero when nothing is cached.
pub open spec fn stash_bits(cache: u64, unused: u32) -> u64
    recommends
        unused < 64,
{
    if unused > 0 {
        cache >> ((64 - unused) as u64)
    } else {
        0
    }
}

/// The value a bit request returns: the cached bits sit at the bottom of the
/// result, and when they do not suffice, the low bits of the freshly drawn
/// word `fresh` are stacked directly above them; everything past `num_bits`
/// is masked away.
pub open spec fn gen_bits_value(cache: u64, unused: u32, num_bits: u32, fresh: u64) -> u64
    recommends
        unused < 64,
        num_bits <= 64,
{
    if num_bits <= unused {
        mask_to(stash_bits(cache, unused), num_bits)
    } else {
        mask_to(stash_bits(cache, unused) | (fresh << (unused as u64)), num_bits)
    }
}

/// The count of cached bits after a request: what is left of the stash when it
/// sufficed, or what is left of the fresh word after it supplied the missing
/// bits.
pub open spec fn next_unused_bits(unused: u32, num_bits: u32) -> u32
    recommends
        unused < 64,
        num_bits <= 64,
{
    if num_bits <= unused {
        (unused - num_bits) as u32
    } else {
        (64 - (num_bits - unused)) as u32
    }
}

/// A masked value stays below the corresponding power of two.
pub proof fn lemma_mask_to_bound(x: u64, num_bits: u32)
    requires
        num_bits <= 64,
    ensures
        (mask_to(x, num_bits) as nat) < pow2(num_bits as nat),
{
    if num_bits < 64 {
        lemma_u64_pow2_no_overflow(num_bits as nat);
        lemma_u64_shl_is_mul(1u64, num_bits as u64);
        assert((x & (((1u64 << (num_bits as u64)) - 1) as u64)) <= (((1u64 << (num_bits as u64))
            - 1) as u64)) by (bit_vector);
        lemma_pow2_pos(num_bits as nat);
    } else {
        lemma2_to64_rest();
    }
}

/// Law: a zero-bit request takes nothing. Its value is zero and the cached-bit
/// count is unchanged, whatever the cache and the fresh word hold.
pub proof fn lemma_zero_bits_noop(cache: u64, unused: u32, fresh: u64)
    requires
        unused < 64,
    ensures
        gen_bits_value(cache, unused, 0, fresh) == 0,
        next_unused_bits(unused, 0) == unused,
{
    let s = stash_bits(cache, unused);
    assert(s & (((1u64 << 0u64) - 1) as u64) == 0) by (bit_vector);
}

/// Law: a full-width request against an empty reservoir hands back the freshly
/// drawn word unchanged, unmasked, and the reservoir is empty again
/// afterwards.
pub proof fn lemma_full_word_passthrough(cache: u64, fresh: u64)
    ensures
        gen_bits_value(cache, 0, 64, fresh) == fresh,
        next_unused_bits(0, 64) == 0,
{
    assert(0u64 | (fresh << 0u64) == fresh) by (bit_vector);
}

/// The width needed to write `size - 1` in binary, read off its leading
/// zeros: `size` fits under that power of two, and no smaller width covers
/// it. A width of zero happens exactly for `size == 1`.
pub proof fn lemma_bit_length(size: u64)
    requires
        1 <= size,
    ensures
        ({
            let bits_needed = 64 - u64_leading_zeros((size - 1) as u64);
            &&& 0 <= bits_needed <= 64
            &&& (size as nat) <= pow2(bits_needed as nat)
            &&& bits_needed >= 1 ==> pow2((bits_needed - 1) as nat) < (size as nat)
            &&& bits_needed == 0 ==> size == 1
        }),
{
    let x = (size - 1) as u64;
    axiom_u64_leading_zeros(x);
    let lz = u64_leading_zeros(x);
    let bits_needed = 64 - lz;
    if bits_needed < 64 {
        assert(x >> ((64 - lz) as u64) == 0);
        lemma_u64_shr_is_div(x, bits_needed as u64);
        lemma_pow2_pos(bits_needed as nat);
        lemma_fundamental_div_mod(x as int, pow2(bits_needed as nat) as int);
        assert((x as nat) < pow2(bits_needed as nat));
    } else {
        lemma2_to64_rest();
        assert((x as nat) < pow2(64));
    }
    if bits_needed >= 1 {
        let y = x >> ((bits_needed - 1) as u64);
        assert(y & 1u64 != 0u64);
        assert(y & 1u64 != 0u64 ==> y >= 1) by (bit_vector);
        lemma_u64_shr_is_div(x, (bits_needed - 1) as u64);
        lemma_pow2_pos((bits_needed - 1) as nat);
        lemma_fundamental_div_mod(x as int, pow2((bits_needed - 1) as nat) as int);
        lemma_mul_inequality(1, y as int, pow2((bits_needed - 1) as nat) as int);
        assert(pow2((bits_needed - 1) as nat) <= x as nat);
    }
    if bits_needed == 0 {
        assert(x == 0);
    }
}

} // verus!
