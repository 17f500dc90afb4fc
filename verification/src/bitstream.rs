use vstd::prelude::*;

verus! {

use vstd::arithmetic::power2::pow2;
use vstd::arithmetic::power2::lemma2_to64_rest;
use crate::bits::gen_bits_value;
use crate::bits::next_unused_bits;
use crate::bits::lemma_mask_to_bound;

/// A source of fresh uniformly random 64-bit words: the one capability the
/// sampler needs from the outside world. The words are random, so the method
/// carries no contract.
pub trait Generator {
    fn next_word(&mut self) -> u64;
}

#[verifier::external_type_specification]
#[verifier::external_body]
pub struct ExChaCha20Rng(rand_chacha::ChaCha20Rng);

/// Relies on rand's `Rng::gen` to draw one fresh 64-bit word from a ChaCha20
/// stream cipher. The word is random, so nothing is stated of it.
#[verifier::external_body]
fn chacha_next_word(rng: &mut rand_chacha::ChaCha20Rng) -> u64 {
    rand::Rng::gen(rng)
}

impl Generator for rand_chacha::ChaCha20Rng {
    fn next_word(&mut self) -> u64 {
        chacha_next_word(self)
    }
}

/// A stream of random bits, served out in requests of up to 64 bits at a
/// time.
pub trait Bitstream: Sized {
    /// Internal consistency of the stream's buffered state.
    spec fn wf(&self) -> bool;

    /// Draw `num_bits` fresh random bits: the low `num_bits` bits of the
    /// result are the drawn bits and everything above them is zero. A
    /// zero-bit request consumes nothing, changes nothing and returns zero.
    fn gen_bits(&mut self, num_bits: u32) -> (r: u64)
        requires
            old(self).wf(),
            num_bits <= 64,
        ensures
            final(self).wf(),
            (r as nat) < pow2(num_bits as nat),
            num_bits == 0 ==> r == 0 && *final(self) == *old(self),
    ;
}

/// A bit reservoir: draws 64-bit words from a generator and parcels them out
/// in arbitrary-sized chunks, keeping unconsumed bits at the top of
/// `bit_buffer` for the next request.
pub struct RngBitstream<T> {
    pub rng: T,
    pub bit_buffer: u64,
    pub unused_bits: u32,
}

impl<T> RngBitstream<T> {
    /// Wrap a generator; the reservoir starts empty.
    pub fn new(rng: T) -> (r: Self)
        ensures
            r.rng == rng,
            r.bit_buffer == 0,
            r.unused_bits == 0,
    {
        RngBitstream { rng, bit_buffer: 0, unused_bits: 0 }
    }
}

impl<T: Generator> Bitstream for RngBitstream<T> {
    open spec fn wf(&self) -> bool {
        self.unused_bits < 64
    }

    fn gen_bits(&mut self, num_bits: u32) -> (r: u64)
        ensures
            final(self).unused_bits == next_unused_bits(old(self).unused_bits, num_bits),
            num_bits <= old(self).unused_bits ==> final(self).bit_buffer == old(self).bit_buffer
                && final(self).rng == old(self).rng,
            r == gen_bits_value(
                old(self).bit_buffer,
                old(self).unused_bits,
                num_bits,
                final(self).bit_buffer,
            ),
    {
        let ghost cache0: u64 = self.bit_buffer;
        let ghost unused0: u32 = self.unused_bits;
        let mut result: u64 = 0;
        if self.unused_bits > 0 {
            result = self.bit_buffer >> ((64 - self.unused_bits) as u64);
            if num_bits < 64 {
                proof {
                    assert(1u64 << (num_bits as u64) >= 1) by (bit_vector)
                        requires
                            num_bits < 64,
                    ;
                }
                result = result & ((1u64 << (num_bits as u64)) - 1);
            }
        }
        if num_bits <= self.unused_bits {
            self.unused_bits = self.unused_bits - num_bits;
            proof {
                if unused0 == 0 {
                    let s = crate::bits::stash_bits(cache0, unused0);
                    assert(s & (((1u64 << (num_bits as u64)) - 1) as u64) == 0) by (bit_vector)
                        requires
                            s == 0,
                    ;
                }
                lemma_mask_to_bound(crate::bits::stash_bits(cache0, unused0), num_bits);
            }
        } else {
            let extra_bits: u32 = num_bits - self.unused_bits;
            self.bit_buffer = self.rng.next_word();
            result = result | (self.bit_buffer << (self.unused_bits as u64));
            if num_bits < 64 {
                proof {
                    assert(1u64 << (num_bits as u64) >= 1) by (bit_vector)
                        requires
                            num_bits < 64,
                    ;
                }
                result = result & ((1u64 << (num_bits as u64)) - 1);
            }
            self.unused_bits = 64 - extra_bits;
            proof {
                let s = crate::bits::stash_bits(cache0, unused0);
                let w = self.bit_buffer;
                let n = num_bits as u64;
                if num_bits < 64 {
                    assert(((s & (((1u64 << n) - 1) as u64)) | (w << (unused0 as u64))) & (((1u64
                        << n) - 1) as u64) == (s | (w << (unused0 as u64))) & (((1u64 << n)
                        - 1) as u64)) by (bit_vector);
                }
                lemma_mask_to_bound(s | (w << (unused0 as u64)), num_bits);
            }
        }
        proof {
            if num_bits == 64 {
                lemma2_to64_rest();
            }
            if num_bits == 0 {
                crate::bits::lemma_zero_bits_noop(cache0, unused0, self.bit_buffer);
            }
        }
        result
    }
}

/// A diagnostic decorator over the bit reservoir that counts every bit ever
/// requested; used to measure how much entropy a caller consumes. The counter
/// saturates instead of wrapping in the unreachable case of an overflow.
pub struct CountingRngBitstream<T> {
    pub bitstream: RngBitstream<T>,
    pub count: u64,
}

impl<T: Generator> Bitstream for CountingRngBitstream<T> {
    open spec fn wf(&self) -> bool {
        self.bitstream.wf()
    }

    fn gen_bits(&mut self, num_bits: u32) -> (r: u64)
        ensures
            final(self).count == if old(self).count + num_bits <= u64::MAX {
                (old(self).count + num_bits) as u64
            } else {
                u64::MAX
            },
            final(self).bitstream.unused_bits == next_unused_bits(
                old(self).bitstream.unused_bits,
                num_bits,
            ),
            num_bits <= old(self).bitstream.unused_bits ==> final(self).bitstream.bit_buffer
                == old(self).bitstream.bit_buffer && final(self).bitstream.rng == old(
                self,
            ).bitstream.rng,
            r == gen_bits_value(
                old(self).bitstream.bit_buffer,
                old(self).bitstream.unused_bits,
                num_bits,
                final(self).bitstream.bit_buffer,
            ),
    {
        let nb: u64 = num_bits as u64;
        if self.count <= u64::MAX - nb {
            self.count = self.count + nb;
        } else {
            self.count = u64::MAX;
        }
        self.bitstream.gen_bits(num_bits)
    }
}

} // verus!
