use rand::{Rng, SeedableRng};
use rand_chacha::ChaChaRng;
use rng_nibbler::{Bitstream, BitstreamExt, CountingRngBitstream, Generator, RngBitstream};

/// A deterministic generator for exact-value scenarios: hands out the given
/// words in order (repeating the last one) and counts how many were drawn.
struct ScriptedGenerator {
    words: Vec<u64>,
    next: usize,
    draws: usize,
}

impl ScriptedGenerator {
    fn new(words: Vec<u64>) -> Self {
        ScriptedGenerator {
            words,
            next: 0,
            draws: 0,
        }
    }
}

impl Generator for ScriptedGenerator {
    fn next_word(&mut self) -> u64 {
        let index = self.next.min(self.words.len() - 1);
        self.next += 1;
        self.draws += 1;
        self.words[index]
    }
}

#[test]
fn gen_bits_zero_is_a_noop() {
    let mut bitstream = RngBitstream::new(ScriptedGenerator::new(vec![0x1234_5678_9ABC_DEF0]));
    bitstream.gen_bits(5);
    let buffered = bitstream.bit_buffer;
    let unused = bitstream.unused_bits;
    let draws = bitstream.rng.draws;
    assert_eq!(bitstream.gen_bits(0), 0);
    assert_eq!(bitstream.bit_buffer, buffered);
    assert_eq!(bitstream.unused_bits, unused);
    assert_eq!(bitstream.rng.draws, draws);
}

#[test]
fn gen_bits_full_words_pass_through_unmasked() {
    let first_word = 0xFFFF_FFFF_FFFF_FFFF;
    let second_word = 0x8000_0000_0000_0001;
    let mut bitstream = RngBitstream::new(ScriptedGenerator::new(vec![first_word, second_word]));
    assert_eq!(bitstream.gen_bits(64), first_word);
    assert_eq!(bitstream.gen_bits(64), second_word);
    assert_eq!(bitstream.rng.draws, 2);
    assert_eq!(bitstream.unused_bits, 0);
}

#[test]
fn gen_bits_slices_one_word_bottom_up() {
    let word = 0xDEAD_BEEF_DEAD_BEEF;
    let mut bitstream = RngBitstream::new(ScriptedGenerator::new(vec![word]));
    assert_eq!(bitstream.gen_bits(5), word & 0x1F);
    assert_eq!(bitstream.unused_bits, 59);
    assert_eq!(bitstream.gen_bits(7), (word >> 5) & 0x7F);
    assert_eq!(bitstream.unused_bits, 52);
    assert_eq!(bitstream.rng.draws, 1);
}

#[test]
fn gen_range_one_always_returns_zero_and_takes_no_bits() {
    let mut bitstream = CountingRngBitstream {
        bitstream: RngBitstream::new(ChaChaRng::seed_from_u64(42)),
        count: 0,
    };
    for _ in 0..100 {
        assert_eq!(bitstream.gen_range(1), 0);
    }
    assert_eq!(bitstream.count, 0);
}

#[test]
fn gen_range_direct_hit_returns_first_draw() {
    // The low four bits of the word are 5, below 10, so the first draw is
    // returned as it is.
    let mut bitstream = RngBitstream::new(ScriptedGenerator::new(vec![5]));
    assert_eq!(bitstream.gen_range(10), 5);
    assert_eq!(bitstream.rng.draws, 1);
}

#[test]
fn gen_range_refines_an_overflowing_draw() {
    // The low four bits of the word are 12, at or above 10, so the call falls
    // into the overflow region: offset 2 in a region of 16 - 10 = 6 values.
    // One more bit (the word's bit four, set here) is folded in as a
    // higher-order digit: 2 + 1 * 6 = 8, now below 10, so 8 comes back, all
    // from a single drawn word.
    let word = 12 | (1 << 4);
    let mut bitstream = RngBitstream::new(ScriptedGenerator::new(vec![word]));
    assert_eq!(bitstream.gen_range(10), 8);
    assert_eq!(bitstream.rng.draws, 1);
}

#[test]
fn gen_range_handles_huge_sizes_without_overflow() {
    let mut bitstream = RngBitstream::new(ChaChaRng::seed_from_u64(7));
    let sizes = [
        1 << 63,
        (1 << 63) + 1,
        u64::MAX - 1,
        u64::MAX,
        (1 << 62) + 12345,
    ];
    for &size in sizes.iter() {
        for _ in 0..200 {
            let value = bitstream.gen_range(size);
            assert!(value < size);
        }
    }
}

#[test]
fn counting_bitstream_counts_requested_bits() {
    let mut bitstream = CountingRngBitstream {
        bitstream: RngBitstream::new(ScriptedGenerator::new(vec![0])),
        count: 0,
    };
    bitstream.gen_bits(5);
    bitstream.gen_bits(7);
    bitstream.gen_bits(0);
    assert_eq!(bitstream.count, 12);
}

#[test]
fn gen_bits_matches_the_wrapped_generator() {
    // The reservoir's full-width draws must be rand's own words: a stream that
    // handed back anything else would break this.
    let mut bitstream = RngBitstream::new(ChaChaRng::seed_from_u64(9));
    let mut rng = ChaChaRng::seed_from_u64(9);
    let mut all_equal = true;
    for _ in 0..8 {
        let from_stream = bitstream.gen_bits(64);
        let from_rng: u64 = rng.gen();
        assert_eq!(from_stream, from_rng);
        if from_stream != bitstream.gen_bits(64) {
            all_equal = false;
        }
        let _: u64 = rng.gen();
    }
    assert!(!all_equal);
}

#[test]
fn gen_range_entropy_overhead_is_small() {
    for range_size in 1..=17u64 {
        let mut bitstream = CountingRngBitstream {
            bitstream: RngBitstream::new(ChaChaRng::seed_from_u64(0)),
            count: 0,
        };
        let rounds = 10000;
        for _ in 0..rounds {
            bitstream.gen_range(range_size);
        }
        let average = bitstream.count as f64 / rounds as f64;
        let ideal = (range_size as f64).log2();
        assert!(
            average <= ideal + 2.0,
            "spent {} bits on average for size {} (ideal {})",
            average,
            range_size,
            ideal
        );
    }
}
