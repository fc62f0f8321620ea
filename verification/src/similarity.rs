use vstd::prelude::*;

use vstd::arithmetic::div_mod::{lemma_basic_div, lemma_multiply_divide_lt};
use vstd::arithmetic::power2::{lemma2_to64, lemma2_to64_rest, lemma_pow2_adds, lemma_pow2_pos,
    lemma_pow2_strictly_increases, pow2};
use vstd::bits::lemma_u128_shr_is_div;

use crate::{Algorithm, Config};

verus! {

// Each of the five scorers below is a pure function of its two arguments.
// The raw bits of the IEEE-754 double it returns — a similarity in [0, 1] —
// get a name here; the wrapper's contract ties the runtime result to that
// name, and `ppm_of_bits` turns the bits into an integer score.
pub uninterp spec fn levenshtein_bits(a: Seq<char>, b: Seq<char>) -> u64;

pub uninterp spec fn damerau_levenshtein_bits(a: Seq<char>, b: Seq<char>) -> u64;

pub uninterp spec fn jaro_bits(a: Seq<char>, b: Seq<char>) -> u64;

pub uninterp spec fn jaro_winkler_bits(a: Seq<char>, b: Seq<char>) -> u64;

pub uninterp spec fn sorensen_dice_bits(a: Seq<char>, b: Seq<char>) -> u64;

/// Relies on strsim::normalized_levenshtein: edit distance normalized to a
/// similarity in [0, 1] that depends on the two strings alone; the wrapper
/// hands back the raw bits of that double.
#[verifier::external_body]
fn levenshtein_score_bits(a: &str, b: &str) -> (r: u64)
    ensures
        r == levenshtein_bits(a@, b@),
{
    strsim::normalized_levenshtein(a, b).to_bits()
}

/// Relies on strsim::normalized_damerau_levenshtein: edit distance with
/// transpositions, normalized to a similarity in [0, 1] that depends on the
/// two strings alone; the wrapper hands back the raw bits of that double.
#[verifier::external_body]
fn damerau_levenshtein_score_bits(a: &str, b: &str) -> (r: u64)
    ensures
        r == damerau_levenshtein_bits(a@, b@),
{
    strsim::normalized_damerau_levenshtein(a, b).to_bits()
}

/// Relies on strsim::jaro: a match-fraction similarity in [0, 1] that depends
/// on the two strings alone; the wrapper hands back the raw bits of that
/// double.
#[verifier::external_body]
fn jaro_score_bits(a: &str, b: &str) -> (r: u64)
    ensures
        r == jaro_bits(a@, b@),
{
    strsim::jaro(a, b).to_bits()
}

/// Relies on strsim::jaro_winkler: Jaro similarity with a common-prefix
/// boost, in [0, 1], depending on the two strings alone; the wrapper hands
/// back the raw bits of that double.
#[verifier::external_body]
fn jaro_winkler_score_bits(a: &str, b: &str) -> (r: u64)
    ensures
        r == jaro_winkler_bits(a@, b@),
{
    strsim::jaro_winkler(a, b).to_bits()
}

/// Relies on strsim::sorensen_dice: bigram overlap in [0, 1], depending on
/// the two strings alone; the wrapper hands back the raw bits of that double.
#[verifier::external_body]
fn sorensen_dice_score_bits(a: &str, b: &str) -> (r: u64)
    ensures
        r == sorensen_dice_bits(a@, b@),
{
    strsim::sorensen_dice(a, b).to_bits()
}

/// The value, in parts per million and rounded down, of the IEEE-754 double
/// whose raw bits are `bits`. A negative double counts as 0 and anything at
/// or above 1.0 — the top of the similarity scale — as one million.
pub open spec fn ppm_of_bits(bits: u64) -> int {
    if bits >= 0x8000_0000_0000_0000 {
        0
    } else if bits >= 0x3ff0_0000_0000_0000 {
        1_000_000
    } else {
        let e = (bits >> 52) & 0x7ff;
        let frac = bits & 0xf_ffff_ffff_ffff;
        let m: int = if e == 0 {
            frac as int
        } else {
            0x10_0000_0000_0000 + frac as int
        };
        let ee: int = if e == 0 {
            1
        } else {
            e as int
        };
        (m * 1_000_000) / pow2((1075 - ee) as nat) as int
    }
}

/// Turns the raw bits of a double in [0, 1] into parts per million.
fn bits_to_ppm(bits: u64) -> (r: u64)
    ensures
        r as int == ppm_of_bits(bits),
        r <= 1_000_000,
{
    if bits >= 0x8000_0000_0000_0000 {
        0
    } else if bits >= 0x3ff0_0000_0000_0000 {
        1_000_000
    } else {
        let e = (bits >> 52) & 0x7ff;
        let frac = bits & 0xf_ffff_ffff_ffff;
        assert(e <= 0x3fe) by (bit_vector)
            requires
                bits < 0x3ff0_0000_0000_0000 && e == (bits >> 52) & 0x7ff,
        ;
        assert(frac < 0x10_0000_0000_0000) by (bit_vector)
            requires
                frac == bits & 0xf_ffff_ffff_ffff,
        ;
        let m: u64 = if e == 0 {
            frac
        } else {
            0x10_0000_0000_0000 + frac
        };
        let ee: u64 = if e == 0 {
            1
        } else {
            e
        };
        let shift: u64 = 1075 - ee;
        let big: u128 = (m as u128) * 1_000_000;
        proof {
            lemma2_to64();
            lemma2_to64_rest();
            assert(m < pow2(53));
            assert(big < pow2(53) * pow2(20)) by (nonlinear_arith)
                requires
                    big == m * 1_000_000 && m < pow2(53) && pow2(20) == 0x100000,
            ;
            lemma_pow2_adds(53, 20);
            assert(big < pow2(73));
        }
        if shift >= 73 {
            proof {
                if shift > 73 {
                    lemma_pow2_strictly_increases(73, shift as nat);
                }
                lemma_basic_div(big as int, pow2(shift as nat) as int);
            }
            0
        } else {
            let shifted: u128 = big >> (shift as u128);
            proof {
                lemma_u128_shr_is_div(big, shift as u128);
                lemma_pow2_pos(shift as nat);
                assert(pow2(53) <= pow2(shift as nat)) by {
                    if 53 < shift {
                        lemma_pow2_strictly_increases(53, shift as nat);
                    }
                }
                assert((big as int) < pow2(shift as nat) * 1_000_001) by (nonlinear_arith)
                    requires
                        big < pow2(53) * 1_000_000 && pow2(53) <= pow2(shift as nat) && pow2(
                            shift as nat,
                        ) > 0,
                ;
                lemma_multiply_divide_lt(big as int, pow2(shift as nat) as int, 1_000_001);
            }
            shifted as u64
        }
    }
}

/// The similarity of two titles under the chosen algorithm, in parts per
/// million of the scale whose top is [`crate::SIMILARITY_SCALE`].
pub open spec fn similarity_ppm(alg: Algorithm, a: Seq<char>, b: Seq<char>) -> int {
    match alg {
        Algorithm::Levenshtein => ppm_of_bits(levenshtein_bits(a, b)),
        Algorithm::DamerauLevenshtein => ppm_of_bits(damerau_levenshtein_bits(a, b)),
        Algorithm::Jaro => ppm_of_bits(jaro_bits(a, b)),
        Algorithm::JaroWinkler => ppm_of_bits(jaro_winkler_bits(a, b)),
        Algorithm::SorensenDice => ppm_of_bits(sorensen_dice_bits(a, b)),
    }
}

/// The similarity score of two titles under `alg`, in parts per million.
pub fn similarity_score(title1: &str, title2: &str, alg: Algorithm) -> (r: u64)
    ensures
        r as int == similarity_ppm(alg, title1@, title2@),
        r <= 1_000_000,
{
    let bits = match alg {
        Algorithm::Levenshtein => levenshtein_score_bits(title1, title2),
        Algorithm::DamerauLevenshtein => damerau_levenshtein_score_bits(title1, title2),
        Algorithm::Jaro => jaro_score_bits(title1, title2),
        Algorithm::JaroWinkler => jaro_winkler_score_bits(title1, title2),
        Algorithm::SorensenDice => sorensen_dice_score_bits(title1, title2),
    };
    bits_to_ppm(bits)
}

/// Applies the configured similarity metric to see whether two titles reach
/// the configured threshold.
pub fn test_title_similarity(title1: &str, title2: &str, config: &Config) -> (r: bool)
    ensures
        r == (similarity_ppm(config.algorithm, title1@, title2@)
            >= config.similarity_threshold as int),
{
    let similarity = similarity_score(title1, title2, config.algorithm);
    similarity >= config.similarity_threshold
}

} // verus!
