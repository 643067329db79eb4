//! Classifier scores and the signed sentiment derived from them.
//!
//! Real numbers are held as IEEE 754 binary64 bit patterns, so that a score
//! crosses this library unchanged: `f64::to_bits` on the way in and
//! `f64::from_bits` on the way out.

use vstd::prelude::*;

verus! {

/// The sign bit of a binary64 pattern.
pub const SIGN_BIT: u64 = 0x8000_0000_0000_0000;

/// The pattern of `1.0`.
pub const ONE: u64 = 0x3FF0_0000_0000_0000;

/// The pattern with the sign bit cleared: the absolute value.
pub open spec fn magnitude(bits: u64) -> u64 {
    bits & 0x7FFF_FFFF_FFFF_FFFFu64
}

/// Whether the sign bit is set.
pub open spec fn is_negative(bits: u64) -> bool {
    bits & SIGN_BIT != 0
}

/// The pattern of the negated value: only the sign bit differs.
pub open spec fn negated(bits: u64) -> u64 {
    bits ^ SIGN_BIT
}

/// The value lies in `[0.0, 1.0]` and its sign bit is clear.
///
/// Patterns of non-negative values are ordered as the values are, and every
/// infinity and NaN has a pattern above that of `1.0`.
pub open spec fn is_unit_score(bits: u64) -> bool {
    bits <= ONE
}

/// The value lies in `[-1.0, 1.0]`.
pub open spec fn is_sentiment(bits: u64) -> bool {
    magnitude(bits) <= ONE
}

/// Which way a classified text leans.
#[derive(Clone, Copy, Debug, PartialEq, Eq, Structural)]
pub enum Polarity {
    Positive,
    Negative,
}

/// What the classifier says of one text.
#[derive(Clone, Copy, Debug, PartialEq, Eq, Structural)]
pub struct PolarityScore {
    /// Which way the text leans.
    pub polarity: Polarity,
    /// Confidence in `[0.0, 1.0]`, as a binary64 pattern.
    pub score: u64,
}

impl PolarityScore {
    /// The score is a confidence in `[0.0, 1.0]`.
    pub open spec fn is_valid(self) -> bool {
        is_unit_score(self.score)
    }

    /// The signed sentiment: the score for a positive text, its negation for a
    /// negative one.
    pub open spec fn signed(self) -> u64 {
        match self.polarity {
            Polarity::Positive => self.score,
            Polarity::Negative => negated(self.score),
        }
    }
}

/// Negating a unit score keeps its magnitude and sets the sign bit.
proof fn lemma_negated_unit_score(bits: u64)
    requires
        is_unit_score(bits),
    ensures
        magnitude(negated(bits)) == bits,
        magnitude(bits) == bits,
        is_negative(negated(bits)),
        !is_negative(bits),
{
    assert(bits <= 0x3FF0_0000_0000_0000u64 ==> (bits ^ 0x8000_0000_0000_0000u64)
        & 0x7FFF_FFFF_FFFF_FFFFu64 == bits) by (bit_vector);
    assert(bits <= 0x3FF0_0000_0000_0000u64 ==> bits & 0x7FFF_FFFF_FFFF_FFFFu64 == bits)
        by (bit_vector);
    assert(bits <= 0x3FF0_0000_0000_0000u64 ==> (bits ^ 0x8000_0000_0000_0000u64)
        & 0x8000_0000_0000_0000u64 != 0) by (bit_vector);
    assert(bits <= 0x3FF0_0000_0000_0000u64 ==> bits & 0x8000_0000_0000_0000u64 == 0)
        by (bit_vector);
}

/// The signed sentiment of a valid score lies in `[-1.0, 1.0]`, its
/// magnitude is the score, and its sign bit is set exactly for a negative
/// polarity.
pub proof fn lemma_signed_in_range(score: PolarityScore)
    requires
        score.is_valid(),
    ensures
        is_sentiment(score.signed()),
        magnitude(score.signed()) == score.score,
        is_negative(score.signed()) <==> score.polarity == Polarity::Negative,
{
    lemma_negated_unit_score(score.score);
}

/// Maps a classifier result to a signed sentiment: the score itself for a
/// positive text, the negated score for a negative one.
///
/// For a valid score the result lies in `[-1.0, 1.0]`, its magnitude is the
/// score and its sign bit is set exactly for a negative polarity.
pub fn sentiment_to_float(sentiment: &PolarityScore) -> (value: u64)
    ensures
        value == sentiment.signed(),
        sentiment.is_valid() ==> is_sentiment(value) && magnitude(value) == sentiment.score && (
        is_negative(value) <==> sentiment.polarity == Polarity::Negative),
{
    proof {
        if sentiment.is_valid() {
            lemma_signed_in_range(*sentiment);
        }
    }
    match sentiment.polarity {
        Polarity::Positive => sentiment.score,
        Polarity::Negative => sentiment.score ^ SIGN_BIT,
    }
}

} // verus!
