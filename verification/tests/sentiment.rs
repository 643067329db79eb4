use twitter_sentiment::sentiment::{sentiment_to_float, Polarity, PolarityScore, ONE, SIGN_BIT};

fn signed(polarity: Polarity, score: f64) -> f64 {
    f64::from_bits(sentiment_to_float(&PolarityScore { polarity, score: score.to_bits() }))
}

#[test]
fn positive_score_is_kept() {
    assert_eq!(signed(Polarity::Positive, 0.75), 0.75);
    assert_eq!(signed(Polarity::Positive, 1.0), 1.0);
    assert_eq!(signed(Polarity::Positive, 0.0), 0.0);
}

#[test]
fn negative_score_is_negated() {
    assert_eq!(signed(Polarity::Negative, 0.75), -0.75);
    assert_eq!(signed(Polarity::Negative, 1.0), -1.0);
    assert_eq!(signed(Polarity::Negative, 0.123456789), -0.123456789);
}

#[test]
fn negative_zero_keeps_the_sign() {
    let value = signed(Polarity::Negative, 0.0);
    assert_eq!(value, 0.0);
    assert!(value.is_sign_negative());
    assert!(signed(Polarity::Positive, 0.0).is_sign_positive());
}

#[test]
fn sentiment_stays_in_the_unit_range() {
    let scores = [0.0, 1e-300, 0.25, 0.5, 0.999_999, 1.0];
    for score in scores {
        let up = signed(Polarity::Positive, score);
        let down = signed(Polarity::Negative, score);
        assert!((-1.0..=1.0).contains(&up));
        assert!((-1.0..=1.0).contains(&down));
        assert!(up.is_sign_positive());
        assert!(down.is_sign_negative());
        assert_eq!(up.abs(), score);
        assert_eq!(down.abs(), score);
    }
}

#[test]
fn bit_patterns_are_those_of_binary64() {
    assert_eq!(ONE, 1.0f64.to_bits());
    assert_eq!(SIGN_BIT, (-0.0f64).to_bits());
    let half = PolarityScore { polarity: Polarity::Negative, score: 0.5f64.to_bits() };
    assert_eq!(sentiment_to_float(&half), 0xBFE0_0000_0000_0000);
}
