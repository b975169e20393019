use message_length::bits::BitSequence;
use message_length::theory::MarkovTheory;
use message_length::theory::Parameter;
use message_length::theory::ProbabilityPair;
use message_length::theory::TheoryError;
use message_length::theory::next_symbol;

fn pair(zero_numerator: u64, one_numerator: u64, denominator: u64) -> ProbabilityPair {
    ProbabilityPair { zero_numerator, one_numerator, denominator }
}

#[test]
fn construction_accepts_pairs_summing_to_one() {
    let entries = vec![pair(65, 35, 100), pair(20, 80, 100)];
    let t = MarkovTheory::new(1, &entries).unwrap();
    assert_eq!(t.degree, 1);
    assert_eq!(t.parameters.len(), 2);
    assert_eq!(t.parameters[0].zero, 65);
    assert_eq!(t.parameters[0].one, 35);
    assert_eq!(t.parameters[1].zero, 20);
    assert_eq!(t.parameters[1].one, 80);
}

#[test]
fn construction_rejects_pair_not_summing_to_one() {
    let entries = vec![pair(65, 34, 100), pair(20, 80, 100)];
    assert!(matches!(MarkovTheory::new(1, &entries), Err(TheoryError::InvalidProbability)));
}

#[test]
fn construction_rejects_wrong_table_shape() {
    let entries = vec![pair(1, 1, 2)];
    assert!(matches!(MarkovTheory::new(1, &entries), Err(TheoryError::DegreeOutOfRange)));
    let entries32 = vec![pair(1, 1, 2); 4];
    assert!(matches!(MarkovTheory::new(32, &entries32), Err(TheoryError::DegreeOutOfRange)));
}

#[test]
fn construction_accepts_explicitly_undefined_context() {
    let entries = vec![pair(3, 1, 4), pair(0, 0, 0)];
    let t = MarkovTheory::new(1, &entries).unwrap();
    assert_eq!(t.parameters[1].zero, 0);
    assert_eq!(t.parameters[1].one, 0);
}

#[test]
fn estimation_counts_continuations_per_context() {
    // 0,0,1,0,1,1 : the five order-1 windows are 00 01 10 01 11.
    let data = BitSequence::from_bools(&vec![false, false, true, false, true, true]);
    let t = MarkovTheory::maximum_likelihood_estimate(&data, 1).unwrap();
    assert_eq!(t.degree, 1);
    assert_eq!(t.parameters.len(), 2);
    assert_eq!(t.parameters[0].zero, 1);
    assert_eq!(t.parameters[0].one, 2);
    assert_eq!(t.parameters[1].zero, 1);
    assert_eq!(t.parameters[1].one, 1);
}

#[test]
fn estimation_keeps_unseen_contexts_undefined() {
    // 0,0,0 never shows the context 1.
    let data = BitSequence::from_bools(&vec![false, false, false]);
    let t = MarkovTheory::maximum_likelihood_estimate(&data, 1).unwrap();
    assert_eq!(t.parameters[0].zero, 2);
    assert_eq!(t.parameters[0].one, 0);
    assert_eq!(t.parameters[1].zero, 0);
    assert_eq!(t.parameters[1].one, 0);
}

#[test]
fn estimation_on_exactly_one_window() {
    // 0,1 : the single order-1 window gives context 0 one ONE continuation.
    let data = BitSequence::from_bools(&vec![false, true]);
    let t = MarkovTheory::maximum_likelihood_estimate(&data, 1).unwrap();
    assert_eq!(t.parameters[0].zero, 0);
    assert_eq!(t.parameters[0].one, 1);
    assert_eq!(t.parameters[1].zero, 0);
    assert_eq!(t.parameters[1].one, 0);
}

#[test]
fn estimation_rejects_data_shorter_than_one_window() {
    let data = BitSequence::from_bools(&vec![false, true]);
    assert!(matches!(
        MarkovTheory::maximum_likelihood_estimate(&data, 2),
        Err(TheoryError::DegreeOutOfRange)
    ));
    let ok = MarkovTheory::maximum_likelihood_estimate(&data, 1);
    assert!(ok.is_ok());
}

#[test]
fn estimation_rejects_unaddressable_degree() {
    let data = BitSequence::from_bools(&vec![true; 40]);
    assert!(matches!(
        MarkovTheory::maximum_likelihood_estimate(&data, 32),
        Err(TheoryError::DegreeOutOfRange)
    ));
}

#[test]
fn scoring_returns_one_fraction_per_window() {
    let data = BitSequence::from_bools(&vec![false, false, true, false, true, true]);
    let t = MarkovTheory::maximum_likelihood_estimate(&data, 1).unwrap();
    let probs = t.window_probabilities(&data).unwrap();
    assert_eq!(probs.len(), 5);
    // windows: 00 01 10 01 11 against the counts asserted above
    assert_eq!((probs[0].numerator, probs[0].denominator), (1, 3));
    assert_eq!((probs[1].numerator, probs[1].denominator), (2, 3));
    assert_eq!((probs[2].numerator, probs[2].denominator), (1, 2));
    assert_eq!((probs[3].numerator, probs[3].denominator), (2, 3));
    assert_eq!((probs[4].numerator, probs[4].denominator), (1, 2));
}

#[test]
fn scoring_rejects_short_data() {
    let data = BitSequence::from_bools(&vec![false, false, true]);
    let t = MarkovTheory::maximum_likelihood_estimate(&data, 1).unwrap();
    let short = BitSequence::from_bools(&vec![true]);
    assert_eq!(t.window_probabilities(&short), Err(TheoryError::DegreeOutOfRange));
}

#[test]
fn scoring_fails_on_undefined_context() {
    let data = BitSequence::from_bools(&vec![false, false, false]);
    let t = MarkovTheory::maximum_likelihood_estimate(&data, 1).unwrap();
    let other = BitSequence::from_bools(&vec![true, true]);
    assert_eq!(t.window_probabilities(&other), Err(TheoryError::UndefinedTransition));
}

#[test]
fn sampling_produces_the_requested_length() {
    let entries = vec![pair(65, 35, 100), pair(20, 80, 100)];
    let t = MarkovTheory::new(1, &entries).unwrap();
    let s = t.sample(100).unwrap();
    assert_eq!(s.len(), 100);
}

#[test]
fn sampling_rejects_length_not_above_degree() {
    let entries = vec![pair(65, 35, 100), pair(20, 80, 100)];
    let t = MarkovTheory::new(1, &entries).unwrap();
    assert!(matches!(t.sample(1), Err(TheoryError::DegreeOutOfRange)));
    assert!(matches!(t.sample(0), Err(TheoryError::DegreeOutOfRange)));
}

#[test]
fn sampling_fails_without_any_defined_context() {
    let entries = vec![pair(0, 0, 0), pair(0, 0, 0)];
    let t = MarkovTheory::new(1, &entries).unwrap();
    assert!(matches!(t.sample(10), Err(TheoryError::UndefinedTransition)));
}

#[test]
fn next_symbol_follows_the_stored_probability() {
    // an even split: rolls in the lower half of [0, 2^64) give ZERO
    let even = Parameter { zero: 1, one: 1 };
    assert_eq!(next_symbol(even, 0), false);
    assert_eq!(next_symbol(even, (1u64 << 63) - 1), false);
    assert_eq!(next_symbol(even, 1u64 << 63), true);
    assert_eq!(next_symbol(even, u64::MAX), true);
    // P(ZERO) = 0: every roll gives ONE
    let never_zero = Parameter { zero: 0, one: 5 };
    assert_eq!(next_symbol(never_zero, 0), true);
    assert_eq!(next_symbol(never_zero, u64::MAX), true);
    // P(ZERO) = 1: every roll gives ZERO
    let always_zero = Parameter { zero: 5, one: 0 };
    assert_eq!(next_symbol(always_zero, 0), false);
    assert_eq!(next_symbol(always_zero, u64::MAX), false);
    // a quarter: the boundary sits at 2^64 / 4
    let quarter = Parameter { zero: 1, one: 3 };
    assert_eq!(next_symbol(quarter, (1u64 << 62) - 1), false);
    assert_eq!(next_symbol(quarter, 1u64 << 62), true);
}

#[test]
fn random_theory_has_complementary_pairs() {
    let t = MarkovTheory::uniform_random_theory(3).unwrap();
    assert_eq!(t.degree, 3);
    assert_eq!(t.parameters.len(), 8);
    for p in &t.parameters {
        assert_eq!(p.zero + p.one, 1u64 << 32);
    }
}

#[test]
fn random_theory_rejects_unaddressable_degree() {
    assert!(matches!(
        MarkovTheory::uniform_random_theory(32),
        Err(TheoryError::DegreeOutOfRange)
    ));
}
