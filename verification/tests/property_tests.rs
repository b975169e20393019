use message_length::bits::BitSequence;
use message_length::scorer::complexity_penalty;
use message_length::theory::MarkovTheory;
use message_length::theory::TheoryError;

/// The 27-symbol scenario data used by the golden tests.
fn scenario_data() -> BitSequence {
    let raw = vec![
        false, true, false, true, false, true, false, false, false, false, true, true, true,
        false, true, false, true, false, true, false, true, false, true, false, true, false, true,
    ];
    BitSequence::from_bools(&raw)
}

fn log_loss(theory: &MarkovTheory, data: &BitSequence) -> Result<f64, TheoryError> {
    let probs = theory.window_probabilities(data)?;
    let mut total = 0.0f64;
    for p in &probs {
        total += -(p.numerator as f64 / p.denominator as f64).log2();
    }
    Ok(total)
}

fn likelihood(theory: &MarkovTheory, data: &BitSequence) -> Result<f64, TheoryError> {
    let probs = theory.window_probabilities(data)?;
    let mut total = 1.0f64;
    for p in &probs {
        total *= p.numerator as f64 / p.denominator as f64;
    }
    Ok(total)
}

#[test]
fn order_zero_probabilities_sum_to_one() {
    let datasets = vec![
        vec![false],
        vec![true, true, true],
        vec![false, true, false, false, true],
        vec![true; 17],
    ];
    for raw in datasets {
        let data = BitSequence::from_bools(&raw);
        let t = MarkovTheory::maximum_likelihood_estimate(&data, 0).unwrap();
        let p = t.parameters[0];
        // exact in the rational representation, and in floating point
        assert_eq!(p.zero + p.one, raw.len() as u64);
        let sum = p.zero as f64 / raw.len() as f64 + p.one as f64 / raw.len() as f64;
        assert!((sum - 1.0).abs() < 1e-6);
    }
}

#[test]
fn likelihood_is_two_to_the_negative_log_loss() {
    let data = scenario_data();
    for degree in 0..3 {
        let t = MarkovTheory::maximum_likelihood_estimate(&data, degree).unwrap();
        let like = likelihood(&t, &data).unwrap();
        let loss = log_loss(&t, &data).unwrap();
        let reconstructed = (2.0f64).powf(-loss);
        assert!(like > 0.0);
        assert!((like - reconstructed).abs() <= 1e-9 * like.max(reconstructed));
    }
}

#[test]
fn log_loss_never_worsens_with_higher_order() {
    let data = scenario_data();
    let mut previous = f64::INFINITY;
    for degree in 0..4 {
        let t = MarkovTheory::maximum_likelihood_estimate(&data, degree).unwrap();
        match log_loss(&t, &data) {
            Ok(loss) => {
                assert!(loss <= previous + 1e-9);
                previous = loss;
            }
            Err(TheoryError::UndefinedTransition) => break,
            Err(e) => panic!("unexpected error {:?}", e),
        }
    }
}

#[test]
fn reestimation_recovers_a_random_theory() {
    let truth = MarkovTheory::uniform_random_theory(2).unwrap();
    let n = 200_000usize;
    let sample = truth.sample(n).unwrap();
    assert_eq!(sample.len(), n);
    let fitted = MarkovTheory::maximum_likelihood_estimate(&sample, 2).unwrap();
    let mut checked = 0usize;
    for c in 0..4 {
        let fit = fitted.parameters[c];
        let chances = fit.zero + fit.one;
        if chances >= 2000 {
            let p_true = truth.parameters[c].zero as f64
                / (truth.parameters[c].zero + truth.parameters[c].one) as f64;
            let p_fit = fit.zero as f64 / chances as f64;
            assert!(
                (p_true - p_fit).abs() < 0.05,
                "context {}: true {} fitted {}",
                c,
                p_true,
                p_fit
            );
            checked += 1;
        }
    }
    // most of the mass sits on well-observed contexts
    assert!(checked >= 1);
}

#[test]
fn estimation_enumerates_every_context_exactly_once() {
    let data = scenario_data();
    for degree in 0..5 {
        let t = MarkovTheory::maximum_likelihood_estimate(&data, degree).unwrap();
        assert_eq!(t.parameters.len(), 1usize << degree);
    }
}

#[test]
fn order_zero_reduces_to_the_marginal() {
    let raw = vec![false, true, true, false, true, true, true];
    let data = BitSequence::from_bools(&raw);
    let t = MarkovTheory::maximum_likelihood_estimate(&data, 0).unwrap();
    let zeros = raw.iter().filter(|&&b| !b).count() as u64;
    let ones = raw.iter().filter(|&&b| b).count() as u64;
    assert_eq!(t.parameters[0].zero, zeros);
    assert_eq!(t.parameters[0].one, ones);
}

#[test]
fn golden_scenario_order_zero() {
    let data = scenario_data();
    let t = MarkovTheory::maximum_likelihood_estimate(&data, 0).unwrap();
    assert_eq!(t.parameters[0].zero, 14);
    assert_eq!(t.parameters[0].one, 13);
    let p_zero = 14.0f64 / 27.0;
    let p_one = 13.0f64 / 27.0;
    assert!((p_zero - 0.5185).abs() < 1e-3);
    assert!((p_one - 0.4815).abs() < 1e-3);
}

#[test]
fn golden_scenario_order_one() {
    let data = scenario_data();
    let t = MarkovTheory::maximum_likelihood_estimate(&data, 1).unwrap();
    // Of the 26 windows of length 2, 14 start with ZERO: continuations
    // 3 ZERO and 11 ONE. The other 12 start with ONE: 10 ZERO and 2 ONE.
    assert_eq!(t.parameters[0].zero, 3);
    assert_eq!(t.parameters[0].one, 11);
    assert_eq!(t.parameters[1].zero, 10);
    assert_eq!(t.parameters[1].one, 2);
}

#[test]
fn complexity_penalty_is_table_size_times_width() {
    assert_eq!(complexity_penalty(0, 32), 32);
    assert_eq!(complexity_penalty(1, 32), 64);
    assert_eq!(complexity_penalty(3, 32), 256);
    assert_eq!(complexity_penalty(5, 64), 2048);
}

#[test]
fn total_score_trades_fit_against_complexity() {
    let data = scenario_data();
    let t0 = MarkovTheory::maximum_likelihood_estimate(&data, 0).unwrap();
    let t1 = MarkovTheory::maximum_likelihood_estimate(&data, 1).unwrap();
    let total0 = log_loss(&t0, &data).unwrap() + complexity_penalty(0, 32) as f64;
    let total1 = log_loss(&t1, &data).unwrap() + complexity_penalty(1, 32) as f64;
    // 27 observations cannot justify 32 more bits of parameters
    assert!(total0 < total1);
}
