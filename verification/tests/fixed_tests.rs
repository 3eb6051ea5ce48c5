use evolenia::fixed::{cos_turns, exp_neg, isqrt, log2_fix, sin_turns};

#[test]
fn exponential_decays_from_one_to_zero() {
    assert_eq!(exp_neg(0), 1_000_000);
    let samples = [0u64, 50_000, 200_000, 500_000, 1_000_000, 2_000_000, 8_000_000];
    let mut prev = exp_neg(samples[0]);
    for &x in &samples[1..] {
        let v = exp_neg(x);
        assert!(v < prev, "e^-x must strictly decay over these samples, {v} vs {prev}");
        prev = v;
    }
    // Close to the analytic values: e^-1 ~ 0.367879, e^-2 ~ 0.135335.
    let e1 = exp_neg(1_000_000);
    assert!(e1 > 366_000 && e1 < 369_000, "e^-1 was {e1}");
    let e2 = exp_neg(2_000_000);
    assert!(e2 > 134_000 && e2 < 137_000, "e^-2 was {e2}");
    // Sixteen whole units or more flush to zero.
    assert_eq!(exp_neg(16_000_000), 0);
    assert_eq!(exp_neg(u64::MAX), 0);
}

#[test]
fn sine_hits_its_landmarks() {
    assert_eq!(sin_turns(0), 0);
    assert_eq!(sin_turns(500_000), 0);
    assert_eq!(sin_turns(1_000_000), 0);
    // Peak of one whole unit at the quarter turns, sign per half-turn.
    assert_eq!(sin_turns(250_000), 1_000_000);
    assert_eq!(sin_turns(750_000), -1_000_000);
    assert!(sin_turns(100_000) > 0);
    assert!(sin_turns(600_000) < 0);
    // Periodic in whole turns.
    assert_eq!(sin_turns(3_250_000), 1_000_000);
    // Close to the analytic sin(2 pi / 12) = 0.5 at one twelfth of a turn.
    let s = sin_turns(83_333);
    assert!(s > 497_000 && s < 503_000, "sin at a twelfth of a turn was {s}");
}

#[test]
fn cosine_is_the_shifted_sine() {
    assert_eq!(cos_turns(0), 1_000_000);
    assert_eq!(cos_turns(250_000), 0);
    assert_eq!(cos_turns(500_000), -1_000_000);
    assert_eq!(cos_turns(1_250_000), 0);
    for &t in &[0u64, 123_456, 700_000, 999_999] {
        assert_eq!(cos_turns(t), sin_turns(t + 250_000));
    }
}

#[test]
fn square_root_and_log_landmarks() {
    assert_eq!(isqrt(0), 0);
    assert_eq!(isqrt(144), 12);
    assert_eq!(isqrt(145), 12);
    assert_eq!(isqrt(1_000_000_000_000), 1_000_000);
    assert_eq!(log2_fix(1), 0);
    assert_eq!(log2_fix(1024), 10_000_000);
    // log2(3) ~ 1.584962 in millionths.
    let l3 = log2_fix(3);
    assert!(l3 > 1_584_000 && l3 < 1_586_000, "log2(3) was {l3}");
}
