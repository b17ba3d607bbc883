//! Trust scoring: initial values, decay, boosts and clamping.
//!
//! Scores are carried in thousandths of a unit; the assertions below read
//! them back as fractions.

use meh::fact::{AuthorType, FactType, Source, Status};
use meh::trust::TrustCalculator;
use std::time::{SystemTime, UNIX_EPOCH};

fn now_ms() -> i64 {
    SystemTime::now().duration_since(UNIX_EPOCH).unwrap().as_millis() as i64
}

const DAY_MS: i64 = 86_400_000;

fn unit(score: u32) -> f64 {
    score as f64 / 1000.0
}

#[test]
fn test_initial_trust_human_local() {
    let calc = TrustCalculator::new();
    let trust = calc.initial_trust(AuthorType::Human, Source::Local);
    assert!((unit(trust) - 0.8).abs() < 0.01);
}

#[test]
fn test_initial_trust_ai_global() {
    let calc = TrustCalculator::new();
    let trust = calc.initial_trust(AuthorType::Ai, Source::Global);
    assert!((unit(trust) - 0.35).abs() < 0.01); // 0.5 * 0.7
}

#[test]
fn test_decay_within_grace_period() {
    let calc = TrustCalculator::new();
    let created = now_ms() - 30 * DAY_MS;
    let trust = calc.apply_decay(800, created);
    assert!((unit(trust) - 0.8).abs() < 0.01); // no decay yet
}

#[test]
fn test_decay_after_grace_period() {
    let calc = TrustCalculator::new();
    let created = now_ms() - 190 * DAY_MS; // 100 days past grace
    let trust = calc.apply_decay(800, created);
    // 100 * 0.005 = 0.5 decay
    assert!((unit(trust) - 0.3).abs() < 0.01);
}

#[test]
fn test_decay_floor() {
    let calc = TrustCalculator::new();
    let created = now_ms() - 500 * DAY_MS; // very old
    let trust = calc.apply_decay(800, created);
    assert!((unit(trust) - 0.2).abs() < 0.01); // floor is 0.2
}

#[test]
fn test_confirmation_boost() {
    let calc = TrustCalculator::new();
    let trust = calc.apply_confirmation_boost(500);
    assert!((unit(trust) - 0.6).abs() < 0.01);
}

#[test]
fn test_boost_clamps_at_one() {
    let calc = TrustCalculator::new();
    assert_eq!(calc.apply_confirmation_boost(950), 1000);
}

#[test]
fn test_superseded_penalty_floors_at_zero() {
    let calc = TrustCalculator::new();
    assert_eq!(calc.apply_superseded_penalty(200), 0);
    assert_eq!(calc.apply_superseded_penalty(800), 500);
}

#[test]
fn test_effective_trust_always_in_range() {
    let calc = TrustCalculator::new();
    let statuses = [
        Status::Active,
        Status::Superseded,
        Status::Deprecated,
        Status::Archived,
        Status::PendingReview,
    ];
    for status in statuses {
        for confirmations in [0u32, 1, 3, 100] {
            let t = calc.effective_trust_at(
                800,
                i64::MIN,
                i64::MAX,
                status,
                FactType::Correction,
                confirmations,
            );
            assert!(t <= 1000);
        }
    }
}

#[test]
fn test_effective_trust_exact_deprecated() {
    let calc = TrustCalculator::new();
    let now = now_ms();
    // within the grace period, deprecated halves the base
    let t = calc.effective_trust_at(800, now, now, Status::Deprecated, FactType::Fact, 0);
    assert_eq!(t, 400);
}

#[test]
fn test_effective_trust_correction_haircut() {
    let calc = TrustCalculator::new();
    let now = now_ms();
    let t = calc.effective_trust_at(800, now, now, Status::Active, FactType::Correction, 0);
    assert_eq!(t, 720); // 0.8 * 0.9
}
