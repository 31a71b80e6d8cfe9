use ethos_protocol_backend::fraud_detection::{
    score_transaction, FraudDetector, ScoringRequest, Transaction,
};
use ethos_protocol_backend::measure::Measure;

fn measure(x: f32) -> Measure {
    Measure { bits: (x as f64).to_bits() }
}

fn single(m: Measure) -> f32 {
    f64::from_bits(m.bits) as f32
}

fn transaction(id: &str, amount: f64, merchant: &str, timestamp: i64, location: &str) -> Transaction {
    Transaction {
        id: id.to_string(),
        amount: Measure { bits: amount.to_bits() },
        merchant_id: merchant.to_string(),
        user_id: "user1".to_string(),
        timestamp,
        location: location.to_string(),
    }
}

#[test]
fn low_amount_normal_transaction_scores_low() {
    let mut detector = FraudDetector::default();
    detector.train_on_history(1000);
    let tx = transaction("tx1", 100.0, "amazon", 14400, "us");
    let score = single(detector.get_fraud_score(&tx));
    assert!(score < 0.5, "normal transaction should score below threshold");
}

#[test]
fn high_amount_transaction_scores_high() {
    let mut detector = FraudDetector::default();
    detector.train_on_history(1000);
    let tx = transaction("tx2", 60000.0, "amazon", 14400, "us");
    let score = single(detector.get_fraud_score(&tx));
    assert!(score > 0.3, "high-amount transaction should score higher");
}

#[test]
fn untrained_model_returns_default_score() {
    let detector = FraudDetector::default();
    let tx = transaction("tx3", 1000.0, "vendor", 14400, "us");
    let score = single(detector.get_fraud_score(&tx));
    assert_eq!(score, 0.25, "untrained model should return default score");
}

#[test]
fn suspicious_time_increases_score() {
    let mut detector = FraudDetector::default();
    detector.train_on_history(1000);
    let tx_night = transaction("tx4", 500.0, "vendor", 82800, "us");
    let score = single(detector.get_fraud_score(&tx_night));
    assert!(score > 0.0, "night-time transaction should have higher score");
}

#[test]
fn high_risk_location_increases_score() {
    let mut detector = FraudDetector::default();
    detector.train_on_history(1000);
    let tx = transaction("tx5", 1000.0, "vendor", 14400, "high_risk");
    let score = single(detector.get_fraud_score(&tx));
    assert!(score > 0.2, "high-risk location should increase score");
}

#[test]
fn is_fraud_uses_threshold() {
    let mut detector = FraudDetector::default();
    detector.train_on_history(1000);
    detector.set_threshold(measure(0.5));

    let tx_low = transaction("tx6", 100.0, "vendor", 14400, "us");
    let tx_high = transaction("tx7", 60000.0, "unknown", 82800, "high_risk");

    assert!(!detector.is_fraud(&tx_low));
    assert!(detector.is_fraud(&tx_high));
}

#[test]
fn threshold_configurable() {
    let mut detector = FraudDetector::default();
    detector.train_on_history(1000);

    detector.set_threshold(measure(0.2));
    assert_eq!(single(detector.get_threshold()), 0.2);

    detector.set_threshold(measure(0.9));
    assert_eq!(single(detector.get_threshold()), 0.9);
}

#[test]
fn threshold_clamped_to_valid_range() {
    let mut detector = FraudDetector::default();
    detector.set_threshold(measure(-0.5));
    assert_eq!(single(detector.get_threshold()), 0.0);

    detector.set_threshold(measure(1.5));
    assert_eq!(single(detector.get_threshold()), 1.0);

    detector.set_threshold(measure(f32::NAN));
    assert_eq!(single(detector.get_threshold()), 0.0);
}

#[test]
fn scores_are_the_sums_of_the_weights_in_single_precision() {
    let mut detector = FraudDetector::new();
    detector.train_on_history(1);
    assert_eq!(detector.training_samples(), 1);
    for amount in [10000.0, 10001.0, 50001.0] {
        for merchant in ["vendor", "unknown"] {
            for timestamp in [6 * 3600, 22 * 3600, 23 * 3600, 5 * 3600, -7200] {
                for location in ["us", "high_risk"] {
                    let mut expected = 0.0f32;
                    if amount > 10000.0 {
                        expected += 0.25;
                    }
                    if amount > 50000.0 {
                        expected += 0.2;
                    }
                    if merchant == "unknown" {
                        expected += 0.15;
                    }
                    let hour = (timestamp / 3600) % 24;
                    if hour > 22 || hour < 6 {
                        expected += 0.1;
                    }
                    if location == "high_risk" {
                        expected += 0.2;
                    }
                    let tx = transaction("t", amount, merchant, timestamp, location);
                    let score = detector.get_fraud_score(&tx);
                    assert_eq!(f64::from_bits(score.bits), expected.min(1.0) as f64);
                }
            }
        }
    }
}

#[test]
fn scoring_a_request_names_the_transaction() {
    let mut detector = FraudDetector::new();
    detector.train_on_history(5);
    let tx = transaction("tx9", 60000.0, "unknown", 0, "high_risk");
    let result = score_transaction(&detector, ScoringRequest { transaction: tx }, measure(0.8));
    assert_eq!(result.transaction_id, "tx9");
    assert!(result.is_fraud);
    assert_eq!(single(result.score), 0.25f32 + 0.2 + 0.15 + 0.1 + 0.2);
    assert_eq!(result.confidence, measure(0.8));
}
