use ethos_protocol_backend::batch_conditional_completion::{
    BatchConditionalProcessor, BatchConditionalResult, ConditionalOutcome,
};

fn keyed(items: &[(&str, i64)]) -> Vec<(String, i64)> {
    items.iter().map(|(k, v)| (k.to_string(), *v)).collect()
}

fn rate(result: &BatchConditionalResult) -> f64 {
    result.completion_rate.numerator as f64 / result.completion_rate.denominator as f64
}

#[test]
fn test_all_items_complete_when_condition_always_true() {
    let items = keyed(&[("a", 10), ("b", 20), ("c", 30)]);
    let result = BatchConditionalProcessor::process_simple(items, |_v: &i64| Ok(true));

    assert_eq!(result.total, 3);
    assert_eq!(result.completed, 3);
    assert_eq!(result.skipped, 0);
    assert_eq!(result.invalid, 0);
    assert!((rate(&result) - 1.0).abs() < f64::EPSILON, "completion_rate should be 1.0");
    for item in &result.items {
        assert_eq!(
            item.outcome,
            ConditionalOutcome::Completed,
            "item {} should be Completed",
            item.key
        );
    }
}

#[test]
fn test_all_items_skipped_when_condition_always_false() {
    let items = keyed(&[("a", 1), ("b", 2)]);
    let result = BatchConditionalProcessor::process_simple(items, |_v: &i64| Ok(false));

    assert_eq!(result.completed, 0);
    assert_eq!(result.skipped, 2);
    assert_eq!(result.invalid, 0);
    assert!(rate(&result).abs() < f64::EPSILON);
    for item in &result.items {
        assert!(
            matches!(&item.outcome, ConditionalOutcome::Skipped { reason } if reason == "condition not met"),
            "item {} should be Skipped with default reason",
            item.key
        );
    }
}

#[test]
fn test_custom_skip_reason_included_in_output() {
    let items = keyed(&[("vault_5", 5)]);
    let result = BatchConditionalProcessor::process(
        items,
        |_v: &i64| Ok(false),
        Some(|v: &i64| format!("value {} is below threshold", v)),
    );

    assert_eq!(result.skipped, 1);
    let reason = match &result.items[0].outcome {
        ConditionalOutcome::Skipped { reason } => reason.clone(),
        other => panic!("expected Skipped, got {:?}", other),
    };
    assert_eq!(reason, "value 5 is below threshold");
}

#[test]
fn test_partial_batch_success_mixed_outcomes() {
    let items = keyed(&[("ok1", 15), ("ok2", 10), ("skip1", 5), ("bad1", -1), ("skip2", 0)]);

    let result = BatchConditionalProcessor::process_simple(items, |v: &i64| {
        if *v < 0 {
            Err(format!("negative value {} is not allowed", v))
        } else {
            Ok(*v >= 10)
        }
    });

    assert_eq!(result.total, 5);
    assert_eq!(result.completed, 2, "ok1 and ok2 should complete");
    assert_eq!(result.skipped, 2, "skip1 and skip2 should be skipped");
    assert_eq!(result.invalid, 1, "bad1 should be invalid");
    assert!((rate(&result) - 2.0 / 5.0).abs() < 1e-9, "completion_rate should be 0.4");
}

#[test]
fn test_invalid_item_does_not_abort_remaining_items() {
    let items = keyed(&[("bad", -99), ("good", 100)]);

    let result = BatchConditionalProcessor::process_simple(items, |v: &i64| {
        if *v < 0 {
            Err("negative".to_string())
        } else {
            Ok(true)
        }
    });

    assert_eq!(result.total, 2);
    assert_eq!(result.completed, 1, "'good' should still complete");
    assert_eq!(result.invalid, 1, "'bad' should be invalid");
}

#[test]
fn test_invalid_condition_error_message_preserved() {
    let items = vec![("item1".to_string(), "not_a_number".to_string())];

    let result = BatchConditionalProcessor::process_simple(items, |s: &String| {
        s.parse::<i64>().map(|v| v > 0).map_err(|e| format!("parse error: {}", e))
    });

    assert_eq!(result.invalid, 1);
    let error = match &result.items[0].outcome {
        ConditionalOutcome::Invalid { error } => error.clone(),
        other => panic!("expected Invalid, got {:?}", other),
    };
    assert!(
        error.contains("parse error"),
        "error message should describe parse failure, got: {}",
        error
    );
}

#[test]
fn test_empty_batch_returns_zeroed_result() {
    let result =
        BatchConditionalProcessor::process_simple(Vec::<(String, i64)>::new(), |_v: &i64| Ok(true));

    assert_eq!(result.total, 0);
    assert_eq!(result.completed, 0);
    assert_eq!(result.skipped, 0);
    assert_eq!(result.invalid, 0);
    assert!(
        (rate(&result) - 1.0).abs() < f64::EPSILON,
        "empty batch completion_rate should be 1.0"
    );
}

#[test]
fn test_all_invalid_completion_rate_is_zero() {
    let items = keyed(&[("a", 1), ("b", 2), ("c", 3)]);
    let result = BatchConditionalProcessor::process_simple(items, |_v: &i64| {
        Err("always invalid".to_string())
    });

    assert_eq!(result.invalid, 3);
    assert!(rate(&result).abs() < f64::EPSILON);
}

#[test]
fn test_keys_are_preserved_in_results() {
    let items = keyed(&[("vault_1", 1), ("vault_2", 2), ("vault_3", 3)]);
    let result = BatchConditionalProcessor::process_simple(items, |v: &i64| Ok(*v > 0));

    let keys: Vec<&str> = result.items.iter().map(|r| r.key.as_str()).collect();
    assert_eq!(keys, ["vault_1", "vault_2", "vault_3"]);
}
