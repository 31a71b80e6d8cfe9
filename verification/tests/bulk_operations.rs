use ethos_protocol_backend::bulk_operations::{
    amount_text, check_in_is_valid, BulkOperationRequest, BulkOperationResponse,
    BulkOperationStatus, BulkOperationsHandler,
};
use ethos_protocol_backend::json::{JsonField, JsonValue};
use ethos_protocol_backend::measure::Measure;

fn item(fields: &[(&str, &str)]) -> JsonValue {
    JsonValue::Object(
        fields
            .iter()
            .map(|(name, value)| JsonField {
                name: name.to_string(),
                value: JsonValue::Text(value.to_string()),
            })
            .collect(),
    )
}

fn check_in(user: &str, timestamp: &str) -> JsonValue {
    item(&[("user_id", user), ("timestamp", timestamp)])
}

fn amounts_of(request: &BulkOperationRequest) -> Vec<Option<Measure>> {
    match request {
        BulkOperationRequest::Withdrawals(items) => items
            .iter()
            .map(|i| {
                amount_text(i)
                    .and_then(|t| t.parse::<f64>().ok())
                    .map(|x| Measure { bits: x.to_bits() })
            })
            .collect(),
        BulkOperationRequest::CheckIns(_) => vec![],
    }
}

fn withdrawals(request: &BulkOperationRequest) -> Result<BulkOperationResponse, String> {
    BulkOperationsHandler::new().process_bulk_withdrawals(request, &amounts_of(request))
}

fn atomically(request: &BulkOperationRequest) -> Result<BulkOperationResponse, String> {
    BulkOperationsHandler::new().process_with_atomic_transaction(request, &amounts_of(request))
}

#[test]
fn test_bulk_check_ins_endpoint() {
    let handler = BulkOperationsHandler::new();
    let request = BulkOperationRequest::CheckIns(vec![
        check_in("user1", "2023-09-25T10:30:00Z"),
        check_in("user2", "2023-09-25T10:31:00Z"),
    ]);

    let response = handler.process_bulk_check_ins(&request);
    assert!(response.is_ok());
    assert_eq!(response.unwrap().status, BulkOperationStatus::Success);
}

#[test]
fn test_bulk_withdrawals_endpoint() {
    let request = BulkOperationRequest::Withdrawals(vec![
        item(&[("user_id", "user1"), ("amount", "100")]),
        item(&[("user_id", "user2"), ("amount", "200")]),
    ]);

    let response = withdrawals(&request);
    assert!(response.is_ok());
    assert_eq!(response.unwrap().status, BulkOperationStatus::Success);
}

#[test]
fn test_bulk_operations_atomic_transaction() {
    let request = BulkOperationRequest::CheckIns(vec![
        check_in("user1", "2023-09-25T10:30:00Z"),
        check_in("user2", "2023-09-25T10:31:00Z"),
    ]);

    let response = atomically(&request);
    assert!(response.is_ok());
}

#[test]
fn test_bulk_operations_partial_failure() {
    let handler = BulkOperationsHandler::new();
    let request = BulkOperationRequest::CheckIns(vec![
        check_in("valid_user", "2023-09-25T10:30:00Z"),
        check_in("", "2023-09-25T10:31:00Z"),
    ]);

    let response = handler.process_bulk_check_ins(&request);
    assert!(response.is_ok());
    let result = response.unwrap();
    assert_eq!(result.total_operations, 2);
    assert!(result.failed_operations > 0);
}

#[test]
fn test_bulk_check_ins_multiple_items() {
    let handler = BulkOperationsHandler::new();
    let items: Vec<_> =
        (0..10).map(|i| check_in(&format!("user{}", i), "2023-09-25T10:30:00Z")).collect();

    let request = BulkOperationRequest::CheckIns(items);
    let response = handler.process_bulk_check_ins(&request);
    assert!(response.is_ok());
    let result = response.unwrap();
    assert_eq!(result.total_operations, 10);
}

#[test]
fn test_bulk_withdrawals_multiple_items() {
    let items: Vec<_> = (0..5)
        .map(|i| {
            item(&[("user_id", &format!("user{}", i)), ("amount", &format!("{}", i * 100))])
        })
        .collect();

    let request = BulkOperationRequest::Withdrawals(items);
    let response = withdrawals(&request);
    assert!(response.is_ok());
    let result = response.unwrap();
    assert_eq!(result.total_operations, 5);
}

#[test]
fn test_bulk_operations_transaction_rollback_on_error() {
    let request = BulkOperationRequest::CheckIns(vec![
        check_in("user1", "2023-09-25T10:30:00Z"),
        check_in("invalid", "invalid_date"),
    ]);

    let response = atomically(&request);
    if let Ok(result) = response {
        assert!(result.failed_operations > 0 || result.status == BulkOperationStatus::Failed);
    }
}

#[test]
fn test_bulk_operations_returns_operation_ids() {
    let handler = BulkOperationsHandler::new();
    let request = BulkOperationRequest::CheckIns(vec![
        check_in("user1", "2023-09-25T10:30:00Z"),
        check_in("user2", "2023-09-25T10:31:00Z"),
    ]);

    let response = handler.process_bulk_check_ins(&request);
    assert!(response.is_ok());
    let result = response.unwrap();
    assert!(!result.operation_ids.is_empty());
    assert_eq!(result.operation_ids.len(), 2);
}

#[test]
fn test_bulk_operations_empty_request() {
    let handler = BulkOperationsHandler::new();
    let request = BulkOperationRequest::CheckIns(vec![]);

    let response = handler.process_bulk_check_ins(&request);
    assert!(response.is_err());
}

#[test]
fn test_bulk_operations_exceeds_max_size() {
    let handler = BulkOperationsHandler::new();
    let items: Vec<_> =
        (0..1001).map(|i| check_in(&format!("user{}", i), "2023-09-25T10:30:00Z")).collect();

    let request = BulkOperationRequest::CheckIns(items);
    let response = handler.process_bulk_check_ins(&request);
    assert!(response.is_err());
}

#[test]
fn test_bulk_operations_response_contains_results() {
    let handler = BulkOperationsHandler::new();
    let request = BulkOperationRequest::CheckIns(vec![
        check_in("user1", "2023-09-25T10:30:00Z"),
        check_in("user2", "2023-09-25T10:31:00Z"),
    ]);

    let response = handler.process_bulk_check_ins(&request);
    assert!(response.is_ok());
    let result = response.unwrap();
    assert!(!result.results.is_empty());
}

#[test]
fn test_bulk_check_ins_validates_input() {
    let handler = BulkOperationsHandler::new();
    let request = BulkOperationRequest::CheckIns(vec![item(&[("user_id", "user1")])]);

    let response = handler.process_bulk_check_ins(&request);
    if let Ok(result) = response {
        assert!(result.failed_operations > 0);
    }
}

#[test]
fn test_bulk_withdrawals_validates_amount() {
    let request = BulkOperationRequest::Withdrawals(vec![item(&[
        ("user_id", "user1"),
        ("amount", "-100"),
    ])]);

    let response = withdrawals(&request);
    if let Ok(result) = response {
        assert!(result.failed_operations > 0);
    }
}

#[test]
fn test_bulk_operations_concurrent_requests() {
    let handler = BulkOperationsHandler::new();
    for i in 0..3 {
        let request = BulkOperationRequest::CheckIns(vec![check_in(
            &format!("user{}", i),
            "2023-09-25T10:30:00Z",
        )]);
        assert!(handler.process_bulk_check_ins(&request).is_ok());
    }
}

#[test]
fn test_bulk_operations_transaction_idempotency() {
    let request = BulkOperationRequest::CheckIns(vec![item(&[
        ("user_id", "user1"),
        ("timestamp", "2023-09-25T10:30:00Z"),
        ("idempotency_key", "key1"),
    ])]);

    let response1 = atomically(&request);
    let response2 = atomically(&request);

    assert_eq!(response1.is_ok(), response2.is_ok());
}

#[test]
fn test_bulk_operations_status_tracking() {
    let handler = BulkOperationsHandler::new();
    let request = BulkOperationRequest::CheckIns(vec![check_in("user1", "2023-09-25T10:30:00Z")]);

    let response = handler.process_bulk_check_ins(&request);
    assert!(response.is_ok());
    let result = response.unwrap();
    assert!(matches!(
        result.status,
        BulkOperationStatus::Success
            | BulkOperationStatus::PartialSuccess
            | BulkOperationStatus::Failed
    ));
}

#[test]
fn test_bulk_withdrawals_atomic_money_transfer() {
    let request = BulkOperationRequest::Withdrawals(vec![
        item(&[("user_id", "user1"), ("amount", "100"), ("account", "savings")]),
        item(&[("user_id", "user2"), ("amount", "200"), ("account", "checking")]),
        item(&[("user_id", "user3"), ("amount", "150"), ("account", "money_market")]),
    ]);

    let response = atomically(&request);
    assert!(response.is_ok());
}

#[test]
fn test_bulk_operations_error_details() {
    let handler = BulkOperationsHandler::new();
    let request = BulkOperationRequest::CheckIns(vec![
        check_in("user1", "2023-09-25T10:30:00Z"),
        check_in("", "invalid"),
    ]);

    let response = handler.process_bulk_check_ins(&request);
    assert!(response.is_ok());
    let result = response.unwrap();
    assert!(!result.error_messages.is_empty() || result.failed_operations == 0);
}

#[test]
fn test_bulk_check_ins_performance() {
    let handler = BulkOperationsHandler::new();
    let items: Vec<_> =
        (0..100).map(|i| check_in(&format!("user{}", i), "2023-09-25T10:30:00Z")).collect();

    let request = BulkOperationRequest::CheckIns(items);
    let start = std::time::Instant::now();
    let response = handler.process_bulk_check_ins(&request);
    let elapsed = start.elapsed();

    assert!(response.is_ok());
    assert!(elapsed.as_secs() < 10);
}

#[test]
fn ids_results_and_complaints_name_their_items() {
    let handler = BulkOperationsHandler::default();
    let request = BulkOperationRequest::CheckIns(vec![
        check_in("u0", "not a time"),
        check_in("u1", "2023-09-25T10:30:00+02:00"),
        item(&[("timestamp", "2023-09-25T10:30:00Z")]),
        JsonValue::Object(vec![
            JsonField { name: "user_id".to_string(), value: JsonValue::Number("7".to_string()) },
            JsonField { name: "timestamp".to_string(), value: JsonValue::Number("5".to_string()) },
        ]),
    ]);
    let r = handler.process_bulk_check_ins(&request).unwrap();
    assert_eq!(r.status, BulkOperationStatus::PartialSuccess);
    assert_eq!(r.failed_operations, 2);
    assert_eq!(r.operation_ids, vec!["op_1".to_string(), "op_3".to_string()]);
    assert_eq!(r.results[0], check_in("u1", "2023-09-25T10:30:00+02:00"));
    assert_eq!(
        r.error_messages,
        vec![
            "Item 0 missing required fields".to_string(),
            "Item 2 missing required fields".to_string()
        ]
    );
    assert!(check_in_is_valid(&check_in("u", "t"), true));
    assert!(!check_in_is_valid(&check_in("u", "t"), false));
}

#[test]
fn withdrawals_need_a_user_and_a_positive_amount() {
    let request = BulkOperationRequest::Withdrawals(vec![
        item(&[("user_id", "u"), ("amount", "0")]),
        item(&[("user_id", "u"), ("amount", "many")]),
        item(&[("amount", "5")]),
        item(&[("user_id", "u")]),
        item(&[("user_id", "u"), ("amount", "NaN")]),
    ]);
    let r = withdrawals(&request).unwrap();
    assert_eq!(r.status, BulkOperationStatus::Failed);
    assert_eq!(r.failed_operations, 5);
    assert_eq!(r.error_messages[4], "Item 4 has invalid user or amount");
    let good =
        BulkOperationRequest::Withdrawals(vec![item(&[("user_id", "u"), ("amount", "1e-3")])]);
    assert_eq!(withdrawals(&good).unwrap().status, BulkOperationStatus::Success);
}

#[test]
fn refusals_say_why() {
    let handler = BulkOperationsHandler::new();
    let wrong = BulkOperationRequest::Withdrawals(vec![]);
    assert_eq!(handler.process_bulk_check_ins(&wrong).unwrap_err(), "Invalid request type");
    assert_eq!(withdrawals(&wrong).unwrap_err(), "Empty request");
    let right = BulkOperationRequest::CheckIns(vec![]);
    assert_eq!(
        handler.process_bulk_withdrawals(&right, &vec![]).unwrap_err(),
        "Invalid request type"
    );
    let many = BulkOperationRequest::CheckIns((0..1001).map(|_| check_in("u", "t")).collect());
    assert_eq!(
        handler.process_bulk_check_ins(&many).unwrap_err(),
        "Request exceeds maximum size of 1000"
    );
}
