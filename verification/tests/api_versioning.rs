use std::sync::Arc;

use ethos_protocol_backend::api_versioning::{
    ApiVersion, DeprecationSchedule, VersionCompatibility, VersionRouter,
};
use ethos_protocol_backend::json::{JsonField, JsonValue};

fn text(value: &str) -> JsonValue {
    JsonValue::Text(value.to_string())
}

fn object(fields: Vec<(&str, JsonValue)>) -> JsonValue {
    JsonValue::Object(
        fields
            .into_iter()
            .map(|(name, value)| JsonField { name: name.to_string(), value })
            .collect(),
    )
}

#[test]
fn test_api_version_routing_v1() {
    let router = VersionRouter::new();
    let handler = router.get_handler(&ApiVersion::V1);
    assert!(handler.is_some());
}

#[test]
fn test_api_version_routing_v2() {
    let router = VersionRouter::new();
    let handler = router.get_handler(&ApiVersion::V2);
    assert!(handler.is_some());
}

#[test]
fn test_version_compatibility_layer_v1_to_v2() {
    let compat = VersionCompatibility::new();
    let v1_response =
        object(vec![("id", text("123")), ("name", text("test")), ("status", text("active"))]);

    let v2_response = compat.convert_v1_to_v2(&v1_response);
    assert!(v2_response.get("id").is_some());
    assert!(v2_response.get("name").is_some());
}

#[test]
fn test_version_compatibility_layer_v2_to_v1() {
    let compat = VersionCompatibility::new();
    let v2_response = object(vec![
        ("id", text("123")),
        ("name", text("test")),
        ("metadata", object(vec![("status", text("active"))])),
    ]);

    let v1_response = compat.convert_v2_to_v1(&v2_response);
    assert!(v1_response.get("id").is_some());
    assert!(v1_response.get("name").is_some());
}

#[test]
fn test_api_version_detection_from_header() {
    let router = VersionRouter::new();
    let version = router.detect_version_from_header("v1");
    assert_eq!(version, ApiVersion::V1);

    let version = router.detect_version_from_header("v2");
    assert_eq!(version, ApiVersion::V2);
}

#[test]
fn test_api_version_default_fallback() {
    let router = VersionRouter::new();
    let version = router.detect_version_from_header("invalid");
    assert_eq!(version, ApiVersion::V1);
}

#[test]
fn test_deprecation_schedule_v1() {
    let schedule = DeprecationSchedule::new();
    let deprecation_info = schedule.get_deprecation_info(&ApiVersion::V1);

    assert!(deprecation_info.is_some());
    assert!(deprecation_info.unwrap().deprecated);
}

#[test]
fn test_deprecation_schedule_v2() {
    let schedule = DeprecationSchedule::new();
    let deprecation_info = schedule.get_deprecation_info(&ApiVersion::V2);

    assert!(deprecation_info.is_some());
    assert!(!deprecation_info.unwrap().deprecated);
}

#[test]
fn test_deprecation_schedule_sunset_date() {
    let schedule = DeprecationSchedule::new();
    let deprecation_info = schedule.get_deprecation_info(&ApiVersion::V1);

    assert!(deprecation_info.is_some());
    assert!(deprecation_info.unwrap().sunset_date.is_some());
}

#[test]
fn test_deprecation_warning_headers() {
    let schedule = DeprecationSchedule::new();
    let headers = schedule.get_warning_headers(&ApiVersion::V1);

    assert!(!headers.is_empty());
    assert!(headers.iter().any(|h| h.0.contains("deprecation")));
}

#[test]
fn test_version_specific_endpoint_routing() {
    let router = VersionRouter::new();
    let path_v1 = router.route_endpoint("/api/v1/check-ins");
    let path_v2 = router.route_endpoint("/api/v2/check-ins");

    assert_ne!(path_v1, path_v2);
}

#[test]
fn test_backward_compatibility_v1_field_support() {
    let compat = VersionCompatibility::new();
    let v1_request = object(vec![("user_id", text("123")), ("action", text("check-in"))]);

    assert!(compat.is_v1_compatible(&v1_request));
}

#[test]
fn test_forward_compatibility_v2_field_support() {
    let compat = VersionCompatibility::new();
    let v2_request = object(vec![
        ("user_id", text("123")),
        ("action", text("check-in")),
        ("metadata", object(vec![("source", text("mobile"))])),
    ]);

    assert!(compat.is_v2_compatible(&v2_request));
}

#[test]
fn test_version_specific_error_messages() {
    let router = VersionRouter::new();
    let v1_error = router.format_error(&ApiVersion::V1, "Invalid request");
    let v2_error = router.format_error(&ApiVersion::V2, "Invalid request");

    assert!(v1_error.contains("Invalid request"));
    assert!(v2_error.contains("Invalid request"));
}

#[test]
fn test_multiple_version_support() {
    let router = VersionRouter::new();
    let versions = router.get_supported_versions();

    assert!(versions.contains(&ApiVersion::V1));
    assert!(versions.contains(&ApiVersion::V2));
}

#[test]
fn test_content_negotiation_by_version() {
    let router = VersionRouter::new();
    let content_type_v1 = router.get_content_type(&ApiVersion::V1);
    let content_type_v2 = router.get_content_type(&ApiVersion::V2);

    assert_eq!(content_type_v1, "application/json");
    assert_eq!(content_type_v2, "application/json");
}

#[test]
fn test_version_migration_guide() {
    let schedule = DeprecationSchedule::new();
    let migration_guide = schedule.get_migration_guide(&ApiVersion::V1);

    assert!(migration_guide.is_some());
    assert!(!migration_guide.unwrap().is_empty());
}

#[test]
fn test_v1_check_in_response_format() {
    let compat = VersionCompatibility::new();
    let response = object(vec![
        ("id", text("check-in-123")),
        ("user_id", text("user-456")),
        ("timestamp", text("2023-09-25T10:30:00Z")),
        ("status", text("completed")),
    ]);

    let v1_response = compat.format_response(&response, &ApiVersion::V1);
    assert!(v1_response.get("id").is_some());
    assert!(v1_response.get("status").is_some());
}

#[test]
fn test_v2_check_in_response_format() {
    let compat = VersionCompatibility::new();
    let response = object(vec![
        ("id", text("check-in-123")),
        ("user_id", text("user-456")),
        ("timestamp", text("2023-09-25T10:30:00Z")),
        ("status", text("completed")),
        (
            "metadata",
            object(vec![("location", text("building-a")), ("device", text("mobile"))]),
        ),
    ]);

    let v2_response = compat.format_response(&response, &ApiVersion::V2);
    assert!(v2_response.get("id").is_some());
    assert!(v2_response.get("metadata").is_some());
}

#[test]
fn test_version_routing_with_path_parameters() {
    let router = VersionRouter::new();
    let path = "/api/v1/users/:id/profile";
    let parsed = router.parse_versioned_path(path);

    assert_eq!(parsed.version, ApiVersion::V1);
    assert!(parsed.path.contains("users"));
}

#[test]
fn test_version_compatibility_field_mapping() {
    let compat = VersionCompatibility::new();
    let v1_data = object(vec![("check_in_id", text("123")), ("user_id", text("456"))]);

    let mapped = compat.map_v1_to_v2_fields(&v1_data);
    assert!(mapped.get("id").is_some() || mapped.get("check_in_id").is_some());
}

#[test]
fn test_version_deprecation_notice_in_response() {
    let schedule = DeprecationSchedule::new();
    let mut response = object(vec![("data", text("test"))]);

    schedule.add_deprecation_notice(&mut response, &ApiVersion::V1);
    assert!(response.get("_deprecation_notice").is_some());
}

#[test]
fn test_api_version_header_parsing() {
    let router = VersionRouter::new();
    let version = router.parse_version_header("application/vnd.api+json;version=v2");
    assert_eq!(version, ApiVersion::V2);
}

#[test]
fn test_concurrent_version_requests() {
    let router = Arc::new(VersionRouter::new());
    for i in 0..10 {
        let shared = Arc::clone(&router);
        let version = if i % 2 == 0 { ApiVersion::V1 } else { ApiVersion::V2 };
        assert!(shared.get_handler(&version).is_some());
    }
}

#[test]
fn versions_are_found_in_paths_and_headers() {
    let router = VersionRouter::default();
    assert_eq!(router.get_handler(&ApiVersion::V1).unwrap(), "v1_handler");
    assert_eq!(router.get_handler(&ApiVersion::V2).unwrap(), "v2_handler");
    assert_eq!(router.parse_versioned_path("/api/v2/x").version, ApiVersion::V2);
    // Only the exact name counts in the plain header.
    assert_eq!(router.detect_version_from_header("api v2"), ApiVersion::V1);
    assert_eq!(router.parse_version_header("api v2"), ApiVersion::V2);
}

#[test]
fn requests_without_the_required_fields_are_incompatible() {
    let compat = VersionCompatibility::default();
    let no_action = object(vec![("user_id", text("1"))]);
    assert!(!compat.is_v1_compatible(&no_action));
    assert!(!compat.is_v2_compatible(&no_action));
    assert!(!compat.is_v1_compatible(&text("user_id action")));
}

#[test]
fn notices_are_added_to_objects_alone() {
    let schedule = DeprecationSchedule::new();
    let mut list = JsonValue::List(vec![]);
    schedule.add_deprecation_notice(&mut list, &ApiVersion::V1);
    assert_eq!(list, JsonValue::List(vec![]));
    let mut noted = object(vec![("_deprecation_notice", text("old"))]);
    schedule.add_deprecation_notice(&mut noted, &ApiVersion::V1);
    assert_eq!(
        noted,
        object(vec![("_deprecation_notice", text("This API version is deprecated"))])
    );
    let info = schedule.get_deprecation_info(&ApiVersion::V1).unwrap();
    assert_eq!(info.sunset_date, Some("2024-12-31".to_string()));
    assert!(schedule.get_deprecation_info(&ApiVersion::V2).unwrap().sunset_date.is_none());
}
