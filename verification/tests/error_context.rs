use ethos_protocol_backend::error_context::{
    classify, resolve_request_id, supplied_request_id, AppError, EnrichExt, EnrichedError,
    ErrorContext, RequestContext, RequestHeaders, RequestId, UserContext,
};

fn no_headers() -> RequestHeaders {
    RequestHeaders {
        request_id: None,
        correlation_id: None,
        user_id: None,
        tenant_id: None,
        roles: None,
    }
}

#[test]
fn user_context_parses_roles_header() {
    let ctx = UserContext::from_headers(None, None, Some("admin, operator"));
    assert_eq!(ctx.roles, vec!["admin".to_string(), "operator".to_string()]);
}

#[test]
fn enriched_error_preserves_status_mapping() {
    let ctx = ErrorContext::new();
    let err = EnrichedError::new(AppError::NotFound, "not found".to_string(), ctx);
    assert_eq!(err.status, 404);
    assert_eq!(err.code, "not_found");
}

#[test]
fn resolve_request_id_prefers_request_id_then_correlation_id() {
    assert_ne!(resolve_request_id(None, None), resolve_request_id(None, None));

    assert_eq!(resolve_request_id(None, Some("corr-1")), "corr-1");

    assert_eq!(resolve_request_id(Some("req-1"), Some("corr-1")), "req-1");
}

#[test]
fn blank_ids_are_replaced() {
    assert_eq!(supplied_request_id(Some("  "), Some("corr-1")), None);
    let id = resolve_request_id(Some("  "), Some("corr-1"));
    assert_eq!(id.len(), 36);
    assert_eq!(id.matches('-').count(), 4);
}

#[test]
fn every_error_has_its_status_and_code() {
    let cases = vec![
        (AppError::NotFound, 404, "not_found"),
        (AppError::InvalidInput("x".to_string()), 422, "invalid_input"),
        (AppError::Db("x".to_string()), 500, "internal_error"),
        (AppError::DatabaseError, 500, "internal_error"),
        (AppError::TwoFactorRequired, 401, "two_factor_required"),
        (AppError::TwoFactorNotEnabled, 400, "two_factor_not_enabled"),
        (AppError::Api { status: 418, code: "teapot".to_string() }, 418, "teapot"),
    ];
    for (error, status, code) in cases {
        assert_eq!(classify(&error), (status, code.to_string()));
    }
}

#[test]
fn contexts_are_built_from_requests() {
    let headers = RequestHeaders {
        correlation_id: Some("corr-9".to_string()),
        user_id: Some("u1".to_string()),
        roles: Some("a,,b ".to_string()),
        ..no_headers()
    };
    let ctx = ErrorContext::from_request(None, &headers, "GET", "/x", Some("q=1"));
    assert_eq!(ctx.correlation_id, "corr-9");
    let request = ctx.request.as_ref().unwrap();
    assert_eq!(request.method, "GET");
    assert_eq!(request.path, "/x");
    assert_eq!(request.query, Some("q=1".to_string()));
    let user = ctx.user.as_ref().unwrap();
    assert_eq!(user.user_id, Some("u1".to_string()));
    assert_eq!(user.tenant_id, None);
    assert_eq!(user.roles, vec!["a".to_string(), "".to_string(), "b".to_string()]);
    assert!(ctx.stack_trace.is_none());

    let resolved = RequestId("known".to_string());
    let ctx = ErrorContext::from_request(Some(&resolved), &headers, "GET", "/x", None);
    assert_eq!(ctx.correlation_id, "known");
    let generated = ErrorContext::from_request(None, &no_headers(), "GET", "/x", None);
    assert_eq!(generated.correlation_id.len(), 36);
}

#[test]
fn contexts_can_be_completed() {
    let ctx = ErrorContext::new()
        .with_correlation_id("id")
        .with_request(RequestContext::from_parts("PUT", "/p", None))
        .with_user(UserContext::from_headers(Some("u"), Some("t"), None))
        .with_stack_trace("frames".to_string());
    assert_eq!(ctx.correlation_id, "id");
    assert_eq!(ctx.request.as_ref().unwrap().method, "PUT");
    assert_eq!(ctx.user.as_ref().unwrap().tenant_id, Some("t".to_string()));
    assert!(ctx.user.as_ref().unwrap().roles.is_empty());
    assert_eq!(ctx.stack_trace, Some("frames".to_string()));
    let enriched = AppError::TwoFactorRequired.enrich("second factor".to_string(), ctx);
    assert_eq!(enriched.status, 401);
    assert_eq!(enriched.message, "second factor");
}

#[test]
fn default_contexts_know_nothing() {
    let context = ErrorContext::default();
    assert_eq!(context.correlation_id.len(), 36);
    assert!(context.request.is_none() && context.user.is_none() && context.stack_trace.is_none());
    let user = UserContext::default();
    assert!(user.user_id.is_none() && user.tenant_id.is_none() && user.roles.is_empty());
}
