use mimofan_core::fleet::collector::TaskDuration;
use mimofan_core::http_error::sanitize_http_error_body;
use mimofan_core::llm_client::{
    classify_api_key_prefix, parse_retry_after, retry_step, RetryAfter, AuthenticationErrorContext,
    AuthenticationErrorDetail, LlmError, RetryStep,
};

#[test]
fn classify_key_prefixes() {
    assert_eq!(classify_api_key_prefix("tp-abc"), "Xiaomi MiMo Token Plan key");
    assert_eq!(classify_api_key_prefix("sk-abc"), "API key");
    assert_eq!(classify_api_key_prefix(""), "API key");
}

#[test]
fn context_from_parts_redacts_and_trims() {
    let ctx = AuthenticationErrorContext::new(
        " openai ",
        "https://user:pw@api.example.com/v1/chat",
        "gpt",
        "env",
        "  sk-secretsecret  ",
    );
    assert_eq!(ctx.provider.as_deref(), Some("openai"));
    assert_eq!(ctx.base_url_authority.as_deref(), Some("api.example.com"));
    assert_eq!(ctx.model.as_deref(), Some("gpt"));
    assert_eq!(ctx.key_source.as_deref(), Some("env"));
    assert_eq!(ctx.key_fingerprint.as_deref(), Some("sk-... (len=15)"));
    assert_eq!(ctx.key_kind.as_deref(), Some("API key"));
    assert!(!ctx.is_empty());

    let ctx2 = AuthenticationErrorContext::from_parts(None, Some("   "), None, Some(""), Some("abcd"));
    assert_eq!(ctx2.base_url_authority, None);
    assert_eq!(ctx2.key_source, None);
    assert_eq!(ctx2.key_fingerprint.as_deref(), Some("unprefixed (len=4)"));
    let empty = AuthenticationErrorContext::from_parts(None, None, None, None, None);
    assert!(empty.is_empty());
    assert!(empty.detail_segments().is_empty());
}

#[test]
fn detail_user_message_lists_segments() {
    let ctx = AuthenticationErrorContext::from_parts(Some("deepseek"), Some("api.deepseek.com"), None, None, None);
    let d = AuthenticationErrorDetail::with_context("bad key", Some(ctx));
    assert_eq!(d.message(), "bad key");
    assert_eq!(
        d.to_user_message(),
        "bad key (provider: deepseek, base URL authority: api.deepseek.com)"
    );
    let plain = AuthenticationErrorDetail::with_context("bad key", Some(AuthenticationErrorContext::default()));
    assert_eq!(plain.to_user_message(), "bad key");
    assert_eq!(AuthenticationErrorDetail::new("x").to_user_message(), "x");
}

#[test]
fn http_status_classification() {
    assert!(matches!(LlmError::from_http_response(429, "slow"), LlmError::RateLimited { .. }));
    assert!(matches!(LlmError::from_http_response(401, "no"), LlmError::AuthenticationError(_)));
    assert!(matches!(LlmError::from_http_response(403, "Invalid API Key"), LlmError::AuthenticationError(_)));
    assert!(matches!(LlmError::from_http_response(403, "blocked region"), LlmError::AuthorizationError(_)));
    assert!(matches!(LlmError::from_http_response(400, "Insufficient_Quota"), LlmError::RateLimited { .. }));
    assert!(matches!(LlmError::from_http_response(400, "prompt TOO LONG"), LlmError::ContextLengthError(_)));
    assert!(matches!(LlmError::from_http_response(400, "blocked for safety"), LlmError::ContentPolicyError(_)));
    assert!(matches!(LlmError::from_http_response(400, "model x not found"), LlmError::ModelError(_)));
    assert!(matches!(LlmError::from_http_response(400, "bad json"), LlmError::InvalidRequest { status: 400, .. }));
    assert!(matches!(LlmError::from_http_response(404, "no such Model"), LlmError::ModelError(_)));
    assert!(matches!(LlmError::from_http_response(404, "gone"), LlmError::InvalidRequest { status: 404, .. }));
    assert!(matches!(LlmError::from_http_response(503, "down"), LlmError::ServerError { status: 503, .. }));
    match LlmError::from_http_response(302, "moved") {
        LlmError::Other(m) => assert_eq!(m, "HTTP 302: moved"),
        other => panic!("unexpected {other:?}"),
    }
    assert!(LlmError::from_http_response(500, "x").is_retryable());
    assert!(!LlmError::from_http_response(401, "x").is_retryable());
    assert!(LlmError::Timeout(5).is_retryable());
}

#[test]
fn retry_after_and_display() {
    let e = LlmError::from_http_response_with_retry_after(429, "slow down", Some(2_000));
    assert_eq!(e.suggested_retry_delay(), Some(2_000));
    assert_eq!(e.to_display_string(), "Rate limit exceeded: slow down");
    let e2 = LlmError::from_http_response_with_retry_after(500, "boom", Some(2_000));
    assert_eq!(e2.suggested_retry_delay(), None);
    assert_eq!(e2.to_display_string(), "Server error (500): boom");
    assert_eq!(LlmError::Timeout(1_500).to_display_string(), "Request timed out after 1.5s");
    assert_eq!(LlmError::Timeout(250).to_display_string(), "Request timed out after 250ms");
    assert_eq!(LlmError::Timeout(0).to_display_string(), "Request timed out after 0ns");
    assert_eq!(LlmError::Timeout(2_000).to_display_string(), "Request timed out after 2s");
    assert_eq!(parse_retry_after("120"), delay(120, 0));
    assert_eq!(parse_retry_after("+3"), delay(3, 0));
    assert_eq!(parse_retry_after("Wed, 21 Oct 2015 07:28:00 GMT"), RetryAfter::NotDecimal);
    assert_eq!(parse_retry_after(""), RetryAfter::NotDecimal);
    assert_eq!(parse_retry_after("18446744073709551615"), delay(u64::MAX, 0));
    assert_eq!(parse_retry_after("18446744073709551616"), RetryAfter::NotDecimal);
}

#[test]
fn request_context_redacts_key_in_body() {
    let e = LlmError::from_http_response_with_request_context(
        401,
        "key sk-123456 rejected",
        Some("openai"),
        None,
        None,
        None,
        Some(" sk-123456 "),
    );
    assert_eq!(
        e.to_display_string(),
        "Authentication failed: key [redacted API key] rejected (provider: openai, key fingerprint: sk-... (len=9), key type: API key)"
    );
    let e2 = LlmError::authentication_error_with_context("nope", None);
    assert_eq!(e2.to_display_string(), "Authentication failed: nope");
}

#[test]
fn retry_steps() {
    let server = LlmError::from_http_response(503, "x");
    assert_eq!(retry_step(&server, 0, 3, true, 1_000), RetryStep::RetryAfter { delay_ms: 1_000 });
    assert_eq!(retry_step(&server, 3, 3, true, 1_000), RetryStep::GiveUp { attempts: 4 });
    let limited = LlmError::from_http_response_with_retry_after(429, "x", Some(7));
    assert_eq!(retry_step(&limited, 1, 3, true, 1_000), RetryStep::RetryAfter { delay_ms: 7 });
    assert_eq!(retry_step(&limited, 1, 3, false, 1_000), RetryStep::RetryAfter { delay_ms: 1_000 });
    let auth = LlmError::authentication_error("x");
    assert_eq!(retry_step(&auth, 0, 3, true, 1_000), RetryStep::GiveUp { attempts: 1 });
}

#[test]
fn sanitize_json_html_and_plain_bodies() {
    assert_eq!(
        sanitize_http_error_body(None, 400, r#"{"error":{"message":"  bad   input  "}}"#),
        "bad input"
    );
    assert_eq!(
        sanitize_http_error_body(None, 400, r#"{"error":{"code":1}}"#),
        r#"{"code":1}"#
    );
    assert_eq!(sanitize_http_error_body(None, 500, "plain\n\ntext  here"), "plain text here");
    let long = "x".repeat(2_500);
    let out = sanitize_http_error_body(None, 500, &long);
    assert_eq!(out.len(), 2_003);
    assert!(out.ends_with("..."));
    let page = "<!DOCTYPE html><html><head><style>body{}</style><script>var a=1;</script></head>\
                <body><h1>Access denied</h1><p>Cloudflare Ray ID: 8a1b2c3d4e5f6a7b</p></body></html>";
    assert_eq!(
        sanitize_http_error_body(Some("Arcee"), 403, page),
        "Arcee API returned Cloudflare Access Denied (HTTP 403). The request was blocked before it reached the model; retry with a smaller request or fewer tools, or contact provider support with ID 8a1b2c3d4e5f6a7b."
    );
    let other = "<html><body><p>Bad &amp; gateway</p></body></html>";
    assert_eq!(
        sanitize_http_error_body(None, 502, other),
        "Provider API returned an HTML error page (HTTP 502): Bad & gateway"
    );
}

#[test]
fn retry_after_reads_decimal_seconds() {
    assert_eq!(parse_retry_after("1.5"), delay(1, 500_000_000));
    assert_eq!(parse_retry_after("0.25"), delay(0, 250_000_000));
    assert_eq!(parse_retry_after("0.0005"), delay(0, 500_000));
    assert_eq!(parse_retry_after(".5"), delay(0, 500_000_000));
    assert_eq!(parse_retry_after("2."), delay(2, 0));
    assert_eq!(parse_retry_after("+1.2345678919"), delay(1, 234_567_891));
    assert_eq!(parse_retry_after("."), RetryAfter::NotDecimal);
    assert_eq!(parse_retry_after("-1"), RetryAfter::NotDecimal);
    assert_eq!(parse_retry_after("1e3"), RetryAfter::NotDecimal);
    assert_eq!(parse_retry_after("1.2.3"), RetryAfter::NotDecimal);
    assert_eq!(parse_retry_after("99999999999999999999.0"), RetryAfter::NotDecimal);
}

fn delay(secs: u64, nanos: u32) -> RetryAfter {
    RetryAfter::Delay(TaskDuration { secs, nanos })
}
