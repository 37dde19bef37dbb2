use repoharbor::cloud::{api_error, api_error_with};
use repoharbor::cloud::{completion_answer, model_to_use};
use repoharbor::cloud::model_list;
use repoharbor::cloud::{host_is_loopback, normalize_base, rejects_reasoning_effort};

#[test]
fn normalize_base_requires_https_off_loopback() {
    assert_eq!(
        normalize_base("https://api.groq.com/openai/v1/").unwrap(),
        "https://api.groq.com/openai/v1"
    );
    assert_eq!(normalize_base("http://localhost:1234/v1").unwrap(), "http://localhost:1234/v1");
    assert!(normalize_base("http://127.0.0.1:8000/v1").is_ok());
    assert!(normalize_base("http://api.example.com/v1").is_err());
    assert!(normalize_base("ftp://example.com/v1").is_err());
    assert!(normalize_base("api.groq.com/openai/v1").is_err());
    assert!(normalize_base("   ").is_err());
}

#[test]
fn only_a_reasoning_effort_complaint_triggers_the_retry() {
    assert!(rejects_reasoning_effort(400, "AI API 400: unknown parameter 'reasoning_effort'"));
    assert!(!rejects_reasoning_effort(402, "requires a subscription"));
    assert!(!rejects_reasoning_effort(401, "invalid api key"));
    assert!(!rejects_reasoning_effort(404, "model not found"));
    assert!(!rejects_reasoning_effort(500, "reasoning_effort"));
}

#[test]
fn loopback_hosts_are_recognised() {
    assert!(host_is_loopback("localhost"));
    assert!(host_is_loopback("127.0.0.1"));
    assert!(!host_is_loopback("api.example.com"));
}

#[test]
fn provider_errors_surface_the_message_never_the_status_alone() {
    assert_eq!(
        api_error("401 Unauthorized", "{\"error\":{\"message\":\"Invalid API key\"}}"),
        "AI API 401 Unauthorized: Invalid API key"
    );
    assert_eq!(api_error("429 Too Many Requests", "{\"error\":\"slow down\"}"), "AI API 429 Too Many Requests: slow down");
    assert_eq!(api_error("500 Internal Server Error", "  oops  "), "AI API 500 Internal Server Error: oops");
    assert_eq!(api_error("502 Bad Gateway", ""), "AI API 502 Bad Gateway");
    let long = "x".repeat(400);
    assert_eq!(api_error_with("500", &long, None).len(), "AI API 500: ".len() + 300);
}

#[test]
fn empty_completions_are_errors_that_name_the_cause() {
    assert_eq!(completion_answer("m", "  hi \n", None), Ok("hi".to_string()));
    let e = completion_answer("m", "", Some("thinking...")).unwrap_err();
    assert!(e.contains("spent its whole token budget thinking"), "{e}");
    let e = completion_answer("m", " ", Some("  ")).unwrap_err();
    assert_eq!(e, "model m returned an empty response — try another model in Settings");
    assert_eq!(model_to_use("  llama  "), Ok("llama".to_string()));
    assert!(model_to_use(" ").is_err());
}

#[test]
fn model_lists_are_sorted_and_skip_blank_ids() {
    let got = model_list(vec!["b".into(), "".into(), "a".into(), "B".into(), "a".into()]);
    assert_eq!(
        got,
        vec![("B".to_string(), 0), ("a".to_string(), 0), ("a".to_string(), 0), ("b".to_string(), 0)]
    );
}
