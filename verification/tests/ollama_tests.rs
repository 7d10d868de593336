use rocinante::ollama::{chat_failure, pull_before_retry, pull_failure, pull_timeout, CloudStubs, ProviderError};

#[test]
fn missing_model_is_told_apart_from_other_failures() {
    assert_eq!(
        chat_failure(404, "{\"error\":\"model 'x:cloud' not found\"}", "x:cloud"),
        ProviderError::ModelNotFound("x:cloud".to_string())
    );
    assert_eq!(
        chat_failure(404, "no route", "m"),
        ProviderError::Api { status: 404, message: "no route".to_string() }
    );
    assert_eq!(
        chat_failure(500, "not found", "m"),
        ProviderError::Api { status: 500, message: "not found".to_string() }
    );
}

#[test]
fn only_missing_cloud_tags_are_pulled() {
    assert_eq!(pull_before_retry(&ProviderError::ModelNotFound("glm:cloud".to_string())), Some("glm:cloud".to_string()));
    assert_eq!(pull_before_retry(&ProviderError::ModelNotFound("gpt-oss-cloud".to_string())), Some("gpt-oss-cloud".to_string()));
    assert_eq!(pull_before_retry(&ProviderError::ModelNotFound("qwen3:8b".to_string())), None);
    assert_eq!(pull_before_retry(&ProviderError::Wire("x".to_string())), None);
}

#[test]
fn pull_errors_and_messages_read_well() {
    assert_eq!(
        pull_failure("glm:cloud", 401, "unauthorized").message(),
        "api error (401): pull of glm:cloud failed: unauthorized — run 'ollama signin' on this machine if you haven't"
    );
    assert_eq!(pull_timeout("glm:cloud").message(), "api error (0): pull of glm:cloud timed out");
    assert_eq!(ProviderError::ModelNotFound("m".to_string()).message(), "model not found: m");
    assert_eq!(ProviderError::Wire("bad".to_string()).message(), "wire format error: bad");
}

#[test]
fn cloud_stub_is_ensured_once_per_session() {
    let mut s = CloudStubs::new();
    assert!(s.note("glm:cloud"));
    assert!(!s.note("glm:cloud"));
    assert!(s.note("kimi:cloud"));
    assert!(!s.note("kimi:cloud"));
    assert!(!s.note("glm:cloud"));
}
