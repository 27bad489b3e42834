use promptbox::openai::{model_context_limit, OpenAiHost};

/// Check against a bunch of real models to make sure the logic is right
#[test]
fn openai_model_context_values() {
    assert_eq!(model_context_limit("gpt-3.5-turbo"), 4096);
    assert_eq!(model_context_limit("gpt-3.5-turbo-16k"), 16385);
    assert_eq!(model_context_limit("gpt-3.5-turbo-1106"), 16385);
    assert_eq!(model_context_limit("gpt-3.5-turbo-instruct"), 4096);
    assert_eq!(model_context_limit("gpt-3.5-turbo-0613"), 4096);
    assert_eq!(model_context_limit("gpt-4-1106-preview"), 128000);
    assert_eq!(model_context_limit("gpt-4-vision-preview"), 128000);
    assert_eq!(model_context_limit("gpt-4"), 8192);
    assert_eq!(model_context_limit("gpt-4-0613"), 8192);
    assert_eq!(model_context_limit("gpt-4-32k"), 32768);
    assert_eq!(model_context_limit("gpt-4-32k-0613"), 32768);
}

/// The same names through a host that enforces OpenAI's limits.
#[test]
fn model_context_values() {
    let host = OpenAiHost::new(None, None, true, true);
    let limit = |name: &str| host.model_context_limit(name).unwrap();
    assert_eq!(limit("gpt-3.5-turbo"), 4096);
    assert_eq!(limit("gpt-3.5-turbo-16k"), 16385);
    assert_eq!(limit("gpt-3.5-turbo-1106"), 16385);
    assert_eq!(limit("gpt-3.5-turbo-instruct"), 4096);
    assert_eq!(limit("gpt-3.5-turbo-0613"), 4096);
    assert_eq!(limit("gpt-4-1106-preview"), 128000);
    assert_eq!(limit("gpt-4-vision-preview"), 128000);
    assert_eq!(limit("gpt-4"), 8192);
    assert_eq!(limit("gpt-4-0613"), 8192);
    assert_eq!(limit("gpt-4-32k"), 32768);
    assert_eq!(limit("gpt-4-32k-0613"), 32768);
}

#[test]
fn openai_host_defaults() {
    let host = OpenAiHost::new(None, None, true, true);
    assert_eq!(host.host(), "https://api.openai.com/v1");
    assert_eq!(host.model_context_limit("gpt-4"), Some(8192));
    let other = OpenAiHost::new(Some("http://h".to_string()), None, false, true);
    assert_eq!(other.host(), "http://h");
    assert_eq!(other.model_context_limit("gpt-4"), None);
}
