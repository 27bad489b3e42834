use promptbox::error::Error;
use promptbox::model::{parse_output_format, resolve_host_name, ModelSpec, OutputFormat};

#[test]
fn merge_full_with_plain_alias() {
    let config = ModelSpec::Full {
        model: "abc".to_string(),
        host: Some("def".to_string()),
    };
    let alias = ModelSpec::Plain("ghi".to_string());

    let result = config.merge_with_alias_spec(&alias);
    assert_eq!(
        result,
        ModelSpec::Full {
            model: "ghi".to_string(),
            host: Some("def".to_string())
        }
    );
}

#[test]
fn merge_plain_with_plain_alias() {
    let config = ModelSpec::Plain("abc".to_string());
    let alias = ModelSpec::Plain("ghi".to_string());

    let result = config.merge_with_alias_spec(&alias);
    assert_eq!(result, ModelSpec::Plain("ghi".to_string()));
}

#[test]
fn merge_full_with_full_alias() {
    let config = ModelSpec::Full {
        model: "abc".to_string(),
        host: Some("def".to_string()),
    };
    let alias = ModelSpec::Full {
        model: "ghi".to_string(),
        host: Some("jkl".to_string()),
    };

    let result = config.merge_with_alias_spec(&alias);
    assert_eq!(
        result,
        ModelSpec::Full {
            model: "ghi".to_string(),
            host: Some("def".to_string())
        }
    );
}

#[test]
fn merge_plain_with_full_alias() {
    let config = ModelSpec::Plain("abc".to_string());
    let alias = ModelSpec::Full {
        model: "ghi".to_string(),
        host: Some("jkl".to_string()),
    };

    let result = config.merge_with_alias_spec(&alias);
    assert_eq!(
        result,
        ModelSpec::Full {
            model: "ghi".to_string(),
            host: Some("jkl".to_string())
        }
    );
}

#[test]
fn merge_full_without_host_takes_alias_host() {
    let config = ModelSpec::Full {
        model: "abc".to_string(),
        host: None,
    };
    let alias = ModelSpec::Full {
        model: "ghi".to_string(),
        host: Some("jkl".to_string()),
    };
    let result = config.merge_with_alias_spec(&alias);
    assert_eq!(result.model_name(), "ghi");
    assert_eq!(result.host_name(), Some("jkl"));
}

#[test]
fn spec_names_and_equality() {
    let plain = ModelSpec::Plain("abc".to_string());
    assert_eq!(plain.model_name(), "abc");
    assert_eq!(plain.host_name(), None);
    assert_eq!(ModelSpec::default(), ModelSpec::Plain("gpt-3.5-turbo".to_string()));
    assert_eq!(ModelSpec::from("x".to_string()), ModelSpec::Plain("x".to_string()));
    assert_ne!(
        plain,
        ModelSpec::Full {
            model: "abc".to_string(),
            host: Some("h".to_string())
        }
    );
    assert_eq!(
        plain,
        ModelSpec::Full {
            model: "abc".to_string(),
            host: None
        }
    );
}

#[test]
fn output_format_names() {
    assert_eq!(parse_output_format("json"), Ok(OutputFormat::JSON));
    assert_eq!(parse_output_format("xml"), Err(Error::ArgParseFailure));
    assert_eq!("json".parse::<OutputFormat>(), Ok(OutputFormat::JSON));
}

#[test]
fn host_resolution() {
    let named = ModelSpec::Full {
        model: "abc".to_string(),
        host: Some("nonexistent_host".to_string()),
    };
    assert_eq!(resolve_host_name(&named, "ollama"), "nonexistent_host");
    assert_eq!(
        resolve_host_name(&ModelSpec::Plain("gpt-3.5-turbo-16k".to_string()), "ollama"),
        "openai"
    );
    assert_eq!(resolve_host_name(&ModelSpec::Plain("gpt-4".to_string()), "ollama"), "openai");
    assert_eq!(
        resolve_host_name(&ModelSpec::Plain("lm-studio".to_string()), "ollama"),
        "lm-studio"
    );
    assert_eq!(
        resolve_host_name(&ModelSpec::Plain("a_model".to_string()), "openrouter"),
        "openrouter"
    );
}
