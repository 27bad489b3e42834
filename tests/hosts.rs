use promptbox::error::Error;
use promptbox::hosts::{configure_hosts, HostDefinition, HostDefinitionInput, HostProtocol};
use promptbox::ollama::{context_size_from_parameters, parse_decimal, OllamaHost};
use promptbox::model::ModelError;
use promptbox::together::{ModelConfig, ModelInfo, TogetherHost};

#[test]
fn default_host_is_valid() {
    let builtin = HostDefinition::builtin();
    assert!(builtin.contains_key(HostDefinition::default_host()));
}

#[test]
fn builtin_has_every_host() {
    let builtin = HostDefinition::builtin();
    assert_eq!(builtin.len(), 8);
    assert_eq!(builtin["openai"].endpoint, "https://api.openai.com/v1");
    assert_eq!(builtin["together"].protocol, HostProtocol::Together);
    assert!(!builtin["fireworks"].send_app_id);
}

#[test]
fn host_requires_endpoint_and_protocol() {
    let no_endpoint = HostDefinitionInput {
        protocol: Some(HostProtocol::Ollama),
        ..Default::default()
    };
    assert!(matches!(
        HostDefinition::from_input(no_endpoint),
        Err(Error::MissingField(f)) if f == "endpoint"
    ));
    let no_protocol = HostDefinitionInput {
        endpoint: Some("http://x".to_string()),
        ..Default::default()
    };
    assert!(matches!(
        HostDefinition::from_input(no_protocol),
        Err(Error::MissingField(f)) if f == "protocol"
    ));
}

#[test]
fn host_defaults_follow_protocol() {
    let input = HostDefinitionInput {
        endpoint: Some("http://x".to_string()),
        protocol: Some(HostProtocol::OpenAi),
        ..Default::default()
    };
    let host = HostDefinition::from_input(input).unwrap();
    assert!(!host.limit_context_length);
    assert!(host.send_app_id);
    let input = HostDefinitionInput {
        endpoint: Some("http://x".to_string()),
        protocol: Some(HostProtocol::Together),
        ..Default::default()
    };
    assert!(HostDefinition::from_input(input).unwrap().limit_context_length);
}

#[test]
fn merge_host_input() {
    let mut host = HostDefinition::builtin()["ollama"].clone();
    host.merge_from_input(&HostDefinitionInput {
        endpoint: Some("http://other".to_string()),
        api_key: Some("KEY".to_string()),
        ..Default::default()
    });
    assert_eq!(host.endpoint, "http://other");
    assert_eq!(host.api_key, Some("KEY".to_string()));
    assert_eq!(host.protocol, HostProtocol::Ollama);

    let mut input = HostDefinitionInput {
        endpoint: Some("a".to_string()),
        send_app_id: Some(false),
        ..Default::default()
    };
    input.merge_from_input(&HostDefinitionInput {
        endpoint: Some("b".to_string()),
        ..Default::default()
    });
    assert_eq!(input.endpoint, Some("b".to_string()));
    assert_eq!(input.send_app_id, Some(false));
}

#[test]
fn host_addresses() {
    assert_eq!(OllamaHost::new(None).host(), "http://localhost:11434");
    assert_eq!(OllamaHost::new(Some("http://o".to_string())).host(), "http://o");
    assert_eq!(TogetherHost::new("http://t".to_string(), None).host(), "http://t");
}

fn listed_models() -> Vec<ModelInfo> {
    vec![
        ModelInfo {
            context_length: Some(131072),
            name: "yarn-mistral:7b-128k-q5_K_M".to_string(),
            config: ModelConfig::default(),
        },
        ModelInfo {
            context_length: None,
            name: "mistral:7b-instruct-q5_K_M".to_string(),
            config: ModelConfig::default(),
        },
    ]
}

/// Get the context size for a model whose listing gives it.
#[test]
fn together_model_context_with_info() {
    let host = TogetherHost::new("https://api.together.xyz".to_string(), None);
    let limit = host
        .model_context_limit(&listed_models(), "yarn-mistral:7b-128k-q5_K_M")
        .expect("Fetching context");
    assert_eq!(limit, 131072);
}

/// Get the context size for a model whose listing doesn't give it.
#[test]
fn together_model_context_without_info() {
    let host = TogetherHost::new("https://api.together.xyz".to_string(), None);
    let limit = host
        .model_context_limit(&listed_models(), "mistral:7b-instruct-q5_K_M")
        .expect("Fetching context");
    assert_eq!(limit, 2048);
}

#[test]
fn together_unknown_model() {
    let host = TogetherHost::new("https://api.together.xyz".to_string(), None);
    let err = host.model_context_limit(&listed_models(), "nope").unwrap_err();
    assert!(matches!(err, ModelError::ModelNotFound(m) if m == "nope"));
}

#[test]
fn together_fuse_system_prompt() {
    let host = TogetherHost::new("h".to_string(), None);
    let pre = Some("<pre>".to_string());
    assert_eq!(host.fuse_system_prompt(&pre, "P", Some("S")), "<pre>S\n\nP");
    assert_eq!(host.fuse_system_prompt(&pre, "P", None), "<pre>P");
    assert_eq!(host.fuse_system_prompt(&None, "P", Some("S")), "S\n\nP");
    assert_eq!(host.fuse_system_prompt(&Some(String::new()), "P", Some("")), "P");
}

/// Get the context size for a model that specifies it in the modelfile.
#[test]
fn ollama_model_context_with_info() {
    // The parameters that `yarn-mistral:7b-128k-q5_K_M` shows.
    let parameters = "num_ctx                        131072\nrope_frequency_base            10000\nstop                           \"[INST]\"";
    let limit = context_size_from_parameters(parameters).expect("Fetching context");
    assert_eq!(limit, 131072);
}

/// Get the context size for a model that doesn't specify it in the modelfile.
#[test]
fn ollama_model_context_without_info() {
    // The parameters that `mistral:7b-instruct-q5_K_M` shows.
    let parameters = "stop                           \"[INST]\"\nstop                           \"[/INST]\"";
    let limit = context_size_from_parameters(parameters).expect("Fetching context");
    assert_eq!(limit, 2048);
}

#[test]
fn ollama_context_parameter_errors() {
    assert_eq!(
        context_size_from_parameters("num_ctx abc"),
        Err(ModelError::Deserialize)
    );
    assert_eq!(context_size_from_parameters("num_ctx"), Err(ModelError::Deserialize));
    assert_eq!(context_size_from_parameters("a 1\nnum_ctx 77 \nnum_ctx 9"), Ok(77));
    assert_eq!(context_size_from_parameters(""), Ok(2048));
}

#[test]
fn decimal_parsing() {
    assert_eq!(parse_decimal(b"123"), Some(123));
    assert_eq!(parse_decimal(b"+7"), Some(7));
    assert_eq!(parse_decimal(b"+"), None);
    assert_eq!(parse_decimal(b""), None);
    assert_eq!(parse_decimal(b"1x"), None);
    assert_eq!(parse_decimal(b"99999999999999999999999"), None);
}

#[test]
fn configure_hosts_merges_and_adds() {
    let inputs = vec![
        (
            "ollama".to_string(),
            HostDefinitionInput {
                endpoint: Some("http://elsewhere:11434".to_string()),
                ..Default::default()
            },
        ),
        (
            "mine".to_string(),
            HostDefinitionInput {
                endpoint: Some("http://mine".to_string()),
                protocol: Some(HostProtocol::Together),
                ..Default::default()
            },
        ),
    ];
    let table = configure_hosts(HostDefinition::builtin_list(), inputs).unwrap();
    assert_eq!(table.len(), 9);
    assert_eq!(table[4].0, "ollama");
    assert_eq!(table[4].1.endpoint, "http://elsewhere:11434");
    assert_eq!(table[4].1.protocol, HostProtocol::Ollama);
    assert_eq!(table[8].0, "mine");
    assert!(table[8].1.limit_context_length);
}

#[test]
fn configure_hosts_rejects_incomplete_new_host() {
    let inputs = vec![(
        "mine".to_string(),
        HostDefinitionInput {
            endpoint: Some("http://mine".to_string()),
            ..Default::default()
        },
    )];
    assert!(matches!(
        configure_hosts(HostDefinition::builtin_list(), inputs),
        Err(Error::ParseConfig)
    ));
}

#[test]
fn config_host_merge() {
    let mut first = HostDefinitionInput {
        endpoint: Some("foo_endpoint".to_string()),
        api_key: Some("foo_key".to_string()),
        protocol: Some(HostProtocol::OpenAi),
        limit_context_length: Some(true),
        ..Default::default()
    };
    let second = HostDefinitionInput {
        endpoint: Some("bar_endpoint".to_string()),
        ..Default::default()
    };

    first.merge_from_input(&second);

    assert_eq!(first.endpoint, Some("bar_endpoint".to_string()));
    assert_eq!(first.api_key, Some("foo_key".to_string()));
    assert!(matches!(first.protocol, Some(HostProtocol::OpenAi)));
    assert_eq!(first.limit_context_length, Some(true));
}

#[test]
fn config_merge_host_with_builtin() {
    let inputs = vec![
        (
            "foo".to_string(),
            HostDefinitionInput {
                endpoint: Some("foo_endpoint".to_string()),
                api_key: Some("foo_key".to_string()),
                protocol: Some(HostProtocol::OpenAi),
                limit_context_length: Some(true),
                ..Default::default()
            },
        ),
        (
            "ollama".to_string(),
            HostDefinitionInput {
                endpoint: Some("ollama_endpoint".to_string()),
                limit_context_length: Some(false),
                ..Default::default()
            },
        ),
    ];

    let table = configure_hosts(HostDefinition::builtin_list(), inputs).unwrap();
    let get = |name: &str| &table.iter().find(|(n, _)| n == name).unwrap().1;

    let host = get("foo");
    assert_eq!(host.endpoint, "foo_endpoint");
    assert_eq!(host.api_key, Some("foo_key".to_string()));
    assert!(matches!(host.protocol, HostProtocol::OpenAi));
    assert_eq!(host.limit_context_length, true);

    let host = get("ollama");
    assert_eq!(host.endpoint, "ollama_endpoint");
    assert_eq!(host.api_key, None);
    assert!(matches!(host.protocol, HostProtocol::Ollama));
    assert_eq!(host.limit_context_length, false);
}

#[test]
fn host_requires_endpoint() {
    let inputs = vec![(
        "foo".to_string(),
        HostDefinitionInput {
            endpoint: None,
            api_key: Some("foo_key".to_string()),
            protocol: Some(HostProtocol::OpenAi),
            limit_context_length: Some(true),
            ..Default::default()
        },
    )];

    let _ = configure_hosts(HostDefinition::builtin_list(), inputs).unwrap_err();
}

#[test]
fn host_requires_protocol() {
    let inputs = vec![(
        "foo".to_string(),
        HostDefinitionInput {
            endpoint: Some("foo_endpoint".to_string()),
            ..Default::default()
        },
    )];

    let _ = configure_hosts(HostDefinition::builtin_list(), inputs).unwrap_err();
}
