use promptbox::chat_template::{apply_chat_template, builtin_chat_template, finish_chat_output, ChatTemplate};
use promptbox::model::ModelError;
use promptbox::together::{ModelConfig, TogetherHost};

#[test]
fn default_chat_template_with_system() {
    let template = builtin_chat_template("default").unwrap();
    let result = apply_chat_template(template, "hello", Some("sys prompt"), true).unwrap();
    assert_eq!(result, "<|im_start|>system\nsys prompt<|im_end|>\n<|im_start|>user\nhello<|im_end|>\n<|im_start|>assistant\n");
}

#[test]
fn default_chat_template_without_system() {
    let template = builtin_chat_template("default").unwrap();
    let result = apply_chat_template(template, "hello", None, true).unwrap();
    assert_eq!(
        result,
        "<|im_start|>user\nhello<|im_end|>\n<|im_start|>assistant\n"
    );
}

#[test]
fn llama_chat_template_with_system() {
    let template = builtin_chat_template("llama").unwrap();
    let result = apply_chat_template(template, "hello", Some("sys prompt"), false).unwrap();
    assert_eq!(
        result,
        "<s>[INST] <<SYS>>\nsys prompt\n<</SYS>>\n\nhello [/INST] "
    );
}

#[test]
fn llama_chat_template_without_system() {
    let template = builtin_chat_template("llama").unwrap();
    let result = apply_chat_template(template, "hello", None, false).unwrap();
    assert_eq!(result, "<s>[INST] hello [/INST] ");
}

#[test]
fn unknown_builtin_template() {
    assert!(builtin_chat_template("other").is_none());
    assert_eq!(builtin_chat_template("llama").unwrap().stop, Some(&["</s>"][..]));
}

#[test]
fn broken_template_fails_to_format() {
    let template = ChatTemplate {
        template: "{% if %}",
        stop: None,
        message_array: false,
    };
    assert_eq!(
        apply_chat_template(template, "hello", None, false),
        Err(ModelError::FormatPrompt)
    );
}

#[test]
fn generation_prompt_is_appended() {
    assert_eq!(finish_chat_output("x".to_string(), true), "x<|im_start|>assistant\n");
    assert_eq!(finish_chat_output("x".to_string(), false), "x");
}

#[test]
fn together_format_prompt_paths() {
    let host = TogetherHost::new("h".to_string(), None);
    let config = ModelConfig {
        prompt_format: Some("[{prompt}] and {prompt}".to_string()),
        pre_prompt: Some("PRE ".to_string()),
        ..Default::default()
    };
    assert_eq!(host.format_prompt(&config, "hi", None).unwrap(), "PRE [hi] and hi");

    let config = ModelConfig {
        chat_template_name: Some("llama".to_string()),
        ..Default::default()
    };
    assert_eq!(
        host.format_prompt(&config, "hello", None).unwrap(),
        "<s>[INST] hello [/INST] "
    );

    let config = ModelConfig {
        chat_template: Some("{% for m in messages %}{{m.role}}:{{m.content}};{% endfor %}".to_string()),
        add_generation_prompt: Some(false),
        ..Default::default()
    };
    assert_eq!(
        host.format_prompt(&config, "hello", Some("s")).unwrap(),
        "system:s;user:hello;"
    );

    let config = ModelConfig {
        chat_template_name: Some("unknown".to_string()),
        ..Default::default()
    };
    assert_eq!(host.format_prompt(&config, "hello", Some("s")).unwrap(), "s\n\nhello");
}
