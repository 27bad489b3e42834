//! Chat templates: laying a prompt and a system prompt out the way a model
//! was trained to read them.

use crate::model::ModelError;
use crate::text::str_eq;
use vstd::prelude::*;
use vstd::string::StringExecFns;

verus! {

pub const DEFAULT_CHAT_TEMPLATE: &'static str = "{% for message in messages %}{{'<|im_start|>' + message['role'] + '\n' + message['content'] + '<|im_end|>' + '\n'}}{% endfor %}";

pub const LLAMA_TEMPLATE: &'static str = "<s>[INST] {% if system %}<<SYS>>\n{{system}}\n<</SYS>>\n\n{% endif %}{{prompt}} [/INST] ";

/// What is appended to the output when a generation prompt is asked for.
pub const GENERATION_PROMPT: &'static str = "<|im_start|>assistant\n";

/// The stop sequences of the Llama template.
pub const LLAMA_STOP: [&'static str; 1] = ["</s>"];

#[derive(Debug, Clone, Copy)]
pub struct ChatTemplate<'a> {
    pub template: &'a str,
    pub stop: Option<&'static [&'static str]>,
    /// true to use messages as an array like the normal chat templates
    /// false to use "system" and "prompt" in the context
    pub message_array: bool,
}

/// The stop sequences of the built-in template of that name.
pub open spec fn builtin_stop_spec(name: Seq<char>) -> Option<Seq<Seq<char>>> {
    if name == "llama"@ {
        Some(seq!["</s>"@])
    } else {
        None
    }
}

/// The text of each stop sequence.
pub open spec fn stop_texts(s: Option<&[&str]>) -> Option<Seq<Seq<char>>> {
    match s {
        Some(list) => Some(Seq::new(list@.len(), |i: int| list@[i]@)),
        None => None,
    }
}

/// The built-in template of that name, and whether it reads a message list.
pub open spec fn builtin_chat_spec(name: Seq<char>) -> Option<(Seq<char>, bool)> {
    if name == "llama"@ {
        Some((LLAMA_TEMPLATE@, false))
    } else if name == "default"@ {
        Some((DEFAULT_CHAT_TEMPLATE@, true))
    } else {
        None
    }
}

/// The built-in chat template of that name: `llama` or `default`.
pub fn builtin_chat_template(name: &str) -> (r: Option<ChatTemplate<'static>>)
    ensures
        match builtin_chat_spec(name@) {
            Some((t, m)) => r matches Some(c) && c.template@ == t && c.message_array == m
                && stop_texts(c.stop) == builtin_stop_spec(name@),
            None => r is None,
        },
{
    if str_eq(name, "llama") {
        let stop = LLAMA_STOP.as_slice();
        assert(stop_texts(Some(stop)) =~~= builtin_stop_spec(name@));
        Some(ChatTemplate { template: LLAMA_TEMPLATE, stop: Some(stop), message_array: false })
    } else if str_eq(name, "default") {
        Some(ChatTemplate { template: DEFAULT_CHAT_TEMPLATE, stop: None, message_array: true })
    } else {
        None
    }
}

/// What rendering `template` gives with a `messages` list of role and content
/// maps and the `add_generation_prompt` flag, or `None` where it fails.
pub uninterp spec fn render_messages_result(
    template: Seq<char>,
    messages: Seq<(Seq<char>, Seq<char>)>,
    add_generation_prompt: bool,
) -> Option<Seq<char>>;

/// What rendering `template` gives with the `system` and `prompt` fields, or
/// `None` where it fails.
pub uninterp spec fn render_fields_result(
    template: Seq<char>,
    system: Option<Seq<char>>,
    prompt: Seq<char>,
) -> Option<Seq<char>>;

/// Relies on minijinja's `Environment::render_str`: it renders the template
/// with a context holding `messages`, a list of maps with `role` and `content`,
/// and `add_generation_prompt`. The result depends on these alone.
#[verifier::external_body]
fn render_messages(template: &str, messages: &Vec<(String, String)>, add_generation_prompt: bool) -> (r:
    Result<String, String>)
    ensures
        match r {
            Ok(s) => render_messages_result(template@, message_views(messages@), add_generation_prompt)
                == Some(s@),
            Err(_) => render_messages_result(
                template@,
                message_views(messages@),
                add_generation_prompt,
            ) is None,
        },
{
    let list: Vec<minijinja::Value> = messages
        .iter()
        .map(|(role, content)| minijinja::Value::from_iter([("role", role.as_str()), ("content", content.as_str())]))
        .collect();
    let ctx = minijinja::Value::from_iter([
        ("messages", minijinja::Value::from(list)),
        ("add_generation_prompt", minijinja::Value::from(add_generation_prompt)),
    ]);
    minijinja::Environment::new().render_str(template, ctx).map_err(|e| e.to_string())
}

/// Relies on minijinja's `Environment::render_str`: it renders the template
/// with a context holding `system` (none where absent) and `prompt`. The result
/// depends on these alone.
#[verifier::external_body]
fn render_fields(template: &str, system: Option<&str>, prompt: &str) -> (r: Result<String, String>)
    ensures
        match r {
            Ok(s) => render_fields_result(template@, opt_view(system), prompt@) == Some(s@),
            Err(_) => render_fields_result(template@, opt_view(system), prompt@) is None,
        },
{
    let ctx = minijinja::Value::from_iter([
        ("system", minijinja::Value::from(system)),
        ("prompt", minijinja::Value::from(prompt)),
    ]);
    minijinja::Environment::new().render_str(template, ctx).map_err(|e| e.to_string())
}

/// The text of an optional string.
pub open spec fn opt_view(s: Option<&str>) -> Option<Seq<char>> {
    match s {
        Some(t) => Some(t@),
        None => None,
    }
}

/// The role and content of each message.
pub open spec fn message_views(m: Seq<(String, String)>) -> Seq<(Seq<char>, Seq<char>)> {
    Seq::new(m.len(), |i: int| (m[i].0@, m[i].1@))
}

/// The messages of a chat: the system prompt, where there is one, then the user's prompt.
pub open spec fn chat_messages(system: Option<Seq<char>>, prompt: Seq<char>) -> Seq<(Seq<char>, Seq<char>)> {
    match system {
        Some(s) => seq![("system"@, s), ("user"@, prompt)],
        None => seq![("user"@, prompt)],
    }
}

/// The rendered chat with the generation prompt appended where it is asked for.
pub open spec fn finished(output: Seq<char>, add_generation_prompt: bool) -> Seq<char> {
    if add_generation_prompt {
        output + GENERATION_PROMPT@
    } else {
        output
    }
}

/// What applying a template gives, or `None` where rendering fails.
pub open spec fn chat_output(
    template: Seq<char>,
    message_array: bool,
    prompt: Seq<char>,
    system: Option<Seq<char>>,
    add_generation_prompt: bool,
) -> Option<Seq<char>> {
    let rendered = if message_array {
        render_messages_result(template, chat_messages(system, prompt), add_generation_prompt)
    } else {
        render_fields_result(template, system, prompt)
    };
    match rendered {
        Some(out) => Some(finished(out, add_generation_prompt)),
        None => None,
    }
}

/// Append the generation prompt to a rendered chat where it is asked for.
pub fn finish_chat_output(output: String, add_generation_prompt: bool) -> (r: String)
    ensures
        r@ == finished(output@, add_generation_prompt),
{
    if add_generation_prompt {
        let mut out = output;
        out.append(GENERATION_PROMPT);
        out
    } else {
        output
    }
}

/// Render a chat template with the prompt and the optional system prompt.
pub fn apply_chat_template(
    template: ChatTemplate,
    prompt: &str,
    system: Option<&str>,
    add_generation_prompt: bool,
) -> (r: Result<String, ModelError>)
    ensures
        match chat_output(
            template.template@,
            template.message_array,
            prompt@,
            opt_view(system),
            add_generation_prompt,
        ) {
            Some(out) => r matches Ok(s) && s@ == out,
            None => r == Err::<String, ModelError>(ModelError::FormatPrompt),
        },
{
    let rendered = if template.message_array {
        let mut messages: Vec<(String, String)> = Vec::new();
        if let Some(system) = system {
            messages.push(("system".to_owned(), system.to_owned()));
        }
        messages.push(("user".to_owned(), prompt.to_owned()));
        assert(message_views(messages@) =~= chat_messages(opt_view(system), prompt@));
        render_messages(template.template, &messages, add_generation_prompt)
    } else {
        render_fields(template.template, system, prompt)
    };
    match rendered {
        Ok(output) => Ok(finish_chat_output(output, add_generation_prompt)),
        Err(_) => Err(ModelError::FormatPrompt),
    }
}

} // verus!
