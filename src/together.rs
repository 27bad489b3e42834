//! Hosts that speak Together's protocol: their model list, context sizes and
//! prompt layout.

use crate::chat_template::{
    apply_chat_template, builtin_chat_spec, builtin_chat_template, chat_output, opt_view, ChatTemplate,
};
use crate::model::ModelError;
use crate::text::{replace, replace_all, str_eq};
use vstd::prelude::*;
use vstd::string::StringExecFns;

verus! {

pub const DEFAULT_HOST: &'static str = "https://api.together.xyz";

/// The context size assumed for a model whose size is not listed.
pub const DEFAULT_CONTEXT_LENGTH: u32 = 2048;

#[derive(Debug)]
pub struct TogetherHost {
    pub host: String,
    pub api_key: Option<String>,
}

/// How a model wants its prompt laid out.
#[derive(Debug, Clone, Default)]
pub struct ModelConfig {
    pub add_generation_prompt: Option<bool>,
    pub chat_template_name: Option<String>,
    pub chat_template: Option<String>,
    pub pre_prompt: Option<String>,
    pub prompt_format: Option<String>,
    pub stop: Option<Vec<String>>,
}

/// What the host lists about one model.
#[derive(Debug, Clone)]
pub struct ModelInfo {
    pub context_length: Option<u32>,
    pub name: String,
    pub config: ModelConfig,
}

/// The text of an optional string that is present and not empty.
pub open spec fn nonempty(s: Option<Seq<char>>) -> Option<Seq<char>> {
    match s {
        Some(t) => if t.len() > 0 {
            Some(t)
        } else {
            None
        },
        None => None,
    }
}

/// The prompt with the model's pre-prompt and the system prompt put in front:
/// the pre-prompt directly, the system prompt followed by a blank line.
pub open spec fn fused_prompt(
    preprompt: Option<Seq<char>>,
    prompt: Seq<char>,
    system: Option<Seq<char>>,
) -> Seq<char> {
    match (nonempty(preprompt), nonempty(system)) {
        (Some(p), Some(s)) => p + s + "\n\n"@ + prompt,
        (Some(p), None) => p + prompt,
        (None, Some(s)) => s + "\n\n"@ + prompt,
        (None, None) => prompt,
    }
}

/// The model named `model` in a host's list: the first that has that name.
pub open spec fn listed_at(infos: Seq<ModelInfo>, model: Seq<char>, i: int) -> bool {
    0 <= i < infos.len() && infos[i].name@ == model && forall|j: int|
        0 <= j < i ==> #[trigger] infos[j].name@ != model
}

impl TogetherHost {
    pub fn new(host: String, api_key: Option<String>) -> (r: Self)
        ensures
            r.host == host,
            r.api_key == api_key,
    {
        TogetherHost { host, api_key }
    }

    pub fn host(&self) -> (r: &str)
        ensures
            r@ == self.host@,
    {
        self.host.as_str()
    }

    /// The entry for `model` in the host's model list.
    pub fn get_model_info<'a>(&self, infos: &'a [ModelInfo], model: &str) -> (r: Result<&'a ModelInfo, ModelError>)
        ensures
            match r {
                Ok(info) => exists|i: int| listed_at(infos@, model@, i) && infos@[i] == *info,
                Err(e) => e matches ModelError::ModelNotFound(m) && m@ == model@ && forall|j: int|
                    0 <= j < infos@.len() ==> #[trigger] infos@[j].name@ != model@,
            },
    {
        let mut i: usize = 0;
        while i < infos.len()
            invariant
                0 <= i <= infos@.len(),
                forall|j: int| 0 <= j < i ==> #[trigger] infos@[j].name@ != model@,
            decreases infos.len() - i,
        {
            if str_eq(infos[i].name.as_str(), model) {
                assert(listed_at(infos@, model@, i as int));
                return Ok(&infos[i]);
            }
            i = i + 1;
        }
        Err(ModelError::ModelNotFound(model.to_owned()))
    }

    /// The context size of `model` in the host's model list: the listed size,
    /// else the default.
    pub fn model_context_limit(&self, infos: &[ModelInfo], model: &str) -> (r: Result<usize, ModelError>)
        ensures
            match r {
                Ok(n) => exists|i: int|
                    listed_at(infos@, model@, i) && n == match infos@[i].context_length {
                        Some(c) => c as usize,
                        None => DEFAULT_CONTEXT_LENGTH as usize,
                    },
                Err(e) => e matches ModelError::ModelNotFound(m) && m@ == model@,
            },
    {
        let info = match self.get_model_info(infos, model) {
            Ok(info) => info,
            Err(e) => return Err(e),
        };
        let size = match info.context_length {
            Some(c) => c,
            None => DEFAULT_CONTEXT_LENGTH,
        };
        Ok(size as usize)
    }

    /// Lay the prompt out as the model wants it: through its prompt format,
    /// where it has one, then its own chat template, then a built-in template
    /// that it names; otherwise with the pre-prompt and system prompt in front.
    pub fn format_prompt(&self, config: &ModelConfig, prompt: &str, system: Option<&str>) -> (r: Result<
        String,
        ModelError,
    >)
        ensures
            ({
                let pre = match config.pre_prompt {
                    Some(p) => Some(p@),
                    None => None,
                };
                let agp = match config.add_generation_prompt {
                    Some(a) => a,
                    None => false,
                };
                let expected = match config.prompt_format {
                    Some(f) => Some(
                        fused_prompt(pre, replace_all(f@, "{prompt}"@, prompt@), opt_view(system)),
                    ),
                    None => match config.chat_template {
                        Some(t) => chat_output(t@, true, prompt@, opt_view(system), agp),
                        None => match config.chat_template_name {
                            Some(n) => match builtin_chat_spec(n@) {
                                Some((t, m)) => chat_output(t, m, prompt@, opt_view(system), agp),
                                None => Some(fused_prompt(pre, prompt@, opt_view(system))),
                            },
                            None => Some(fused_prompt(pre, prompt@, opt_view(system))),
                        },
                    },
                };
                match expected {
                    Some(out) => r matches Ok(s) && s@ == out,
                    None => r == Err::<String, ModelError>(ModelError::FormatPrompt),
                }
            }),
    {
        let agp = match config.add_generation_prompt {
            Some(a) => a,
            None => false,
        };
        if let Some(prompt_format) = &config.prompt_format {
            proof {
                reveal_strlit("{prompt}");
            }
            let formatted = replace(prompt_format.as_str(), "{prompt}", prompt);
            return Ok(self.fuse_system_prompt(&config.pre_prompt, formatted.as_str(), system));
        }
        if let Some(template) = &config.chat_template {
            let chat = ChatTemplate { template: template.as_str(), stop: None, message_array: true };
            return apply_chat_template(chat, prompt, system, agp);
        }
        if let Some(name) = &config.chat_template_name {
            if let Some(chat) = builtin_chat_template(name.as_str()) {
                return apply_chat_template(chat, prompt, system, agp);
            }
        }
        Ok(self.fuse_system_prompt(&config.pre_prompt, prompt, system))
    }

    /// Put the model's pre-prompt and the system prompt in front of `prompt`.
    pub fn fuse_system_prompt(&self, preprompt: &Option<String>, prompt: &str, system: Option<&str>) -> (r:
        String)
        ensures
            r@ == fused_prompt(
                match preprompt {
                    Some(p) => Some(p@),
                    None => None,
                },
                prompt@,
                match system {
                    Some(s) => Some(s@),
                    None => None,
                },
            ),
    {
        let pre: Option<&str> = match preprompt {
            Some(p) => if p.as_str().is_empty() {
                None
            } else {
                Some(p.as_str())
            },
            None => None,
        };
        let sys: Option<&str> = match system {
            Some(s) => if s.is_empty() {
                None
            } else {
                Some(s)
            },
            None => None,
        };
        match (pre, sys) {
            (Some(p), Some(s)) => {
                let mut out = p.to_owned();
                out.append(s);
                out.append("\n\n");
                out.append(prompt);
                out
            },
            (Some(p), None) => {
                let mut out = p.to_owned();
                out.append(prompt);
                out
            },
            (None, Some(s)) => {
                let mut out = s.to_owned();
                out.append("\n\n");
                out.append(prompt);
                out
            },
            (None, None) => prompt.to_owned(),
        }
    }
}

} // verus!
