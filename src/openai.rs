//! Hosts that speak the OpenAI protocol, and the context sizes of OpenAI's models.

use crate::text::{bytes_at, contains, ends_with, starts_with, str_eq};
use vstd::prelude::*;
use vstd::string::StringSliceAdditionalSpecFns;

verus! {

pub const OPENAI_HOST: &'static str = "https://api.openai.com/v1";

/// Whether `s` starts with `p`.
pub open spec fn has_prefix(s: &str, p: &str) -> bool {
    bytes_at(s.spec_bytes(), p.spec_bytes(), 0)
}

/// Whether `s` ends with `p`.
pub open spec fn has_suffix(s: &str, p: &str) -> bool {
    p.spec_bytes().len() <= s.spec_bytes().len() && bytes_at(
        s.spec_bytes(),
        p.spec_bytes(),
        s.spec_bytes().len() - p.spec_bytes().len(),
    )
}

/// Whether `p` occurs in `s`.
pub open spec fn has_infix(s: &str, p: &str) -> bool {
    exists|at: int| bytes_at(s.spec_bytes(), p.spec_bytes(), at)
}

/// The context size of an OpenAI model, by its name.
pub open spec fn openai_context_size(name: &str) -> usize {
    if has_prefix(name, "gpt-4") {
        if has_prefix(name, "gpt-4-32k") {
            32768
        } else if has_suffix(name, "preview") {
            128000
        } else {
            8192
        }
    } else if has_infix(name, "-16k") || name@ == "gpt-3.5-turbo-1106"@ {
        16385
    } else {
        4096
    }
}

/// The context size of an OpenAI model, by its name.
pub fn model_context_limit(model_name: &str) -> (r: usize)
    ensures
        r == openai_context_size(model_name),
{
    if starts_with(model_name, "gpt-4") {
        if starts_with(model_name, "gpt-4-32k") {
            32768
        } else if ends_with(model_name, "preview") {
            128000
        } else {
            8192
        }
    } else if contains(model_name, "-16k") || str_eq(model_name, "gpt-3.5-turbo-1106") {
        16385
    } else {
        4096
    }
}

#[derive(Debug)]
pub struct OpenAiHost {
    pub api_key: Option<String>,
    pub host: Option<String>,
    /// Whether or not to check and enforce a context length limit. Usually this is true, but some
    /// hosts don't provide context length limit information or otherwise manage it themselves.
    pub do_context_limit: bool,
    pub send_user: bool,
}

impl OpenAiHost {
    pub fn new(host: Option<String>, api_key: Option<String>, do_context_limit: bool, send_user: bool) -> (r:
        Self)
        ensures
            r.host == host,
            r.api_key == api_key,
            r.do_context_limit == do_context_limit,
            r.send_user == send_user,
    {
        OpenAiHost { api_key, host, do_context_limit, send_user }
    }

    /// The host's address: the configured one, else OpenAI's.
    pub fn host(&self) -> (r: &str)
        ensures
            r@ == match self.host {
                Some(h) => h@,
                None => OPENAI_HOST@,
            },
    {
        match &self.host {
            Some(h) => h.as_str(),
            None => OPENAI_HOST,
        }
    }

    /// The context size of `model_name` on this host, where it enforces one.
    pub fn model_context_limit(&self, model_name: &str) -> (r: Option<usize>)
        ensures
            r == (if self.do_context_limit {
                Some(openai_context_size(model_name))
            } else {
                None
            }),
    {
        if self.do_context_limit {
            Some(model_context_limit(model_name))
        } else {
            None
        }
    }
}

} // verus!
