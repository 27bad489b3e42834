//! Model names, their hosts, and what can go wrong talking to a model.

use crate::error::Error;
use crate::text::{bytes_at, starts_with, str_eq};
use vstd::string::StringSliceAdditionalSpecFns;
use vstd::utf8::encode_utf8;
use vstd::prelude::*;

verus! {

/// The model used when none is configured.
pub const DEFAULT_MODEL: &'static str = "gpt-3.5-turbo";

/// The format a model is asked to answer in.
#[derive(Debug, Clone, Copy, PartialEq, Eq, Structural)]
pub enum OutputFormat {
    JSON,
}

/// Read an output format name: only `json` is known.
pub fn parse_output_format(s: &str) -> (r: Result<OutputFormat, Error>)
    ensures
        r == (if s@ == "json"@ {
            Ok::<OutputFormat, Error>(OutputFormat::JSON)
        } else {
            Err::<OutputFormat, Error>(Error::ArgParseFailure)
        }),
{
    if str_eq(s, "json") {
        Ok(OutputFormat::JSON)
    } else {
        Err(Error::ArgParseFailure)
    }
}

impl std::str::FromStr for OutputFormat {
    type Err = Error;

    fn from_str(s: &str) -> Result<Self, Self::Err> {
        parse_output_format(s)
    }
}

/// A model, named alone or together with the host that serves it.
#[derive(Debug, Clone)]
pub enum ModelSpec {
    Plain(String),
    Full { model: String, host: Option<String> },
}

/// The model's name.
pub open spec fn spec_model_name(m: ModelSpec) -> Seq<char> {
    match m {
        ModelSpec::Plain(model) => model@,
        ModelSpec::Full { model, .. } => model@,
    }
}

/// The host's name, where one is given.
pub open spec fn spec_host_name(m: ModelSpec) -> Option<Seq<char>> {
    match m {
        ModelSpec::Plain(_) => None,
        ModelSpec::Full { host, .. } => match host {
            Some(h) => Some(h@),
            None => None,
        },
    }
}

/// The spec that `merge_with_alias_spec` gives: the alias's model name, the
/// host of `s` where it names one, else the alias's host.
pub open spec fn merged_spec(s: ModelSpec, alias: ModelSpec) -> (bool, Seq<char>, Option<Seq<char>>) {
    match s {
        ModelSpec::Plain(_) => (alias is Full, spec_model_name(alias), spec_host_name(alias)),
        ModelSpec::Full { host, .. } => (
            true,
            spec_model_name(alias),
            match host {
                Some(h) => Some(h@),
                None => spec_host_name(alias),
            },
        ),
    }
}

/// A copy of an optional string.
fn clone_opt(s: &Option<String>) -> (r: Option<String>)
    ensures
        r == *s,
{
    match s {
        Some(h) => Some(h.clone()),
        None => None,
    }
}

impl ModelSpec {
    pub fn model_name(&self) -> (r: &str)
        ensures
            r@ == spec_model_name(*self),
    {
        match self {
            ModelSpec::Plain(model) => model.as_str(),
            ModelSpec::Full { model, .. } => model.as_str(),
        }
    }

    pub fn host_name(&self) -> (r: Option<&str>)
        ensures
            match r {
                Some(h) => spec_host_name(*self) == Some(h@),
                None => spec_host_name(*self) is None,
            },
    {
        match self {
            ModelSpec::Plain(_) => None,
            ModelSpec::Full { host, .. } => match host {
                Some(h) => Some(h.as_str()),
                None => None,
            },
        }
    }

    /// Given an alias spec, return a new spec that uses the model name from the
    /// alias spec, and gives precedence to self for the host.
    pub fn merge_with_alias_spec(&self, alias_spec: &ModelSpec) -> (r: Self)
        ensures
            (r is Full, spec_model_name(r), spec_host_name(r)) == merged_spec(*self, *alias_spec),
    {
        match (self, alias_spec) {
            (ModelSpec::Plain(_), ModelSpec::Plain(real_model)) => ModelSpec::Plain(real_model.clone()),
            (ModelSpec::Plain(_), ModelSpec::Full { model, host }) => ModelSpec::Full {
                model: model.clone(),
                host: clone_opt(host),
            },
            (ModelSpec::Full { host, .. }, ModelSpec::Plain(real_model)) => ModelSpec::Full {
                model: real_model.clone(),
                host: clone_opt(host),
            },
            (ModelSpec::Full { host: self_host, .. }, ModelSpec::Full { model, host: alias_host }) => {
                let host = match self_host {
                    Some(h) => Some(h.clone()),
                    None => clone_opt(alias_host),
                };
                ModelSpec::Full { model: model.clone(), host }
            },
        }
    }
}

impl PartialEq for ModelSpec {
    fn eq(&self, other: &Self) -> (r: bool)
        ensures
            r == (spec_model_name(*self) == spec_model_name(*other) && spec_host_name(*self)
                == spec_host_name(*other)),
    {
        if !str_eq(self.model_name(), other.model_name()) {
            return false;
        }
        match (self.host_name(), other.host_name()) {
            (Some(a), Some(b)) => str_eq(a, b),
            (None, None) => true,
            _ => false,
        }
    }
}

impl vstd::std_specs::cmp::PartialEqSpecImpl for ModelSpec {
    open spec fn obeys_eq_spec() -> bool {
        true
    }

    open spec fn eq_spec(&self, other: &ModelSpec) -> bool {
        spec_model_name(*self) == spec_model_name(*other) && spec_host_name(*self) == spec_host_name(
            *other,
        )
    }
}

impl Eq for ModelSpec {

}

impl Default for ModelSpec {
    fn default() -> (r: Self)
        ensures
            r is Plain && spec_model_name(r) == DEFAULT_MODEL@,
    {
        ModelSpec::Plain(DEFAULT_MODEL.to_owned())
    }
}

impl From<String> for ModelSpec {
    fn from(value: String) -> (r: Self)
        ensures
            r == ModelSpec::Plain(value),
    {
        ModelSpec::Plain(value)
    }
}

impl vstd::std_specs::convert::FromSpecImpl<String> for ModelSpec {
    open spec fn obeys_from_spec() -> bool {
        true
    }

    open spec fn from_spec(v: String) -> ModelSpec {
        ModelSpec::Plain(v)
    }
}

/// The name of the host that serves a model: the one its spec names; else
/// `openai` for GPT-4 and GPT-3.5 models, `lm-studio` for the model of that
/// name, and the default host for any other.
pub open spec fn host_name_for(spec: ModelSpec, default_host: Seq<char>) -> Seq<char> {
    match spec_host_name(spec) {
        Some(h) => h,
        None => {
            let b = encode_utf8(spec_model_name(spec));
            if bytes_at(b, "gpt-4".spec_bytes(), 0) || bytes_at(b, "gpt-3.5-".spec_bytes(), 0) {
                "openai"@
            } else if spec_model_name(spec) == "lm-studio"@ {
                "lm-studio"@
            } else {
                default_host
            }
        },
    }
}

/// The name of the host that serves the model of `spec`.
pub fn resolve_host_name(spec: &ModelSpec, default_host: &str) -> (r: String)
    ensures
        r@ == host_name_for(*spec, default_host@),
{
    match spec.host_name() {
        Some(h) => h.to_owned(),
        None => {
            let model = spec.model_name();
            if starts_with(model, "gpt-4") || starts_with(model, "gpt-3.5-") {
                "openai".to_owned()
            } else if str_eq(model, "lm-studio") {
                "lm-studio".to_owned()
            } else {
                default_host.to_owned()
            }
        },
    }
}

/// What can go wrong talking to a model.
#[derive(Debug, Clone, PartialEq, Eq)]
pub enum ModelError {
    Raw,
    Deserialize,
    Model(u16, String),
    ModelNotFound(String),
    FormatPrompt,
    HostDoesNotSupportImages,
}

} // verus!
