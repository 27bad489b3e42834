//! The hosts that serve models, as configured and as built in.

use crate::error::Error;
use crate::image::ImageData;
use crate::ollama;
use crate::openai;
use crate::option::{overwrite_from_option, overwrite_option_from_option};
use crate::together;
use std::collections::hash_map::RandomState;
use std::collections::HashMap;
use vstd::std_specs::hash::{builds_valid_hashers, obeys_key_model};
use vstd::prelude::*;

verus! {

/// What is sent to a model: the prompt, an optional system prompt, and images.
#[derive(Debug)]
pub struct ModelInput<'a> {
    pub prompt: &'a str,
    pub system: Option<&'a str>,
    pub images: Vec<ImageData>,
}

/// An API definition to talk to a host send prompts to it.
#[derive(Debug, Clone, Copy, PartialEq, Eq, Structural)]
pub enum HostProtocol {
    Ollama,
    OpenAi,
    Together,
}

impl HostProtocol {
    /// Whether a host of this protocol limits the context length unless told
    /// otherwise. There is no API for the context length of OpenAI-compatible
    /// hosts in general.
    pub fn default_context_length_option(&self) -> (r: bool)
        ensures
            r == !(*self is OpenAi),
    {
        match self {
            HostProtocol::Ollama => true,
            HostProtocol::OpenAi => false,
            HostProtocol::Together => true,
        }
    }
}

/// An LLM host
#[derive(Debug, Clone)]
pub struct HostDefinition {
    pub endpoint: String,
    pub protocol: HostProtocol,
    pub limit_context_length: bool,
    /// The environment variable that holds the authentication token for this host
    pub api_key: Option<String>,
    /// If true, send the application's name in the `user` field of the request.
    /// Some hosts reject the request if this field exists, so it can be disabled
    /// by setting this to false.
    pub send_app_id: bool,
}

/// A host as written in configuration, where each field may be absent.
#[derive(Debug, Clone, Default)]
pub struct HostDefinitionInput {
    pub endpoint: Option<String>,
    pub api_key: Option<String>,
    pub protocol: Option<HostProtocol>,
    pub limit_context_length: Option<bool>,
    pub send_app_id: Option<bool>,
}

/// `new` where it is present, else `cur`.
pub open spec fn or_keep<T>(new: Option<T>, cur: T) -> T {
    match new {
        Some(v) => v,
        None => cur,
    }
}

/// `new` where it is present, else `cur`.
pub open spec fn or_keep_opt<T>(new: Option<T>, cur: Option<T>) -> Option<T> {
    if new is Some {
        new
    } else {
        cur
    }
}

impl HostDefinition {
    /// Overwrite each field that `other` gives.
    pub fn merge_from_input(&mut self, other: &HostDefinitionInput)
        ensures
            final(self).endpoint == or_keep(other.endpoint, old(self).endpoint),
            final(self).protocol == or_keep(other.protocol, old(self).protocol),
            final(self).api_key == or_keep_opt(other.api_key, old(self).api_key),
            final(self).limit_context_length == or_keep(
                other.limit_context_length,
                old(self).limit_context_length,
            ),
            final(self).send_app_id == old(self).send_app_id,
    {
        if let Some(endpoint) = &other.endpoint {
            self.endpoint = endpoint.clone();
        }
        overwrite_from_option(&mut self.protocol, &other.protocol);
        if let Some(key) = &other.api_key {
            self.api_key = Some(key.clone());
        }
        overwrite_from_option(&mut self.limit_context_length, &other.limit_context_length);
    }

    /// The name of the host used when a model names none.
    pub fn default_host() -> (r: &'static str)
        ensures
            r@ == "ollama"@,
    {
        "ollama"
    }

    /// The host that a configured input describes: it must name an endpoint and
    /// a protocol. Whether the context length is limited defaults by protocol,
    /// and sending the application's name defaults to true.
    pub fn from_input(value: HostDefinitionInput) -> (r: Result<HostDefinition, Error>)
        ensures
            match value.endpoint {
                None => r matches Err(Error::MissingField(f)) && f@ == "endpoint"@,
                Some(endpoint) => match value.protocol {
                    None => r matches Err(Error::MissingField(f)) && f@ == "protocol"@,
                    Some(protocol) => r == Ok::<HostDefinition, Error>(
                        HostDefinition {
                            endpoint,
                            protocol,
                            limit_context_length: match value.limit_context_length {
                                Some(l) => l,
                                None => !(protocol is OpenAi),
                            },
                            api_key: value.api_key,
                            send_app_id: match value.send_app_id {
                                Some(s) => s,
                                None => true,
                            },
                        },
                    ),
                },
            },
    {
        let endpoint = match value.endpoint {
            Some(e) => e,
            None => return Err(Error::MissingField("endpoint".to_owned())),
        };
        let protocol = match value.protocol {
            Some(p) => p,
            None => return Err(Error::MissingField("protocol".to_owned())),
        };
        let limit_context_length = match value.limit_context_length {
            Some(l) => l,
            None => protocol.default_context_length_option(),
        };
        let send_app_id = match value.send_app_id {
            Some(s) => s,
            None => true,
        };
        Ok(HostDefinition {
            endpoint,
            protocol,
            limit_context_length,
            api_key: value.api_key,
            send_app_id,
        })
    }

    /// The built-in hosts, by name, in the order of `builtin_host`.
    pub fn builtin_list() -> (r: Vec<(String, HostDefinition)>)
        ensures
            r@.len() == 8,
            forall|i: int| 0 <= i < 8 ==> (#[trigger] r@[i].0@, host_view(r@[i].1)) == builtin_host(i),
    {
        let mut r: Vec<(String, HostDefinition)> = Vec::new();
        r.push(("anyscale".to_owned(), HostDefinition {
            endpoint: "https://api.endpoints.anyscale.com/v1".to_owned(),
            protocol: HostProtocol::OpenAi,
            limit_context_length: false,
            api_key: Some("ANYSCALE_API_KEY".to_owned()),
            send_app_id: true,
        }));
        r.push(("deepinfra".to_owned(), HostDefinition {
            endpoint: "https://api.deepinfra.com/v1/openai".to_owned(),
            protocol: HostProtocol::OpenAi,
            limit_context_length: false,
            api_key: Some("DEEPINFRA_API_KEY".to_owned()),
            send_app_id: true,
        }));
        r.push(("fireworks".to_owned(), HostDefinition {
            endpoint: "https://api.fireworks.ai/inference/v1".to_owned(),
            protocol: HostProtocol::OpenAi,
            limit_context_length: false,
            api_key: Some("FIREWORKS_API_KEY".to_owned()),
            send_app_id: false,
        }));
        r.push(("lm-studio".to_owned(), HostDefinition {
            endpoint: "http://localhost:1234".to_owned(),
            protocol: HostProtocol::OpenAi,
            limit_context_length: false,
            api_key: None,
            send_app_id: true,
        }));
        r.push(("ollama".to_owned(), HostDefinition {
            endpoint: ollama::DEFAULT_HOST.to_owned(),
            protocol: HostProtocol::Ollama,
            limit_context_length: true,
            api_key: None,
            send_app_id: true,
        }));
        r.push(("openai".to_owned(), HostDefinition {
            endpoint: openai::OPENAI_HOST.to_owned(),
            protocol: HostProtocol::OpenAi,
            limit_context_length: true,
            api_key: Some("OPENAI_API_KEY".to_owned()),
            send_app_id: true,
        }));
        r.push(("openrouter".to_owned(), HostDefinition {
            endpoint: "https://openrouter.ai/api".to_owned(),
            protocol: HostProtocol::OpenAi,
            limit_context_length: false,
            api_key: Some("OPENROUTER_API_KEY".to_owned()),
            send_app_id: true,
        }));
        r.push(("together".to_owned(), HostDefinition {
            endpoint: together::DEFAULT_HOST.to_owned(),
            protocol: HostProtocol::Together,
            limit_context_length: true,
            api_key: Some("TOGETHER_API_KEY".to_owned()),
            send_app_id: true,
        }));
        r
    }

    /// The built-in hosts, keyed by name: those of `builtin_list`. Where
    /// `String` keys follow vstd's model of a hash table, each key holds the
    /// built-in host of that name, and the default host `ollama` is a key.
    pub fn builtin() -> (r: HashMap<String, HostDefinition>)
        ensures
            obeys_key_model::<String>() && builds_valid_hashers::<RandomState>() ==> {
                &&& forall|k: String|
                    #[trigger] r@.contains_key(k) ==> exists|i: int|
                        0 <= i < 8 && (k@, host_view(r@[k])) == #[trigger] builtin_host(i)
                &&& exists|k: String| #[trigger] r@.contains_key(k) && k@ == "ollama"@
            },
    {
        let list = HostDefinition::builtin_list();
        let ghost orig = list@;
        let mut list = list;
        let mut map: HashMap<String, HostDefinition> = HashMap::new();
        let mut done: usize = 0;
        while list.len() > 0
            invariant
                done + list@.len() == 8,
                orig.len() == 8,
                list@ == orig.subrange(done as int, 8),
                forall|i: int| 0 <= i < 8 ==> (#[trigger] orig[i].0@, host_view(orig[i].1)) == builtin_host(i),
                obeys_key_model::<String>() && builds_valid_hashers::<RandomState>() ==> {
                    &&& forall|k: String|
                        #[trigger] map@.contains_key(k) ==> exists|i: int|
                            0 <= i < 8 && (k@, host_view(map@[k])) == #[trigger] builtin_host(i)
                    &&& forall|j: int| 0 <= j < done ==> map@.contains_key(#[trigger] orig[j].0)
                },
            decreases list.len(),
        {
            let (name, host) = list.remove(0);
            let ghost d = done as int;
            assert(orig[d] == (name, host));
            assert((orig[d].0@, host_view(orig[d].1)) == builtin_host(d));
            map.insert(name, host);
            done = done + 1;
        }
        proof {
            if obeys_key_model::<String>() && builds_valid_hashers::<RandomState>() {
                assert(map@.contains_key(orig[4].0));
                assert(orig[4].0@ == builtin_host(4).0);
            }
        }
        map
    }
}

/// A host as plain values: endpoint, protocol, whether the context length is
/// limited, the variable naming its key, and whether the application's name is sent.
pub open spec fn host_view(h: HostDefinition) -> (Seq<char>, HostProtocol, bool, Option<Seq<char>>, bool) {
    (
        h.endpoint@,
        h.protocol,
        h.limit_context_length,
        match h.api_key {
            Some(k) => Some(k@),
            None => None,
        },
        h.send_app_id,
    )
}

/// The built-in host at `i`, in `0..8`: its name and the host as plain values.
pub open spec fn builtin_host(i: int) -> (Seq<char>, (Seq<char>, HostProtocol, bool, Option<Seq<char>>, bool)) {
    if i == 0 {
        ("anyscale"@, ("https://api.endpoints.anyscale.com/v1"@, HostProtocol::OpenAi, false, Some("ANYSCALE_API_KEY"@), true))
    } else if i == 1 {
        ("deepinfra"@, ("https://api.deepinfra.com/v1/openai"@, HostProtocol::OpenAi, false, Some("DEEPINFRA_API_KEY"@), true))
    } else if i == 2 {
        ("fireworks"@, ("https://api.fireworks.ai/inference/v1"@, HostProtocol::OpenAi, false, Some("FIREWORKS_API_KEY"@), false))
    } else if i == 3 {
        ("lm-studio"@, ("http://localhost:1234"@, HostProtocol::OpenAi, false, None, true))
    } else if i == 4 {
        ("ollama"@, (ollama::DEFAULT_HOST@, HostProtocol::Ollama, true, None, true))
    } else if i == 5 {
        ("openai"@, (openai::OPENAI_HOST@, HostProtocol::OpenAi, true, Some("OPENAI_API_KEY"@), true))
    } else if i == 6 {
        ("openrouter"@, ("https://openrouter.ai/api"@, HostProtocol::OpenAi, false, Some("OPENROUTER_API_KEY"@), true))
    } else {
        ("together"@, (together::DEFAULT_HOST@, HostProtocol::Together, true, Some("TOGETHER_API_KEY"@), true))
    }
}

/// A host after the fields that `input` gives were written over it.
pub open spec fn host_merged(h: HostDefinition, input: HostDefinitionInput) -> HostDefinition {
    HostDefinition {
        endpoint: or_keep(input.endpoint, h.endpoint),
        protocol: or_keep(input.protocol, h.protocol),
        api_key: or_keep_opt(input.api_key, h.api_key),
        limit_context_length: or_keep(input.limit_context_length, h.limit_context_length),
        send_app_id: h.send_app_id,
    }
}

/// Where a host of that name stands in the table, if anywhere: the first such entry.
pub open spec fn host_position(hosts: Seq<(String, HostDefinition)>, name: Seq<char>) -> Option<int>
    decreases hosts.len(),
{
    if hosts.len() == 0 {
        None
    } else {
        match host_position(hosts.drop_last(), name) {
            Some(i) => Some(i),
            None => if hosts.last().0@ == name {
                Some(hosts.len() - 1)
            } else {
                None
            },
        }
    }
}

/// The host table after the first `k` configured hosts: a host of a known
/// name is merged into it; a new one is added where it names an endpoint and a
/// protocol. `None` where a new host lacks one of them.
pub open spec fn hosts_configured(
    hosts: Seq<(String, HostDefinition)>,
    inputs: Seq<(String, HostDefinitionInput)>,
    k: nat,
) -> Option<Seq<(String, HostDefinition)>>
    decreases k,
{
    if k == 0 || k > inputs.len() {
        if k == 0 { Some(hosts) } else { None }
    } else {
        match hosts_configured(hosts, inputs, (k - 1) as nat) {
            None => None,
            Some(table) => {
                let (name, input) = inputs[k - 1];
                match host_position(table, name@) {
                    Some(i) => Some(table.update(i, (table[i].0, host_merged(table[i].1, input)))),
                    None => match host_from_input(input) {
                        Some(h) => Some(table.push((name, h))),
                        None => None,
                    },
                }
            },
        }
    }
}

/// The host that a configured input describes, where it names an endpoint and a protocol.
pub open spec fn host_from_input(v: HostDefinitionInput) -> Option<HostDefinition> {
    match (v.endpoint, v.protocol) {
        (Some(endpoint), Some(protocol)) => Some(
            HostDefinition {
                endpoint,
                protocol,
                limit_context_length: match v.limit_context_length {
                    Some(l) => l,
                    None => !(protocol is OpenAi),
                },
                api_key: v.api_key,
                send_app_id: match v.send_app_id {
                    Some(s) => s,
                    None => true,
                },
            },
        ),
        _ => None,
    }
}

/// The index of the first host named `name` in the table.
fn find_host(hosts: &Vec<(String, HostDefinition)>, name: &str) -> (r: Option<usize>)
    ensures
        match r {
            Some(i) => i < hosts@.len() && host_position(hosts@, name@) == Some(i as int),
            None => host_position(hosts@, name@) is None,
        },
{
    let mut i: usize = 0;
    while i < hosts.len()
        invariant
            i <= hosts@.len(),
            host_position(hosts@.subrange(0, i as int), name@) is None,
        decreases hosts.len() - i,
    {
        assert(hosts@.subrange(0, i + 1).drop_last() =~= hosts@.subrange(0, i as int));
        if crate::text::str_eq(hosts[i].0.as_str(), name) {
            proof {
                lemma_host_position_prefix(hosts@, name@, (i + 1) as nat);
            }
            return Some(i);
        }
        i = i + 1;
    }
    assert(hosts@.subrange(0, i as int) =~= hosts@);
    None
}

/// A host found in a prefix of the table is found there in the whole table.
proof fn lemma_host_position_prefix(hosts: Seq<(String, HostDefinition)>, name: Seq<char>, n: nat)
    requires
        n <= hosts.len(),
        host_position(hosts.subrange(0, n as int), name) is Some,
    ensures
        host_position(hosts, name) == host_position(hosts.subrange(0, n as int), name),
    decreases hosts.len() - n,
{
    if n < hosts.len() {
        let longer = hosts.subrange(0, (n + 1) as int);
        assert(longer.drop_last() =~= hosts.subrange(0, n as int));
        lemma_host_position_prefix(hosts, name, n + 1);
    } else {
        assert(hosts.subrange(0, n as int) =~= hosts);
    }
}

/// Apply configured hosts to a host table, in order: a host of a known name is
/// merged into the entry of that name; a new one is added, and must name an
/// endpoint and a protocol, else `Error::ParseConfig`.
pub fn configure_hosts(hosts: Vec<(String, HostDefinition)>, inputs: Vec<(String, HostDefinitionInput)>) -> (r:
    Result<Vec<(String, HostDefinition)>, Error>)
    ensures
        match hosts_configured(hosts@, inputs@, inputs@.len()) {
            Some(table) => r matches Ok(t) && t@ == table,
            None => r == Err::<Vec<(String, HostDefinition)>, Error>(Error::ParseConfig),
        },
{
    let ghost h0 = hosts@;
    let ghost in0 = inputs@;
    let mut table = hosts;
    let mut rest = inputs;
    let mut k: usize = 0;
    let n = rest.len();
    while rest.len() > 0
        invariant
            k + rest@.len() == n,
            n == in0.len(),
            h0 == hosts@,
            in0 == inputs@,
            rest@ == in0.subrange(k as int, n as int),
            hosts_configured(h0, in0, k as nat) == Some(table@),
        decreases rest.len(),
    {
        let (name, input) = rest.remove(0);
        assert(in0[k as int] == (name, input));
        match find_host(&table, name.as_str()) {
            Some(i) => {
                let ghost before = table@;
                let (hname, mut host) = table.remove(i);
                host.merge_from_input(&input);
                table.insert(i, (hname, host));
                assert(table@ =~= before.update(i as int, (before[i as int].0, host_merged(before[i as int].1, input))));
            },
            None => {
                let ghost ginput = input;
                match HostDefinition::from_input(input) {
                    Ok(h) => {
                        assert(host_from_input(ginput) == Some(h));
                        table.push((name, h));
                    },
                    Err(_) => {
                        assert(host_from_input(ginput) is None);
                        assert(in0[k as int].1 == ginput);
                        assert(hosts_configured(h0, in0, (k + 1) as nat) is None);
                        proof {
                            lemma_configured_stays_none(h0, in0, (k + 1) as nat);
                        }
                        return Err(Error::ParseConfig);
                    },
                }
            },
        }
        k = k + 1;
    }
    Ok(table)
}

/// Once configuring fails, it stays failed.
proof fn lemma_configured_stays_none(hosts: Seq<(String, HostDefinition)>, inputs: Seq<(String, HostDefinitionInput)>, k: nat)
    requires
        k <= inputs.len(),
        hosts_configured(hosts, inputs, k) is None,
    ensures
        hosts_configured(hosts, inputs, inputs.len()) is None,
    decreases inputs.len() - k,
{
    if k < inputs.len() {
        lemma_configured_stays_none(hosts, inputs, k + 1);
    }
}

impl HostDefinitionInput {
    /// Overwrite each field that `other` gives.
    pub fn merge_from_input(&mut self, other: &HostDefinitionInput)
        ensures
            final(self).endpoint == or_keep_opt(other.endpoint, old(self).endpoint),
            final(self).protocol == or_keep_opt(other.protocol, old(self).protocol),
            final(self).api_key == or_keep_opt(other.api_key, old(self).api_key),
            final(self).limit_context_length == or_keep_opt(
                other.limit_context_length,
                old(self).limit_context_length,
            ),
            final(self).send_app_id == or_keep_opt(other.send_app_id, old(self).send_app_id),
    {
        if let Some(e) = &other.endpoint {
            self.endpoint = Some(e.clone());
        }
        overwrite_option_from_option(&mut self.protocol, &other.protocol);
        if let Some(k) = &other.api_key {
            self.api_key = Some(k.clone());
        }
        overwrite_option_from_option(&mut self.limit_context_length, &other.limit_context_length);
        overwrite_option_from_option(&mut self.send_app_id, &other.send_app_id);
    }
}

} // verus!
