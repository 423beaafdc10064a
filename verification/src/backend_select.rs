//! Picking the backend a run starts on: the entry `default_backend` names
//! (or `"deepseek"` when it names none), resolved to everything needed to
//! build it. An API entry without a key of its own takes the key found
//! for its provider elsewhere (environment or key file), which the caller
//! looks up beforehand and hands in.
use vstd::prelude::*;

use crate::settings::{backend_index, find_backend, ApiProvider, BackendConfig, BackendEntry, Settings};
use crate::text::{chars_of, extend_chars, join, join_chars, push_str_chars, seqs, string_of};

verus! {

/// Everything needed to build the active backend.
#[derive(Debug, Clone, PartialEq, Eq)]
pub enum ResolvedBackend {
    /// Enough to build an API client and drive an in-process agent loop.
    Api {
        name: String,
        provider: ApiProvider,
        api_key: String,
        base_url: Option<String>,
        model: String,
    },
    /// Enough to spawn the command-line agent as a child process.
    ClaudeCli {
        name: String,
        model: String,
        permission_mode: Option<String>,
        env: Option<Vec<(String, String)>>,
    },
}

/// What the key lookup outside the settings gave for each provider: the
/// key, or why there is none.
#[derive(Debug, PartialEq, Eq)]
pub struct ProviderKeys {
    pub deepseek: Result<String, String>,
    pub ollama: Result<String, String>,
}

/// The lookup's answer for `provider`.
pub open spec fn key_for(keys: ProviderKeys, provider: ApiProvider) -> Result<String, String> {
    match provider {
        ApiProvider::DeepSeek => keys.deepseek,
        ApiProvider::Ollama => keys.ollama,
    }
}

/// The name of the backend a run starts on.
pub open spec fn active_name(s: Settings) -> Seq<char> {
    match s.default_backend {
        Some(n) => n@,
        None => "deepseek"@,
    }
}

/// The entry names, in order.
pub open spec fn entry_names(entries: Seq<BackendEntry>) -> Seq<Seq<char>> {
    entries.map_values(|e: BackendEntry| e.name@)
}

/// The list of known backends an error names: the entry names joined by
/// `", "`, or `none configured` when that comes out empty.
pub open spec fn known_list(s: Settings) -> Seq<char> {
    let joined = match s.backends {
        Some(entries) => join(entry_names(entries@), ", "@),
        None => seq![],
    };
    if joined.len() == 0 {
        "none configured"@
    } else {
        joined
    }
}

/// The error for a `default_backend` that names no entry.
pub open spec fn unknown_backend_message(name: Seq<char>, known: Seq<char>) -> Seq<char> {
    "default_backend \""@ + name + "\" is not a known backend (known: "@ + known + ")"@
}

/// The active entry's position, or -1 when there is none.
pub open spec fn active_index(s: Settings) -> int {
    match s.backends {
        Some(entries) => backend_index(entries@, active_name(s)),
        None => -1,
    }
}

/// An optional environment map by its contents.
pub open spec fn env_view(e: Option<Vec<(String, String)>>) -> Option<Seq<(String, String)>> {
    match e {
        Some(v) => Some(v@),
        None => None,
    }
}

/// `b` is the resolution `expected`, the environment map compared by its
/// contents.
pub open spec fn same_resolved(b: ResolvedBackend, expected: ResolvedBackend) -> bool {
    match (b, expected) {
        (ResolvedBackend::Api { .. }, ResolvedBackend::Api { .. }) => b == expected,
        (
            ResolvedBackend::ClaudeCli { name: n1, model: m1, permission_mode: p1, env: e1 },
            ResolvedBackend::ClaudeCli { name: n2, model: m2, permission_mode: p2, env: e2 },
        ) => n1 == n2 && m1 == m2 && p1 == p2 && env_view(e1) == env_view(e2),
        _ => false,
    }
}

/// What resolving the active backend gives, given the provider keys.
pub open spec fn resolution(s: Settings, keys: ProviderKeys) -> Result<ResolvedBackend, Seq<char>> {
    if active_index(s) < 0 {
        Err(unknown_backend_message(active_name(s), known_list(s)))
    } else {
        let entry = s.backends->0@[active_index(s)];
        match entry.config {
            BackendConfig::Api { provider, model, base_url, api_key, .. } => match api_key {
                Some(k) => Ok(ResolvedBackend::Api { name: entry.name, provider, api_key: k, base_url, model }),
                None => match key_for(keys, provider) {
                    Ok(k) => Ok(ResolvedBackend::Api { name: entry.name, provider, api_key: k, base_url, model }),
                    Err(e) => Err(e@),
                },
            },
            BackendConfig::ClaudeCli { model, permission_mode, env, .. } => Ok(
                ResolvedBackend::ClaudeCli { name: entry.name, model, permission_mode, env },
            ),
        }
    }
}

fn clone_opt_string(o: &Option<String>) -> (r: Option<String>)
    ensures
        r == *o,
{
    match o {
        Some(s) => Some(s.clone()),
        None => None,
    }
}

fn clone_env(e: &Option<Vec<(String, String)>>) -> (r: Option<Vec<(String, String)>>)
    ensures
        env_view(r) == env_view(*e),
{
    match e {
        Some(v) => {
            let mut out: Vec<(String, String)> = Vec::new();
            let mut i: usize = 0;
            while i < v.len()
                invariant
                    i <= v@.len(),
                    out@ == v@.take(i as int),
                decreases v.len() - i,
            {
                let pair = (v[i].0.clone(), v[i].1.clone());
                out.push(pair);
                assert(out@ =~= v@.take(i + 1));
                i = i + 1;
            }
            assert(v@.take(v@.len() as int) =~= v@);
            Some(out)
        },
        None => None,
    }
}

/// The known-backends part of the error message.
fn known_backends(settings: &Settings) -> (r: Vec<char>)
    ensures
        r@ == known_list(*settings),
{
    let mut joined: Vec<char> = Vec::new();
    match &settings.backends {
        Some(entries) => {
            let mut names: Vec<Vec<char>> = Vec::new();
            let mut i: usize = 0;
            while i < entries.len()
                invariant
                    i <= entries@.len(),
                    seqs(names@) == entry_names(entries@).take(i as int),
                decreases entries.len() - i,
            {
                let ghost prev = names@;
                let w = chars_of(entries[i].name.as_str());
                names.push(w);
                assert(seqs(names@) =~= seqs(prev).push(w@));
                assert(entry_names(entries@).take(i + 1) =~= entry_names(entries@).take(i as int).push(
                    entries@[i as int].name@,
                ));
                i = i + 1;
            }
            assert(entry_names(entries@).take(entries@.len() as int) =~= entry_names(entries@));
            let sep = chars_of(", ");
            joined = join_chars(&names, sep.as_slice());
        },
        None => {},
    }
    if joined.len() == 0 {
        chars_of("none configured")
    } else {
        joined
    }
}

/// Resolve the backend named by `default_backend` (or `"deepseek"` when it
/// is unset). An unknown name is an error that lists the known ones. An
/// API entry's own key wins; without one, the provider's looked-up key is
/// used, and a failed lookup is the error.
pub fn resolve_active_backend(settings: &Settings, keys: &ProviderKeys) -> (r: Result<ResolvedBackend, String>)
    ensures
        match (r, resolution(*settings, *keys)) {
            (Ok(b), Ok(expected)) => same_resolved(b, expected),
            (Err(e), Err(expected)) => e@ == expected,
            _ => false,
        },
{
    let name: String = match &settings.default_backend {
        Some(n) => n.clone(),
        None => "deepseek".to_owned(),
    };
    proof {
        reveal_strlit("deepseek");
    }
    let found = match &settings.backends {
        Some(entries) => match find_backend(entries, name.as_str()) {
            Some(k) => Some(&entries[k]),
            None => None,
        },
        None => None,
    };
    match found {
        None => {
            let mut msg = chars_of("default_backend \"");
            push_str_chars(&mut msg, name.as_str());
            push_str_chars(&mut msg, "\" is not a known backend (known: ");
            let known = known_backends(settings);
            extend_chars(&mut msg, known.as_slice());
            push_str_chars(&mut msg, ")");
            Err(string_of(msg.as_slice()))
        },
        Some(entry) => match &entry.config {
            BackendConfig::Api { provider, model, base_url, api_key, .. } => {
                let key = match api_key {
                    Some(k) => k.clone(),
                    None => {
                        let looked_up = match provider {
                            ApiProvider::DeepSeek => &keys.deepseek,
                            ApiProvider::Ollama => &keys.ollama,
                        };
                        match looked_up {
                            Ok(k) => k.clone(),
                            Err(e) => {
                                return Err(e.clone());
                            },
                        }
                    },
                };
                Ok(ResolvedBackend::Api {
                    name: entry.name.clone(),
                    provider: *provider,
                    api_key: key,
                    base_url: clone_opt_string(base_url),
                    model: model.clone(),
                })
            },
            BackendConfig::ClaudeCli { model, permission_mode, env, .. } => Ok(ResolvedBackend::ClaudeCli {
                name: entry.name.clone(),
                model: model.clone(),
                permission_mode: clone_opt_string(permission_mode),
                env: clone_env(env),
            }),
        },
    }
}

} // verus!
