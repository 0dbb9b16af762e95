//! API keys and provider configuration, gathered from the environment,
//! `auth.json` and `models.json` files.

use vstd::prelude::*;
use crate::ext_store::ExtensionStore;
use crate::text::{str_eq, strs_view};

verus! {

/// Environment variables that hold API keys, with their providers.
pub const ENV_KEY_MAP: [(&'static str, &'static str); 11] = [
    ("ANTHROPIC_API_KEY", "anthropic"),
    ("OPENAI_API_KEY", "openai"),
    ("GOOGLE_API_KEY", "google"),
    ("GEMINI_API_KEY", "google"),
    ("DEEPSEEK_API_KEY", "deepseek"),
    ("GROQ_API_KEY", "groq"),
    ("OPENROUTER_API_KEY", "openrouter"),
    ("TOGETHER_API_KEY", "together"),
    ("FIREWORKS_API_KEY", "fireworks"),
    ("MISTRAL_API_KEY", "mistral"),
    ("XAI_API_KEY", "xai"),
];

/// The provider whose key an environment variable holds.
pub open spec fn env_provider(var: Seq<char>) -> Option<Seq<char>> {
    if var == "ANTHROPIC_API_KEY"@ {
        Some("anthropic"@)
    } else if var == "OPENAI_API_KEY"@ {
        Some("openai"@)
    } else if var == "GOOGLE_API_KEY"@ || var == "GEMINI_API_KEY"@ {
        Some("google"@)
    } else if var == "DEEPSEEK_API_KEY"@ {
        Some("deepseek"@)
    } else if var == "GROQ_API_KEY"@ {
        Some("groq"@)
    } else if var == "OPENROUTER_API_KEY"@ {
        Some("openrouter"@)
    } else if var == "TOGETHER_API_KEY"@ {
        Some("together"@)
    } else if var == "FIREWORKS_API_KEY"@ {
        Some("fireworks"@)
    } else if var == "MISTRAL_API_KEY"@ {
        Some("mistral"@)
    } else if var == "XAI_API_KEY"@ {
        Some("xai"@)
    } else {
        None
    }
}

/// The provider whose key the environment variable `var` holds, if any.
pub fn provider_for_env_var(var: &str) -> (r: Option<&'static str>)
    ensures
        match r {
            Some(p) => env_provider(var@) == Some(p@),
            None => env_provider(var@) is None,
        },
{
    if str_eq(var, "ANTHROPIC_API_KEY") {
        Some("anthropic")
    } else if str_eq(var, "OPENAI_API_KEY") {
        Some("openai")
    } else if str_eq(var, "GOOGLE_API_KEY") || str_eq(var, "GEMINI_API_KEY") {
        Some("google")
    } else if str_eq(var, "DEEPSEEK_API_KEY") {
        Some("deepseek")
    } else if str_eq(var, "GROQ_API_KEY") {
        Some("groq")
    } else if str_eq(var, "OPENROUTER_API_KEY") {
        Some("openrouter")
    } else if str_eq(var, "TOGETHER_API_KEY") {
        Some("together")
    } else if str_eq(var, "FIREWORKS_API_KEY") {
        Some("fireworks")
    } else if str_eq(var, "MISTRAL_API_KEY") {
        Some("mistral")
    } else if str_eq(var, "XAI_API_KEY") {
        Some("xai")
    } else {
        None
    }
}

/// A model offered by a configured provider.
#[derive(Debug, Clone)]
pub struct ProviderModel {
    pub id: String,
    pub name: String,
}

/// A provider's configuration from `models.json`.
#[derive(Debug, Clone)]
pub struct ProviderConfig {
    pub name: String,
    pub api: String,
    pub base_url: Option<String>,
    pub api_key: Option<String>,
    pub models: Vec<ProviderModel>,
}

/// The API flavour of a provider entry without an `api` field.
pub const DEFAULT_PROVIDER_API: &'static str = "openai-completions";

/// The names of provider configurations.
pub open spec fn config_names(ps: Seq<ProviderConfig>) -> Seq<Seq<char>> {
    Seq::new(ps.len(), |i: int| ps[i].name@)
}

/// No name occurs twice.
pub open spec fn unique_names(ns: Seq<Seq<char>>) -> bool {
    forall|i: int, j: int| 0 <= i < j < ns.len() ==> ns[i] != ns[j]
}

/// API keys by provider, and provider configurations by name.
pub struct AuthStorage {
    keys: ExtensionStore,
    providers: Vec<ProviderConfig>,
}

impl AuthStorage {
    /// The storage's invariant.
    pub closed spec fn wf(&self) -> bool {
        self.keys.wf() && unique_names(config_names(self.providers@))
    }

    /// The API key of each provider that has one.
    pub closed spec fn key_map(&self) -> Map<Seq<char>, Seq<char>> {
        self.keys@
    }

    /// The providers with a key, in the order their keys were first stored.
    pub closed spec fn key_order(&self) -> Seq<Seq<char>> {
        self.keys.key_seq()
    }

    /// The provider configurations, in the order they were first stored.
    pub closed spec fn configs(&self) -> Seq<ProviderConfig> {
        self.providers@
    }

    /// No key and no configuration.
    pub fn new() -> (a: Self)
        ensures
            a.wf(),
            a.key_map() == Map::<Seq<char>, Seq<char>>::empty(),
            a.configs() == Seq::<ProviderConfig>::empty(),
    {
        AuthStorage { keys: ExtensionStore::new(), providers: Vec::new() }
    }

    /// Stores `key` as the API key of `provider`, replacing an earlier one.
    pub fn set_key(&mut self, provider: &str, key: &str)
        requires
            old(self).wf(),
        ensures
            final(self).wf(),
            final(self).key_map() == old(self).key_map().insert(provider@, key@),
            final(self).configs() == old(self).configs(),
    {
        self.keys.set(provider, key);
    }

    /// Records the key found in environment variable `var`: a non-empty
    /// value of one of the known variables becomes its provider's key.
    pub fn add_env_key(&mut self, var: &str, value: &str)
        requires
            old(self).wf(),
        ensures
            final(self).wf(),
            final(self).configs() == old(self).configs(),
            final(self).key_map() == (match env_provider(var@) {
                Some(p) => if value@.len() > 0 {
                    old(self).key_map().insert(p, value@)
                } else {
                    old(self).key_map()
                },
                None => old(self).key_map(),
            }),
    {
        match provider_for_env_var(var) {
            Some(p) => {
                if !value.is_empty() {
                    self.set_key(p, value);
                }
            },
            None => {},
        }
    }

    fn provider_index(&self, name: &str) -> (r: Option<usize>)
        requires
            self.wf(),
        ensures
            match r {
                Some(i) => i < self.providers@.len() && self.providers@[i as int].name@ == name@,
                None => !config_names(self.providers@).contains(name@),
            },
    {
        let mut i: usize = 0;
        while i < self.providers.len()
            invariant
                i <= self.providers@.len(),
                forall|j: int| 0 <= j < i ==> self.providers@[j].name@ != name@,
            decreases self.providers.len() - i,
        {
            if str_eq(self.providers[i].name.as_str(), name) {
                return Some(i);
            }
            i = i + 1;
        }
        proof {
            let ns = config_names(self.providers@);
            assert forall|j: int| 0 <= j < ns.len() implies ns[j] != name@ by {
                assert(ns[j] == self.providers@[j].name@);
            }
        }
        None
    }

    /// Stores a provider configuration, replacing the one of the same name.
    pub fn set_provider(&mut self, config: ProviderConfig)
        requires
            old(self).wf(),
        ensures
            final(self).wf(),
            final(self).key_map() == old(self).key_map(),
            config_names(old(self).configs()).contains(config.name@) ==> exists|i: int|
                0 <= i < old(self).configs().len() && old(self).configs()[i].name@ == config.name@
                    && final(self).configs() == old(self).configs().update(i, config),
            !config_names(old(self).configs()).contains(config.name@) ==> final(self).configs()
                == old(self).configs().push(config),
    {
        let ghost old_ps = self.providers@;
        match self.provider_index(config.name.as_str()) {
            Some(i) => {
                self.providers.set(i, config);
                proof {
                    let ns = config_names(self.providers@);
                    assert(ns =~= config_names(old_ps));
                    assert(config_names(old_ps)[i as int] == old_ps[i as int].name@);
                }
            },
            None => {
                self.providers.push(config);
                proof {
                    let ns = config_names(self.providers@);
                    assert(ns =~= config_names(old_ps).push(config.name@));
                }
            },
        }
    }

    /// Records one provider entry of a `models.json` file: the API flavour
    /// defaults to `openai-completions`, a non-empty `apiKey` becomes the
    /// provider's key, and the configuration replaces any of that name.
    pub fn add_models_entry(
        &mut self,
        name: &str,
        api: Option<&str>,
        base_url: Option<&str>,
        api_key: Option<&str>,
    )
        requires
            old(self).wf(),
        ensures
            final(self).wf(),
            final(self).key_map() == (match api_key {
                Some(k) => if k@.len() > 0 {
                    old(self).key_map().insert(name@, k@)
                } else {
                    old(self).key_map()
                },
                None => old(self).key_map(),
            }),
            config_names(final(self).configs()).contains(name@),
            forall|i: int| 0 <= i < final(self).configs().len() && #[trigger] final(self).configs()[i].name@ == name@ ==> {
                let c = final(self).configs()[i];
                &&& c.api@ == (match api {
                    Some(a) => a@,
                    None => DEFAULT_PROVIDER_API@,
                })
                &&& opt_str(c.base_url) == opt_slice(base_url)
                &&& opt_str(c.api_key) == opt_slice(api_key)
                &&& c.models@.len() == 0
            },
    {
        let config = ProviderConfig {
            name: name.to_owned(),
            api: match api {
                Some(a) => a.to_owned(),
                None => DEFAULT_PROVIDER_API.to_owned(),
            },
            base_url: match base_url {
                Some(u) => Some(u.to_owned()),
                None => None,
            },
            api_key: match api_key {
                Some(k) => Some(k.to_owned()),
                None => None,
            },
            models: Vec::new(),
        };
        match api_key {
            Some(k) => {
                if !k.is_empty() {
                    self.set_key(name, k);
                }
            },
            None => {},
        }
        let ghost before = self.providers@;
        self.set_provider(config);
        proof {
            let ps = self.providers@;
            let ns = config_names(ps);
            if config_names(before).contains(name@) {
                let i = choose|i: int|
                    0 <= i < before.len() && before[i].name@ == config.name@ && ps == before.update(i, config);
                assert(ns[i] == name@);
                assert forall|j: int| 0 <= j < ps.len() && #[trigger] ps[j].name@ == name@ implies j == i by {
                    if j != i {
                        assert(ns[j] == name@);
                        if j < i {
                            assert(ns[j] != ns[i]);
                        } else {
                            assert(ns[i] != ns[j]);
                        }
                    }
                }
            } else {
                assert(ns[before.len() as int] == name@);
                assert forall|j: int| 0 <= j < ps.len() && #[trigger] ps[j].name@ == name@ implies j == before.len() by {
                    if j < before.len() {
                        assert(config_names(before)[j] == name@);
                    }
                }
            }
        }
    }

    /// The API key of `provider`.
    pub fn get_key(&self, provider: &str) -> (r: Option<&str>)
        requires
            self.wf(),
        ensures
            match r {
                Some(k) => self.key_map().contains_key(provider@) && self.key_map()[provider@] == k@,
                None => !self.key_map().contains_key(provider@),
            },
    {
        self.keys.get(provider)
    }

    /// The configuration of `provider`.
    pub fn get_provider(&self, provider: &str) -> (r: Option<&ProviderConfig>)
        requires
            self.wf(),
        ensures
            match r {
                Some(c) => c.name@ == provider@ && self.configs().contains(*c),
                None => !config_names(self.configs()).contains(provider@),
            },
    {
        match self.provider_index(provider) {
            Some(i) => {
                let c = &self.providers[i];
                assert(self.configs()[i as int] == *c);
                Some(c)
            },
            None => None,
        }
    }

    /// The providers that have an API key, each once.
    pub fn available_providers(&self) -> (r: Vec<String>)
        requires
            self.wf(),
        ensures
            strs_view(r@) == self.key_order(),
            strs_view(r@).to_set() == self.key_map().dom(),
            strs_view(r@).no_duplicates(),
    {
        proof {
            self.keys.lemma_key_seq();
        }
        self.keys.keys()
    }

    /// The configured providers, each once, in the order they were first
    /// configured.
    pub fn configured_providers(&self) -> (r: Vec<String>)
        requires
            self.wf(),
        ensures
            strs_view(r@) == config_names(self.configs()),
            strs_view(r@).no_duplicates(),
    {
        let mut r: Vec<String> = Vec::new();
        let mut i: usize = 0;
        while i < self.providers.len()
            invariant
                i <= self.providers@.len(),
                r@.len() == i,
                strs_view(r@) == config_names(self.providers@).take(i as int),
            decreases self.providers.len() - i,
        {
            let ghost before = r@;
            let n = self.providers[i].name.clone();
            r.push(n);
            assert(r@ == before.push(n));
            assert(strs_view(r@) =~= strs_view(before).push(n@));
            assert(config_names(self.providers@).take(i + 1) =~= config_names(self.providers@).take(
                i as int,
            ).push(n@));
            i = i + 1;
        }
        assert(config_names(self.providers@).take(self.providers@.len() as int) =~= config_names(
            self.providers@,
        ));
        proof {
            let ns = config_names(self.providers@);
            assert forall|a: int, b: int| 0 <= a < ns.len() && 0 <= b < ns.len() && a != b implies ns[a] != ns[b] by {
                if a < b {
                    assert(ns[a] != ns[b]);
                } else {
                    assert(ns[b] != ns[a]);
                }
            }
        }
        r
    }
}

/// The text of an optional string.
pub open spec fn opt_str(o: Option<String>) -> Option<Seq<char>> {
    match o {
        Some(s) => Some(s@),
        None => None,
    }
}

/// The text of an optional string slice.
pub open spec fn opt_slice(o: Option<&str>) -> Option<Seq<char>> {
    match o {
        Some(s) => Some(s@),
        None => None,
    }
}

/// The models of the configurations, each as `(provider, model id, model
/// name)`.
pub open spec fn listed_models(ps: Seq<ProviderConfig>) -> Seq<(Seq<char>, Seq<char>, Seq<char>)>
    decreases ps.len(),
{
    if ps.len() == 0 {
        Seq::empty()
    } else {
        let p = ps.last();
        listed_models(ps.drop_last()) + Seq::new(
            p.models@.len(),
            |k: int| (p.name@, p.models@[k].id@, p.models@[k].name@),
        )
    }
}

/// The models offered: those listed in the provider configurations; when
/// there are none, one `default` model for each provider with a key.
pub open spec fn available_models(a: AuthStorage) -> Seq<(Seq<char>, Seq<char>, Seq<char>)> {
    let listed = listed_models(a.configs());
    if listed.len() > 0 {
        listed
    } else {
        Seq::new(a.key_order().len(), |k: int| (a.key_order()[k], "default"@, a.key_order()[k]))
    }
}

/// The views of model triples.
pub open spec fn triples_view(v: Seq<(String, String, String)>) -> Seq<(Seq<char>, Seq<char>, Seq<char>)> {
    Seq::new(v.len(), |i: int| (v[i].0@, v[i].1@, v[i].2@))
}

/// The models to choose from, as `(provider, model id, model name)`.
pub fn collect_available_models(auth: &AuthStorage) -> (r: Vec<(String, String, String)>)
    requires
        auth.wf(),
    ensures
        triples_view(r@) == available_models(*auth),
{
    let mut models: Vec<(String, String, String)> = Vec::new();
    let names = auth.configured_providers();
    let mut i: usize = 0;
    while i < names.len()
        invariant
            auth.wf(),
            strs_view(names@) == config_names(auth.configs()),
            i <= names@.len(),
            triples_view(models@) == listed_models(auth.configs().take(i as int)),
        decreases names.len() - i,
    {
        let ghost ps = auth.configs();
        assert(strs_view(names@).len() == names@.len());
        assert(config_names(ps).len() == ps.len());
        assert(names@.len() == ps.len());
        assert(strs_view(names@)[i as int] == names@[i as int]@);
        assert(names@[i as int]@ == ps[i as int].name@);
        assert(ps.take(i + 1).drop_last() =~= ps.take(i as int));
        match auth.get_provider(names[i].as_str()) {
            Some(pc) => {
                proof {
                    let j = choose|j: int| 0 <= j < ps.len() && ps[j] == *pc;
                    let ns = config_names(ps);
                    assert(ns[j] == pc.name@);
                    assert(ns[i as int] == pc.name@);
                    if j != i {
                        if j < i {
                            assert(ns[j] != ns[i as int]);
                        } else {
                            assert(ns[i as int] != ns[j]);
                        }
                    }
                    assert(ps.take(i + 1).last() == *pc);
                }
                let ghost base = triples_view(models@);
                let mut k: usize = 0;
                while k < pc.models.len()
                    invariant
                        i < names@.len(),
                        names@[i as int]@ == pc.name@,
                        k <= pc.models@.len(),
                        triples_view(models@) == base + Seq::new(
                            k as nat,
                            |q: int| (pc.name@, pc.models@[q].id@, pc.models@[q].name@),
                        ),
                    decreases pc.models.len() - k,
                {
                    let ghost before = models@;
                    let t = (names[i].clone(), pc.models[k].id.clone(), pc.models[k].name.clone());
                    models.push(t);
                    assert(models@ == before.push(t));
                    assert(triples_view(models@) =~= triples_view(before).push((t.0@, t.1@, t.2@)));
                    assert(triples_view(models@) =~= base + Seq::new(
                        (k + 1) as nat,
                        |q: int| (pc.name@, pc.models@[q].id@, pc.models@[q].name@),
                    ));
                    k = k + 1;
                }
            },
            None => {
                assert(config_names(ps)[i as int] == names@[i as int]@);
            },
        }
        i = i + 1;
    }
    assert(auth.configs().take(names@.len() as int) =~= auth.configs());
    if models.len() == 0 {
        let keys = auth.available_providers();
        let mut k: usize = 0;
        while k < keys.len()
            invariant
                strs_view(keys@) == auth.key_order(),
                k <= keys@.len(),
                models@.len() == k,
                triples_view(models@) == Seq::new(
                    k as nat,
                    |q: int| (auth.key_order()[q], "default"@, auth.key_order()[q]),
                ),
            decreases keys.len() - k,
        {
            let ghost before = models@;
            let t = (keys[k].clone(), "default".to_owned(), keys[k].clone());
            models.push(t);
            assert(models@ == before.push(t));
            assert(strs_view(keys@)[k as int] == keys@[k as int]@);
            assert(keys@[k as int]@ == auth.key_order()[k as int]);
            proof {
                reveal_strlit("default");
            }
            assert(triples_view(models@) =~= triples_view(before).push((t.0@, t.1@, t.2@)));
            assert(triples_view(models@) =~= Seq::new(
                (k + 1) as nat,
                |q: int| (auth.key_order()[q], "default"@, auth.key_order()[q]),
            ));
            k = k + 1;
        }
    }
    models
}

} // verus!
