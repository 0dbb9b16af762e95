//! The settings of one agent run: where, with which model and provider,
//! with which credentials and prompt.

use vstd::prelude::*;

verus! {

/// Everything one agent turn needs.
#[derive(Debug, Clone)]
pub struct AgentRuntime {
    /// The working directory.
    pub cwd: String,
    /// The model id.
    pub model: String,
    /// The provider's name.
    pub provider: String,
    /// The API key.
    pub api_key: String,
    /// The API flavour (`openai-completions`, `anthropic`, `gemini`, ...).
    pub api_type: String,
    /// A base URL that replaces the provider's default.
    pub base_url: Option<String>,
    /// The system prompt.
    pub system_prompt: String,
    /// The most tokens the model may produce.
    pub max_tokens: u32,
}

/// The default output limit.
pub const DEFAULT_MAX_TOKENS: u32 = 16384;

impl AgentRuntime {
    /// A runtime with no base URL, an empty system prompt and the default
    /// output limit.
    pub fn new(cwd: String, model: String, provider: String, api_key: String, api_type: String) -> (r: Self)
        ensures
            r.cwd == cwd,
            r.model == model,
            r.provider == provider,
            r.api_key == api_key,
            r.api_type == api_type,
            r.base_url is None,
            r.system_prompt@ == Seq::<char>::empty(),
            r.max_tokens == DEFAULT_MAX_TOKENS,
    {
        AgentRuntime {
            cwd,
            model,
            provider,
            api_key,
            api_type,
            base_url: None,
            system_prompt: String::new(),
            max_tokens: DEFAULT_MAX_TOKENS,
        }
    }

    /// Sets the base URL.
    pub fn with_base_url(self, url: &str) -> (r: Self)
        ensures
            r == (AgentRuntime { base_url: r.base_url, ..self }),
            r.base_url matches Some(u) && u@ == url@,
    {
        let mut r = self;
        r.base_url = Some(url.to_owned());
        r
    }

    /// Sets the system prompt.
    pub fn with_system_prompt(self, prompt: &str) -> (r: Self)
        ensures
            r == (AgentRuntime { system_prompt: r.system_prompt, ..self }),
            r.system_prompt@ == prompt@,
    {
        let mut r = self;
        r.system_prompt = prompt.to_owned();
        r
    }

    /// Sets the output limit.
    pub fn with_max_tokens(self, tokens: u32) -> (r: Self)
        ensures
            r == (AgentRuntime { max_tokens: tokens, ..self }),
    {
        let mut r = self;
        r.max_tokens = tokens;
        r
    }
}

} // verus!
