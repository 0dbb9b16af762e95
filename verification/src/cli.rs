//! Command-line settings and the decisions taken from them: the run mode,
//! the `provider/model:thinking` model syntax, provider names and API
//! flavours.

use vstd::prelude::*;
use crate::text::{find_char_index, first_at_char, from_chars, str_eq, sub_chars, to_chars};

verus! {

/// The command-line options (the parser itself lives with the program).
#[derive(Debug, Clone)]
pub struct Cli {
    pub provider: Option<String>,
    pub model: Option<String>,
    pub api_key: Option<String>,
    pub base_url: Option<String>,
    pub thinking: Option<String>,
    pub system_prompt: Option<String>,
    pub append_system_prompt: Option<Vec<String>>,
    /// `--continue`: continue the last session.
    pub continue_session: bool,
    pub resume: bool,
    pub fork: Option<String>,
    pub session: Option<String>,
    pub mode: Option<String>,
    pub no_tools: bool,
    pub no_builtin_tools: bool,
    pub no_extensions: bool,
    pub no_skills: bool,
    pub no_prompt_templates: bool,
    pub no_context_files: bool,
    pub skill: Option<Vec<String>>,
    pub theme: Option<Vec<String>>,
    pub prompt_template: Option<Vec<String>>,
    pub list_models: Option<Option<String>>,
    pub list_sessions: bool,
    pub offline: bool,
    pub verbose: bool,
    pub init: bool,
    pub print: bool,
    pub export: Option<String>,
    pub extension: Option<Vec<String>>,
    pub messages: Vec<String>,
    pub models: Option<String>,
    pub tools: Option<String>,
    pub session_dir: Option<String>,
    pub no_session: bool,
}

/// Subcommands.
#[derive(Debug, Clone)]
pub enum Commands {
    /// Generate shell completion scripts for a shell (bash, zsh, fish, elvish).
    Completions { shell: String },
}

/// How the program runs.
#[derive(Debug, Clone, Copy, PartialEq, Eq, Structural)]
pub enum AppMode {
    Interactive,
    Print,
    Rpc,
    ListModels,
    ListSessions,
    Init,
}

/// The run mode: messages or `--print` mean print mode; then the listing
/// and init options; then a piped standard input means print mode; then
/// `--mode rpc` means RPC, `--mode json` or `text` print mode, and anything
/// else the interactive mode.
pub open spec fn mode_for(cli: Cli, stdin_is_pipe: bool) -> AppMode {
    if cli.messages@.len() > 0 || cli.print {
        AppMode::Print
    } else if cli.list_models is Some {
        AppMode::ListModels
    } else if cli.list_sessions {
        AppMode::ListSessions
    } else if cli.init {
        AppMode::Init
    } else if stdin_is_pipe {
        AppMode::Print
    } else {
        match cli.mode {
            Some(m) => if m@ == "rpc"@ {
                AppMode::Rpc
            } else if m@ == "json"@ || m@ == "text"@ {
                AppMode::Print
            } else {
                AppMode::Interactive
            },
            None => AppMode::Interactive,
        }
    }
}

/// Decides the run mode; `stdin_is_pipe` tells whether standard input is
/// not a terminal.
pub fn resolve_mode(cli: &Cli, stdin_is_pipe: bool) -> (m: AppMode)
    ensures
        m == mode_for(*cli, stdin_is_pipe),
{
    if cli.messages.len() > 0 || cli.print {
        return AppMode::Print;
    }
    if cli.list_models.is_some() {
        return AppMode::ListModels;
    }
    if cli.list_sessions {
        return AppMode::ListSessions;
    }
    if cli.init {
        return AppMode::Init;
    }
    if stdin_is_pipe {
        return AppMode::Print;
    }
    match &cli.mode {
        Some(m) => {
            if str_eq(m.as_str(), "rpc") {
                AppMode::Rpc
            } else if str_eq(m.as_str(), "json") || str_eq(m.as_str(), "text") {
                AppMode::Print
            } else {
                AppMode::Interactive
            }
        },
        None => AppMode::Interactive,
    }
}

/// `s` split at its first `c`: what precedes it, and what follows it if
/// there is one.
pub open spec fn split_first(s: Seq<char>, c: char) -> (Seq<char>, Option<Seq<char>>) {
    if exists|i: int| first_at_char(s, c, i) {
        let i = choose|i: int| first_at_char(s, c, i);
        (s.take(i), Some(s.skip(i + 1)))
    } else {
        (s, None)
    }
}

/// A text, or nothing when it is empty.
pub open spec fn non_empty(s: Seq<char>) -> Option<Seq<char>> {
    if s.len() == 0 { None } else { Some(s) }
}

/// The parts of `provider/model:thinking`: what follows the first `:` is
/// the thinking level; before it, what precedes the first `/` is the
/// provider and the rest the model, which is absent when empty.
pub open spec fn model_pattern(p: Seq<char>) -> (Option<Seq<char>>, Option<Seq<char>>, Option<Seq<char>>) {
    let (prefix, thinking) = split_first(p, ':');
    let (before, after) = split_first(prefix, '/');
    match after {
        Some(m) => (non_empty(m), Some(before), thinking),
        None => (non_empty(before), None, thinking),
    }
}

/// The text of an optional string.
pub open spec fn opt_text(o: Option<String>) -> Option<Seq<char>> {
    match o {
        Some(s) => Some(s@),
        None => None,
    }
}

/// Splits `chars` at the first `c`: before it, and after it if there is one.
fn split_at_first(chars: &[char], c: char) -> (r: (Vec<char>, Option<Vec<char>>))
    ensures
        r.0@ == split_first(chars@, c).0,
        match r.1 {
            Some(t) => split_first(chars@, c).1 == Some(t@),
            None => split_first(chars@, c).1 is None,
        },
{
    let n = chars.len();
    match find_char_index(chars, c) {
        Some(i) => {
            proof {
                let j = choose|j: int| first_at_char(chars@, c, j);
                crate::text::lemma_first_at_char_unique(chars@, c, i as int, j);
            }
            let a = sub_chars(chars, 0, i);
            let b = sub_chars(chars, i + 1, n);
            assert(a@ =~= chars@.take(i as int));
            assert(b@ =~= chars@.skip(i + 1));
            (a, Some(b))
        },
        None => {
            proof {
                assert forall|i: int| !first_at_char(chars@, c, i) by {
                    if first_at_char(chars@, c, i) {
                        assert(chars@[i] == c);
                    }
                }
            }
            let a = sub_chars(chars, 0, n);
            assert(a@ =~= chars@);
            (a, None)
        },
    }
}

/// Parses the compact model syntax `provider/modelId:thinkingLevel` into
/// `(model id, provider, thinking level)`.
pub fn parse_model_pattern(pattern: &str) -> (r: (Option<String>, Option<String>, Option<String>))
    ensures
        (opt_text(r.0), opt_text(r.1), opt_text(r.2)) == model_pattern(pattern@),
{
    let cs = to_chars(pattern);
    let (prefix, thinking) = split_at_first(cs.as_slice(), ':');
    let (before, after) = split_at_first(prefix.as_slice(), '/');
    let thinking_s = match thinking {
        Some(t) => Some(from_chars(t.as_slice())),
        None => None,
    };
    let (model_v, provider_s) = match after {
        Some(m) => (m, Some(from_chars(before.as_slice()))),
        None => (before, None),
    };
    let model_s = if model_v.len() == 0 {
        None
    } else {
        Some(from_chars(model_v.as_slice()))
    };
    (model_s, provider_s, thinking_s)
}

/// The display names of the known providers.
pub open spec fn known_display_name(p: Seq<char>) -> Option<Seq<char>> {
    if p == "anthropic"@ {
        Some("Anthropic"@)
    } else if p == "amazon-bedrock"@ || p == "bedrock"@ {
        Some("Amazon Bedrock"@)
    } else if p == "azure"@ || p == "azure-openai"@ {
        Some("Azure OpenAI"@)
    } else if p == "cerebras"@ {
        Some("Cerebras"@)
    } else if p == "cloudflare"@ || p == "cloudflare-workers"@ {
        Some("Cloudflare Workers AI"@)
    } else if p == "deepseek"@ {
        Some("DeepSeek"@)
    } else if p == "fireworks"@ {
        Some("Fireworks"@)
    } else if p == "google"@ || p == "gemini"@ {
        Some("Google Gemini"@)
    } else if p == "google-vertex"@ || p == "vertex"@ {
        Some("Google Vertex AI"@)
    } else if p == "groq"@ {
        Some("Groq"@)
    } else if p == "huggingface"@ {
        Some("Hugging Face"@)
    } else if p == "mistral"@ {
        Some("Mistral"@)
    } else if p == "openai"@ {
        Some("OpenAI"@)
    } else if p == "openrouter"@ {
        Some("OpenRouter"@)
    } else if p == "together"@ {
        Some("Together AI"@)
    } else if p == "xai"@ {
        Some("xAI"@)
    } else if p == "xiaomi"@ {
        Some("Xiaomi MiMo"@)
    } else if p == "glm"@ || p == "zhipu"@ {
        Some("Zhipu AI"@)
    } else {
        None
    }
}

/// What `char::to_uppercase` makes of `c`.
pub uninterp spec fn char_uppercase(c: char) -> Seq<char>;

/// The uppercase form of a character (`char::to_uppercase`, collected): an
/// ASCII lowercase letter becomes its capital, any other ASCII character
/// stays as it is.
#[verifier::external_body]
pub(crate) fn to_uppercase(c: char) -> (r: String)
    ensures
        r@ == char_uppercase(c),
        'a' <= c <= 'z' ==> r@ == seq![((c as u32) - 32) as char],
        (c as u32) < 128 && !('a' <= c <= 'z') ==> r@ == seq![c],
{
    c.to_uppercase().collect::<String>()
}

/// The display name of a provider: a known name, else the id with its
/// first character in uppercase.
pub open spec fn display_name(p: Seq<char>) -> Seq<char> {
    match known_display_name(p) {
        Some(n) => n,
        None => if p.len() == 0 {
            p
        } else {
            char_uppercase(p[0]) + p.drop_first()
        },
    }
}

/// A readable name for a provider id.
pub fn provider_display_name(provider: &str) -> (r: String)
    ensures
        r@ == display_name(provider@),
{
    if str_eq(provider, "anthropic") {
        return "Anthropic".to_owned();
    }
    if str_eq(provider, "amazon-bedrock") || str_eq(provider, "bedrock") {
        return "Amazon Bedrock".to_owned();
    }
    if str_eq(provider, "azure") || str_eq(provider, "azure-openai") {
        return "Azure OpenAI".to_owned();
    }
    if str_eq(provider, "cerebras") {
        return "Cerebras".to_owned();
    }
    if str_eq(provider, "cloudflare") || str_eq(provider, "cloudflare-workers") {
        return "Cloudflare Workers AI".to_owned();
    }
    if str_eq(provider, "deepseek") {
        return "DeepSeek".to_owned();
    }
    if str_eq(provider, "fireworks") {
        return "Fireworks".to_owned();
    }
    if str_eq(provider, "google") || str_eq(provider, "gemini") {
        return "Google Gemini".to_owned();
    }
    if str_eq(provider, "google-vertex") || str_eq(provider, "vertex") {
        return "Google Vertex AI".to_owned();
    }
    if str_eq(provider, "groq") {
        return "Groq".to_owned();
    }
    if str_eq(provider, "huggingface") {
        return "Hugging Face".to_owned();
    }
    if str_eq(provider, "mistral") {
        return "Mistral".to_owned();
    }
    if str_eq(provider, "openai") {
        return "OpenAI".to_owned();
    }
    if str_eq(provider, "openrouter") {
        return "OpenRouter".to_owned();
    }
    if str_eq(provider, "together") {
        return "Together AI".to_owned();
    }
    if str_eq(provider, "xai") {
        return "xAI".to_owned();
    }
    if str_eq(provider, "xiaomi") {
        return "Xiaomi MiMo".to_owned();
    }
    if str_eq(provider, "glm") || str_eq(provider, "zhipu") {
        return "Zhipu AI".to_owned();
    }
    assert(known_display_name(provider@) is None);
    let cs = to_chars(provider);
    if cs.len() == 0 {
        return provider.to_owned();
    }
    let mut r = to_uppercase(cs[0]);
    let rest = from_chars(sub_chars(cs.as_slice(), 1, cs.len()).as_slice());
    assert(cs@.subrange(1, cs@.len() as int) =~= cs@.drop_first());
    crate::text::push_str(&mut r, rest.as_str());
    r
}

/// The API flavour assumed for a provider without configuration.
pub open spec fn default_api(p: Seq<char>) -> Seq<char> {
    if p == "openai"@ || p == "deepseek"@ || p == "groq"@ || p == "openrouter"@ || p == "together"@
        || p == "fireworks"@ || p == "glm"@ || p == "zhipu"@ {
        "openai-completions"@
    } else if p == "google"@ || p == "gemini"@ {
        "google-gemini"@
    } else {
        "anthropic-messages"@
    }
}

/// The API flavour assumed for a provider without configuration.
pub fn default_api_type(provider: &str) -> (r: &'static str)
    ensures
        r@ == default_api(provider@),
{
    if str_eq(provider, "openai") || str_eq(provider, "deepseek") || str_eq(provider, "groq")
        || str_eq(provider, "openrouter") || str_eq(provider, "together") || str_eq(
        provider,
        "fireworks",
    ) || str_eq(provider, "glm") || str_eq(provider, "zhipu") {
        "openai-completions"
    } else if str_eq(provider, "google") || str_eq(provider, "gemini") {
        "google-gemini"
    } else {
        "anthropic-messages"
    }
}

} // verus!
