//! The model providers: their names, their endpoints, the request bodies
//! of the providers that take a format of their own, and the registry
//! that finds a provider by name. The HTTP exchange itself is left to the
//! caller.

use vstd::prelude::*;
use crate::json::{jview, jview_items, jview_members, JsonValue, JsonView};
use crate::message::{blocks_view, messages_view, tools_view, BlockView, CompletionRequest, ContentBlock, Message, MessageView, ToolDefView};
use crate::prompt::opt_view;
use crate::requests::opt_member;
use crate::text::{join_lines, join_nl, push_str, str_eq, strs_view, to_chars};
use crate::requests::{gemini_declaration, openai_tool};
use crate::transform::{anthropic_block, anthropic_blocks, block_to_anthropic, js, jstring, obj1, obj2, obj3, push_json};

verus! {

// ---------------------------------------------------------------------
// Providers and their names
// ---------------------------------------------------------------------

/// A model provider's driver.
#[derive(Debug, Clone, Copy, PartialEq, Eq, Structural)]
pub enum DriverId {
    Anthropic,
    OpenAi,
    Gemini,
    AzureOpenAi,
    Bedrock,
    Cloudflare,
    OpenAiResponses,
    Vertex,
}

pub open spec fn driver_name(d: DriverId) -> Seq<char> {
    match d {
        DriverId::Anthropic => "anthropic"@,
        DriverId::OpenAi => "openai"@,
        DriverId::Gemini => "google"@,
        DriverId::AzureOpenAi => "azure-openai"@,
        DriverId::Bedrock => "amazon-bedrock"@,
        DriverId::Cloudflare => "cloudflare"@,
        DriverId::OpenAiResponses => "openai-responses"@,
        DriverId::Vertex => "google-vertex"@,
    }
}

impl DriverId {
    /// The driver's name.
    pub fn name(&self) -> (r: &'static str)
        ensures
            r@ == driver_name(*self),
    {
        match self {
            DriverId::Anthropic => "anthropic",
            DriverId::OpenAi => "openai",
            DriverId::Gemini => "google",
            DriverId::AzureOpenAi => "azure-openai",
            DriverId::Bedrock => "amazon-bedrock",
            DriverId::Cloudflare => "cloudflare",
            DriverId::OpenAiResponses => "openai-responses",
            DriverId::Vertex => "google-vertex",
        }
    }
}

/// `s` without the `/` characters at its end.
pub open spec fn trim_slashes(s: Seq<char>) -> Seq<char>
    decreases s.len(),
{
    if s.len() > 0 && s.last() == '/' { trim_slashes(s.drop_last()) } else { s }
}

fn trimmed_slashes(s: &str) -> (r: String)
    ensures
        r@ == trim_slashes(s@),
{
    let cs = to_chars(s);
    let mut n: usize = cs.len();
    assert(cs@.subrange(0, n as int) =~= cs@);
    while n > 0 && cs[n - 1] == '/'
        invariant
            n <= cs.len(),
            cs@ == s@,
            trim_slashes(cs@.subrange(0, n as int)) == trim_slashes(s@),
        decreases n,
    {
        assert(cs@.subrange(0, n as int).drop_last() =~= cs@.subrange(0, n - 1));
        n = n - 1;
    }
    crate::text::from_chars(crate::text::sub_chars(&cs, 0, n).as_slice())
}

/// Azure OpenAI: chat completions of a deployment.
#[derive(Debug, Default)]
pub struct AzureOpenAiDriver;

/// The Azure endpoint used when none is configured.
pub const AZURE_DEFAULT_BASE: &'static str = "https://api.openai.azure.com";

pub open spec fn azure_url(base: Seq<char>, deployment: Seq<char>) -> Seq<char> {
    trim_slashes(base) + "/openai/deployments/"@ + deployment + "/chat/completions?api-version=2024-02-15-preview"@
}

impl AzureOpenAiDriver {
    pub fn new() -> (d: Self) {
        AzureOpenAiDriver
    }

    pub fn name(&self) -> (r: &'static str)
        ensures
            r@ == driver_name(DriverId::AzureOpenAi),
    {
        DriverId::AzureOpenAi.name()
    }

    /// The chat completions URL of `deployment` under `base_url`.
    pub fn build_url(base_url: &str, deployment: &str) -> (r: String)
        ensures
            r@ == azure_url(base_url@, deployment@),
    {
        let mut r = trimmed_slashes(base_url);
        proof {
            reveal_strlit("/openai/deployments/");
            reveal_strlit("/chat/completions?api-version=2024-02-15-preview");
        }
        push_str(&mut r, "/openai/deployments/");
        push_str(&mut r, deployment);
        push_str(&mut r, "/chat/completions?api-version=2024-02-15-preview");
        r
    }
}

/// Amazon Bedrock: the Converse stream API.
#[derive(Debug, Default)]
pub struct BedrockDriver;

/// The AWS region used when none is configured.
pub const BEDROCK_DEFAULT_REGION: &'static str = "us-east-1";

/// A model id with each `/` written `%2F`.
pub open spec fn encode_slashes(s: Seq<char>) -> Seq<char>
    decreases s.len(),
{
    if s.len() == 0 {
        Seq::empty()
    } else {
        encode_slashes(s.drop_last()) + if s.last() == '/' { "%2F"@ } else { seq![s.last()] }
    }
}

pub open spec fn bedrock_url(model_id: Seq<char>, region: Seq<char>) -> Seq<char> {
    "https://bedrock-runtime."@ + region + ".amazonaws.com/model/"@ + encode_slashes(model_id) + "/converse-stream"@
}

impl BedrockDriver {
    pub fn new() -> (d: Self) {
        BedrockDriver
    }

    pub fn name(&self) -> (r: &'static str)
        ensures
            r@ == driver_name(DriverId::Bedrock),
    {
        DriverId::Bedrock.name()
    }

    /// The Converse stream URL of `model_id` in `region`.
    pub fn build_url(model_id: &str, region: &str) -> (r: String)
        ensures
            r@ == bedrock_url(model_id@, region@),
    {
        let mut r = String::new();
        proof {
            reveal_strlit("https://bedrock-runtime.");
            reveal_strlit(".amazonaws.com/model/");
            reveal_strlit("/converse-stream");
            reveal_strlit("%2F");
        }
        push_str(&mut r, "https://bedrock-runtime.");
        push_str(&mut r, region);
        push_str(&mut r, ".amazonaws.com/model/");
        let cs = to_chars(model_id);
        let ghost start = r@;
        let mut i: usize = 0;
        while i < cs.len()
            invariant
                i <= cs.len(),
                cs@ == model_id@,
                r@ == start + encode_slashes(cs@.subrange(0, i as int)),
            decreases cs.len() - i,
        {
            assert(cs@.subrange(0, i + 1).drop_last() =~= cs@.subrange(0, i as int));
            if cs[i] == '/' {
                push_str(&mut r, "%2F");
            } else {
                crate::text::push_char(&mut r, cs[i]);
            }
            i = i + 1;
        }
        assert(cs@.subrange(0, cs.len() as int) =~= cs@);
        push_str(&mut r, "/converse-stream");
        r
    }
}

/// Cloudflare Workers AI, directly or through an AI gateway.
#[derive(Debug, Default)]
pub struct CloudflareDriver;

pub open spec fn cloudflare_base(account_id: Seq<char>, gateway_id: Option<Seq<char>>) -> Seq<char> {
    match gateway_id {
        Some(g) => "https://gateway.ai.cloudflare.com/v1/"@ + account_id + "/"@ + g + "/openai"@,
        None => "https://api.cloudflare.com/client/v4/accounts/"@ + account_id + "/ai/v1"@,
    }
}

impl CloudflareDriver {
    pub fn new() -> (d: Self) {
        CloudflareDriver
    }

    pub fn name(&self) -> (r: &'static str)
        ensures
            r@ == driver_name(DriverId::Cloudflare),
    {
        DriverId::Cloudflare.name()
    }

    /// The base URL: the configured one when there is one, else the
    /// account's endpoint, through its gateway when one is set. Fails when
    /// neither a base URL nor an account id is given.
    pub fn build_base_url(
        base_url: Option<&str>,
        account_id: Option<&str>,
        gateway_id: Option<&str>,
    ) -> (r: Result<String, String>)
        ensures
            match (base_url, account_id) {
                (Some(b), _) => r matches Ok(u) && u@ == b@,
                (None, Some(a)) => r matches Ok(u) && u@ == cloudflare_base(a@, crate::session_log::str_opt_view(gateway_id)),
                (None, None) => r matches Err(e) && e@ == "CLOUDFLARE_ACCOUNT_ID not set"@,
            },
    {
        if let Some(b) = base_url {
            return Ok(b.to_string());
        }
        let account = match account_id {
            Some(a) => a,
            None => {
                proof { reveal_strlit("CLOUDFLARE_ACCOUNT_ID not set"); }
                return Err("CLOUDFLARE_ACCOUNT_ID not set".to_string());
            },
        };
        let mut r = String::new();
        match gateway_id {
            Some(g) => {
                proof {
                    reveal_strlit("https://gateway.ai.cloudflare.com/v1/");
                    reveal_strlit("/");
                    reveal_strlit("/openai");
                }
                push_str(&mut r, "https://gateway.ai.cloudflare.com/v1/");
                push_str(&mut r, account);
                push_str(&mut r, "/");
                push_str(&mut r, g);
                push_str(&mut r, "/openai");
            },
            None => {
                proof {
                    reveal_strlit("https://api.cloudflare.com/client/v4/accounts/");
                    reveal_strlit("/ai/v1");
                }
                push_str(&mut r, "https://api.cloudflare.com/client/v4/accounts/");
                push_str(&mut r, account);
                push_str(&mut r, "/ai/v1");
            },
        }
        Ok(r)
    }

    /// The chat completions URL under the base URL.
    pub fn build_url(
        base_url: Option<&str>,
        account_id: Option<&str>,
        gateway_id: Option<&str>,
    ) -> (r: Result<String, String>)
        ensures
            match (base_url, account_id) {
                (Some(b), _) => r matches Ok(u) && u@ == b@ + "/chat/completions"@,
                (None, Some(a)) => r matches Ok(u)
                    && u@ == cloudflare_base(a@, crate::session_log::str_opt_view(gateway_id)) + "/chat/completions"@,
                (None, None) => r matches Err(e) && e@ == "CLOUDFLARE_ACCOUNT_ID not set"@,
            },
    {
        match Self::build_base_url(base_url, account_id, gateway_id) {
            Ok(mut u) => {
                proof { reveal_strlit("/chat/completions"); }
                push_str(&mut u, "/chat/completions");
                Ok(u)
            },
            Err(e) => Err(e),
        }
    }
}

/// Google Vertex AI: Gemini models under a Google Cloud project.
#[derive(Debug, Default)]
pub struct VertexDriver;

/// The location used when none is configured.
pub const VERTEX_DEFAULT_LOCATION: &'static str = "us-central1";

pub open spec fn vertex_url(project: Seq<char>, location: Seq<char>, model: Seq<char>) -> Seq<char> {
    "https://"@ + location + "-aiplatform.googleapis.com/v1/projects/"@ + project + "/locations/"@ + location
        + "/publishers/google/models/"@ + model + ":streamGenerateContent?alt=sse"@
}

impl VertexDriver {
    pub fn new() -> (d: Self) {
        VertexDriver
    }

    pub fn name(&self) -> (r: &'static str)
        ensures
            r@ == driver_name(DriverId::Vertex),
    {
        DriverId::Vertex.name()
    }

    /// The streaming URL of `model` in `project` at `location`.
    pub fn build_url(project: &str, location: &str, model: &str) -> (r: String)
        ensures
            r@ == vertex_url(project@, location@, model@),
    {
        let mut r = String::new();
        proof {
            reveal_strlit("https://");
            reveal_strlit("-aiplatform.googleapis.com/v1/projects/");
            reveal_strlit("/locations/");
            reveal_strlit("/publishers/google/models/");
            reveal_strlit(":streamGenerateContent?alt=sse");
        }
        push_str(&mut r, "https://");
        push_str(&mut r, location);
        push_str(&mut r, "-aiplatform.googleapis.com/v1/projects/");
        push_str(&mut r, project);
        push_str(&mut r, "/locations/");
        push_str(&mut r, location);
        push_str(&mut r, "/publishers/google/models/");
        push_str(&mut r, model);
        push_str(&mut r, ":streamGenerateContent?alt=sse");
        r
    }
}

/// The OpenAI Responses API.
#[derive(Debug, Default)]
pub struct OpenAiResponsesDriver;

pub open spec fn responses_url(base_url: Option<Seq<char>>) -> Seq<char> {
    match base_url {
        Some(b) => trim_slashes(b) + "/responses"@,
        None => "https://api.openai.com/v1/responses"@,
    }
}

impl OpenAiResponsesDriver {
    pub fn new() -> (d: Self) {
        OpenAiResponsesDriver
    }

    pub fn name(&self) -> (r: &'static str)
        ensures
            r@ == driver_name(DriverId::OpenAiResponses),
    {
        DriverId::OpenAiResponses.name()
    }

    /// The responses URL under the configured base URL, or OpenAI's.
    pub fn build_url(base_url: Option<&str>) -> (r: String)
        ensures
            r@ == responses_url(crate::session_log::str_opt_view(base_url)),
    {
        match base_url {
            Some(b) => {
                let mut r = trimmed_slashes(b);
                proof { reveal_strlit("/responses"); }
                push_str(&mut r, "/responses");
                r
            },
            None => "https://api.openai.com/v1/responses".to_string(),
        }
    }
}

/// OpenAI chat completions, and the providers that speak the same API.
#[derive(Debug, Default)]
pub struct OpenAiDriver;

/// Google Gemini.
#[derive(Debug, Default)]
pub struct GeminiDriver;

/// Anthropic messages.
#[derive(Debug, Default)]
pub struct AnthropicDriver;

pub const OPENAI_API_URL: &'static str = "https://api.openai.com/v1/chat/completions";
pub const ANTHROPIC_API_URL: &'static str = "https://api.anthropic.com/v1/messages";
pub const ANTHROPIC_VERSION: &'static str = "2023-06-01";
pub const GEMINI_API_URL: &'static str = "https://generativelanguage.googleapis.com";

pub open spec fn gemini_url(base: Seq<char>, model: Seq<char>) -> Seq<char> {
    trim_slashes(base) + "/v1beta/models/"@ + model + ":streamGenerateContent?alt=sse"@
}

impl OpenAiDriver {
    pub fn new() -> (d: Self) {
        OpenAiDriver
    }

    pub fn name(&self) -> (r: &'static str)
        ensures
            r@ == driver_name(DriverId::OpenAi),
    {
        DriverId::OpenAi.name()
    }
}

impl AnthropicDriver {
    pub fn new() -> (d: Self) {
        AnthropicDriver
    }

    pub fn name(&self) -> (r: &'static str)
        ensures
            r@ == driver_name(DriverId::Anthropic),
    {
        DriverId::Anthropic.name()
    }
}

impl GeminiDriver {
    pub fn new() -> (d: Self) {
        GeminiDriver
    }

    pub fn name(&self) -> (r: &'static str)
        ensures
            r@ == driver_name(DriverId::Gemini),
    {
        DriverId::Gemini.name()
    }

    /// The streaming URL of `model` under `base_url`.
    pub fn build_url(base_url: &str, model: &str) -> (r: String)
        ensures
            r@ == gemini_url(base_url@, model@),
    {
        let mut r = trimmed_slashes(base_url);
        proof {
            reveal_strlit("/v1beta/models/");
            reveal_strlit(":streamGenerateContent?alt=sse");
        }
        push_str(&mut r, "/v1beta/models/");
        push_str(&mut r, model);
        push_str(&mut r, ":streamGenerateContent?alt=sse");
        r
    }
}

// ---------------------------------------------------------------------
// Registry
// ---------------------------------------------------------------------

/// The providers by name.
#[derive(Debug)]
pub struct ProviderRegistry {
    drivers: Vec<(String, DriverId)>,
}

/// The provider registered last under `name` in a list of registrations.
pub open spec fn registered(s: Seq<(Seq<char>, DriverId)>, name: Seq<char>) -> Option<DriverId>
    decreases s.len(),
{
    if s.len() == 0 {
        None
    } else if s.last().0 == name {
        Some(s.last().1)
    } else {
        registered(s.drop_last(), name)
    }
}

/// The registrations a new registry starts with: Anthropic, OpenAI and the
/// providers that speak its API, Gemini under two names, and Cloudflare.
pub open spec fn builtin_registrations() -> Seq<(Seq<char>, DriverId)> {
    seq![
        ("anthropic"@, DriverId::Anthropic),
        ("openai"@, DriverId::OpenAi),
        ("glm"@, DriverId::OpenAi),
        ("deepseek"@, DriverId::OpenAi),
        ("groq"@, DriverId::OpenAi),
        ("openrouter"@, DriverId::OpenAi),
        ("together"@, DriverId::OpenAi),
        ("fireworks"@, DriverId::OpenAi),
        ("mistral"@, DriverId::OpenAi),
        ("xai"@, DriverId::OpenAi),
        ("google"@, DriverId::Gemini),
        ("gemini"@, DriverId::Gemini),
        ("cloudflare"@, DriverId::Cloudflare),
    ]
}

pub open spec fn registrations_view(s: Seq<(String, DriverId)>) -> Seq<(Seq<char>, DriverId)> {
    s.map_values(|p: (String, DriverId)| (p.0@, p.1))
}

impl ProviderRegistry {
    /// The registrations, in order.
    pub closed spec fn registrations(&self) -> Seq<(Seq<char>, DriverId)> {
        registrations_view(self.drivers@)
    }

    /// The provider registered under `name`.
    pub open spec fn lookup(&self, name: Seq<char>) -> Option<DriverId> {
        registered(self.registrations(), name)
    }

    /// The registered names, each once, in the order first registered.
    pub open spec fn name_list(&self) -> Seq<Seq<char>> {
        distinct_names(self.registrations())
    }

    /// A registry of the built-in providers.
    pub fn new() -> (r: Self)
        ensures
            r.registrations() == builtin_registrations(),
    {
        let mut r = ProviderRegistry { drivers: Vec::new() };
        r.register("anthropic", DriverId::Anthropic);
        r.register("openai", DriverId::OpenAi);
        r.register("glm", DriverId::OpenAi);
        r.register("deepseek", DriverId::OpenAi);
        r.register("groq", DriverId::OpenAi);
        r.register("openrouter", DriverId::OpenAi);
        r.register("together", DriverId::OpenAi);
        r.register("fireworks", DriverId::OpenAi);
        r.register("mistral", DriverId::OpenAi);
        r.register("xai", DriverId::OpenAi);
        r.register("google", DriverId::Gemini);
        r.register("gemini", DriverId::Gemini);
        r.register("cloudflare", DriverId::Cloudflare);
        assert(r.registrations() =~= builtin_registrations());
        r
    }

    /// Registers `driver` under `name`, in place of any earlier one.
    pub fn register(&mut self, name: &str, driver: DriverId)
        ensures
            final(self).registrations() == old(self).registrations().push((name@, driver)),
    {
        let ghost before = self.drivers@;
        self.drivers.push((name.to_string(), driver));
        assert(registrations_view(self.drivers@) =~= registrations_view(before).push((name@, driver)));
    }

    /// The provider registered under `name`.
    pub fn get(&self, name: &str) -> (r: Option<DriverId>)
        ensures
            r == self.lookup(name@),
    {
        let ghost regs = self.registrations();
        let mut i: usize = self.drivers.len();
        assert(regs.subrange(0, i as int) =~= regs);
        while i > 0
            invariant
                i <= self.drivers.len(),
                regs == registrations_view(self.drivers@),
                registered(regs.subrange(0, i as int), name@) == registered(regs, name@),
            decreases i,
        {
            let ghost sub = regs.subrange(0, i as int);
            if str_eq(self.drivers[i - 1].0.as_str(), name) {
                assert(sub.last() == regs[i - 1]);
                return Some(self.drivers[i - 1].1);
            }
            assert(sub.drop_last() =~= regs.subrange(0, i - 1));
            i = i - 1;
        }
        None
    }

    /// The registered names, each once.
    pub fn names(&self) -> (r: Vec<String>)
        ensures
            crate::text::strs_view(r@) == self.name_list(),
    {
        let ghost regs = self.registrations();
        let mut r: Vec<String> = Vec::new();
        let mut i: usize = 0;
        while i < self.drivers.len()
            invariant
                i <= self.drivers.len(),
                regs == registrations_view(self.drivers@),
                crate::text::strs_view(r@) == distinct_names(regs.subrange(0, i as int)),
            decreases self.drivers.len() - i,
        {
            let ghost sub = regs.subrange(0, i + 1);
            assert(sub.drop_last() =~= regs.subrange(0, i as int));
            let name = &self.drivers[i].0;
            let mut seen = false;
            let mut k: usize = 0;
            while k < r.len()
                invariant
                    k <= r.len(),
                    seen == exists|j: int| 0 <= j < k && r@[j]@ == name@,
                decreases r.len() - k,
            {
                if str_eq(r[k].as_str(), name.as_str()) {
                    seen = true;
                }
                k = k + 1;
            }
            if !seen {
                r.push(name.clone());
                assert(crate::text::strs_view(r@) =~= distinct_names(sub));
            } else {
                assert(crate::text::strs_view(r@).contains(name@)) by {
                    let j = choose|j: int| 0 <= j < r@.len() && r@[j]@ == name@;
                    assert(crate::text::strs_view(r@)[j] == name@);
                }
            }
            i = i + 1;
        }
        assert(regs.subrange(0, self.drivers.len() as int) =~= regs);
        r
    }
}

/// The names of a list of registrations, each once, in the order first
/// registered.
pub open spec fn distinct_names(s: Seq<(Seq<char>, DriverId)>) -> Seq<Seq<char>>
    decreases s.len(),
{
    if s.len() == 0 {
        Seq::empty()
    } else {
        let prev = distinct_names(s.drop_last());
        if prev.contains(s.last().0) { prev } else { prev.push(s.last().0) }
    }
}

// ---------------------------------------------------------------------
// Request bodies of the Responses, Vertex and Bedrock APIs
// ---------------------------------------------------------------------

/// The texts of the text blocks, in order.
pub open spec fn block_texts(bs: Seq<BlockView>) -> Seq<Seq<char>>
    decreases bs.len(),
{
    if bs.len() == 0 {
        Seq::empty()
    } else {
        match bs.last() {
            BlockView::Text(t) => block_texts(bs.drop_last()).push(t),
            _ => block_texts(bs.drop_last()),
        }
    }
}

fn texts_of(blocks: &Vec<ContentBlock>) -> (r: Vec<String>)
    ensures
        strs_view(r@) == block_texts(blocks_view(blocks@)),
{
    let ghost bs = blocks_view(blocks@);
    let mut r: Vec<String> = Vec::new();
    let mut i: usize = 0;
    while i < blocks.len()
        invariant
            i <= blocks.len(),
            bs == blocks_view(blocks@),
            strs_view(r@) == block_texts(bs.subrange(0, i as int)),
        decreases blocks.len() - i,
    {
        assert(bs.subrange(0, i + 1).drop_last() =~= bs.subrange(0, i as int));
        if let ContentBlock::Text(t) = &blocks[i] {
            let ghost before = strs_view(r@);
            r.push(t.text.clone());
            assert(strs_view(r@) =~= before.push(t.text@));
        }
        i = i + 1;
    }
    assert(bs.subrange(0, blocks.len() as int) =~= bs);
    r
}

/// A message as one role and one text: the texts of a user or assistant
/// message joined by newlines, and a tool-result message's blocks, sent as
/// the user.
pub open spec fn flat_message(m: MessageView) -> JsonView {
    match m {
        MessageView::User(bs) => JsonView::Object(seq![("role"@, js("user"@)), ("content"@, js(join_nl(block_texts(bs))))]),
        MessageView::Assistant(bs) => JsonView::Object(seq![("role"@, js("assistant"@)), ("content"@, js(join_nl(block_texts(bs))))]),
        MessageView::ToolResult(bs) => JsonView::Object(seq![("role"@, js("user"@)), ("content"@, JsonView::Array(anthropic_blocks(bs)))]),
    }
}

fn flat_message_of(m: &Message) -> (j: JsonValue)
    ensures
        jview(j) == flat_message(m@),
{
    match m {
        Message::User(u) => {
            let t = join_lines(texts_of(&u.content).as_slice());
            obj2("role", JsonValue::string("user"), "content", JsonValue::Str(t))
        },
        Message::Assistant(a) => {
            let t = join_lines(texts_of(&a.content).as_slice());
            obj2("role", JsonValue::string("assistant"), "content", JsonValue::Str(t))
        },
        Message::ToolResult(tr) => {
            let ghost bs = blocks_view(tr.content@);
            let mut out: Vec<JsonValue> = Vec::new();
            let mut i: usize = 0;
            while i < tr.content.len()
                invariant
                    i <= tr.content.len(),
                    bs == blocks_view(tr.content@),
                    jview_items(out@) == anthropic_blocks(bs.subrange(0, i as int)),
                decreases tr.content.len() - i,
            {
                push_json(&mut out, block_to_anthropic(&tr.content[i]));
                assert(anthropic_blocks(bs.subrange(0, i + 1)) =~= anthropic_blocks(bs.subrange(0, i as int)).push(anthropic_block(bs[i as int])));
                i = i + 1;
            }
            assert(bs.subrange(0, tr.content.len() as int) =~= bs);
            obj2("role", JsonValue::string("user"), "content", JsonValue::Array(out))
        },
    }
}

fn flat_messages_of(messages: &Vec<Message>) -> (j: JsonValue)
    ensures
        jview(j) == JsonView::Array(messages_view(messages@).map_values(|m: MessageView| flat_message(m))),
{
    let ghost ms = messages_view(messages@);
    let mut out: Vec<JsonValue> = Vec::new();
    let mut i: usize = 0;
    while i < messages.len()
        invariant
            i <= messages.len(),
            ms == messages_view(messages@),
            jview_items(out@) == ms.subrange(0, i as int).map_values(|m: MessageView| flat_message(m)),
        decreases messages.len() - i,
    {
        push_json(&mut out, flat_message_of(&messages[i]));
        assert(ms.subrange(0, i + 1).map_values(|m: MessageView| flat_message(m))
            =~= ms.subrange(0, i as int).map_values(|m: MessageView| flat_message(m)).push(flat_message(ms[i as int])));
        i = i + 1;
    }
    assert(ms.subrange(0, messages.len() as int) =~= ms);
    JsonValue::Array(out)
}

fn push_member(m: &mut Vec<(String, JsonValue)>, name: &str, v: JsonValue)
    ensures
        jview_members(final(m)@) == jview_members(old(m)@).push((name@, jview(v))),
{
    let ghost before = m@;
    m.push((name.to_string(), v));
    assert(m@.drop_last() =~= before);
}

fn openai_tools_array(tools: &Vec<crate::message::ToolDefinition>) -> (j: JsonValue)
    ensures
        jview(j) == JsonView::Array(tools_view(tools@).map_values(|t: ToolDefView| openai_tool(t))),
{
    let ghost ts = tools_view(tools@);
    let mut out: Vec<JsonValue> = Vec::new();
    let mut i: usize = 0;
    while i < tools.len()
        invariant
            i <= tools.len(),
            ts == tools_view(tools@),
            jview_items(out@) == ts.subrange(0, i as int).map_values(|t: ToolDefView| openai_tool(t)),
        decreases tools.len() - i,
    {
        let t = &tools[i];
        let f = obj3("name", jstring(&t.name), "description", jstring(&t.description), "parameters", t.parameters.duplicate());
        push_json(&mut out, obj2("type", JsonValue::string("function"), "function", f));
        assert(ts.subrange(0, i + 1).map_values(|t: ToolDefView| openai_tool(t))
            =~= ts.subrange(0, i as int).map_values(|t: ToolDefView| openai_tool(t)).push(openai_tool(ts[i as int])));
        i = i + 1;
    }
    assert(ts.subrange(0, tools.len() as int) =~= ts);
    JsonValue::Array(out)
}

/// The members of an OpenAI Responses request body: the model, the
/// conversation as input, streaming on, then the instructions and the
/// tools when they are given.
pub open spec fn responses_body_members(
    model: Seq<char>,
    system: Option<Seq<char>>,
    ms: Seq<MessageView>,
    tools: Seq<ToolDefView>,
) -> Seq<(Seq<char>, JsonView)> {
    seq![
        ("model"@, js(model)),
        ("input"@, JsonView::Array(ms.map_values(|m: MessageView| flat_message(m)))),
        ("stream"@, JsonView::Bool(true)),
    ]
        + opt_member(system is Some, "instructions"@, js(system.unwrap()))
        + opt_member(tools.len() > 0, "tools"@, JsonView::Array(tools.map_values(|t: ToolDefView| openai_tool(t))))
}

impl OpenAiResponsesDriver {
    /// The request body for `req`.
    pub fn build_request(req: &CompletionRequest) -> (body: JsonValue)
        ensures
            jview(body) == JsonView::Object(responses_body_members(
                req.model@,
                opt_view(req.system_prompt),
                messages_view(req.messages@),
                tools_view(req.tools@),
            )),
    {
        let mut members: Vec<(String, JsonValue)> = Vec::new();
        push_member(&mut members, "model", jstring(&req.model));
        push_member(&mut members, "input", flat_messages_of(&req.messages));
        push_member(&mut members, "stream", JsonValue::Bool(true));
        let ghost fixed = jview_members(members@);
        let ghost sys = opt_view(req.system_prompt);
        if let Some(sp) = &req.system_prompt {
            push_member(&mut members, "instructions", jstring(sp));
        }
        assert(jview_members(members@) =~= fixed + opt_member(sys is Some, "instructions"@, js(sys.unwrap())));
        let ghost with_system = jview_members(members@);
        if req.tools.len() > 0 {
            push_member(&mut members, "tools", openai_tools_array(&req.tools));
        }
        let ghost ts = tools_view(req.tools@);
        assert(jview_members(members@) =~= with_system
            + opt_member(ts.len() > 0, "tools"@, JsonView::Array(ts.map_values(|t: ToolDefView| openai_tool(t)))));
        assert(jview_members(members@) =~= responses_body_members(req.model@, sys, messages_view(req.messages@), ts));
        JsonValue::Object(members)
    }
}

/// The contents of a Vertex request: the text parts of each user and
/// assistant message that has text; tool results are left out.
pub open spec fn vertex_contents(ms: Seq<MessageView>) -> Seq<JsonView>
    decreases ms.len(),
{
    if ms.len() == 0 {
        Seq::empty()
    } else {
        let prev = vertex_contents(ms.drop_last());
        match ms.last() {
            MessageView::User(bs) => if block_texts(bs).len() > 0 {
                prev.push(JsonView::Object(seq![("role"@, js("user"@)), ("parts"@, JsonView::Array(text_parts(block_texts(bs))))]))
            } else {
                prev
            },
            MessageView::Assistant(bs) => if block_texts(bs).len() > 0 {
                prev.push(JsonView::Object(seq![("role"@, js("model"@)), ("parts"@, JsonView::Array(text_parts(block_texts(bs))))]))
            } else {
                prev
            },
            MessageView::ToolResult(_) => prev,
        }
    }
}

/// Each text as a `{"text": ...}` part.
pub open spec fn text_parts(ts: Seq<Seq<char>>) -> Seq<JsonView> {
    ts.map_values(|t: Seq<char>| JsonView::Object(seq![("text"@, js(t))]))
}

/// The members of a Vertex request body: the contents, then the system
/// instruction and the function declarations when they are given.
pub open spec fn vertex_body_members(
    system: Option<Seq<char>>,
    ms: Seq<MessageView>,
    tools: Seq<ToolDefView>,
) -> Seq<(Seq<char>, JsonView)> {
    seq![("contents"@, JsonView::Array(vertex_contents(ms)))]
        + opt_member(system is Some, "systemInstruction"@, JsonView::Object(seq![
            ("parts"@, JsonView::Array(seq![JsonView::Object(seq![("text"@, js(system.unwrap()))])])),
        ]))
        + opt_member(tools.len() > 0, "tools"@, JsonView::Array(seq![JsonView::Object(seq![
            ("function_declarations"@, JsonView::Array(tools.map_values(|t: ToolDefView| gemini_declaration(t)))),
        ])]))
}

fn text_parts_of(texts: &Vec<String>) -> (j: JsonValue)
    ensures
        jview(j) == JsonView::Array(text_parts(strs_view(texts@))),
{
    let ghost ts = strs_view(texts@);
    let mut out: Vec<JsonValue> = Vec::new();
    let mut i: usize = 0;
    while i < texts.len()
        invariant
            i <= texts.len(),
            ts == strs_view(texts@),
            jview_items(out@) == text_parts(ts.subrange(0, i as int)),
        decreases texts.len() - i,
    {
        push_json(&mut out, obj1("text", jstring(&texts[i])));
        assert(text_parts(ts.subrange(0, i + 1)) =~= text_parts(ts.subrange(0, i as int)).push(
            JsonView::Object(seq![("text"@, js(ts[i as int]))])));
        i = i + 1;
    }
    assert(ts.subrange(0, texts.len() as int) =~= ts);
    JsonValue::Array(out)
}

fn single<T>(x: T) -> (v: Vec<T>)
    ensures
        v@ == seq![x],
{
    let mut v: Vec<T> = Vec::new();
    v.push(x);
    v
}

impl VertexDriver {
    /// The request body for `req`.
    pub fn build_request(req: &CompletionRequest) -> (body: JsonValue)
        ensures
            jview(body) == JsonView::Object(vertex_body_members(
                opt_view(req.system_prompt),
                messages_view(req.messages@),
                tools_view(req.tools@),
            )),
    {
        let ghost ms = messages_view(req.messages@);
        let mut contents: Vec<JsonValue> = Vec::new();
        let mut i: usize = 0;
        while i < req.messages.len()
            invariant
                i <= req.messages.len(),
                ms == messages_view(req.messages@),
                jview_items(contents@) == vertex_contents(ms.subrange(0, i as int)),
            decreases req.messages.len() - i,
        {
            assert(ms.subrange(0, i + 1).drop_last() =~= ms.subrange(0, i as int));
            match &req.messages[i] {
                Message::User(u) => {
                    let texts = texts_of(&u.content);
                    if texts.len() > 0 {
                        push_json(&mut contents, obj2("role", JsonValue::string("user"), "parts", text_parts_of(&texts)));
                    }
                },
                Message::Assistant(a) => {
                    let texts = texts_of(&a.content);
                    if texts.len() > 0 {
                        push_json(&mut contents, obj2("role", JsonValue::string("model"), "parts", text_parts_of(&texts)));
                    }
                },
                Message::ToolResult(_) => {},
            }
            i = i + 1;
        }
        assert(ms.subrange(0, req.messages.len() as int) =~= ms);
        let mut members: Vec<(String, JsonValue)> = Vec::new();
        push_member(&mut members, "contents", JsonValue::Array(contents));
        let ghost fixed = jview_members(members@);
        let ghost sys = opt_view(req.system_prompt);
        if let Some(sp) = &req.system_prompt {
            let part = obj1("text", jstring(sp));
            let parts = single(part);
            proof {
                crate::json::lemma_jview_items(parts@);
                assert(jview_items(parts@) =~= seq![jview(part)]);
            }
            push_member(&mut members, "systemInstruction", obj1("parts", JsonValue::Array(parts)));
        }
        assert(jview_members(members@) =~= fixed + opt_member(sys is Some, "systemInstruction"@, JsonView::Object(seq![
            ("parts"@, JsonView::Array(seq![JsonView::Object(seq![("text"@, js(sys.unwrap()))])])),
        ])));
        let ghost with_system = jview_members(members@);
        let ghost ts = tools_view(req.tools@);
        if req.tools.len() > 0 {
            let mut decls: Vec<JsonValue> = Vec::new();
            let mut k: usize = 0;
            while k < req.tools.len()
                invariant
                    k <= req.tools.len(),
                    ts == tools_view(req.tools@),
                    jview_items(decls@) == ts.subrange(0, k as int).map_values(|t: ToolDefView| gemini_declaration(t)),
                decreases req.tools.len() - k,
            {
                let t = &req.tools[k];
                push_json(&mut decls, obj3("name", jstring(&t.name), "description", jstring(&t.description), "parameters", t.parameters.duplicate()));
                assert(ts.subrange(0, k + 1).map_values(|t: ToolDefView| gemini_declaration(t))
                    =~= ts.subrange(0, k as int).map_values(|t: ToolDefView| gemini_declaration(t)).push(gemini_declaration(ts[k as int])));
                k = k + 1;
            }
            assert(ts.subrange(0, req.tools.len() as int) =~= ts);
            let holder = obj1("function_declarations", JsonValue::Array(decls));
            let list = single(holder);
            proof {
                crate::json::lemma_jview_items(list@);
                assert(jview_items(list@) =~= seq![jview(holder)]);
            }
            push_member(&mut members, "tools", JsonValue::Array(list));
        }
        assert(jview_members(members@) =~= with_system + opt_member(ts.len() > 0, "tools"@, JsonView::Array(seq![JsonView::Object(seq![
            ("function_declarations"@, JsonView::Array(ts.map_values(|t: ToolDefView| gemini_declaration(t)))),
        ])])));
        assert(jview_members(members@) =~= vertex_body_members(sys, ms, ts));
        JsonValue::Object(members)
    }
}

/// A tool as Bedrock's tool spec.
pub open spec fn bedrock_tool(t: ToolDefView) -> JsonView {
    JsonView::Object(seq![("toolSpec"@, JsonView::Object(seq![
        ("name"@, js(t.name)),
        ("description"@, js(t.description)),
        ("inputSchema"@, JsonView::Object(seq![("json"@, t.parameters)])),
    ]))])
}

/// The members of a Bedrock Converse request body: the messages, then the
/// system text and the tool configuration when they are given.
pub open spec fn bedrock_body_members(
    system: Option<Seq<char>>,
    ms: Seq<MessageView>,
    tools: Seq<ToolDefView>,
) -> Seq<(Seq<char>, JsonView)> {
    seq![("messages"@, JsonView::Array(ms.map_values(|m: MessageView| flat_message(m))))]
        + opt_member(system is Some, "system"@, JsonView::Array(seq![JsonView::Object(seq![("text"@, js(system.unwrap()))])]))
        + opt_member(tools.len() > 0, "toolConfig"@, JsonView::Object(seq![
            ("tools"@, JsonView::Array(tools.map_values(|t: ToolDefView| bedrock_tool(t)))),
        ]))
}

impl BedrockDriver {
    /// The request body for `req`.
    pub fn build_request(req: &CompletionRequest) -> (body: JsonValue)
        ensures
            jview(body) == JsonView::Object(bedrock_body_members(
                opt_view(req.system_prompt),
                messages_view(req.messages@),
                tools_view(req.tools@),
            )),
    {
        let mut members: Vec<(String, JsonValue)> = Vec::new();
        push_member(&mut members, "messages", flat_messages_of(&req.messages));
        let ghost fixed = jview_members(members@);
        let ghost sys = opt_view(req.system_prompt);
        if let Some(sp) = &req.system_prompt {
            let part = obj1("text", jstring(sp));
            let parts = single(part);
            proof {
                crate::json::lemma_jview_items(parts@);
                assert(jview_items(parts@) =~= seq![jview(part)]);
            }
            push_member(&mut members, "system", JsonValue::Array(parts));
        }
        assert(jview_members(members@) =~= fixed
            + opt_member(sys is Some, "system"@, JsonView::Array(seq![JsonView::Object(seq![("text"@, js(sys.unwrap()))])])));
        let ghost with_system = jview_members(members@);
        let ghost ts = tools_view(req.tools@);
        if req.tools.len() > 0 {
            let mut specs: Vec<JsonValue> = Vec::new();
            let mut k: usize = 0;
            while k < req.tools.len()
                invariant
                    k <= req.tools.len(),
                    ts == tools_view(req.tools@),
                    jview_items(specs@) == ts.subrange(0, k as int).map_values(|t: ToolDefView| bedrock_tool(t)),
                decreases req.tools.len() - k,
            {
                let t = &req.tools[k];
                let schema = obj1("json", t.parameters.duplicate());
                let spec = obj3("name", jstring(&t.name), "description", jstring(&t.description), "inputSchema", schema);
                push_json(&mut specs, obj1("toolSpec", spec));
                assert(ts.subrange(0, k + 1).map_values(|t: ToolDefView| bedrock_tool(t))
                    =~= ts.subrange(0, k as int).map_values(|t: ToolDefView| bedrock_tool(t)).push(bedrock_tool(ts[k as int])));
                k = k + 1;
            }
            assert(ts.subrange(0, req.tools.len() as int) =~= ts);
            push_member(&mut members, "toolConfig", obj1("tools", JsonValue::Array(specs)));
        }
        assert(jview_members(members@) =~= with_system + opt_member(ts.len() > 0, "toolConfig"@, JsonView::Object(seq![
            ("tools"@, JsonView::Array(ts.map_values(|t: ToolDefView| bedrock_tool(t)))),
        ])));
        assert(jview_members(members@) =~= bedrock_body_members(sys, messages_view(req.messages@), ts));
        JsonValue::Object(members)
    }
}

} // verus!
