//! The extension system: what extensions register, the API through which
//! they register it, the loader that runs their factories, and the runner
//! that dispatches lifecycle events to the registered hooks.

use vstd::prelude::*;
use crate::ext_store::ExtensionStore;
use crate::hooks::{CommandHandler, CountHook, EditorHint, MessageRenderer, OutcomeHook, PairHook, SignalHook, TextHook, ToolHandler, UsageHook};
use crate::text::{slices_view, str_eq};

verus! {

/// A tool registered by an extension.
pub struct ToolEntry {
    pub name: String,
    pub description: String,
    pub handler: Box<dyn ToolHandler>,
}

/// A slash command registered by an extension.
pub struct CommandEntry {
    pub name: String,
    pub description: String,
    pub handler: Box<dyn CommandHandler>,
}

/// Everything that extensions registered, each kind in registration order.
pub struct HookRegistry {
    pub on_agent_start: Vec<Box<dyn TextHook>>,
    pub on_agent_done: Vec<Box<dyn TextHook>>,
    pub on_tool_call_start: Vec<Box<dyn PairHook>>,
    pub on_tool_call_end: Vec<Box<dyn OutcomeHook>>,
    pub on_model_switched: Vec<Box<dyn PairHook>>,
    pub on_turn_start: Vec<Box<dyn TextHook>>,
    pub on_turn_end: Vec<Box<dyn TextHook>>,
    pub on_message_start: Vec<Box<dyn TextHook>>,
    pub on_message_end: Vec<Box<dyn TextHook>>,
    pub on_tool_execution_start: Vec<Box<dyn PairHook>>,
    pub on_tool_execution_end: Vec<Box<dyn OutcomeHook>>,
    pub on_session_start: Vec<Box<dyn TextHook>>,
    pub on_session_compact: Vec<Box<dyn CountHook>>,
    pub on_session_shutdown: Vec<Box<dyn SignalHook>>,
    pub on_error: Vec<Box<dyn TextHook>>,
    pub on_before_provider_request: Vec<Box<dyn PairHook>>,
    pub on_after_provider_response: Vec<Box<dyn UsageHook>>,
    pub session_name: Option<String>,
    pub tools: Vec<ToolEntry>,
    pub commands: Vec<CommandEntry>,
    pub message_renderers: Vec<Box<dyn MessageRenderer>>,
    pub editor_hints: Vec<Box<dyn EditorHint>>,
}

/// The contents of a `HookRegistry`, each list as a sequence.
#[verifier::ext_equal]
pub struct HookLists {
    pub agent_start: Seq<Box<dyn TextHook>>,
    pub agent_done: Seq<Box<dyn TextHook>>,
    pub tool_call_start: Seq<Box<dyn PairHook>>,
    pub tool_call_end: Seq<Box<dyn OutcomeHook>>,
    pub model_switched: Seq<Box<dyn PairHook>>,
    pub turn_start: Seq<Box<dyn TextHook>>,
    pub turn_end: Seq<Box<dyn TextHook>>,
    pub message_start: Seq<Box<dyn TextHook>>,
    pub message_end: Seq<Box<dyn TextHook>>,
    pub tool_execution_start: Seq<Box<dyn PairHook>>,
    pub tool_execution_end: Seq<Box<dyn OutcomeHook>>,
    pub session_start: Seq<Box<dyn TextHook>>,
    pub session_compact: Seq<Box<dyn CountHook>>,
    pub session_shutdown: Seq<Box<dyn SignalHook>>,
    pub error: Seq<Box<dyn TextHook>>,
    pub before_provider_request: Seq<Box<dyn PairHook>>,
    pub after_provider_response: Seq<Box<dyn UsageHook>>,
    pub session_name: Option<Seq<char>>,
    pub tools: Seq<ToolEntry>,
    pub commands: Seq<CommandEntry>,
    pub message_renderers: Seq<Box<dyn MessageRenderer>>,
    pub editor_hints: Seq<Box<dyn EditorHint>>,
}

/// Nothing registered.
pub open spec fn no_hooks() -> HookLists {
    HookLists {
        agent_start: Seq::empty(),
        agent_done: Seq::empty(),
        tool_call_start: Seq::empty(),
        tool_call_end: Seq::empty(),
        model_switched: Seq::empty(),
        turn_start: Seq::empty(),
        turn_end: Seq::empty(),
        message_start: Seq::empty(),
        message_end: Seq::empty(),
        tool_execution_start: Seq::empty(),
        tool_execution_end: Seq::empty(),
        session_start: Seq::empty(),
        session_compact: Seq::empty(),
        session_shutdown: Seq::empty(),
        error: Seq::empty(),
        before_provider_request: Seq::empty(),
        after_provider_response: Seq::empty(),
        session_name: None,
        tools: Seq::empty(),
        commands: Seq::empty(),
        message_renderers: Seq::empty(),
        editor_hints: Seq::empty(),
    }
}

/// `a` followed by `b`: every list of `b` appended to that of `a`, and the
/// session name of `b` when it has one, else that of `a`.
pub open spec fn merge_lists(a: HookLists, b: HookLists) -> HookLists {
    HookLists {
        agent_start: a.agent_start + b.agent_start,
        agent_done: a.agent_done + b.agent_done,
        tool_call_start: a.tool_call_start + b.tool_call_start,
        tool_call_end: a.tool_call_end + b.tool_call_end,
        model_switched: a.model_switched + b.model_switched,
        turn_start: a.turn_start + b.turn_start,
        turn_end: a.turn_end + b.turn_end,
        message_start: a.message_start + b.message_start,
        message_end: a.message_end + b.message_end,
        tool_execution_start: a.tool_execution_start + b.tool_execution_start,
        tool_execution_end: a.tool_execution_end + b.tool_execution_end,
        session_start: a.session_start + b.session_start,
        session_compact: a.session_compact + b.session_compact,
        session_shutdown: a.session_shutdown + b.session_shutdown,
        error: a.error + b.error,
        before_provider_request: a.before_provider_request + b.before_provider_request,
        after_provider_response: a.after_provider_response + b.after_provider_response,
        session_name: if b.session_name is Some { b.session_name } else { a.session_name },
        tools: a.tools + b.tools,
        commands: a.commands + b.commands,
        message_renderers: a.message_renderers + b.message_renderers,
        editor_hints: a.editor_hints + b.editor_hints,
    }
}

/// The registrations of several extensions merged in order.
pub open spec fn merge_all(parts: Seq<HookLists>) -> HookLists
    decreases parts.len(),
{
    if parts.len() == 0 {
        no_hooks()
    } else {
        merge_lists(merge_all(parts.drop_last()), parts.last())
    }
}

/// The names of tools.
pub open spec fn tool_names_of(tools: Seq<ToolEntry>) -> Seq<Seq<char>> {
    Seq::new(tools.len(), |i: int| tools[i].name@)
}

/// The names of commands.
pub open spec fn command_names_of(commands: Seq<CommandEntry>) -> Seq<Seq<char>> {
    Seq::new(commands.len(), |i: int| commands[i].name@)
}

/// `i` is the first position of `name` in `names`.
pub open spec fn first_index(names: Seq<Seq<char>>, name: Seq<char>, i: int) -> bool {
    &&& 0 <= i < names.len()
    &&& names[i] == name
    &&& forall|j: int| 0 <= j < i ==> names[j] != name
}

impl HookRegistry {
    /// The registered callbacks, list by list.
    pub open spec fn lists(&self) -> HookLists {
        HookLists {
            agent_start: self.on_agent_start@,
            agent_done: self.on_agent_done@,
            tool_call_start: self.on_tool_call_start@,
            tool_call_end: self.on_tool_call_end@,
            model_switched: self.on_model_switched@,
            turn_start: self.on_turn_start@,
            turn_end: self.on_turn_end@,
            message_start: self.on_message_start@,
            message_end: self.on_message_end@,
            tool_execution_start: self.on_tool_execution_start@,
            tool_execution_end: self.on_tool_execution_end@,
            session_start: self.on_session_start@,
            session_compact: self.on_session_compact@,
            session_shutdown: self.on_session_shutdown@,
            error: self.on_error@,
            before_provider_request: self.on_before_provider_request@,
            after_provider_response: self.on_after_provider_response@,
            session_name: match self.session_name {
                Some(n) => Some(n@),
                None => None,
            },
            tools: self.tools@,
            commands: self.commands@,
            message_renderers: self.message_renderers@,
            editor_hints: self.editor_hints@,
        }
    }

    /// Appends everything registered in `other` after what is registered
    /// here; a session name in `other` replaces the one here.
    pub fn merge(&mut self, other: HookRegistry)
        ensures
            final(self).lists() == merge_lists(old(self).lists(), other.lists()),
    {
        let mut other = other;
        self.on_agent_start.append(&mut other.on_agent_start);
        self.on_agent_done.append(&mut other.on_agent_done);
        self.on_tool_call_start.append(&mut other.on_tool_call_start);
        self.on_tool_call_end.append(&mut other.on_tool_call_end);
        self.on_model_switched.append(&mut other.on_model_switched);
        self.on_turn_start.append(&mut other.on_turn_start);
        self.on_turn_end.append(&mut other.on_turn_end);
        self.on_message_start.append(&mut other.on_message_start);
        self.on_message_end.append(&mut other.on_message_end);
        self.on_tool_execution_start.append(&mut other.on_tool_execution_start);
        self.on_tool_execution_end.append(&mut other.on_tool_execution_end);
        self.on_session_start.append(&mut other.on_session_start);
        self.on_session_compact.append(&mut other.on_session_compact);
        self.on_session_shutdown.append(&mut other.on_session_shutdown);
        self.on_error.append(&mut other.on_error);
        self.on_before_provider_request.append(&mut other.on_before_provider_request);
        self.on_after_provider_response.append(&mut other.on_after_provider_response);
        if other.session_name.is_some() {
            self.session_name = other.session_name;
        }
        self.tools.append(&mut other.tools);
        self.commands.append(&mut other.commands);
        self.message_renderers.append(&mut other.message_renderers);
        self.editor_hints.append(&mut other.editor_hints);
    }
}

impl Default for HookRegistry {
    /// A registry with nothing registered.
    fn default() -> (r: Self)
        ensures
            r.lists() == no_hooks(),
    {
        HookRegistry {
            on_agent_start: Vec::new(),
            on_agent_done: Vec::new(),
            on_tool_call_start: Vec::new(),
            on_tool_call_end: Vec::new(),
            on_model_switched: Vec::new(),
            on_turn_start: Vec::new(),
            on_turn_end: Vec::new(),
            on_message_start: Vec::new(),
            on_message_end: Vec::new(),
            on_tool_execution_start: Vec::new(),
            on_tool_execution_end: Vec::new(),
            on_session_start: Vec::new(),
            on_session_compact: Vec::new(),
            on_session_shutdown: Vec::new(),
            on_error: Vec::new(),
            on_before_provider_request: Vec::new(),
            on_after_provider_response: Vec::new(),
            session_name: None,
            tools: Vec::new(),
            commands: Vec::new(),
            message_renderers: Vec::new(),
            editor_hints: Vec::new(),
        }
    }
}


/// The interface through which an extension registers its callbacks.
pub trait ExtensionApi {
    /// The extension's name.
    fn name(&self) -> &str;

    /// Subscribes to the start of an agent run (receives the prompt).
    fn on_agent_start(&mut self, handler: Box<dyn TextHook>);

    /// Subscribes to the end of an agent run (receives the output).
    fn on_agent_done(&mut self, handler: Box<dyn TextHook>);

    /// Subscribes to the start of a tool call (receives name and call id).
    fn on_tool_call_start(&mut self, handler: Box<dyn PairHook>);

    /// Subscribes to the end of a tool call (receives name, output, error flag).
    fn on_tool_call_end(&mut self, handler: Box<dyn OutcomeHook>);

    /// Subscribes to model switches (receives provider and model).
    fn on_model_switched(&mut self, handler: Box<dyn PairHook>);

    /// Registers a tool under a name, with a description.
    fn register_tool(&mut self, name: &str, description: &str, handler: Box<dyn ToolHandler>);

    /// Registers a slash command under a name, with a description.
    fn register_command(&mut self, name: &str, description: &str, handler: Box<dyn CommandHandler>);

    /// Registers a message renderer.
    fn register_message_renderer(&mut self, handler: Box<dyn MessageRenderer>);

    /// Registers an editor hint.
    fn register_editor_hint(&mut self, handler: Box<dyn EditorHint>);

    /// The extension's key-value store.
    fn store(&self) -> &ExtensionStore;
}

proof fn lemma_push<T>(s: Seq<T>, e: T)
    ensures
        s.push(e).len() == s.len() + 1,
        s.push(e).drop_last() == s,
        s.push(e).last() == e,
{
    assert(s.push(e).drop_last() =~= s);
}

/// The extension API that collects registrations into a `HookRegistry`.
pub struct BasicExtensionApi {
    name: String,
    hooks: HookRegistry,
    store: HeldStore,
}

/// The store that an API hands to its extension; it is only ever read
/// through the API, so it keeps its invariant for the API's whole life.
struct HeldStore {
    store: ExtensionStore,
}

impl HeldStore {
    #[verifier::type_invariant]
    spec fn store_is_wf(&self) -> bool {
        self.store.wf()
    }
}

impl BasicExtensionApi {
    /// The name given at creation.
    pub closed spec fn name_view(&self) -> Seq<char> {
        self.name@
    }

    /// What has been registered so far.
    pub closed spec fn registered(&self) -> HookLists {
        self.hooks.lists()
    }

    /// The store handed to the extension.
    pub closed spec fn store_view(&self) -> Map<Seq<char>, Seq<char>> {
        self.store.store@
    }

    /// An API for the extension `name`, with nothing registered and an
    /// empty store.
    pub fn new(name: &str) -> (api: Self)
        ensures
            api.name_view() == name@,
            api.registered() == no_hooks(),
            api.store_view() == Map::<Seq<char>, Seq<char>>::empty(),
    {
        BasicExtensionApi {
            name: name.to_owned(),
            hooks: HookRegistry::default(),
            store: HeldStore { store: ExtensionStore::new() },
        }
    }

    /// Everything the extension registered.
    pub fn into_hooks(self) -> (h: HookRegistry)
        ensures
            h.lists() == self.registered(),
    {
        self.hooks
    }
}

impl ExtensionApi for BasicExtensionApi {
    fn name(&self) -> (r: &str)
        ensures
            r@ == self.name_view(),
    {
        self.name.as_str()
    }

    fn on_agent_start(&mut self, handler: Box<dyn TextHook>)
        ensures
            final(self).name_view() == old(self).name_view(),
            final(self).store_view() == old(self).store_view(),
            final(self).registered() == (HookLists {
                agent_start: old(self).registered().agent_start.push(handler),
                ..old(self).registered()
            }),
    {
        self.hooks.on_agent_start.push(handler);
    }

    fn on_agent_done(&mut self, handler: Box<dyn TextHook>)
        ensures
            final(self).name_view() == old(self).name_view(),
            final(self).store_view() == old(self).store_view(),
            final(self).registered() == (HookLists {
                agent_done: old(self).registered().agent_done.push(handler),
                ..old(self).registered()
            }),
    {
        self.hooks.on_agent_done.push(handler);
    }

    fn on_tool_call_start(&mut self, handler: Box<dyn PairHook>)
        ensures
            final(self).name_view() == old(self).name_view(),
            final(self).store_view() == old(self).store_view(),
            final(self).registered() == (HookLists {
                tool_call_start: old(self).registered().tool_call_start.push(handler),
                ..old(self).registered()
            }),
    {
        self.hooks.on_tool_call_start.push(handler);
    }

    fn on_tool_call_end(&mut self, handler: Box<dyn OutcomeHook>)
        ensures
            final(self).name_view() == old(self).name_view(),
            final(self).store_view() == old(self).store_view(),
            final(self).registered() == (HookLists {
                tool_call_end: old(self).registered().tool_call_end.push(handler),
                ..old(self).registered()
            }),
    {
        self.hooks.on_tool_call_end.push(handler);
    }

    fn on_model_switched(&mut self, handler: Box<dyn PairHook>)
        ensures
            final(self).name_view() == old(self).name_view(),
            final(self).store_view() == old(self).store_view(),
            final(self).registered() == (HookLists {
                model_switched: old(self).registered().model_switched.push(handler),
                ..old(self).registered()
            }),
    {
        self.hooks.on_model_switched.push(handler);
    }

    fn register_tool(&mut self, name: &str, description: &str, handler: Box<dyn ToolHandler>)
        ensures
            final(self).name_view() == old(self).name_view(),
            final(self).store_view() == old(self).store_view(),
            final(self).registered().tools.len() == old(self).registered().tools.len() + 1,
            final(self).registered().tools.drop_last() == old(self).registered().tools,
            final(self).registered().tools.last().name@ == name@,
            final(self).registered().tools.last().description@ == description@,
            final(self).registered() == (HookLists {
                tools: final(self).registered().tools,
                ..old(self).registered()
            }),
    {
        let entry = ToolEntry { name: name.to_owned(), description: description.to_owned(), handler };
        let ghost before = self.hooks.tools@;
        self.hooks.tools.push(entry);
        proof {
            lemma_push(before, entry);
        }
    }

    fn register_command(&mut self, name: &str, description: &str, handler: Box<dyn CommandHandler>)
        ensures
            final(self).name_view() == old(self).name_view(),
            final(self).store_view() == old(self).store_view(),
            final(self).registered().commands.len() == old(self).registered().commands.len() + 1,
            final(self).registered().commands.drop_last() == old(self).registered().commands,
            final(self).registered().commands.last().name@ == name@,
            final(self).registered().commands.last().description@ == description@,
            final(self).registered() == (HookLists {
                commands: final(self).registered().commands,
                ..old(self).registered()
            }),
    {
        let entry = CommandEntry { name: name.to_owned(), description: description.to_owned(), handler };
        let ghost before = self.hooks.commands@;
        self.hooks.commands.push(entry);
        proof {
            lemma_push(before, entry);
        }
    }

    fn register_message_renderer(&mut self, handler: Box<dyn MessageRenderer>)
        ensures
            final(self).name_view() == old(self).name_view(),
            final(self).store_view() == old(self).store_view(),
            final(self).registered() == (HookLists {
                message_renderers: old(self).registered().message_renderers.push(handler),
                ..old(self).registered()
            }),
    {
        self.hooks.message_renderers.push(handler);
    }

    fn register_editor_hint(&mut self, handler: Box<dyn EditorHint>)
        ensures
            final(self).name_view() == old(self).name_view(),
            final(self).store_view() == old(self).store_view(),
            final(self).registered() == (HookLists {
                editor_hints: old(self).registered().editor_hints.push(handler),
                ..old(self).registered()
            }),
    {
        self.hooks.editor_hints.push(handler);
    }

    fn store(&self) -> (r: &ExtensionStore)
        ensures
            r@ == self.store_view(),
            r.wf(),
    {
        proof {
            use_type_invariant(&self.store);
        }
        &self.store.store
    }
}


// ---------------------------------------------------------------------------
// Running the registered hooks
// ---------------------------------------------------------------------------

/// Dispatches lifecycle events to the registered hooks, in registration
/// order, and looks up registered tools and commands.
pub struct ExtensionRunner {
    hooks: HookRegistry,
}

/// The registry that a runner dispatches to.
pub fn create_runner(hooks: HookRegistry) -> (r: ExtensionRunner)
    ensures
        r.registry() == hooks.lists(),
{
    ExtensionRunner::new(hooks)
}

/// The first answer that is `Some`, or `None` when every answer is `None`.
pub open spec fn first_some(answers: Seq<Option<String>>) -> Option<String>
    decreases answers.len(),
{
    if answers.len() == 0 {
        None
    } else if answers[0] is Some {
        answers[0]
    } else {
        first_some(answers.drop_first())
    }
}

/// Of the renderers' answers, in the order the renderers were asked, the
/// rendering that is used: the first `Some`.
pub fn first_rendering(answers: &[Option<String>]) -> (r: Option<String>)
    ensures
        r == first_some(answers@),
{
    let mut i: usize = 0;
    assert(answers@.skip(0) =~= answers@);
    while i < answers.len()
        invariant
            i <= answers@.len(),
            first_some(answers@.skip(i as int)) == first_some(answers@),
        decreases answers.len() - i,
    {
        assert(answers@.skip(i as int)[0] == answers@[i as int]);
        match &answers[i] {
            Some(text) => {
                return Some(text.clone());
            },
            None => {},
        }
        assert(answers@.skip(i as int).drop_first() =~= answers@.skip(i + 1));
        i = i + 1;
    }
    assert(answers@.skip(i as int) =~= Seq::<Option<String>>::empty());
    None
}

impl ExtensionRunner {
    /// What the runner dispatches to.
    pub closed spec fn registry(&self) -> HookLists {
        self.hooks.lists()
    }

    /// A runner over `hooks`.
    pub fn new(hooks: HookRegistry) -> (r: Self)
        ensures
            r.registry() == hooks.lists(),
    {
        ExtensionRunner { hooks }
    }

    /// A runner with nothing registered.
    pub fn empty() -> (r: Self)
        ensures
            r.registry() == no_hooks(),
    {
        ExtensionRunner { hooks: HookRegistry::default() }
    }

    /// Calls every agent-start hook with the prompt.
    pub fn fire_agent_start(&self, prompt: &str) {
        let hs = &self.hooks.on_agent_start;
        let mut i: usize = 0;
        while i < hs.len()
            decreases hs.len() - i,
        {
            hs[i].call(prompt);
            i = i + 1;
        }
    }

    /// Calls every agent-done hook with the output.
    pub fn fire_agent_done(&self, output: &str) {
        let hs = &self.hooks.on_agent_done;
        let mut i: usize = 0;
        while i < hs.len()
            decreases hs.len() - i,
        {
            hs[i].call(output);
            i = i + 1;
        }
    }

    /// Calls every tool-call-start hook with the tool name and call id.
    pub fn fire_tool_call_start(&self, name: &str, call_id: &str) {
        let hs = &self.hooks.on_tool_call_start;
        let mut i: usize = 0;
        while i < hs.len()
            decreases hs.len() - i,
        {
            hs[i].call(name, call_id);
            i = i + 1;
        }
    }

    /// Calls every tool-call-end hook with the tool name, output and error flag.
    pub fn fire_tool_call_end(&self, name: &str, output: &str, is_error: bool) {
        let hs = &self.hooks.on_tool_call_end;
        let mut i: usize = 0;
        while i < hs.len()
            decreases hs.len() - i,
        {
            hs[i].call(name, output, is_error);
            i = i + 1;
        }
    }

    /// Calls every model-switch hook with the provider and model.
    pub fn fire_model_switched(&self, provider: &str, model: &str) {
        let hs = &self.hooks.on_model_switched;
        let mut i: usize = 0;
        while i < hs.len()
            decreases hs.len() - i,
        {
            hs[i].call(provider, model);
            i = i + 1;
        }
    }

    /// Calls every turn-start hook with the prompt.
    pub fn fire_turn_start(&self, prompt: &str) {
        let hs = &self.hooks.on_turn_start;
        let mut i: usize = 0;
        while i < hs.len()
            decreases hs.len() - i,
        {
            hs[i].call(prompt);
            i = i + 1;
        }
    }

    /// Calls every turn-end hook with the output.
    pub fn fire_turn_end(&self, output: &str) {
        let hs = &self.hooks.on_turn_end;
        let mut i: usize = 0;
        while i < hs.len()
            decreases hs.len() - i,
        {
            hs[i].call(output);
            i = i + 1;
        }
    }

    /// Calls every message-start hook with the role.
    pub fn fire_message_start(&self, role: &str) {
        let hs = &self.hooks.on_message_start;
        let mut i: usize = 0;
        while i < hs.len()
            decreases hs.len() - i,
        {
            hs[i].call(role);
            i = i + 1;
        }
    }

    /// Calls every message-end hook with the role.
    pub fn fire_message_end(&self, role: &str) {
        let hs = &self.hooks.on_message_end;
        let mut i: usize = 0;
        while i < hs.len()
            decreases hs.len() - i,
        {
            hs[i].call(role);
            i = i + 1;
        }
    }

    /// Calls every tool-execution-start hook with the tool name and input.
    pub fn fire_tool_execution_start(&self, name: &str, input: &str) {
        let hs = &self.hooks.on_tool_execution_start;
        let mut i: usize = 0;
        while i < hs.len()
            decreases hs.len() - i,
        {
            hs[i].call(name, input);
            i = i + 1;
        }
    }

    /// Calls every tool-execution-end hook with the tool name, output and
    /// error flag.
    pub fn fire_tool_execution_end(&self, name: &str, output: &str, is_error: bool) {
        let hs = &self.hooks.on_tool_execution_end;
        let mut i: usize = 0;
        while i < hs.len()
            decreases hs.len() - i,
        {
            hs[i].call(name, output, is_error);
            i = i + 1;
        }
    }

    /// Calls every session-start hook with the session id.
    pub fn fire_session_start(&self, session_id: &str) {
        let hs = &self.hooks.on_session_start;
        let mut i: usize = 0;
        while i < hs.len()
            decreases hs.len() - i,
        {
            hs[i].call(session_id);
            i = i + 1;
        }
    }

    /// Calls every session-compaction hook with the number of removed entries.
    pub fn fire_session_compact(&self, removed: usize) {
        let hs = &self.hooks.on_session_compact;
        let mut i: usize = 0;
        while i < hs.len()
            decreases hs.len() - i,
        {
            hs[i].call(removed);
            i = i + 1;
        }
    }

    /// Calls every session-shutdown hook.
    pub fn fire_session_shutdown(&self) {
        let hs = &self.hooks.on_session_shutdown;
        let mut i: usize = 0;
        while i < hs.len()
            decreases hs.len() - i,
        {
            hs[i].call();
            i = i + 1;
        }
    }

    /// Calls every error hook with the message.
    pub fn fire_error(&self, message: &str) {
        let hs = &self.hooks.on_error;
        let mut i: usize = 0;
        while i < hs.len()
            decreases hs.len() - i,
        {
            hs[i].call(message);
            i = i + 1;
        }
    }

    /// Calls every before-request hook with the model and provider.
    pub fn fire_before_provider_request(&self, model: &str, provider: &str) {
        let hs = &self.hooks.on_before_provider_request;
        let mut i: usize = 0;
        while i < hs.len()
            decreases hs.len() - i,
        {
            hs[i].call(model, provider);
            i = i + 1;
        }
    }

    /// Calls every after-response hook with the model and the token counts.
    pub fn fire_after_provider_response(&self, model: &str, input_tokens: u64, output_tokens: u64) {
        let hs = &self.hooks.on_after_provider_response;
        let mut i: usize = 0;
        while i < hs.len()
            decreases hs.len() - i,
        {
            hs[i].call(model, input_tokens, output_tokens);
            i = i + 1;
        }
    }

    /// The first registered tool called `name`.
    pub fn find_tool(&self, name: &str) -> (r: Option<&ToolEntry>)
        ensures
            match r {
                Some(t) => exists|i: int|
                    first_index(tool_names_of(self.registry().tools), name@, i)
                        && *t == #[trigger] self.registry().tools[i],
                None => !tool_names_of(self.registry().tools).contains(name@),
            },
    {
        let ts = &self.hooks.tools;
        let ghost names = tool_names_of(ts@);
        let mut i: usize = 0;
        while i < ts.len()
            invariant
                i <= ts@.len(),
                ts@ == self.registry().tools,
                names == tool_names_of(ts@),
                forall|j: int| 0 <= j < i ==> names[j] != name@,
            decreases ts.len() - i,
        {
            if str_eq(ts[i].name.as_str(), name) {
                assert(first_index(names, name@, i as int));
                let e = &ts[i];
                assert(*e == self.registry().tools[i as int]);
                return Some(e);
            }
            i = i + 1;
        }
        None
    }

    /// The first registered command called `name`.
    pub fn find_command(&self, name: &str) -> (r: Option<&CommandEntry>)
        ensures
            match r {
                Some(c) => exists|i: int|
                    first_index(command_names_of(self.registry().commands), name@, i)
                        && *c == #[trigger] self.registry().commands[i],
                None => !command_names_of(self.registry().commands).contains(name@),
            },
    {
        let cs = &self.hooks.commands;
        let ghost names = command_names_of(cs@);
        let mut i: usize = 0;
        while i < cs.len()
            invariant
                i <= cs@.len(),
                cs@ == self.registry().commands,
                names == command_names_of(cs@),
                forall|j: int| 0 <= j < i ==> names[j] != name@,
            decreases cs.len() - i,
        {
            if str_eq(cs[i].name.as_str(), name) {
                assert(first_index(names, name@, i as int));
                let e = &cs[i];
                assert(*e == self.registry().commands[i as int]);
                return Some(e);
            }
            i = i + 1;
        }
        None
    }

    /// The names of the registered tools, in registration order.
    pub fn tool_names(&self) -> (r: Vec<&str>)
        ensures
            slices_view(r@) == tool_names_of(self.registry().tools),
    {
        let ts = &self.hooks.tools;
        let mut r: Vec<&str> = Vec::new();
        let mut i: usize = 0;
        while i < ts.len()
            invariant
                i <= ts@.len(),
                r@.len() == i,
                slices_view(r@) == tool_names_of(ts@).take(i as int),
            decreases ts.len() - i,
        {
            let nm = ts[i].name.as_str();
            let ghost before = r@;
            r.push(nm);
            assert(r@ == before.push(nm));
            assert(nm@ == tool_names_of(ts@)[i as int]);
            proof {
                let want = tool_names_of(ts@).take(i + 1);
                assert forall|j: int| 0 <= j < i + 1 implies slices_view(r@)[j] == want[j] by {
                    if j < i {
                        assert(r@[j] == before[j]);
                        assert(slices_view(before)[j] == tool_names_of(ts@).take(i as int)[j]);
                    }
                }
                assert(slices_view(r@) =~= want);
            }
            i = i + 1;
        }
        assert(tool_names_of(ts@).take(ts@.len() as int) =~= tool_names_of(ts@));
        r
    }

    /// The names of the registered commands, in registration order.
    pub fn command_names(&self) -> (r: Vec<&str>)
        ensures
            slices_view(r@) == command_names_of(self.registry().commands),
    {
        let cs = &self.hooks.commands;
        let mut r: Vec<&str> = Vec::new();
        let mut i: usize = 0;
        while i < cs.len()
            invariant
                i <= cs@.len(),
                r@.len() == i,
                slices_view(r@) == command_names_of(cs@).take(i as int),
            decreases cs.len() - i,
        {
            let nm = cs[i].name.as_str();
            let ghost before = r@;
            r.push(nm);
            assert(r@ == before.push(nm));
            assert(nm@ == command_names_of(cs@)[i as int]);
            proof {
                let want = command_names_of(cs@).take(i + 1);
                assert forall|j: int| 0 <= j < i + 1 implies slices_view(r@)[j] == want[j] by {
                    if j < i {
                        assert(r@[j] == before[j]);
                        assert(slices_view(before)[j] == command_names_of(cs@).take(i as int)[j]);
                    }
                }
                assert(slices_view(r@) =~= want);
            }
            i = i + 1;
        }
        assert(command_names_of(cs@).take(cs@.len() as int) =~= command_names_of(cs@));
        r
    }

    /// The rendering of the first renderer that handles the message;
    /// `None` (the default rendering) when none does. Renderers are asked
    /// in registration order, and none after the first that answers.
    pub fn render_message(&self, role: &str, content: &str) -> (r: Option<String>)
        ensures
            self.registry().message_renderers.len() == 0 ==> r is None,
            r is Some ==> self.registry().message_renderers.len() > 0,
    {
        let rs = &self.hooks.message_renderers;
        let mut answers: Vec<Option<String>> = Vec::new();
        let mut answered = false;
        let mut i: usize = 0;
        while i < rs.len() && !answered
            invariant
                rs@ == self.registry().message_renderers,
                i <= rs@.len(),
                answers@.len() == i,
            decreases rs.len() - i,
        {
            let out = rs[i].call(role, content);
            answered = out.is_some();
            answers.push(out);
            i = i + 1;
        }
        let r = first_rendering(answers.as_slice());
        proof {
            if rs@.len() == 0 {
                assert(answers@ =~= Seq::<Option<String>>::empty());
            }
        }
        r
    }

    /// Whether any message renderer is registered.
    pub fn has_message_renderers(&self) -> (r: bool)
        ensures
            r == (self.registry().message_renderers.len() > 0),
    {
        self.hooks.message_renderers.len() > 0
    }

    /// The text of every editor hint, in registration order.
    pub fn editor_hints(&self) -> (r: Vec<String>)
        ensures
            r.len() == self.registry().editor_hints.len(),
    {
        let hs = &self.hooks.editor_hints;
        let mut r: Vec<String> = Vec::new();
        let mut i: usize = 0;
        while i < hs.len()
            invariant
                i <= hs@.len(),
                r@.len() == i,
            decreases hs.len() - i,
        {
            r.push(hs[i].call());
            i = i + 1;
        }
        r
    }
}


// ---------------------------------------------------------------------------
// Loading extensions
// ---------------------------------------------------------------------------

/// What an extension is: a function that registers its callbacks through
/// the API it is handed.
pub trait ExtensionFactory {
    fn call(&self, api: &mut BasicExtensionApi);
}

/// Runs a factory closure on an API; what it registers is not known here.
#[verifier::external_body]
fn run_factory<F: Fn(&mut BasicExtensionApi)>(f: &F, api: &mut BasicExtensionApi) {
    f(api)
}

impl<F: Fn(&mut BasicExtensionApi)> ExtensionFactory for F {
    fn call(&self, api: &mut BasicExtensionApi) {
        run_factory(self, api)
    }
}

struct FactoryEntry {
    name: String,
    factory: Box<dyn ExtensionFactory>,
}

/// The registered extensions, in registration order.
pub struct ExtensionLoader {
    factories: Vec<FactoryEntry>,
}

impl ExtensionLoader {
    /// The names of the registered extensions, in registration order.
    pub closed spec fn names(&self) -> Seq<Seq<char>> {
        Seq::new(self.factories@.len(), |i: int| self.factories@[i].name@)
    }

    /// A loader with no extension.
    pub fn new() -> (l: Self)
        ensures
            l.names() == Seq::<Seq<char>>::empty(),
    {
        let l = ExtensionLoader { factories: Vec::new() };
        assert(l.names() =~= Seq::<Seq<char>>::empty());
        l
    }

    /// Registers a built-in extension under `name`.
    pub fn register<F: Fn(&mut BasicExtensionApi) + 'static>(&mut self, name: &str, factory: F)
        ensures
            final(self).names() == old(self).names().push(name@),
    {
        let entry = FactoryEntry { name: name.to_owned(), factory: Box::new(factory) };
        let ghost before = self.factories@;
        self.factories.push(entry);
        proof {
            lemma_push(before, entry);
            assert(final(self).names() =~= old(self).names().push(name@));
        }
    }

    /// Looks for extensions in a directory. No format of extension on disk
    /// is supported yet, so this finds none and always succeeds.
    pub fn scan_dir(&mut self, dir: &str) -> (r: Result<(), String>)
        ensures
            r is Ok,
            *final(self) == *old(self),
    {
        Ok(())
    }

    /// Runs every extension's factory on an API of its own, in registration
    /// order, and merges what they registered in that order.
    pub fn load_all(self) -> (r: HookRegistry)
        ensures
            exists|parts: Seq<HookLists>|
                parts.len() == self.names().len() && r.lists() == #[trigger] merge_all(parts),
    {
        let ghost n = self.names().len();
        let fs = self.factories;
        let mut merged = HookRegistry::default();
        let ghost mut parts: Seq<HookLists> = Seq::empty();
        let mut i: usize = 0;
        while i < fs.len()
            invariant
                i <= fs@.len(),
                fs@.len() == n,
                parts.len() == i,
                merged.lists() == merge_all(parts),
            decreases fs.len() - i,
        {
            let entry = &fs[i];
            let mut api = BasicExtensionApi::new(entry.name.as_str());
            entry.factory.call(&mut api);
            let hooks = api.into_hooks();
            let ghost part = hooks.lists();
            merged.merge(hooks);
            proof {
                assert(parts.push(part).drop_last() =~= parts);
                parts = parts.push(part);
            }
            i = i + 1;
        }
        merged
    }
}

impl Default for ExtensionLoader {
    fn default() -> (l: Self)
        ensures
            l.names() == Seq::<Seq<char>>::empty(),
    {
        ExtensionLoader::new()
    }
}

} // verus!
