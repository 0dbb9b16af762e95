//! The RPC mode's protocol (JSON lines on standard input and output) and
//! its decisions: what to answer to each command, given whether the agent
//! is running.

use vstd::prelude::*;
use crate::export::{content_plain_text, extract_text_from_content};
use crate::json::{jview, JsonValue, JsonView};

verus! {

/// A command read from standard input.
#[derive(Debug, Clone)]
pub enum RpcCommand {
    /// Send a message to the agent.
    Prompt { id: Option<String>, message: String },
    /// Stop the running agent.
    Abort { id: Option<String> },
    /// Ask for the current state.
    GetState { id: Option<String> },
    /// Ask for the messages of the session.
    GetMessages { id: Option<String> },
    /// Start a new session.
    NewSession { id: Option<String> },
}

/// A message of the session, as text.
#[derive(Debug, Clone)]
pub struct RpcMessage {
    pub role: String,
    pub content: String,
}

/// An event written to standard output.
#[derive(Debug, Clone)]
pub enum RpcEvent {
    TextDelta { text: String },
    ThinkingDelta { thinking: String },
    ToolCallStart { name: String },
    ToolResult { name: String, output: String, is_error: bool },
    StateChange { state: String },
    Done { id: Option<String> },
    State { id: Option<String>, state: String, message_count: usize, session_id: String },
    Messages { id: Option<String>, messages: Vec<RpcMessage> },
    Error { id: Option<String>, message: String },
}

/// What the program does in answer to a command.
#[derive(Debug, Clone)]
pub enum RpcAction {
    /// Write an event.
    Emit(RpcEvent),
    /// Run the agent on a message; `rpc_agent_finished` tells what to
    /// write when it is done.
    RunAgent { id: Option<String>, message: String },
    /// Write the session's messages.
    SendMessages { id: Option<String> },
    /// Create a new session; `rpc_session_created` tells what to write.
    CreateSession { id: Option<String> },
}

/// The error written when a prompt arrives while the agent runs.
pub const BUSY_MESSAGE: &'static str = "Agent is already running, abort first";

/// The name of a state.
pub open spec fn state_name(running: bool) -> Seq<char> {
    if running { "running"@ } else { "idle"@ }
}

/// An event with its texts as sequences of characters.
pub enum EventModel {
    Other,
    StateChange(Seq<char>),
    Done(Option<Seq<char>>),
    State(Option<Seq<char>>, Seq<char>, nat, Seq<char>),
    Error(Option<Seq<char>>, Seq<char>),
}

/// The text of an optional string.
pub open spec fn opt_id(o: Option<String>) -> Option<Seq<char>> {
    match o {
        Some(s) => Some(s@),
        None => None,
    }
}

/// An event as text.
pub open spec fn event_model(e: RpcEvent) -> EventModel {
    match e {
        RpcEvent::StateChange { state } => EventModel::StateChange(state@),
        RpcEvent::Done { id } => EventModel::Done(opt_id(id)),
        RpcEvent::State { id, state, message_count, session_id } => EventModel::State(
            opt_id(id),
            state@,
            message_count as nat,
            session_id@,
        ),
        RpcEvent::Error { id, message } => EventModel::Error(opt_id(id), message@),
        _ => EventModel::Other,
    }
}

/// An action as text.
pub enum ActionModel {
    Emit(EventModel),
    RunAgent(Option<Seq<char>>, Seq<char>),
    SendMessages(Option<Seq<char>>),
    CreateSession(Option<Seq<char>>),
}

/// An action as text.
pub open spec fn action_model(a: RpcAction) -> ActionModel {
    match a {
        RpcAction::Emit(e) => ActionModel::Emit(event_model(e)),
        RpcAction::RunAgent { id, message } => ActionModel::RunAgent(opt_id(id), message@),
        RpcAction::SendMessages { id } => ActionModel::SendMessages(opt_id(id)),
        RpcAction::CreateSession { id } => ActionModel::CreateSession(opt_id(id)),
    }
}

/// Actions as text.
pub open spec fn actions_model(v: Seq<RpcAction>) -> Seq<ActionModel> {
    Seq::new(v.len(), |i: int| action_model(v[i]))
}

/// The answer to a command: whether the agent runs afterwards, and the
/// actions to take. A prompt while the agent runs is refused with an
/// error; otherwise it marks the agent running and starts it. An abort
/// marks it idle and reports that; a state request reports the state, the
/// session's message count and id.
pub open spec fn rpc_answer(running: bool, cmd: RpcCommand, message_count: nat, session_id: Seq<char>) -> (
    bool,
    Seq<ActionModel>,
) {
    match cmd {
        RpcCommand::Prompt { id, message } => if running {
            (true, seq![ActionModel::Emit(EventModel::Error(opt_id(id), BUSY_MESSAGE@))])
        } else {
            (
                true,
                seq![
                    ActionModel::Emit(EventModel::StateChange("running"@)),
                    ActionModel::RunAgent(opt_id(id), message@),
                ],
            )
        },
        RpcCommand::Abort { id } => (
            false,
            seq![
                ActionModel::Emit(EventModel::StateChange("idle"@)),
                ActionModel::Emit(EventModel::Done(opt_id(id))),
            ],
        ),
        RpcCommand::GetState { id } => (
            running,
            seq![ActionModel::Emit(EventModel::State(opt_id(id), state_name(running), message_count, session_id))],
        ),
        RpcCommand::GetMessages { id } => (running, seq![ActionModel::SendMessages(opt_id(id))]),
        RpcCommand::NewSession { id } => (running, seq![ActionModel::CreateSession(opt_id(id))]),
    }
}

fn clone_id(id: &Option<String>) -> (r: Option<String>)
    ensures
        opt_id(r) == opt_id(*id),
{
    match id {
        Some(s) => Some(s.clone()),
        None => None,
    }
}

/// Decides the answer to a command. `running` tells whether the agent is
/// running; `message_count` and `session_id` describe the current session.
pub fn rpc_handle_command(running: bool, cmd: RpcCommand, message_count: usize, session_id: &str) -> (r: (
    bool,
    Vec<RpcAction>,
))
    ensures
        (r.0, actions_model(r.1@)) == rpc_answer(running, cmd, message_count as nat, session_id@),
{
    let ghost c = cmd;
    let mut acts: Vec<RpcAction> = Vec::new();
    let still = match cmd {
        RpcCommand::Prompt { id, message } => {
            if running {
                acts.push(RpcAction::Emit(RpcEvent::Error { id, message: BUSY_MESSAGE.to_owned() }));
                true
            } else {
                acts.push(RpcAction::Emit(RpcEvent::StateChange { state: "running".to_owned() }));
                acts.push(RpcAction::RunAgent { id, message });
                true
            }
        },
        RpcCommand::Abort { id } => {
            acts.push(RpcAction::Emit(RpcEvent::StateChange { state: "idle".to_owned() }));
            acts.push(RpcAction::Emit(RpcEvent::Done { id }));
            false
        },
        RpcCommand::GetState { id } => {
            let state = if running { "running".to_owned() } else { "idle".to_owned() };
            acts.push(
                RpcAction::Emit(
                    RpcEvent::State { id, state, message_count, session_id: session_id.to_owned() },
                ),
            );
            running
        },
        RpcCommand::GetMessages { id } => {
            acts.push(RpcAction::SendMessages { id });
            running
        },
        RpcCommand::NewSession { id } => {
            acts.push(RpcAction::CreateSession { id });
            running
        },
    };
    assert(actions_model(acts@) =~= rpc_answer(running, c, message_count as nat, session_id@).1);
    (still, acts)
}

/// What to write when the agent run started for a prompt with `id` ends:
/// its error if it failed, then the idle state and completion. The agent
/// is idle afterwards.
pub open spec fn finish_events(id: Option<Seq<char>>, error: Option<Seq<char>>) -> Seq<EventModel> {
    let done = seq![EventModel::StateChange("idle"@), EventModel::Done(id)];
    match error {
        Some(e) => seq![EventModel::Error(id, e)] + done,
        None => done,
    }
}

/// Events as text.
pub open spec fn events_model(v: Seq<RpcEvent>) -> Seq<EventModel> {
    Seq::new(v.len(), |i: int| event_model(v[i]))
}

/// The events to write when the agent run for a prompt with `id` ends,
/// with `error` the message of its failure if it failed.
pub fn rpc_agent_finished(id: Option<String>, error: Option<String>) -> (r: Vec<RpcEvent>)
    ensures
        events_model(r@) == finish_events(opt_id(id), opt_id(error)),
{
    let mut ev: Vec<RpcEvent> = Vec::new();
    match error {
        Some(e) => ev.push(RpcEvent::Error { id: clone_id(&id), message: e }),
        None => {},
    }
    ev.push(RpcEvent::StateChange { state: "idle".to_owned() });
    ev.push(RpcEvent::Done { id });
    assert(events_model(ev@) =~= finish_events(opt_id(id), opt_id(error)));
    ev
}

/// The event written once a new session was created for a request with
/// `id`: the idle state, no messages, the new session's id.
pub fn rpc_session_created(id: Option<String>, session_id: &str) -> (r: RpcEvent)
    ensures
        event_model(r) == EventModel::State(opt_id(id), "idle"@, 0, session_id@),
{
    RpcEvent::State { id, state: "idle".to_owned(), message_count: 0, session_id: session_id.to_owned() }
}

/// The messages that `get_messages` answers with, from the role and the
/// stored content of each message of the session, in order: each as its
/// plain text, and those without text left out.
pub open spec fn session_messages(items: Seq<(Seq<char>, JsonView)>) -> Seq<(Seq<char>, Seq<char>)>
    decreases items.len(),
{
    if items.len() == 0 {
        Seq::empty()
    } else {
        let prev = session_messages(items.drop_last());
        let text = content_plain_text(items.last().1);
        if text.len() == 0 {
            prev
        } else {
            prev.push((items.last().0, text))
        }
    }
}

/// The views of role and content pairs.
pub open spec fn stored_messages_view(items: Seq<(String, JsonValue)>) -> Seq<(Seq<char>, JsonView)> {
    Seq::new(items.len(), |i: int| (items[i].0@, jview(items[i].1)))
}

/// The views of messages.
pub open spec fn rpc_messages_view(v: Seq<RpcMessage>) -> Seq<(Seq<char>, Seq<char>)> {
    Seq::new(v.len(), |i: int| (v[i].role@, v[i].content@))
}

/// The answer to `get_messages`, from the role and stored content of each
/// message of the session.
pub fn rpc_messages(items: &[(String, JsonValue)]) -> (r: Vec<RpcMessage>)
    ensures
        rpc_messages_view(r@) == session_messages(stored_messages_view(items@)),
{
    let ghost iv = stored_messages_view(items@);
    let mut r: Vec<RpcMessage> = Vec::new();
    let mut i: usize = 0;
    while i < items.len()
        invariant
            i <= items@.len(),
            iv == stored_messages_view(items@),
            rpc_messages_view(r@) == session_messages(iv.take(i as int)),
        decreases items.len() - i,
    {
        assert(iv.take(i + 1).drop_last() =~= iv.take(i as int));
        assert(iv.take(i + 1).last() == iv[i as int]);
        let text = extract_text_from_content(&items[i].1);
        if !text.as_str().is_empty() {
            let ghost before = r@;
            r.push(RpcMessage { role: items[i].0.clone(), content: text });
            assert(rpc_messages_view(r@) =~= rpc_messages_view(before).push((items@[i as int].0@, text@)));
        } else {
            assert(text@.len() == 0);
        }
        i = i + 1;
    }
    assert(iv.take(iv.len() as int) =~= iv);
    r
}

/// The kind of model driver for an API flavour.
#[derive(Debug, Clone, Copy, PartialEq, Eq, Structural)]
pub enum DriverKind {
    OpenAi,
    Gemini,
    Anthropic,
}

/// The driver for an API flavour: OpenAI's for `openai-completions` and
/// `openai-responses`, Gemini's for `google-gemini` and `gemini`,
/// Anthropic's otherwise.
pub open spec fn driver_for(api_type: Seq<char>) -> DriverKind {
    if api_type == "openai-completions"@ || api_type == "openai-responses"@ {
        DriverKind::OpenAi
    } else if api_type == "google-gemini"@ || api_type == "gemini"@ {
        DriverKind::Gemini
    } else {
        DriverKind::Anthropic
    }
}

/// Chooses the model driver for an API flavour.
pub fn driver_kind(api_type: &str) -> (k: DriverKind)
    ensures
        k == driver_for(api_type@),
{
    if crate::text::str_eq(api_type, "openai-completions") || crate::text::str_eq(api_type, "openai-responses") {
        DriverKind::OpenAi
    } else if crate::text::str_eq(api_type, "google-gemini") || crate::text::str_eq(api_type, "gemini") {
        DriverKind::Gemini
    } else {
        DriverKind::Anthropic
    }
}

} // verus!
