//! The conversation as the agent keeps it: messages made of content
//! blocks, the tools offered to the model, and a completion request.

use vstd::prelude::*;
use crate::json::{jview, JsonValue, JsonView};

verus! {

/// Why the model stopped.
#[derive(Debug, Clone, Copy, PartialEq, Eq, Structural)]
pub enum StopReason {
    Stop,
    ToolUse,
    Length,
    Error,
    Aborted,
}

/// Token counts of one model call.
#[derive(Debug, Clone, Copy, PartialEq, Eq, Structural, Default)]
pub struct Usage {
    pub input_tokens: u32,
    pub output_tokens: u32,
    pub cache_creation_input_tokens: Option<u32>,
    pub cache_read_input_tokens: Option<u32>,
}

#[derive(Debug)]
pub struct TextContent {
    pub text: String,
}

#[derive(Debug)]
pub struct ThinkingContent {
    pub thinking: String,
    pub signature: Option<String>,
}

/// An image, base64-encoded.
#[derive(Debug)]
pub struct ImageContent {
    pub media_type: String,
    pub data: String,
}

/// A call of a tool by the model.
#[derive(Debug)]
pub struct ToolCall {
    pub id: String,
    pub name: String,
    pub input: JsonValue,
}

/// The outcome of a tool call.
#[derive(Debug)]
pub struct ToolResult {
    pub tool_use_id: String,
    pub content: String,
    pub is_error: bool,
}

/// One block of a message's content.
#[derive(Debug)]
pub enum ContentBlock {
    Text(TextContent),
    Thinking(ThinkingContent),
    Image(ImageContent),
    ToolUse(ToolCall),
    ToolResult(ToolResult),
}

#[derive(Debug)]
pub struct UserMessage {
    pub role: String,
    pub content: Vec<ContentBlock>,
}

#[derive(Debug)]
pub struct AssistantMessage {
    pub role: String,
    pub content: Vec<ContentBlock>,
    pub model: Option<String>,
    pub stop_reason: Option<StopReason>,
    pub usage: Option<Usage>,
    pub timestamp: Option<String>,
}

#[derive(Debug)]
pub struct ToolResultMessage {
    pub role: String,
    pub content: Vec<ContentBlock>,
}

/// A message of the conversation.
#[derive(Debug)]
pub enum Message {
    User(UserMessage),
    Assistant(AssistantMessage),
    ToolResult(ToolResultMessage),
}

/// A tool as offered to the model: its name, what it does, and the JSON
/// schema of its input.
#[derive(Debug)]
pub struct ToolDefinition {
    pub name: String,
    pub description: String,
    pub parameters: JsonValue,
    pub requires_approval: bool,
}

/// A request for one model completion.
#[derive(Debug)]
pub struct CompletionRequest {
    pub model: String,
    pub system_prompt: Option<String>,
    pub messages: Vec<Message>,
    pub tools: Vec<ToolDefinition>,
    pub thinking_enabled: bool,
    pub thinking_budget: Option<u32>,
    pub max_tokens: u32,
    pub api_key: String,
    pub base_url: Option<String>,
}

/// What a content block holds, as mathematical values.
pub enum BlockView {
    Text(Seq<char>),
    Thinking(Seq<char>),
    Image { media_type: Seq<char>, data: Seq<char> },
    ToolUse { id: Seq<char>, name: Seq<char>, input: JsonView },
    ToolResult { tool_use_id: Seq<char>, content: Seq<char>, is_error: bool },
}

impl View for ContentBlock {
    type V = BlockView;

    open spec fn view(&self) -> BlockView {
        match self {
            ContentBlock::Text(t) => BlockView::Text(t.text@),
            ContentBlock::Thinking(t) => BlockView::Thinking(t.thinking@),
            ContentBlock::Image(i) => BlockView::Image { media_type: i.media_type@, data: i.data@ },
            ContentBlock::ToolUse(c) => BlockView::ToolUse { id: c.id@, name: c.name@, input: jview(c.input) },
            ContentBlock::ToolResult(r) => BlockView::ToolResult {
                tool_use_id: r.tool_use_id@,
                content: r.content@,
                is_error: r.is_error,
            },
        }
    }
}

/// The views of a list of content blocks.
pub open spec fn blocks_view(s: Seq<ContentBlock>) -> Seq<BlockView> {
    s.map_values(|b: ContentBlock| b@)
}

/// A message as the provider formats see it: who sent it and its blocks.
pub enum MessageView {
    User(Seq<BlockView>),
    Assistant(Seq<BlockView>),
    ToolResult(Seq<BlockView>),
}

impl View for Message {
    type V = MessageView;

    open spec fn view(&self) -> MessageView {
        match self {
            Message::User(u) => MessageView::User(blocks_view(u.content@)),
            Message::Assistant(a) => MessageView::Assistant(blocks_view(a.content@)),
            Message::ToolResult(t) => MessageView::ToolResult(blocks_view(t.content@)),
        }
    }
}

/// The views of a list of messages.
pub open spec fn messages_view(s: Seq<Message>) -> Seq<MessageView> {
    s.map_values(|m: Message| m@)
}

/// A tool definition as mathematical values.
pub struct ToolDefView {
    pub name: Seq<char>,
    pub description: Seq<char>,
    pub parameters: JsonView,
}

impl View for ToolDefinition {
    type V = ToolDefView;

    open spec fn view(&self) -> ToolDefView {
        ToolDefView { name: self.name@, description: self.description@, parameters: jview(self.parameters) }
    }
}

/// The views of a list of tool definitions.
pub open spec fn tools_view(s: Seq<ToolDefinition>) -> Seq<ToolDefView> {
    s.map_values(|t: ToolDefinition| t@)
}

impl ContentBlock {
    /// A text block.
    pub fn text(text: &str) -> (b: ContentBlock)
        ensures
            b@ == BlockView::Text(text@),
    {
        ContentBlock::Text(TextContent { text: text.to_string() })
    }

    /// A tool call block.
    pub fn tool_call(id: &str, name: &str, input: JsonValue) -> (b: ContentBlock)
        ensures
            b@ == (BlockView::ToolUse { id: id@, name: name@, input: jview(input) }),
    {
        ContentBlock::ToolUse(ToolCall { id: id.to_string(), name: name.to_string(), input })
    }

    /// A tool result block.
    pub fn tool_result(tool_use_id: &str, content: &str, is_error: bool) -> (b: ContentBlock)
        ensures
            b@ == (BlockView::ToolResult { tool_use_id: tool_use_id@, content: content@, is_error }),
    {
        ContentBlock::ToolResult(ToolResult {
            tool_use_id: tool_use_id.to_string(),
            content: content.to_string(),
            is_error,
        })
    }
}

impl Message {
    /// A user message that holds one text block.
    pub fn user_text(text: &str) -> (m: Message)
        ensures
            m@ == MessageView::User(seq![BlockView::Text(text@)]),
    {
        proof { reveal_strlit("user"); }
        let content = vec![ContentBlock::text(text)];
        let m = Message::User(UserMessage { role: "user".to_string(), content });
        assert(blocks_view(content@) =~= seq![BlockView::Text(text@)]);
        m
    }
}

impl ToolDefinition {
    /// A copy of the definition.
    pub fn duplicate(&self) -> (r: ToolDefinition)
        ensures
            r@ == self@,
            r.requires_approval == self.requires_approval,
    {
        ToolDefinition {
            name: self.name.clone(),
            description: self.description.clone(),
            parameters: self.parameters.duplicate(),
            requires_approval: self.requires_approval,
        }
    }
}

} // verus!
