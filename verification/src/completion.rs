//! The message protocol between an agent and a completion backend.
//!
//! A conversation is a sequence of messages. Each message belongs to the user or
//! to the assistant and carries one or more content items: text, a request to
//! call a tool, or the result of such a call.

use crate::text::{decimal, decimal_of, string_of};
use serde_json::Value;
use vstd::prelude::*;
use vstd::string::StringExecFns;

verus! {

/// A JSON value of `serde_json`. The library carries such values from the
/// backend to the tools and back, and never looks inside one.
#[verifier::external_type_specification]
#[verifier::external_body]
pub struct ExValue(serde_json::Value);

/// `Clone::clone` of `serde_json::Value`, which `serde_json` derives: the copy
/// is the same JSON value as the one copied.
pub assume_specification[ <serde_json::Value as Clone>::clone ](v: &serde_json::Value) -> (r:
    serde_json::Value)
    ensures
        r == *v,
;

/// A request of the backend to call a tool.
#[derive(Debug)]
pub struct ToolCall {
    /// Identifies the call, so that its result can be matched to it.
    pub id: String,
    /// The name of the tool to call.
    pub name: String,
    /// The arguments for the tool.
    pub arguments: Value,
}

/// The value that a tool returned for a call.
#[derive(Debug)]
pub struct ToolResult {
    /// The id of the call that this result answers.
    pub id: String,
    /// The name of the tool that was called.
    pub name: String,
    /// What the tool returned.
    pub result: Value,
}

/// One item of a message.
#[derive(Debug)]
pub enum Content {
    Text(String),
    ToolCall(ToolCall),
    ToolResult(ToolResult),
}

/// A tool call as plain values.
pub struct ToolCallModel {
    pub id: Seq<char>,
    pub name: Seq<char>,
    pub arguments: Value,
}

/// A tool result as plain values.
pub struct ToolResultModel {
    pub id: Seq<char>,
    pub name: Seq<char>,
    pub result: Value,
}

/// A content item as plain values.
pub enum ContentModel {
    Text(Seq<char>),
    ToolCall(ToolCallModel),
    ToolResult(ToolResultModel),
}

impl View for ToolCall {
    type V = ToolCallModel;

    open spec fn view(&self) -> ToolCallModel {
        ToolCallModel { id: self.id@, name: self.name@, arguments: self.arguments }
    }
}

impl View for ToolResult {
    type V = ToolResultModel;

    open spec fn view(&self) -> ToolResultModel {
        ToolResultModel { id: self.id@, name: self.name@, result: self.result }
    }
}

impl View for Content {
    type V = ContentModel;

    open spec fn view(&self) -> ContentModel {
        match self {
            Content::Text(t) => ContentModel::Text(t@),
            Content::ToolCall(c) => ContentModel::ToolCall(c@),
            Content::ToolResult(r) => ContentModel::ToolResult(r@),
        }
    }
}

impl Clone for ToolCall {
    fn clone(&self) -> (r: Self)
        ensures
            r@ == self@,
    {
        ToolCall { id: self.id.clone(), name: self.name.clone(), arguments: self.arguments.clone() }
    }
}

impl Clone for ToolResult {
    fn clone(&self) -> (r: Self)
        ensures
            r@ == self@,
    {
        ToolResult { id: self.id.clone(), name: self.name.clone(), result: self.result.clone() }
    }
}

impl Clone for Content {
    fn clone(&self) -> (r: Self)
        ensures
            r@ == self@,
    {
        match self {
            Content::Text(t) => Content::Text(t.clone()),
            Content::ToolCall(c) => Content::ToolCall(c.clone()),
            Content::ToolResult(r) => Content::ToolResult(r.clone()),
        }
    }
}

/// The content items as plain values, in order.
pub open spec fn contents(items: Seq<Content>) -> Seq<ContentModel> {
    Seq::new(items.len(), |i: int| items[i]@)
}

/// A copy of the given content items.
pub fn clone_contents(items: &Vec<Content>) -> (r: Vec<Content>)
    ensures
        contents(r@) == contents(items@),
{
    let mut r: Vec<Content> = Vec::new();
    let mut i: usize = 0;
    while i < items.len()
        invariant
            i <= items.len(),
            contents(r@) == contents(items@).take(i as int),
        decreases items.len() - i,
    {
        let ghost before = contents(r@);
        let c = items[i].clone();
        r.push(c);
        proof {
            assert(contents(r@) =~= before.push(c@));
            assert(contents(items@).take(i + 1) =~= contents(items@).take(i as int).push(
                items@[i as int]@,
            ));
        }
        i += 1;
    }
    proof {
        assert(contents(items@).take(items.len() as int) =~= contents(items@));
    }
    r
}

/// Who a message belongs to.
#[derive(Debug, Clone, Copy, PartialEq, Eq, Structural)]
pub enum Role {
    User,
    Assistant,
}

/// A message of a conversation. Its content is never empty.
#[derive(Debug)]
pub struct Message {
    role: Role,
    content: Vec<Content>,
}

/// A message as plain values.
pub struct MessageModel {
    pub role: Role,
    pub content: Seq<ContentModel>,
}

impl View for Message {
    type V = MessageModel;

    closed spec fn view(&self) -> MessageModel {
        MessageModel { role: self.role, content: contents(self.content@) }
    }
}

impl Message {
    #[verifier::type_invariant]
    spec fn holds_content(self) -> bool {
        self.content@.len() > 0
    }

    /// A message with the given content; none where the content is empty.
    pub fn new(role: Role, content: Vec<Content>) -> (r: Option<Message>)
        ensures
            match r {
                Some(m) => content@.len() > 0 && m@ == (MessageModel {
                    role,
                    content: contents(content@),
                }),
                None => content@.len() == 0,
            },
    {
        if content.len() == 0 {
            None
        } else {
            Some(Message { role, content })
        }
    }

    /// A message of the user that holds one text.
    pub fn user(text: &str) -> (r: Message)
        ensures
            r@ == (MessageModel { role: Role::User, content: seq![ContentModel::Text(text@)] }),
    {
        let mut content: Vec<Content> = Vec::new();
        let t = text.to_owned();
        content.push(Content::Text(t));
        proof {
            assert(contents(content@) =~= seq![ContentModel::Text(text@)]);
        }
        Message { role: Role::User, content }
    }

    /// Who the message belongs to.
    pub fn role(&self) -> (r: Role)
        ensures
            r == self@.role,
    {
        self.role
    }

    /// The content items of the message, of which there is at least one.
    pub fn content(&self) -> (r: &Vec<Content>)
        ensures
            contents(r@) == self@.content,
            r@.len() > 0,
    {
        proof {
            use_type_invariant(self);
        }
        &self.content
    }
}

impl Clone for Message {
    fn clone(&self) -> (r: Self)
        ensures
            r@ == self@,
    {
        proof {
            use_type_invariant(self);
        }
        let content = clone_contents(&self.content);
        proof {
            assert(content@.len() == contents(content@).len());
            assert(self.content@.len() == contents(self.content@).len());
        }
        Message { role: self.role, content }
    }
}

/// The messages as plain values, in order.
pub open spec fn messages(history: Seq<Message>) -> Seq<MessageModel> {
    Seq::new(history.len(), |i: int| history[i]@)
}

/// A copy of the given messages.
pub fn clone_messages(history: &Vec<Message>) -> (r: Vec<Message>)
    ensures
        messages(r@) == messages(history@),
{
    let mut r: Vec<Message> = Vec::new();
    let mut i: usize = 0;
    while i < history.len()
        invariant
            i <= history.len(),
            messages(r@) == messages(history@).take(i as int),
        decreases history.len() - i,
    {
        let ghost before = messages(r@);
        let m = history[i].clone();
        r.push(m);
        proof {
            assert(messages(r@) =~= before.push(m@));
            assert(messages(history@).take(i + 1) =~= messages(history@).take(i as int).push(
                history@[i as int]@,
            ));
        }
        i += 1;
    }
    proof {
        assert(messages(history@).take(history.len() as int) =~= messages(history@));
    }
    r
}

/// What a tool is and which arguments it takes, as told to the backend.
#[derive(Debug)]
pub struct ToolDefinition {
    /// The name of the tool, unique within a registry.
    pub name: String,
    /// What the tool does, for the backend to read.
    pub description: String,
    /// A schema of the arguments.
    pub parameters: Value,
}

/// A tool definition as plain values.
pub struct ToolDefinitionModel {
    pub name: Seq<char>,
    pub description: Seq<char>,
    pub parameters: Value,
}

impl View for ToolDefinition {
    type V = ToolDefinitionModel;

    open spec fn view(&self) -> ToolDefinitionModel {
        ToolDefinitionModel {
            name: self.name@,
            description: self.description@,
            parameters: self.parameters,
        }
    }
}

impl Clone for ToolDefinition {
    fn clone(&self) -> (r: Self)
        ensures
            r@ == self@,
    {
        ToolDefinition {
            name: self.name.clone(),
            description: self.description.clone(),
            parameters: self.parameters.clone(),
        }
    }
}

/// The tool definitions as plain values, in order.
pub open spec fn definition_models(tools: Seq<ToolDefinition>) -> Seq<ToolDefinitionModel> {
    Seq::new(tools.len(), |i: int| tools[i]@)
}

/// A copy of the given tool definitions.
pub fn clone_definitions(tools: &Vec<ToolDefinition>) -> (r: Vec<ToolDefinition>)
    ensures
        definition_models(r@) == definition_models(tools@),
{
    let mut r: Vec<ToolDefinition> = Vec::new();
    let mut i: usize = 0;
    while i < tools.len()
        invariant
            i <= tools.len(),
            definition_models(r@) == definition_models(tools@).take(
                i as int,
            ),
        decreases tools.len() - i,
    {
        let ghost before = definition_models(r@);
        let d = tools[i].clone();
        r.push(d);
        proof {
            assert(definition_models(r@) =~= before.push(d@));
            assert(definition_models(tools@).take(i + 1)
                =~= definition_models(tools@).take(i as int).push(
                tools@[i as int]@,
            ));
        }
        i += 1;
    }
    proof {
        assert(definition_models(tools@).take(tools.len() as int)
            =~= definition_models(tools@));
    }
    r
}

/// What is sent to the backend for one round.
#[derive(Debug)]
pub struct CompletionRequest {
    /// The system instruction, if there is one.
    pub preamble: Option<String>,
    /// The conversation so far.
    pub chat_history: Vec<Message>,
    /// The sampling temperature, if one is set, as the bits of a 64-bit float.
    pub temperature: Option<u64>,
    /// The tools that the backend may ask for.
    pub tools: Vec<ToolDefinition>,
}

/// A completion request as plain values.
pub struct CompletionRequestModel {
    pub preamble: Option<Seq<char>>,
    pub chat_history: Seq<MessageModel>,
    pub temperature: Option<u64>,
    pub tools: Seq<ToolDefinitionModel>,
}

/// The view of a text that may be absent.
pub open spec fn optional_text(s: Option<String>) -> Option<Seq<char>> {
    match s {
        Some(t) => Some(t@),
        None => None,
    }
}

impl View for CompletionRequest {
    type V = CompletionRequestModel;

    open spec fn view(&self) -> CompletionRequestModel {
        CompletionRequestModel {
            preamble: optional_text(self.preamble),
            chat_history: messages(self.chat_history@),
            temperature: self.temperature,
            tools: definition_models(self.tools@),
        }
    }
}

/// What the backend answers: content of the assistant, and a payload of the
/// backend's own that the library hands on untouched.
#[derive(Debug)]
pub struct CompletionResponse<R> {
    pub content: Vec<Content>,
    pub raw_response: R,
}

/// Why an invocation failed. Every such failure ends the invocation.
#[derive(Debug)]
pub enum CompletionError {
    /// The backend itself failed.
    Backend(String),
    /// The response holds neither text nor a tool call, or a message would have
    /// been empty.
    UnusableResponse,
    /// A call names a tool that the registry does not offer.
    ToolNotFound { name: String },
    /// A tool returned an error.
    ToolFailed { name: String, cause: String },
    /// The backend asked for tools in more rounds than the bound allows.
    StepLimitExceeded { limit: usize },
}

/// A failure as plain values.
pub enum ErrorModel {
    Backend(Seq<char>),
    UnusableResponse,
    ToolNotFound { name: Seq<char> },
    ToolFailed { name: Seq<char>, cause: Seq<char> },
    StepLimitExceeded { limit: usize },
}

impl View for CompletionError {
    type V = ErrorModel;

    open spec fn view(&self) -> ErrorModel {
        match self {
            CompletionError::Backend(m) => ErrorModel::Backend(m@),
            CompletionError::UnusableResponse => ErrorModel::UnusableResponse,
            CompletionError::ToolNotFound { name } => ErrorModel::ToolNotFound { name: name@ },
            CompletionError::ToolFailed { name, cause } => ErrorModel::ToolFailed {
                name: name@,
                cause: cause@,
            },
            CompletionError::StepLimitExceeded { limit } => ErrorModel::StepLimitExceeded {
                limit: *limit,
            },
        }
    }
}

/// The message that describes a failure.
pub open spec fn described(e: ErrorModel) -> Seq<char> {
    match e {
        ErrorModel::Backend(m) => "Completion failed: "@ + m,
        ErrorModel::UnusableResponse => "Model returned no usable text or tool call"@,
        ErrorModel::ToolNotFound { name } => "Tool not found: "@ + name,
        ErrorModel::ToolFailed { name, cause } => "Tool execution failed: "@ + name + ": "@
            + cause,
        ErrorModel::StepLimitExceeded { limit } => "Tool calling exceeded max steps ("@
            + decimal(limit as nat) + ")"@,
    }
}

impl CompletionError {
    /// The message that describes the failure.
    pub fn message(&self) -> (r: String)
        ensures
            r@ == described(self@),
    {
        match self {
            CompletionError::Backend(m) => {
                let mut r = "Completion failed: ".to_owned();
                r.append(m.as_str());
                r
            },
            CompletionError::UnusableResponse => {
                "Model returned no usable text or tool call".to_owned()
            },
            CompletionError::ToolNotFound { name } => {
                let mut r = "Tool not found: ".to_owned();
                r.append(name.as_str());
                r
            },
            CompletionError::ToolFailed { name, cause } => {
                let mut r = "Tool execution failed: ".to_owned();
                r.append(name.as_str());
                r.append(": ");
                r.append(cause.as_str());
                r
            },
            CompletionError::StepLimitExceeded { limit } => {
                let mut r = "Tool calling exceeded max steps (".to_owned();
                let n = string_of(&decimal_of(*limit));
                r.append(n.as_str());
                r.append(")");
                r
            },
        }
    }
}

impl Clone for CompletionError {
    fn clone(&self) -> (r: Self)
        ensures
            r@ == self@,
    {
        match self {
            CompletionError::Backend(m) => CompletionError::Backend(m.clone()),
            CompletionError::UnusableResponse => CompletionError::UnusableResponse,
            CompletionError::ToolNotFound { name } => CompletionError::ToolNotFound {
                name: name.clone(),
            },
            CompletionError::ToolFailed { name, cause } => CompletionError::ToolFailed {
                name: name.clone(),
                cause: cause.clone(),
            },
            CompletionError::StepLimitExceeded { limit } => CompletionError::StepLimitExceeded {
                limit: *limit,
            },
        }
    }
}

} // verus!
