//! Agent interfaces: the request/response shapes every agent provider
//! shares, the echo agent used for tests and offline smoke checks, and the
//! settings for the remote chat-completion provider (whose network client
//! lives outside this crate).

use vstd::prelude::*;

verus! {

/// Incoming request for an agent invocation.
#[derive(Debug, Clone)]
pub struct AgentRequest {
    /// Free-form user prompt.
    pub prompt: String,
    /// Optional conversation identifier to thread messages.
    pub conversation_id: Option<String>,
    /// Structured context passed alongside the prompt.
    pub context: AgentContext,
}

/// Context fed to agents to ground answers.
#[derive(Debug, Clone)]
pub struct AgentContext {
    /// Active workspace or repository identifier.
    pub workspace: Option<String>,
    /// Key/value hints (a branch name, a ticket id), in order.
    pub hints: Vec<(String, String)>,
}

impl Default for AgentContext {
    fn default() -> (r: Self)
        ensures
            r.workspace is None,
            r.hints@.len() == 0,
    {
        AgentContext { workspace: None, hints: Vec::new() }
    }
}

/// Agent response payload.
#[derive(Debug, Clone)]
pub struct AgentResponse {
    /// Main message the agent wants to show the user.
    pub message: AgentMessage,
    /// Optional concise summary for notifications or list views.
    pub summary: Option<String>,
}

/// Agent message content.
#[derive(Debug, Clone)]
pub struct AgentMessage {
    /// Human-readable text.
    pub content: String,
}

/// Contract for any agent provider. What an answer holds depends on the
/// provider, so nothing generic is promised of it.
pub trait Agent: Sized {
    /// Short name used for diagnostics.
    fn name(&self) -> &'static str;

    /// Ask the agent to respond to a prompt with context.
    fn ask(&self, request: AgentRequest) -> Result<AgentResponse, String>;
}

/// Simple agent that echoes the prompt; useful for tests and offline smoke
/// checks.
pub struct EchoAgent;

impl Agent for EchoAgent {
    fn name(&self) -> (r: &'static str)
        ensures
            r@ == "echo"@,
    {
        "echo"
    }

    /// Always answers, echoing the prompt behind a fixed prefix, with a
    /// fixed summary.
    fn ask(&self, request: AgentRequest) -> (r: Result<AgentResponse, String>)
        ensures
            r matches Ok(resp) && resp.message.content@ == "Echo: "@ + request.prompt@
                && (resp.summary matches Some(s) && s@ == "echo stub"@),
    {
        let mut content = String::new();
        content.append("Echo: ");
        content.append(request.prompt.as_str());
        Ok(AgentResponse {
            message: AgentMessage { content },
            summary: Some("echo stub".to_owned()),
        })
    }
}

/// Configuration for the remote chat-completion agent.
#[derive(Debug, Clone)]
pub struct OpenAiSettings {
    pub api_key: String,
    pub model: String,
    pub api_base: Option<String>,
}

impl OpenAiSettings {
    /// Settings with the default model and no endpoint override.
    pub fn new(api_key: String) -> (r: Self)
        ensures
            r.api_key == api_key,
            r.model@ == "gpt-4o-mini"@,
            r.api_base is None,
    {
        OpenAiSettings { api_key, model: "gpt-4o-mini".to_owned(), api_base: None }
    }
}

} // verus!
