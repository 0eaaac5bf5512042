use frodo::agent::{Agent, AgentContext, AgentRequest, EchoAgent, OpenAiSettings};

#[test]
fn settings_default_model_and_base() {
    let settings = OpenAiSettings::new("key".into());
    assert_eq!(settings.model, "gpt-4o-mini");
    assert_eq!(settings.api_base, None);
}

#[test]
fn echo_agent_round_trips_prompt() {
    let agent = EchoAgent;
    let response = agent
        .ask(AgentRequest {
            prompt: "hello".into(),
            conversation_id: Some("conv-1".into()),
            context: AgentContext {
                workspace: Some("org/repo".into()),
                hints: vec![("branch".into(), "main".into())],
            },
        })
        .expect("echo agent should succeed");

    assert_eq!(response.message.content, "Echo: hello");
    assert_eq!(response.summary.as_deref(), Some("echo stub"));
}

#[test]
fn ask_with_echo_agent_returns_echoed_content() {
    let agent = EchoAgent;
    let response = agent
        .ask(AgentRequest {
            prompt: "hello world".into(),
            conversation_id: None,
            context: AgentContext::default(),
        })
        .expect("ask should succeed");
    assert_eq!(response.message.content, "Echo: hello world");
    assert_eq!(response.summary.as_deref(), Some("echo stub"));
}

#[test]
fn echo_agent_name_is_echo() {
    assert_eq!(EchoAgent.name(), "echo");
}
