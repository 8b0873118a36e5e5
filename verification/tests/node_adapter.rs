use libra::agent::runtime::conversation::CompletionModel;
use libra::agent::runtime::{start_loop, Agent};
use libra::completion::{
    CompletionError, CompletionRequest, CompletionResponse, Content, ToolCall,
};
use libra::node_adapter::{
    assemble_prompt, conclude, gather, AgentAction, Gathering, NodeOutcome, NodeRun,
    ToolLoopAction, Upstream, PROMPT_SEPARATOR,
};
use libra::tools::{Tool, ToolRegistry};
use libra::completion::ToolDefinition;
use serde_json::Value;

struct NoTool;

impl Tool for NoTool {
    fn name(&self) -> String {
        "none".to_string()
    }

    fn description(&self) -> String {
        String::new()
    }

    fn definition(&self) -> ToolDefinition {
        ToolDefinition {
            name: self.name(),
            description: self.description(),
            parameters: Value::Null,
        }
    }

    fn call(&self, _args: Value) -> Result<Value, String> {
        Ok(Value::Null)
    }
}

#[test]
fn two_upstream_texts_are_joined_by_a_blank_line() {
    let items = vec![
        Upstream::Text("A".to_string()),
        Upstream::Text("B".to_string()),
    ];
    assert_eq!(gather(&items).unwrap(), "A\n\nB");
    assert_eq!(
        assemble_prompt(&vec!["A".to_string(), "B".to_string()]),
        "A\n\nB"
    );
    assert_eq!(PROMPT_SEPARATOR, "\n\n");
}

#[test]
fn zero_one_and_many_upstream_nodes() {
    assert_eq!(gather(&vec![]).unwrap(), "");
    assert_eq!(gather(&vec![Upstream::Text("solo".to_string())]).unwrap(), "solo");
    let many = vec![
        Upstream::Text("1".to_string()),
        Upstream::Text("2".to_string()),
        Upstream::Text("3".to_string()),
    ];
    assert_eq!(gather(&many).unwrap(), "1\n\n2\n\n3");
}

#[test]
fn a_value_that_is_no_text_adds_nothing() {
    let items = vec![
        Upstream::Text("A".to_string()),
        Upstream::Other,
        Upstream::Text("B".to_string()),
    ];
    assert_eq!(gather(&items).unwrap(), "A\n\nB");
    assert_eq!(gather(&vec![Upstream::Other]).unwrap(), "");
}

#[test]
fn a_failed_delivery_fails_the_node() {
    let items = vec![
        Upstream::Text("A".to_string()),
        Upstream::Failed {
            sender: "NodeId(3)".to_string(),
            cause: "Closed".to_string(),
        },
        Upstream::Failed {
            sender: "NodeId(4)".to_string(),
            cause: "NoSuchChannel".to_string(),
        },
    ];
    assert_eq!(
        gather(&items).unwrap_err(),
        "Failed to receive input from upstream NodeId(3): Closed"
    );
}

#[test]
fn gathering_delivery_by_delivery() {
    let g = Gathering::new();
    assert_eq!(g.prompt(), "");
    let g = g.accept(Upstream::Text("x".to_string())).unwrap();
    let g = g.accept(Upstream::Other).unwrap();
    let g = g.accept(Upstream::Text("y".to_string())).unwrap();
    assert_eq!(g.prompt(), "x\n\ny");
    let failed = g.accept(Upstream::Failed {
        sender: "s".to_string(),
        cause: "c".to_string(),
    });
    assert_eq!(
        failed.err().unwrap(),
        "Failed to receive input from upstream s: c"
    );
}

#[test]
fn the_answer_is_broadcast_and_a_failure_is_reported() {
    match conclude(Ok("answer".to_string())) {
        NodeOutcome::Broadcast(t) => assert_eq!(t, "answer"),
        other => panic!("unexpected outcome: {:?}", other),
    }
    match conclude(Err(CompletionError::StepLimitExceeded { limit: 12 })) {
        NodeOutcome::Failure(m) => assert_eq!(m, "Tool calling exceeded max steps (12)"),
        other => panic!("unexpected outcome: {:?}", other),
    }
    match conclude(Err(CompletionError::ToolNotFound {
        name: "x".to_string(),
    })) {
        NodeOutcome::Failure(m) => assert_eq!(m, "Tool not found: x"),
        other => panic!("unexpected outcome: {:?}", other),
    }
}

#[test]
fn nodes_start_their_conversation_on_the_prompt() {
    let agent: Agent<(), NoTool> = Agent::new(());
    let node = AgentAction::new(agent);
    let state = node.start(&vec!["A".to_string(), "B".to_string()]);
    assert_eq!(state.steps(), 0);
    assert_eq!(state.history().len(), 1);
    assert!(matches!(&state.history()[0].content()[0], Content::Text(t) if t == "A\n\nB"));
    assert_eq!(node.agent().config().max_steps, Some(4));

    let mut registry = ToolRegistry::new();
    registry.register(NoTool);
    let node = ToolLoopAction::new(
        "backend",
        registry,
        Some("system".to_string()),
        Some(0.25f64.to_bits()),
        Some(9),
    );
    assert_eq!(*node.model(), "backend");
    assert_eq!(node.registry().len(), 1);
    assert_eq!(node.config().preamble.as_deref(), Some("system"));
    assert_eq!(node.config().temperature.map(f64::from_bits), Some(0.25));
    assert_eq!(node.config().max_steps, Some(9));
    assert!(node.config().allowed_tools.is_none());
    let state = node.start(&vec![]);
    assert!(matches!(&state.history()[0].content()[0], Content::Text(t) if t.is_empty()));

    let state = start_loop("go");
    assert!(matches!(&state.history()[0].content()[0], Content::Text(t) if t == "go"));
}

/// Answers with the text of the first message, in brackets.
struct Echo;

impl CompletionModel for Echo {
    type Response = ();

    fn completion(
        &self,
        request: CompletionRequest,
    ) -> Result<CompletionResponse<()>, CompletionError> {
        let prompt = match &request.chat_history[0].content()[0] {
            Content::Text(t) => t.clone(),
            other => panic!("unexpected content: {:?}", other),
        };
        Ok(CompletionResponse {
            content: vec![Content::Text(format!("[{}]", prompt))],
            raw_response: (),
        })
    }
}

/// Asks for a tool again and again.
struct Restless;

impl CompletionModel for Restless {
    type Response = ();

    fn completion(
        &self,
        _request: CompletionRequest,
    ) -> Result<CompletionResponse<()>, CompletionError> {
        Ok(CompletionResponse {
            content: vec![Content::ToolCall(ToolCall {
                id: "c".to_string(),
                name: "none".to_string(),
                arguments: Value::Null,
            })],
            raw_response: (),
        })
    }
}

fn broadcast(run: NodeRun) -> String {
    match run {
        NodeRun::Ended(NodeOutcome::Broadcast(text)) => text,
        NodeRun::Ended(NodeOutcome::Failure(m)) => panic!("the node failed: {}", m),
        NodeRun::Paused(_) => panic!("the node did not end"),
    }
}

fn failure(run: NodeRun) -> String {
    match run {
        NodeRun::Ended(NodeOutcome::Failure(m)) => m,
        NodeRun::Ended(NodeOutcome::Broadcast(t)) => panic!("the node answered: {}", t),
        NodeRun::Paused(_) => panic!("the node did not end"),
    }
}

#[test]
fn a_node_answers_the_joined_texts_of_its_upstream_nodes() {
    let agent: Agent<Echo, NoTool> = Agent::new(Echo);
    let node = AgentAction::new(agent);
    let items = vec![
        Upstream::Text("A".to_string()),
        Upstream::Text("B".to_string()),
    ];
    assert_eq!(broadcast(node.run(&items, 1)), "[A\n\nB]");
    assert_eq!(broadcast(node.run(&vec![], 1)), "[]");

    let loop_node = ToolLoopAction::new(Echo, ToolRegistry::<NoTool>::new(), None, None, None);
    let items = vec![
        Upstream::Text("x".to_string()),
        Upstream::Other,
        Upstream::Text("y".to_string()),
    ];
    assert_eq!(broadcast(loop_node.run(&items, 3)), "[x\n\ny]");
}

#[test]
fn a_node_fails_without_an_answer() {
    let node = AgentAction::new(Agent::<Echo, NoTool>::new(Echo));
    let items = vec![
        Upstream::Text("A".to_string()),
        Upstream::Failed {
            sender: "NodeId(1)".to_string(),
            cause: "closed".to_string(),
        },
    ];
    assert_eq!(
        failure(node.run(&items, 1)),
        "Failed to receive input from upstream NodeId(1): closed"
    );

    let mut registry = ToolRegistry::new();
    registry.register(NoTool);
    let restless = ToolLoopAction::new(Restless, registry, None, None, Some(3));
    assert_eq!(
        failure(restless.run(&vec![Upstream::Text("go".to_string())], 4)),
        "Tool calling exceeded max steps (3)"
    );
    let missing = ToolLoopAction::new(Restless, ToolRegistry::<NoTool>::new(), None, None, None);
    assert_eq!(
        failure(missing.run(&vec![Upstream::Text("go".to_string())], 4)),
        "Tool not found: none"
    );
}

#[test]
fn a_node_pauses_when_its_rounds_are_used_up() {
    let mut registry = ToolRegistry::new();
    registry.register(NoTool);
    let restless = ToolLoopAction::new(Restless, registry, None, None, None);
    match restless.run(&vec![Upstream::Text("go".to_string())], 2) {
        NodeRun::Paused(state) => {
            assert_eq!(state.steps(), 2);
            assert_eq!(state.history().len(), 5);
        }
        NodeRun::Ended(_) => panic!("the node should not have ended"),
    }
}
