use std::cell::Cell;
use std::rc::Rc;

use libra::agent::runtime::tool_loop::{
    dispatch, final_answer, text_items, tool_calls, tool_result, ToolLoop, ToolLoopConfig,
    ToolLoopObserver, Turn, Unobserved,
};
use libra::agent::runtime::{Agent, DEFAULT_MAX_STEPS};
use libra::completion::{
    CompletionError, CompletionRequest, Content, Message, Role, ToolCall, ToolDefinition,
    ToolResult,
};
use libra::tools::{Tool, ToolRegistry};
use serde_json::Value;

fn object(key: &str, value: Value) -> Value {
    let mut m = serde_json::Map::new();
    m.insert(key.to_string(), value);
    Value::Object(m)
}

fn call(id: &str, name: &str, arguments: Value) -> Content {
    Content::ToolCall(ToolCall {
        id: id.to_string(),
        name: name.to_string(),
        arguments,
    })
}

fn text(t: &str) -> Content {
    Content::Text(t.to_string())
}

struct MockTool {
    name: &'static str,
    calls: Rc<Cell<usize>>,
    fails: bool,
}

impl MockTool {
    fn named(name: &'static str) -> MockTool {
        MockTool {
            name,
            calls: Rc::new(Cell::new(0)),
            fails: false,
        }
    }
}

impl Tool for MockTool {
    fn name(&self) -> String {
        self.name.to_string()
    }

    fn description(&self) -> String {
        "Mock tool".to_string()
    }

    fn definition(&self) -> ToolDefinition {
        ToolDefinition {
            name: self.name(),
            description: self.description(),
            parameters: object("type", Value::String("object".to_string())),
        }
    }

    fn call(&self, args: Value) -> Result<Value, String> {
        self.calls.set(self.calls.get() + 1);
        if self.fails {
            Err("boom".to_string())
        } else {
            Ok(object("echo", args))
        }
    }
}

fn config(max_steps: Option<usize>) -> ToolLoopConfig {
    ToolLoopConfig {
        preamble: None,
        temperature: None,
        max_steps,
        allowed_tools: None,
    }
}

fn drive<T: Tool>(
    start: ToolLoop,
    backend: &mut dyn FnMut(&CompletionRequest) -> Result<Vec<Content>, CompletionError>,
    registry: &ToolRegistry<T>,
    config: &ToolLoopConfig,
) -> Result<String, CompletionError> {
    let tools = registry.definitions(&config.allowed_tools);
    let mut state = start;
    loop {
        let request = state.request(config, &tools);
        let outcome = backend(&request);
        let (next, turn) = state.receive(config, outcome);
        match turn {
            Turn::Finished(t) => return Ok(t),
            Turn::Failed(e) => return Err(e),
            Turn::CallTools(calls) => {
                state = next.run_tools(registry, config, &calls, &Unobserved)?;
            }
        }
    }
}

fn has_tool_result(request: &CompletionRequest) -> bool {
    request.chat_history.iter().any(|m| {
        m.role() == Role::User
            && m.content()
                .iter()
                .any(|c| matches!(c, Content::ToolResult(_)))
    })
}

#[test]
fn test_tool_call_loop_executes_tool() {
    let tool = MockTool::named("mock_tool");
    let ran = tool.calls.clone();
    let mut registry = ToolRegistry::new();
    registry.register(tool);

    let agent: Agent<(), MockTool> = Agent::new(()).with_tools(registry);
    let mut backend = |request: &CompletionRequest| {
        if !has_tool_result(request) {
            Ok(vec![call(
                "call_1",
                "mock_tool",
                object("value", Value::from(1)),
            )])
        } else {
            Ok(vec![text("done")])
        }
    };
    let response = drive(
        agent.start_prompt("hi"),
        &mut backend,
        agent.tools(),
        &agent.config(),
    )
    .unwrap();

    assert_eq!(response, "done");
    assert_eq!(ran.get(), 1);
}

#[test]
fn test_max_steps_allows_exact_tool_call_count() {
    let tool = MockTool::named("always_tool");
    let tool_calls = tool.calls.clone();
    let completion_calls = Rc::new(Cell::new(0usize));
    let mut registry = ToolRegistry::new();
    registry.register(tool);

    let agent: Agent<(), MockTool> = Agent::new(())
        .with_tools(registry)
        .with_max_steps(Some(2));
    let counter = completion_calls.clone();
    let mut backend = move |_request: &CompletionRequest| {
        counter.set(counter.get() + 1);
        Ok(vec![call("call", "always_tool", Value::Object(serde_json::Map::new()))])
    };
    let err = drive(
        agent.start_prompt("hi"),
        &mut backend,
        agent.tools(),
        &agent.config(),
    )
    .unwrap_err();

    assert_eq!(tool_calls.get(), 2);
    assert_eq!(completion_calls.get(), 3);
    assert!(err.message().contains("max steps"));
    assert!(matches!(
        err,
        CompletionError::StepLimitExceeded { limit: 2 }
    ));
}

#[test]
fn step_bound_is_exact_for_every_small_bound() {
    for n in 0..6usize {
        let tool = MockTool::named("t");
        let ran = tool.calls.clone();
        let mut registry = ToolRegistry::new();
        registry.register(tool);
        let asked = Rc::new(Cell::new(0usize));
        let counter = asked.clone();
        let mut backend = move |_request: &CompletionRequest| {
            counter.set(counter.get() + 1);
            Ok(vec![call("c", "t", Value::Null)])
        };
        let cfg = config(Some(n));
        let start = ToolLoop::start(vec![Message::user("go")]);
        let err = drive(start, &mut backend, &registry, &cfg).unwrap_err();
        assert!(matches!(err, CompletionError::StepLimitExceeded { limit } if limit == n));
        assert_eq!(ran.get(), n);
        assert_eq!(asked.get(), n + 1);
    }
}

#[test]
fn answer_is_the_texts_joined_by_newline() {
    let registry: ToolRegistry<MockTool> = ToolRegistry::new();
    let mut backend =
        |_request: &CompletionRequest| Ok(vec![text("first"), text("second"), text("")]);
    let agent: Agent<(), MockTool> = Agent::new(());
    let answer = drive(agent.start_prompt("hi"), &mut backend, &registry, &config(None)).unwrap();
    assert_eq!(answer, "first\nsecond\n");
}

#[test]
fn response_without_text_or_call_is_unusable() {
    let state = ToolLoop::start(vec![Message::user("hi")]);
    let (_, turn) = state.receive(&config(None), Ok(vec![]));
    assert!(matches!(
        turn,
        Turn::Failed(CompletionError::UnusableResponse)
    ));

    let state = ToolLoop::start(vec![Message::user("hi")]);
    let only_result = vec![Content::ToolResult(ToolResult {
        id: "x".to_string(),
        name: "t".to_string(),
        result: Value::Null,
    })];
    let (after, turn) = state.receive(&config(None), Ok(only_result));
    assert!(matches!(
        turn,
        Turn::Failed(CompletionError::UnusableResponse)
    ));
    assert_eq!(after.history().len(), 1);
    assert_eq!(after.steps(), 0);
}

#[test]
fn empty_text_is_still_an_answer() {
    let state = ToolLoop::start(vec![Message::user("hi")]);
    let (_, turn) = state.receive(&config(None), Ok(vec![text("")]));
    assert!(matches!(turn, Turn::Finished(t) if t.is_empty()));
}

#[test]
fn backend_failure_is_handed_on() {
    let state = ToolLoop::start(vec![Message::user("hi")]);
    let (after, turn) = state.receive(
        &config(Some(1)),
        Err(CompletionError::Backend("quota".to_string())),
    );
    match turn {
        Turn::Failed(e) => {
            assert!(matches!(&e, CompletionError::Backend(m) if m == "quota"));
            assert_eq!(e.message(), "Completion failed: quota");
        }
        other => panic!("unexpected turn: {:?}", other),
    }
    assert_eq!(after.steps(), 0);
}

#[test]
fn tool_round_records_the_whole_response_and_the_results_in_order() {
    let mut registry = ToolRegistry::new();
    registry.register(MockTool::named("a"));
    registry.register(MockTool::named("b"));
    let cfg = config(None);
    let state = ToolLoop::start(vec![Message::user("hi")]);
    let response = vec![
        text("let me look"),
        call("1", "b", Value::from(10)),
        call("2", "a", Value::from(20)),
        call("3", "b", Value::from(30)),
    ];
    let (state, turn) = state.receive(&cfg, Ok(response));
    let calls = match turn {
        Turn::CallTools(calls) => calls,
        other => panic!("unexpected turn: {:?}", other),
    };
    assert_eq!(calls.len(), 3);
    assert_eq!(state.steps(), 1);
    assert_eq!(state.history().len(), 2);
    assert_eq!(state.history()[1].role(), Role::Assistant);
    assert_eq!(state.history()[1].content().len(), 4);
    assert!(matches!(&state.history()[1].content()[0], Content::Text(t) if t == "let me look"));

    let state = state
        .run_tools(&registry, &cfg, &calls, &Unobserved)
        .unwrap();
    assert_eq!(state.steps(), 1);
    assert_eq!(state.history().len(), 3);
    let last = &state.history()[2];
    assert_eq!(last.role(), Role::User);
    let results = last.content();
    assert_eq!(results.len(), 3);
    let expected = [("1", "b", 10), ("2", "a", 20), ("3", "b", 30)];
    for (item, (id, name, n)) in results.iter().zip(expected.iter()) {
        match item {
            Content::ToolResult(r) => {
                assert_eq!(r.id, *id);
                assert_eq!(r.name, *name);
                assert_eq!(r.result, object("echo", Value::from(*n)));
            }
            other => panic!("unexpected content: {:?}", other),
        }
    }
}

#[test]
fn unknown_tool_ends_the_round_at_once() {
    let known = MockTool::named("known");
    let ran = known.calls.clone();
    let mut registry = ToolRegistry::new();
    registry.register(known);
    let calls = vec![
        ToolCall {
            id: "1".to_string(),
            name: "known".to_string(),
            arguments: Value::Null,
        },
        ToolCall {
            id: "2".to_string(),
            name: "missing".to_string(),
            arguments: Value::Null,
        },
        ToolCall {
            id: "3".to_string(),
            name: "known".to_string(),
            arguments: Value::Null,
        },
    ];
    let err = dispatch(&registry, &None, &calls, &Unobserved).unwrap_err();
    assert!(matches!(&err, CompletionError::ToolNotFound { name } if name == "missing"));
    assert_eq!(err.message(), "Tool not found: missing");
    assert_eq!(ran.get(), 1);
}

#[test]
fn tool_failure_ends_the_round() {
    let mut failing = MockTool::named("bad");
    failing.fails = true;
    let ran = failing.calls.clone();
    let mut registry = ToolRegistry::new();
    registry.register(failing);
    let calls = vec![
        ToolCall {
            id: "1".to_string(),
            name: "bad".to_string(),
            arguments: Value::Null,
        },
        ToolCall {
            id: "2".to_string(),
            name: "bad".to_string(),
            arguments: Value::Null,
        },
    ];
    let state = ToolLoop::start(vec![Message::user("hi")]);
    let err = match state.run_tools(&registry, &config(None), &calls, &Unobserved) {
        Err(e) => e,
        Ok(_) => panic!("the round should have failed"),
    };
    assert!(
        matches!(&err, CompletionError::ToolFailed { name, cause } if name == "bad" && cause == "boom")
    );
    assert_eq!(err.message(), "Tool execution failed: bad: boom");
    assert_eq!(ran.get(), 1);
}

#[test]
fn allow_list_limits_what_is_advertised_and_found() {
    let mut registry = ToolRegistry::new();
    registry.register(MockTool::named("read"));
    registry.register(MockTool::named("write"));
    registry.register(MockTool::named("grep"));
    let allowed = Some(vec!["grep".to_string(), "read".to_string()]);

    let names: Vec<String> = registry
        .definitions(&allowed)
        .into_iter()
        .map(|d| d.name)
        .collect();
    assert_eq!(names, vec!["read", "grep"]);
    assert_eq!(registry.definitions(&None).len(), 3);

    assert_eq!(registry.find("read", &allowed), Some(0));
    assert_eq!(registry.find("write", &allowed), None);
    assert_eq!(registry.find("write", &None), Some(1));
    assert_eq!(registry.find("nothing", &None), None);

    let calls = vec![ToolCall {
        id: "1".to_string(),
        name: "write".to_string(),
        arguments: Value::Null,
    }];
    let err = dispatch(&registry, &allowed, &calls, &Unobserved).unwrap_err();
    assert!(matches!(&err, CompletionError::ToolNotFound { name } if name == "write"));
}

#[test]
fn first_tool_of_a_name_is_found() {
    let first = MockTool::named("twin");
    let second = MockTool::named("twin");
    let ran_first = first.calls.clone();
    let ran_second = second.calls.clone();
    let mut registry = ToolRegistry::new();
    assert!(registry.has_unique_names());
    registry.register(first);
    assert!(registry.has_unique_names());
    registry.register(second);
    assert!(!registry.has_unique_names());
    assert_eq!(registry.len(), 2);
    assert_eq!(registry.find("twin", &None), Some(0));
    let calls = vec![ToolCall {
        id: "1".to_string(),
        name: "twin".to_string(),
        arguments: Value::Null,
    }];
    dispatch(&registry, &None, &calls, &Unobserved).unwrap();
    assert_eq!(ran_first.get(), 1);
    assert_eq!(ran_second.get(), 0);
}

#[test]
fn recording_no_results_is_a_failure() {
    let state = ToolLoop::start(vec![Message::user("hi")]);
    assert!(matches!(
        state.record(vec![]),
        Err(CompletionError::UnusableResponse)
    ));
    let registry: ToolRegistry<MockTool> = ToolRegistry::new();
    let state = ToolLoop::start(vec![Message::user("hi")]);
    assert!(matches!(
        state.run_tools(&registry, &config(None), &vec![], &Unobserved),
        Err(CompletionError::UnusableResponse)
    ));
    assert_eq!(
        CompletionError::UnusableResponse.message(),
        "Model returned no usable text or tool call"
    );
}

#[test]
fn request_carries_configuration_history_and_tools() {
    let mut registry = ToolRegistry::new();
    registry.register(MockTool::named("read"));
    let cfg = ToolLoopConfig {
        preamble: Some("be brief".to_string()),
        temperature: Some(0.5f64.to_bits()),
        max_steps: None,
        allowed_tools: None,
    };
    let state = ToolLoop::start(vec![Message::user("one"), Message::user("two")]);
    let request = state.request(&cfg, &registry.definitions(&cfg.allowed_tools));
    assert_eq!(request.preamble.as_deref(), Some("be brief"));
    assert_eq!(request.temperature.map(f64::from_bits), Some(0.5));
    assert_eq!(request.chat_history.len(), 2);
    assert!(matches!(&request.chat_history[1].content()[0], Content::Text(t) if t == "two"));
    assert_eq!(request.tools.len(), 1);
    assert_eq!(request.tools[0].name, "read");
    assert_eq!(request.tools[0].description, "Mock tool");
    assert_eq!(
        request.tools[0].parameters,
        object("type", Value::String("object".to_string()))
    );
}

#[test]
fn agent_defaults_and_conversation_seeds() {
    let agent: Agent<u8, MockTool> = Agent::new(7);
    assert_eq!(*agent.model(), 7);
    assert_eq!(DEFAULT_MAX_STEPS, 4);
    let cfg = agent.config();
    assert_eq!(cfg.max_steps, Some(4));
    assert!(cfg.preamble.is_none());
    assert!(cfg.temperature.is_none());
    assert!(cfg.allowed_tools.is_none());
    assert_eq!(agent.tools().len(), 0);

    let agent = agent
        .with_preamble("p".to_string())
        .with_temperature(1.0f64.to_bits())
        .with_max_steps(None);
    let cfg = agent.config();
    assert_eq!(cfg.preamble.as_deref(), Some("p"));
    assert_eq!(cfg.temperature, Some(1.0f64.to_bits()));
    assert_eq!(cfg.max_steps, None);

    let fresh = agent.start_prompt("hello");
    assert_eq!(fresh.steps(), 0);
    assert_eq!(fresh.history().len(), 1);
    assert_eq!(fresh.history()[0].role(), Role::User);
    assert!(matches!(&fresh.history()[0].content()[0], Content::Text(t) if t == "hello"));

    let prior = vec![
        Message::user("earlier"),
        Message::new(Role::Assistant, vec![text("reply")]).unwrap(),
    ];
    let resumed = agent.start_chat("next", prior);
    let history = resumed.into_history();
    assert_eq!(history.len(), 3);
    assert_eq!(history[1].role(), Role::Assistant);
    assert!(matches!(&history[2].content()[0], Content::Text(t) if t == "next"));
}

#[test]
fn message_is_never_empty() {
    assert!(Message::new(Role::User, vec![]).is_none());
    assert!(Message::new(Role::Assistant, vec![]).is_none());
    let m = Message::new(Role::Assistant, vec![text("a"), text("b")]).unwrap();
    assert_eq!(m.content().len(), 2);
    let copy = m.clone();
    assert_eq!(copy.role(), Role::Assistant);
    assert!(matches!(&copy.content()[1], Content::Text(t) if t == "b"));
}

#[test]
fn copies_keep_their_values() {
    let original = ToolCall {
        id: "id".to_string(),
        name: "n".to_string(),
        arguments: object("k", Value::from(3)),
    };
    let copy = original.clone();
    assert_eq!(copy.id, "id");
    assert_eq!(copy.name, "n");
    assert_eq!(copy.arguments, object("k", Value::from(3)));
    let e = CompletionError::ToolFailed {
        name: "n".to_string(),
        cause: "c".to_string(),
    };
    assert_eq!(e.clone().message(), e.message());
}

#[test]
fn pieces_of_a_response() {
    let content = vec![
        text("a"),
        call("1", "x", Value::Null),
        text("b"),
        call("2", "y", Value::Bool(true)),
    ];
    let calls = tool_calls(&content);
    assert_eq!(calls.len(), 2);
    assert_eq!(calls[0].id, "1");
    assert_eq!(calls[1].name, "y");
    assert_eq!(calls[1].arguments, Value::Bool(true));
    assert_eq!(text_items(&content), vec!["a", "b"]);
    assert_eq!(final_answer(&content).unwrap(), "a\nb");
    assert!(matches!(
        final_answer(&vec![call("1", "x", Value::Null)]),
        Err(CompletionError::UnusableResponse)
    ));
}

#[test]
fn tool_result_settles_a_call() {
    let c = ToolCall {
        id: "7".to_string(),
        name: "grep".to_string(),
        arguments: Value::Null,
    };
    let ok = tool_result(&c, Ok(Value::from("found"))).unwrap();
    assert_eq!(ok.id, "7");
    assert_eq!(ok.name, "grep");
    assert_eq!(ok.result, Value::from("found"));
    let err = tool_result(&c, Err("no such file".to_string())).unwrap_err();
    assert!(
        matches!(&err, CompletionError::ToolFailed { name, cause } if name == "grep" && cause == "no such file")
    );
}

struct Recorder {
    seen: Rc<Cell<usize>>,
}

impl ToolLoopObserver for Recorder {
    fn round_started(&self, _round: usize) {}

    fn tool_dispatched(&self, _call: &ToolCall) {
        self.seen.set(self.seen.get() + 1);
    }

    fn round_completed(&self, _round: usize) {}
}

#[test]
fn observer_sees_each_tool_that_is_run() {
    let mut registry = ToolRegistry::new();
    registry.register(MockTool::named("a"));
    let calls = vec![
        ToolCall {
            id: "1".to_string(),
            name: "a".to_string(),
            arguments: Value::Null,
        },
        ToolCall {
            id: "2".to_string(),
            name: "a".to_string(),
            arguments: Value::Null,
        },
        ToolCall {
            id: "3".to_string(),
            name: "missing".to_string(),
            arguments: Value::Null,
        },
    ];
    let seen = Rc::new(Cell::new(0usize));
    let observer = Recorder { seen: seen.clone() };
    let with = dispatch(&registry, &None, &calls, &observer);
    assert!(with.is_err());
    assert_eq!(seen.get(), 2);
}
