//! The tool-calling loop, one step at a time.
//!
//! A conversation alternates between the backend and the tools. The caller asks
//! the backend; `ToolLoop` decides what each answer means. An answer without a
//! tool call ends the conversation with its text. An answer with tool calls is
//! recorded, the tools are run in the order of the calls, and their results are
//! recorded for the next round.

use crate::completion::{
    clone_definitions, clone_messages, contents, definition_models, messages, optional_text,
    CompletionError, CompletionRequest, Content, ContentModel, ErrorModel, Message,
    MessageModel, Role, ToolCall, ToolCallModel, ToolDefinition, ToolResult, ToolResultModel,
};
use crate::text::{join, joined, texts};
use crate::tools::{allow_list, offers, EntryModel, Tool, ToolRegistry};
use serde_json::Value;
use vstd::prelude::*;

verus! {

/// How a loop is run.
#[derive(Debug)]
pub struct ToolLoopConfig {
    /// The system instruction, if there is one.
    pub preamble: Option<String>,
    /// The sampling temperature, if one is set, as the bits of a 64-bit float.
    pub temperature: Option<u64>,
    /// The most rounds in which tools may be called; unbounded where absent.
    pub max_steps: Option<usize>,
    /// The names of the tools that may be used; all tools where absent.
    pub allowed_tools: Option<Vec<String>>,
}

/// Is told of what a loop does. An observer only watches: nothing that it does
/// changes the course of the loop.
pub trait ToolLoopObserver {
    /// A round begins: the backend is about to be asked.
    fn round_started(&self, round: usize);

    /// A tool is about to be run for the given call.
    fn tool_dispatched(&self, call: &ToolCall);

    /// A round is over: the results of its tools are recorded.
    fn round_completed(&self, round: usize);
}

/// The observer that does nothing.
pub struct Unobserved;

impl ToolLoopObserver for Unobserved {
    fn round_started(&self, round: usize) {
    }

    fn tool_dispatched(&self, call: &ToolCall) {
    }

    fn round_completed(&self, round: usize) {
    }
}

/// The tool calls among the content items, in order.
pub open spec fn calls_of(content: Seq<ContentModel>) -> Seq<ToolCallModel>
    decreases content.len(),
{
    if content.len() == 0 {
        Seq::empty()
    } else {
        match content.last() {
            ContentModel::ToolCall(c) => calls_of(content.drop_last()).push(c),
            ContentModel::Text(_) => calls_of(content.drop_last()),
            ContentModel::ToolResult(_) => calls_of(content.drop_last()),
        }
    }
}

/// The texts among the content items, in order.
pub open spec fn texts_of(content: Seq<ContentModel>) -> Seq<Seq<char>>
    decreases content.len(),
{
    if content.len() == 0 {
        Seq::empty()
    } else {
        match content.last() {
            ContentModel::Text(t) => texts_of(content.drop_last()).push(t),
            ContentModel::ToolCall(_) => texts_of(content.drop_last()),
            ContentModel::ToolResult(_) => texts_of(content.drop_last()),
        }
    }
}

/// The final answer of a response without tool calls: its texts, joined by
/// newlines. A response without any text is unusable.
pub open spec fn answer(content: Seq<ContentModel>) -> Result<Seq<char>, ErrorModel> {
    if texts_of(content).len() == 0 {
        Err(ErrorModel::UnusableResponse)
    } else {
        Ok(joined(texts_of(content), "\n"@))
    }
}

/// The state of a conversation: its messages, and the number of rounds in which
/// tools were called.
pub struct LoopModel {
    pub history: Seq<MessageModel>,
    pub steps: nat,
}

/// What follows a response.
pub enum TurnModel {
    /// The conversation is over, with this answer.
    Finished(Seq<char>),
    /// The conversation is over, with this failure.
    Failed(ErrorModel),
    /// These tools are to be called, in this order.
    CallTools(Seq<ToolCallModel>),
}

/// What follows the outcome of asking the backend.
pub open spec fn turn_of(
    state: LoopModel,
    max_steps: Option<usize>,
    outcome: Result<Seq<ContentModel>, ErrorModel>,
) -> TurnModel {
    match outcome {
        Err(e) => TurnModel::Failed(e),
        Ok(content) => if calls_of(content).len() == 0 {
            match answer(content) {
                Ok(text) => TurnModel::Finished(text),
                Err(e) => TurnModel::Failed(e),
            }
        } else {
            match max_steps {
                Some(limit) => if state.steps >= limit {
                    TurnModel::Failed(ErrorModel::StepLimitExceeded { limit })
                } else {
                    TurnModel::CallTools(calls_of(content))
                },
                None => TurnModel::CallTools(calls_of(content)),
            }
        },
    }
}

/// The state after the outcome of asking the backend. Only a response whose
/// tools are to be called changes it: the whole response is recorded as a
/// message of the assistant, and the round is counted.
pub open spec fn after_response(
    state: LoopModel,
    max_steps: Option<usize>,
    outcome: Result<Seq<ContentModel>, ErrorModel>,
) -> LoopModel {
    match turn_of(state, max_steps, outcome) {
        TurnModel::CallTools(_) => LoopModel {
            history: state.history.push(
                MessageModel { role: Role::Assistant, content: outcome->Ok_0 },
            ),
            steps: state.steps + 1,
        },
        TurnModel::Finished(_) => state,
        TurnModel::Failed(_) => state,
    }
}

/// What a call comes to, given what its tool returned.
pub open spec fn settled(call: ToolCallModel, outcome: Result<Value, Seq<char>>) -> Result<
    ToolResultModel,
    ErrorModel,
> {
    match outcome {
        Ok(v) => Ok(ToolResultModel { id: call.id, name: call.name, result: v }),
        Err(cause) => Err(ErrorModel::ToolFailed { name: call.name, cause }),
    }
}

/// What running the calls in order comes to, given what each tool returned.
/// The first call that cannot be served or whose tool fails ends the round
/// with its error; otherwise there is one result for each call, in order.
pub open spec fn dispatched(
    entries: Seq<EntryModel>,
    allowed: Option<Seq<Seq<char>>>,
    calls: Seq<ToolCallModel>,
    outcomes: Seq<Result<Value, Seq<char>>>,
) -> Result<Seq<ContentModel>, ErrorModel>
    decreases calls.len(),
{
    if calls.len() == 0 {
        Ok(Seq::empty())
    } else {
        match dispatched(entries, allowed, calls.drop_last(), outcomes.drop_last()) {
            Err(e) => Err(e),
            Ok(done) => if !offers(entries, allowed, calls.last().name) {
                Err(ErrorModel::ToolNotFound { name: calls.last().name })
            } else {
                match settled(calls.last(), outcomes.last()) {
                    Ok(r) => Ok(done.push(ContentModel::ToolResult(r))),
                    Err(e) => Err(e),
                }
            },
        }
    }
}

/// Whether the results answer the calls: one result for each call, in the
/// order of the calls, each with the id and the name of its call.
pub open spec fn answers(results: Seq<ContentModel>, calls: Seq<ToolCallModel>) -> bool {
    &&& results.len() == calls.len()
    &&& forall|i: int|
        0 <= i < calls.len() ==> (#[trigger] results[i] matches ContentModel::ToolResult(r)
            && r.id == calls[i].id && r.name == calls[i].name)
}

/// The tool calls as plain values, in order.
pub open spec fn call_models(calls: Seq<ToolCall>) -> Seq<ToolCallModel> {
    Seq::new(calls.len(), |i: int| calls[i]@)
}

/// Content items or a failure, as plain values: the outcome of asking the
/// backend, or of running the tools of a round.
pub open spec fn outcome_model(outcome: Result<Vec<Content>, CompletionError>) -> Result<
    Seq<ContentModel>,
    ErrorModel,
> {
    match outcome {
        Ok(content) => Ok(contents(content@)),
        Err(e) => Err(e@),
    }
}

/// What a tool returned, as plain values.
pub open spec fn returned(outcome: Result<Value, String>) -> Result<Value, Seq<char>> {
    match outcome {
        Ok(v) => Ok(v),
        Err(cause) => Err(cause@),
    }
}

/// The state after a round of tools: its results are recorded as one message of
/// the user. A round that failed, or that has no result, is a failure.
pub open spec fn after_tools(state: LoopModel, round: Result<Seq<ContentModel>, ErrorModel>) -> Result<
    LoopModel,
    ErrorModel,
> {
    match round {
        Err(e) => Err(e),
        Ok(results) => if results.len() == 0 {
            Err(ErrorModel::UnusableResponse)
        } else {
            Ok(
                LoopModel {
                    history: state.history.push(
                        MessageModel { role: Role::User, content: results },
                    ),
                    steps: state.steps,
                },
            )
        },
    }
}

/// What follows a response.
#[derive(Debug)]
pub enum Turn {
    /// The conversation is over, with this answer.
    Finished(String),
    /// The conversation is over, with this failure.
    Failed(CompletionError),
    /// These tools are to be called, in this order.
    CallTools(Vec<ToolCall>),
}

impl View for Turn {
    type V = TurnModel;

    open spec fn view(&self) -> TurnModel {
        match self {
            Turn::Finished(t) => TurnModel::Finished(t@),
            Turn::Failed(e) => TurnModel::Failed(e@),
            Turn::CallTools(calls) => TurnModel::CallTools(call_models(calls@)),
        }
    }
}

/// A response has at least as many items as it has tool calls.
pub proof fn lemma_calls_within(content: Seq<ContentModel>)
    ensures
        calls_of(content).len() <= content.len(),
    decreases content.len(),
{
    if content.len() > 0 {
        lemma_calls_within(content.drop_last());
    }
}

/// The tool calls of a response, in order.
pub fn tool_calls(content: &Vec<Content>) -> (r: Vec<ToolCall>)
    ensures
        call_models(r@) == calls_of(contents(content@)),
{
    let mut r: Vec<ToolCall> = Vec::new();
    let mut i: usize = 0;
    proof {
        assert(contents(content@).take(0) =~= Seq::<ContentModel>::empty());
        assert(call_models(r@) =~= Seq::<ToolCallModel>::empty());
    }
    while i < content.len()
        invariant
            i <= content.len(),
            call_models(r@) == calls_of(contents(content@).take(i as int)),
        decreases content.len() - i,
    {
        let ghost before = call_models(r@);
        proof {
            let done = contents(content@).take(i + 1);
            assert(done.drop_last() =~= contents(content@).take(i as int));
            assert(done.last() == content@[i as int]@);
        }
        match &content[i] {
            Content::ToolCall(c) => {
                let copy = c.clone();
                r.push(copy);
                proof {
                    assert(call_models(r@) =~= before.push(copy@));
                }
            },
            Content::Text(_) => {},
            Content::ToolResult(_) => {},
        }
        i += 1;
    }
    proof {
        assert(contents(content@).take(content.len() as int) =~= contents(content@));
    }
    r
}

/// The texts of a response, in order.
pub fn text_items(content: &Vec<Content>) -> (r: Vec<String>)
    ensures
        texts(r@) == texts_of(contents(content@)),
{
    let mut r: Vec<String> = Vec::new();
    let mut i: usize = 0;
    proof {
        assert(contents(content@).take(0) =~= Seq::<ContentModel>::empty());
        assert(texts(r@) =~= Seq::<Seq<char>>::empty());
    }
    while i < content.len()
        invariant
            i <= content.len(),
            texts(r@) == texts_of(contents(content@).take(i as int)),
        decreases content.len() - i,
    {
        let ghost before = texts(r@);
        proof {
            let done = contents(content@).take(i + 1);
            assert(done.drop_last() =~= contents(content@).take(i as int));
            assert(done.last() == content@[i as int]@);
        }
        match &content[i] {
            Content::Text(t) => {
                let copy = t.clone();
                r.push(copy);
                proof {
                    assert(texts(r@) =~= before.push(copy@));
                }
            },
            Content::ToolCall(_) => {},
            Content::ToolResult(_) => {},
        }
        i += 1;
    }
    proof {
        assert(contents(content@).take(content.len() as int) =~= contents(content@));
    }
    r
}

/// The final answer of a response without tool calls.
pub fn final_answer(content: &Vec<Content>) -> (r: Result<String, CompletionError>)
    ensures
        match r {
            Ok(text) => answer(contents(content@)) == Ok::<Seq<char>, ErrorModel>(text@),
            Err(e) => answer(contents(content@)) == Err::<Seq<char>, ErrorModel>(e@),
        },
{
    let parts = text_items(content);
    if parts.len() == 0 {
        Err(CompletionError::UnusableResponse)
    } else {
        Ok(join(&parts, "\n"))
    }
}

/// What a call comes to, given what its tool returned.
pub fn tool_result(call: &ToolCall, outcome: Result<Value, String>) -> (r: Result<
    ToolResult,
    CompletionError,
>)
    ensures
        match r {
            Ok(t) => settled(call@, returned(outcome)) == Ok::<ToolResultModel, ErrorModel>(t@),
            Err(e) => settled(call@, returned(outcome)) == Err::<ToolResultModel, ErrorModel>(
                e@,
            ),
        },
{
    match outcome {
        Ok(v) => Ok(ToolResult { id: call.id.clone(), name: call.name.clone(), result: v }),
        Err(cause) => Err(CompletionError::ToolFailed { name: call.name.clone(), cause }),
    }
}

/// A round that has failed stays failed: the calls after the failure, and what
/// their tools would have returned, change nothing.
pub proof fn lemma_failure_ends_round(
    entries: Seq<EntryModel>,
    allowed: Option<Seq<Seq<char>>>,
    calls: Seq<ToolCallModel>,
    outcomes: Seq<Result<Value, Seq<char>>>,
    n: int,
)
    requires
        0 <= n <= calls.len(),
        outcomes.len() == calls.len(),
        dispatched(entries, allowed, calls.take(n), outcomes.take(n)) is Err,
    ensures
        dispatched(entries, allowed, calls, outcomes) == dispatched(
            entries,
            allowed,
            calls.take(n),
            outcomes.take(n),
        ),
    decreases calls.len() - n,
{
    if n == calls.len() {
        assert(calls.take(n) =~= calls);
        assert(outcomes.take(n) =~= outcomes);
    } else {
        assert(calls.take(n + 1).drop_last() =~= calls.take(n));
        assert(outcomes.take(n + 1).drop_last() =~= outcomes.take(n));
        lemma_failure_ends_round(entries, allowed, calls, outcomes, n + 1);
    }
}

proof fn lemma_failure_fills(
    entries: Seq<EntryModel>,
    allowed: Option<Seq<Seq<char>>>,
    calls: Seq<ToolCallModel>,
    outs: Seq<Result<Value, Seq<char>>>,
)
    requires
        outs.len() <= calls.len(),
        dispatched(entries, allowed, calls.take(outs.len() as int), outs) is Err,
    ensures
        exists|outcomes: Seq<Result<Value, Seq<char>>>|
            outcomes.len() == calls.len() && #[trigger] dispatched(
                entries,
                allowed,
                calls,
                outcomes,
            ) == dispatched(entries, allowed, calls.take(outs.len() as int), outs),
{
    let rest = Seq::new(
        (calls.len() - outs.len()) as nat,
        |i: int| Err::<Value, Seq<char>>(Seq::empty()),
    );
    let full = outs + rest;
    assert(full.take(outs.len() as int) =~= outs);
    lemma_failure_ends_round(entries, allowed, calls, full, outs.len() as int);
}

/// Runs the tools for the calls of one round, in the order of the calls and one
/// after the other, and collects their results.
///
/// A tool is looked up by the name of its call among the tools that the
/// allow-list permits. A call that cannot be served ends the round at once:
/// the calls after it are not attempted. So does a tool that fails.
pub fn dispatch<T: Tool, O: ToolLoopObserver>(
    registry: &ToolRegistry<T>,
    allowed: &Option<Vec<String>>,
    calls: &Vec<ToolCall>,
    observer: &O,
) -> (r: Result<Vec<Content>, CompletionError>)
    ensures
        exists|outcomes: Seq<Result<Value, Seq<char>>>|
            outcomes.len() == calls.len() && outcome_model(r) == #[trigger] dispatched(
                registry.model(),
                allow_list(*allowed),
                call_models(calls@),
                outcomes,
            ),
        r matches Ok(results) ==> answers(contents(results@), call_models(calls@)),
{
    let mut results: Vec<Content> = Vec::new();
    let mut i: usize = 0;
    let ghost entries = registry.model();
    let ghost list = allow_list(*allowed);
    let ghost all = call_models(calls@);
    let ghost mut outs: Seq<Result<Value, Seq<char>>> = Seq::empty();
    proof {
        assert(contents(results@) =~= Seq::<ContentModel>::empty());
    }
    while i < calls.len()
        invariant
            i <= calls.len(),
            entries == registry.model(),
            list == allow_list(*allowed),
            all == call_models(calls@),
            outs.len() == i,
            dispatched(entries, list, all.take(i as int), outs) == Ok::<
                Seq<ContentModel>,
                ErrorModel,
            >(contents(results@)),
            answers(contents(results@), all.take(i as int)),
        decreases calls.len() - i,
    {
        let call = &calls[i];
        let ghost before = contents(results@);
        proof {
            assert(all.take(i + 1).drop_last() =~= all.take(i as int));
            assert(all.take(i + 1).last() == call@);
        }
        match registry.find(call.name.as_str(), allowed) {
            None => {
                let e = CompletionError::ToolNotFound { name: call.name.clone() };
                proof {
                    let o: Result<Value, Seq<char>> = Err(Seq::empty());
                    assert(outs.push(o).drop_last() =~= outs);
                    assert(outcome_model(Err::<Vec<Content>, CompletionError>(e)) == dispatched(
                        entries,
                        list,
                        all.take(i + 1),
                        outs.push(o),
                    ));
                    lemma_failure_fills(entries, list, all, outs.push(o));
                }
                return Err(e);
            },
            Some(at) => {
                observer.tool_dispatched(call);
                let outcome = registry.entry(at).tool.call(call.arguments.clone());
                let ghost o = returned(outcome);
                proof {
                    assert(crate::tools::names_of(entries)[at as int] == call@.name);
                    assert(offers(entries, list, call@.name));
                    assert(outs.push(o).drop_last() =~= outs);
                    assert(outs.push(o).last() == o);
                }
                match tool_result(call, outcome) {
                    Ok(t) => {
                        results.push(Content::ToolResult(t));
                        proof {
                            assert(contents(results@) =~= before.push(
                                ContentModel::ToolResult(t@),
                            ));
                            outs = outs.push(o);
                        }
                    },
                    Err(e) => {
                        proof {
                            assert(outcome_model(Err::<Vec<Content>, CompletionError>(e))
                                == dispatched(entries, list, all.take(i + 1), outs.push(o)));
                            lemma_failure_fills(entries, list, all, outs.push(o));
                        }
                        return Err(e);
                    },
                }
            },
        }
        i += 1;
    }
    proof {
        assert(all.take(calls.len() as int) =~= all);
    }
    Ok(results)
}

/// A conversation in progress.
pub struct ToolLoop {
    history: Vec<Message>,
    steps: usize,
}

impl ToolLoop {
    #[verifier::type_invariant]
    spec fn counted(self) -> bool {
        self.steps <= self.history@.len()
    }

    /// The state of the conversation.
    pub closed spec fn model(&self) -> LoopModel {
        LoopModel { history: messages(self.history@), steps: self.steps as nat }
    }

    /// A conversation that starts from the given messages, with no round
    /// counted yet.
    pub fn start(history: Vec<Message>) -> (r: Self)
        ensures
            r.model() == (LoopModel { history: messages(history@), steps: 0 }),
    {
        ToolLoop { history, steps: 0 }
    }

    /// The messages so far.
    pub fn history(&self) -> (r: &Vec<Message>)
        ensures
            messages(r@) == self.model().history,
    {
        &self.history
    }

    /// The number of rounds in which tools were called.
    pub fn steps(&self) -> (r: usize)
        ensures
            r == self.model().steps,
    {
        self.steps
    }

    /// Ends the conversation and hands its messages to the caller.
    pub fn into_history(self) -> (r: Vec<Message>)
        ensures
            messages(r@) == self.model().history,
    {
        self.history
    }

    /// The request for the next round: the preamble and the temperature of the
    /// configuration, the messages so far, and the given tools.
    pub fn request(&self, config: &ToolLoopConfig, tools: &Vec<ToolDefinition>) -> (r:
        CompletionRequest)
        ensures
            r@.preamble == optional_text(config.preamble),
            r@.chat_history == self.model().history,
            r@.temperature == config.temperature,
            r@.tools == definition_models(tools@),
    {
        let preamble = match &config.preamble {
            Some(p) => Some(p.clone()),
            None => None,
        };
        CompletionRequest {
            preamble,
            chat_history: clone_messages(&self.history),
            temperature: config.temperature,
            tools: clone_definitions(tools),
        }
    }

    /// Takes the outcome of asking the backend and says what follows, together
    /// with the state that the conversation is then in.
    ///
    /// A failure of the backend ends the conversation. A response without tool
    /// calls ends it with the texts of the response, joined by newlines, or
    /// with a failure where it has no text. A response with tool calls, while
    /// the step bound allows another round, is recorded whole as a message of
    /// the assistant; its calls are handed back to be run. Beyond the bound the
    /// conversation ends with a failure.
    pub fn receive(
        self,
        config: &ToolLoopConfig,
        outcome: Result<Vec<Content>, CompletionError>,
    ) -> (r: (ToolLoop, Turn))
        ensures
            r.1@ == turn_of(self.model(), config.max_steps, outcome_model(outcome)),
            r.0.model() == after_response(self.model(), config.max_steps, outcome_model(outcome)),
    {
        proof {
            use_type_invariant(&self);
        }
        match outcome {
            Err(e) => (self, Turn::Failed(e)),
            Ok(content) => {
                let calls = tool_calls(&content);
                if calls.len() == 0 {
                    match final_answer(&content) {
                        Ok(text) => (self, Turn::Finished(text)),
                        Err(e) => (self, Turn::Failed(e)),
                    }
                } else {
                    if let Some(limit) = config.max_steps {
                        if self.steps >= limit {
                            return (
                                self,
                                Turn::Failed(CompletionError::StepLimitExceeded { limit }),
                            );
                        }
                    }
                    proof {
                        lemma_calls_within(contents(content@));
                    }
                    match Message::new(Role::Assistant, content) {
                        Some(m) => {
                            let ghost before = messages(self.history@);
                            let steps = self.steps;
                            let mut history = self.history;
                            history.push(m);
                            let recorded = history.len();
                            proof {
                                assert(messages(history@) =~= before.push(m@));
                                assert(steps < recorded);
                            }
                            (ToolLoop { history, steps: steps + 1 }, Turn::CallTools(calls))
                        },
                        None => (self, Turn::Failed(CompletionError::UnusableResponse)),
                    }
                }
            },
        }
    }

    /// Records the results of a round as one message of the user. Without any
    /// result there is nothing to record, which is a failure.
    pub fn record(self, results: Vec<Content>) -> (r: Result<ToolLoop, CompletionError>)
        ensures
            step_model(r) == after_tools(self.model(), Ok(contents(results@))),
    {
        proof {
            use_type_invariant(&self);
        }
        match Message::new(Role::User, results) {
            Some(m) => {
                let ghost before = messages(self.history@);
                let steps = self.steps;
                let mut history = self.history;
                history.push(m);
                proof {
                    assert(messages(history@) =~= before.push(m@));
                }
                Ok(ToolLoop { history, steps })
            },
            None => Err(CompletionError::UnusableResponse),
        }
    }

    /// Runs the tools for the calls of a round and records their results as
    /// one message of the user: one result for each call, in the order of the
    /// calls. Where a call fails the conversation ends with that failure.
    pub fn run_tools<T: Tool, O: ToolLoopObserver>(
        self,
        registry: &ToolRegistry<T>,
        config: &ToolLoopConfig,
        calls: &Vec<ToolCall>,
        observer: &O,
    ) -> (r: Result<ToolLoop, CompletionError>)
        ensures
            exists|outcomes: Seq<Result<Value, Seq<char>>>|
                outcomes.len() == calls.len() && step_model(r) == after_tools(
                    self.model(),
                    #[trigger] dispatched(
                        registry.model(),
                        allow_list(config.allowed_tools),
                        call_models(calls@),
                        outcomes,
                    ),
                ),
            r matches Ok(next) ==> next.model().steps == self.model().steps
                && next.model().history.len() == self.model().history.len() + 1
                && next.model().history.drop_last() == self.model().history
                && next.model().history.last().role == Role::User && answers(
                next.model().history.last().content,
                call_models(calls@),
            ),
    {
        match dispatch(registry, &config.allowed_tools, calls, observer) {
            Ok(results) => {
                let ghost before = self.model().history;
                let ghost given = contents(results@);
                let r = self.record(results);
                proof {
                    if r is Ok {
                        assert(before.push(
                            MessageModel { role: Role::User, content: given },
                        ).drop_last() =~= before);
                    }
                }
                r
            },
            Err(e) => Err(e),
        }
    }
}

/// The state that a step left, or the failure that it ended with.
pub open spec fn step_model(r: Result<ToolLoop, CompletionError>) -> Result<LoopModel, ErrorModel> {
    match r {
        Ok(state) => Ok(state.model()),
        Err(e) => Err(e@),
    }
}

} // verus!
