//! Whole conversations.
//!
//! `replay` says where a conversation stands after a number of rounds, given
//! what the backend answered and what the tools returned in each round. The
//! laws of the loop are stated over it, and `run_rounds` runs it against a
//! backend.

use super::tool_loop::{
    after_response, after_tools, answers, call_models, calls_of, dispatched, outcome_model,
    texts_of, turn_of, LoopModel, ToolLoop, ToolLoopConfig, ToolLoopObserver, Turn, TurnModel,
    Unobserved,
};
use crate::completion::{
    messages, CompletionError, CompletionRequest, CompletionResponse, ContentModel, ErrorModel,
    Message, MessageModel, Role, ToolCallModel,
};
use crate::text::joined;
use crate::tools::{allow_list, offers, EntryModel, Tool, ToolRegistry};
use serde_json::Value;
use vstd::prelude::*;

verus! {

/// One round of a conversation as it went: what asking the backend came to,
/// and what the tools returned for the calls of the response, one outcome for
/// each call that was run.
pub struct Round {
    pub response: Result<Seq<ContentModel>, ErrorModel>,
    pub outcomes: Seq<Result<Value, Seq<char>>>,
}

/// Where a conversation stands: still running, in a state; or ended, with its
/// answer or its failure.
pub enum Progress {
    Running(LoopModel),
    Ended(Result<Seq<char>, ErrorModel>),
}

/// Where a conversation stands after some rounds, with the number of times the
/// backend was asked and the number of tools that were run.
pub struct Trace {
    pub progress: Progress,
    pub completions: nat,
    pub executions: nat,
}

/// The number of tools that are run for the calls of a round: every call up to
/// the first that cannot be served or whose tool fails, the failing tool
/// included.
pub open spec fn executed(
    entries: Seq<EntryModel>,
    allowed: Option<Seq<Seq<char>>>,
    calls: Seq<ToolCallModel>,
    outcomes: Seq<Result<Value, Seq<char>>>,
) -> nat
    decreases calls.len(),
{
    if calls.len() == 0 {
        0
    } else {
        let before = executed(entries, allowed, calls.drop_last(), outcomes.drop_last());
        if dispatched(entries, allowed, calls.drop_last(), outcomes.drop_last()) is Ok && offers(
            entries,
            allowed,
            calls.last().name,
        ) {
            before + 1
        } else {
            before
        }
    }
}

/// Where a running conversation stands after one more round.
pub open spec fn after_round(
    entries: Seq<EntryModel>,
    max_steps: Option<usize>,
    allowed: Option<Seq<Seq<char>>>,
    state: LoopModel,
    round: Round,
) -> Progress {
    match turn_of(state, max_steps, round.response) {
        TurnModel::Finished(text) => Progress::Ended(Ok(text)),
        TurnModel::Failed(e) => Progress::Ended(Err(e)),
        TurnModel::CallTools(calls) => match after_tools(
            after_response(state, max_steps, round.response),
            dispatched(entries, allowed, calls, round.outcomes),
        ) {
            Ok(next) => Progress::Running(next),
            Err(e) => Progress::Ended(Err(e)),
        },
    }
}

/// The number of tools that one more round of a running conversation runs.
pub open spec fn round_executions(
    entries: Seq<EntryModel>,
    max_steps: Option<usize>,
    allowed: Option<Seq<Seq<char>>>,
    state: LoopModel,
    round: Round,
) -> nat {
    match turn_of(state, max_steps, round.response) {
        TurnModel::CallTools(calls) => executed(entries, allowed, calls, round.outcomes),
        TurnModel::Finished(_) => 0,
        TurnModel::Failed(_) => 0,
    }
}

/// Where a conversation stands after the given rounds, from the given state.
/// Rounds after its end do not happen: they change nothing and count nothing.
pub open spec fn replay(
    entries: Seq<EntryModel>,
    max_steps: Option<usize>,
    allowed: Option<Seq<Seq<char>>>,
    start: LoopModel,
    rounds: Seq<Round>,
) -> Trace
    decreases rounds.len(),
{
    if rounds.len() == 0 {
        Trace { progress: Progress::Running(start), completions: 0, executions: 0 }
    } else {
        let before = replay(entries, max_steps, allowed, start, rounds.drop_last());
        match before.progress {
            Progress::Ended(_) => before,
            Progress::Running(state) => Trace {
                progress: after_round(entries, max_steps, allowed, state, rounds.last()),
                completions: before.completions + 1,
                executions: before.executions + round_executions(
                    entries,
                    max_steps,
                    allowed,
                    state,
                    rounds.last(),
                ),
            },
        }
    }
}

/// Whether the round is a response with exactly one tool call, whose tool is
/// offered and returns a value.
pub open spec fn calls_one_tool(
    entries: Seq<EntryModel>,
    allowed: Option<Seq<Seq<char>>>,
    round: Round,
) -> bool {
    &&& round.response matches Ok(content) && calls_of(content).len() == 1 && offers(
        entries,
        allowed,
        calls_of(content)[0].name,
    )
    &&& round.outcomes.len() == 1
    &&& round.outcomes[0] is Ok
}

/// The results of a round that went well answer its calls: there is one result
/// for each call, in the order of the calls, each under the id and the name of
/// its call.
pub proof fn lemma_results_answer_calls(
    entries: Seq<EntryModel>,
    allowed: Option<Seq<Seq<char>>>,
    calls: Seq<ToolCallModel>,
    outcomes: Seq<Result<Value, Seq<char>>>,
)
    requires
        dispatched(entries, allowed, calls, outcomes) is Ok,
    ensures
        answers(dispatched(entries, allowed, calls, outcomes)->Ok_0, calls),
    decreases calls.len(),
{
    if calls.len() > 0 {
        lemma_results_answer_calls(entries, allowed, calls.drop_last(), outcomes.drop_last());
        let done = dispatched(entries, allowed, calls.drop_last(), outcomes.drop_last())->Ok_0;
        let results = dispatched(entries, allowed, calls, outcomes)->Ok_0;
        assert forall|i: int| 0 <= i < calls.len() implies (
        #[trigger] results[i] matches ContentModel::ToolResult(r) && r.id == calls[i].id && r.name
            == calls[i].name) by {
            if i < calls.len() - 1 {
                assert(results[i] == done[i]);
                assert(calls.drop_last()[i] == calls[i]);
            }
        }
    }
}

/// Recording the results of a round with `k` calls adds exactly one message,
/// of the user, whose content is the `k` results in the order of the calls.
pub proof fn lemma_round_adds_one_message(
    state: LoopModel,
    entries: Seq<EntryModel>,
    allowed: Option<Seq<Seq<char>>>,
    calls: Seq<ToolCallModel>,
    outcomes: Seq<Result<Value, Seq<char>>>,
)
    requires
        calls.len() > 0,
        dispatched(entries, allowed, calls, outcomes) is Ok,
    ensures
        after_tools(state, dispatched(entries, allowed, calls, outcomes)) matches Ok(next)
            && next.steps == state.steps && next.history.len() == state.history.len() + 1
            && next.history.drop_last() == state.history && next.history.last().role
            == Role::User && next.history.last().content.len() == calls.len() && answers(
            next.history.last().content,
            calls,
        ),
{
    lemma_results_answer_calls(entries, allowed, calls, outcomes);
    let results = dispatched(entries, allowed, calls, outcomes)->Ok_0;
    assert(state.history.push(MessageModel { role: Role::User, content: results }).drop_last()
        =~= state.history);
}

/// A response without tool calls ends the conversation in the round in which
/// it comes, with its texts joined by newlines, provided it has a text. The
/// backend was asked once in that round, and no tool was run.
pub proof fn lemma_answer_without_tools(
    entries: Seq<EntryModel>,
    max_steps: Option<usize>,
    allowed: Option<Seq<Seq<char>>>,
    start: LoopModel,
    round: Round,
)
    requires
        round.response matches Ok(content) && calls_of(content).len() == 0 && texts_of(
            content,
        ).len() > 0,
    ensures
        replay(entries, max_steps, allowed, start, seq![round]) == (Trace {
            progress: Progress::Ended(Ok(joined(texts_of(round.response->Ok_0), "\n"@))),
            completions: 1,
            executions: 0,
        }),
{
    let rounds = seq![round];
    assert(rounds.drop_last() =~= Seq::<Round>::empty());
    assert(rounds.last() == round);
    assert(replay(entries, max_steps, allowed, start, rounds.drop_last()) == (Trace {
        progress: Progress::Running(start),
        completions: 0,
        executions: 0,
    }));
}

/// While every response carries exactly one tool call that is served, and the
/// step bound `n` is not used up, the conversation runs: after `k <= n` rounds
/// the backend was asked `k` times and `k` tools were run.
pub proof fn lemma_rounds_within_bound(
    entries: Seq<EntryModel>,
    n: usize,
    allowed: Option<Seq<Seq<char>>>,
    start: LoopModel,
    rounds: Seq<Round>,
)
    requires
        start.steps == 0,
        rounds.len() <= n,
        forall|i: int| 0 <= i < rounds.len() ==> calls_one_tool(entries, allowed, #[trigger] rounds[i]),
    ensures
        replay(entries, Some(n), allowed, start, rounds).progress matches Progress::Running(state)
            && state.steps == rounds.len(),
        replay(entries, Some(n), allowed, start, rounds).completions == rounds.len(),
        replay(entries, Some(n), allowed, start, rounds).executions == rounds.len(),
    decreases rounds.len(),
{
    if rounds.len() > 0 {
        let earlier = rounds.drop_last();
        assert forall|i: int| 0 <= i < earlier.len() implies calls_one_tool(
            entries,
            allowed,
            #[trigger] earlier[i],
        ) by {
            assert(earlier[i] == rounds[i]);
        }
        lemma_rounds_within_bound(entries, n, allowed, start, earlier);
        let round = rounds.last();
        assert(calls_one_tool(entries, allowed, rounds[rounds.len() - 1]));
        lemma_one_call_round(entries, allowed, round);
    }
}

/// A round with exactly one tool call that is served runs one tool and has
/// one result.
pub proof fn lemma_one_call_round(
    entries: Seq<EntryModel>,
    allowed: Option<Seq<Seq<char>>>,
    round: Round,
)
    requires
        calls_one_tool(entries, allowed, round),
    ensures
        executed(entries, allowed, calls_of(round.response->Ok_0), round.outcomes) == 1,
        dispatched(entries, allowed, calls_of(round.response->Ok_0), round.outcomes) matches Ok(
            results,
        ) && results.len() == 1,
{
    let calls = calls_of(round.response->Ok_0);
    assert(calls.drop_last() =~= Seq::<ToolCallModel>::empty());
    assert(calls.last() == calls[0]);
    assert(round.outcomes.last() == round.outcomes[0]);
    assert(dispatched(entries, allowed, calls.drop_last(), round.outcomes.drop_last()) == Ok::<
        Seq<ContentModel>,
        ErrorModel,
    >(Seq::empty()));
    assert(executed(entries, allowed, calls.drop_last(), round.outcomes.drop_last()) == 0);
}

/// A conversation that has ended stays as it is.
pub proof fn lemma_ended_stays(
    entries: Seq<EntryModel>,
    max_steps: Option<usize>,
    allowed: Option<Seq<Seq<char>>>,
    start: LoopModel,
    rounds: Seq<Round>,
    n: int,
)
    requires
        0 <= n <= rounds.len(),
        replay(entries, max_steps, allowed, start, rounds.take(n)).progress is Ended,
    ensures
        replay(entries, max_steps, allowed, start, rounds) == replay(
            entries,
            max_steps,
            allowed,
            start,
            rounds.take(n),
        ),
    decreases rounds.len() - n,
{
    if n == rounds.len() {
        assert(rounds.take(n) =~= rounds);
    } else {
        assert(rounds.take(n + 1).drop_last() =~= rounds.take(n));
        lemma_ended_stays(entries, max_steps, allowed, start, rounds, n + 1);
    }
}

/// With the step bound `n`, a backend that answers every request with exactly
/// one tool call, which is served, is asked `n + 1` times, and `n` tools are
/// run, before the conversation fails because the bound is exceeded. Further
/// rounds do not happen.
pub proof fn lemma_step_bound_is_exact(
    entries: Seq<EntryModel>,
    n: usize,
    allowed: Option<Seq<Seq<char>>>,
    start: LoopModel,
    rounds: Seq<Round>,
)
    requires
        start.steps == 0,
        rounds.len() > n,
        forall|i: int| 0 <= i < rounds.len() ==> calls_one_tool(entries, allowed, #[trigger] rounds[i]),
    ensures
        replay(entries, Some(n), allowed, start, rounds) == (Trace {
            progress: Progress::Ended(Err(ErrorModel::StepLimitExceeded { limit: n })),
            completions: (n + 1) as nat,
            executions: n as nat,
        }),
{
    let first = rounds.take(n + 1);
    let earlier = first.drop_last();
    assert forall|i: int| 0 <= i < earlier.len() implies calls_one_tool(
        entries,
        allowed,
        #[trigger] earlier[i],
    ) by {
        assert(earlier[i] == rounds[i]);
    }
    lemma_rounds_within_bound(entries, n, allowed, start, earlier);
    assert(first.last() == rounds[n as int]);
    assert(calls_one_tool(entries, allowed, rounds[n as int]));
    lemma_ended_stays(entries, Some(n), allowed, start, rounds, n + 1);
}

/// A conversation that is still running has called tools in every round so
/// far: its rounds are counted one by one, the backend was asked once in each,
/// and the count is within the step bound.
pub proof fn lemma_running_counts(
    entries: Seq<EntryModel>,
    max_steps: Option<usize>,
    allowed: Option<Seq<Seq<char>>>,
    start: LoopModel,
    rounds: Seq<Round>,
)
    requires
        replay(entries, max_steps, allowed, start, rounds).progress is Running,
    ensures
        replay(entries, max_steps, allowed, start, rounds).progress->Running_0.steps
            == start.steps + rounds.len(),
        replay(entries, max_steps, allowed, start, rounds).completions == rounds.len(),
        rounds.len() > 0 ==> match max_steps {
            Some(limit) => start.steps + rounds.len() <= limit,
            None => true,
        },
    decreases rounds.len(),
{
    if rounds.len() > 0 {
        lemma_running_counts(entries, max_steps, allowed, start, rounds.drop_last());
    }
}

/// A step bound ends every conversation, whatever the backend and the tools
/// answer: from a state with `steps` rounds counted, it has ended after one
/// round more than the bound leaves open.
pub proof fn lemma_bound_ends_conversation(
    entries: Seq<EntryModel>,
    limit: usize,
    allowed: Option<Seq<Seq<char>>>,
    start: LoopModel,
    rounds: Seq<Round>,
)
    requires
        rounds.len() > 0,
        start.steps + rounds.len() > limit,
    ensures
        replay(entries, Some(limit), allowed, start, rounds).progress is Ended,
{
    if replay(entries, Some(limit), allowed, start, rounds).progress is Running {
        lemma_running_counts(entries, Some(limit), allowed, start, rounds);
    }
}

/// A completion backend: one request, one response. The library makes no
/// assumption about what an implementation returns.
pub trait CompletionModel {
    /// The payload of the backend's own that comes with each response.
    type Response;

    /// Asks the backend once.
    fn completion(&self, request: CompletionRequest) -> Result<
        CompletionResponse<Self::Response>,
        CompletionError,
    >;
}

/// How far a conversation has come.
pub enum Advance {
    /// It has ended, with its answer or its failure.
    Done(Result<String, CompletionError>),
    /// It has not ended within the rounds that were granted.
    Paused(ToolLoop),
}

/// Whether `r` is where the trace stands.
pub open spec fn stands_at(r: Advance, trace: Trace) -> bool {
    match r {
        Advance::Done(Ok(text)) => trace.progress == Progress::Ended(Ok(text@)),
        Advance::Done(Err(e)) => trace.progress == Progress::Ended(Err(e@)),
        Advance::Paused(state) => trace.progress == Progress::Running(state.model()),
    }
}

/// Whether `r` is how far a conversation has come that started in the given
/// state and was granted the given number of rounds: `r` is where the
/// conversation stands after some rounds, one request to the backend in each;
/// after all rounds that were granted where it has not ended.
pub open spec fn ran(
    r: Advance,
    entries: Seq<EntryModel>,
    max_steps: Option<usize>,
    allowed: Option<Seq<Seq<char>>>,
    start: LoopModel,
    rounds: nat,
) -> bool {
    exists|script: Seq<Round>|
        script.len() <= rounds && (r is Paused ==> script.len() == rounds) && stands_at(
            r,
            #[trigger] replay(entries, max_steps, allowed, start, script),
        ) && replay(entries, max_steps, allowed, start, script).completions == script.len()
}

/// Runs a conversation against a backend for at most the given number of
/// rounds.
///
/// Each round asks the backend once with the messages so far and the tools
/// that the configuration allows, and then does what the response calls for.
/// The conversation ends with the first response without a tool call, or with
/// the first failure. With a step bound it ends within one round more than the
/// bound leaves open.
pub fn run_rounds<M: CompletionModel, T: Tool, O: ToolLoopObserver>(
    state: ToolLoop,
    model: &M,
    registry: &ToolRegistry<T>,
    config: &ToolLoopConfig,
    observer: &O,
    rounds: usize,
) -> (r: Advance)
    ensures
        ran(
            r,
            registry.model(),
            config.max_steps,
            allow_list(config.allowed_tools),
            state.model(),
            rounds as nat,
        ),
        match config.max_steps {
            Some(limit) => rounds > 0 && state.model().steps + rounds > limit ==> r is Done,
            None => true,
        },
{
    let tools = registry.definitions(&config.allowed_tools);
    let ghost entries = registry.model();
    let ghost allowed = allow_list(config.allowed_tools);
    let ghost start = state.model();
    let ghost mut script: Seq<Round> = Seq::empty();
    let mut current = state;
    let mut i: usize = 0;
    while i < rounds
        invariant
            i <= rounds,
            entries == registry.model(),
            allowed == allow_list(config.allowed_tools),
            start == state.model(),
            script.len() == i,
            replay(entries, config.max_steps, allowed, start, script).progress
                == Progress::Running(current.model()),
            replay(entries, config.max_steps, allowed, start, script).completions == i,
            current.model().steps == start.steps + i,
            i > 0 ==> match config.max_steps {
                Some(limit) => current.model().steps <= limit,
                None => true,
            },
        decreases rounds - i,
    {
        observer.round_started(i);
        let request = current.request(config, &tools);
        let outcome = match model.completion(request) {
            Ok(response) => Ok(response.content),
            Err(e) => Err(e),
        };
        let ghost response = outcome_model(outcome);
        let (next, turn) = current.receive(config, outcome);
        match turn {
            Turn::Finished(text) => {
                proof {
                    let round = Round { response, outcomes: Seq::empty() };
                    assert(script.push(round).drop_last() =~= script);
                    script = script.push(round);
                }
                return Advance::Done(Ok(text));
            },
            Turn::Failed(e) => {
                proof {
                    let round = Round { response, outcomes: Seq::empty() };
                    assert(script.push(round).drop_last() =~= script);
                    script = script.push(round);
                }
                return Advance::Done(Err(e));
            },
            Turn::CallTools(calls) => {
                let ghost called = next.model();
                let after = next.run_tools(registry, config, &calls, observer);
                proof {
                    let outcomes = choose|outcomes: Seq<Result<Value, Seq<char>>>|
                        outcomes.len() == calls.len() && super::tool_loop::step_model(after)
                            == after_tools(
                            called,
                            #[trigger] dispatched(entries, allowed, call_models(calls@), outcomes),
                        );
                    let round = Round { response, outcomes };
                    assert(script.push(round).drop_last() =~= script);
                    script = script.push(round);
                }
                match after {
                    Ok(recorded) => {
                        current = recorded;
                    },
                    Err(e) => {
                        return Advance::Done(Err(e));
                    },
                }
            },
        }
        observer.round_completed(i);
        i += 1;
    }
    Advance::Paused(current)
}

/// Runs the tool loop on a prompt: a conversation whose only message is the
/// given text of the user, for at most the given number of rounds.
pub fn run_tool_loop<M: CompletionModel, T: Tool>(
    model: &M,
    prompt: &str,
    registry: &ToolRegistry<T>,
    config: &ToolLoopConfig,
    rounds: usize,
) -> (r: Advance)
    ensures
        ran(
            r,
            registry.model(),
            config.max_steps,
            allow_list(config.allowed_tools),
            super::prompt_start(prompt@),
            rounds as nat,
        ),
        match config.max_steps {
            Some(limit) => rounds > limit ==> r is Done,
            None => true,
        },
{
    let start = super::start_loop(prompt);
    run_rounds(start, model, registry, config, &Unobserved, rounds)
}

/// Runs the tool loop on earlier messages, for at most the given number of
/// rounds, and tells the observer of each round and of each tool that is run.
pub fn run_tool_loop_with_history_and_observer<
    M: CompletionModel,
    T: Tool,
    O: ToolLoopObserver,
>(
    model: &M,
    chat_history: Vec<Message>,
    registry: &ToolRegistry<T>,
    config: &ToolLoopConfig,
    observer: &O,
    rounds: usize,
) -> (r: Advance)
    ensures
        ran(
            r,
            registry.model(),
            config.max_steps,
            allow_list(config.allowed_tools),
            LoopModel { history: messages(chat_history@), steps: 0 },
            rounds as nat,
        ),
        match config.max_steps {
            Some(limit) => rounds > limit ==> r is Done,
            None => true,
        },
{
    let start = ToolLoop::start(chat_history);
    run_rounds(start, model, registry, config, observer, rounds)
}

} // verus!
