//! Agents as nodes of a workflow graph.
//!
//! A node reads what its upstream nodes delivered, in the order in which the
//! scheduler names them, joins the texts into one prompt, runs an agent or a
//! tool loop on it, and hands the answer to every downstream node. Reading from
//! the channels and broadcasting are the caller's part; what to make of each
//! delivery and of the answer is decided here.

use crate::agent::runtime::conversation::{ran, run_tool_loop, Advance, CompletionModel};
use crate::agent::runtime::tool_loop::{ToolLoop, ToolLoopConfig};
use crate::agent::runtime::{prompt_start, start_loop, Agent};
use crate::completion::{described, CompletionError, ErrorModel};
use crate::text::{join, joined, texts};
use crate::tools::{allow_list, EntryModel, Tool, ToolRegistry};
use vstd::prelude::*;
use vstd::string::StringExecFns;

verus! {

/// What stands between the texts of two upstream nodes in the prompt: a blank
/// line.
pub const PROMPT_SEPARATOR: &'static str = "\n\n";

/// What one upstream node delivered.
#[derive(Debug)]
pub enum Upstream {
    /// A text.
    Text(String),
    /// A value that is no text. It adds nothing to the prompt.
    Other,
    /// Nothing: receiving from the node failed.
    Failed { sender: String, cause: String },
}

/// A delivery as plain values.
pub enum UpstreamModel {
    Text(Seq<char>),
    Other,
    Failed { sender: Seq<char>, cause: Seq<char> },
}

impl View for Upstream {
    type V = UpstreamModel;

    open spec fn view(&self) -> UpstreamModel {
        match self {
            Upstream::Text(t) => UpstreamModel::Text(t@),
            Upstream::Other => UpstreamModel::Other,
            Upstream::Failed { sender, cause } => UpstreamModel::Failed {
                sender: sender@,
                cause: cause@,
            },
        }
    }
}

impl Clone for Upstream {
    fn clone(&self) -> (r: Self)
        ensures
            r@ == self@,
    {
        match self {
            Upstream::Text(t) => Upstream::Text(t.clone()),
            Upstream::Other => Upstream::Other,
            Upstream::Failed { sender, cause } => Upstream::Failed {
                sender: sender.clone(),
                cause: cause.clone(),
            },
        }
    }
}

/// The deliveries as plain values, in order.
pub open spec fn deliveries(items: Seq<Upstream>) -> Seq<UpstreamModel> {
    Seq::new(items.len(), |i: int| items[i]@)
}

/// The message for a delivery that failed.
pub open spec fn receive_failure(sender: Seq<char>, cause: Seq<char>) -> Seq<char> {
    "Failed to receive input from upstream "@ + sender + ": "@ + cause
}

/// The texts collected so far, after one more delivery; or the failure that
/// ends the node.
pub open spec fn accepted(so_far: Seq<Seq<char>>, delivery: UpstreamModel) -> Result<
    Seq<Seq<char>>,
    Seq<char>,
> {
    match delivery {
        UpstreamModel::Text(t) => Ok(so_far.push(t)),
        UpstreamModel::Other => Ok(so_far),
        UpstreamModel::Failed { sender, cause } => Err(receive_failure(sender, cause)),
    }
}

/// The texts of the deliveries, in order; or the failure of the first delivery
/// that failed.
pub open spec fn gathered(items: Seq<UpstreamModel>) -> Result<Seq<Seq<char>>, Seq<char>>
    decreases items.len(),
{
    if items.len() == 0 {
        Ok(Seq::empty())
    } else {
        match gathered(items.drop_last()) {
            Ok(so_far) => accepted(so_far, items.last()),
            Err(m) => Err(m),
        }
    }
}

/// The prompt of a node: the texts of its deliveries, a blank line between each
/// two; or the failure of the first delivery that failed.
pub open spec fn prompt_of(items: Seq<UpstreamModel>) -> Result<Seq<char>, Seq<char>> {
    match gathered(items) {
        Ok(parts) => Ok(joined(parts, PROMPT_SEPARATOR@)),
        Err(m) => Err(m),
    }
}

/// Joins the texts of the upstream nodes into one prompt.
pub fn assemble_prompt(inputs: &Vec<String>) -> (r: String)
    ensures
        r@ == joined(texts(inputs@), PROMPT_SEPARATOR@),
{
    join(inputs, PROMPT_SEPARATOR)
}

/// The texts that a node has collected from its upstream nodes.
pub struct Gathering {
    parts: Vec<String>,
}

impl Gathering {
    /// The texts collected so far, in order.
    pub closed spec fn collected(&self) -> Seq<Seq<char>> {
        texts(self.parts@)
    }

    /// Nothing collected yet.
    pub fn new() -> (r: Self)
        ensures
            r.collected() == Seq::<Seq<char>>::empty(),
    {
        let r = Gathering { parts: Vec::new() };
        proof {
            assert(r.collected() =~= Seq::<Seq<char>>::empty());
        }
        r
    }

    /// Takes the next delivery. A text is kept; a value that is no text is
    /// passed over; a failed delivery ends the node with its message.
    pub fn accept(self, delivery: Upstream) -> (r: Result<Gathering, String>)
        ensures
            match r {
                Ok(g) => accepted(self.collected(), delivery@) == Ok::<
                    Seq<Seq<char>>,
                    Seq<char>,
                >(g.collected()),
                Err(m) => accepted(self.collected(), delivery@) == Err::<
                    Seq<Seq<char>>,
                    Seq<char>,
                >(m@),
            },
    {
        match delivery {
            Upstream::Text(t) => {
                let ghost before = texts(self.parts@);
                let mut parts = self.parts;
                parts.push(t);
                proof {
                    assert(texts(parts@) =~= before.push(t@));
                }
                Ok(Gathering { parts })
            },
            Upstream::Other => Ok(self),
            Upstream::Failed { sender, cause } => {
                let mut m = "Failed to receive input from upstream ".to_owned();
                m.append(sender.as_str());
                m.append(": ");
                m.append(cause.as_str());
                Err(m)
            },
        }
    }

    /// Hands the collected texts to the caller, in order.
    pub fn into_texts(self) -> (r: Vec<String>)
        ensures
            texts(r@) == self.collected(),
    {
        self.parts
    }

    /// The prompt made of the collected texts.
    pub fn prompt(&self) -> (r: String)
        ensures
            r@ == joined(self.collected(), PROMPT_SEPARATOR@),
    {
        assemble_prompt(&self.parts)
    }
}

/// The prompt for the deliveries of all upstream nodes, in the scheduler's
/// order.
pub fn gather(items: &Vec<Upstream>) -> (r: Result<String, String>)
    ensures
        match r {
            Ok(p) => prompt_of(deliveries(items@)) == Ok::<Seq<char>, Seq<char>>(p@),
            Err(m) => prompt_of(deliveries(items@)) == Err::<Seq<char>, Seq<char>>(m@),
        },
{
    let mut g = Gathering::new();
    let ghost all = deliveries(items@);
    let mut i: usize = 0;
    proof {
        assert(all.take(0) =~= Seq::<UpstreamModel>::empty());
    }
    while i < items.len()
        invariant
            i <= items.len(),
            all == deliveries(items@),
            gathered(all.take(i as int)) == Ok::<Seq<Seq<char>>, Seq<char>>(g.collected()),
        decreases items.len() - i,
    {
        proof {
            assert(all.take(i + 1).drop_last() =~= all.take(i as int));
            assert(all.take(i + 1).last() == items@[i as int]@);
        }
        match g.accept(items[i].clone()) {
            Ok(next) => {
                g = next;
            },
            Err(m) => {
                proof {
                    lemma_failure_stays(all, i + 1);
                }
                return Err(m);
            },
        }
        i += 1;
    }
    proof {
        assert(all.take(items.len() as int) =~= all);
    }
    Ok(g.prompt())
}

/// Once a delivery has failed, later deliveries change nothing.
pub proof fn lemma_failure_stays(items: Seq<UpstreamModel>, n: int)
    requires
        0 <= n <= items.len(),
        gathered(items.take(n)) is Err,
    ensures
        gathered(items) == gathered(items.take(n)),
    decreases items.len() - n,
{
    if n == items.len() {
        assert(items.take(n) =~= items);
    } else {
        assert(items.take(n + 1).drop_last() =~= items.take(n));
        lemma_failure_stays(items, n + 1);
    }
}

/// What a node hands to the scheduler.
#[derive(Debug)]
pub enum NodeOutcome {
    /// The answer, which goes to every downstream node.
    Broadcast(String),
    /// The failure. Nothing is broadcast: downstream nodes receive no value.
    Failure(String),
}

/// A node's outcome as plain values.
pub enum NodeOutcomeModel {
    Broadcast(Seq<char>),
    Failure(Seq<char>),
}

impl View for NodeOutcome {
    type V = NodeOutcomeModel;

    open spec fn view(&self) -> NodeOutcomeModel {
        match self {
            NodeOutcome::Broadcast(t) => NodeOutcomeModel::Broadcast(t@),
            NodeOutcome::Failure(m) => NodeOutcomeModel::Failure(m@),
        }
    }
}

/// What a node makes of the end of its conversation: the answer is broadcast,
/// a failure is reported with its message.
pub open spec fn concluded(result: Result<Seq<char>, ErrorModel>) -> NodeOutcomeModel {
    match result {
        Ok(text) => NodeOutcomeModel::Broadcast(text),
        Err(e) => NodeOutcomeModel::Failure(described(e)),
    }
}

/// The end of a conversation, as plain values.
pub open spec fn result_model(result: Result<String, CompletionError>) -> Result<
    Seq<char>,
    ErrorModel,
> {
    match result {
        Ok(text) => Ok(text@),
        Err(e) => Err(e@),
    }
}

/// Decides what a node hands on when its conversation has ended.
pub fn conclude(result: Result<String, CompletionError>) -> (r: NodeOutcome)
    ensures
        r@ == concluded(result_model(result)),
{
    match result {
        Ok(text) => NodeOutcome::Broadcast(text),
        Err(e) => NodeOutcome::Failure(e.message()),
    }
}

/// A node that answers its prompt with an agent.
pub struct AgentAction<M, T> {
    agent: Agent<M, T>,
}

impl<M, T> AgentAction<M, T> {
    /// The agent of the node.
    pub closed spec fn wrapped(&self) -> Agent<M, T> {
        self.agent
    }

    /// A node around the given agent.
    pub fn new(agent: Agent<M, T>) -> (r: Self)
        ensures
            r.wrapped() == agent,
    {
        AgentAction { agent }
    }

    /// The agent of the node.
    pub fn agent(&self) -> (r: &Agent<M, T>)
        ensures
            *r == self.wrapped(),
    {
        &self.agent
    }

    /// Starts the node's conversation on the texts of its upstream nodes.
    pub fn start(&self, inputs: &Vec<String>) -> (r: ToolLoop)
        ensures
            r.model() == prompt_start(joined(texts(inputs@), PROMPT_SEPARATOR@)),
    {
        let prompt = assemble_prompt(inputs);
        self.agent.start_prompt(prompt.as_str())
    }
}

/// A node that answers its prompt with a tool loop of its own configuration.
pub struct ToolLoopAction<M, T> {
    model: M,
    registry: ToolRegistry<T>,
    config: ToolLoopConfig,
}

impl<M, T> ToolLoopAction<M, T> {
    /// The backend of the node.
    pub closed spec fn backend(&self) -> M {
        self.model
    }

    /// The tools of the node.
    pub closed spec fn tools(&self) -> Seq<EntryModel> {
        self.registry.model()
    }

    /// How the node runs its loop.
    pub closed spec fn settings(&self) -> ToolLoopConfig {
        self.config
    }

    /// A node with the given backend and tools. Its loop uses the given
    /// preamble, temperature and step bound, and may use every tool.
    pub fn new(
        model: M,
        registry: ToolRegistry<T>,
        preamble: Option<String>,
        temperature: Option<u64>,
        max_steps: Option<usize>,
    ) -> (r: Self)
        ensures
            r.backend() == model,
            r.tools() == registry.model(),
            r.settings().preamble == preamble,
            r.settings().temperature == temperature,
            r.settings().max_steps == max_steps,
            r.settings().allowed_tools is None,
    {
        ToolLoopAction {
            model,
            registry,
            config: ToolLoopConfig { preamble, temperature, max_steps, allowed_tools: None },
        }
    }

    /// The backend of the node.
    pub fn model(&self) -> (r: &M)
        ensures
            *r == self.backend(),
    {
        &self.model
    }

    /// The tools of the node.
    pub fn registry(&self) -> (r: &ToolRegistry<T>)
        ensures
            r.model() == self.tools(),
    {
        &self.registry
    }

    /// How the node runs its loop.
    pub fn config(&self) -> (r: &ToolLoopConfig)
        ensures
            *r == self.settings(),
    {
        &self.config
    }

    /// Starts the node's conversation on the texts of its upstream nodes.
    pub fn start(&self, inputs: &Vec<String>) -> (r: ToolLoop)
        ensures
            r.model() == prompt_start(joined(texts(inputs@), PROMPT_SEPARATOR@)),
    {
        let prompt = assemble_prompt(inputs);
        start_loop(prompt.as_str())
    }
}

/// How far a node has come.
pub enum NodeRun {
    /// The node has ended, with what it hands to the scheduler.
    Ended(NodeOutcome),
    /// The conversation of the node has not ended within the rounds that were
    /// granted.
    Paused(ToolLoop),
}

/// What a node makes of how far its conversation has come.
pub open spec fn node_progress(r: NodeRun, advance: Advance) -> bool {
    match advance {
        Advance::Done(result) => r matches NodeRun::Ended(outcome) && outcome@ == concluded(
            result_model(result),
        ),
        Advance::Paused(state) => r == NodeRun::Paused(state),
    }
}

/// What a node comes to that runs a conversation with the given tools and
/// bounds on the prompt of its deliveries.
///
/// A delivery that failed ends the node with that failure, before the backend
/// is asked. Otherwise the node hands on what its conversation came to within
/// the rounds that were granted.
pub open spec fn node_ran(
    r: NodeRun,
    items: Seq<UpstreamModel>,
    entries: Seq<EntryModel>,
    max_steps: Option<usize>,
    allowed: Option<Seq<Seq<char>>>,
    rounds: nat,
) -> bool {
    match prompt_of(items) {
        Err(message) => r matches NodeRun::Ended(outcome) && outcome@
            == NodeOutcomeModel::Failure(message),
        Ok(prompt) => exists|advance: Advance|
            #[trigger] node_progress(r, advance) && ran(
                advance,
                entries,
                max_steps,
                allowed,
                prompt_start(prompt),
                rounds,
            ),
    }
}

fn run_node<M: CompletionModel, T: Tool>(
    items: &Vec<Upstream>,
    model: &M,
    registry: &ToolRegistry<T>,
    config: &ToolLoopConfig,
    rounds: usize,
) -> (r: NodeRun)
    ensures
        node_ran(
            r,
            deliveries(items@),
            registry.model(),
            config.max_steps,
            allow_list(config.allowed_tools),
            rounds as nat,
        ),
{
    match gather(items) {
        Err(message) => NodeRun::Ended(NodeOutcome::Failure(message)),
        Ok(prompt) => {
            let advance = run_tool_loop(model, prompt.as_str(), registry, config, rounds);
            let ghost came = advance;
            let r = match advance {
                Advance::Done(result) => NodeRun::Ended(conclude(result)),
                Advance::Paused(state) => NodeRun::Paused(state),
            };
            proof {
                assert(node_progress(r, came));
            }
            r
        },
    }
}

impl<M: CompletionModel, T: Tool> AgentAction<M, T> {
    /// Runs the node on the deliveries of its upstream nodes, given in the
    /// scheduler's order, for at most the given number of rounds.
    pub fn run(&self, items: &Vec<Upstream>, rounds: usize) -> (r: NodeRun)
        ensures
            node_ran(
                r,
                deliveries(items@),
                self.wrapped().registry(),
                self.wrapped().max_steps(),
                None,
                rounds as nat,
            ),
    {
        let config = self.agent.config();
        run_node(items, self.agent.model(), self.agent.tools(), &config, rounds)
    }
}

impl<M: CompletionModel, T: Tool> ToolLoopAction<M, T> {
    /// Runs the node on the deliveries of its upstream nodes, given in the
    /// scheduler's order, for at most the given number of rounds.
    pub fn run(&self, items: &Vec<Upstream>, rounds: usize) -> (r: NodeRun)
        ensures
            node_ran(
                r,
                deliveries(items@),
                self.tools(),
                self.settings().max_steps,
                allow_list(self.settings().allowed_tools),
                rounds as nat,
            ),
    {
        run_node(items, &self.model, &self.registry, &self.config, rounds)
    }
}

} // verus!
