//! The runtime of an agent: the tool-calling loop and the agent that is
//! configured around it.

use crate::completion::{messages, ContentModel, Message, MessageModel, Role};
use crate::tools::{EntryModel, Tool, ToolRegistry};
use vstd::prelude::*;

pub mod conversation;
pub mod tool_loop;

use conversation::{ran, run_rounds, Advance, CompletionModel};
use tool_loop::{LoopModel, Unobserved};
pub use conversation::{run_tool_loop, run_tool_loop_with_history_and_observer};
pub use tool_loop::{ToolLoop, ToolLoopConfig, ToolLoopObserver};

verus! {

/// The step bound of an agent that was given no other.
pub const DEFAULT_MAX_STEPS: usize = 4;

/// A stateless agent: a backend, a preamble, a temperature, a step bound and a
/// set of tools. It keeps no conversation between calls: each call starts a
/// conversation of its own.
pub struct Agent<M, T> {
    model: M,
    preamble: Option<String>,
    temperature: Option<u64>,
    max_steps: Option<usize>,
    tools: ToolRegistry<T>,
}

/// The message of the user that holds the given text.
pub open spec fn user_text(text: Seq<char>) -> MessageModel {
    MessageModel { role: Role::User, content: seq![ContentModel::Text(text)] }
}

impl<M, T> Agent<M, T> {
    /// The backend of the agent.
    pub closed spec fn backend(&self) -> M {
        self.model
    }

    /// The system instruction, if there is one.
    pub closed spec fn preamble(&self) -> Option<Seq<char>> {
        crate::completion::optional_text(self.preamble)
    }

    /// The sampling temperature, if one is set, as the bits of a 64-bit float.
    pub closed spec fn temperature(&self) -> Option<u64> {
        self.temperature
    }

    /// The step bound, if there is one.
    pub closed spec fn max_steps(&self) -> Option<usize> {
        self.max_steps
    }

    /// The tools of the agent.
    pub closed spec fn registry(&self) -> Seq<EntryModel> {
        self.tools.model()
    }

    /// An agent around the given backend: no preamble, no temperature, no
    /// tools, and the step bound `DEFAULT_MAX_STEPS`.
    pub fn new(model: M) -> (r: Self)
        ensures
            r.backend() == model,
            r.preamble() is None,
            r.temperature() is None,
            r.max_steps() == Some(DEFAULT_MAX_STEPS),
            r.registry() == Seq::<EntryModel>::empty(),
    {
        Agent {
            model,
            preamble: None,
            temperature: None,
            max_steps: Some(DEFAULT_MAX_STEPS),
            tools: ToolRegistry::new(),
        }
    }

    /// The same agent with the given preamble.
    pub fn with_preamble(self, preamble: String) -> (r: Self)
        ensures
            r.preamble() == Some(preamble@),
            r.backend() == self.backend(),
            r.temperature() == self.temperature(),
            r.max_steps() == self.max_steps(),
            r.registry() == self.registry(),
    {
        Agent {
            model: self.model,
            preamble: Some(preamble),
            temperature: self.temperature,
            max_steps: self.max_steps,
            tools: self.tools,
        }
    }

    /// The same agent with the given temperature.
    pub fn with_temperature(self, temperature: u64) -> (r: Self)
        ensures
            r.temperature() == Some(temperature),
            r.backend() == self.backend(),
            r.preamble() == self.preamble(),
            r.max_steps() == self.max_steps(),
            r.registry() == self.registry(),
    {
        Agent {
            model: self.model,
            preamble: self.preamble,
            temperature: Some(temperature),
            max_steps: self.max_steps,
            tools: self.tools,
        }
    }

    /// The same agent with the given step bound, or with none.
    pub fn with_max_steps(self, max_steps: Option<usize>) -> (r: Self)
        ensures
            r.max_steps() == max_steps,
            r.backend() == self.backend(),
            r.preamble() == self.preamble(),
            r.temperature() == self.temperature(),
            r.registry() == self.registry(),
    {
        Agent {
            model: self.model,
            preamble: self.preamble,
            temperature: self.temperature,
            max_steps,
            tools: self.tools,
        }
    }

    /// The same agent with the given tools.
    pub fn with_tools(self, tools: ToolRegistry<T>) -> (r: Self)
        ensures
            r.registry() == tools.model(),
            r.backend() == self.backend(),
            r.preamble() == self.preamble(),
            r.temperature() == self.temperature(),
            r.max_steps() == self.max_steps(),
    {
        Agent {
            model: self.model,
            preamble: self.preamble,
            temperature: self.temperature,
            max_steps: self.max_steps,
            tools,
        }
    }

    /// The backend of the agent.
    pub fn model(&self) -> (r: &M)
        ensures
            *r == self.backend(),
    {
        &self.model
    }

    /// The tools of the agent.
    pub fn tools(&self) -> (r: &ToolRegistry<T>)
        ensures
            r.model() == self.registry(),
    {
        &self.tools
    }

    /// How the agent runs a loop: with its preamble, temperature and step
    /// bound, and with all of its tools.
    pub fn config(&self) -> (r: ToolLoopConfig)
        ensures
            crate::completion::optional_text(r.preamble) == self.preamble(),
            r.temperature == self.temperature(),
            r.max_steps == self.max_steps(),
            r.allowed_tools is None,
    {
        let preamble = match &self.preamble {
            Some(p) => Some(p.clone()),
            None => None,
        };
        ToolLoopConfig {
            preamble,
            temperature: self.temperature,
            max_steps: self.max_steps,
            allowed_tools: None,
        }
    }

    /// Starts a conversation whose only message is the given text of the user.
    pub fn start_prompt(&self, text: &str) -> (r: ToolLoop)
        ensures
            r.model() == prompt_start(text@),
    {
        start_loop(text)
    }

    /// Starts a conversation from earlier messages, followed by the given text
    /// of the user.
    pub fn start_chat(&self, text: &str, chat_history: Vec<Message>) -> (r: ToolLoop)
        ensures
            r.model() == chat_start(text@, messages(chat_history@)),
    {
        let ghost before = messages(chat_history@);
        let mut history = chat_history;
        let m = Message::user(text);
        history.push(m);
        proof {
            assert(messages(history@) =~= before.push(user_text(text@)));
        }
        ToolLoop::start(history)
    }
}

/// The state in which a conversation on a single text of the user starts.
pub open spec fn prompt_start(text: Seq<char>) -> LoopModel {
    LoopModel { history: seq![user_text(text)], steps: 0 }
}

/// The state in which a conversation starts that continues earlier messages
/// with a text of the user.
pub open spec fn chat_start(text: Seq<char>, earlier: Seq<MessageModel>) -> LoopModel {
    LoopModel { history: earlier.push(user_text(text)), steps: 0 }
}

/// Starts a conversation whose only message is the given text of the user.
pub fn start_loop(prompt: &str) -> (r: ToolLoop)
    ensures
        r.model() == prompt_start(prompt@),
{
    let mut history: Vec<Message> = Vec::new();
    let m = Message::user(prompt);
    history.push(m);
    proof {
        assert(messages(history@) =~= prompt_start(prompt@).history);
    }
    ToolLoop::start(history)
}

impl<M: CompletionModel, T: Tool> Agent<M, T> {
    /// Answers a text of the user: runs a conversation of its own against the
    /// backend of the agent, with all of its tools, for at most the given
    /// number of rounds. The agent keeps nothing of the conversation.
    ///
    /// With a step bound, one round more than the bound always ends the
    /// conversation.
    pub fn prompt(&self, text: &str, rounds: usize) -> (r: Advance)
        ensures
            ran(r, self.registry(), self.max_steps(), None, prompt_start(text@), rounds as nat),
            match self.max_steps() {
                Some(limit) => rounds > limit ==> r is Done,
                None => true,
            },
    {
        let start = self.start_prompt(text);
        let config = self.config();
        run_rounds(start, &self.model, &self.tools, &config, &Unobserved, rounds)
    }

    /// Answers a text of the user that continues earlier messages, which the
    /// caller keeps and hands in.
    pub fn chat(&self, text: &str, chat_history: Vec<Message>, rounds: usize) -> (r: Advance)
        ensures
            ran(
                r,
                self.registry(),
                self.max_steps(),
                None,
                chat_start(text@, messages(chat_history@)),
                rounds as nat,
            ),
            match self.max_steps() {
                Some(limit) => rounds > limit ==> r is Done,
                None => true,
            },
    {
        let start = self.start_chat(text, chat_history);
        let config = self.config();
        run_rounds(start, &self.model, &self.tools, &config, &Unobserved, rounds)
    }
}

} // verus!
