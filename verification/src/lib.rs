//! The core of agent orchestration: the bounded tool-calling loop and its
//! message protocol, agent profiles with the router that picks one for a
//! request, and the decisions of an agent that runs as a node of a workflow
//! graph. Beside it stand commit anchors and the shortlog report.
//!
//! Every function is verified against a contract over plain values: texts are
//! sequences of characters, and each data type has a model. What reaches
//! outside, such as awaiting a backend, reading files or channels, is left to
//! the caller, which hands the library what came back.

pub mod agent;
pub mod command;
pub mod completion;
pub mod node_adapter;
pub mod text;
pub mod tools;
pub mod util;
