//! Agents: the runtime that drives a conversation, and declarative profiles
//! with the router that picks one for a request.

pub mod profile;
pub mod runtime;
