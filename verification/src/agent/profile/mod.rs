//! Agent profiles.
//!
//! A profile is a markdown document with a frontmatter block: a name, a
//! description, a list of tools, a model preference, and the system prompt that
//! follows the block. The router picks the profile that fits a request.
//!
//! Profiles come from three tiers: the project's own documents, the user's
//! documents, and the defaults that ship with the library.

use vstd::prelude::*;

pub mod embedded;
pub mod parser;
pub mod router;

use embedded::embedded_documents;
pub use parser::{parse_agent_profile, AgentProfile};
pub use router::{load_embedded_profiles, load_profiles, AgentProfileRouter};
use router::{merged, models, names_differ, parsed_each};
use crate::text::texts;

verus! {

/// The earlier name of `load_profiles`.
pub fn load_agents(project: &Vec<String>, user: &Vec<String>) -> (r: Vec<AgentProfile>)
    ensures
        models(r@) == merged(
            Seq::empty(),
            texts(project@) + texts(user@) + embedded_documents(),
        ),
        names_differ(models(r@)),
{
    load_profiles(project, user)
}

/// The earlier name of `load_embedded_profiles`.
pub fn load_embedded_agents() -> (r: Vec<AgentProfile>)
    ensures
        models(r@) == parsed_each(embedded_documents()),
{
    load_embedded_profiles()
}

} // verus!
