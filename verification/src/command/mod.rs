//! Commands of the surrounding tool, as far as they compute.

pub mod shortlog;
