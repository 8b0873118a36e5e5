use libra::agent::profile::embedded::{ARCHITECT, BUILD_ERROR_RESOLVER, CODE_REVIEWER, PLANNER};
use libra::agent::profile::parser::{parse_agent_profile, parse_string_list};

const SAMPLE_AGENT: &str = r#"---
name: planner
description: Implementation planning specialist
tools: ["read_file", "list_dir", "grep_files"]
model: default
---

You are an implementation planner.

## Planning Process

1. Understand requirements
2. Explore codebase
"#;

#[test]
fn test_parse_agent_profile() {
    let def = parse_agent_profile(SAMPLE_AGENT).unwrap();
    assert_eq!(def.name, "planner");
    assert_eq!(def.description, "Implementation planning specialist");
    assert_eq!(def.tools, vec!["read_file", "list_dir", "grep_files"]);
    assert_eq!(def.model_preference, "default");
    assert!(def.system_prompt.contains("implementation planner"));
}

#[test]
fn test_parse_no_frontmatter() {
    assert!(parse_agent_profile("No frontmatter here").is_none());
}

#[test]
fn test_parse_missing_name() {
    let content = "---\ndescription: test\n---\nbody";
    assert!(parse_agent_profile(content).is_none());
}

#[test]
fn test_parse_string_list() {
    assert_eq!(parse_string_list(r#"["a", "b", "c"]"#), vec!["a", "b", "c"]);
    assert_eq!(parse_string_list("[]"), Vec::<String>::new());
    assert_eq!(parse_string_list(r#"["single"]"#), vec!["single"]);
}

#[test]
fn test_parse_embedded_agents() {
    let def = parse_agent_profile(PLANNER).unwrap();
    assert_eq!(def.name, "planner");

    let def = parse_agent_profile(CODE_REVIEWER).unwrap();
    assert_eq!(def.name, "code_reviewer");

    let def = parse_agent_profile(ARCHITECT).unwrap();
    assert_eq!(def.name, "architect");

    let def = parse_agent_profile(BUILD_ERROR_RESOLVER).unwrap();
    assert_eq!(def.name, "build_error_resolver");
}
