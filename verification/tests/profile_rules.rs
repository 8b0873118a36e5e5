use libra::agent::profile::parser::{parse_agent_definition, parse_agent_profile, parse_string_list};
use libra::agent::profile::router::{
    accepts_profile_file, best_index, count_matches, extract_keywords, keyword, keywords_of,
    load_profiles, match_score, AgentProfileRouter, MAX_PROFILE_FILE_BYTES, MIN_MATCH_SCORE,
};
use libra::agent::profile::{load_agents, load_embedded_agents, AgentProfile};

fn profile(name: &str, description: &str) -> AgentProfile {
    AgentProfile {
        name: name.to_string(),
        description: description.to_string(),
        tools: vec![],
        model_preference: "default".to_string(),
        system_prompt: String::new(),
    }
}

#[test]
fn parsing_twice_gives_the_same_profile() {
    let doc = "---\nname: a\ndescription: d\ntools: [x, 'y', \"z\"]\nmodel: fast\n---\nprompt";
    let one = parse_agent_profile(doc).unwrap();
    let two = parse_agent_profile(doc).unwrap();
    assert_eq!(one.name, two.name);
    assert_eq!(one.description, two.description);
    assert_eq!(one.tools, two.tools);
    assert_eq!(one.model_preference, two.model_preference);
    assert_eq!(one.system_prompt, two.system_prompt);
    assert_eq!(one.tools, vec!["x", "y", "z"]);
    assert_eq!(one.model_preference, "fast");
    assert_eq!(one.system_prompt, "prompt");
    let copy = one.clone();
    assert_eq!(copy.tools, one.tools);
    assert_eq!(copy.name, "a");
}

#[test]
fn defaults_of_absent_fields() {
    let p = parse_agent_profile("---\nname: solo\n---").unwrap();
    assert_eq!(p.name, "solo");
    assert_eq!(p.description, "");
    assert_eq!(p.model_preference, "default");
    assert!(p.tools.is_empty());
    assert_eq!(p.system_prompt, "");
}

#[test]
fn documents_without_fences_or_name_hold_no_profile() {
    assert!(parse_agent_profile("").is_none());
    assert!(parse_agent_profile("name: x\n---\nbody").is_none());
    assert!(parse_agent_profile("---").is_none());
    assert!(parse_agent_profile("---\nname: x").is_none());
    assert!(parse_agent_profile("---\nname: x\n----\nbody").is_none());
    assert!(parse_agent_profile("----\nname: x\n---\nbody").is_none());
    assert!(parse_agent_profile("---\nNAME: x\n---\nbody").is_none());
    assert!(parse_agent_profile("---\ndescription: name: x\n---\nbody").is_none());
}

#[test]
fn fences_are_whole_lines() {
    let doc = "---\nname: a\ndescription: before --- after\n---\nbody --- more\n---\nend";
    let p = parse_agent_profile(doc).unwrap();
    assert_eq!(p.description, "before --- after");
    assert_eq!(p.system_prompt, "body --- more\n---\nend");
}

#[test]
fn surrounding_white_space_and_line_endings() {
    let doc = "\n\n  ---  \r\n  name:   spaced name  \r\nunknown: ignored\r\n\r\nmodel:m\r\n --- \r\n\r\n  body text \r\n\r\n";
    let p = parse_agent_profile(doc).unwrap();
    assert_eq!(p.name, "spaced name");
    assert_eq!(p.model_preference, "m");
    assert_eq!(p.system_prompt, "body text");
}

#[test]
fn later_fields_replace_earlier_ones() {
    let doc = "---\nname: first\nname: second\ntools: [a]\ntools: [b, c]\n---\n";
    let p = parse_agent_profile(doc).unwrap();
    assert_eq!(p.name, "second");
    assert_eq!(p.tools, vec!["b", "c"]);
}

#[test]
fn empty_name_is_a_name() {
    let p = parse_agent_profile("---\nname:\n---\nx").unwrap();
    assert_eq!(p.name, "");
}

#[test]
fn earlier_parser_name_agrees() {
    let doc = "---\nname: n\n---\nb";
    assert_eq!(
        parse_agent_definition(doc).unwrap().name,
        parse_agent_profile(doc).unwrap().name
    );
    assert!(parse_agent_definition("nothing").is_none());
}

#[test]
fn string_lists_leave_out_what_is_empty() {
    assert_eq!(parse_string_list("a, b"), vec!["a", "b"]);
    assert_eq!(parse_string_list("[a,,\"\", '' , b ,]"), vec!["a", "b"]);
    assert_eq!(parse_string_list("  [ \"x y\" ]  "), vec!["x y"]);
    assert_eq!(parse_string_list("[\"a\", 'b']"), vec!["a", "b"]);
    assert_eq!(parse_string_list(""), Vec::<String>::new());
    assert_eq!(parse_string_list("[[a]]"), vec!["[a]"]);
    assert_eq!(parse_string_list("\"\"q\"\""), vec!["q"]);
}

#[test]
fn keywords_are_lower_case_words_without_short_and_stop_words() {
    assert_eq!(
        extract_keywords("Reviews the Code for Quality, and security!"),
        vec!["reviews", "code", "quality", "security"]
    );
    assert_eq!(
        extract_keywords("decision-making: it is up to us"),
        vec!["decision", "making"]
    );
    assert_eq!(extract_keywords("plan plan PLAN"), vec!["plan", "plan", "plan"]);
    assert_eq!(extract_keywords(""), Vec::<String>::new());
    assert_eq!(extract_keywords("caf\u{e9} \u{e9}t\u{e9} \u{e9}a a1 \u{4e2d}"), vec![
        "caf\u{e9}",
        "\u{e9}t\u{e9}",
        "\u{e9}a",
        "\u{4e2d}"
    ]);
    assert_eq!(keywords_of("abc DEF"), vec!["abc", "DEF"]);
}

#[test]
fn keyword_rule() {
    assert!(keyword("plan"));
    assert!(keyword("out"));
    assert!(!keyword("up"));
    assert!(!keyword("the"));
    assert!(!keyword("between"));
    assert!(!keyword(""));
    assert!(!keyword("ab"));
    assert!(keyword("\u{e9}a"));
    assert!(!keyword("\u{e9}"));
}

#[test]
fn score_counts_distinct_keywords_in_the_input() {
    let keys = |v: &[&str]| v.iter().map(|s| s.to_string()).collect::<Vec<String>>();
    assert_eq!(count_matches("review the code", &keys(&["review", "code", "plan"])), 2);
    assert_eq!(count_matches("review the code", &keys(&["code", "code", "code"])), 1);
    assert_eq!(count_matches("planning", &keys(&["plan", "lan", "planning", "plans"])), 3);
    assert_eq!(count_matches("", &keys(&["a"])), 0);
    assert_eq!(count_matches("abc", &keys(&[])), 0);
    assert_eq!(
        match_score("review code", &profile("p", "Review review REVIEW code")),
        2
    );
}

#[test]
fn selection_by_scores() {
    assert_eq!(MIN_MATCH_SCORE, 2);
    assert_eq!(best_index(&vec![]), None);
    assert_eq!(best_index(&vec![0, 1, 1]), None);
    assert_eq!(best_index(&vec![1, 2, 1]), Some(1));
    assert_eq!(best_index(&vec![2, 2, 2]), Some(0));
    assert_eq!(best_index(&vec![2, 3, 3, 1]), Some(1));
    assert_eq!(best_index(&vec![0, 5, 7, 7, 6]), Some(2));
}

#[test]
fn a_profile_with_two_matches_is_selected() {
    let router = AgentProfileRouter::new(vec![
        profile("one", "database migration helper"),
        profile("two", "frontend styling helper"),
    ]);
    assert_eq!(
        router.select("write a DATABASE Migration").unwrap().name,
        "one"
    );
    assert!(router.select("database only").is_none());
    assert_eq!(
        router.select_lowered("frontend styling").unwrap().name,
        "two"
    );
    assert!(router.select_lowered("FRONTEND STYLING").is_none());
    assert_eq!(router.profiles().len(), 2);
    assert_eq!(router.profiles()[1].name, "two");
    assert_eq!(router.get("two").unwrap().description, "frontend styling helper");
}

#[test]
fn the_higher_score_wins_over_the_earlier_profile() {
    let router = AgentProfileRouter::new(vec![
        profile("two_words", "alpha beta"),
        profile("three_words", "alpha beta gamma"),
    ]);
    assert_eq!(router.select("alpha beta gamma").unwrap().name, "three_words");
    assert_eq!(router.select("alpha beta").unwrap().name, "two_words");
}

#[test]
fn first_of_several_profiles_of_a_name_is_found() {
    let router = AgentProfileRouter::new(vec![
        profile("twin", "first"),
        profile("other", "x"),
        profile("twin", "second"),
    ]);
    assert_eq!(router.get("twin").unwrap().description, "first");
    assert!(router.get("Twin").is_none());
}

#[test]
fn test_load_profiles_skips_oversized_files() {
    assert_eq!(MAX_PROFILE_FILE_BYTES, 1024 * 1024);
    assert!(accepts_profile_file("valid.md", 80));
    assert!(accepts_profile_file("valid.md", MAX_PROFILE_FILE_BYTES));
    assert!(!accepts_profile_file("oversized.md", MAX_PROFILE_FILE_BYTES + 1));
    assert!(!accepts_profile_file("notes.txt", 80));
    assert!(!accepts_profile_file("md", 80));
    assert!(!accepts_profile_file(".md", 80));
    assert!(!accepts_profile_file("readme.MD", 80));
    assert!(accepts_profile_file("a.b.md", 0));

    let valid =
        "---\nname: valid\ndescription: Valid planner\ntools: []\nmodel: default\n---\nbody";
    let profiles = load_profiles(&vec![valid.to_string()], &vec![]);
    let names: Vec<_> = profiles.iter().map(|p| p.name.as_str()).collect();
    assert!(names.contains(&"valid"));
    assert!(!names.contains(&"oversized"));
}

#[test]
fn test_load_profiles_with_project_override() {
    let custom =
        "---\nname: planner\ndescription: Custom planner\ntools: []\nmodel: fast\n---\nCustom body";
    let profiles = load_profiles(&vec![custom.to_string()], &vec![]);
    let planner = profiles.iter().find(|a| a.name == "planner").unwrap();
    assert_eq!(planner.description, "Custom planner");
    assert_eq!(planner.model_preference, "fast");
    assert_eq!(profiles.iter().filter(|a| a.name == "planner").count(), 1);
    assert_eq!(profiles.len(), 4);
}

#[test]
fn tiers_are_merged_in_order_of_priority() {
    let project = vec![
        "---\nname: shared\ndescription: from project\n---\n".to_string(),
        "not a profile".to_string(),
        "---\nname: shared\ndescription: project again\n---\n".to_string(),
    ];
    let user = vec![
        "---\nname: shared\ndescription: from user\n---\n".to_string(),
        "---\nname: architect\ndescription: from user\n---\n".to_string(),
        "---\nname: mine\ndescription: from user\n---\n".to_string(),
    ];
    let profiles = load_profiles(&project, &user);
    let seen: Vec<(&str, &str)> = profiles
        .iter()
        .map(|p| (p.name.as_str(), p.description.as_str()))
        .collect();
    assert_eq!(seen.len(), 6);
    assert_eq!(seen[0], ("shared", "from project"));
    assert_eq!(seen[1], ("architect", "from user"));
    assert_eq!(seen[2], ("mine", "from user"));
    assert_eq!(seen[3].0, "planner");
    assert_eq!(seen[4].0, "code_reviewer");
    assert_eq!(seen[5].0, "build_error_resolver");

    let only_defaults = load_agents(&vec![], &vec![]);
    let defaults = load_embedded_agents();
    assert_eq!(only_defaults.len(), 4);
    for (a, b) in only_defaults.iter().zip(defaults.iter()) {
        assert_eq!(a.name, b.name);
        assert_eq!(a.system_prompt, b.system_prompt);
    }
}

#[test]
fn embedded_profiles_are_complete() {
    let defaults = load_embedded_agents();
    let names: Vec<&str> = defaults.iter().map(|p| p.name.as_str()).collect();
    assert_eq!(
        names,
        vec!["planner", "code_reviewer", "architect", "build_error_resolver"]
    );
    for p in &defaults {
        assert!(!p.description.is_empty());
        assert!(!p.system_prompt.is_empty());
        assert!(p.tools.contains(&"read_file".to_string()));
    }
    assert_eq!(defaults[2].model_preference, "powerful");
    assert_eq!(defaults[3].tools.len(), 5);
}
