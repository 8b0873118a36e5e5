use libra::command::shortlog::{
    group_by_author, key_of, order_authors, passes_filter, rank, select_commits, shortlog,
    subject_of, AuthorStats, CommitInfo, ShortlogArgs, SortKey,
};

fn commit(name: &str, time: u64, subject: &str) -> CommitInfo {
    CommitInfo {
        author_name: name.to_string(),
        author_email: format!("{}@oa.org", name.to_lowercase()),
        author_time: time,
        committer_time: time as i64,
        message: format!("{}\n\nbody of {}\n", subject, subject),
    }
}

fn args(numbered: bool, summary: bool, email: bool) -> ShortlogArgs {
    ShortlogArgs {
        numbered,
        summary,
        email,
        since: None,
        until: None,
    }
}

fn history() -> Vec<CommitInfo> {
    vec![
        commit("LEAVE", 1, "Commit_1"),
        commit("LEAVE", 2, "Commit_2"),
        commit("SHY", 3, "Commit_3"),
        commit("LEAVE", 4, "Commit_4"),
        commit("SHY", 5, "Commit_5"),
        commit("GUXUE", 7, "Commit_7"),
        commit("LENGSA", 8, "Commit_8"),
        commit("SunZo", 9, "Commit_9"),
        commit("MMONK", 10, "Commit_10"),
        commit("LEAVE", 11, "Commit_11"),
        commit("LEAVE", 12, "Commit_12"),
        commit("SunZo", 14, "Commit_14"),
    ]
}

#[test]
fn summary_lists_authors_by_name() {
    let out = shortlog(&args(false, true, false), None, None, &history());
    assert_eq!(
        out,
        "   1  GUXUE\n   5  LEAVE\n   1  LENGSA\n   1  MMONK\n   2  SHY\n   2  SunZo\n"
    );
}

#[test]
fn numbered_summary_lists_most_commits_first() {
    let out = shortlog(&args(true, true, false), None, None, &history());
    assert_eq!(
        out,
        "   5  LEAVE\n   2  SHY\n   2  SunZo\n   1  GUXUE\n   1  LENGSA\n   1  MMONK\n"
    );
}

#[test]
fn subjects_follow_their_author_newest_first() {
    let commits = vec![
        commit("bob", 10, "first"),
        commit("Alice", 20, "second"),
        commit("bob", 30, "third"),
    ];
    let out = shortlog(&args(false, false, false), None, None, &commits);
    assert_eq!(
        out,
        "   1  Alice\n      second\n   2  bob\n      third\n      first\n"
    );
}

#[test]
fn email_is_shown_and_tells_authors_apart() {
    let mut commits = vec![
        commit("Ann", 1, "one"),
        commit("Ann", 2, "two"),
        commit("Ann", 3, "three"),
    ];
    commits[1].author_email = "ann@home.org".to_string();
    let merged = shortlog(&args(false, true, false), None, None, &commits);
    assert_eq!(merged, "   3  Ann\n");
    let apart = shortlog(&args(false, true, true), None, None, &commits);
    assert_eq!(apart, "   2  Ann <ann@oa.org>\n   1  Ann <ann@home.org>\n");
    let numbered = shortlog(&args(true, false, true), None, None, &commits);
    assert_eq!(
        numbered,
        "   2  Ann <ann@oa.org>\n      three\n      one\n   1  Ann <ann@home.org>\n      two\n"
    );
}

#[test]
fn date_filter_goes_by_committer_time() {
    let mut commits = history();
    commits[0].committer_time = 100;
    let out = shortlog(&args(false, true, false), Some(8), Some(12), &commits);
    assert_eq!(out, "   2  LEAVE\n   1  LENGSA\n   1  MMONK\n   1  SunZo\n");
    let none = shortlog(&args(false, true, false), Some(1000), None, &commits);
    assert_eq!(none, "");
}

#[test]
fn wide_numbers_widen_the_column() {
    let mut commits = Vec::new();
    for i in 0..12345u64 {
        commits.push(commit("many", i, "s"));
    }
    commits.push(commit("few", 1, "s"));
    let out = shortlog(&args(true, true, false), None, None, &commits);
    assert_eq!(out, "12345  many\n    1  few\n");
}

#[test]
fn passes_filter_includes_the_bounds() {
    assert!(passes_filter(5, None, None));
    assert!(passes_filter(5, Some(5), Some(5)));
    assert!(!passes_filter(4, Some(5), None));
    assert!(!passes_filter(6, None, Some(5)));
    assert!(passes_filter(-3, Some(-4), Some(0)));
}

#[test]
fn subject_is_the_first_line_of_the_trimmed_message() {
    assert_eq!(subject_of("\n\n  Fix bug  \nmore\n"), "Fix bug  ");
    assert_eq!(subject_of("one line"), "one line");
    assert_eq!(subject_of("windows\r\nline"), "windows");
    assert_eq!(subject_of(""), "");
    assert_eq!(subject_of("   \n"), "");
    for m in ["a\r\nb", "x\n\ny", "  lead\ttab \r\n z", "only"] {
        assert_eq!(
            subject_of(m),
            m.trim().lines().next().unwrap_or(""),
            "{:?}",
            m
        );
    }
}

#[test]
fn keys_of_authors() {
    assert_eq!(key_of("Ann", "a@b.c", true), "Ann <a@b.c>");
    assert_eq!(key_of("Ann", "a@b.c", false), "Ann");
}

#[test]
fn author_stats_count_their_commits() {
    let mut a = AuthorStats::new("n".to_string(), "e".to_string());
    assert_eq!(a.count(), 0);
    assert!(a.subjects().is_empty());
    a.add_commit("first".to_string());
    a.add_commit("second".to_string());
    assert_eq!(a.count(), 2);
    assert_eq!(a.name(), "n");
    assert_eq!(a.email(), "e");
    assert_eq!(a.subjects(), &vec!["first".to_string(), "second".to_string()]);
}

#[test]
fn rank_is_stable_and_ascending() {
    let key = |rank: u64, name: &str| SortKey {
        rank,
        name: name.chars().collect(),
    };
    let keys = vec![
        key(2, "b"),
        key(1, "z"),
        key(2, "a"),
        key(1, "z"),
        key(2, "ab"),
        key(0, ""),
        key(2, ""),
    ];
    assert_eq!(rank(&keys), vec![5, 1, 3, 6, 2, 4, 0]);
    assert_eq!(rank(&vec![]), Vec::<usize>::new());
}

#[test]
fn selection_and_grouping_step_by_step() {
    let commits = vec![
        commit("b", 5, "b5"),
        commit("a", 9, "a9"),
        commit("b", 9, "b9"),
        commit("a", 1, "a1"),
    ];
    let selected = select_commits(&commits, Some(2), None);
    let subjects: Vec<String> = selected.iter().map(|c| subject_of(&c.message)).collect();
    assert_eq!(subjects, vec!["a9", "b9", "b5"]);
    let authors = group_by_author(&selected, false);
    assert_eq!(authors.len(), 2);
    assert_eq!(authors[0].name(), "a");
    assert_eq!(authors[1].subjects(), &vec!["b9".to_string(), "b5".to_string()]);
    assert_eq!(order_authors(&authors, false), vec![0, 1]);
    assert_eq!(order_authors(&authors, true), vec![1, 0]);
    assert_eq!(
        shortlog(&args(true, true, false), Some(2), None, &commits),
        "   2  b\n   1  a\n"
    );
}

#[test]
fn names_are_ordered_without_regard_to_case() {
    let commits = vec![
        commit("delta", 1, "s"),
        commit("Charlie", 2, "s"),
        commit("bravo", 3, "s"),
        commit("ALPHA", 4, "s"),
    ];
    let out = shortlog(&args(false, true, false), None, None, &commits);
    assert_eq!(out, "   1  ALPHA\n   1  bravo\n   1  Charlie\n   1  delta\n");
}

fn parse_from(line: &[&str]) -> ShortlogArgs {
    let flag = |name: &'static str, short: char| {
        clap::Arg::new(name)
            .short(short)
            .long(name)
            .action(clap::ArgAction::SetTrue)
    };
    let matches = clap::Command::new("shortlog")
        .arg(flag("numbered", 'n'))
        .arg(flag("summary", 's'))
        .arg(flag("email", 'e'))
        .arg(clap::Arg::new("since").long("since"))
        .arg(clap::Arg::new("until").long("until"))
        .get_matches_from(line);
    ShortlogArgs {
        numbered: matches.get_flag("numbered"),
        summary: matches.get_flag("summary"),
        email: matches.get_flag("email"),
        since: matches.get_one::<String>("since").cloned(),
        until: matches.get_one::<String>("until").cloned(),
    }
}

#[test]
fn test_parse_args() {
    let args = parse_from(&["shortlog"]);
    assert!(!args.numbered);
    assert!(!args.summary);
    assert!(!args.email);

    let args = parse_from(&["shortlog", "-n", "-s", "-e"]);
    assert!(args.numbered);
    assert!(args.summary);
    assert!(args.email);

    let args = parse_from(&["shortlog", "--since", "2024-01-01"]);
    assert!(args.since.is_some());
    assert_eq!(args.since.as_deref(), Some("2024-01-01"));
    assert!(args.until.is_none());
    assert_eq!(shortlog(&args, None, None, &history()), shortlog(
        &ShortlogArgs {
            numbered: false,
            summary: false,
            email: false,
            since: None,
            until: None,
        },
        None,
        None,
        &history()
    ));
}
