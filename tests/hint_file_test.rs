use cacher::hint_file::{distinct_names, pattern_matches, readable_matches, CommandHint, DefaultSettings, Dependency, HintFile, HintProbe, LinePattern};

fn rule(pattern: &str, ttl: Option<u64>) -> CommandHint {
    CommandHint {
        pattern: String::from(pattern),
        ttl,
        include_env: vec![],
        depends_on: vec![],
        artifacts: vec![],
    }
}

fn command_patterns() -> HintFile {
    HintFile {
        default: DefaultSettings { ttl: None, include_env: vec![] },
        commands: vec![rule("ls *", Some(60)), rule("git status", Some(300))],
    }
}

#[test]
fn test_find_matching_command() {
    let hint_file = command_patterns();

    let ls_match = hint_file.find_matching_command("ls -la");
    assert!(ls_match.is_some());
    assert_eq!(ls_match.unwrap().ttl, Some(60));

    let git_match = hint_file.find_matching_command("git status");
    assert!(git_match.is_some());

    let no_match = hint_file.find_matching_command("echo hello");
    assert!(no_match.is_none());
}

#[test]
fn first_matching_rule_wins() {
    let hint_file = HintFile {
        default: DefaultSettings { ttl: None, include_env: vec![] },
        commands: vec![rule("npm *", Some(1)), rule("npm run *", Some(2))],
    };
    assert_eq!(hint_file.find_matching_command("npm run build").unwrap().ttl, Some(1));
}

#[test]
fn invalid_glob_falls_back_to_equality() {
    assert!(pattern_matches("a[", "a["));
    assert!(!pattern_matches("a[", "ab"));
    assert!(pattern_matches("echo *", "echo hello"));
    assert!(!pattern_matches("echo *", "ls"));
    assert!(pattern_matches("git status", "git status"));
    assert!(!pattern_matches("git status", "git status -s"));
}

#[test]
fn test_no_hint_file() {
    let hint_file = HintFile::find_hint_file(vec![HintProbe::Absent, HintProbe::Absent]);
    assert!(hint_file.is_none());
    assert!(HintFile::find_hint_file(vec![]).is_none());
}

#[test]
fn nearest_hint_file_is_found() {
    let near = HintFile {
        default: DefaultSettings { ttl: Some(1), include_env: vec![] },
        commands: vec![],
    };
    let far = HintFile {
        default: DefaultSettings { ttl: Some(2), include_env: vec![] },
        commands: vec![],
    };
    let found = HintFile::find_hint_file(vec![
        HintProbe::Absent,
        HintProbe::Found(near),
        HintProbe::Found(far),
    ]);
    assert_eq!(found.unwrap().default.ttl, Some(1));
}

#[test]
fn malformed_hint_file_stops_discovery() {
    let far = HintFile {
        default: DefaultSettings { ttl: Some(2), include_env: vec![] },
        commands: vec![],
    };
    let found = HintFile::find_hint_file(vec![HintProbe::Malformed, HintProbe::Found(far)]);
    assert!(found.is_none());
}

#[test]
fn single_file_and_line_rules_name_their_file() {
    let file = Dependency::File { file: String::from("package.json") };
    assert_eq!(file.get_files("/work"), vec![String::from("package.json")]);
    let lines = Dependency::Lines {
        lines: LinePattern { file: String::from(".env"), pattern: String::from("^DB_") },
    };
    assert_eq!(lines.get_files("/work"), vec![String::from(".env")]);
}

#[test]
fn file_set_rule_without_matches_is_empty() {
    let files = Dependency::Files { files: String::from("no-such-dir-for-cacher/*.js") };
    assert!(files.get_files("/nonexistent-cacher-base").is_empty());
}

#[test]
fn repeated_environment_names_are_kept_once() {
    let names = vec![String::from("PATH"), String::from("USER"), String::from("PATH")];
    assert_eq!(distinct_names(&names), vec![String::from("PATH"), String::from("USER")]);
    assert!(distinct_names(&vec![]).is_empty());
}

#[test]
fn readable_matches_keep_order_and_drop_unreadable() {
    let entries = vec![
        Some(String::from("/w/b.js")),
        None,
        Some(String::from("/w/a.js")),
        None,
    ];
    assert_eq!(readable_matches(&entries), vec![String::from("/w/b.js"), String::from("/w/a.js")]);
    assert!(readable_matches(&vec![None]).is_empty());
}

#[test]
fn rejected_glob_matches_nothing() {
    let files = Dependency::Files { files: String::from("src/[") };
    assert!(files.get_files(".").is_empty());
}

#[test]
fn repeated_names_keep_first_occurrence_order() {
    let names = vec![
        String::from("B"),
        String::from("A"),
        String::from("B"),
        String::from("C"),
        String::from("A"),
    ];
    assert_eq!(distinct_names(&names), vec![String::from("B"), String::from("A"), String::from("C")]);
}
