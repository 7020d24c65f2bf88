use cacher::{artifact_step, format_time_ago, list_cached_commands, sort_newest_first, ArtifactStep, CacheEntry, CacheError, CommandCache, Outcome};
use cacher::hint_file::{CommandHint, DefaultSettings, HintFile};

fn empty_cache() -> CommandCache {
    CommandCache::new(String::from("/tmp/cacher"), String::from("."), None)
}

fn ttl_hint() -> HintFile {
    HintFile {
        default: DefaultSettings { ttl: Some(60), include_env: vec![] },
        commands: vec![CommandHint {
            pattern: String::from("echo *"),
            ttl: Some(10),
            include_env: vec![],
            depends_on: vec![],
            artifacts: vec![],
        }],
    }
}

#[test]
fn test_store_and_retrieve() {
    let mut cache = empty_cache();
    let command = "echo hello";
    let output = "hello\n";

    cache.store(command, output);
    assert_eq!(cache.get(command), Some(&output.to_string()));
}

#[test]
fn test_retrieve_nonexistent() {
    let cache = empty_cache();
    let command = "echo nonexistent";

    assert_eq!(cache.get(command), None);
}

#[test]
fn store_replaces_previous_output() {
    let mut cache = empty_cache();
    cache.store("echo a", "1");
    cache.store("echo b", "2");
    cache.store("echo a", "3");
    assert_eq!(cache.get("echo a"), Some(&String::from("3")));
    assert_eq!(cache.get("echo b"), Some(&String::from("2")));
}

#[test]
fn test_execute_and_cache() {
    let mut cache = empty_cache();
    let command = "echo test_execute";

    let result = cache.execute_and_cache(command, None, false, None, 1000);
    assert!(result.is_ok());
    assert_eq!(
        result.unwrap(),
        Outcome::Run { program: String::from("echo"), args: vec![String::from("test_execute")] }
    );
    cache.store(command, "test_execute\n");

    assert!(cache.get(command).is_some());
}

#[test]
fn second_call_answers_from_memory() {
    let mut cache = empty_cache();
    let command = "echo hello";
    let first = cache.execute_and_cache(command, None, false, None, 1000).unwrap();
    assert_eq!(
        first,
        Outcome::Run { program: String::from("echo"), args: vec![String::from("hello")] }
    );
    cache.store(command, "hello\n");
    let second = cache.execute_and_cache(command, None, false, None, 1001).unwrap();
    assert_eq!(second, Outcome::Cached(String::from("hello\n")));
}

#[test]
fn empty_command_is_refused() {
    let mut cache = empty_cache();
    assert_eq!(cache.execute_and_cache("", None, false, None, 0), Err(CacheError::EmptyCommand));
    assert_eq!(cache.execute_and_cache(" \t ", None, true, None, 0), Err(CacheError::EmptyCommand));
}

#[test]
fn words_are_split_on_runs_of_whitespace() {
    let mut cache = empty_cache();
    let r = cache.execute_and_cache("  ls\t-la   /tmp ", None, false, None, 0).unwrap();
    assert_eq!(
        r,
        Outcome::Run {
            program: String::from("ls"),
            args: vec![String::from("-la"), String::from("/tmp")],
        }
    );
}

#[test]
fn test_ttl_and_force() {
    let mut cache = CommandCache::new(String::from("/tmp/cacher"), String::from("."), None);
    let command = "echo ttl_test";
    let entry = CacheEntry {
        command: String::from(command),
        output: String::from("ttl_test\n"),
        timestamp: 1000,
    };

    // Within the TTL the persisted output answers.
    let fresh = cache.execute_and_cache(command, Some(1), false, Some(entry.clone()), 1001).unwrap();
    assert_eq!(fresh, Outcome::Cached(String::from("ttl_test\n")));

    // After the TTL has passed the command runs again.
    let mut cache = CommandCache::new(String::from("/tmp/cacher"), String::from("."), None);
    let expired = cache.execute_and_cache(command, Some(1), false, Some(entry.clone()), 1002).unwrap();
    assert!(matches!(expired, Outcome::Run { .. }));
    assert_eq!(cache.get(command), None);

    // Forcing runs even when memory holds the output.
    cache.store(command, "ttl_test\n");
    let forced = cache.execute_and_cache(command, None, true, Some(entry), 1002).unwrap();
    assert!(matches!(forced, Outcome::Run { .. }));
}

#[test]
fn fresh_persisted_output_is_kept_in_memory() {
    let mut cache = empty_cache();
    let entry = CacheEntry {
        command: String::from("date"),
        output: String::from("today\n"),
        timestamp: 50,
    };
    let r = cache.execute_and_cache("date", None, false, Some(entry), 10_000).unwrap();
    assert_eq!(r, Outcome::Cached(String::from("today\n")));
    assert_eq!(cache.get("date"), Some(&String::from("today\n")));
}

#[test]
fn future_entry_is_stale_under_a_ttl() {
    let mut cache = empty_cache();
    let entry = CacheEntry { command: String::from("date"), output: String::from("x"), timestamp: 500 };
    let r = cache.execute_and_cache("date", Some(100), false, Some(entry), 400).unwrap();
    assert!(matches!(r, Outcome::Run { .. }));
}

#[test]
fn hint_ttl_decides_staleness() {
    let mut cache = CommandCache::new(String::from("/tmp/cacher"), String::from("."), Some(ttl_hint()));
    let entry = CacheEntry { command: String::from("echo hi"), output: String::from("hi\n"), timestamp: 100 };
    // The rule's TTL of 10 wins over the fallback of 1000.
    let r = cache.execute_and_cache("echo hi", Some(1000), false, Some(entry), 111).unwrap();
    assert!(matches!(r, Outcome::Run { .. }));
}

#[test]
fn test_effective_ttl() {
    let cache = CommandCache::new(String::from("/tmp/cacher"), String::from("."), Some(ttl_hint()));

    let echo_ttl = cache.get_effective_ttl("echo hello", Some(30));
    assert_eq!(echo_ttl, Some(10));

    let ls_ttl = cache.get_effective_ttl("ls -la", Some(30));
    assert_eq!(ls_ttl, Some(60));
}

#[test]
fn effective_ttl_falls_back_without_hint_file() {
    let cache = empty_cache();
    assert_eq!(cache.get_effective_ttl("echo hello", Some(30)), Some(30));
    assert_eq!(cache.get_effective_ttl("echo hello", None), None);
}

#[test]
fn effective_ttl_uses_fallback_when_no_ttl_declared() {
    let hint = HintFile {
        default: DefaultSettings { ttl: None, include_env: vec![] },
        commands: vec![],
    };
    let cache = CommandCache::new(String::from("/tmp/cacher"), String::from("."), Some(hint));
    assert_eq!(cache.get_effective_ttl("make", Some(5)), Some(5));
}

#[test]
fn test_cache_with_hint_file() {
    let mut cache = CommandCache::new(String::from("/tmp/cacher"), String::from("."), Some(ttl_hint()));
    assert!(cache.get_hint_file().is_some());
    let result = cache.execute_and_cache("echo hello", None, false, None, 0);
    assert!(result.is_ok());
}

#[test]
fn reload_replaces_rules_and_keeps_memory() {
    let mut cache = empty_cache();
    cache.store("echo a", "a\n");
    assert!(cache.get_hint_file().is_none());
    cache.reload_hint_file(String::from("/work"), Some(ttl_hint()));
    assert!(cache.get_hint_file().is_some());
    assert_eq!(cache.current_dir(), &String::from("/work"));
    assert_eq!(cache.get("echo a"), Some(&String::from("a\n")));
}

#[test]
fn cache_paths_are_under_the_cache_directory() {
    let cache = CommandCache::new(String::from("/var/cache/cacher"), String::from("."), None);
    assert_eq!(cache.get_cache_path("abc"), "/var/cache/cacher/abc");
    assert_eq!(cache.get_stdout_path("abc"), "/var/cache/cacher/abc/stdout");
    assert_eq!(cache.get_metadata_path("abc"), "/var/cache/cacher/abc/metadata.json");
}

#[test]
fn time_ago_picks_the_largest_unit() {
    assert_eq!(format_time_ago(1000, 1000), "0 seconds ago");
    assert_eq!(format_time_ago(1000, 1059), "59 seconds ago");
    assert_eq!(format_time_ago(1000, 1060), "1 minutes ago");
    assert_eq!(format_time_ago(0, 7199), "1 hours ago");
    assert_eq!(format_time_ago(0, 86399), "23 hours ago");
    assert_eq!(format_time_ago(0, 172800), "2 days ago");
    assert_eq!(format_time_ago(2000, 1000), "unknown time");
}

fn entry(command: &str, timestamp: u64) -> CacheEntry {
    CacheEntry { command: String::from(command), output: String::new(), timestamp }
}

#[test]
fn test_list_and_clear_cache() {
    let mut cache = empty_cache();
    let command = "echo list_test";
    cache.store(command, "list_test\n");
    cache.store("echo other", "other\n");

    let entries = sort_newest_first(vec![entry("echo old", 10), entry(command, 30), entry("echo mid", 20)]);
    assert!(!entries.is_empty());
    let order: Vec<&str> = entries.iter().map(|e| e.command.as_str()).collect();
    assert_eq!(order, vec!["echo list_test", "echo mid", "echo old"]);

    cache.clear_cache(Some(command));
    assert_eq!(cache.get(command), None);
    assert_eq!(cache.get("echo other"), Some(&String::from("other\n")));
    cache.clear_cache(None);
    assert_eq!(cache.get("echo other"), None);
}

#[test]
fn newest_first_keeps_every_entry() {
    let sorted = sort_newest_first(vec![entry("a", 5), entry("b", 5), entry("c", 9), entry("d", 1)]);
    let stamps: Vec<u64> = sorted.iter().map(|e| e.timestamp).collect();
    assert_eq!(stamps, vec![9, 5, 5, 1]);
    assert!(sort_newest_first(vec![]).is_empty());
}

#[test]
fn artifact_steps_follow_hit_and_presence() {
    assert_eq!(artifact_step(true, true, true), ArtifactStep::Restore);
    assert_eq!(artifact_step(true, false, false), ArtifactStep::Skip);
    assert_eq!(artifact_step(false, true, true), ArtifactStep::Capture);
    assert_eq!(artifact_step(false, false, true), ArtifactStep::Restore);
    assert_eq!(artifact_step(false, false, false), ArtifactStep::Skip);
}

#[test]
fn cold_restore_leaves_things_alone() {
    // No archive for the fingerprint: a hit restores nothing.
    assert_eq!(artifact_step(true, true, false), ArtifactStep::Skip);
}

#[test]
fn listing_drops_entries_without_command() {
    let listed = list_cached_commands(vec![entry("", 50), entry("echo a", 10), entry("echo b", 20)]);
    let order: Vec<&str> = listed.iter().map(|e| e.command.as_str()).collect();
    assert_eq!(order, vec!["echo b", "echo a"]);
}
