use cacher::artifact::{ArchiveJob, ArtifactError, ArtifactManager, ArtifactType};
use cacher::path::{join_onto, split_last};
use cacher::hint_file::{CommandHint, DefaultSettings, HintFile};
use cacher::{artifact_step, ArtifactStep, CacheEntry, CommandCache, Outcome};

#[test]
fn directory_capture_packs_relative_to_base() {
    let m = ArtifactManager::new(String::from("/cache"));
    let dir = ArtifactType::Directory { path: String::from("source") };
    let job = m.cache_artifact(&dir, 0, "abc", "/work", true).unwrap().unwrap();
    assert_eq!(
        job,
        ArchiveJob {
            live_path: String::from("/work/source"),
            archive_dir: String::from("/cache/abc/artifacts"),
            archive: String::from("/cache/abc/artifacts/directory-0.tar.gz"),
            tar_args: vec![
                String::from("-czf"),
                String::from("/cache/abc/artifacts/directory-0.tar.gz"),
                String::from("-C"),
                String::from("/work"),
                String::from("source"),
            ],
        }
    );
}

#[test]
fn directory_restore_unpacks_the_same_archive() {
    let m = ArtifactManager::new(String::from("/cache"));
    let dir = ArtifactType::Directory { path: String::from("source") };
    let capture = m.cache_artifact(&dir, 3, "abc", "/work", true).unwrap().unwrap();
    let restore = m.restore_artifact(&dir, 3, "abc", "/work").unwrap();
    assert_eq!(capture.archive, restore.archive);
    assert_eq!(capture.live_path, restore.live_path);
    assert_eq!(
        restore.tar_args,
        vec![
            String::from("-xzf"),
            String::from("/cache/abc/artifacts/directory-3.tar.gz"),
            String::from("-C"),
            String::from("/work"),
        ]
    );
}

#[test]
fn distinct_artifacts_get_distinct_archives() {
    let m = ArtifactManager::new(String::from("/cache"));
    assert_ne!(m.archive_path("abc", 1), m.archive_path("abc", 10));
    assert_eq!(m.archive_path("abc", 12), "/cache/abc/artifacts/directory-12.tar.gz");
    assert_eq!(m.get_artifacts_path("abc"), "/cache/abc/artifacts");
}

#[test]
fn other_artifact_kinds_are_no_ops() {
    let m = ArtifactManager::new(String::from("/cache"));
    let files = ArtifactType::Files { paths: vec![String::from("a")] };
    let image = ArtifactType::DockerImage { name_from: String::from("args"), position: 1 };
    assert_eq!(m.cache_artifact(&files, 0, "abc", "/work", false), Ok(None));
    assert!(m.restore_artifact(&image, 0, "abc", "/work").is_none());
}

#[test]
fn test_directory_artifact_caching() {
    let hint = HintFile {
        default: DefaultSettings { ttl: None, include_env: vec![] },
        commands: vec![CommandHint {
            pattern: String::from("echo test_artifact"),
            ttl: Some(60),
            include_env: vec![],
            depends_on: vec![],
            artifacts: vec![ArtifactType::Directory { path: String::from("source") }],
        }],
    };
    let mut cache = CommandCache::new(String::from("/cache"), String::from("/work"), Some(hint));
    let manager = ArtifactManager::new(cache.cache_dir().clone());
    let command = "echo test_artifact";
    let id = cache.generate_id(command, &vec![], &vec![]);
    assert_eq!(cache.artifacts_for(command).len(), 1);
    let artifact = cache.artifacts_for(command)[0].clone();

    // First run: the command executes and the existing directory is captured.
    let output1 = cache.execute_and_cache(command, None, false, None, 100).unwrap();
    assert_eq!(
        output1,
        Outcome::Run { program: String::from("echo"), args: vec![String::from("test_artifact")] }
    );
    cache.store(command, "test_artifact\n");
    assert_eq!(artifact_step(false, true, false), ArtifactStep::Capture);
    let capture = manager.cache_artifact(&artifact, 0, &id, "/work", true).unwrap().unwrap();
    assert_eq!(capture.live_path, "/work/source");

    // The directory is deleted; the next call is a hit and restores it.
    let entry = CacheEntry { command: String::from(command), output: String::from("test_artifact\n"), timestamp: 100 };
    let output2 = cache.execute_and_cache(command, None, false, Some(entry), 101).unwrap();
    match &output2 {
        Outcome::Cached(o) => assert_eq!(o.trim(), "test_artifact"),
        _ => panic!("expected a cached answer"),
    }
    assert_eq!(artifact_step(true, false, true), ArtifactStep::Restore);
    let restore = manager.restore_artifact(&artifact, 0, &id, "/work").unwrap();
    assert_eq!(restore.archive, capture.archive);
    assert_eq!(restore.live_path, capture.live_path);

    // A forced run executes again and captures the modified directory.
    let output3 = cache.execute_and_cache(command, None, true, None, 102).unwrap();
    assert!(matches!(output3, Outcome::Run { .. }));
    assert_eq!(artifact_step(false, true, true), ArtifactStep::Capture);
}

#[test]
fn capturing_a_missing_directory_fails() {
    let m = ArtifactManager::new(String::from("/cache"));
    let dir = ArtifactType::Directory { path: String::from("source") };
    assert_eq!(
        m.cache_artifact(&dir, 0, "abc", "/work", false),
        Err(ArtifactError::DirectoryNotFound(String::from("/work/source")))
    );
}

#[test]
fn absolute_artifact_path_replaces_the_base() {
    let m = ArtifactManager::new(String::from("/cache"));
    let dir = ArtifactType::Directory { path: String::from("/srv/out/") };
    let job = m.cache_artifact(&dir, 0, "abc", "/work", true).unwrap().unwrap();
    assert_eq!(job.live_path, "/srv/out/");
    assert_eq!(job.tar_args[2..].to_vec(), vec![String::from("-C"), String::from("/srv"), String::from("out")]);
    let restore = m.restore_artifact(&dir, 0, "abc", "/work").unwrap();
    assert_eq!(restore.tar_args[3], "/srv");
}

#[test]
fn nested_artifact_path_packs_its_basename() {
    let m = ArtifactManager::new(String::from("/cache"));
    let dir = ArtifactType::Directory { path: String::from("build/out") };
    let job = m.cache_artifact(&dir, 0, "abc", "/work/", true).unwrap().unwrap();
    assert_eq!(job.live_path, "/work/build/out");
    assert_eq!(job.tar_args[3], "/work/build");
    assert_eq!(job.tar_args[4], "out");
}

#[test]
fn paths_join_and_split() {
    assert_eq!(join_onto("/a", "b"), "/a/b");
    assert_eq!(join_onto("/a/", "b"), "/a/b");
    assert_eq!(join_onto("/a", "/b"), "/b");
    assert_eq!(join_onto("", "b"), "b");
    assert_eq!(split_last("/a/b"), (String::from("/a"), String::from("b")));
    assert_eq!(split_last("/a//b//"), (String::from("/a"), String::from("b")));
    assert_eq!(split_last("/b"), (String::from("/"), String::from("b")));
    assert_eq!(split_last("b"), (String::from("."), String::from("b")));
}
