//! Directory artifacts: archives that capture a command's filesystem side effects.

use vstd::prelude::*;
use crate::digest::{decimal_of, to_decimal};
use crate::{join_path, joined};
use crate::path::{base_name, join_onto, parent_dir, path_join, split_last};

verus! {

/// A filesystem side effect declared for a command.
#[derive(Debug, Clone)]
pub enum ArtifactType {
    /// A directory, relative to the base directory, packed into one archive.
    Directory { path: String },
    /// A set of files; accepted, not captured.
    Files { paths: Vec<String> },
    /// A container image named by a command argument; accepted, not captured.
    DockerImage { name_from: String, position: usize },
}

/// Why an artifact cannot be captured.
#[derive(Debug, Clone, PartialEq, Eq)]
pub enum ArtifactError {
    /// The directory to capture does not exist; nothing is packed.
    DirectoryNotFound(String),
}

/// One archive operation for a directory artifact, for the caller to carry out with `tar`.
#[derive(Debug, Clone, PartialEq, Eq)]
pub struct ArchiveJob {
    /// The directory that is captured or restored.
    pub live_path: String,
    /// The directory that holds the archive.
    pub archive_dir: String,
    /// The archive file.
    pub archive: String,
    /// The arguments to hand to `tar`.
    pub tar_args: Vec<String>,
}

/// Keeps the archives of directory artifacts, one per fingerprint and artifact index,
/// under one directory.
pub struct ArtifactManager {
    base_dir: String,
}

/// The name of the archive for the artifact at `index`.
pub open spec fn archive_name(index: usize) -> Seq<char> {
    "directory-"@ + decimal_of(index as nat) + ".tar.gz"@
}

/// A vector of strings whose views are `parts`.
pub open spec fn strings_are(v: Seq<String>, parts: Seq<Seq<char>>) -> bool {
    v.len() == parts.len() && forall|i: int| 0 <= i < v.len() ==> (#[trigger] v[i])@ == parts[i]
}

/// The archive for the artifact at `index` of fingerprint `cache_id`, under `store`.
pub open spec fn archive_for(store: Seq<char>, cache_id: Seq<char>, index: usize) -> Seq<char> {
    joined(joined(joined(store, cache_id), "artifacts"@), archive_name(index))
}

/// Distinct artifacts of one fingerprint are kept in distinct archives; capturing and
/// restoring an artifact both name the archive that `archive_for` gives.
pub proof fn law_capture_restore_agree(store: Seq<char>, cache_id: Seq<char>, i: usize, j: usize)
    ensures
        i != j ==> archive_for(store, cache_id, i) != archive_for(store, cache_id, j),
{
    if i != j && archive_for(store, cache_id, i) == archive_for(store, cache_id, j) {
        let dir = joined(joined(store, cache_id), "artifacts"@) + seq!['/'];
        let a = archive_for(store, cache_id, i);
        let b = archive_for(store, cache_id, j);
        let ni = archive_name(i);
        let nj = archive_name(j);
        assert(ni =~= a.subrange(dir.len() as int, a.len() as int));
        assert(nj =~= b.subrange(dir.len() as int, b.len() as int));
        let p = "directory-"@;
        let q = ".tar.gz"@;
        let di = decimal_of(i as nat);
        let dj = decimal_of(j as nat);
        assert(ni.len() == nj.len());
        assert(di =~= ni.subrange(p.len() as int, ni.len() - q.len()));
        assert(dj =~= nj.subrange(p.len() as int, nj.len() - q.len()));
        crate::digest::lemma_decimal_of_injective(i as nat, j as nat);
    }
}

impl ArtifactManager {
    /// The directory under which archives are kept.
    pub closed spec fn store(&self) -> Seq<char> {
        self.base_dir@
    }

    /// A manager that keeps its archives under `base_dir`.
    pub fn new(base_dir: String) -> (r: Self)
        ensures
            r.store() == base_dir@,
    {
        ArtifactManager { base_dir }
    }

    /// The directory that holds the archives for fingerprint `cache_id`.
    pub fn get_artifacts_path(&self, cache_id: &str) -> (r: String)
        ensures
            r@ == joined(joined(self.store(), cache_id@), "artifacts"@),
    {
        let dir = join_path(self.base_dir.as_str(), cache_id);
        join_path(dir.as_str(), "artifacts")
    }

    /// The archive for the artifact at `index` of fingerprint `cache_id`.
    pub fn archive_path(&self, cache_id: &str, index: usize) -> (r: String)
        ensures
            r@ == archive_for(self.store(), cache_id@, index),
    {
        proof {
            reveal_strlit("directory-");
            reveal_strlit(".tar.gz");
        }
        let mut name = String::from_str("directory-");
        let n = to_decimal(index as u64);
        name.append(n.as_str());
        name.append(".tar.gz");
        let dir = self.get_artifacts_path(cache_id);
        join_path(dir.as_str(), name.as_str())
    }

    /// How to capture the artifact at `index` of the rule for fingerprint `cache_id`: the
    /// directory `path`, taken relative to `base_dir` (an absolute `path` stands for
    /// itself), is packed from its parent directory under its own name into its archive;
    /// `live_exists` tells whether that directory exists now, and capturing a
    /// missing one fails without a job. Other kinds of artifact are accepted and capture
    /// nothing.
    pub fn cache_artifact(
        &self,
        artifact: &ArtifactType,
        index: usize,
        cache_id: &str,
        base_dir: &str,
        live_exists: bool,
    ) -> (r: Result<Option<ArchiveJob>, ArtifactError>)
        ensures
            match artifact {
                ArtifactType::Directory { path } => if !live_exists {
                    r is Err && r->Err_0 is DirectoryNotFound
                        && r->Err_0->DirectoryNotFound_0@ == path_join(base_dir@, path@)
                } else {
                    r is Ok && r->Ok_0 is Some && {
                    let job = r->Ok_0->Some_0;
                    let archive = archive_for(self.store(), cache_id@, index);
                    let live = path_join(base_dir@, path@);
                    &&& job.live_path@ == live
                    &&& job.archive_dir@ == joined(joined(self.store(), cache_id@), "artifacts"@)
                    &&& job.archive@ == archive
                    &&& strings_are(job.tar_args@, seq!["-czf"@, archive, "-C"@, parent_dir(live), base_name(live)])
                    }
                },
                _ => r == Ok::<Option<ArchiveJob>, ArtifactError>(None),
            },
    {
        match artifact {
            ArtifactType::Directory { path } => {
                let live = join_onto(base_dir, path.as_str());
                if !live_exists {
                    return Err(ArtifactError::DirectoryNotFound(live));
                }
                let (parent, name) = split_last(live.as_str());
                let archive = self.archive_path(cache_id, index);
                let mut args: Vec<String> = Vec::new();
                args.push(String::from_str("-czf"));
                args.push(archive.clone());
                args.push(String::from_str("-C"));
                args.push(parent);
                args.push(name);
                let ghost parts = seq!["-czf"@, archive@, "-C"@, parent_dir(live@), base_name(live@)];
                assert(strings_are(args@, parts));
                Ok(Some(ArchiveJob {
                    live_path: live,
                    archive_dir: self.get_artifacts_path(cache_id),
                    archive,
                    tar_args: args,
                }))
            },
            _ => Ok(None),
        }
    }

    /// How to restore the artifact at `index` of the rule for fingerprint `cache_id`: the
    /// directory `path`, taken relative to `base_dir` (an absolute `path` stands for
    /// itself), is removed and its archive unpacked into its parent directory. Other kinds of artifact are accepted and restore nothing.
    pub fn restore_artifact(&self, artifact: &ArtifactType, index: usize, cache_id: &str, base_dir: &str) -> (r: Option<ArchiveJob>)
        ensures
            match artifact {
                ArtifactType::Directory { path } => r is Some && {
                    let job = r.unwrap();
                    let archive = archive_for(self.store(), cache_id@, index);
                    let live = path_join(base_dir@, path@);
                    &&& job.live_path@ == live
                    &&& job.archive_dir@ == joined(joined(self.store(), cache_id@), "artifacts"@)
                    &&& job.archive@ == archive
                    &&& strings_are(job.tar_args@, seq!["-xzf"@, archive, "-C"@, parent_dir(live)])
                },
                _ => r is None,
            },
    {
        match artifact {
            ArtifactType::Directory { path } => {
                let live = join_onto(base_dir, path.as_str());
                let (parent, _name) = split_last(live.as_str());
                let archive = self.archive_path(cache_id, index);
                let mut args: Vec<String> = Vec::new();
                args.push(String::from_str("-xzf"));
                args.push(archive.clone());
                args.push(String::from_str("-C"));
                args.push(parent);
                let ghost parts = seq!["-xzf"@, archive@, "-C"@, parent_dir(live@)];
                assert(strings_are(args@, parts));
                Some(ArchiveJob {
                    live_path: live,
                    archive_dir: self.get_artifacts_path(cache_id),
                    archive,
                    tar_args: args,
                })
            },
            _ => None,
        }
    }
}

} // verus!
