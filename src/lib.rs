//! A command-output cache keyed by a fingerprint of the command text, selected
//! environment variables and declared file dependencies.

pub mod artifact;
pub mod assoc;
pub mod command;
pub mod digest;
pub mod fingerprint;
pub mod hint_file;
pub mod path;

use vstd::prelude::*;
use vstd::multiset::Multiset;
use crate::artifact::ArtifactType;
use crate::assoc::{lemma_lookup_push, lemma_lookup_update_other, lemma_lookup_update_same, lookup, position, without_key};
use crate::command::{is_fresh, split_command, words_of};
use crate::digest::{decimal_of, to_decimal};
use crate::fingerprint::{fingerprint, fingerprint_of, governing_dependencies, DependencyState};
use crate::hint_file::{effective_ttl, matching_rule, CommandHint, Dependency, HintFile};

verus! {

/// A persisted result: the command, its captured standard output, and when it was
/// created, in seconds since the epoch.
#[derive(Debug, Clone)]
pub struct CacheEntry {
    pub command: String,
    pub output: String,
    pub timestamp: u64,
}

/// Why a command cannot be run.
#[derive(Debug, Clone, Copy, PartialEq, Eq, Structural)]
pub enum CacheError {
    /// The command holds no word to name a program.
    EmptyCommand,
}

/// What to do for one invocation.
#[derive(Debug, Clone, PartialEq, Eq)]
pub enum Outcome {
    /// Answer with this output, without running anything.
    Cached(String),
    /// Run `program` with `args`, then record its output.
    Run { program: String, args: Vec<String> },
}

/// The cache of one invocation: results already seen in this process, where results
/// are persisted, the rule set in force and the directory that dependencies are
/// relative to.
pub struct CommandCache {
    cache: Vec<(String, String)>,
    cache_dir: String,
    hint_file: Option<HintFile>,
    current_dir: String,
}

/// Entries ordered from the newest to the oldest.
pub open spec fn sorted_newest_first(s: Seq<CacheEntry>) -> bool {
    forall|i: int, j: int| 0 <= i < j < s.len() ==> (#[trigger] s[i]).timestamp >= (#[trigger] s[j]).timestamp
}

/// Orders persisted entries from the newest to the oldest, as listed to the user.
pub fn sort_newest_first(entries: Vec<CacheEntry>) -> (r: Vec<CacheEntry>)
    ensures
        sorted_newest_first(r@),
        r@.to_multiset() == entries@.to_multiset(),
        r@.len() == entries@.len(),
{
    let ghost input = entries@;
    let mut rest = entries;
    let mut out: Vec<CacheEntry> = Vec::new();
    proof {
        out@.to_multiset_ensures();
        vstd::multiset::lemma_multiset_empty_len(out@.to_multiset());
        assert(out@.to_multiset().add(rest@.to_multiset()) =~= input.to_multiset());
    }
    while rest.len() > 0
        invariant
            sorted_newest_first(out@),
            out@.to_multiset().add(rest@.to_multiset()) == input.to_multiset(),
        decreases rest@.len(),
    {
        let ghost before_rest = rest@;
        let e = rest.pop().unwrap();
        proof {
            assert(before_rest =~= rest@.push(e));
            rest@.to_multiset_ensures();
            assert(before_rest.to_multiset() =~= rest@.to_multiset().insert(e));
        }
        let mut pos: usize = 0;
        while pos < out.len() && out[pos].timestamp > e.timestamp
            invariant
                pos <= out@.len(),
                forall|j: int| 0 <= j < pos ==> (#[trigger] out@[j]).timestamp > e.timestamp,
            decreases out@.len() - pos,
        {
            pos = pos + 1;
        }
        let ghost before_out = out@;
        out.insert(pos, e);
        proof {
            assert(out@.remove(pos as int) =~= before_out);
            assert(out@[pos as int] == e);
            assert(out@.contains(e));
            out@.to_multiset_ensures();
            assert(out@.to_multiset().count(e) > 0);
            assert(before_out.to_multiset() =~= out@.to_multiset().remove(e));
            assert(out@.to_multiset() =~= before_out.to_multiset().insert(e));
            assert(out@.to_multiset().add(rest@.to_multiset()) =~= before_out.to_multiset().add(before_rest.to_multiset()));
            assert(sorted_newest_first(out@)) by {
                assert forall|i: int, j: int| 0 <= i < j < out@.len() implies
                    (#[trigger] out@[i]).timestamp >= (#[trigger] out@[j]).timestamp by {
                    if pos < before_out.len() {
                        assert(before_out[pos as int].timestamp <= e.timestamp);
                    }
                    if i < pos && j == pos {
                    } else if i < pos && j > pos {
                        assert(out@[j] == before_out[j - 1]);
                    } else if i == pos && j > pos {
                        assert(out@[j] == before_out[j - 1]);
                    } else if i > pos {
                        assert(out@[i] == before_out[i - 1]);
                        assert(out@[j] == before_out[j - 1]);
                    }
                }
            }
        }
    }
    proof {
        rest@.to_multiset_ensures();
        vstd::multiset::lemma_multiset_empty_len(rest@.to_multiset());
        assert(rest@.to_multiset() =~= Multiset::empty());
        assert(out@.to_multiset() =~= out@.to_multiset().add(rest@.to_multiset()));
        out@.to_multiset_ensures();
        input.to_multiset_ensures();
    }
    out
}

/// The entries of `s` that name a command, in order.
pub open spec fn with_command(s: Seq<CacheEntry>) -> Seq<CacheEntry>
    decreases s.len(),
{
    if s.len() == 0 {
        Seq::empty()
    } else {
        let prev = with_command(s.drop_last());
        if s.last().command@.len() > 0 {
            prev.push(s.last())
        } else {
            prev
        }
    }
}

/// The persisted entries as listed to the user: those that name a command, from the
/// newest to the oldest.
pub fn list_cached_commands(entries: Vec<CacheEntry>) -> (r: Vec<CacheEntry>)
    ensures
        sorted_newest_first(r@),
        r@.to_multiset() == with_command(entries@).to_multiset(),
{
    let ghost input = entries@;
    let mut rest = entries;
    let mut kept: Vec<CacheEntry> = Vec::new();
    proof {
        kept@.to_multiset_ensures();
        vstd::multiset::lemma_multiset_empty_len(kept@.to_multiset());
        assert(kept@.to_multiset().add(with_command(rest@).to_multiset()) =~= with_command(input).to_multiset());
    }
    while rest.len() > 0
        invariant
            kept@.to_multiset().add(with_command(rest@).to_multiset()) == with_command(input).to_multiset(),
        decreases rest@.len(),
    {
        let ghost before_rest = rest@;
        let ghost before_kept = kept@;
        let e = rest.pop().unwrap();
        proof {
            assert(before_rest.drop_last() =~= rest@);
            assert(before_rest.last() == e);
        }
        if e.command.as_str().is_empty() {
            assert(with_command(before_rest) == with_command(rest@));
        } else {
            kept.push(e);
            proof {
                with_command(rest@).to_multiset_ensures();
                before_kept.to_multiset_ensures();
                assert(with_command(before_rest) == with_command(rest@).push(e));
                assert(kept@.to_multiset() =~= before_kept.to_multiset().insert(e));
                assert(with_command(before_rest).to_multiset() =~= with_command(rest@).to_multiset().insert(e));
                assert(kept@.to_multiset().add(with_command(rest@).to_multiset())
                    =~= before_kept.to_multiset().add(with_command(before_rest).to_multiset()));
            }
        }
    }
    proof {
        assert(with_command(rest@) =~= Seq::<CacheEntry>::empty());
        with_command(rest@).to_multiset_ensures();
        vstd::multiset::lemma_multiset_empty_len(with_command(rest@).to_multiset());
        assert(kept@.to_multiset() =~= kept@.to_multiset().add(with_command(rest@).to_multiset()));
    }
    sort_newest_first(kept)
}

/// What to do with a directory artifact after an invocation.
#[derive(Debug, Clone, Copy, PartialEq, Eq, Structural)]
pub enum ArtifactStep {
    /// Pack the live directory into its archive.
    Capture,
    /// Replace the live directory by what its archive holds.
    Restore,
    /// Leave both alone.
    Skip,
}

/// The step for one directory artifact: on a cache hit, restore it when an archive
/// exists; after the command ran, capture it when the directory exists, else restore a
/// prior archive when there is one.
pub fn artifact_step(hit: bool, live_exists: bool, archive_exists: bool) -> (r: ArtifactStep)
    ensures
        hit ==> r == if archive_exists { ArtifactStep::Restore } else { ArtifactStep::Skip },
        !hit ==> r == if live_exists {
            ArtifactStep::Capture
        } else if archive_exists {
            ArtifactStep::Restore
        } else {
            ArtifactStep::Skip
        },
{
    if hit {
        if archive_exists { ArtifactStep::Restore } else { ArtifactStep::Skip }
    } else if live_exists {
        ArtifactStep::Capture
    } else if archive_exists {
        ArtifactStep::Restore
    } else {
        ArtifactStep::Skip
    }
}

/// How long ago a moment `timestamp` was, seen at `now` (both in seconds since the
/// epoch): whole seconds under a minute, whole minutes under an hour, whole hours under a
/// day, whole days beyond; a moment after `now` is an unknown time.
pub open spec fn time_ago(timestamp: u64, now: u64) -> Seq<char> {
    if now < timestamp {
        "unknown time"@
    } else {
        let age = (now - timestamp) as nat;
        if age < 60 {
            decimal_of(age) + " seconds ago"@
        } else if age < 3600 {
            decimal_of(age / 60) + " minutes ago"@
        } else if age < 86400 {
            decimal_of(age / 3600) + " hours ago"@
        } else {
            decimal_of(age / 86400) + " days ago"@
        }
    }
}

/// Describes how long ago `timestamp` was, seen at `now`.
pub fn format_time_ago(timestamp: u64, now: u64) -> (r: String)
    ensures
        r@ == time_ago(timestamp, now),
{
    proof {
        reveal_strlit("unknown time");
        reveal_strlit(" seconds ago");
        reveal_strlit(" minutes ago");
        reveal_strlit(" hours ago");
        reveal_strlit(" days ago");
    }
    if now < timestamp {
        return String::from_str("unknown time");
    }
    let age = now - timestamp;
    if age < 60 {
        let mut r = to_decimal(age);
        r.append(" seconds ago");
        r
    } else if age < 3600 {
        let mut r = to_decimal(age / 60);
        r.append(" minutes ago");
        r
    } else if age < 86400 {
        let mut r = to_decimal(age / 3600);
        r.append(" hours ago");
        r
    } else {
        let mut r = to_decimal(age / 86400);
        r.append(" days ago");
        r
    }
}

/// `dir/name`.
pub open spec fn joined(dir: Seq<char>, name: Seq<char>) -> Seq<char> {
    dir + seq!['/'] + name
}

/// Joins a directory and a name with `/`.
pub fn join_path(dir: &str, name: &str) -> (r: String)
    ensures
        r@ == joined(dir@, name@),
{
    proof {
        reveal_strlit("/");
    }
    let mut r = String::from_str(dir);
    r.append("/");
    r.append(name);
    r
}

impl CommandCache {
    /// The output held in memory for `command`.
    pub closed spec fn cached(&self, command: Seq<char>) -> Option<Seq<char>> {
        lookup(self.cache@, command)
    }

    /// The rule set in force.
    pub closed spec fn hint(&self) -> Option<HintFile> {
        self.hint_file
    }

    /// The directory that persisted results live under.
    pub closed spec fn store_dir(&self) -> Seq<char> {
        self.cache_dir@
    }

    /// The directory that dependencies and artifacts are relative to.
    pub closed spec fn base_dir(&self) -> Seq<char> {
        self.current_dir@
    }

    /// A cache with nothing in memory.
    pub fn new(cache_dir: String, current_dir: String, hint_file: Option<HintFile>) -> (r: Self)
        ensures
            forall|c: Seq<char>| (#[trigger] r.cached(c)) is None,
            r.hint() == hint_file,
            r.store_dir() == cache_dir@,
            r.base_dir() == current_dir@,
    {
        CommandCache { cache: Vec::new(), cache_dir, hint_file, current_dir }
    }

    /// Records `output` in memory as the result of `command`.
    pub fn store(&mut self, command: &str, output: &str)
        ensures
            forall|c: Seq<char>| #[trigger] final(self).cached(c) == if c == command@ {
                Some(output@)
            } else {
                old(self).cached(c)
            },
            final(self).hint() == old(self).hint(),
            final(self).store_dir() == old(self).store_dir(),
            final(self).base_dir() == old(self).base_dir(),
    {
        let entry = (String::from_str(command), String::from_str(output));
        let ghost before = self.cache@;
        match position(&self.cache, command) {
            Some(p) => {
                self.cache.set(p, entry);
                proof {
                    assert forall|c: Seq<char>| #[trigger] lookup(self.cache@, c) == if c == command@ {
                        Some(output@)
                    } else {
                        lookup(before, c)
                    } by {
                        if c == command@ {
                            lemma_lookup_update_same(before, p as int, entry, 0);
                        } else {
                            lemma_lookup_update_other(before, p as int, entry, c, 0);
                        }
                    }
                }
            },
            None => {
                self.cache.push(entry);
                proof {
                    assert forall|c: Seq<char>| #[trigger] lookup(self.cache@, c) == if c == command@ {
                        Some(output@)
                    } else {
                        lookup(before, c)
                    } by {
                        lemma_lookup_push(before, entry, c, 0);
                        lemma_lookup_push(before, entry, command@, 0);
                    }
                }
            },
        }
    }

    /// The output held in memory for `command`.
    pub fn get(&self, command: &str) -> (r: Option<&String>)
        ensures
            match r {
                Some(o) => self.cached(command@) == Some(o@),
                None => self.cached(command@) is None,
            },
    {
        match position(&self.cache, command) {
            Some(p) => Some(&self.cache[p].1),
            None => None,
        }
    }

    /// The rule set in force, if a hint file was found.
    pub fn get_hint_file(&self) -> (r: Option<&HintFile>)
        ensures
            match r {
                Some(h) => self.hint() == Some(*h),
                None => self.hint() is None,
            },
    {
        match &self.hint_file {
            Some(h) => Some(h),
            None => None,
        }
    }

    /// Replaces the rule set and the base directory, as found again from the current
    /// working directory; what is held in memory stays.
    pub fn reload_hint_file(&mut self, current_dir: String, hint_file: Option<HintFile>)
        ensures
            final(self).hint() == hint_file,
            final(self).base_dir() == current_dir@,
            final(self).store_dir() == old(self).store_dir(),
            forall|c: Seq<char>| #[trigger] final(self).cached(c) == old(self).cached(c),
    {
        self.current_dir = current_dir;
        self.hint_file = hint_file;
    }

    /// The directory that dependencies and artifacts are relative to.
    pub fn current_dir(&self) -> (r: &String)
        ensures
            r@ == self.base_dir(),
    {
        &self.current_dir
    }

    /// The directory that persisted results live under.
    pub fn cache_dir(&self) -> (r: &String)
        ensures
            r@ == self.store_dir(),
    {
        &self.cache_dir
    }

    /// The directory that holds what is persisted for fingerprint `id`.
    pub fn get_cache_path(&self, id: &str) -> (r: String)
        ensures
            r@ == joined(self.store_dir(), id@),
    {
        join_path(self.cache_dir.as_str(), id)
    }

    /// The file that holds the captured output for fingerprint `id`.
    pub fn get_stdout_path(&self, id: &str) -> (r: String)
        ensures
            r@ == joined(joined(self.store_dir(), id@), "stdout"@),
    {
        let dir = self.get_cache_path(id);
        join_path(dir.as_str(), "stdout")
    }

    /// The file that holds the command and creation time for fingerprint `id`.
    pub fn get_metadata_path(&self, id: &str) -> (r: String)
        ensures
            r@ == joined(joined(self.store_dir(), id@), "metadata.json"@),
    {
        let dir = self.get_cache_path(id);
        join_path(dir.as_str(), "metadata.json")
    }

    /// Forgets what memory holds for `command`, or for every command when it is `None`.
    pub fn clear_cache(&mut self, command: Option<&str>)
        ensures
            forall|c: Seq<char>| #[trigger] final(self).cached(c) == match command {
                Some(cmd) => if c == cmd@ { None } else { old(self).cached(c) },
                None => None,
            },
            final(self).hint() == old(self).hint(),
            final(self).store_dir() == old(self).store_dir(),
            final(self).base_dir() == old(self).base_dir(),
    {
        match command {
            Some(cmd) => {
                self.cache = without_key(&self.cache, cmd);
            },
            None => {
                self.cache.clear();
            },
        }
    }

    /// The TTL in seconds for `command`: the matching rule's, else the rule set's
    /// default, else `default_ttl`; `None` means that results never go stale.
    pub fn get_effective_ttl(&self, command: &str, default_ttl: Option<u64>) -> (r: Option<u64>)
        ensures
            r == effective_ttl(self.hint(), command@, default_ttl),
    {
        match &self.hint_file {
            Some(h) => {
                match h.find_matching_command(command) {
                    Some(rule) => {
                        if rule.ttl.is_some() {
                            return rule.ttl;
                        }
                    },
                    None => {},
                }
                if h.default.ttl.is_some() {
                    h.default.ttl
                } else {
                    default_ttl
                }
            },
            None => default_ttl,
        }
    }

    /// The fingerprint of `command`, given the set environment variables `env` as
    /// (name, value) pairs and the observed state of each dependency that
    /// `dependencies_for(command)` lists, by index.
    pub fn generate_id(&self, command: &str, env: &Vec<(String, String)>, states: &Vec<DependencyState>) -> (r: String)
        ensures
            r@ == fingerprint_of(self.hint(), command@, env@, states@),
            r@.len() == 64,
    {
        fingerprint(&self.hint_file, command, env, states)
    }

    /// The rule that governs `command`, if one matches.
    pub fn matching_rule(&self, command: &str) -> (r: Option<&CommandHint>)
        ensures
            match r {
                Some(rule) => self.hint() is Some && matching_rule(self.hint().unwrap(), command@) == Some(*rule),
                None => self.hint() is None || matching_rule(self.hint().unwrap(), command@) is None,
            },
    {
        match &self.hint_file {
            Some(h) => h.find_matching_command(command),
            None => None,
        }
    }

    /// The dependencies whose state the fingerprint of `command` reads, in order.
    pub fn dependencies_for(&self, command: &str) -> (r: Vec<&Dependency>)
        ensures
            r@.len() == governing_dependencies(self.hint(), command@).len(),
            forall|i: int| 0 <= i < r@.len() ==> *(#[trigger] r@[i]) == governing_dependencies(self.hint(), command@)[i],
    {
        let mut r: Vec<&Dependency> = Vec::new();
        match self.matching_rule(command) {
            Some(rule) => {
                let mut i: usize = 0;
                while i < rule.depends_on.len()
                    invariant
                        i <= rule.depends_on@.len(),
                        r@.len() == i,
                        forall|k: int| 0 <= k < i ==> *(#[trigger] r@[k]) == rule.depends_on@[k],
                    decreases rule.depends_on@.len() - i,
                {
                    r.push(&rule.depends_on[i]);
                    i = i + 1;
                }
            },
            None => {},
        }
        r
    }

    /// The artifacts that the rule governing `command` declares, in order.
    pub fn artifacts_for(&self, command: &str) -> (r: Vec<&ArtifactType>)
        ensures
            match self.hint() {
                Some(h) => match matching_rule(h, command@) {
                    Some(rule) => r@.len() == rule.artifacts@.len()
                        && forall|i: int| 0 <= i < r@.len() ==> *(#[trigger] r@[i]) == rule.artifacts@[i],
                    None => r@.len() == 0,
                },
                None => r@.len() == 0,
            },
    {
        let mut r: Vec<&ArtifactType> = Vec::new();
        match self.matching_rule(command) {
            Some(rule) => {
                let mut i: usize = 0;
                while i < rule.artifacts.len()
                    invariant
                        i <= rule.artifacts@.len(),
                        r@.len() == i,
                        forall|k: int| 0 <= k < i ==> *(#[trigger] r@[k]) == rule.artifacts@[k],
                    decreases rule.artifacts@.len() - i,
                {
                    r.push(&rule.artifacts[i]);
                    i = i + 1;
                }
            },
            None => {},
        }
        r
    }

    /// Decides one invocation of `command`. An empty command is refused. Unless `force`
    /// is set, an output held in memory answers first, then the persisted entry found for
    /// the command's fingerprint, if it is still fresh at `now` under the effective TTL
    /// (with `ttl` as the fallback); that output is then also held in memory. Otherwise
    /// the command's first word is to be run with the rest as arguments.
    pub fn execute_and_cache(
        &mut self,
        command: &str,
        ttl: Option<u64>,
        force: bool,
        persisted: Option<CacheEntry>,
        now: u64,
    ) -> (r: Result<Outcome, CacheError>)
        ensures
            final(self).hint() == old(self).hint(),
            final(self).store_dir() == old(self).store_dir(),
            final(self).base_dir() == old(self).base_dir(),
            words_of(command@).len() == 0 ==> r == Err::<Outcome, CacheError>(CacheError::EmptyCommand),
            words_of(command@).len() > 0 ==> r is Ok,
            r is Ok && !force && old(self).cached(command@) is Some ==> {
                &&& r->Ok_0 is Cached
                &&& r->Ok_0->Cached_0@ == old(self).cached(command@).unwrap()
            },
            ({
                let fresh_entry = !force && old(self).cached(command@) is None && persisted is Some
                    && is_fresh(persisted.unwrap().timestamp, now, effective_ttl(old(self).hint(), command@, ttl));
                &&& r is Ok && fresh_entry ==> {
                    &&& r->Ok_0 is Cached
                    &&& r->Ok_0->Cached_0@ == persisted.unwrap().output@
                    &&& forall|c: Seq<char>| #[trigger] final(self).cached(c) == if c == command@ {
                        Some(persisted.unwrap().output@)
                    } else {
                        old(self).cached(c)
                    }
                }
                &&& !fresh_entry ==> forall|c: Seq<char>| #[trigger] final(self).cached(c) == old(self).cached(c)
                &&& r is Ok && (force || (old(self).cached(command@) is None && !fresh_entry)) ==> {
                    let w = words_of(command@);
                    &&& r->Ok_0 is Run
                    &&& r->Ok_0->program@ == w[0]
                    &&& r->Ok_0->args@.len() == w.len() - 1
                    &&& forall|i: int| 0 <= i < w.len() - 1 ==> (#[trigger] r->Ok_0->args@[i])@ == w[i + 1]
                }
            }),
    {
        let split = split_command(command);
        let (program, args) = match split {
            None => return Err(CacheError::EmptyCommand),
            Some(pa) => pa,
        };
        if !force {
            match self.get(command) {
                Some(o) => return Ok(Outcome::Cached(o.clone())),
                None => {},
            }
            match persisted {
                Some(entry) => {
                    let effective = self.get_effective_ttl(command, ttl);
                    if command::fresh(entry.timestamp, now, effective) {
                        self.store(command, entry.output.as_str());
                        return Ok(Outcome::Cached(entry.output));
                    }
                },
                None => {},
            }
        }
        Ok(Outcome::Run { program, args })
    }
}

} // verus!
