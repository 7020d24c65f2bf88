//! The rule set read from a hint file: per-command TTLs, environment variables and
//! dependencies, and how a command is matched against the rules.

use vstd::prelude::*;
use crate::artifact::ArtifactType;

verus! {

/// A parsed hint file: default settings plus command rules in declaration order.
#[derive(Debug, Clone)]
pub struct HintFile {
    /// Settings that apply when no command rule matches.
    pub default: DefaultSettings,
    /// Command-specific rules; the first one whose pattern matches wins.
    pub commands: Vec<CommandHint>,
}

/// Settings that apply to every command that no rule matches.
#[derive(Debug, Clone)]
pub struct DefaultSettings {
    /// Time-to-live in seconds.
    pub ttl: Option<u64>,
    /// Names of environment variables folded into the fingerprint.
    pub include_env: Vec<String>,
}

/// The settings for the commands that match one pattern.
#[derive(Debug, Clone)]
pub struct CommandHint {
    /// Glob pattern matched against the whole command text.
    pub pattern: String,
    /// Time-to-live in seconds.
    pub ttl: Option<u64>,
    /// Names of environment variables folded into the fingerprint.
    pub include_env: Vec<String>,
    /// Dependencies whose state is folded into the fingerprint, in order.
    pub depends_on: Vec<Dependency>,
    /// Filesystem side effects captured and restored alongside the output.
    pub artifacts: Vec<ArtifactType>,
}

/// One input whose change invalidates a cached result.
#[derive(Debug, Clone)]
pub enum Dependency {
    /// A single file, relative to the base directory.
    File { file: String },
    /// Every file matched by a glob, relative to the base directory.
    Files { files: String },
    /// The lines of a file that match a regular expression.
    Lines { lines: LinePattern },
}

/// A file and the regular expression that selects its relevant lines.
#[derive(Debug, Clone)]
pub struct LinePattern {
    /// Path of the file, relative to the base directory.
    pub file: String,
    /// Regular expression tested against each line.
    pub pattern: String,
}

/// Whether no name occurs twice in `names`.
pub open spec fn names_distinct(names: Seq<String>) -> bool {
    forall|i: int, j: int| 0 <= i < j < names.len() ==> (#[trigger] names[i])@ != (#[trigger] names[j])@
}

/// Whether `name` occurs in `names`.
pub open spec fn has_name(names: Seq<String>, name: Seq<char>) -> bool {
    exists|i: int| 0 <= i < names.len() && (#[trigger] names[i])@ == name
}

/// The names of `names[..n]` at their first occurrences, in order.
pub open spec fn first_occurrences(names: Seq<String>, n: int) -> Seq<Seq<char>>
    decreases n,
{
    if n <= 0 || n > names.len() {
        Seq::empty()
    } else {
        let prev = first_occurrences(names, n - 1);
        if prev.contains(names[n - 1]@) {
            prev
        } else {
            prev.push(names[n - 1]@)
        }
    }
}

/// The names of `names` in order, each kept once, where it first occurs: the environment
/// variable names of a rule form a set.
pub fn distinct_names(names: &Vec<String>) -> (r: Vec<String>)
    ensures
        r@.map_values(|s: String| s@) == first_occurrences(names@, names@.len() as int),
        names_distinct(r@),
        forall|i: int| 0 <= i < names@.len() ==> has_name(r@, (#[trigger] names@[i])@),
        forall|j: int| 0 <= j < r@.len() ==> has_name(names@, (#[trigger] r@[j])@),
{
    let mut r: Vec<String> = Vec::new();
    let mut i: usize = 0;
    while i < names.len()
        invariant
            i <= names@.len(),
            r@.map_values(|s: String| s@) == first_occurrences(names@, i as int),
            names_distinct(r@),
            forall|k: int| 0 <= k < i ==> has_name(r@, (#[trigger] names@[k])@),
            forall|j: int| 0 <= j < r@.len() ==> has_name(names@, (#[trigger] r@[j])@),
        decreases names@.len() - i,
    {
        let mut seen = false;
        let mut k: usize = 0;
        while k < r.len()
            invariant
                k <= r@.len(),
                i < names@.len(),
                seen ==> has_name(r@, names@[i as int]@),
                !seen ==> forall|m: int| 0 <= m < k ==> (#[trigger] r@[m])@ != names@[i as int]@,
            decreases r@.len() - k,
        {
            if r[k] == names[i] {
                seen = true;
            }
            k = k + 1;
        }
        let ghost v = r@.map_values(|s: String| s@);
        proof {
            if seen {
                let w = choose|m: int| 0 <= m < r@.len() && (#[trigger] r@[m])@ == names@[i as int]@;
                assert(v[w] == names@[i as int]@);
                assert(v.contains(names@[i as int]@));
            } else {
                assert forall|m: int| 0 <= m < v.len() implies v[m] != names@[i as int]@ by {
                    assert(v[m] == r@[m]@);
                }
                assert(!v.contains(names@[i as int]@));
            }
        }
        if !seen {
            let ghost before = r@;
            r.push(names[i].clone());
            assert(r@.map_values(|s: String| s@) =~= v.push(names@[i as int]@));
            assert(r@[before.len() as int] == names@[i as int]);
            assert forall|k2: int| 0 <= k2 <= i implies has_name(r@, (#[trigger] names@[k2])@) by {
                if k2 < i {
                    let w = choose|m: int| 0 <= m < before.len() && (#[trigger] before[m])@ == names@[k2]@;
                    assert(r@[w] == before[w]);
                } else {
                    assert(r@[before.len() as int]@ == names@[k2]@);
                }
            }
            assert forall|j: int| 0 <= j < r@.len() implies has_name(names@, (#[trigger] r@[j])@) by {
                if j < before.len() {
                    assert(r@[j] == before[j]);
                } else {
                    assert(names@[i as int]@ == r@[j]@);
                }
            }
        }
        i = i + 1;
    }
    r
}

/// Whether `pattern` is a syntactically valid glob.
pub uninterp spec fn glob_valid(pattern: Seq<char>) -> bool;

/// Whether the valid glob `pattern` matches the whole of `text`.
pub uninterp spec fn glob_matches(pattern: Seq<char>, text: Seq<char>) -> bool;

/// Relies on `glob::Pattern::new`, which fails exactly on an invalid pattern, and on
/// `glob::Pattern::matches`, which tests the whole text against the compiled pattern.
#[verifier::external_body]
fn glob_match(pattern: &str, text: &str) -> (r: Option<bool>)
    ensures
        r.is_some() == glob_valid(pattern@),
        r.is_some() ==> r.unwrap() == glob_matches(pattern@, text@),
{
    match glob::Pattern::new(pattern) {
        Ok(p) => Some(p.matches(text)),
        Err(_) => None,
    }
}

/// Relies on `glob::glob`: the paths that the pattern matches on disk, in the order it
/// yields them (alphabetical within each directory); `None` for an entry that could not be
/// read or whose path is not UTF-8. `glob::glob` first compiles the whole pattern with
/// `Pattern::new` and fails when that fails. Otherwise what is on disk decides the result.
#[verifier::external_body]
fn expand_glob(pattern: &str) -> (r: Option<Vec<Option<String>>>)
    ensures
        !glob_valid(pattern@) ==> r is None,
{
    glob::glob(pattern).ok().map(
        |paths| paths.map(|e| e.ok().and_then(|p| p.to_str().map(String::from))).collect(),
    )
}

/// A rule pattern matches a command when it is a valid glob matching the whole command,
/// or, when its syntax is invalid, when it equals the command exactly.
pub open spec fn rule_matches(pattern: Seq<char>, command: Seq<char>) -> bool {
    if glob_valid(pattern) {
        glob_matches(pattern, command)
    } else {
        pattern == command
    }
}

/// The index of the first rule at or after `i` that matches `command`.
pub open spec fn first_match_from(rules: Seq<CommandHint>, command: Seq<char>, i: int) -> Option<int>
    decreases rules.len() - i,
{
    if i < 0 || i >= rules.len() {
        None
    } else if rule_matches(rules[i].pattern@, command) {
        Some(i)
    } else {
        first_match_from(rules, command, i + 1)
    }
}

/// The index of the first rule that matches `command`.
pub open spec fn first_match(rules: Seq<CommandHint>, command: Seq<char>) -> Option<int> {
    first_match_from(rules, command, 0)
}

/// The rule that governs `command`: the first one that matches, if any.
pub open spec fn matching_rule(h: HintFile, command: Seq<char>) -> Option<CommandHint> {
    match first_match(h.commands@, command) {
        Some(i) => Some(h.commands@[i]),
        None => None,
    }
}

/// The TTL for `command`: the matching rule's own, else the default's, else `fallback`.
pub open spec fn effective_ttl(h: Option<HintFile>, command: Seq<char>, fallback: Option<u64>) -> Option<u64> {
    match h {
        None => fallback,
        Some(h) => match matching_rule(h, command) {
            Some(rule) if rule.ttl.is_some() => rule.ttl,
            _ => if h.default.ttl.is_some() { h.default.ttl } else { fallback },
        },
    }
}

/// A matching rule's own TTL wins over the default's, which wins over the caller's
/// fallback; a command that no rule matches gets the default's TTL when there is one.
pub proof fn law_ttl_precedence(h: HintFile, command: Seq<char>, fallback: Option<u64>)
    ensures
        matching_rule(h, command) is Some && matching_rule(h, command)->Some_0.ttl is Some
            ==> effective_ttl(Some(h), command, fallback) == matching_rule(h, command)->Some_0.ttl,
        (matching_rule(h, command) is None || matching_rule(h, command)->Some_0.ttl is None)
            && h.default.ttl is Some ==> effective_ttl(Some(h), command, fallback) == h.default.ttl,
        (matching_rule(h, command) is None || matching_rule(h, command)->Some_0.ttl is None)
            && h.default.ttl is None ==> effective_ttl(Some(h), command, fallback) == fallback,
        effective_ttl(None, command, fallback) == fallback,
{
}

/// Whether the rule pattern `pattern` matches `command`.
pub fn pattern_matches(pattern: &str, command: &str) -> (r: bool)
    ensures
        r == rule_matches(pattern@, command@),
{
    match glob_match(pattern, command) {
        Some(m) => m,
        None => String::from_str(pattern) == String::from_str(command),
    }
}

/// The paths among glob entries that could be read, in order.
pub open spec fn readable_paths(entries: Seq<Option<String>>) -> Seq<Seq<char>> {
    entries.filter_map(|e: Option<String>| match e {
        Some(p) => Some(p@),
        None => None,
    })
}

/// The paths of the entries that a glob yielded and that could be read, in order, each
/// once as yielded.
pub fn readable_matches(entries: &Vec<Option<String>>) -> (r: Vec<String>)
    ensures
        r@.map_values(|s: String| s@) == readable_paths(entries@),
{
    let mut r: Vec<String> = Vec::new();
    let mut i: usize = 0;
    while i < entries.len()
        invariant
            i <= entries@.len(),
            r@.map_values(|s: String| s@) == readable_paths(entries@.subrange(0, i as int)),
        decreases entries@.len() - i,
    {
        let ghost before = r@;
        proof {
            assert(entries@.subrange(0, i + 1).drop_last() =~= entries@.subrange(0, i as int));
            assert(entries@.subrange(0, i + 1).last() == entries@[i as int]);
        }
        match &entries[i] {
            Some(path) => {
                r.push(path.clone());
                assert(r@.map_values(|s: String| s@) =~= before.map_values(|s: String| s@) + seq![path@]);
            },
            None => {
                assert(r@.map_values(|s: String| s@) =~= before.map_values(|s: String| s@));
            },
        }
        i = i + 1;
    }
    proof {
        assert(entries@.subrange(0, entries@.len() as int) =~= entries@);
    }
    r
}

impl Dependency {
    /// The files this dependency reads: the named file of a single-file or line rule, or
    /// the readable paths that the glob, taken relative to `base_dir`, matches on disk now,
    /// in the order the glob yields them (none when the glob is rejected).
    pub fn get_files(&self, base_dir: &str) -> (r: Vec<String>)
        ensures
            match self {
                Dependency::File { file } => r@.len() == 1 && r@[0]@ == file@,
                Dependency::Lines { lines } => r@.len() == 1 && r@[0]@ == lines.file@,
                Dependency::Files { files } => !glob_valid(crate::joined(base_dir@, files@)) ==> r@.len() == 0,
            },
    {
        match self {
            Dependency::File { file } => {
                let mut r: Vec<String> = Vec::new();
                r.push(file.clone());
                r
            },
            Dependency::Lines { lines } => {
                let mut r: Vec<String> = Vec::new();
                r.push(lines.file.clone());
                r
            },
            Dependency::Files { files } => {
                let pattern = crate::join_path(base_dir, files.as_str());
                match expand_glob(pattern.as_str()) {
                    Some(entries) => readable_matches(&entries),
                    None => Vec::new(),
                }
            },
        }
    }
}

/// What was found at one directory level while walking up from the start directory.
#[derive(Debug, Clone)]
pub enum HintProbe {
    /// No hint file at this level.
    Absent,
    /// A hint file is there but could not be read or parsed.
    Malformed,
    /// A hint file is there and parsed to this rule set.
    Found(HintFile),
}

/// The rule set that discovery yields from the levels `levels[i..]`: the first level that
/// holds a hint file decides, and a malformed one means no rule set.
pub open spec fn discovered_from(levels: Seq<HintProbe>, i: int) -> Option<HintFile>
    decreases levels.len() - i,
{
    if i < 0 || i >= levels.len() {
        None
    } else {
        match levels[i] {
            HintProbe::Absent => discovered_from(levels, i + 1),
            HintProbe::Malformed => None,
            HintProbe::Found(h) => Some(h),
        }
    }
}

impl HintFile {
    /// The rule set found by walking up from a start directory, given what each level
    /// holds, from the start directory up to the root.
    pub fn find_hint_file(levels: Vec<HintProbe>) -> (r: Option<HintFile>)
        ensures
            r == discovered_from(levels@, 0),
    {
        let ghost all = levels@;
        let mut v = levels;
        let mut i: usize = 0;
        while i < v.len()
            invariant
                v@ == all,
                all == levels@,
                i <= all.len(),
                discovered_from(all, 0) == discovered_from(all, i as int),
            decreases all.len() - i,
        {
            match &v[i] {
                HintProbe::Absent => {},
                HintProbe::Malformed => return None,
                HintProbe::Found(_) => {
                    match v.remove(i) {
                        HintProbe::Found(h) => return Some(h),
                        _ => return None,
                    }
                },
            }
            i = i + 1;
        }
        None
    }

    /// The first command rule whose pattern matches `command`.
    pub fn find_matching_command(&self, command: &str) -> (r: Option<&CommandHint>)
        ensures
            match r {
                Some(c) => matching_rule(*self, command@) == Some(*c),
                None => matching_rule(*self, command@) is None,
            },
    {
        let mut i: usize = 0;
        while i < self.commands.len()
            invariant
                i <= self.commands@.len(),
                first_match(self.commands@, command@) == first_match_from(self.commands@, command@, i as int),
            decreases self.commands@.len() - i,
        {
            if pattern_matches(self.commands[i].pattern.as_str(), command) {
                return Some(&self.commands[i]);
            }
            i = i + 1;
        }
        None
    }
}

} // verus!
