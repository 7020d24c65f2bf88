//! The fingerprint of a command: a SHA-256 digest over the command text, the values of
//! the environment variables that the governing rule names, and the observed state of
//! its dependencies.

use vstd::prelude::*;
use crate::digest::{decimal_of, digest_hex, digest_hex_of, is_lower_hex_char, lemma_hex_of_shape, sha256_of, to_decimal};
use crate::hint_file::{distinct_names, first_occurrences, matching_rule, Dependency, HintFile};
use vstd::utf8::encode_utf8;
use crate::assoc::{lookup, position};

verus! {

/// What was observed of one dependency just before fingerprinting.
#[derive(Debug, Clone)]
pub enum DependencyState {
    /// Modification time of a single file, in whole seconds since the epoch;
    /// `None` when the file is missing or its time cannot be read.
    Stamp(Option<u64>),
    /// The paths that a glob matched, in the order the glob yields them, each with its
    /// modification time; a match whose time cannot be read is left out.
    Matches(Vec<(String, u64)>),
    /// The text of a file; `None` when it is missing or unreadable.
    Text(Option<String>),
}

/// The content that a dependency's digest is taken over, as read from disk.
#[derive(Debug, Clone)]
pub enum DependencyContent {
    /// The bytes of a single file.
    Bytes(Vec<u8>),
    /// The bytes of each file that a glob matched, in the order the glob yields them; `None` for a
    /// match that no longer exists.
    Each(Vec<Option<Vec<u8>>>),
    /// The text of the file of a line rule.
    Text(String),
}

/// The hexadecimal digests of the first `n` files that still exist, concatenated.
pub open spec fn concatenated_digests(files: Seq<Option<Vec<u8>>>, n: int) -> Seq<char>
    decreases n,
{
    if n <= 0 || n > files.len() {
        Seq::empty()
    } else {
        concatenated_digests(files, n - 1) + match files[n - 1] {
            Some(b) => digest_hex_of(b@),
            None => Seq::empty(),
        }
    }
}

/// What the digest of a line rule is taken over: the lines of `text` that `pattern`
/// matches, each followed by `'\n'`; nothing when the pattern does not compile.
pub open spec fn line_digest_input(pattern: Seq<char>, text: Seq<char>) -> Seq<char> {
    if regex_compiles(pattern) {
        selected_lines(pattern, lines_of(text), lines_of(text).len() as int)
    } else {
        Seq::empty()
    }
}

/// The content digest of a dependency: the digest of a single file's bytes; the digest of
/// the concatenated digests of a glob's existing matches; the digest of the lines that a
/// line rule selects, each followed by `'\n'` (none when its expression does not compile).
/// `None` when the content is of another kind than the rule.
pub open spec fn content_hash_of(d: Dependency, c: DependencyContent) -> Option<Seq<char>> {
    match d {
        Dependency::File { .. } => match c {
            DependencyContent::Bytes(b) => Some(digest_hex_of(b@)),
            _ => None,
        },
        Dependency::Files { .. } => match c {
            DependencyContent::Each(fs) => Some(digest_hex_of(encode_utf8(concatenated_digests(fs@, fs@.len() as int)))),
            _ => None,
        },
        Dependency::Lines { lines } => match c {
            DependencyContent::Text(t) => Some(digest_hex_of(encode_utf8(line_digest_input(lines.pattern@, t@)))),
            _ => None,
        },
    }
}

/// Whether `pattern` compiles as a regular expression.
pub uninterp spec fn regex_compiles(pattern: Seq<char>) -> bool;

/// Whether the compiled `pattern` matches somewhere in `text`.
pub uninterp spec fn regex_matches(pattern: Seq<char>, text: Seq<char>) -> bool;

/// Relies on `regex::Regex::new`, which fails exactly on a pattern that does not compile,
/// and on `regex::Regex::is_match`, which tests for a match anywhere in the text.
#[verifier::external_body]
fn regex_match(pattern: &str, text: &str) -> (r: Option<bool>)
    ensures
        r.is_some() == regex_compiles(pattern@),
        r.is_some() ==> r.unwrap() == regex_matches(pattern@, text@),
{
    match regex::Regex::new(pattern) {
        Ok(re) => Some(re.is_match(text)),
        Err(_) => None,
    }
}

/// Drops one trailing carriage return.
pub open spec fn strip_cr(line: Seq<char>) -> Seq<char> {
    if line.len() > 0 && line.last() == '\r' {
        line.drop_last()
    } else {
        line
    }
}

/// The lines of `s[i..]` when `cur` has been read of the current line: each line ends
/// at a `'\n'`, which is dropped together with a `'\r'` just before it; the last line
/// needs no terminator, and an empty remainder after the last terminator is no line.
pub open spec fn lines_from(s: Seq<char>, i: int, cur: Seq<char>) -> Seq<Seq<char>>
    decreases s.len() - i,
{
    if i < 0 || i >= s.len() {
        if cur.len() == 0 { Seq::empty() } else { seq![cur] }
    } else if s[i] == '\n' {
        seq![strip_cr(cur)] + lines_from(s, i + 1, Seq::empty())
    } else {
        lines_from(s, i + 1, cur.push(s[i]))
    }
}

/// The lines of `s`, as `str::lines` yields them.
pub open spec fn lines_of(s: Seq<char>) -> Seq<Seq<char>> {
    lines_from(s, 0, Seq::empty())
}

/// Relies on `str::lines`: the text split at `\n` or `\r\n`, terminators left out, the
/// final terminator optional.
#[verifier::external_body]
fn text_lines<'a>(text: &'a str) -> (r: Vec<&'a str>)
    ensures
        r@.len() == lines_of(text@).len(),
        forall|i: int| 0 <= i < r@.len() ==> (#[trigger] r@[i])@ == lines_of(text@)[i],
{
    text.lines().collect()
}

/// `name=value` for each of the first `n` names that is set in `env`, in order.
pub open spec fn env_text(env: Seq<(String, String)>, names: Seq<Seq<char>>, n: int) -> Seq<char>
    decreases n,
{
    if n <= 0 || n > names.len() {
        Seq::empty()
    } else {
        env_text(env, names, n - 1) + match lookup(env, names[n - 1]) {
            Some(v) => names[n - 1] + seq!['='] + v,
            None => Seq::empty(),
        }
    }
}

/// `name=value` for each of `names` that is set in `env`, each name once, in the order of
/// its first occurrence.
pub open spec fn env_part(env: Seq<(String, String)>, names: Seq<String>) -> Seq<char> {
    let u = first_occurrences(names, names.len() as int);
    env_text(env, u, u.len() as int)
}

/// `name=seconds`.
pub open spec fn stamp_text(name: Seq<char>, secs: u64) -> Seq<char> {
    name + seq!['='] + decimal_of(secs as nat)
}

/// `path=seconds` for each of the first `n` glob matches, in order.
pub open spec fn matches_text(ms: Seq<(String, u64)>, n: int) -> Seq<char>
    decreases n,
{
    if n <= 0 || n > ms.len() {
        Seq::empty()
    } else {
        matches_text(ms, n - 1) + stamp_text(ms[n - 1].0@, ms[n - 1].1)
    }
}

/// Each of the first `n` lines that `pattern` matches, followed by `'\n'`, in order.
pub open spec fn selected_lines(pattern: Seq<char>, lines: Seq<Seq<char>>, n: int) -> Seq<char>
    decreases n,
{
    if n <= 0 || n > lines.len() {
        Seq::empty()
    } else {
        selected_lines(pattern, lines, n - 1) + selected_line(pattern, lines[n - 1])
    }
}

/// What one dependency contributes: a file's time, each glob match's time, or the
/// content digest of the lines of a file that its regular expression selects (of no
/// lines when it does not compile). A missing file, an unreadable time, or a state of
/// another kind contribute nothing.
pub open spec fn dependency_text(d: Dependency, s: DependencyState) -> Seq<char> {
    match d {
        Dependency::File { file } => match s {
            DependencyState::Stamp(Some(t)) => stamp_text(file@, t),
            _ => Seq::empty(),
        },
        Dependency::Files { .. } => match s {
            DependencyState::Matches(ms) => matches_text(ms@, ms@.len() as int),
            _ => Seq::empty(),
        },
        Dependency::Lines { lines } => match s {
            DependencyState::Text(Some(text)) => digest_hex_of(encode_utf8(line_digest_input(lines.pattern@, text@))),
            _ => Seq::empty(),
        },
    }
}

/// What the dependency at index `i` contributes with the state at the same index;
/// nothing when there is no state for it.
pub open spec fn contribution(deps: Seq<Dependency>, states: Seq<DependencyState>, i: int) -> Seq<char> {
    if 0 <= i < states.len() && i < deps.len() {
        dependency_text(deps[i], states[i])
    } else {
        Seq::empty()
    }
}

/// The contributions of the first `n` dependencies, in order.
pub open spec fn dependencies_text(deps: Seq<Dependency>, states: Seq<DependencyState>, n: int) -> Seq<char>
    decreases n,
{
    if n <= 0 || n > deps.len() {
        Seq::empty()
    } else {
        dependencies_text(deps, states, n - 1) + contribution(deps, states, n - 1)
    }
}

/// The dependencies that the rule governing `command` declares.
pub open spec fn governing_dependencies(h: Option<HintFile>, command: Seq<char>) -> Seq<Dependency> {
    match h {
        Some(h) => match matching_rule(h, command) {
            Some(rule) => rule.depends_on@,
            None => Seq::empty(),
        },
        None => Seq::empty(),
    }
}

/// The environment variable names that the rule governing `command` declares: the
/// matching rule's, else the default's.
pub open spec fn governing_env(h: Option<HintFile>, command: Seq<char>) -> Seq<String> {
    match h {
        Some(h) => match matching_rule(h, command) {
            Some(rule) => rule.include_env@,
            None => h.default.include_env@,
        },
        None => Seq::empty(),
    }
}

/// The text whose digest is the fingerprint: the command, then `name=value` for each
/// governing variable that is set, then each governing dependency's contribution.
pub open spec fn fingerprint_text(
    h: Option<HintFile>,
    command: Seq<char>,
    env: Seq<(String, String)>,
    states: Seq<DependencyState>,
) -> Seq<char> {
    let names = governing_env(h, command);
    let deps = governing_dependencies(h, command);
    command + env_part(env, names) + dependencies_text(deps, states, deps.len() as int)
}

/// The fingerprint: the SHA-256 digest of the UTF-8 encoding of the fingerprint text,
/// in lowercase hexadecimal.
pub open spec fn fingerprint_of(
    h: Option<HintFile>,
    command: Seq<char>,
    env: Seq<(String, String)>,
    states: Seq<DependencyState>,
) -> Seq<char> {
    digest_hex_of(encode_utf8(fingerprint_text(h, command, env, states)))
}

/// Appends `name=value` for each of `names` that is set in `env`, each name once.
fn append_env(s: &mut String, env: &Vec<(String, String)>, names: &Vec<String>)
    ensures
        final(s)@ == old(s)@ + env_part(env@, names@),
{
    let ghost start = s@;
    proof {
        reveal_strlit("=");
    }
    let unique = distinct_names(names);
    let ghost u = unique@.map_values(|x: String| x@);
    let mut i: usize = 0;
    while i < unique.len()
        invariant
            i <= unique@.len(),
            u == unique@.map_values(|x: String| x@),
            s@ == start + env_text(env@, u, i as int),
            "="@ == seq!['='],
        decreases unique@.len() - i,
    {
        assert(u[i as int] == unique@[i as int]@);
        match position(env, unique[i].as_str()) {
            Some(p) => {
                s.append(unique[i].as_str());
                s.append("=");
                s.append(env[p].1.as_str());
                assert(s@ =~= start + env_text(env@, u, i + 1));
            },
            None => {
                assert(s@ =~= start + env_text(env@, u, i + 1));
            },
        }
        i = i + 1;
    }
}

/// Appends `name=seconds`.
fn append_stamp(s: &mut String, name: &str, secs: u64)
    ensures
        final(s)@ == old(s)@ + stamp_text(name@, secs),
{
    let ghost start = s@;
    proof {
        reveal_strlit("=");
    }
    s.append(name);
    s.append("=");
    let d = to_decimal(secs);
    s.append(d.as_str());
    assert(s@ =~= start + stamp_text(name@, secs));
}

/// Appends each line of `text` that `pattern` matches, followed by `'\n'`, when the
/// pattern compiles.
fn append_selected_lines(s: &mut String, pattern: &str, text: &str)
    ensures
        final(s)@ == old(s)@ + if regex_compiles(pattern@) {
            selected_lines(pattern@, lines_of(text@), lines_of(text@).len() as int)
        } else {
            Seq::empty()
        },
{
    let ghost start = s@;
    let ghost all = lines_of(text@);
    proof {
        reveal_strlit("\n");
    }
    let lines = text_lines(text);
    let mut i: usize = 0;
    while i < lines.len()
        invariant
            i <= lines@.len(),
            lines@.len() == all.len(),
            forall|k: int| 0 <= k < lines@.len() ==> (#[trigger] lines@[k])@ == all[k],
            s@ == start + selected_lines(pattern@, all, i as int),
            i > 0 ==> regex_compiles(pattern@),
            start == old(s)@,
            "\n"@ == seq!['\n'],
        decreases lines@.len() - i,
    {
        match regex_match(pattern, lines[i]) {
            Some(m) => {
                if m {
                    s.append(lines[i]);
                    s.append("\n");
                }
                assert(s@ =~= start + selected_lines(pattern@, all, i + 1));
            },
            None => {
                assert(!regex_compiles(pattern@));
                assert(s@ =~= start + Seq::<char>::empty());
                return;
            },
        }
        i = i + 1;
    }
    proof {
        if !regex_compiles(pattern@) {
            assert(s@ =~= start + Seq::empty());
        }
    }
}

/// The digest of the lines of `text` that `pattern` selects.
fn line_digest(pattern: &str, text: &str) -> (r: String)
    ensures
        r@ == digest_hex_of(encode_utf8(line_digest_input(pattern@, text@))),
        r@.len() == 64,
{
    let mut selected = String::new();
    append_selected_lines(&mut selected, pattern, text);
    assert(selected@ =~= line_digest_input(pattern@, text@));
    digest_hex(selected.as_str().as_bytes())
}

/// Appends what dependency `d` contributes in state `st`.
fn append_dependency(s: &mut String, d: &Dependency, st: &DependencyState)
    ensures
        final(s)@ == old(s)@ + dependency_text(*d, *st),
{
    let ghost start = s@;
    match d {
        Dependency::File { file } => match st {
            DependencyState::Stamp(Some(t)) => append_stamp(s, file.as_str(), *t),
            _ => assert(s@ =~= start + dependency_text(*d, *st)),
        },
        Dependency::Files { .. } => match st {
            DependencyState::Matches(ms) => {
                let mut i: usize = 0;
                while i < ms.len()
                    invariant
                        i <= ms@.len(),
                        s@ == start + matches_text(ms@, i as int),
                    decreases ms@.len() - i,
                {
                    append_stamp(s, ms[i].0.as_str(), ms[i].1);
                    assert(s@ =~= start + matches_text(ms@, i + 1));
                    i = i + 1;
                }
            },
            _ => assert(s@ =~= start + dependency_text(*d, *st)),
        },
        Dependency::Lines { lines } => match st {
            DependencyState::Text(Some(text)) => {
                let d = line_digest(lines.pattern.as_str(), text.as_str());
                s.append(d.as_str());
            },
            _ => assert(s@ =~= start + dependency_text(*d, *st)),
        },
    }
}

impl Dependency {
    /// The content digest of this dependency over `content`, as 64 lowercase hexadecimal
    /// characters; `None` when `content` is of another kind than the rule.
    pub fn get_content_hash(&self, content: &DependencyContent) -> (r: Option<String>)
        ensures
            match r {
                Some(h) => content_hash_of(*self, *content) == Some(h@) && h@.len() == 64,
                None => content_hash_of(*self, *content) is None,
            },
    {
        match self {
            Dependency::File { .. } => match content {
                DependencyContent::Bytes(b) => Some(digest_hex(b.as_slice())),
                _ => None,
            },
            Dependency::Files { .. } => match content {
                DependencyContent::Each(files) => {
                    let mut combined = String::new();
                    let mut i: usize = 0;
                    while i < files.len()
                        invariant
                            i <= files@.len(),
                            combined@ == concatenated_digests(files@, i as int),
                        decreases files@.len() - i,
                    {
                        match &files[i] {
                            Some(b) => {
                                let h = digest_hex(b.as_slice());
                                combined.append(h.as_str());
                            },
                            None => {},
                        }
                        assert(combined@ =~= concatenated_digests(files@, i + 1));
                        i = i + 1;
                    }
                    Some(digest_hex(combined.as_str().as_bytes()))
                },
                _ => None,
            },
            Dependency::Lines { lines } => match content {
                DependencyContent::Text(t) => {
                    Some(line_digest(lines.pattern.as_str(), t.as_str()))
                },
                _ => None,
            },
        }
    }
}

/// The fingerprint of `command` under the rule set `hint`, given the set environment
/// variables `env` and the observed state of each governing dependency, by index. A
/// dependency without a state at its index contributes nothing.
pub fn fingerprint(
    hint: &Option<HintFile>,
    command: &str,
    env: &Vec<(String, String)>,
    states: &Vec<DependencyState>,
) -> (r: String)
    ensures
        r@ == fingerprint_of(*hint, command@, env@, states@),
        r@.len() == 64,
{
    let mut text = String::from_str(command);
    let ghost names = governing_env(*hint, command@);
    let ghost deps = governing_dependencies(*hint, command@);
    match hint {
        None => {
            assert(text@ =~= fingerprint_text(*hint, command@, env@, states@));
        },
        Some(h) => match h.find_matching_command(command) {
            Some(rule) => {
                append_env(&mut text, env, &rule.include_env);
                let ghost mid = text@;
                let mut i: usize = 0;
                while i < rule.depends_on.len()
                    invariant
                        i <= deps.len(),
                        deps == rule.depends_on@,
                        text@ == mid + dependencies_text(deps, states@, i as int),
                    decreases deps.len() - i,
                {
                    if i < states.len() {
                        append_dependency(&mut text, &rule.depends_on[i], &states[i]);
                    }
                    assert(text@ =~= mid + dependencies_text(deps, states@, i + 1));
                    i = i + 1;
                }
                assert(text@ =~= fingerprint_text(*hint, command@, env@, states@));
            },
            None => {
                append_env(&mut text, env, &h.default.include_env);
                assert(text@ =~= fingerprint_text(*hint, command@, env@, states@));
            },
        },
    }
    digest_hex(text.as_str().as_bytes())
}

} // verus!

verus! {

proof fn lemma_append_cancel_left(x: Seq<char>, a: Seq<char>, b: Seq<char>)
    requires
        x + a == x + b,
    ensures
        a == b,
{
    assert(a =~= (x + a).subrange(x.len() as int, (x + a).len() as int));
    assert(b =~= (x + b).subrange(x.len() as int, (x + b).len() as int));
}

proof fn lemma_append_cancel_right(a: Seq<char>, b: Seq<char>, c: Seq<char>)
    requires
        a + c == b + c,
    ensures
        a == b,
{
    assert((a + c).len() == a.len() + c.len());
    assert((b + c).len() == b.len() + c.len());
    assert(a =~= (a + c).subrange(0, a.len() as int));
    assert(b =~= (b + c).subrange(0, b.len() as int));
}

proof fn lemma_stamp_text_differs(name: Seq<char>, t1: u64, t2: u64)
    requires
        t1 != t2,
    ensures
        stamp_text(name, t1) != stamp_text(name, t2),
{
    if stamp_text(name, t1) == stamp_text(name, t2) {
        lemma_append_cancel_left(name + seq!['='], decimal_of(t1 as nat), decimal_of(t2 as nat));
        crate::digest::lemma_decimal_of_injective(t1 as nat, t2 as nat);
    }
}

/// Observations that differ in the contribution of exactly one dependency give different
/// combined texts.
proof fn lemma_dependencies_text_differ(
    deps: Seq<Dependency>,
    s1: Seq<DependencyState>,
    s2: Seq<DependencyState>,
    k: int,
    n: int,
)
    requires
        0 <= k < n <= deps.len(),
        forall|i: int| 0 <= i < n && i != k ==> contribution(deps, s1, i) == contribution(deps, s2, i),
        contribution(deps, s1, k) != contribution(deps, s2, k),
    ensures
        dependencies_text(deps, s1, n) != dependencies_text(deps, s2, n),
    decreases n,
{
    if n == k + 1 {
        lemma_dependencies_text_agree(deps, s1, s2, k);
        if dependencies_text(deps, s1, n) == dependencies_text(deps, s2, n) {
            lemma_append_cancel_left(dependencies_text(deps, s1, k), contribution(deps, s1, k), contribution(deps, s2, k));
        }
    } else {
        lemma_dependencies_text_differ(deps, s1, s2, k, n - 1);
        if dependencies_text(deps, s1, n) == dependencies_text(deps, s2, n) {
            lemma_append_cancel_right(
                dependencies_text(deps, s1, n - 1),
                dependencies_text(deps, s2, n - 1),
                contribution(deps, s1, n - 1),
            );
        }
    }
}

/// Glob matches that differ only in the time of the match at `j` give different texts.
proof fn lemma_matches_text_differ(ms1: Seq<(String, u64)>, ms2: Seq<(String, u64)>, j: int, n: int)
    requires
        ms1.len() == ms2.len(),
        0 <= j < n <= ms1.len(),
        forall|i: int| 0 <= i < ms1.len() && i != j ==> ms1[i] == ms2[i],
        ms1[j].0@ == ms2[j].0@,
        ms1[j].1 != ms2[j].1,
    ensures
        matches_text(ms1, n) != matches_text(ms2, n),
    decreases n,
{
    if n == j + 1 {
        lemma_matches_text_agree(ms1, ms2, j);
        lemma_stamp_text_differs(ms1[j].0@, ms1[j].1, ms2[j].1);
        if matches_text(ms1, n) == matches_text(ms2, n) {
            lemma_append_cancel_left(matches_text(ms1, j), stamp_text(ms1[j].0@, ms1[j].1), stamp_text(ms2[j].0@, ms2[j].1));
        }
    } else {
        lemma_matches_text_differ(ms1, ms2, j, n - 1);
        if matches_text(ms1, n) == matches_text(ms2, n) {
            lemma_append_cancel_right(matches_text(ms1, n - 1), matches_text(ms2, n - 1), stamp_text(ms1[n - 1].0@, ms1[n - 1].1));
        }
    }
}

proof fn lemma_matches_text_agree(ms1: Seq<(String, u64)>, ms2: Seq<(String, u64)>, n: int)
    requires
        ms1.len() == ms2.len(),
        n <= ms1.len(),
        forall|i: int| 0 <= i < n ==> ms1[i] == ms2[i],
    ensures
        matches_text(ms1, n) == matches_text(ms2, n),
    decreases n,
{
    if n > 0 {
        lemma_matches_text_agree(ms1, ms2, n - 1);
    }
}

/// What line `l` adds to the selected text.
pub open spec fn selected_line(pattern: Seq<char>, l: Seq<char>) -> Seq<char> {
    if regex_matches(pattern, l) {
        l + seq!['\n']
    } else {
        Seq::empty()
    }
}

proof fn lemma_selected_lines_agree_prefix(pattern: Seq<char>, l1: Seq<Seq<char>>, l2: Seq<Seq<char>>, n: int)
    requires
        0 <= n <= l1.len(),
        n <= l2.len(),
        forall|i: int| 0 <= i < n ==> l1[i] == l2[i],
    ensures
        selected_lines(pattern, l1, n) == selected_lines(pattern, l2, n),
    decreases n,
{
    if n > 0 {
        lemma_selected_lines_agree_prefix(pattern, l1, l2, n - 1);
    }
}

/// Dependencies whose contributions agree give the same combined text.
pub proof fn lemma_dependencies_text_agree(
    deps: Seq<Dependency>,
    s1: Seq<DependencyState>,
    s2: Seq<DependencyState>,
    n: int,
)
    requires
        forall|i: int| 0 <= i < n ==> contribution(deps, s1, i) == contribution(deps, s2, i),
    ensures
        dependencies_text(deps, s1, n) == dependencies_text(deps, s2, n),
    decreases n,
{
    if n > 0 && n <= deps.len() {
        lemma_dependencies_text_agree(deps, s1, s2, n - 1);
    }
}

/// The fingerprint is a function of the command, the rule set, the environment and the
/// observed dependency states alone (so repeated computations on the same inputs agree),
/// and it is made of lowercase hexadecimal digits, two per digest byte; `fingerprint`
/// adds that there are 64 of them.
pub proof fn law_fingerprint_shape(
    h: Option<HintFile>,
    command: Seq<char>,
    env: Seq<(String, String)>,
    states: Seq<DependencyState>,
)
    ensures
        fingerprint_of(h, command, env, states) == digest_hex_of(encode_utf8(fingerprint_text(h, command, env, states))),
        fingerprint_of(h, command, env, states).len()
            == 2 * sha256_of(encode_utf8(fingerprint_text(h, command, env, states))).len(),
        forall|i: int| 0 <= i < fingerprint_of(h, command, env, states).len()
            ==> is_lower_hex_char(#[trigger] fingerprint_of(h, command, env, states)[i]),
{
    lemma_hex_of_shape(sha256_of(encode_utf8(fingerprint_text(h, command, env, states))));
}

/// Only the states of the dependencies that the governing rule declares count: two
/// observations that hold the same state for each declared dependency give the same
/// fingerprint, whatever they hold beyond; a file that no declared dependency reads has
/// no state in an observation at all.
pub proof fn law_only_declared_dependencies_count(
    h: Option<HintFile>,
    command: Seq<char>,
    env: Seq<(String, String)>,
    s1: Seq<DependencyState>,
    s2: Seq<DependencyState>,
)
    requires
        s1.len() >= governing_dependencies(h, command).len(),
        s2.len() >= governing_dependencies(h, command).len(),
        s1.subrange(0, governing_dependencies(h, command).len() as int)
            == s2.subrange(0, governing_dependencies(h, command).len() as int),
    ensures
        fingerprint_of(h, command, env, s1) == fingerprint_of(h, command, env, s2),
{
    let deps = governing_dependencies(h, command);
    let n = deps.len() as int;
    assert forall|i: int| 0 <= i < n implies contribution(deps, s1, i) == contribution(deps, s2, i) by {
        assert(s1[i] == s1.subrange(0, n)[i]);
        assert(s2[i] == s2.subrange(0, n)[i]);
    }
    lemma_dependencies_text_agree(deps, s1, s2, n);
    assert(fingerprint_text(h, command, env, s1) == fingerprint_text(h, command, env, s2));
}

/// A new modification time of a single-file dependency changes the text whose SHA-256
/// digest is the fingerprint.
pub proof fn law_file_time_changes_text(
    h: Option<HintFile>,
    command: Seq<char>,
    env: Seq<(String, String)>,
    s1: Seq<DependencyState>,
    s2: Seq<DependencyState>,
    k: int,
    t1: u64,
    t2: u64,
)
    requires
        0 <= k < governing_dependencies(h, command).len(),
        governing_dependencies(h, command)[k] is File,
        s1.len() == s2.len(),
        k < s1.len(),
        forall|i: int| 0 <= i < s1.len() && i != k ==> s1[i] == s2[i],
        s1[k] == DependencyState::Stamp(Some(t1)),
        s2[k] == DependencyState::Stamp(Some(t2)),
        t1 != t2,
    ensures
        fingerprint_text(h, command, env, s1) != fingerprint_text(h, command, env, s2),
{
    let deps = governing_dependencies(h, command);
    let names = governing_env(h, command);
    lemma_stamp_text_differs(deps[k]->file@, t1, t2);
    lemma_dependencies_text_differ(deps, s1, s2, k, deps.len() as int);
    if fingerprint_text(h, command, env, s1) == fingerprint_text(h, command, env, s2) {
        lemma_append_cancel_left(
            command + env_part(env, names),
            dependencies_text(deps, s1, deps.len() as int),
            dependencies_text(deps, s2, deps.len() as int),
        );
    }
}

/// A new modification time of one file that a glob dependency matches changes the text
/// whose SHA-256 digest is the fingerprint.
pub proof fn law_glob_match_time_changes_text(
    h: Option<HintFile>,
    command: Seq<char>,
    env: Seq<(String, String)>,
    s1: Seq<DependencyState>,
    s2: Seq<DependencyState>,
    k: int,
    ms1: Vec<(String, u64)>,
    ms2: Vec<(String, u64)>,
    j: int,
)
    requires
        0 <= k < governing_dependencies(h, command).len(),
        governing_dependencies(h, command)[k] is Files,
        s1.len() == s2.len(),
        k < s1.len(),
        forall|i: int| 0 <= i < s1.len() && i != k ==> s1[i] == s2[i],
        s1[k] == DependencyState::Matches(ms1),
        s2[k] == DependencyState::Matches(ms2),
        ms1@.len() == ms2@.len(),
        0 <= j < ms1@.len(),
        forall|i: int| 0 <= i < ms1@.len() && i != j ==> ms1@[i] == ms2@[i],
        ms1@[j].0@ == ms2@[j].0@,
        ms1@[j].1 != ms2@[j].1,
    ensures
        fingerprint_text(h, command, env, s1) != fingerprint_text(h, command, env, s2),
{
    let deps = governing_dependencies(h, command);
    let names = governing_env(h, command);
    lemma_matches_text_differ(ms1@, ms2@, j, ms1@.len() as int);
    lemma_dependencies_text_differ(deps, s1, s2, k, deps.len() as int);
    if fingerprint_text(h, command, env, s1) == fingerprint_text(h, command, env, s2) {
        lemma_append_cancel_left(
            command + env_part(env, names),
            dependencies_text(deps, s1, deps.len() as int),
            dependencies_text(deps, s2, deps.len() as int),
        );
    }
}

/// The lines of `lines` that `pattern` matches, in order.
pub open spec fn matching_lines(pattern: Seq<char>, lines: Seq<Seq<char>>) -> Seq<Seq<char>>
    decreases lines.len(),
{
    if lines.len() == 0 {
        Seq::empty()
    } else {
        let prev = matching_lines(pattern, lines.drop_last());
        if regex_matches(pattern, lines.last()) {
            prev.push(lines.last())
        } else {
            prev
        }
    }
}

/// Each line of `ls` followed by `'\n'`, in order.
pub open spec fn terminated(ls: Seq<Seq<char>>) -> Seq<char>
    decreases ls.len(),
{
    if ls.len() == 0 {
        Seq::empty()
    } else {
        terminated(ls.drop_last()) + ls.last() + seq!['\n']
    }
}

/// Whether `l` holds no `'\n'`.
pub open spec fn no_newline(l: Seq<char>) -> bool {
    forall|j: int| 0 <= j < l.len() ==> l[j] != '\n'
}

/// The selected text is the matching lines, each terminated.
proof fn lemma_selected_is_terminated(pattern: Seq<char>, lines: Seq<Seq<char>>)
    ensures
        selected_lines(pattern, lines, lines.len() as int) == terminated(matching_lines(pattern, lines)),
    decreases lines.len(),
{
    if lines.len() > 0 {
        let n = lines.len() as int;
        let init = lines.drop_last();
        lemma_selected_lines_agree_prefix(pattern, lines, init, n - 1);
        lemma_selected_is_terminated(pattern, init);
        let prev = matching_lines(pattern, init);
        if regex_matches(pattern, lines.last()) {
            assert(prev.push(lines.last()).drop_last() =~= prev);
            assert(selected_lines(pattern, lines, n) =~= terminated(prev) + lines.last() + seq!['\n']);
        } else {
            assert(selected_lines(pattern, lines, n) =~= terminated(prev));
        }
    }
}

proof fn lemma_lines_from_no_newline(s: Seq<char>, i: int, cur: Seq<char>)
    requires
        no_newline(cur),
    ensures
        forall|m: int| 0 <= m < lines_from(s, i, cur).len() ==> no_newline(#[trigger] lines_from(s, i, cur)[m]),
    decreases s.len() - i,
{
    if i < 0 || i >= s.len() {
        if cur.len() > 0 {
            assert(lines_from(s, i, cur) =~= seq![cur]);
        }
    } else if s[i] == '\n' {
        lemma_lines_from_no_newline(s, i + 1, Seq::empty());
        let rest = lines_from(s, i + 1, Seq::empty());
        let first = strip_cr(cur);
        assert forall|j: int| 0 <= j < first.len() implies first[j] != '\n' by {
            assert(first[j] == cur[j]);
        }
        assert forall|m: int| 0 <= m < lines_from(s, i, cur).len() implies no_newline(#[trigger] lines_from(s, i, cur)[m]) by {
            if m > 0 {
                assert(lines_from(s, i, cur)[m] == rest[m - 1]);
            } else {
                assert(lines_from(s, i, cur)[m] == first);
            }
        }
    } else {
        let next = cur.push(s[i]);
        assert forall|j: int| 0 <= j < next.len() implies next[j] != '\n' by {
            if j < cur.len() {
                assert(next[j] == cur[j]);
            }
        }
        lemma_lines_from_no_newline(s, i + 1, next);
        assert(lines_from(s, i, cur) == lines_from(s, i + 1, next));
    }
}

proof fn lemma_matching_lines_no_newline(pattern: Seq<char>, lines: Seq<Seq<char>>)
    requires
        forall|m: int| 0 <= m < lines.len() ==> no_newline(#[trigger] lines[m]),
    ensures
        forall|m: int| 0 <= m < matching_lines(pattern, lines).len() ==> no_newline(#[trigger] matching_lines(pattern, lines)[m]),
    decreases lines.len(),
{
    if lines.len() > 0 {
        let init = lines.drop_last();
        assert forall|m: int| 0 <= m < init.len() implies no_newline(#[trigger] init[m]) by {
            assert(init[m] == lines[m]);
        }
        lemma_matching_lines_no_newline(pattern, init);
        let prev = matching_lines(pattern, init);
        assert(no_newline(lines.last()));
        if regex_matches(pattern, lines.last()) {
            assert forall|m: int| 0 <= m < prev.push(lines.last()).len() implies no_newline(#[trigger] prev.push(lines.last())[m]) by {
                if m < prev.len() {
                    assert(prev.push(lines.last())[m] == prev[m]);
                }
            }
        }
    }
}

proof fn lemma_terminated_shape(ls: Seq<Seq<char>>)
    ensures
        ls.len() > 0 ==> terminated(ls).len() > 0 && terminated(ls).last() == '\n',
        ls.len() == 0 ==> terminated(ls).len() == 0,
{
}

/// Newline-free lines are told apart by their terminated text.
proof fn lemma_terminated_injective(a: Seq<Seq<char>>, b: Seq<Seq<char>>)
    requires
        forall|m: int| 0 <= m < a.len() ==> no_newline(#[trigger] a[m]),
        forall|m: int| 0 <= m < b.len() ==> no_newline(#[trigger] b[m]),
        terminated(a) == terminated(b),
    ensures
        a == b,
    decreases a.len(),
{
    lemma_terminated_shape(a);
    lemma_terminated_shape(b);
    if a.len() == 0 || b.len() == 0 {
        assert(a.len() == 0 && b.len() == 0);
        assert(a =~= b);
    } else {
        let a0 = a.drop_last();
        let b0 = b.drop_last();
        let x = a.last();
        let y = b.last();
        let pa = terminated(a0);
        let pb = terminated(b0);
        assert(no_newline(x));
        assert(no_newline(y));
        lemma_append_cancel_right(pa + x, pb + y, seq!['\n']);
        let w = pa + x;
        assert(w == pb + y);
        lemma_terminated_shape(a0);
        lemma_terminated_shape(b0);
        if x.len() < y.len() {
            let q = w.len() - x.len() - 1;
            if a0.len() == 0 {
                assert(w.len() == x.len());
                assert(false);
            } else {
                assert(w[q] == pa[pa.len() - 1]);
                assert(w[q] == y[q - pb.len()]);
                assert(false);
            }
        } else if y.len() < x.len() {
            let q = w.len() - y.len() - 1;
            if b0.len() == 0 {
                assert(w.len() == y.len());
                assert(false);
            } else {
                assert(w[q] == pb[pb.len() - 1]);
                assert(w[q] == x[q - pa.len()]);
                assert(false);
            }
        }
        assert(pa =~= w.subrange(0, pa.len() as int));
        assert(pb =~= w.subrange(0, pb.len() as int));
        assert(x =~= w.subrange(pa.len() as int, w.len() as int));
        assert(y =~= w.subrange(pb.len() as int, w.len() as int));
        assert forall|m: int| 0 <= m < a0.len() implies no_newline(#[trigger] a0[m]) by {
            assert(a0[m] == a[m]);
        }
        assert forall|m: int| 0 <= m < b0.len() implies no_newline(#[trigger] b0[m]) by {
            assert(b0[m] == b[m]);
        }
        lemma_terminated_injective(a0, b0);
        assert(a =~= a0.push(x));
        assert(b =~= b0.push(y));
    }
}

/// Editing the file of a line-filtered dependency leaves the fingerprint as it was when
/// the sequence of its lines that the regular expression matches stays the same, however
/// many other lines change, appear or vanish.
pub proof fn law_line_filter_isolation(
    h: Option<HintFile>,
    command: Seq<char>,
    env: Seq<(String, String)>,
    s1: Seq<DependencyState>,
    s2: Seq<DependencyState>,
    k: int,
    t1: String,
    t2: String,
)
    requires
        0 <= k < governing_dependencies(h, command).len(),
        governing_dependencies(h, command)[k] is Lines,
        s1.len() == s2.len(),
        k < s1.len(),
        forall|i: int| 0 <= i < s1.len() && i != k ==> s1[i] == s2[i],
        s1[k] == DependencyState::Text(Some(t1)),
        s2[k] == DependencyState::Text(Some(t2)),
        matching_lines(governing_dependencies(h, command)[k]->lines.pattern@, lines_of(t1@))
            == matching_lines(governing_dependencies(h, command)[k]->lines.pattern@, lines_of(t2@)),
    ensures
        fingerprint_of(h, command, env, s1) == fingerprint_of(h, command, env, s2),
{
    let deps = governing_dependencies(h, command);
    let p = deps[k]->lines.pattern@;
    lemma_selected_is_terminated(p, lines_of(t1@));
    lemma_selected_is_terminated(p, lines_of(t2@));
    assert forall|i: int| 0 <= i < deps.len() implies contribution(deps, s1, i) == contribution(deps, s2, i) by {}
    lemma_dependencies_text_agree(deps, s1, s2, deps.len() as int);
    assert(fingerprint_text(h, command, env, s1) == fingerprint_text(h, command, env, s2));
}

/// Editing the file of a line-filtered dependency whose regular expression compiles, so
/// that the sequence of its matching lines changes, changes the text whose SHA-256 digest
/// that dependency contributes to the fingerprint.
pub proof fn law_matching_lines_change_digest_input(pattern: Seq<char>, t1: Seq<char>, t2: Seq<char>)
    requires
        regex_compiles(pattern),
        matching_lines(pattern, lines_of(t1)) != matching_lines(pattern, lines_of(t2)),
    ensures
        line_digest_input(pattern, t1) != line_digest_input(pattern, t2),
{
    let m1 = matching_lines(pattern, lines_of(t1));
    let m2 = matching_lines(pattern, lines_of(t2));
    lemma_selected_is_terminated(pattern, lines_of(t1));
    lemma_selected_is_terminated(pattern, lines_of(t2));
    lemma_lines_from_no_newline(t1, 0, Seq::empty());
    lemma_lines_from_no_newline(t2, 0, Seq::empty());
    lemma_matching_lines_no_newline(pattern, lines_of(t1));
    lemma_matching_lines_no_newline(pattern, lines_of(t2));
    if terminated(m1) == terminated(m2) {
        lemma_terminated_injective(m1, m2);
    }
}

} // verus!
