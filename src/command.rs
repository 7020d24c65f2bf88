//! Splitting a command line into a program and its arguments, and the staleness rule.

use vstd::prelude::*;

verus! {

/// Whether `c` has Unicode's `White_Space` property.
pub open spec fn is_white_space(c: char) -> bool {
    ('\u{9}' <= c && c <= '\u{d}') || c == ' ' || c == '\u{85}' || c == '\u{a0}'
        || c == '\u{1680}' || ('\u{2000}' <= c && c <= '\u{200a}') || c == '\u{2028}'
        || c == '\u{2029}' || c == '\u{202f}' || c == '\u{205f}' || c == '\u{3000}'
}

/// The words of `s[i..]` when `cur` has been read of the current word: maximal
/// non-empty runs of characters that are not whitespace.
pub open spec fn words_from(s: Seq<char>, i: int, cur: Seq<char>) -> Seq<Seq<char>>
    decreases s.len() - i,
{
    if i < 0 || i >= s.len() {
        if cur.len() == 0 { Seq::empty() } else { seq![cur] }
    } else if is_white_space(s[i]) {
        (if cur.len() == 0 { Seq::empty() } else { seq![cur] }) + words_from(s, i + 1, Seq::empty())
    } else {
        words_from(s, i + 1, cur.push(s[i]))
    }
}

/// The whitespace-separated words of `s`.
pub open spec fn words_of(s: Seq<char>) -> Seq<Seq<char>> {
    words_from(s, 0, Seq::empty())
}

/// Relies on `str::split_whitespace`: the substrings separated by any amount of
/// Unicode whitespace, without empty ones.
#[verifier::external_body]
fn split_words<'a>(s: &'a str) -> (r: Vec<&'a str>)
    ensures
        r@.len() == words_of(s@).len(),
        forall|i: int| 0 <= i < r@.len() ==> (#[trigger] r@[i])@ == words_of(s@)[i],
{
    s.split_whitespace().collect()
}

/// The program to run for a command line and its arguments: the first word, then the rest.
pub fn split_command(command: &str) -> (r: Option<(String, Vec<String>)>)
    ensures
        match r {
            None => words_of(command@).len() == 0,
            Some((program, args)) => {
                let w = words_of(command@);
                &&& w.len() > 0
                &&& program@ == w[0]
                &&& args@.len() == w.len() - 1
                &&& forall|i: int| 0 <= i < args@.len() ==> (#[trigger] args@[i])@ == w[i + 1]
            },
        },
{
    let words = split_words(command);
    if words.len() == 0 {
        return None;
    }
    let ghost w = words_of(command@);
    let program = String::from_str(words[0]);
    let mut args: Vec<String> = Vec::new();
    let mut i: usize = 1;
    while i < words.len()
        invariant
            1 <= i <= words@.len(),
            words@.len() == w.len(),
            forall|k: int| 0 <= k < words@.len() ==> (#[trigger] words@[k])@ == w[k],
            args@.len() == i - 1,
            forall|k: int| 0 <= k < args@.len() ==> (#[trigger] args@[k])@ == w[k + 1],
        decreases words@.len() - i,
    {
        args.push(String::from_str(words[i]));
        i = i + 1;
    }
    Some((program, args))
}

/// An entry created at `created` (seconds since the epoch) is fresh at `now` when no TTL
/// applies, or when it is not from the future and at most `ttl` seconds old.
pub open spec fn is_fresh(created: u64, now: u64, ttl: Option<u64>) -> bool {
    match ttl {
        None => true,
        Some(t) => created <= now && now - created <= t,
    }
}

/// Whether an entry created at `created` is still fresh at `now` under `ttl`.
pub fn fresh(created: u64, now: u64, ttl: Option<u64>) -> (r: bool)
    ensures
        r == is_fresh(created, now, ttl),
{
    match ttl {
        None => true,
        Some(t) => created <= now && now - created <= t,
    }
}

} // verus!
