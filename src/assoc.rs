//! Association lists of strings: the first entry with a given key is the one that counts.

use vstd::prelude::*;

verus! {

/// The value of the first entry whose key is `key` in `entries[i..]`.
pub open spec fn lookup_from(entries: Seq<(String, String)>, key: Seq<char>, i: int) -> Option<Seq<char>>
    decreases entries.len() - i,
{
    if i < 0 || i >= entries.len() {
        None
    } else if entries[i].0@ == key {
        Some(entries[i].1@)
    } else {
        lookup_from(entries, key, i + 1)
    }
}

/// The value of the first entry whose key is `key`.
pub open spec fn lookup(entries: Seq<(String, String)>, key: Seq<char>) -> Option<Seq<char>> {
    lookup_from(entries, key, 0)
}

/// Replacing the value of an entry leaves every other key's lookup as it was.
pub proof fn lemma_lookup_update_other(
    entries: Seq<(String, String)>,
    p: int,
    x: (String, String),
    key: Seq<char>,
    i: int,
)
    requires
        0 <= p < entries.len(),
        x.0@ == entries[p].0@,
        key != x.0@,
        0 <= i,
    ensures
        lookup_from(entries.update(p, x), key, i) == lookup_from(entries, key, i),
    decreases entries.len() - i,
{
    if i < entries.len() {
        lemma_lookup_update_other(entries, p, x, key, i + 1);
    }
}

/// Replacing the first entry with a key makes the lookup of that key give the new value.
pub proof fn lemma_lookup_update_same(entries: Seq<(String, String)>, p: int, x: (String, String), i: int)
    requires
        0 <= i <= p < entries.len(),
        x.0@ == entries[p].0@,
        forall|j: int| i <= j < p ==> (#[trigger] entries[j]).0@ != x.0@,
    ensures
        lookup_from(entries.update(p, x), x.0@, i) == Some(x.1@),
    decreases p - i,
{
    if i < p {
        lemma_lookup_update_same(entries, p, x, i + 1);
    }
}

/// Appending an entry changes only the lookups of keys that had no entry, and of those
/// only the appended key's.
pub proof fn lemma_lookup_push(entries: Seq<(String, String)>, x: (String, String), key: Seq<char>, i: int)
    requires
        0 <= i <= entries.len(),
    ensures
        lookup_from(entries.push(x), key, i) == match lookup_from(entries, key, i) {
            Some(v) => Some(v),
            None => if key == x.0@ { Some(x.1@) } else { None },
        },
    decreases entries.len() + 1 - i,
{
    let pushed = entries.push(x);
    if i < entries.len() {
        assert(pushed[i] == entries[i]);
        lemma_lookup_push(entries, x, key, i + 1);
    } else {
        assert(pushed[i] == x);
        assert(lookup_from(pushed, key, i + 1) is None);
    }
}

/// The entries of `entries` whose key is not `key`, in order.
pub fn without_key(entries: &Vec<(String, String)>, key: &str) -> (r: Vec<(String, String)>)
    ensures
        forall|k: Seq<char>| #[trigger] lookup(r@, k) == if k == key@ { None } else { lookup(entries@, k) },
{
    let kk = String::from_str(key);
    let mut r: Vec<(String, String)> = Vec::new();
    let mut i: usize = 0;
    while i < entries.len()
        invariant
            i <= entries@.len(),
            kk@ == key@,
            forall|k: Seq<char>| #[trigger] lookup(r@, k) == if k == key@ {
                None
            } else {
                lookup(entries@.subrange(0, i as int), k)
            },
        decreases entries@.len() - i,
    {
        let ghost before = r@;
        let ghost prefix = entries@.subrange(0, i as int);
        proof {
            assert(entries@.subrange(0, i + 1) =~= prefix.push(entries@[i as int]));
            assert forall|k: Seq<char>| #[trigger] lookup(entries@.subrange(0, i + 1), k) == match lookup(prefix, k) {
                Some(v) => Some(v),
                None => if k == entries@[i as int].0@ { Some(entries@[i as int].1@) } else { None },
            } by {
                lemma_lookup_push(prefix, entries@[i as int], k, 0);
            }
        }
        if !(entries[i].0 == kk) {
            let e = (entries[i].0.clone(), entries[i].1.clone());
            r.push(e);
            proof {
                assert forall|k: Seq<char>| #[trigger] lookup(r@, k) == match lookup(before, k) {
                    Some(v) => Some(v),
                    None => if k == e.0@ { Some(e.1@) } else { None },
                } by {
                    lemma_lookup_push(before, e, k, 0);
                }
            }
        }
        i = i + 1;
    }
    proof {
        assert(entries@.subrange(0, entries@.len() as int) =~= entries@);
    }
    r
}

/// The index of the first entry whose key is `key`, if any.
pub fn position(entries: &Vec<(String, String)>, key: &str) -> (r: Option<usize>)
    ensures
        match r {
            Some(p) => p < entries@.len() && entries@[p as int].0@ == key@
                && lookup(entries@, key@) == Some(entries@[p as int].1@)
                && forall|j: int| 0 <= j < p ==> (#[trigger] entries@[j]).0@ != key@,
            None => lookup(entries@, key@) is None,
        },
{
    let k = String::from_str(key);
    let mut i: usize = 0;
    while i < entries.len()
        invariant
            i <= entries@.len(),
            k@ == key@,
            lookup(entries@, key@) == lookup_from(entries@, key@, i as int),
            forall|j: int| 0 <= j < i ==> (#[trigger] entries@[j]).0@ != key@,
        decreases entries@.len() - i,
    {
        if entries[i].0 == k {
            return Some(i);
        }
        i = i + 1;
    }
    None
}

} // verus!
