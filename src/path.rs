//! Slash-separated paths: joining a possibly absolute path onto a base, and splitting a
//! path into its parent directory and its last component.

use vstd::prelude::*;

verus! {

/// `p` taken relative to `base`: an absolute `p` stands for itself, as with `Path::join`.
pub open spec fn path_join(base: Seq<char>, p: Seq<char>) -> Seq<char> {
    if p.len() > 0 && p[0] == '/' {
        p
    } else if base.len() == 0 {
        p
    } else if base.last() == '/' {
        base + p
    } else {
        base + seq!['/'] + p
    }
}

/// `p` without trailing slashes; a lone `/` stays.
pub open spec fn trim_slashes(p: Seq<char>) -> Seq<char>
    decreases p.len(),
{
    if p.len() > 1 && p.last() == '/' {
        trim_slashes(p.drop_last())
    } else {
        p
    }
}

/// The index of the last `/` among the first `n` characters of `p`, or -1.
pub open spec fn last_slash(p: Seq<char>, n: int) -> int
    decreases n,
{
    if n <= 0 || n > p.len() {
        -1
    } else if p[n - 1] == '/' {
        n - 1
    } else {
        last_slash(p, n - 1)
    }
}

/// The directory that holds the last component of `p`: `.` when `p` has no slash, `/`
/// for a component right under the root.
pub open spec fn parent_dir(p: Seq<char>) -> Seq<char> {
    let t = trim_slashes(p);
    let k = last_slash(t, t.len() as int);
    if k < 0 {
        seq!['.']
    } else if k == 0 {
        seq!['/']
    } else {
        trim_slashes(t.subrange(0, k))
    }
}

/// The last component of `p`.
pub open spec fn base_name(p: Seq<char>) -> Seq<char> {
    let t = trim_slashes(p);
    t.subrange(last_slash(t, t.len() as int) + 1, t.len() as int)
}

/// Joins `p` onto `base`, keeping an absolute `p` as it is.
pub fn join_onto(base: &str, p: &str) -> (r: String)
    ensures
        r@ == path_join(base@, p@),
{
    proof {
        reveal_strlit("/");
    }
    let plen = p.unicode_len();
    if plen > 0 && p.get_char(0) == '/' {
        return String::from_str(p);
    }
    let blen = base.unicode_len();
    if blen == 0 {
        return String::from_str(p);
    }
    let mut r = String::from_str(base);
    if base.get_char(blen - 1) != '/' {
        r.append("/");
    }
    r.append(p);
    r
}

/// `p` without trailing slashes.
fn trimmed(p: &str) -> (r: &str)
    ensures
        r@ == trim_slashes(p@),
{
    let mut n = p.unicode_len();
    proof {
        assert(p@.subrange(0, n as int) =~= p@);
    }
    while n > 1 && p.get_char(n - 1) == '/'
        invariant
            n <= p@.len(),
            trim_slashes(p@) == trim_slashes(p@.subrange(0, n as int)),
        decreases n,
    {
        proof {
            assert(p@.subrange(0, n as int).drop_last() =~= p@.subrange(0, n - 1));
        }
        n = n - 1;
    }
    let r = p.substring_char(0, n);
    proof {
        if n <= 1 {
            assert(trim_slashes(r@) == r@);
        }
    }
    r
}

/// The parent directory and the last component of `p`.
pub fn split_last(p: &str) -> (r: (String, String))
    ensures
        r.0@ == parent_dir(p@),
        r.1@ == base_name(p@),
{
    proof {
        reveal_strlit(".");
        reveal_strlit("/");
    }
    let t = trimmed(p);
    let n = t.unicode_len();
    let mut k = n;
    while k > 0 && t.get_char(k - 1) != '/'
        invariant
            k <= n,
            n == t@.len(),
            last_slash(t@, n as int) == last_slash(t@, k as int),
        decreases k,
    {
        k = k - 1;
    }
    let name = String::from_str(t.substring_char(k, n));
    if k == 0 {
        return (String::from_str("."), name);
    }
    if k == 1 {
        return (String::from_str("/"), name);
    }
    let parent = String::from_str(trimmed(t.substring_char(0, k - 1)));
    (parent, name)
}

} // verus!
