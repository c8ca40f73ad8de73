//! Paths as character sequences: what it means for a path to lie under a
//! directory, and how a path is written relative to it. The host's separator
//! is a parameter, so that every function means the same on every host.

use vstd::prelude::*;
use crate::text::{chars_of, string_of};

verus! {

/// Holds of the characters that separate the parts of a path: the host's
/// separator, and the forward slash on every host.
pub open spec fn is_separator(c: char, sep: char) -> bool {
    c == sep || c == '/'
}

/// `s` without the separators at its end.
pub open spec fn trim_trailing(s: Seq<char>, sep: char) -> Seq<char>
    decreases s.len(),
{
    if s.len() > 0 && is_separator(s.last(), sep) {
        trim_trailing(s.drop_last(), sep)
    } else {
        s
    }
}

/// `s` without the separators at its start.
pub open spec fn trim_leading(s: Seq<char>, sep: char) -> Seq<char>
    decreases s.len(),
{
    if s.len() > 0 && is_separator(s[0], sep) {
        trim_leading(s.skip(1), sep)
    } else {
        s
    }
}

/// Holds when `path` is `dir` itself or lies below it: `path` starts with
/// `dir` (trailing separators aside), and what follows starts a new part.
pub open spec fn lies_under(path: Seq<char>, dir: Seq<char>, sep: char) -> bool {
    let base = trim_trailing(dir, sep);
    base.is_prefix_of(path) && (path.len() == base.len() || is_separator(
        path[base.len() as int],
        sep,
    ))
}

/// `path` written relative to `root`: what follows `root` in it, without the
/// separators in between. `None` when `path` does not lie under `root`.
pub open spec fn relative_to(path: Seq<char>, root: Seq<char>, sep: char) -> Option<Seq<char>> {
    if lies_under(path, root, sep) {
        Some(trim_leading(path.skip(trim_trailing(root, sep).len() as int), sep))
    } else {
        None
    }
}

/// The name of the repository's metadata directory.
pub open spec fn metadata_name() -> Seq<char> {
    seq!['.', 'g', 'i', 't']
}

/// Holds of a path that is the metadata directory of the repository at
/// `root`, or lies inside it.
pub open spec fn under_metadata(path: Seq<char>, root: Seq<char>, sep: char) -> bool {
    match relative_to(path, root, sep) {
        Some(rel) => lies_under(rel, metadata_name(), sep),
        None => false,
    }
}

/// `rel` with every host separator written as a forward slash.
pub open spec fn posix_form(rel: Seq<char>, sep: char) -> Seq<char> {
    rel.map_values(|c: char| if c == sep { '/' } else { c })
}

/// The path of the entry `name` of the directory `dir`.
pub open spec fn child_path(dir: Seq<char>, name: Seq<char>, sep: char) -> Seq<char> {
    if dir.len() == 0 {
        name
    } else if is_separator(dir.last(), sep) {
        dir + name
    } else {
        dir.push(sep) + name
    }
}

/// Tells whether `c` separates the parts of a path on a host whose separator
/// is `sep`.
pub fn is_sep(c: char, sep: char) -> (b: bool)
    ensures
        b == is_separator(c, sep),
{
    c == sep || c == '/'
}

/// The length of `s` without its trailing separators.
fn trimmed_len(s: &Vec<char>, sep: char) -> (n: usize)
    ensures
        n <= s.len(),
        trim_trailing(s@, sep) == s@.take(n as int),
{
    let mut n: usize = s.len();
    proof {
        assert(s@.take(n as int) == s@);
    }
    while n > 0 && is_sep(s[n - 1], sep)
        invariant
            n <= s.len(),
            trim_trailing(s@, sep) == trim_trailing(s@.take(n as int), sep),
        decreases n,
    {
        proof {
            assert(s@.take(n as int).drop_last() == s@.take(n as int - 1));
        }
        n -= 1;
    }
    n
}

/// The index of the first character at or after `from` that is no separator.
fn skip_separators(s: &Vec<char>, from: usize, sep: char) -> (k: usize)
    requires
        from <= s.len(),
    ensures
        from <= k <= s.len(),
        trim_leading(s@.skip(from as int), sep) == s@.skip(k as int),
{
    let mut k: usize = from;
    while k < s.len() && is_sep(s[k], sep)
        invariant
            from <= k <= s.len(),
            trim_leading(s@.skip(from as int), sep) == trim_leading(s@.skip(k as int), sep),
        decreases s.len() - k,
    {
        proof {
            assert(s@.skip(k as int).skip(1) == s@.skip(k as int + 1));
        }
        k += 1;
    }
    k
}

/// The characters of `s` from index `from` on.
pub fn tail_from(s: &Vec<char>, from: usize) -> (out: Vec<char>)
    requires
        from <= s.len(),
    ensures
        out@ == s@.skip(from as int),
{
    let mut out: Vec<char> = Vec::new();
    let mut i: usize = from;
    while i < s.len()
        invariant
            from <= i <= s.len(),
            out@ == s@.subrange(from as int, i as int),
        decreases s.len() - i,
    {
        out.push(s[i]);
        i += 1;
    }
    out
}

/// Tells whether the first `n` characters of `s` are the first `n`
/// characters of `t`.
fn same_start(s: &Vec<char>, t: &Vec<char>, n: usize) -> (b: bool)
    requires
        n <= s.len(),
        n <= t.len(),
    ensures
        b == (s@.take(n as int) == t@.take(n as int)),
{
    let mut i: usize = 0;
    while i < n
        invariant
            i <= n,
            n <= s.len(),
            n <= t.len(),
            s@.take(i as int) == t@.take(i as int),
        decreases n - i,
    {
        if s[i] != t[i] {
            proof {
                assert(s@.take(n as int)[i as int] != t@.take(n as int)[i as int]);
            }
            return false;
        }
        proof {
            assert(s@.take(i as int + 1) == s@.take(i as int).push(s@[i as int]));
            assert(t@.take(i as int + 1) == t@.take(i as int).push(t@[i as int]));
        }
        i += 1;
    }
    true
}

/// Where `path` lies under `dir`, the index in `path` at which the part
/// below `dir` starts.
fn offset_under(path: &Vec<char>, dir: &Vec<char>, sep: char) -> (at: Option<usize>)
    ensures
        at is Some <==> lies_under(path@, dir@, sep),
        at matches Some(k) ==> k <= path.len() && relative_to(path@, dir@, sep) == Some(
            path@.skip(k as int),
        ),
{
    let n = trimmed_len(dir, sep);
    proof {
        assert(dir@.take(n as int).len() == n);
    }
    if n > path.len() {
        return None;
    }
    if !same_start(dir, path, n) {
        proof {
            assert(path@.subrange(0, n as int) == path@.take(n as int));
        }
        return None;
    }
    proof {
        assert(path@.subrange(0, n as int) == path@.take(n as int));
        assert(dir@.take(n as int).is_prefix_of(path@));
    }
    if path.len() > n && !is_sep(path[n], sep) {
        return None;
    }
    let k = skip_separators(path, n, sep);
    Some(k)
}

/// Tells whether `path` is `dir` itself or lies below it.
pub fn is_under(path: &str, dir: &str, sep: char) -> (b: bool)
    ensures
        b == lies_under(path@, dir@, sep),
{
    let p = chars_of(path);
    let d = chars_of(dir);
    offset_under(&p, &d, sep).is_some()
}

/// Writes `path` relative to `root`, in the host's own form. `None` exactly
/// when `path` does not lie under `root`.
pub fn relative_path(path: &str, root: &str, sep: char) -> (out: Option<String>)
    ensures
        match relative_to(path@, root@, sep) {
            Some(rel) => out is Some && out->0@ == rel,
            None => out is None,
        },
{
    let p = chars_of(path);
    let r = chars_of(root);
    match offset_under(&p, &r, sep) {
        Some(k) => {
            let rel = tail_from(&p, k);
            Some(string_of(&rel))
        },
        None => None,
    }
}

/// Tells whether `path` is the metadata directory of the repository at
/// `root`, or lies inside it.
pub fn in_metadata(path: &str, root: &str, sep: char) -> (b: bool)
    ensures
        b == under_metadata(path@, root@, sep),
{
    let p = chars_of(path);
    let r = chars_of(root);
    match offset_under(&p, &r, sep) {
        Some(k) => {
            let rel = tail_from(&p, k);
            let mut name: Vec<char> = Vec::new();
            name.push('.');
            name.push('g');
            name.push('i');
            name.push('t');
            proof {
                assert(name@ == metadata_name());
            }
            offset_under(&rel, &name, sep).is_some()
        },
        None => false,
    }
}

/// Writes a relative path in the form that is the same on every host: with
/// forward slashes between its parts.
pub fn to_posix(rel: &str, sep: char) -> (out: String)
    ensures
        out@ == posix_form(rel@, sep),
{
    let r = chars_of(rel);
    let mut out: Vec<char> = Vec::new();
    let mut i: usize = 0;
    while i < r.len()
        invariant
            i <= r.len(),
            out@ == posix_form(r@.take(i as int), sep),
        decreases r.len() - i,
    {
        let c = r[i];
        proof {
            assert(r@.take(i as int + 1) == r@.take(i as int).push(c));
        }
        if c == sep {
            out.push('/');
        } else {
            out.push(c);
        }
        proof {
            assert(out@ == posix_form(r@.take(i as int + 1), sep));
        }
        i += 1;
    }
    proof {
        assert(r@.take(i as int) == r@);
    }
    string_of(&out)
}

/// The path of the entry `name` of the directory `dir`.
pub fn join_child(dir: &str, name: &str, sep: char) -> (out: String)
    ensures
        out@ == child_path(dir@, name@, sep),
{
    let d = chars_of(dir);
    let mut out = String::new();
    out.append(dir);
    let n = d.len();
    if n > 0 && !is_sep(d[n - 1], sep) {
        out.push(sep);
    }
    out.append(name);
    proof {
        assert(Seq::<char>::empty() + dir@ == dir@);
        assert(dir@.len() == 0 ==> dir@ + name@ == name@);
    }
    out
}

/// A path made by descending from a directory under `root` is under `root`
/// too: descending never leaves the tree.
pub proof fn lemma_child_stays_under(dir: Seq<char>, name: Seq<char>, root: Seq<char>, sep: char)
    requires
        dir.len() > 0,
        lies_under(dir, root, sep),
    ensures
        lies_under(child_path(dir, name, sep), root, sep),
{
    let base = trim_trailing(root, sep);
    let child = child_path(dir, name, sep);
    assert(dir.is_prefix_of(child) || dir.push(sep).is_prefix_of(child));
    assert(base.is_prefix_of(child));
    if dir.len() == base.len() {
        assert(dir == base);
        lemma_trimmed_has_no_trailing(root, sep);
        assert(child == dir.push(sep) + name);
        assert(child[base.len() as int] == sep);
    } else {
        assert(child[base.len() as int] == dir[base.len() as int]);
    }
}

/// What `trim_trailing` gives is the start of `s`, does not end in a
/// separator, and leaves only separators behind.
pub proof fn lemma_trimmed_has_no_trailing(s: Seq<char>, sep: char)
    ensures
        trim_trailing(s, sep).len() > 0 ==> !is_separator(trim_trailing(s, sep).last(), sep),
        trim_trailing(s, sep).is_prefix_of(s),
        forall|i: int| trim_trailing(s, sep).len() <= i < s.len() ==> is_separator(s[i], sep),
    decreases s.len(),
{
    if s.len() > 0 && is_separator(s.last(), sep) {
        let rest = s.drop_last();
        lemma_trimmed_has_no_trailing(rest, sep);
        assert forall|i: int| trim_trailing(s, sep).len() <= i < s.len() implies is_separator(
            s[i],
            sep,
        ) by {
            if i < rest.len() {
                assert(s[i] == rest[i]);
            }
        }
    }
}

/// Every directory lies under itself.
pub proof fn lemma_lies_under_itself(dir: Seq<char>, sep: char)
    ensures
        lies_under(dir, dir, sep),
{
    lemma_trimmed_has_no_trailing(dir, sep);
}

} // verus!
