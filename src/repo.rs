//! Template locators: `owner/repo` shorthand for a GitHub repository, and how
//! a clone is made.
use vstd::prelude::*;
use crate::text::{chars_of, string_of, trim, trim_bounds};

verus! {

/// Whether `p` occurs in `s` at `i`.
pub open spec fn chars_at(s: Seq<char>, p: Seq<char>, i: int) -> bool {
    0 <= i && i + p.len() <= s.len() && s.subrange(i, i + p.len()) == p
}

/// Whether `p` occurs somewhere in `s`.
pub open spec fn contains_chars(s: Seq<char>, p: Seq<char>) -> bool {
    exists|i: int| chars_at(s, p, i)
}

/// Why a locator was refused.
#[derive(Debug, Clone, Copy, PartialEq, Eq, Structural)]
pub enum RepoError {
    /// A URL was given where `owner/repo` is expected.
    Url,
    /// The locator is not of the form `owner/repo`.
    Form,
}

/// A locator that names a URL rather than `owner/repo`.
pub open spec fn looks_like_url(t: Seq<char>) -> bool {
    contains_chars(t, "://"@) || contains_chars(t, "github.com"@) || chars_at(t, "git@"@, 0)
}

/// The position of the single `/`, with text on both sides of it.
pub open spec fn owner_repo_split(t: Seq<char>, i: int) -> bool {
    &&& 0 < i < t.len() - 1
    &&& t[i] == '/'
    &&& forall|j: int| 0 <= j < t.len() && j != i ==> t[j] != '/'
}

/// The clone URL for a locator, after trimming: `https://github.com/owner/repo`.
pub open spec fn normalized(repo: Seq<char>) -> Result<Seq<char>, RepoError> {
    let t = trim(repo);
    if looks_like_url(t) {
        Err(RepoError::Url)
    } else if exists|i: int| owner_repo_split(t, i) {
        let i = choose|i: int| owner_repo_split(t, i);
        Ok("https://github.com/"@ + t.subrange(0, i) + "/"@ + t.subrange(i + 1, t.len() as int))
    } else {
        Err(RepoError::Form)
    }
}

/// Tells whether `p` occurs in `s` at `i`.
fn at_position(s: &Vec<char>, p: &Vec<char>, i: usize) -> (r: bool)
    requires
        i <= s@.len(),
    ensures
        r == chars_at(s@, p@, i as int),
{
    let n = s.len();
    if p.len() > n - i {
        return false;
    }
    let mut k: usize = 0;
    while k < p.len()
        invariant
            n == s@.len(),
            i <= n,
            i + p@.len() <= n,
            k <= p@.len(),
            forall|u: int| 0 <= u < k ==> p@[u] == s@[i + u],
        decreases p@.len() - k,
    {
        if p[k] != s[i + k] {
            assert(!chars_at(s@, p@, i as int)) by {
                assert(s@.subrange(i as int, i + p@.len())[k as int] == s@[i + k]);
            }
            return false;
        }
        k = k + 1;
    }
    assert(s@.subrange(i as int, i + p@.len()) =~= p@);
    true
}

/// Tells whether `p` occurs in `s`.
fn contains_at_all(s: &Vec<char>, p: &Vec<char>) -> (r: bool)
    ensures
        r == contains_chars(s@, p@),
{
    let mut i: usize = 0;
    while i < s.len()
        invariant
            i <= s@.len(),
            forall|j: int| 0 <= j < i ==> !chars_at(s@, p@, j),
        decreases s@.len() - i,
    {
        if at_position(s, p, i) {
            return true;
        }
        i = i + 1;
    }
    let found = at_position(s, p, i);
    assert(found || !contains_chars(s@, p@)) by {
        if contains_chars(s@, p@) {
            let j = choose|j: int| chars_at(s@, p@, j);
            assert(j <= s@.len());
        }
    }
    found
}

/// A copy of `cs[a..b]`.
fn sub_chars(cs: &Vec<char>, a: usize, b: usize) -> (r: Vec<char>)
    requires
        a <= b <= cs@.len(),
    ensures
        r@ == cs@.subrange(a as int, b as int),
{
    let mut r: Vec<char> = Vec::new();
    let mut i = a;
    while i < b
        invariant
            a <= i <= b <= cs@.len(),
            r@ == cs@.subrange(a as int, i as int),
        decreases b - i,
    {
        r.push(cs[i]);
        assert(cs@.subrange(a as int, i + 1) =~= cs@.subrange(a as int, i as int).push(cs@[i as int]));
        i = i + 1;
    }
    r
}

/// Appends `src` to `dst`.
fn append_chars(dst: &mut Vec<char>, src: &Vec<char>)
    ensures
        final(dst)@ == old(dst)@ + src@,
{
    let mut i: usize = 0;
    while i < src.len()
        invariant
            i <= src@.len(),
            dst@ == old(dst)@ + src@.subrange(0, i as int),
        decreases src@.len() - i,
    {
        dst.push(src[i]);
        assert(src@.subrange(0, i + 1) =~= src@.subrange(0, i as int).push(src@[i as int]));
        i = i + 1;
    }
    assert(src@.subrange(0, src@.len() as int) =~= src@);
}

/// The clone URL for an `owner/repo` locator: surrounding white space is
/// trimmed, a URL is refused, and exactly one `/` must part two non-empty names.
pub fn normalize_repo(repo: &str) -> (r: Result<String, RepoError>)
    ensures
        r matches Ok(u) ==> normalized(repo@) == Ok::<Seq<char>, RepoError>(u@),
        r matches Err(e) ==> normalized(repo@) == Err::<Seq<char>, RepoError>(e),
{
    let cs = chars_of(repo);
    let (a, b) = trim_bounds(cs.as_slice(), 0, cs.len());
    assert(cs@.subrange(0, cs@.len() as int) =~= repo@);
    let t = sub_chars(&cs, a, b);
    if contains_at_all(&t, &chars_of("://")) || contains_at_all(&t, &chars_of("github.com"))
        || at_position(&t, &chars_of("git@"), 0) {
        return Err(RepoError::Url);
    }
    let n = t.len();
    let mut slashes: usize = 0;
    let mut pos: usize = 0;
    let mut i: usize = 0;
    while i < n
        invariant
            n == t@.len(),
            i <= n,
            slashes <= i,
            slashes == 0 ==> forall|j: int| 0 <= j < i ==> t@[j] != '/',
            slashes == 1 ==> pos < i && t@[pos as int] == '/' && forall|j: int|
                0 <= j < i && j != pos ==> t@[j] != '/',
            slashes >= 2 ==> exists|x: int, y: int|
                0 <= x < y < n && t@[x] == '/' && t@[y] == '/',
        decreases n - i,
    {
        if t[i] == '/' {
            if slashes == 1 {
                assert(t@[pos as int] == '/' && t@[i as int] == '/');
            }
            if slashes < 2 {
                slashes = slashes + 1;
            }
            pos = if slashes == 1 { i } else { pos };
        }
        i = i + 1;
    }
    if slashes == 1 && 0 < pos && pos + 1 < n {
        assert(owner_repo_split(t@, pos as int));
        let mut out = chars_of("https://github.com/");
        append_chars(&mut out, &sub_chars(&t, 0, pos));
        out.push('/');
        append_chars(&mut out, &sub_chars(&t, pos + 1, n));
        proof {
            let c = choose|i: int| owner_repo_split(t@, i);
            assert(c == pos) by {
                if c != pos {
                    assert(t@[c] == '/');
                }
            }
            assert(out@ =~= "https://github.com/"@ + t@.subrange(0, pos as int) + "/"@
                + t@.subrange(pos + 1, n as int)) by {
                reveal_strlit("/");
            }
        }
        Ok(string_of(out.as_slice()))
    } else {
        assert(!exists|i: int| owner_repo_split(t@, i)) by {
            if exists|i: int| owner_repo_split(t@, i) {
                let c = choose|i: int| owner_repo_split(t@, i);
                if slashes >= 2 {
                    let (x, y) = choose|x: int, y: int|
                        0 <= x < y < n && t@[x] == '/' && t@[y] == '/';
                    assert(x == c || y == c);
                }
            }
        }
        Err(RepoError::Form)
    }
}

/// A local repository: a `file://` URL, or a path that exists.
pub open spec fn local_repo(repo: Seq<char>, path_exists: bool) -> bool {
    chars_at(repo, "file://"@, 0) || path_exists
}

/// Tells whether a clone source is local; `path_exists` says whether the
/// locator names an existing path. Remote sources are cloned shallow.
pub fn is_local_repo(repo: &str, path_exists: bool) -> (r: bool)
    ensures
        r == local_repo(repo@, path_exists),
{
    let cs = chars_of(repo);
    at_position(&cs, &chars_of("file://"), 0) || path_exists
}

} // verus!
