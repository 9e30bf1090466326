//! The placeholder grammar: `{{`, an optional run of spaces, a key without
//! braces, an optional run of spaces, `}}`. The key is the trimmed body.
use vstd::prelude::*;
use vstd::utf8::decode_utf8;
use crate::text::{chars_of, decode_text, is_binary, is_binary_content, string_of, trim, trim_bounds};

verus! {

pub open spec fn is_brace(c: char) -> bool {
    c == '{' || c == '}'
}

/// Index of the first brace at or after `j`, or the length when none follows.
pub open spec fn next_brace(s: Seq<char>, j: int) -> int
    decreases s.len() - j,
{
    if j >= s.len() {
        s.len() as int
    } else if is_brace(s[j]) {
        j
    } else {
        next_brace(s, j + 1)
    }
}

/// Whether a token starts at `i`: `{{`, then no brace until a closing `}}`.
pub open spec fn token_at(s: Seq<char>, i: int) -> bool {
    let k = next_brace(s, i + 2);
    &&& 0 <= i
    &&& i + 2 <= k
    &&& k + 1 < s.len()
    &&& s[i] == '{'
    &&& s[i + 1] == '{'
    &&& s[k] == '}'
    &&& s[k + 1] == '}'
}

/// The keys of the tokens found scanning from `i`: leftmost first, without
/// overlap, empty keys left out.
pub open spec fn keys_from(s: Seq<char>, i: int) -> Set<Seq<char>>
    decreases s.len() - i,
{
    if i < 0 || i >= s.len() {
        Set::empty()
    } else if token_at(s, i) {
        let k = next_brace(s, i + 2);
        let key = trim(s.subrange(i + 2, k));
        if key.len() > 0 {
            keys_from(s, k + 2).insert(key)
        } else {
            keys_from(s, k + 2)
        }
    } else {
        keys_from(s, i + 1)
    }
}

/// The set of placeholder keys in a text.
pub open spec fn placeholder_keys(s: Seq<char>) -> Set<Seq<char>> {
    keys_from(s, 0)
}

/// The keys that a list of strings holds.
pub open spec fn key_set(keys: Seq<String>) -> Set<Seq<char>> {
    Set::new(|k: Seq<char>| exists|i: int| 0 <= i < keys.len() && keys[i]@ == k)
}

/// No key stands twice in the list.
pub open spec fn distinct_keys(keys: Seq<String>) -> bool {
    forall|i: int, j: int| 0 <= i < j < keys.len() ==> keys[i]@ != keys[j]@
}

/// Index of the first brace in `cs[j..]`, or `cs.len()`.
fn find_brace(cs: &Vec<char>, j: usize) -> (r: usize)
    requires
        j <= cs@.len(),
    ensures
        j <= r <= cs@.len(),
        r == next_brace(cs@, j as int),
{
    let mut k = j;
    while k < cs.len() && cs[k] != '{' && cs[k] != '}'
        invariant
            j <= k <= cs@.len(),
            next_brace(cs@, j as int) == next_brace(cs@, k as int),
        decreases cs@.len() - k,
    {
        k = k + 1;
    }
    k
}

/// Whether `keys` holds a string equal to `k`.
pub fn contains_key(keys: &Vec<String>, k: &String) -> (r: bool)
    ensures
        r == key_set(keys@).contains(k@),
{
    let mut i: usize = 0;
    while i < keys.len()
        invariant
            i <= keys@.len(),
            forall|j: int| 0 <= j < i ==> keys@[j]@ != k@,
        decreases keys@.len() - i,
    {
        if keys[i] == *k {
            assert(key_set(keys@).contains(k@)) by {
                assert(keys@[i as int]@ == k@);
            }
            return true;
        }
        i = i + 1;
    }
    false
}

/// Adds `k` to `keys` unless it is already there.
pub fn insert_key(keys: &mut Vec<String>, k: String)
    requires
        distinct_keys(old(keys)@),
    ensures
        distinct_keys(final(keys)@),
        key_set(final(keys)@) == key_set(old(keys)@).insert(k@),
{
    let present = contains_key(keys, &k);
    if !present {
        let ghost kv = k@;
        keys.push(k);
        assert(key_set(keys@) =~= key_set(old(keys)@).insert(kv)) by {
            assert forall|x: Seq<char>| key_set(keys@).contains(x) implies key_set(
                old(keys)@,
            ).insert(kv).contains(x) by {
                let i = choose|i: int| 0 <= i < keys@.len() && keys@[i]@ == x;
                if i < old(keys)@.len() {
                    assert(old(keys)@[i] == keys@[i]);
                }
            }
            assert forall|x: Seq<char>| key_set(old(keys)@).insert(kv).contains(x) implies key_set(
                keys@,
            ).contains(x) by {
                if x == kv {
                    assert(keys@[old(keys)@.len() as int]@ == x);
                } else {
                    let i = choose|i: int| 0 <= i < old(keys)@.len() && old(keys)@[i]@ == x;
                    assert(keys@[i]@ == x);
                }
            }
        }
    } else {
        assert(key_set(old(keys)@).insert(k@) =~= key_set(old(keys)@));
    }
}

/// Adds to `keys` every placeholder key of `input` that it does not hold yet.
pub fn extract_placeholders(input: &str, keys: &mut Vec<String>)
    requires
        distinct_keys(old(keys)@),
    ensures
        distinct_keys(final(keys)@),
        key_set(final(keys)@) == key_set(old(keys)@) + placeholder_keys(input@),
{
    let cs = chars_of(input);
    let n = cs.len();
    let mut i: usize = 0;
    while i < n
        invariant
            n == cs@.len(),
            cs@ == input@,
            i <= n,
            distinct_keys(keys@),
            key_set(keys@) + keys_from(cs@, i as int) == key_set(old(keys)@) + placeholder_keys(
                input@,
            ),
        decreases n - i,
    {
        let ghost s = cs@;
        if i + 1 < n && cs[i] == '{' && cs[i + 1] == '{' {
            let k = find_brace(&cs, i + 2);
            if k < n && k + 1 < n && cs[k] == '}' && cs[k + 1] == '}' {
                assert(token_at(s, i as int));
                let (a, b) = trim_bounds(cs.as_slice(), i + 2, k);
                if a < b {
                    let key = string_of(&cs.as_slice()[a..b]);
                    assert(key@ == trim(s.subrange(i + 2, k as int)));
                    let ghost before = key_set(keys@);
                    insert_key(keys, key);
                    assert(key_set(keys@) + keys_from(s, k + 2) =~= before + keys_from(
                        s,
                        i as int,
                    ));
                } else {
                    assert(keys_from(s, i as int) == keys_from(s, k + 2));
                }
                i = k + 2;
            } else {
                assert(!token_at(s, i as int));
                i = i + 1;
            }
        } else {
            i = i + 1;
        }
    }
    assert(keys_from(cs@, i as int) == Set::<Seq<char>>::empty());
    assert(key_set(keys@) + Set::<Seq<char>>::empty() =~= key_set(keys@));
}

/// The placeholder keys of an entry's name: the root's own name (depth 0)
/// has none.
pub open spec fn name_keys(depth: nat, name: Seq<char>) -> Set<Seq<char>> {
    if depth == 0 {
        Set::empty()
    } else {
        placeholder_keys(name)
    }
}

/// Adds to `keys` the placeholder keys of the name of an entry at `depth`
/// below the root; the root's own name is not scanned.
pub fn extract_from_name(depth: usize, name: &str, keys: &mut Vec<String>)
    requires
        distinct_keys(old(keys)@),
    ensures
        distinct_keys(final(keys)@),
        key_set(final(keys)@) == key_set(old(keys)@) + name_keys(depth as nat, name@),
{
    if depth == 0 {
        assert(key_set(keys@) + Set::<Seq<char>>::empty() =~= key_set(keys@));
        return;
    }
    extract_placeholders(name, keys);
}

/// The placeholder keys of a file's contents; binary data has none.
pub open spec fn content_keys(b: Seq<u8>) -> Set<Seq<char>> {
    if is_binary(b) {
        Set::empty()
    } else {
        placeholder_keys(decode_utf8(b))
    }
}

/// Adds to `keys` the placeholder keys of a file's contents. Binary contents
/// are skipped.
pub fn extract_from_contents(contents: &[u8], keys: &mut Vec<String>)
    requires
        distinct_keys(old(keys)@),
    ensures
        distinct_keys(final(keys)@),
        key_set(final(keys)@) == key_set(old(keys)@) + content_keys(contents@),
{
    if is_binary_content(contents) {
        assert(key_set(keys@) + Set::<Seq<char>>::empty() =~= key_set(keys@));
        return;
    }
    match decode_text(contents) {
        Some(t) => extract_placeholders(t.as_str(), keys),
        None => {},
    }
}

/// One entry of a walked tree: its depth below the root, its base name where
/// that is UTF-8, and its contents where it is a regular file.
pub struct ScannedEntry {
    pub depth: usize,
    pub name: Option<String>,
    pub contents: Option<Vec<u8>>,
}

/// The placeholder keys of one entry: of its name below the root, and of its
/// contents unless they are binary.
pub open spec fn entry_keys(e: ScannedEntry) -> Set<Seq<char>> {
    (match e.name {
        Some(n) => name_keys(e.depth as nat, n@),
        None => Set::empty(),
    }) + (match e.contents {
        Some(c) => content_keys(c@),
        None => Set::empty(),
    })
}

/// The placeholder keys of a whole tree.
pub open spec fn tree_keys(entries: Seq<ScannedEntry>) -> Set<Seq<char>>
    decreases entries.len(),
{
    if entries.len() == 0 {
        Set::empty()
    } else {
        tree_keys(entries.drop_last()) + entry_keys(entries.last())
    }
}

/// The distinct placeholder keys of a walked tree: of every name below the
/// root and of every text file.
pub fn collect_placeholders(entries: &Vec<ScannedEntry>) -> (r: Vec<String>)
    ensures
        distinct_keys(r@),
        key_set(r@) == tree_keys(entries@),
{
    let mut keys: Vec<String> = Vec::new();
    assert(key_set(keys@) =~= Set::<Seq<char>>::empty());
    assert(entries@.subrange(0, 0) =~= Seq::<ScannedEntry>::empty());
    let mut i: usize = 0;
    while i < entries.len()
        invariant
            i <= entries@.len(),
            distinct_keys(keys@),
            key_set(keys@) == tree_keys(entries@.subrange(0, i as int)),
        decreases entries@.len() - i,
    {
        let e = &entries[i];
        let ghost before = key_set(keys@);
        match &e.name {
            Some(n) => extract_from_name(e.depth, n.as_str(), &mut keys),
            None => {
                assert(key_set(keys@) =~= before + Set::<Seq<char>>::empty());
            },
        }
        let ghost mid = key_set(keys@);
        match &e.contents {
            Some(c) => extract_from_contents(c.as_slice(), &mut keys),
            None => {
                assert(key_set(keys@) =~= mid + Set::<Seq<char>>::empty());
            },
        }
        assert(entries@.subrange(0, i + 1).drop_last() =~= entries@.subrange(0, i as int));
        assert(entries@.subrange(0, i + 1).last() == entries@[i as int]);
        assert(key_set(keys@) =~= tree_keys(entries@.subrange(0, i + 1)));
        i = i + 1;
    }
    assert(entries@.subrange(0, entries@.len() as int) =~= entries@);
    keys
}

} // verus!
