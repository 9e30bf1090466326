//! Resolution of placeholder values: the explicit replacement map, the
//! project name default, and the keys that still need an answer.
use vstd::prelude::*;
use crate::scanner::{contains_key, distinct_keys, key_set};
use crate::text::{all_ascii, chars_of};

verus! {

/// Lexicographic order of character sequences by code point, as `Ord` for
/// `String` gives it.
pub open spec fn lex_lt(a: Seq<char>, b: Seq<char>) -> bool
    decreases a.len(),
{
    if a.len() == 0 {
        b.len() > 0
    } else if b.len() == 0 {
        false
    } else if a[0] != b[0] {
        (a[0] as u32) < (b[0] as u32)
    } else {
        lex_lt(a.drop_first(), b.drop_first())
    }
}

pub proof fn lemma_lex_trans(a: Seq<char>, b: Seq<char>, c: Seq<char>)
    requires
        lex_lt(a, b),
        lex_lt(b, c),
    ensures
        lex_lt(a, c),
    decreases a.len(),
{
    if a.len() > 0 && a[0] == b[0] && b[0] == c[0] {
        lemma_lex_trans(a.drop_first(), b.drop_first(), c.drop_first());
    }
}

pub proof fn lemma_lex_total(a: Seq<char>, b: Seq<char>)
    requires
        a != b,
    ensures
        lex_lt(a, b) || lex_lt(b, a),
    decreases a.len(),
{
    if a.len() > 0 && b.len() > 0 && a[0] != b[0] {
        vstd::utf8::char_u32_cast(a[0], a[0] as u32);
        vstd::utf8::char_u32_cast(b[0], b[0] as u32);
    }
    if a.len() > 0 && b.len() > 0 && a[0] == b[0] {
        assert(a =~= seq![a[0]] + a.drop_first());
        assert(b =~= seq![b[0]] + b.drop_first());
        lemma_lex_total(a.drop_first(), b.drop_first());
    }
    if a.len() == 0 && b.len() == 0 {
        assert(a =~= b);
    }
}

/// Tells whether `a` sorts before `b`.
pub fn str_less(a: &String, b: &String) -> (r: bool)
    ensures
        r == lex_lt(a@, b@),
{
    let x = chars_of(a.as_str());
    let y = chars_of(b.as_str());
    let mut i: usize = 0;
    assert(x@.skip(0) =~= x@);
    assert(y@.skip(0) =~= y@);
    while i < x.len() && i < y.len() && x[i] == y[i]
        invariant
            i <= x@.len(),
            i <= y@.len(),
            lex_lt(x@, y@) == lex_lt(x@.skip(i as int), y@.skip(i as int)),
        decreases x@.len() - i,
    {
        assert(x@.skip(i as int).drop_first() =~= x@.skip(i + 1));
        assert(y@.skip(i as int).drop_first() =~= y@.skip(i + 1));
        i = i + 1;
    }
    if i == x.len() {
        i < y.len()
    } else if i == y.len() {
        false
    } else {
        (x[i] as u32) < (y[i] as u32)
    }
}

/// Strictly ascending.
pub open spec fn ascending(keys: Seq<String>) -> bool {
    forall|k: int, l: int| 0 <= k < l < keys.len() ==> lex_lt(keys[k]@, keys[l]@)
}

/// The map from each placeholder key to its replacement text.
pub struct ReplacementMap {
    keys: Vec<String>,
    values: Vec<String>,
}

impl ReplacementMap {
    pub closed spec fn wf(&self) -> bool {
        &&& self.keys@.len() == self.values@.len()
        &&& distinct_keys(self.keys@)
    }

    /// The keys, in the order of insertion.
    pub closed spec fn key_seq(&self) -> Seq<String> {
        self.keys@
    }

    /// The values, index for index with the keys.
    pub closed spec fn value_seq(&self) -> Seq<String> {
        self.values@
    }

    /// The map as a mathematical map of texts.
    pub open spec fn view(&self) -> Map<Seq<char>, Seq<char>> {
        Map::new(
            |k: Seq<char>| key_set(self.key_seq()).contains(k),
            |k: Seq<char>|
                self.value_seq()[choose|i: int|
                    0 <= i < self.key_seq().len() && self.key_seq()[i]@ == k]@,
        )
    }

    /// An empty map.
    pub fn new() -> (r: ReplacementMap)
        ensures
            r.wf(),
            r.key_seq().len() == 0,
            r@ == Map::<Seq<char>, Seq<char>>::empty(),
    {
        let r = ReplacementMap { keys: Vec::new(), values: Vec::new() };
        assert(r@ =~= Map::<Seq<char>, Seq<char>>::empty());
        r
    }

    /// The keys, in the order of insertion.
    pub fn keys(&self) -> (r: &Vec<String>)
        ensures
            r@ == self.key_seq(),
    {
        &self.keys
    }

    /// The values, index for index with the keys.
    pub fn values(&self) -> (r: &Vec<String>)
        ensures
            r@ == self.value_seq(),
    {
        &self.values
    }

    /// Position of `key`, if the map holds it.
    fn position(&self, key: &String) -> (r: Option<usize>)
        requires
            self.wf(),
        ensures
            r matches Some(i) ==> i < self.keys@.len() && self.keys@[i as int]@ == key@,
            r is None ==> !key_set(self.keys@).contains(key@),
    {
        let mut i: usize = 0;
        while i < self.keys.len()
            invariant
                self.wf(),
                i <= self.keys@.len(),
                forall|j: int| 0 <= j < i ==> self.keys@[j]@ != key@,
            decreases self.keys@.len() - i,
        {
            if self.keys[i] == *key {
                return Some(i);
            }
            i = i + 1;
        }
        None
    }

    /// Sets `key` to `value`, replacing the value it had.
    pub fn insert(&mut self, key: String, value: String)
        requires
            old(self).wf(),
        ensures
            final(self).wf(),
            final(self)@ == old(self)@.insert(key@, value@),
    {
        match self.position(&key) {
            Some(i) => {
                let ghost kv = key@;
                self.values.set(i, value);
                assert(self.keys@ == old(self).keys@);
                assert forall|k: Seq<char>| #[trigger] self@.contains_key(k) implies self@[k] == old(
                    self,
                )@.insert(kv, value@)[k] by {
                    let a = choose|a: int| 0 <= a < self.keys@.len() && self.keys@[a]@ == k;
                    if k == kv {
                        assert(a == i);
                    }
                }
                assert(self@ =~= old(self)@.insert(kv, value@));
            },
            None => {
                let ghost kv = key@;
                let ghost n = self.keys@.len();
                self.keys.push(key);
                self.values.push(value);
                assert(distinct_keys(self.keys@)) by {
                    assert forall|a: int, b: int| 0 <= a < b < self.keys@.len() implies self.keys@[a]@
                        != self.keys@[b]@ by {
                        if b == n {
                            assert(key_set(old(self).keys@).contains(self.keys@[a]@));
                        }
                    }
                }
                assert forall|k: Seq<char>| #[trigger] key_set(self.keys@).contains(k) <==> key_set(
                    old(self).keys@,
                ).insert(kv).contains(k) by {
                    if key_set(self.keys@).contains(k) {
                        let a = choose|a: int| 0 <= a < self.keys@.len() && self.keys@[a]@ == k;
                        if a < n {
                            assert(old(self).keys@[a]@ == k);
                        }
                    }
                    if key_set(old(self).keys@).contains(k) {
                        let a = choose|a: int| 0 <= a < n && old(self).keys@[a]@ == k;
                        assert(self.keys@[a]@ == k);
                    }
                    if k == kv {
                        assert(self.keys@[n as int]@ == k);
                    }
                }
                assert forall|k: Seq<char>| #[trigger] self@.contains_key(k) implies self@[k] == old(
                    self,
                )@.insert(kv, value@)[k] by {
                    let a = choose|a: int| 0 <= a < self.keys@.len() && self.keys@[a]@ == k;
                    if k == kv {
                        assert(a == n);
                    } else {
                        let b = choose|b: int| 0 <= b < n && old(self).keys@[b]@ == k;
                        assert(self.keys@[b]@ == k);
                        assert(a == b);
                    }
                }
                assert(self@ =~= old(self)@.insert(kv, value@));
            },
        }
    }

    /// Sets `key` to `value` unless the map holds `key` already.
    pub fn insert_if_absent(&mut self, key: String, value: String)
        requires
            old(self).wf(),
        ensures
            final(self).wf(),
            final(self)@ == (if old(self)@.contains_key(key@) {
                old(self)@
            } else {
                old(self)@.insert(key@, value@)
            }),
    {
        if self.position(&key).is_none() {
            self.insert(key, value);
        }
    }
}

/// The reserved key that names the project.
pub open spec fn name_key() -> Seq<char> {
    seq!['N', 'A', 'M', 'E']
}

/// Makes sure the reserved key `NAME` is set, to the project's name unless the
/// map sets it already.
pub fn with_project_name(replacements: &mut ReplacementMap, project_name: &str)
    requires
        old(replacements).wf(),
    ensures
        final(replacements).wf(),
        final(replacements)@ == (if old(replacements)@.contains_key(name_key()) {
            old(replacements)@
        } else {
            old(replacements)@.insert(name_key(), project_name@)
        }),
{
    let key = crate::text::string_of(&['N', 'A', 'M', 'E']);
    assert(key@ == name_key());
    replacements.insert_if_absent(key, project_name.to_owned());
}

/// Whether an answer to the prompt for a missing key is recorded: only where
/// it is not purely ASCII.
pub open spec fn answer_kept(answer: Seq<char>) -> bool {
    !all_ascii(answer)
}

/// Records the answer given for a missing key, under the policy of
/// `answer_kept`: an answer that is purely ASCII is dropped.
pub fn record_answer(replacements: &mut ReplacementMap, key: String, answer: String)
    requires
        old(replacements).wf(),
    ensures
        final(replacements).wf(),
        final(replacements)@ == (if answer_kept(answer@) {
            old(replacements)@.insert(key@, answer@)
        } else {
            old(replacements)@
        }),
{
    let cs = chars_of(answer.as_str());
    let mut i: usize = 0;
    let mut ascii = true;
    while i < cs.len()
        invariant
            i <= cs@.len(),
            ascii == (forall|j: int| 0 <= j < i ==> (cs@[j] as u32) < 128),
        decreases cs@.len() - i,
    {
        if (cs[i] as u32) >= 128 {
            ascii = false;
        }
        i = i + 1;
    }
    assert(ascii == all_ascii(answer@));
    if !ascii {
        replacements.insert(key, answer);
    }
}

/// The keys of `found` that `replacements` does not set, in ascending order.
pub fn find_missing_placeholders(found: &Vec<String>, replacements: &ReplacementMap) -> (r: Vec<
    String,
>)
    requires
        replacements.wf(),
    ensures
        ascending(r@),
        key_set(r@) == key_set(found@).filter(|k: Seq<char>| !replacements@.contains_key(k)),
{
    let mut out: Vec<String> = Vec::new();
    let mut i: usize = 0;
    while i < found.len()
        invariant
            replacements.wf(),
            i <= found@.len(),
            ascending(out@),
            key_set(out@) == key_set(found@.subrange(0, i as int)).filter(
                |k: Seq<char>| !replacements@.contains_key(k),
            ),
        decreases found@.len() - i,
    {
        let k = &found[i];
        let ghost before = key_set(out@);
        let ghost s1 = found@.subrange(0, i as int);
        let ghost s2 = found@.subrange(0, i + 1);
        assert(key_set(s2) =~= key_set(s1).insert(k@)) by {
            assert forall|x: Seq<char>| key_set(s2).contains(x) implies key_set(s1).insert(
                k@,
            ).contains(x) by {
                let a = choose|a: int| 0 <= a < s2.len() && s2[a]@ == x;
                if a < i {
                    assert(s1[a]@ == x);
                }
            }
            assert forall|x: Seq<char>| key_set(s1).insert(k@).contains(x) implies key_set(
                s2,
            ).contains(x) by {
                if x == k@ {
                    assert(s2[i as int]@ == x);
                } else {
                    let a = choose|a: int| 0 <= a < s1.len() && s1[a]@ == x;
                    assert(s2[a]@ == x);
                }
            }
        }
        if replacements.position(k).is_none() && !contains_key(&out, k) {
            insert_sorted(&mut out, k.clone());
        }
        assert(key_set(out@) =~= key_set(found@.subrange(0, i + 1)).filter(
            |x: Seq<char>| !replacements@.contains_key(x),
        ));
        i = i + 1;
    }
    assert(found@.subrange(0, found@.len() as int) =~= found@);
    out
}

/// Inserts `k`, which `v` does not hold, at its place in ascending order.
fn insert_sorted(v: &mut Vec<String>, k: String)
    requires
        ascending(old(v)@),
        !key_set(old(v)@).contains(k@),
    ensures
        ascending(final(v)@),
        key_set(final(v)@) == key_set(old(v)@).insert(k@),
{
    let mut p: usize = 0;
    while p < v.len() && str_less(&v[p], &k)
        invariant
            p <= v@.len(),
            v@ == old(v)@,
            forall|j: int| 0 <= j < p ==> lex_lt(v@[j]@, k@),
        decreases v@.len() - p,
    {
        p = p + 1;
    }
    let ghost kv = k@;
    proof {
        if p < v@.len() {
            assert(v@[p as int]@ != kv);
            lemma_lex_total(v@[p as int]@, kv);
        }
    }
    v.insert(p, k);
    assert(ascending(v@)) by {
        assert forall|a: int, b: int| 0 <= a < b < v@.len() implies lex_lt(v@[a]@, v@[b]@) by {
            if b == p {
            } else if a == p {
                if b > p + 1 {
                    lemma_lex_trans(kv, old(v)@[p as int]@, old(v)@[b - 1]@);
                }
            } else if a < p && b > p {
                assert(lex_lt(v@[a]@, kv));
                assert(lex_lt(kv, old(v)@[p as int]@));
                if b - 1 > p {
                    lemma_lex_trans(kv, old(v)@[p as int]@, old(v)@[b - 1]@);
                }
                lemma_lex_trans(v@[a]@, kv, v@[b]@);
            }
        }
    }
    assert forall|x: Seq<char>| key_set(v@).contains(x) <==> key_set(old(v)@).insert(kv).contains(
        x,
    ) by {
        if key_set(v@).contains(x) {
            let a = choose|a: int| 0 <= a < v@.len() && v@[a]@ == x;
            if a < p {
                assert(old(v)@[a]@ == x);
            } else if a > p {
                assert(old(v)@[a - 1]@ == x);
            }
        }
        if key_set(old(v)@).contains(x) {
            let a = choose|a: int| 0 <= a < old(v)@.len() && old(v)@[a]@ == x;
            if a < p {
                assert(v@[a]@ == x);
            } else {
                assert(v@[a + 1]@ == x);
            }
        }
        if x == kv {
            assert(v@[p as int]@ == x);
        }
    }
    assert(key_set(v@) =~= key_set(old(v)@).insert(kv));
}

} // verus!
