//! Literal substitution of `{{key}}` placeholders, and the rename plans that
//! apply it to a tree's directory and file names.
use vstd::prelude::*;
use vstd::utf8::{
    decode_utf8, encode_scalar, encode_utf8, encode_utf8_valid_utf8, is_char_boundary,
    is_char_boundary_iff_not_is_continuation_byte, length_of_first_scalar, pop_first_scalar,
    valid_utf8, valid_utf8_concat, valid_utf8_split,
};
use crate::matcher::{
    bytes_of, first_lit, lemma_first_lit, literals_compile, occurs_at, some_occurs_at,
    LiteralMatcher,
};
use crate::text::{chars_of, decode_text, is_binary, is_binary_content, string_of};

verus! {

/// A key in its delimited form, `{{key}}`.
pub open spec fn delimited(k: Seq<char>) -> Seq<char> {
    seq!['{', '{'] + k + seq!['}', '}']
}

/// The byte form of `{{k}}` for each key, in order.
pub open spec fn placeholder_literals(keys: Seq<String>) -> Seq<Seq<u8>> {
    keys.map_values(|k: String| encode_utf8(delimited(k@)))
}

/// The text from `p` on with every leftmost occurrence of a literal replaced by
/// its value; at one position the first literal in list order wins.
pub open spec fn subst_from(s: Seq<u8>, lits: Seq<Seq<u8>>, vals: Seq<Seq<u8>>, p: int) -> Seq<
    u8,
>
    decreases s.len() - p,
{
    if p < 0 || p >= s.len() {
        seq![]
    } else {
        let j = first_lit(s, lits, p);
        if 0 <= j < lits.len() && lits[j].len() > 0 && p + lits[j].len() <= s.len() {
            vals[j] + subst_from(s, lits, vals, p + lits[j].len())
        } else {
            seq![s[p]] + subst_from(s, lits, vals, p + 1)
        }
    }
}

/// The whole text after substitution.
pub open spec fn substitute(s: Seq<u8>, lits: Seq<Seq<u8>>, vals: Seq<Seq<u8>>) -> Seq<u8> {
    subst_from(s, lits, vals, 0)
}

/// Whether some literal occurs somewhere in the text.
pub open spec fn has_occurrence(s: Seq<u8>, lits: Seq<Seq<u8>>) -> bool {
    exists|p: int| 0 <= p < s.len() && some_occurs_at(s, lits, p)
}

/// No literal is empty.
pub open spec fn nonempty_all(lits: Seq<Seq<u8>>) -> bool {
    forall|j: int| 0 <= j < lits.len() ==> lits[j].len() > 0
}

/// Every literal opens with `{`.
pub open spec fn opens_with_brace(lits: Seq<Seq<u8>>) -> bool {
    forall|j: int| 0 <= j < lits.len() ==> lits[j].len() > 0 && lits[j][0] == 123u8
}

/// Every literal closes with `}`.
pub open spec fn closes_with_brace(lits: Seq<Seq<u8>>) -> bool {
    forall|j: int| 0 <= j < lits.len() ==> lits[j].len() > 0 && lits[j].last() == 125u8
}

proof fn lemma_encode_closing_brace(cs: Seq<char>)
    requires
        cs.len() > 0,
        cs.last() == '}',
    ensures
        encode_utf8(cs).len() > 0,
        encode_utf8(cs).last() == 125u8,
    decreases cs.len(),
{
    assert(encode_utf8(cs) == encode_scalar(cs[0] as u32) + encode_utf8(cs.drop_first()));
    if cs.len() == 1 {
        assert(('}' as u32) == 125u32);
        assert((125u32 & 0x7Fu32) == 125u32) by (bit_vector);
        assert(encode_utf8(cs.drop_first()) =~= Seq::<u8>::empty());
    } else {
        assert(cs.drop_first().last() == cs.last());
        lemma_encode_closing_brace(cs.drop_first());
    }
}

/// Substitution into valid UTF-8 with values of valid UTF-8 gives valid UTF-8:
/// each literal begins and ends with an ASCII brace, so it starts and ends on
/// character boundaries, and a byte passed through never splits a character.
proof fn lemma_subst_valid(s: Seq<u8>, lits: Seq<Seq<u8>>, vals: Seq<Seq<u8>>, p: int)
    requires
        0 <= p <= s.len(),
        valid_utf8(s.subrange(p, s.len() as int)),
        lits.len() == vals.len(),
        forall|j: int| 0 <= j < vals.len() ==> valid_utf8(#[trigger] vals[j]),
        opens_with_brace(lits),
        closes_with_brace(lits),
    ensures
        valid_utf8(subst_from(s, lits, vals, p)),
    decreases s.len() - p,
{
    if p < s.len() {
        let t = s.subrange(p, s.len() as int);
        let j = first_lit(s, lits, p);
        lemma_first_lit(s, lits, p);
        if 0 <= j < lits.len() && lits[j].len() > 0 && p + lits[j].len() <= s.len() {
            let n = lits[j].len() as int;
            assert(s.subrange(p, p + n)[n - 1] == s[p + n - 1]);
            assert(t[n - 1] == 125u8);
            is_char_boundary_iff_not_is_continuation_byte(t, n - 1);
            valid_utf8_split(t, n - 1);
            let u = t.subrange(n - 1, t.len() as int);
            assert(u[0] == 125u8);
            assert(length_of_first_scalar(u) == 1);
            assert(pop_first_scalar(u) =~= s.subrange(p + n, s.len() as int));
            lemma_subst_valid(s, lits, vals, p + n);
            valid_utf8_concat(vals[j], subst_from(s, lits, vals, p + n));
        } else {
            let w = length_of_first_scalar(t);
            assert(1 <= w <= 4 && w <= t.len());
            reveal_with_fuel(is_char_boundary, 2);
            assert(is_char_boundary(t, w));
            valid_utf8_split(t, w);
            assert forall|q: int| p <= q < p + w implies !some_occurs_at(s, lits, q) by {
                if q > p {
                    assert(!is_char_boundary(t, q - p));
                    is_char_boundary_iff_not_is_continuation_byte(t, q - p);
                    assert(t[q - p] == s[q]);
                    if some_occurs_at(s, lits, q) {
                        let k = choose|k: int| 0 <= k < lits.len() && occurs_at(s, lits[k], q);
                        assert(s.subrange(q, q + lits[k].len())[0] == s[q]);
                    }
                }
            }
            lemma_skip(s, lits, vals, p, p + w);
            assert(t.subrange(w, t.len() as int) =~= s.subrange(p + w, s.len() as int));
            assert(t.subrange(0, w) =~= s.subrange(p, p + w));
            lemma_subst_valid(s, lits, vals, p + w);
            valid_utf8_concat(s.subrange(p, p + w), subst_from(s, lits, vals, p + w));
        }
    } else {
        assert(subst_from(s, lits, vals, p) =~= Seq::<u8>::empty());
    }
}

/// Substitution keeps names valid UTF-8: a name always has a new name.
pub proof fn lemma_names_stay_utf8(rep: &Replacer, name: Seq<char>)
    requires
        rep.wf(),
    ensures
        renamed(rep, name) is Some,
{
    let b = encode_utf8(name);
    encode_utf8_valid_utf8(name);
    assert(b.subrange(0, b.len() as int) =~= b);
    assert forall|j: int| 0 <= j < rep.vals().len() implies valid_utf8(#[trigger] rep.vals()[j]) by {
        encode_utf8_valid_utf8(rep.values@[j]@);
    }
    lemma_subst_valid(b, rep.lits(), rep.vals(), 0);
}

/// The text holds no `{`.
pub open spec fn open_free(s: Seq<u8>) -> bool {
    forall|i: int| 0 <= i < s.len() ==> s[i] != 123u8
}

/// From `p` on, every `{` of the text lies inside an occurrence that
/// substitution replaces; a stray `}` may stand anywhere.
pub open spec fn opens_only_in_matches(s: Seq<u8>, lits: Seq<Seq<u8>>, p: int) -> bool
    decreases s.len() - p,
{
    if p < 0 || p >= s.len() {
        true
    } else {
        let j = first_lit(s, lits, p);
        if 0 <= j < lits.len() && lits[j].len() > 0 && p + lits[j].len() <= s.len() {
            opens_only_in_matches(s, lits, p + lits[j].len())
        } else {
            s[p] != 123u8 && opens_only_in_matches(s, lits, p + 1)
        }
    }
}

proof fn lemma_output_open_free(s: Seq<u8>, lits: Seq<Seq<u8>>, vals: Seq<Seq<u8>>, p: int)
    requires
        0 <= p,
        lits.len() == vals.len(),
        forall|j: int| 0 <= j < vals.len() ==> open_free(vals[j]),
        opens_only_in_matches(s, lits, p),
    ensures
        open_free(subst_from(s, lits, vals, p)),
    decreases s.len() - p,
{
    if p < s.len() {
        let j = first_lit(s, lits, p);
        if 0 <= j < lits.len() && lits[j].len() > 0 && p + lits[j].len() <= s.len() {
            lemma_output_open_free(s, lits, vals, p + lits[j].len());
        } else {
            lemma_output_open_free(s, lits, vals, p + 1);
        }
    }
}

/// Substitution is idempotent where no value holds a `{` and every `{` of the
/// text belongs to a placeholder that is replaced: the result holds no
/// placeholder of the map, so a second pass finds nothing to do and leaves it
/// as it is.
pub proof fn lemma_second_pass_is_noop(rep: &Replacer, s: Seq<u8>)
    requires
        rep.wf(),
        forall|j: int| 0 <= j < rep.vals().len() ==> open_free(#[trigger] rep.vals()[j]),
        opens_only_in_matches(s, rep.lits(), 0),
    ensures
        !has_occurrence(substitute(s, rep.lits(), rep.vals()), rep.lits()),
        substitute(substitute(s, rep.lits(), rep.vals()), rep.lits(), rep.vals()) == substitute(
            s,
            rep.lits(),
            rep.vals(),
        ),
{
    let out = substitute(s, rep.lits(), rep.vals());
    lemma_output_open_free(s, rep.lits(), rep.vals(), 0);
    assert forall|p: int| 0 <= p <= out.len() implies !some_occurs_at(out, rep.lits(), p) by {
        if some_occurs_at(out, rep.lits(), p) {
            let j = choose|j: int| 0 <= j < rep.lits().len() && occurs_at(out, rep.lits()[j], p);
            assert(out.subrange(p, p + rep.lits()[j].len())[0] == out[p]);
        }
    }
    lemma_skip(out, rep.lits(), rep.vals(), 0, out.len() as int);
    assert(out.subrange(0, out.len() as int) =~= out);
    assert(subst_from(out, rep.lits(), rep.vals(), out.len() as int) =~= Seq::<u8>::empty());
}

/// The same holds of names: where every `{` of a name belongs to a replaced
/// placeholder and no value holds a `{`, the renamed entry is not renamed
/// again by a second pass.
pub proof fn lemma_second_rename_is_noop(rep: &Replacer, name: Seq<char>)
    requires
        rep.wf(),
        forall|j: int| 0 <= j < rep.vals().len() ==> open_free(#[trigger] rep.vals()[j]),
        opens_only_in_matches(encode_utf8(name), rep.lits(), 0),
        renamed(rep, name) is Some,
    ensures
        !name_changes(rep, renamed(rep, name)->0),
{
    let b = encode_utf8(name);
    lemma_second_pass_is_noop(rep, b);
    if has_occurrence(b, rep.lits()) {
        let out = substitute(b, rep.lits(), rep.vals());
        vstd::utf8::decode_utf8_encode_utf8(out);
        assert(encode_utf8(decode_utf8(out)) == out);
    } else {
        lemma_skip(b, rep.lits(), rep.vals(), 0, b.len() as int);
        assert(b.subrange(0, b.len() as int) =~= b);
        assert(subst_from(b, rep.lits(), rep.vals(), b.len() as int) =~= Seq::<u8>::empty());
    }
}

/// Where no literal occurs in `[a, b)`, the text there passes through unchanged.
pub proof fn lemma_skip(s: Seq<u8>, lits: Seq<Seq<u8>>, vals: Seq<Seq<u8>>, a: int, b: int)
    requires
        0 <= a <= b <= s.len(),
        forall|p: int| a <= p < b ==> !some_occurs_at(s, lits, p),
    ensures
        subst_from(s, lits, vals, a) == s.subrange(a, b) + subst_from(s, lits, vals, b),
    decreases b - a,
{
    if a < b {
        lemma_first_lit(s, lits, a);
        lemma_skip(s, lits, vals, a + 1, b);
        assert(s.subrange(a, b) =~= seq![s[a]] + s.subrange(a + 1, b));
    } else {
        assert(s.subrange(a, b) =~= Seq::<u8>::empty());
    }
}

/// Substitution by one matcher, compiled once from every placeholder of a
/// replacement map.
pub struct Replacer {
    matcher: LiteralMatcher,
    literals: Vec<String>,
    values: Vec<String>,
}

impl Replacer {
    /// The literals searched for, as bytes.
    pub closed spec fn lits(&self) -> Seq<Seq<u8>> {
        bytes_of(self.literals@)
    }

    /// The replacement of each literal, as bytes.
    pub closed spec fn vals(&self) -> Seq<Seq<u8>> {
        bytes_of(self.values@)
    }

    pub closed spec fn wf(&self) -> bool {
        &&& self.matcher.literals() == bytes_of(self.literals@)
        &&& self.literals@.len() == self.values@.len()
        &&& nonempty_all(bytes_of(self.literals@))
        &&& opens_with_brace(bytes_of(self.literals@))
        &&& closes_with_brace(bytes_of(self.literals@))
    }

    /// Builds the matcher for `{{k}}` of each key `k`, replaced by the value
    /// at the same index.
    pub fn new(keys: &Vec<String>, values: &Vec<String>) -> (r: Result<Replacer, ReplaceError>)
        requires
            keys@.len() == values@.len(),
        ensures
            r matches Ok(rep) ==> {
                &&& rep.wf()
                &&& rep.lits().len() == keys@.len()
                &&& forall|j: int|
                    0 <= j < keys@.len() ==> rep.lits()[j] == encode_utf8(delimited(keys@[j]@))
                &&& rep.vals() == bytes_of(values@)
            },
            r is Ok <==> literals_compile(placeholder_literals(keys@)),
            r matches Err(e) ==> e == ReplaceError::Matcher,
    {
        let mut literals: Vec<String> = Vec::new();
        let mut i: usize = 0;
        while i < keys.len()
            invariant
                i <= keys@.len(),
                literals@.len() == i,
                forall|j: int| 0 <= j < i ==> literals@[j]@ == delimited(keys@[j]@),
            decreases keys@.len() - i,
        {
            let kc = chars_of(keys[i].as_str());
            let mut cs: Vec<char> = Vec::new();
            cs.push('{');
            cs.push('{');
            let mut t: usize = 0;
            while t < kc.len()
                invariant
                    t <= kc@.len(),
                    cs@ == seq!['{', '{'] + kc@.subrange(0, t as int),
                decreases kc@.len() - t,
            {
                cs.push(kc[t]);
                assert(kc@.subrange(0, t + 1) =~= kc@.subrange(0, t as int).push(kc@[t as int]));
                t = t + 1;
            }
            cs.push('}');
            cs.push('}');
            assert(kc@.subrange(0, kc@.len() as int) =~= kc@);
            assert(cs@ =~= delimited(keys@[i as int]@));
            let lit = string_of(cs.as_slice());
            literals.push(lit);
            i = i + 1;
        }
        let mut vs: Vec<String> = Vec::new();
        let mut i: usize = 0;
        while i < values.len()
            invariant
                i <= values@.len(),
                vs@.len() == i,
                forall|j: int| 0 <= j < i ==> vs@[j]@ == values@[j]@,
            decreases values@.len() - i,
        {
            vs.push(values[i].clone());
            i = i + 1;
        }
        assert(bytes_of(vs@) =~= bytes_of(values@));
        assert forall|j: int| 0 <= j < literals@.len() implies bytes_of(literals@)[j].len() > 0
            && bytes_of(literals@)[j][0] == 123u8 && bytes_of(literals@)[j].last() == 125u8 by {
            let d = literals@[j]@;
            assert(d.last() == '}');
            lemma_encode_closing_brace(d);
            assert(d[0] == '{');
            assert(encode_utf8(d).len() > 0);
            assert(('{' as u32) == 123u32);
            assert((123u32 & 0x7Fu32) == 123u32) by (bit_vector);
            assert(encode_utf8(d) == encode_scalar(d[0] as u32) + encode_utf8(d.drop_first()));
            assert(encode_utf8(d)[0] == 123u8);
        }
        assert(bytes_of(literals@) =~= placeholder_literals(keys@));
        match LiteralMatcher::build(&literals) {
            Ok(matcher) => Ok(Replacer { matcher, literals, values: vs }),
            Err(_) => Err(ReplaceError::Matcher),
        }
    }

    /// Index of the literal equal to `input[s..e]`, which must be the first
    /// literal occurring at `s`.
    fn literal_at(&self, input: &[u8], s: usize, e: usize) -> (j: usize)
        requires
            self.wf(),
            s <= e <= input@.len(),
            some_occurs_at(input@, self.lits(), s as int),
            e - s == self.lits()[first_lit(input@, self.lits(), s as int)].len(),
        ensures
            j == first_lit(input@, self.lits(), s as int),
    {
        proof {
            lemma_first_lit(input@, self.lits(), s as int);
        }
        let ghost f = first_lit(input@, self.lits(), s as int);
        let mut j: usize = 0;
        while j < self.literals.len()
            invariant
                self.wf(),
                f == first_lit(input@, self.lits(), s as int),
                0 <= f < self.lits().len(),
                j <= f,
                occurs_at(input@, self.lits()[f], s as int),
                forall|k: int| 0 <= k < f ==> !occurs_at(input@, self.lits()[k], s as int),
                e - s == self.lits()[f].len(),
                s <= e <= input@.len(),
            decreases self.lits().len() - j,
        {
            let lit = self.literals[j].as_str().as_bytes();
            assert(lit@ == self.lits()[j as int]);
            if lit.len() == e - s && occurs_in(input, lit, s) {
                assert(j as int == f);
                return j;
            }
            j = j + 1;
        }
        j
    }

    /// The substituted bytes, or `None` when no placeholder occurs.
    pub fn replace_bytes(&self, input: &[u8]) -> (r: Option<Vec<u8>>)
        requires
            self.wf(),
        ensures
            r matches Some(out) ==> has_occurrence(input@, self.lits()) && out@ == substitute(
                input@,
                self.lits(),
                self.vals(),
            ),
            r is None ==> !has_occurrence(input@, self.lits()),
    {
        let n = input.len();
        let mut out: Vec<u8> = Vec::new();
        let mut at: usize = 0;
        let mut replaced = false;
        loop
            invariant
                self.wf(),
                n == input@.len(),
                at <= n,
                out@ + subst_from(input@, self.lits(), self.vals(), at as int) == substitute(
                    input@,
                    self.lits(),
                    self.vals(),
                ),
                replaced ==> has_occurrence(input@, self.lits()),
                !replaced ==> forall|p: int| 0 <= p < at ==> !some_occurs_at(input@, self.lits(), p),
            decreases n - at,
        {
            match self.matcher.find_at(input, at) {
                None => {
                    proof {
                        lemma_skip(input@, self.lits(), self.vals(), at as int, n as int);
                        assert(subst_from(input@, self.lits(), self.vals(), n as int)
                            =~= Seq::<u8>::empty());
                    }
                    out.extend_from_slice(&input[at..n]);
                    assert(out@ =~= substitute(input@, self.lits(), self.vals()));
                    if replaced {
                        return Some(out);
                    } else {
                        return None;
                    }
                },
                Some((s, e)) => {
                    let j = self.literal_at(input, s, e);
                    proof {
                        lemma_skip(input@, self.lits(), self.vals(), at as int, s as int);
                        lemma_first_lit(input@, self.lits(), s as int);
                    }
                    out.extend_from_slice(&input[at..s]);
                    out.extend_from_slice(self.values[j].as_str().as_bytes());
                    assert(self.vals()[j as int] == encode_utf8(self.values@[j as int]@));
                    assert(out@ + subst_from(input@, self.lits(), self.vals(), e as int)
                        =~= substitute(input@, self.lits(), self.vals()));
                    at = e;
                    replaced = true;
                },
            }
        }
    }

    /// The new contents of a file, or `None` where it is left alone: binary
    /// data, or text in which no placeholder occurs.
    pub fn rewrite_contents(&self, contents: &[u8]) -> (r: Option<Vec<u8>>)
        requires
            self.wf(),
        ensures
            r is Some <==> !is_binary(contents@) && has_occurrence(contents@, self.lits()),
            r matches Some(out) ==> out@ == substitute(contents@, self.lits(), self.vals()),
    {
        if is_binary_content(contents) {
            return None;
        }
        self.replace_bytes(contents)
    }

    /// Tells whether `a` and `b` hold the same text.
    fn same_text(a: &String, b: &String) -> (r: bool)
        ensures
            r == (a@ == b@),
    {
        *a == *b
    }

    /// The renames of the directories below the root, deepest first, so that
    /// a rename never moves a directory that a later rename names by its old
    /// path. Every new name is valid UTF-8, so it always succeeds.
    pub fn plan_directory_renames(&self, dirs: &Vec<NamedEntry>) -> (r: Result<
        Vec<PlannedRename>,
        ReplaceError,
    >)
        requires
            self.wf(),
        ensures
            r is Ok,
            r matches Ok(plan) ==> {
                &&& forall|k: int| 0 <= k < plan@.len() ==> valid_rename(self, dirs@, plan@[k])
                &&& distinct_targets(plan@)
                &&& forall|i: int| must_rename(self, dirs@, i) <==> plans(plan@, i)
                &&& forall|k: int, l: int|
                    0 <= k < l < plan@.len() ==> dirs@[plan@[k].index as int].depth
                        >= dirs@[plan@[l].index as int].depth
            },
    {
        proof {
            assert forall|n: Seq<char>| #[trigger] renamed(self, n) is Some by {
                lemma_names_stay_utf8(self, n);
            }
        }
        let n = dirs.len();
        let mut maxd: usize = 0;
        let mut i: usize = 0;
        while i < n
            invariant
                n == dirs@.len(),
                i <= n,
                forall|j: int| 0 <= j < i ==> dirs@[j].depth <= maxd,
            decreases n - i,
        {
            if dirs[i].depth > maxd {
                maxd = dirs[i].depth;
            }
            i = i + 1;
        }
        let mut plan: Vec<PlannedRename> = Vec::new();
        let mut d: usize = maxd;
        while d > 0
            invariant
                self.wf(),
                n == dirs@.len(),
                forall|j: int| 0 <= j < n ==> dirs@[j].depth <= maxd,
                d <= maxd,
                forall|k: int| 0 <= k < plan@.len() ==> valid_rename(self, dirs@, plan@[k]),
                forall|k: int| 0 <= k < plan@.len() ==> dirs@[plan@[k].index as int].depth > d,
                distinct_targets(plan@),
                forall|i: int|
                    0 <= i < n && dirs@[i].depth > d ==> (must_rename(self, dirs@, i) <==> plans(
                        plan@,
                        i,
                    )),
                forall|i: int|
                    0 <= i < n && dirs@[i].depth > d ==> renamed(self, dirs@[i].name@) is Some,
                forall|k: int, l: int|
                    0 <= k < l < plan@.len() ==> dirs@[plan@[k].index as int].depth
                        >= dirs@[plan@[l].index as int].depth,
            decreases d,
        {
            let mut i: usize = 0;
            while i < n
                invariant
                    self.wf(),
                    n == dirs@.len(),
                    0 < d <= maxd,
                    i <= n,
                    forall|k: int| 0 <= k < plan@.len() ==> valid_rename(self, dirs@, plan@[k]),
                    forall|k: int|
                        0 <= k < plan@.len() ==> (dirs@[plan@[k].index as int].depth > d || (
                        dirs@[plan@[k].index as int].depth == d && plan@[k].index < i)),
                    distinct_targets(plan@),
                    forall|j: int|
                        0 <= j < n && (dirs@[j].depth > d || (dirs@[j].depth == d && j < i)) ==> (
                        must_rename(self, dirs@, j) <==> plans(plan@, j)),
                    forall|j: int|
                        0 <= j < n && (dirs@[j].depth > d || (dirs@[j].depth == d && j < i))
                            ==> renamed(self, dirs@[j].name@) is Some,
                    forall|k: int, l: int|
                        0 <= k < l < plan@.len() ==> dirs@[plan@[k].index as int].depth
                            >= dirs@[plan@[l].index as int].depth,
                decreases n - i,
            {
                if dirs[i].depth == d {
                    let t = self.replace_text(dirs[i].name.as_str());
                    match t {
                        Err(e) => {
                            return Err(e);
                        },
                        Ok(t) => {
                            if !Self::same_text(&t, &dirs[i].name) {
                                let ghost old_plan = plan@;
                                plan.push(PlannedRename { index: i, name: t });
                                assert forall|j: int|
                                    0 <= j < n && (dirs@[j].depth > d || (dirs@[j].depth == d && j
                                        < i + 1)) implies (must_rename(self, dirs@, j) <==> plans(
                                    plan@,
                                    j,
                                )) by {
                                    if j != i {
                                        if plans(plan@, j) {
                                            let k = choose|k: int|
                                                0 <= k < plan@.len() && plan@[k].index == j;
                                            assert(k < old_plan.len());
                                            assert(plans(old_plan, j));
                                        }
                                        if plans(old_plan, j) {
                                            let k = choose|k: int|
                                                0 <= k < old_plan.len() && old_plan[k].index == j;
                                            assert(plan@[k].index == j);
                                        }
                                    } else {
                                        assert(plan@[old_plan.len() as int].index == j);
                                    }
                                }
                            } else {
                                assert(!must_rename(self, dirs@, i as int));
                                assert(!plans(plan@, i as int));
                            }
                        },
                    }
                }
                i = i + 1;
            }
            d = d - 1;
        }
        assert(!exists|i: int|
            0 <= i < dirs@.len() && dirs@[i].depth > 0 && renamed(self, dirs@[i].name@) is None);
        assert forall|j: int| 0 <= j < n && dirs@[j].depth == 0 implies !plans(plan@, j) by {
            if plans(plan@, j) {
                let k = choose|k: int| 0 <= k < plan@.len() && plan@[k].index == j;
            }
        }
        Ok(plan)
    }

    /// The renames of the files, in the order of the list. Every new name is
    /// valid UTF-8, so it always succeeds.
    pub fn plan_file_renames(&self, files: &Vec<NamedEntry>) -> (r: Result<
        Vec<PlannedRename>,
        ReplaceError,
    >)
        requires
            self.wf(),
        ensures
            r is Ok,
            r matches Ok(plan) ==> {
                &&& forall|k: int| 0 <= k < plan@.len() ==> valid_rename(self, files@, plan@[k])
                &&& forall|k: int, l: int|
                    0 <= k < l < plan@.len() ==> plan@[k].index < plan@[l].index
                &&& forall|i: int|
                    0 <= i < files@.len() ==> (name_changes(self, files@[i].name@) <==> plans(
                        plan@,
                        i,
                    ))
            },
    {
        proof {
            assert forall|n: Seq<char>| #[trigger] renamed(self, n) is Some by {
                lemma_names_stay_utf8(self, n);
            }
        }
        let n = files.len();
        let mut plan: Vec<PlannedRename> = Vec::new();
        let mut i: usize = 0;
        while i < n
            invariant
                self.wf(),
                n == files@.len(),
                i <= n,
                forall|k: int| 0 <= k < plan@.len() ==> valid_rename(self, files@, plan@[k]),
                forall|k: int| 0 <= k < plan@.len() ==> plan@[k].index < i,
                forall|k: int, l: int|
                    0 <= k < l < plan@.len() ==> plan@[k].index < plan@[l].index,
                forall|j: int|
                    0 <= j < i ==> (name_changes(self, files@[j].name@) <==> plans(plan@, j)),
                forall|j: int| 0 <= j < i ==> renamed(self, files@[j].name@) is Some,
            decreases n - i,
        {
            match self.replace_text(files[i].name.as_str()) {
                Err(e) => {
                    return Err(e);
                },
                Ok(t) => {
                    if !Self::same_text(&t, &files[i].name) {
                        let ghost old_plan = plan@;
                        plan.push(PlannedRename { index: i, name: t });
                        assert forall|j: int| 0 <= j < i + 1 implies (name_changes(
                            self,
                            files@[j].name@,
                        ) <==> plans(plan@, j)) by {
                            if j != i {
                                if plans(plan@, j) {
                                    let k = choose|k: int|
                                        0 <= k < plan@.len() && plan@[k].index == j;
                                    assert(k < old_plan.len());
                                    assert(plans(old_plan, j));
                                }
                                if plans(old_plan, j) {
                                    let k = choose|k: int|
                                        0 <= k < old_plan.len() && old_plan[k].index == j;
                                    assert(plan@[k].index == j);
                                }
                            } else {
                                assert(plan@[old_plan.len() as int].index == j);
                            }
                        }
                    } else {
                        assert(!plans(plan@, i as int));
                    }
                },
            }
            i = i + 1;
        }
        assert(!exists|j: int| 0 <= j < files@.len() && renamed(self, files@[j].name@) is None);
        Ok(plan)
    }

    /// A name after substitution; it stays as it is where no placeholder occurs.
    pub fn replace_text(&self, input: &str) -> (r: Result<String, ReplaceError>)
        requires
            self.wf(),
        ensures
            r matches Ok(t) ==> renamed(self, input@) == Some(t@),
            r is Ok,
    {
        proof {
            lemma_names_stay_utf8(self, input@);
        }
        let b = input.as_bytes();
        match self.replace_bytes(b) {
            None => Ok(input.to_owned()),
            Some(out) => match decode_text(out.as_slice()) {
                Some(t) => Ok(t),
                None => Err(ReplaceError::Decode),
            },
        }
    }
}

/// Whether `lit` occurs in `input` at `s`.
fn occurs_in(input: &[u8], lit: &[u8], s: usize) -> (r: bool)
    requires
        s <= input@.len(),
    ensures
        r == occurs_at(input@, lit@, s as int),
{
    let n = input.len();
    if lit.len() > n - s {
        return false;
    }
    let mut t: usize = 0;
    while t < lit.len()
        invariant
            n == input@.len(),
            t <= lit@.len(),
            s <= input@.len(),
            s + lit@.len() <= input@.len(),
            forall|u: int| 0 <= u < t ==> lit@[u] == input@[s + u],
        decreases lit@.len() - t,
    {
        if lit[t] != input[s + t] {
            assert(!occurs_at(input@, lit@, s as int)) by {
                assert(input@.subrange(s as int, s + lit@.len())[t as int] == input@[s + t]);
            }
            return false;
        }
        t = t + 1;
    }
    assert(input@.subrange(s as int, s + lit@.len()) =~= lit@);
    true
}

/// A name after substitution: unchanged where no placeholder occurs, `None`
/// where the substituted bytes are not valid UTF-8.
pub open spec fn renamed(rep: &Replacer, name: Seq<char>) -> Option<Seq<char>> {
    let b = encode_utf8(name);
    if !has_occurrence(b, rep.lits()) {
        Some(name)
    } else if valid_utf8(substitute(b, rep.lits(), rep.vals())) {
        Some(decode_utf8(substitute(b, rep.lits(), rep.vals())))
    } else {
        None
    }
}

/// Whether substitution changes a name, or cannot give it.
pub open spec fn name_changes(rep: &Replacer, name: Seq<char>) -> bool {
    renamed(rep, name) != Some(name)
}

/// A directory or file in the tree: how deep it lies below the root (the
/// root is at depth 0) and its base name.
pub struct NamedEntry {
    pub depth: usize,
    pub name: String,
}

/// Give the entry at `index` the base name `name`, in the same parent.
pub struct PlannedRename {
    pub index: usize,
    pub name: String,
}

/// A planned rename renames an entry of the list to what substitution makes of
/// its name, which differs from it.
pub open spec fn valid_rename(rep: &Replacer, entries: Seq<NamedEntry>, r: PlannedRename) -> bool {
    &&& r.index < entries.len()
    &&& renamed(rep, entries[r.index as int].name@) == Some(r.name@)
    &&& r.name@ != entries[r.index as int].name@
}

/// The plan renames each entry at most once.
pub open spec fn distinct_targets(plan: Seq<PlannedRename>) -> bool {
    forall|k: int, l: int| 0 <= k < l < plan.len() ==> plan[k].index != plan[l].index
}

/// Whether the plan renames the entry at `i`.
pub open spec fn plans(plan: Seq<PlannedRename>, i: int) -> bool {
    exists|k: int| 0 <= k < plan.len() && plan[k].index == i
}

/// Which entries a plan over `entries` must rename: those whose name changes,
/// below the root.
pub open spec fn must_rename(rep: &Replacer, entries: Seq<NamedEntry>, i: int) -> bool {
    0 <= i < entries.len() && entries[i].depth > 0 && name_changes(rep, entries[i].name@)
}

/// Why substitution could not be carried out.
#[derive(Debug, Clone, Copy, PartialEq, Eq, Structural)]
pub enum ReplaceError {
    /// The matcher could not be compiled.
    Matcher,
    /// A substituted name is not valid UTF-8; substitution keeps names valid,
    /// so this is never returned.
    Decode,
}

} // verus!
