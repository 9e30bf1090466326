//! A compiled multi-literal matcher: one alternation of literal strings,
//! searched leftmost-first.
use vstd::prelude::*;
use vstd::utf8::encode_utf8;
use grep_matcher::Matcher;
use grep_regex::RegexMatcherBuilder;

verus! {

#[verifier::external_type_specification]
#[verifier::external_body]
pub struct ExRegexMatcher(grep_regex::RegexMatcher);

#[verifier::external_type_specification]
#[verifier::external_body]
pub struct ExRegexError(grep_regex::Error);

/// Whether `lit` occurs in `s` at position `p`.
pub open spec fn occurs_at(s: Seq<u8>, lit: Seq<u8>, p: int) -> bool {
    0 <= p && p + lit.len() <= s.len() && s.subrange(p, p + lit.len()) == lit
}

/// The first index at or after `j` of a literal that occurs at `p`, or `lits.len()`.
pub open spec fn first_lit_from(s: Seq<u8>, lits: Seq<Seq<u8>>, p: int, j: int) -> int
    decreases lits.len() - j,
{
    if j < 0 || j >= lits.len() {
        lits.len() as int
    } else if occurs_at(s, lits[j], p) {
        j
    } else {
        first_lit_from(s, lits, p, j + 1)
    }
}

/// The first literal, in list order, that occurs at `p`; `lits.len()` when none does.
pub open spec fn first_lit(s: Seq<u8>, lits: Seq<Seq<u8>>, p: int) -> int {
    first_lit_from(s, lits, p, 0)
}

/// Whether one of the literals occurs at `p`.
pub open spec fn some_occurs_at(s: Seq<u8>, lits: Seq<Seq<u8>>, p: int) -> bool {
    exists|j: int| 0 <= j < lits.len() && occurs_at(s, lits[j], p)
}

/// The byte form of each string.
pub open spec fn bytes_of(strs: Seq<String>) -> Seq<Seq<u8>> {
    strs.map_values(|t: String| encode_utf8(t@))
}

pub proof fn lemma_first_lit_from(s: Seq<u8>, lits: Seq<Seq<u8>>, p: int, j: int)
    requires
        0 <= j <= lits.len(),
    ensures
        j <= first_lit_from(s, lits, p, j) <= lits.len(),
        first_lit_from(s, lits, p, j) < lits.len() ==> occurs_at(
            s,
            lits[first_lit_from(s, lits, p, j)],
            p,
        ),
        first_lit_from(s, lits, p, j) < lits.len() <==> exists|k: int|
            j <= k < lits.len() && occurs_at(s, lits[k], p),
        forall|k: int| j <= k < first_lit_from(s, lits, p, j) ==> !occurs_at(s, lits[k], p),
    decreases lits.len() - j,
{
    if j < lits.len() && !occurs_at(s, lits[j], p) {
        lemma_first_lit_from(s, lits, p, j + 1);
    }
}

pub proof fn lemma_first_lit(s: Seq<u8>, lits: Seq<Seq<u8>>, p: int)
    ensures
        0 <= first_lit(s, lits, p) <= lits.len(),
        first_lit(s, lits, p) < lits.len() <==> some_occurs_at(s, lits, p),
        first_lit(s, lits, p) < lits.len() ==> occurs_at(s, lits[first_lit(s, lits, p)], p),
        forall|k: int| 0 <= k < first_lit(s, lits, p) ==> !occurs_at(s, lits[k], p),
{
    lemma_first_lit_from(s, lits, p, 0);
}

/// Whether the alternation of these literals compiles into a matcher under
/// the builder settings of `LiteralMatcher::build`.
pub uninterp spec fn literals_compile(lits: Seq<Seq<u8>>) -> bool;

/// A matcher for an alternation of literal strings.
pub struct LiteralMatcher {
    re: grep_regex::RegexMatcher,
    lits: Ghost<Seq<Seq<u8>>>,
}

impl LiteralMatcher {
    /// The literals, as bytes, in the order of the alternation.
    pub closed spec fn literals(&self) -> Seq<Seq<u8>> {
        self.lits@
    }

    /// Relies on `RegexMatcherBuilder::build_literals` with `fixed_strings`: the
    /// patterns are taken as literals and joined into one alternation, in order.
    /// It may fail, as when the compiled automaton would exceed its size limit;
    /// with the settings fixed, whether it fails depends on the literals alone.
    #[verifier::external_body]
    pub fn build(literals: &Vec<String>) -> (r: Result<LiteralMatcher, grep_regex::Error>)
        ensures
            r is Ok <==> literals_compile(bytes_of(literals@)),
            r matches Ok(m) ==> m.literals() == bytes_of(literals@),
    {
        RegexMatcherBuilder::new().fixed_strings(true).build_literals(literals.as_slice()).map(
            |re| LiteralMatcher { re, lits: Ghost(bytes_of(literals@)) },
        )
    }

    /// Relies on `Matcher::find_at` of `grep_regex::RegexMatcher`: the leftmost
    /// match at or after `at`; among the literals occurring there, the regex
    /// engine's leftmost-first semantics picks the first of the alternation.
    #[verifier::external_body]
    pub fn find_at(&self, haystack: &[u8], at: usize) -> (r: Option<(usize, usize)>)
        requires
            at <= haystack@.len(),
        ensures
            r matches None ==> forall|p: int|
                at <= p <= haystack@.len() ==> !some_occurs_at(haystack@, self.literals(), p),
            r matches Some((s, e)) ==> {
                &&& at <= s <= e <= haystack@.len()
                &&& some_occurs_at(haystack@, self.literals(), s as int)
                &&& e - s == self.literals()[first_lit(haystack@, self.literals(), s as int)].len()
                &&& forall|p: int|
                    at <= p < s ==> !some_occurs_at(haystack@, self.literals(), p)
            },
    {
        match self.re.find_at(haystack, at) {
            Ok(Some(m)) => Some((m.start(), m.end())),
            _ => None,
        }
    }
}

} // verus!
