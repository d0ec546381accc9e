//! Fuzzy string scores: skim-style matching and edit distances.

use distance::{damerau_levenshtein, levenshtein};
use fuzzy_matcher::skim::SkimMatcherV2;
use fuzzy_matcher::FuzzyMatcher;
use vstd::prelude::*;

verus! {

/// The score that `SkimMatcherV2::default().fuzzy_match(choice, pattern)` gives.
pub uninterp spec fn skim_score(choice: Seq<char>, pattern: Seq<char>) -> Option<i64>;

/// The Levenshtein distance: the fewest single-character insertions, deletions and
/// substitutions that turn `s` into `t`.
pub open spec fn levenshtein_distance(s: Seq<char>, t: Seq<char>) -> nat
    decreases s.len() + t.len(),
{
    if s.len() == 0 {
        t.len()
    } else if t.len() == 0 {
        s.len()
    } else {
        let substitute = levenshtein_distance(s.drop_last(), t.drop_last()) + if s.last()
            == t.last() {
            0nat
        } else {
            1nat
        };
        let delete = levenshtein_distance(s.drop_last(), t) + 1;
        let insert = levenshtein_distance(s, t.drop_last()) + 1;
        if substitute <= delete && substitute <= insert {
            substitute
        } else if delete <= insert {
            delete
        } else {
            insert
        }
    }
}

/// The Damerau-Levenshtein distance that `distance::damerau_levenshtein` computes.
pub uninterp spec fn damerau_distance(s: Seq<char>, t: Seq<char>) -> usize;

/// Calls `SkimMatcherV2::default().fuzzy_match`. Claimed: the score depends on the two
/// texts alone, and an empty pattern scores `Some(0)` (the crate's source returns that
/// before matching). The scoring itself is left unsaid.
#[verifier::external_body]
fn skim_fuzzy_match(choice: &str, pattern: &str) -> (r: Option<i64>)
    ensures
        r == skim_score(choice@, pattern@),
        pattern@.len() == 0 ==> r == Some(0i64),
{
    SkimMatcherV2::default().fuzzy_match(choice, pattern)
}

/// Calls `distance::levenshtein`. Claimed, as its documentation says: the result is the
/// Levenshtein distance between the two texts, counted in characters.
#[verifier::external_body]
fn levenshtein_of(s: &str, t: &str) -> (r: usize)
    ensures
        r as nat == levenshtein_distance(s@, t@),
{
    levenshtein(s, t)
}

/// Calls `distance::damerau_levenshtein`. Claimed: the distance depends on the two texts
/// alone.
#[verifier::external_body]
fn damerau_of(s: &str, t: &str) -> (r: usize)
    ensures
        r == damerau_distance(s@, t@),
{
    damerau_levenshtein(s, t)
}

/// How well the pattern `p` fuzzily matches the text `t`; 0 when it does not match.
pub fn str_match(t: String, p: String) -> (r: i64)
    ensures
        r == (match skim_score(t@, p@) {
            Some(score) => score,
            None => 0,
        }),
        p@.len() == 0 ==> r == 0,
{
    match skim_fuzzy_match(t.as_str(), p.as_str()) {
        Some(res) => res,
        None => 0,
    }
}

/// The Levenshtein distance between `t` and `p`.
pub fn str_match_levenshtein(t: String, p: String) -> (r: i64)
    ensures
        r == levenshtein_distance(t@, p@) as i64,
{
    levenshtein_of(t.as_str(), p.as_str()) as i64
}

/// The Damerau-Levenshtein distance between `t` and `p`.
pub fn str_match_damerau(t: String, p: String) -> (r: i64)
    ensures
        r == damerau_distance(t@, p@) as i64,
{
    damerau_of(t.as_str(), p.as_str()) as i64
}

/// The largest Levenshtein distance from `s` to any of `others`, and 0 when there are none.
pub open spec fn max_distance(s: Seq<char>, others: Seq<Seq<char>>) -> i64
    decreases others.len(),
{
    if others.len() == 0 {
        0
    } else {
        let prev = max_distance(s, others.drop_last());
        let d = levenshtein_distance(s, others.last()) as i64;
        if d > prev {
            d
        } else {
            prev
        }
    }
}

/// The views of a list of strings.
pub open spec fn views(v: Seq<String>) -> Seq<Seq<char>> {
    Seq::new(v.len(), |i: int| v[i]@)
}

/// The largest Levenshtein distance from `s` to any of `others` (0 when there are none).
pub fn max_levenshtein(s: &String, others: &Vec<String>) -> (r: i64)
    ensures
        r == max_distance(s@, views(others@)),
{
    let mut curr: i64 = 0;
    let mut i: usize = 0;
    while i < others.len()
        invariant
            i <= others@.len(),
            curr == max_distance(s@, views(others@).take(i as int)),
        decreases others@.len() - i,
    {
        let c = levenshtein_of(s.as_str(), others[i].as_str()) as i64;
        proof {
            assert(views(others@).take(i + 1).drop_last() =~= views(others@).take(i as int));
            assert(views(others@).take(i + 1).last() == others@[i as int]@);
        }
        if c > curr {
            curr = c;
        }
        i += 1;
    }
    proof {
        assert(views(others@).take(others@.len() as int) =~= views(others@));
    }
    curr
}

/// Whether a new text `s` is far enough from every held text to be kept: its largest
/// Levenshtein distance to them is below `q`.
pub fn is_novel(q: i64, s: &String, others: &Vec<String>) -> (r: bool)
    ensures
        r == (max_distance(s@, views(others@)) < q),
{
    max_levenshtein(s, others) < q
}

/// The largest distance is at least the distance to each of the others, and it is 0 or
/// the distance to one of them.
pub proof fn law_max_distance_bounds(s: Seq<char>, others: Seq<Seq<char>>)
    ensures
        max_distance(s, others) >= 0,
        forall|i: int|
            0 <= i < others.len() ==> max_distance(s, others) >= levenshtein_distance(
                s,
                #[trigger] others[i],
            ) as i64,
        max_distance(s, others) == 0 || exists|i: int|
            0 <= i < others.len() && max_distance(s, others) == levenshtein_distance(
                s,
                #[trigger] others[i],
            ) as i64,
    decreases others.len(),
{
    if others.len() > 0 {
        let prev = others.drop_last();
        law_max_distance_bounds(s, prev);
        assert forall|i: int| 0 <= i < others.len() implies max_distance(s, others)
            >= levenshtein_distance(s, #[trigger] others[i]) as i64 by {
            if i < others.len() - 1 {
                assert(others[i] == prev[i]);
            }
        }
        if max_distance(s, others) != 0 {
            let d = levenshtein_distance(s, others.last()) as i64;
            if d > max_distance(s, prev) {
                assert(max_distance(s, others) == levenshtein_distance(
                    s,
                    others[others.len() - 1],
                ) as i64);
            } else {
                let i = choose|i: int|
                    0 <= i < prev.len() && max_distance(s, prev) == levenshtein_distance(
                        s,
                        #[trigger] prev[i],
                    ) as i64;
                assert(others[i] == prev[i]);
            }
        }
    }
}

} // verus!
