//! Splitting text into separator-delimited fields.

use vstd::prelude::*;
use voca_rs::query;

verus! {

/// The fields of `s` between occurrences of `sep`, as `str::split` yields them:
/// an empty `s` has one empty field, and each `sep` starts a new field.
pub open spec fn split_on(s: Seq<char>, sep: char) -> Seq<Seq<char>>
    decreases s.len(),
{
    if s.len() == 0 {
        seq![Seq::<char>::empty()]
    } else {
        let prev = split_on(s.drop_last(), sep);
        if s.last() == sep {
            prev.push(Seq::<char>::empty())
        } else {
            prev.update(prev.len() - 1, prev.last().push(s.last()))
        }
    }
}

/// Splitting always yields at least one field.
pub proof fn lemma_split_nonempty(s: Seq<char>, sep: char)
    ensures
        split_on(s, sep).len() >= 1,
    decreases s.len(),
{
    if s.len() > 0 {
        lemma_split_nonempty(s.drop_last(), sep);
    }
}

/// The fields joined back together with `sep` between each two.
pub open spec fn join_with(parts: Seq<Seq<char>>, sep: char) -> Seq<char>
    decreases parts.len(),
{
    if parts.len() <= 1 {
        if parts.len() == 1 {
            parts[0]
        } else {
            Seq::empty()
        }
    } else {
        join_with(parts.drop_last(), sep) + seq![sep] + parts.last()
    }
}

/// Joining the fields of `s` with the separator gives `s` back.
pub proof fn law_split_then_join(s: Seq<char>, sep: char)
    ensures
        join_with(split_on(s, sep), sep) == s,
    decreases s.len(),
{
    if s.len() == 0 {
        assert(join_with(split_on(s, sep), sep) =~= s);
    } else {
        let prev = split_on(s.drop_last(), sep);
        law_split_then_join(s.drop_last(), sep);
        lemma_split_nonempty(s.drop_last(), sep);
        let c = s.last();
        if c == sep {
            let cur = prev.push(Seq::<char>::empty());
            assert(cur.drop_last() =~= prev);
            assert(join_with(cur, sep) =~= s.drop_last() + seq![sep] + Seq::<char>::empty());
            assert(s.drop_last() + seq![sep] + Seq::<char>::empty() =~= s);
        } else {
            let last = prev.len() - 1;
            let cur = prev.update(last, prev.last().push(c));
            if prev.len() == 1 {
                assert(join_with(cur, sep) == prev[0].push(c));
                assert(join_with(prev, sep) == prev[0]);
                assert(s.drop_last().push(c) =~= s);
            } else {
                assert(cur.drop_last() =~= prev.drop_last());
                assert(cur.last() == prev.last().push(c));
                assert(join_with(cur, sep) =~= (join_with(prev.drop_last(), sep) + seq![sep]
                    + prev.last()).push(c));
                assert(s.drop_last().push(c) =~= s);
            }
        }
    }
}

/// The field of `s` that runs from `starts[j]` to `ends[j]`, or to `upto` for the last one.
pub open spec fn field_at(
    s: Seq<char>,
    starts: Seq<usize>,
    ends: Seq<usize>,
    upto: int,
    j: int,
) -> Seq<char> {
    s.subrange(starts[j] as int, if j < ends.len() { ends[j] as int } else { upto })
}

/// The fields of `s` separated by `sep`, in order.
pub fn fields(s: &str, sep: char) -> (r: Vec<String>)
    ensures
        r@.len() == split_on(s@, sep).len(),
        forall|j: int| 0 <= j < r@.len() ==> #[trigger] r@[j]@ == split_on(s@, sep)[j],
{
    let n = s.unicode_len();
    let mut starts: Vec<usize> = Vec::new();
    starts.push(0);
    let mut ends: Vec<usize> = Vec::new();
    let mut i: usize = 0;
    while i < n
        invariant
            n == s@.len(),
            i <= n,
            starts@.len() == ends@.len() + 1,
            forall|j: int| 0 <= j < ends@.len() ==> #[trigger] starts@[j] <= ends@[j],
            forall|j: int| 0 <= j < ends@.len() ==> #[trigger] ends@[j] < i,
            forall|j: int| 0 <= j < ends@.len() ==> #[trigger] starts@[j + 1] == ends@[j] + 1,
            starts@[starts@.len() - 1] <= i,
            split_on(s@.take(i as int), sep).len() == starts@.len(),
            forall|j: int|
                0 <= j < starts@.len() ==> #[trigger] split_on(s@.take(i as int), sep)[j]
                    == field_at(s@, starts@, ends@, i as int, j),
        decreases n - i,
    {
        let c = s.get_char(i);
        let ghost prev = split_on(s@.take(i as int), sep);
        let ghost old_starts = starts@;
        let ghost old_ends = ends@;
        proof {
            assert(s@.take(i + 1).drop_last() =~= s@.take(i as int));
            assert(s@.take(i + 1).last() == c);
            lemma_split_nonempty(s@.take(i as int), sep);
        }
        if c == sep {
            ends.push(i);
            starts.push(i + 1);
            proof {
                assert forall|j: int| 0 <= j < ends@.len() implies #[trigger] starts@[j]
                    <= ends@[j] by {
                    if j < old_ends.len() {
                        assert(starts@[j] == old_starts[j]);
                        assert(ends@[j] == old_ends[j]);
                    }
                }
                assert forall|j: int| 0 <= j < ends@.len() implies #[trigger] ends@[j] < i
                    + 1 by {
                    if j < old_ends.len() {
                        assert(ends@[j] == old_ends[j]);
                    }
                }
                let cur = split_on(s@.take(i + 1), sep);
                assert(cur == prev.push(Seq::<char>::empty()));
                assert forall|j: int| 0 <= j < starts@.len() implies #[trigger] cur[j]
                    == field_at(s@, starts@, ends@, (i + 1) as int, j) by {
                    if j < old_starts.len() {
                        assert(cur[j] == prev[j]);
                        assert(prev[j] == field_at(s@, old_starts, old_ends, i as int, j));
                    } else {
                        assert(field_at(s@, starts@, ends@, (i + 1) as int, j) =~= Seq::<
                            char,
                        >::empty());
                    }
                }
            }
        } else {
            proof {
                let cur = split_on(s@.take(i + 1), sep);
                let last = (starts@.len() - 1) as int;
                assert(cur == prev.update(last, prev[last].push(c)));
                assert forall|j: int| 0 <= j < starts@.len() implies #[trigger] cur[j]
                    == field_at(s@, starts@, ends@, (i + 1) as int, j) by {
                    if j < last {
                        assert(cur[j] == prev[j]);
                        assert(prev[j] == field_at(s@, starts@, ends@, i as int, j));
                    } else {
                        assert(prev[j] == field_at(s@, starts@, ends@, i as int, j));
                        assert(field_at(s@, starts@, ends@, (i + 1) as int, j) =~= field_at(
                            s@,
                            starts@,
                            ends@,
                            i as int,
                            j,
                        ).push(c));
                    }
                }
            }
        }
        i += 1;
    }
    ends.push(n);
    proof {
        assert(s@.take(n as int) =~= s@);
    }
    let mut r: Vec<String> = Vec::new();
    let mut j: usize = 0;
    while j < starts.len()
        invariant
            n == s@.len(),
            starts@.len() == ends@.len(),
            ends@[ends@.len() - 1] == n,
            forall|k: int| 0 <= k < ends@.len() ==> #[trigger] starts@[k] <= ends@[k] && ends@[k] <= n,
            split_on(s@, sep).len() == starts@.len(),
            forall|k: int|
                0 <= k < starts@.len() ==> #[trigger] split_on(s@, sep)[k] == s@.subrange(
                    starts@[k] as int,
                    ends@[k] as int,
                ),
            j <= starts@.len(),
            r@.len() == j,
            forall|k: int| 0 <= k < j ==> #[trigger] r@[k]@ == split_on(s@, sep)[k],
        decreases starts@.len() - j,
    {
        let part = s.substring_char(starts[j], ends[j]);
        r.push(part.to_owned());
        j += 1;
    }
    r
}

/// Whether `voca_rs::query::matches(subject, pattern, position)` holds.
pub uninterp spec fn pattern_matches(subject: Seq<char>, pattern: Seq<char>, position: usize) -> bool;

/// Calls `voca_rs::query::matches`. Claimed: the answer depends on the arguments alone. The
/// crate counts an empty subject as one (empty) character, so a position at or past
/// `max(1, length)` never matches and an empty pattern matches at any position before it
/// (as its source decides before it compiles the pattern). How a non-empty pattern is
/// matched is left unsaid.
#[verifier::external_body]
fn voca_matches(subject: &str, pattern: &str, position: usize) -> (r: bool)
    ensures
        r == pattern_matches(subject@, pattern@, position),
        (position >= subject@.len() && position >= 1) ==> !r,
        (pattern@.len() == 0 && (position < subject@.len() || position == 0)) ==> r,
{
    query::matches(subject, pattern, position)
}

/// A piece of text that scripts query with regular expressions.
#[derive(Debug, Clone)]
pub struct Text {
    raw: String,
}

impl Text {
    /// The text `raw`.
    pub fn new(raw: String) -> (r: Self)
        ensures
            r.view() == raw@,
    {
        Text { raw }
    }

    /// The characters of the text.
    pub closed spec fn view(&self) -> Seq<char> {
        self.raw@
    }

    /// A copy of the characters of the text.
    pub fn raw(&self) -> (r: String)
        ensures
            r@ == self.view(),
    {
        self.raw.clone()
    }

    /// Whether the regular expression `t` matches the text from its start.
    pub fn matches(&mut self, t: String) -> (r: bool)
        ensures
            *final(self) == *old(self),
            r == pattern_matches(old(self).view(), t@, 0),
            t@.len() == 0 ==> r,
    {
        let raw = self.raw();
        voca_matches(raw.as_str(), t.as_str(), 0)
    }
}

} // verus!
