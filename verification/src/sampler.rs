//! The fixed-size window of readings and timestamps behind a telemetry sampler.

use std::collections::VecDeque;
use vstd::prelude::*;

verus! {

/// Number of readings (and of timestamps) that a sampler holds.
pub const WINDOW: usize = 128;

/// Number of readings averaged into one downsampled value.
pub const BLOCK: usize = 8;

/// A window of the `WINDOW` most recent readings, each with a timestamp.
///
/// Readings and timestamps are kept in two queues of the same length;
/// pushing into a full queue drops its oldest element.
#[derive(Clone)]
pub struct Sampler<V> {
    d: VecDeque<V>,
    s: VecDeque<V>,
}

/// Errors reported by the sampler.
#[derive(Debug, PartialEq, Eq, Structural)]
pub enum SamplerError {
    /// A position outside `0..WINDOW` was asked for.
    OutOfBound,
}

/// `s` with its oldest element dropped and `v` appended: one push into a full window.
pub open spec fn shifted<V>(s: Seq<V>, v: V) -> Seq<V> {
    s.skip(1).push(v)
}

/// The first `n` elements of `s`; nothing when `n <= 0`, all of `s` when `n` exceeds its length.
pub open spec fn head_part<V>(s: Seq<V>, n: int) -> Seq<V> {
    if n <= 0 {
        Seq::empty()
    } else if n >= s.len() {
        s
    } else {
        s.take(n)
    }
}

/// The elements of `s` from position `n` on, for `0 <= n < WINDOW`; nothing otherwise.
pub open spec fn tail_part<V>(s: Seq<V>, n: int) -> Seq<V> {
    if 0 <= n < WINDOW {
        s.skip(n)
    } else {
        Seq::empty()
    }
}

/// The elements among the first `k` of `s` whose flag in `keep` is set, in order.
pub open spec fn select_upto<V>(s: Seq<V>, keep: Seq<bool>, k: int) -> Seq<V>
    decreases k,
{
    if k <= 0 {
        Seq::empty()
    } else if keep[k - 1] {
        select_upto(s, keep, k - 1).push(s[k - 1])
    } else {
        select_upto(s, keep, k - 1)
    }
}

/// The elements of `s` whose flag in `keep` is set, in order.
pub open spec fn select<V>(s: Seq<V>, keep: Seq<bool>) -> Seq<V> {
    select_upto(s, keep, s.len() as int)
}

impl<V: Copy> Sampler<V> {
    /// The readings, oldest first.
    pub closed spec fn readings(&self) -> Seq<V> {
        self.d@
    }

    /// The timestamps, oldest first; `stamps()[i]` belongs to `readings()[i]`.
    pub closed spec fn stamps(&self) -> Seq<V> {
        self.s@
    }

    /// Both queues are full.
    pub open spec fn wf(&self) -> bool {
        &&& self.readings().len() == WINDOW
        &&& self.stamps().len() == WINDOW
    }

    /// A sampler whose every reading is `value` and whose every timestamp is `ts`.
    pub fn filled(value: V, ts: V) -> (r: Self)
        ensures
            r.wf(),
            r.readings() == Seq::new(WINDOW as nat, |_i: int| value),
            r.stamps() == Seq::new(WINDOW as nat, |_i: int| ts),
    {
        let mut d: VecDeque<V> = VecDeque::with_capacity(WINDOW);
        let mut s: VecDeque<V> = VecDeque::with_capacity(WINDOW);
        let mut k: usize = 0;
        while k < WINDOW
            invariant
                k <= WINDOW,
                d@ == Seq::new(k as nat, |_i: int| value),
                s@ == Seq::new(k as nat, |_i: int| ts),
            decreases WINDOW - k,
        {
            d.push_back(value);
            s.push_back(ts);
            k += 1;
        }
        Sampler { d, s }
    }

    /// A sampler holding `values` as readings and `stamps` as their timestamps.
    pub fn from_parts(values: &Vec<V>, stamps: &Vec<V>) -> (r: Self)
        requires
            values@.len() == WINDOW,
            stamps@.len() == WINDOW,
        ensures
            r.wf(),
            r.readings() == values@,
            r.stamps() == stamps@,
    {
        let mut d: VecDeque<V> = VecDeque::with_capacity(WINDOW);
        let mut s: VecDeque<V> = VecDeque::with_capacity(WINDOW);
        let mut k: usize = 0;
        while k < WINDOW
            invariant
                k <= WINDOW,
                values@.len() == WINDOW,
                stamps@.len() == WINDOW,
                d@ == values@.take(k as int),
                s@ == stamps@.take(k as int),
            decreases WINDOW - k,
        {
            d.push_back(values[k]);
            s.push_back(stamps[k]);
            proof {
                assert(values@.take(k + 1) == values@.take(k as int).push(values@[k as int]));
                assert(stamps@.take(k + 1) =~= stamps@.take(k as int).push(stamps@[k as int]));
            }
            k += 1;
        }
        proof {
            assert(values@.take(WINDOW as int) == values@);
            assert(stamps@.take(WINDOW as int) == stamps@);
        }
        Sampler { d, s }
    }

    /// Pushes a reading; the oldest reading leaves the window. Timestamps are unchanged.
    pub fn try_set_no_ts(&mut self, v: V)
        requires
            old(self).wf(),
        ensures
            final(self).wf(),
            final(self).readings() == shifted(old(self).readings(), v),
            final(self).stamps() == old(self).stamps(),
    {
        if self.d.len() == WINDOW {
            let _ = self.d.pop_front();
        }
        self.d.push_back(v);
    }

    /// Pushes a timestamp; the oldest timestamp leaves the window. Readings are unchanged.
    pub fn try_set_ts(&mut self, ts: V)
        requires
            old(self).wf(),
        ensures
            final(self).wf(),
            final(self).stamps() == shifted(old(self).stamps(), ts),
            final(self).readings() == old(self).readings(),
    {
        if self.s.len() == WINDOW {
            let _ = self.s.pop_front();
        }
        self.s.push_back(ts);
    }

    /// Pushes a reading together with its timestamp.
    pub fn set_and_ts(&mut self, v: V, ts: V)
        requires
            old(self).wf(),
        ensures
            final(self).wf(),
            final(self).readings() == shifted(old(self).readings(), v),
            final(self).stamps() == shifted(old(self).stamps(), ts),
    {
        self.try_set_no_ts(v);
        self.try_set_ts(ts);
    }

    /// The timestamp and the reading at position `i`, counted from the oldest.
    pub fn try_get_xy(&self, i: i64) -> (r: Result<(V, V), SamplerError>)
        requires
            self.wf(),
        ensures
            (0 <= i < WINDOW) ==> r == Ok::<(V, V), SamplerError>(
                (self.stamps()[i as int], self.readings()[i as int]),
            ),
            !(0 <= i < WINDOW) ==> r == Err::<(V, V), SamplerError>(SamplerError::OutOfBound),
    {
        if (i < 0) || (i > 127) {
            return Err(SamplerError::OutOfBound);
        }
        let k = i as usize;
        let x = self.s[k];
        let y = self.d[k];
        Ok((x, y))
    }

    /// All readings, oldest first.
    pub fn raw(&self) -> (r: Vec<V>)
        requires
            self.wf(),
        ensures
            r@ == self.readings(),
    {
        let mut res: Vec<V> = Vec::new();
        let mut k: usize = 0;
        while k < self.d.len()
            invariant
                self.wf(),
                k <= WINDOW,
                res@ == self.readings().take(k as int),
            decreases WINDOW - k,
        {
            res.push(self.d[k]);
            proof {
                assert(self.readings().take(k + 1) == self.readings().take(k as int).push(
                    self.readings()[k as int],
                ));
            }
            k += 1;
        }
        proof {
            assert(self.readings().take(WINDOW as int) == self.readings());
        }
        res
    }

    /// All timestamps, oldest first.
    pub fn timestamps(&self) -> (r: Vec<V>)
        requires
            self.wf(),
        ensures
            r@ == self.stamps(),
    {
        let mut res: Vec<V> = Vec::new();
        let mut k: usize = 0;
        while k < self.s.len()
            invariant
                self.wf(),
                k <= WINDOW,
                res@ == self.stamps().take(k as int),
            decreases WINDOW - k,
        {
            res.push(self.s[k]);
            proof {
                assert(self.stamps().take(k + 1) == self.stamps().take(k as int).push(
                    self.stamps()[k as int],
                ));
            }
            k += 1;
        }
        proof {
            assert(self.stamps().take(WINDOW as int) == self.stamps());
        }
        res
    }

    /// Every (timestamp, reading) pair, oldest first.
    pub fn values_raw(&self) -> (r: Vec<(V, V)>)
        requires
            self.wf(),
        ensures
            r@.len() == WINDOW,
            forall|i: int|
                0 <= i < WINDOW ==> #[trigger] r@[i] == (self.stamps()[i], self.readings()[i]),
    {
        let mut res: Vec<(V, V)> = Vec::new();
        let mut k: usize = 0;
        while k < WINDOW
            invariant
                self.wf(),
                k <= WINDOW,
                res@.len() == k,
                forall|i: int|
                    0 <= i < k ==> #[trigger] res@[i] == (self.stamps()[i], self.readings()[i]),
            decreases WINDOW - k,
        {
            res.push((self.s[k], self.d[k]));
            k += 1;
        }
        res
    }

    /// The first `n` readings (none when `n <= 0`, all when `n >= WINDOW`).
    pub fn car(&self, n: i64) -> (r: Vec<V>)
        requires
            self.wf(),
        ensures
            r@ == head_part(self.readings(), n as int),
    {
        let mut res: Vec<V> = Vec::new();
        if n <= 0 {
            return res;
        }
        let upto: usize = if n >= 128 { WINDOW } else { n as usize };
        let mut k: usize = 0;
        while k < upto
            invariant
                self.wf(),
                upto <= WINDOW,
                upto == (if n >= 128 { WINDOW as int } else { n as int }),
                k <= upto,
                res@ == self.readings().take(k as int),
            decreases upto - k,
        {
            res.push(self.d[k]);
            proof {
                assert(self.readings().take(k + 1) == self.readings().take(k as int).push(
                    self.readings()[k as int],
                ));
            }
            k += 1;
        }
        proof {
            assert(self.readings().take(WINDOW as int) == self.readings());
        }
        res
    }

    /// The readings from position `n` on (none when `n` is negative or at least `WINDOW`).
    pub fn cdr(&self, n: i64) -> (r: Vec<V>)
        requires
            self.wf(),
        ensures
            r@ == tail_part(self.readings(), n as int),
    {
        let mut res: Vec<V> = Vec::new();
        if n >= 128 || n < 0 {
            return res;
        }
        let from = n as usize;
        let mut k: usize = from;
        while k < WINDOW
            invariant
                self.wf(),
                from == n,
                from <= k <= WINDOW,
                res@ == self.readings().subrange(from as int, k as int),
            decreases WINDOW - k,
        {
            res.push(self.d[k]);
            proof {
                assert(self.readings().subrange(from as int, k + 1) == self.readings().subrange(
                    from as int,
                    k as int,
                ).push(self.readings()[k as int]));
            }
            k += 1;
        }
        res
    }

    /// The readings whose flag in `keep` is set, oldest first.
    pub fn select_readings(&self, keep: &Vec<bool>) -> (r: Vec<V>)
        requires
            self.wf(),
            keep@.len() == WINDOW,
        ensures
            r@ == select(self.readings(), keep@),
    {
        let mut res: Vec<V> = Vec::new();
        let mut k: usize = 0;
        while k < WINDOW
            invariant
                self.wf(),
                keep@.len() == WINDOW,
                k <= WINDOW,
                res@ == select_upto(self.readings(), keep@, k as int),
            decreases WINDOW - k,
        {
            if keep[k] {
                res.push(self.d[k]);
            }
            k += 1;
        }
        res
    }

    /// The readings cut into consecutive blocks of `BLOCK`, oldest block first.
    pub fn blocks(&self) -> (r: Vec<Vec<V>>)
        requires
            self.wf(),
        ensures
            r@.len() == WINDOW / BLOCK,
            forall|b: int|
                0 <= b < WINDOW / BLOCK ==> #[trigger] r@[b]@ == self.readings().subrange(
                    b * BLOCK,
                    b * BLOCK + BLOCK,
                ),
    {
        let mut res: Vec<Vec<V>> = Vec::new();
        let mut b: usize = 0;
        while b < WINDOW / BLOCK
            invariant
                self.wf(),
                b <= WINDOW / BLOCK,
                res@.len() == b,
                forall|c: int|
                    0 <= c < b ==> #[trigger] res@[c]@ == self.readings().subrange(
                        c * BLOCK,
                        c * BLOCK + BLOCK,
                    ),
            decreases WINDOW / BLOCK - b,
        {
            let start = b * BLOCK;
            let mut block: Vec<V> = Vec::new();
            let mut j: usize = 0;
            while j < BLOCK
                invariant
                    self.wf(),
                    b < WINDOW / BLOCK,
                    start == b * BLOCK,
                    j <= BLOCK,
                    block@ == self.readings().subrange(start as int, start + j),
                decreases BLOCK - j,
            {
                block.push(self.d[start + j]);
                proof {
                    assert(self.readings().subrange(start as int, start + j + 1)
                        == self.readings().subrange(start as int, start + j).push(
                        self.readings()[start + j],
                    ));
                }
                j += 1;
            }
            res.push(block);
            b += 1;
        }
        res
    }

    /// A copy of this sampler.
    pub fn duplicate(&self) -> (r: Self)
        requires
            self.wf(),
        ensures
            r.wf(),
            r.readings() == self.readings(),
            r.stamps() == self.stamps(),
    {
        let values = self.raw();
        let stamps = self.timestamps();
        Self::from_parts(&values, &stamps)
    }

    /// A copy of this sampler with the given timestamps pushed one by one, oldest first.
    pub fn distribute_timestamps(&self, stamps: &Vec<V>) -> (r: Self)
        requires
            self.wf(),
            stamps@.len() == WINDOW,
        ensures
            r.wf(),
            r.readings() == self.readings(),
            r.stamps() == stamps@,
    {
        let mut res = self.duplicate();
        let mut k: usize = 0;
        while k < WINDOW
            invariant
                self.wf(),
                res.wf(),
                stamps@.len() == WINDOW,
                k <= WINDOW,
                res.readings() == self.readings(),
                res.stamps() == self.stamps().skip(k as int) + stamps@.take(k as int),
            decreases WINDOW - k,
        {
            let ghost before = res.stamps();
            res.try_set_ts(stamps[k]);
            proof {
                assert(res.stamps() == self.stamps().skip(k + 1) + stamps@.take(k + 1)) by {
                    assert(stamps@.take(k + 1) =~= stamps@.take(k as int).push(stamps@[k as int]));
                    assert(before.skip(1) =~= self.stamps().skip(k + 1) + stamps@.take(k as int));
                }
            }
            k += 1;
        }
        proof {
            assert(stamps@.take(WINDOW as int) == stamps@);
            assert(self.stamps().skip(WINDOW as int) + stamps@ == stamps@);
        }
        res
    }
}

/// A push into a full window keeps its size, moves every older element one place towards
/// the front, and puts the new element at the newest position.
pub proof fn law_push_newest<V>(s: Seq<V>, v: V)
    requires
        s.len() == WINDOW,
    ensures
        shifted(s, v).len() == WINDOW,
        shifted(s, v)[WINDOW - 1] == v,
        forall|i: int| 0 <= i < WINDOW - 1 ==> #[trigger] shifted(s, v)[i] == s[i + 1],
{
}

/// For a count `n` between 0 and `WINDOW`, the head holds exactly the first `n` readings,
/// in order, and the tail exactly the other `WINDOW - n`, in order.
pub proof fn law_car_cdr_sizes<V>(s: Seq<V>, n: int)
    requires
        s.len() == WINDOW,
        0 <= n <= WINDOW,
    ensures
        head_part(s, n).len() == n,
        forall|i: int| 0 <= i < n ==> #[trigger] head_part(s, n)[i] == s[i],
        tail_part(s, n).len() == WINDOW - n,
        forall|i: int| 0 <= i < WINDOW - n ==> #[trigger] tail_part(s, n)[i] == s[n + i],
{
}

/// For a count `n` between 0 and `WINDOW`, the first `n` readings followed by the readings
/// from `n` on are all the readings.
pub proof fn law_car_cdr<V>(s: Seq<V>, n: int)
    requires
        s.len() == WINDOW,
        0 <= n <= WINDOW,
    ensures
        head_part(s, n) + tail_part(s, n) == s,
{
    if n == 0 {
        assert(s.skip(0) =~= s);
        assert(Seq::<V>::empty() + s =~= s);
    } else if n == WINDOW {
        assert(s + Seq::<V>::empty() =~= s);
    } else {
        assert(s.take(n) + s.skip(n) =~= s);
    }
}

/// Selecting by flags keeps at most as many elements as there are, and with every flag set
/// it keeps them all.
pub proof fn law_select_bounds<V>(s: Seq<V>, keep: Seq<bool>, k: int)
    requires
        0 <= k <= s.len(),
        keep.len() == s.len(),
    ensures
        select_upto(s, keep, k).len() <= k,
        (forall|i: int| 0 <= i < k ==> #[trigger] keep[i]) ==> select_upto(s, keep, k)
            == s.take(k),
    decreases k,
{
    if k > 0 {
        law_select_bounds(s, keep, k - 1);
        if forall|i: int| 0 <= i < k ==> #[trigger] keep[i] {
            assert(keep[k - 1]);
            assert(s.take(k - 1).push(s[k - 1]) =~= s.take(k));
        }
    } else {
        assert(s.take(0) =~= Seq::<V>::empty());
    }
}

/// The window after pushing each element of `xs` in turn.
pub open spec fn pushed_all<V>(s: Seq<V>, xs: Seq<V>) -> Seq<V>
    decreases xs.len(),
{
    if xs.len() == 0 {
        s
    } else {
        shifted(pushed_all(s, xs.drop_last()), xs.last())
    }
}

/// For each timestamp, whether it differs from `zero`.
pub open spec fn differs_from<V>(stamps: Seq<V>, zero: V) -> Seq<bool> {
    Seq::new(stamps.len(), |i: int| stamps[i] != zero)
}

/// Pushing at most `WINDOW` elements into a full window leaves its newest elements equal
/// to them, after the rest of the old window.
pub proof fn lemma_pushed_all<V>(s: Seq<V>, xs: Seq<V>)
    requires
        s.len() == WINDOW,
        xs.len() <= WINDOW,
    ensures
        pushed_all(s, xs) == s.skip(xs.len() as int) + xs,
    decreases xs.len(),
{
    if xs.len() == 0 {
        assert(s.skip(0) + xs =~= s);
    } else {
        let prev = xs.drop_last();
        lemma_pushed_all(s, prev);
        assert((s.skip(prev.len() as int) + prev).skip(1).push(xs.last()) =~= s.skip(
            xs.len() as int,
        ) + xs);
    }
}

/// Selection over flags that are off before position `f` and on from it keeps the
/// elements from `f` to `k`.
proof fn lemma_select_suffix<V>(a: Seq<V>, keep: Seq<bool>, f: int, k: int)
    requires
        0 <= f <= a.len(),
        0 <= k <= a.len(),
        keep.len() == a.len(),
        forall|i: int| 0 <= i < f ==> !#[trigger] keep[i],
        forall|i: int| f <= i < a.len() ==> #[trigger] keep[i],
    ensures
        select_upto(a, keep, k) == (if k <= f {
            Seq::<V>::empty()
        } else {
            a.subrange(f, k)
        }),
    decreases k,
{
    if k > 0 {
        lemma_select_suffix(a, keep, f, k - 1);
        if k > f {
            assert(keep[k - 1]);
            if k - 1 <= f {
                assert(a.subrange(f, k) =~= Seq::<V>::empty().push(a[k - 1]));
            } else {
                assert(a.subrange(f, k) =~= a.subrange(f, k - 1).push(a[k - 1]));
            }
        } else {
            assert(!keep[k - 1]);
        }
    }
}

/// Starting from a window of zero readings stamped zero, after pushing up to `WINDOW`
/// readings with non-zero stamps, the readings whose stamps are non-zero are exactly the
/// pushed ones, oldest first.
pub proof fn law_stamped_readings<V>(vs: Seq<V>, ts: Seq<V>, zero_value: V, zero_stamp: V)
    requires
        vs.len() == ts.len(),
        vs.len() <= WINDOW,
        forall|i: int| 0 <= i < ts.len() ==> #[trigger] ts[i] != zero_stamp,
    ensures
        select(
            pushed_all(Seq::new(WINDOW as nat, |_i: int| zero_value), vs),
            differs_from(pushed_all(Seq::new(WINDOW as nat, |_i: int| zero_stamp), ts), zero_stamp),
        ) == vs,
{
    let zv = Seq::new(WINDOW as nat, |_i: int| zero_value);
    let zt = Seq::new(WINDOW as nat, |_i: int| zero_stamp);
    lemma_pushed_all(zv, vs);
    lemma_pushed_all(zt, ts);
    let m = vs.len() as int;
    let a = zv.skip(m) + vs;
    let stamps = zt.skip(m) + ts;
    let keep = differs_from(stamps, zero_stamp);
    let f = WINDOW - m;
    assert forall|i: int| 0 <= i < f implies !#[trigger] keep[i] by {
        assert(stamps[i] == zt[i + m]);
    }
    assert forall|i: int| f <= i < a.len() implies #[trigger] keep[i] by {
        assert(stamps[i] == ts[i - f]);
    }
    lemma_select_suffix(a, keep, f, a.len() as int);
    assert(a.subrange(f, a.len() as int) =~= vs);
}

} // verus!
