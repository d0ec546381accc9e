//! A bounded list of metrics that belong to one key, with the span of whole seconds seen.

use std::collections::VecDeque;
use vstd::prelude::*;

verus! {

/// A span of whole seconds, from `s` to `e`.
#[derive(Debug, Clone, Copy, PartialEq, Eq, Structural)]
pub struct TimeInterval {
    pub s: i64,
    pub e: i64,
}

impl TimeInterval {
    /// The empty span at second zero.
    pub fn new() -> (r: Self)
        ensures
            r.s == 0 && r.e == 0,
    {
        TimeInterval { s: 0, e: 0 }
    }
}

/// The span after a metric stamped at second `stamp` arrived: a later second moves the end,
/// an earlier one the start.
pub open spec fn widened(t: TimeInterval, stamp: i64) -> TimeInterval {
    if stamp > t.e {
        TimeInterval { e: stamp, ..t }
    } else if stamp < t.s {
        TimeInterval { s: stamp, ..t }
    } else {
        t
    }
}

/// The list after `m` is appended to `d`, dropping the oldest metric when that makes the
/// list longer than `cap`.
pub open spec fn appended<M>(d: Seq<M>, m: M, cap: i64) -> Seq<M> {
    let grown = d.push(m);
    if grown.len() > cap {
        grown.skip(1)
    } else {
        grown
    }
}

/// Metrics under one key (the first key it is given), at most `s` of them. A metric is
/// refused when the caller reports that one with its timestamp is already held.
#[derive(Debug, Clone)]
pub struct DynamicSampler<M> {
    t: TimeInterval,
    k: String,
    s: i64,
    d: VecDeque<M>,
}

impl<M> DynamicSampler<M> {
    /// The span of whole seconds seen.
    pub closed spec fn span(&self) -> TimeInterval {
        self.t
    }

    /// The key the sampler belongs to (empty until the first metric is offered).
    pub closed spec fn key(&self) -> Seq<char> {
        self.k@
    }

    /// The most metrics kept.
    pub closed spec fn cap(&self) -> i64 {
        self.s
    }

    /// The metrics held, oldest first.
    pub closed spec fn items(&self) -> Seq<M> {
        self.d@
    }

    /// An empty sampler that keeps at most 128 metrics.
    pub fn new() -> (r: Self)
        ensures
            r.span() == (TimeInterval { s: 0, e: 0 }),
            r.key() == Seq::<char>::empty(),
            r.cap() == 128,
            r.items() == Seq::<M>::empty(),
    {
        DynamicSampler { t: TimeInterval::new(), k: String::new(), s: 128, d: VecDeque::new() }
    }

    /// The span of whole seconds seen.
    pub fn t(&self) -> (r: TimeInterval)
        ensures
            r == self.span(),
    {
        self.t
    }

    /// The key the sampler belongs to.
    pub fn k(&self) -> (r: String)
        ensures
            r@ == self.key(),
    {
        self.k.clone()
    }

    /// The most metrics kept.
    pub fn s(&self) -> (r: i64)
        ensures
            r == self.cap(),
    {
        self.s
    }

    /// Sets the most metrics kept; the metrics held stay.
    pub fn set_capacity(&mut self, s: i64)
        ensures
            final(self).cap() == s,
            final(self).span() == old(self).span(),
            final(self).key() == old(self).key(),
            final(self).items() == old(self).items(),
    {
        self.s = s;
    }

    /// How many metrics are held.
    pub fn len(&self) -> (r: i64)
        ensures
            r == self.items().len() as i64,
    {
        self.d.len() as i64
    }

    /// The metrics held, oldest first.
    pub fn metrics(&self) -> (r: &VecDeque<M>)
        ensures
            r@ == self.items(),
    {
        &self.d
    }

    /// Offers the metric `m`, whose timestamp reads `key` and falls in second `stamp`;
    /// `seen` tells whether a held metric has the same timestamp. The first key offered
    /// becomes the sampler's key; a metric under another key, or with a timestamp already
    /// held, is refused. An accepted metric widens the span and is appended.
    pub fn set(&mut self, m: M, key: String, seen: bool, stamp: i64) -> (r: bool)
        ensures
            final(self).cap() == old(self).cap(),
            final(self).key() == (if old(self).key().len() == 0 {
                key@
            } else {
                old(self).key()
            }),
            r == (final(self).key() == key@ && !seen),
            r ==> final(self).span() == widened(old(self).span(), stamp) && final(self).items()
                == appended(old(self).items(), m, old(self).cap()),
            !r ==> final(self).span() == old(self).span() && final(self).items() == old(
                self,
            ).items(),
    {
        if self.k.as_str().is_empty() {
            self.k = key.clone();
        }
        if self.k != key {
            return false;
        }
        if seen {
            return false;
        }
        if stamp > self.t.e {
            self.t.e = stamp;
        } else if stamp < self.t.s {
            self.t.s = stamp;
        }
        self.d.push_back(m);
        let held = self.d.len();
        if self.s < 0 || (held as u128) > (self.s as u128) {
            let _ = self.d.pop_front();
        }
        true
    }
}

/// With the default capacity, a sampler never holds more than 128 metrics: appending to a
/// list of at most 128 keeps it at most 128.
pub proof fn law_bounded<M>(d: Seq<M>, m: M)
    requires
        d.len() <= 128,
    ensures
        appended(d, m, 128).len() <= 128,
{
}

} // verus!
