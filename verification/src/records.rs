//! Cutting a binary stream into fixed-size records.

use vstd::prelude::*;

verus! {

/// The `k`-th record of size `n` in `bytes`.
pub open spec fn record(bytes: Seq<u8>, n: int, k: int) -> Seq<u8> {
    bytes.subrange(k * n, k * n + n)
}

/// The consecutive records of exactly `n` bytes each in `bytes`, as reading `n` bytes at a
/// time until fewer than `n` remain yields them; a shorter tail is left out.
pub fn fixed_records(bytes: &[u8], n: usize) -> (r: Vec<Vec<u8>>)
    requires
        n > 0,
    ensures
        r@.len() == bytes@.len() / (n as nat),
        forall|k: int| 0 <= k < r@.len() ==> #[trigger] r@[k]@ == record(bytes@, n as int, k),
{
    let total = bytes.len();
    let mut res: Vec<Vec<u8>> = Vec::new();
    let mut pos: usize = 0;
    proof {
        let k = res@.len() as int;
        assert(k * n == 0) by (nonlinear_arith)
            requires
                k == 0,
        {
        }
    }
    while total - pos >= n
        invariant
            n > 0,
            total == bytes@.len(),
            pos <= total,
            pos == res@.len() * n,
            forall|k: int|
                0 <= k < res@.len() ==> #[trigger] res@[k]@ == record(bytes@, n as int, k),
        decreases total - pos,
    {
        let mut rec: Vec<u8> = Vec::new();
        let mut j: usize = 0;
        while j < n
            invariant
                n > 0,
                total == bytes@.len(),
                pos + n <= total,
                j <= n,
                rec@ == bytes@.subrange(pos as int, pos + j),
            decreases n - j,
        {
            rec.push(bytes[pos + j]);
            proof {
                assert(bytes@.subrange(pos as int, pos + j + 1) =~= bytes@.subrange(
                    pos as int,
                    pos + j,
                ).push(bytes@[pos + j]));
            }
            j += 1;
        }
        proof {
            let k = res@.len() as int;
            assert(k * n + n == (k + 1) * n) by (nonlinear_arith);
        }
        res.push(rec);
        pos = pos + n;
    }
    proof {
        let k = res@.len() as int;
        let ni = n as int;
        assert(total as int - k * ni < ni);
        assert(k == total as int / ni) by (nonlinear_arith)
            requires
                ni > 0,
                k * ni <= total,
                total - k * ni < ni,
                k >= 0,
        {
        }
    }
    res
}

} // verus!
