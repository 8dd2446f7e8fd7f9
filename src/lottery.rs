//! Weighted choice among a fixed list of items, replayable from a seed.
use vstd::prelude::*;

verus! {

/// Sum of the first `n` weights.
pub open spec fn prefix(w: Seq<u32>, n: int) -> int
    decreases n,
{
    if n <= 0 || n > w.len() {
        0
    } else {
        prefix(w, n - 1) + w[n - 1]
    }
}

/// The point of `[0, total)` that a seed selects: the seed as a fraction of
/// 2^32, scaled.
pub open spec fn draw_point(seed: u32, total: int) -> int {
    seed as int * total / 4294967296
}

pub proof fn lemma_prefix_mono(w: Seq<u32>, i: int, j: int)
    requires
        0 <= i <= j <= w.len(),
    ensures
        prefix(w, i) <= prefix(w, j),
    decreases j - i,
{
    if i < j {
        lemma_prefix_mono(w, i, j - 1);
    }
}

pub proof fn lemma_prefix_push(w: Seq<u32>, v: u32)
    ensures
        forall|n: int| 0 <= n <= w.len() ==> #[trigger] prefix(w.push(v), n) == prefix(w, n),
        prefix(w.push(v), w.len() as int + 1) == prefix(w, w.len() as int) + v,
{
    assert forall|n: int| 0 <= n <= w.len() implies #[trigger] prefix(w.push(v), n) == prefix(
        w,
        n,
    ) by {
        lemma_prefix_push_at(w, v, n);
    }
    lemma_prefix_push_at(w, v, w.len() as int);
}

proof fn lemma_prefix_push_at(w: Seq<u32>, v: u32, n: int)
    requires
        0 <= n <= w.len(),
    ensures
        prefix(w.push(v), n) == prefix(w, n),
    decreases n,
{
    if n > 0 {
        lemma_prefix_push_at(w, v, n - 1);
    }
}

/// Every item with a positive weight is drawn by some seed, as long as the
/// total weight is at most 2^32.
pub proof fn lemma_offered_reachable(w: Seq<u32>, i: int)
    requires
        0 <= i < w.len(),
        w[i] > 0,
        prefix(w, w.len() as int) <= 4294967296,
    ensures
        exists|seed: u32|
            prefix(w, i) <= #[trigger] draw_point(seed, prefix(w, w.len() as int)) < prefix(
                w,
                i + 1,
            ),
{
    let total = prefix(w, w.len() as int);
    let p = prefix(w, i);
    let q = prefix(w, i + 1);
    lemma_prefix_mono(w, i + 1, w.len() as int);
    lemma_prefix_mono(w, 0, i);
    assert(q == p + w[i]);
    let n: int = 4294967296;
    let s = (p * n + total - 1) / total;
    assert(s * total >= p * n && s * total < p * n + total && 0 <= s < n) by (nonlinear_arith)
        requires
            s == (p * n + total - 1) / total,
            0 <= p,
            p < q,
            q <= total,
            total <= n,
            n == 4294967296,
    ;
    assert(p <= s * total / n < q) by (nonlinear_arith)
        requires
            s * total >= p * n,
            s * total < p * n + total,
            total <= n,
            p < q,
            n == 4294967296,
            n > 0,
            s >= 0,
            total > 0,
    ;
    let seed = s as u32;
    assert(draw_point(seed, total) == s * total / n);
}

/// Items with weights. An item is drawn with probability proportional to its weight.
pub struct Lottery<T> {
    pub items: Vec<T>,
    pub weights: Vec<u32>,
    pub total: u64,
}

impl<T: Copy> Lottery<T> {
    pub open spec fn wf(&self) -> bool {
        &&& self.items@.len() == self.weights@.len()
        &&& self.total == prefix(self.weights@, self.weights@.len() as int)
    }

    /// The item at `i` can be drawn.
    pub open spec fn offers(&self, i: int) -> bool {
        0 <= i < self.weights@.len() && self.weights@[i] > 0
    }

    pub fn new() -> (r: Lottery<T>)
        ensures
            r.wf(),
            r.items@.len() == 0,
            r.total == 0,
    {
        Lottery { items: Vec::new(), weights: Vec::new(), total: 0 }
    }

    /// Adds `item` with weight `w`, unless the total weight would overflow.
    pub fn push(&mut self, w: u32, item: T)
        requires
            old(self).wf(),
        ensures
            final(self).wf(),
            old(self).total + w <= u64::MAX ==> final(self).items@ == old(self).items@.push(item)
                && final(self).weights@ == old(self).weights@.push(w),
            old(self).total + w > u64::MAX ==> *final(self) == *old(self),
            final(self).total >= old(self).total,
            old(self).total + w <= u64::MAX ==> final(self).total == old(self).total + w,
    {
        if self.total <= u64::MAX - w as u64 {
            proof {
                lemma_prefix_push(self.weights@, w);
            }
            self.items.push(item);
            self.weights.push(w);
            self.total = self.total + w as u64;
        }
    }

    /// The index that `seed` selects: the one whose weight interval holds the draw point.
    pub fn choose_index_seeded(&self, seed: u32) -> (i: usize)
        requires
            self.wf(),
            self.total > 0,
        ensures
            i < self.items@.len(),
            prefix(self.weights@, i as int) <= draw_point(seed, self.total as int) < prefix(
                self.weights@,
                i + 1,
            ),
            self.offers(i as int),
    {
        let s = seed as u128;
        let t = self.total as u128;
        assert(s * t < 4294967296 * 18446744073709551616) by (nonlinear_arith)
            requires
                s < 4294967296,
                t < 18446744073709551616,
        ;
        let q = s * t / 4294967296;
        assert(q < t) by (nonlinear_arith)
            requires
                q == s * t / 4294967296,
                s < 4294967296,
                t > 0,
        ;
        let x = q as u64;
        let n = self.weights.len();
        let mut i: usize = 0;
        let mut acc: u64 = 0;
        while i < n && self.weights[i] as u64 <= x - acc
            invariant
                self.wf(),
                n == self.weights@.len(),
                i <= n,
                acc == prefix(self.weights@, i as int),
                acc <= x,
                x < self.total,
            decreases n - i,
        {
            proof {
                lemma_prefix_mono(self.weights@, i + 1, n as int);
            }
            acc = acc + self.weights[i] as u64;
            i = i + 1;
        }
        if i == n {
            assert(false);
        }
        i
    }

    /// The item that `seed` selects.
    pub fn choose_seeded(&self, seed: u32) -> (r: T)
        requires
            self.wf(),
            self.total > 0,
        ensures
            exists|i: int|
                0 <= i < self.items@.len() && self.offers(i) && prefix(self.weights@, i)
                    <= draw_point(seed, self.total as int) < prefix(self.weights@, i + 1) && r
                    == self.items@[i],
    {
        let i = self.choose_index_seeded(seed);
        self.items[i]
    }
}

} // verus!
