//! Moving average over a fixed window of the most recent samples.

use vstd::prelude::*;
use vstd::arithmetic::div_mod::lemma_fundamental_div_mod;
use vstd::arithmetic::div_mod::lemma_fundamental_div_mod_converse;
use vstd::arithmetic::mul::lemma_mul_is_distributive_add;
use vstd::arithmetic::mul::lemma_mul_is_commutative;

verus! {

/// Largest window a smoother can be built with.
pub const MAX_WINDOW: usize = 65536;

/// Sum of the samples of a window.
pub open spec fn sum(s: Seq<i32>) -> int
    decreases s.len(),
{
    if s.len() == 0 {
        0
    } else {
        sum(s.drop_last()) + s.last() as int
    }
}

/// Average of a window, rounded down to the next integer.
pub open spec fn mean(s: Seq<i32>) -> int
    recommends
        s.len() > 0,
{
    sum(s) / (s.len() as int)
}

/// The window after `raw` arrived: the new sample in front, the oldest gone.
pub open spec fn shifted(s: Seq<i32>, raw: i32) -> Seq<i32>
    recommends
        s.len() > 0,
{
    seq![raw] + s.drop_last()
}

/// A window of `n` samples that all hold `v`.
pub open spec fn constant_window(n: nat, v: i32) -> Seq<i32> {
    Seq::new(n, |i: int| v)
}

/// The window after the samples of `raws` arrived one after another.
pub open spec fn shifted_all(s: Seq<i32>, raws: Seq<i32>) -> Seq<i32>
    decreases raws.len(),
{
    if raws.len() == 0 {
        s
    } else {
        shifted(shifted_all(s, raws.drop_last()), raws.last())
    }
}

/// Every sample adds between `i32::MIN` and `i32::MAX` to the sum.
pub proof fn lemma_sum_bounds(s: Seq<i32>)
    ensures
        s.len() * (i32::MIN as int) <= sum(s) <= s.len() * (i32::MAX as int),
    decreases s.len(),
{
    if s.len() > 0 {
        lemma_sum_bounds(s.drop_last());
        let k = s.len() - 1;
        assert((k + 1) * (i32::MIN as int) == k * (i32::MIN as int) + (i32::MIN as int))
            by (nonlinear_arith);
        assert((k + 1) * (i32::MAX as int) == k * (i32::MAX as int) + (i32::MAX as int))
            by (nonlinear_arith);
    }
}

/// The sum of a window whose samples are all `v` is its length times `v`.
pub proof fn lemma_sum_constant(n: nat, v: i32)
    ensures
        sum(constant_window(n, v)) == n * (v as int),
    decreases n,
{
    if n > 0 {
        let k = (n - 1) as nat;
        let w = constant_window(n, v);
        assert(w.drop_last() =~= constant_window(k, v));
        lemma_sum_constant(k, v);
        assert(n * (v as int) == k * (v as int) + (v as int)) by (nonlinear_arith)
            requires
                n == k + 1,
        ;
    } else {
        assert(n * (v as int) == 0) by (nonlinear_arith)
            requires
                n == 0,
        ;
    }
}

/// The average lies between the smallest and the largest 32-bit value.
pub proof fn lemma_mean_bounds(s: Seq<i32>)
    requires
        s.len() > 0,
    ensures
        i32::MIN <= mean(s) <= i32::MAX,
{
    lemma_sum_bounds(s);
    let n = s.len() as int;
    let t = sum(s);
    lemma_fundamental_div_mod(t, n);
    let q = t / n;
    let r = t % n;
    assert(q <= i32::MAX) by (nonlinear_arith)
        requires
            n > 0,
            0 <= r,
            t == n * q + r,
            t <= n * (i32::MAX as int),
    ;
    assert(q >= i32::MIN) by (nonlinear_arith)
        requires
            n > 0,
            r < n,
            t == n * q + r,
            t >= n * (i32::MIN as int),
    ;
}

/// Feeding as many equal samples as the window is long leaves a window that
/// holds that sample only, and its average is the sample itself.
pub proof fn lemma_identical_samples(s: Seq<i32>, v: i32)
    requires
        s.len() > 0,
    ensures
        shifted_all(s, constant_window(s.len(), v)) == constant_window(s.len(), v),
        mean(shifted_all(s, constant_window(s.len(), v))) == v,
{
    let n = s.len();
    lemma_identical_prefix(s, v, n);
    assert(shifted_all(s, constant_window(n, v)) =~= constant_window(n, v));
    lemma_sum_constant(n, v);
    lemma_fundamental_div_mod_converse(n * (v as int), n as int, v as int, 0);
}

/// After `k` equal samples the first `k` places of the window hold the sample.
proof fn lemma_identical_prefix(s: Seq<i32>, v: i32, k: nat)
    requires
        s.len() > 0,
        k <= s.len(),
    ensures
        shifted_all(s, constant_window(k, v)).len() == s.len(),
        forall|i: int| 0 <= i < k ==> shifted_all(s, constant_window(k, v))[i] == v,
    decreases k,
{
    if k > 0 {
        let j = (k - 1) as nat;
        assert(constant_window(k, v).drop_last() =~= constant_window(j, v));
        lemma_identical_prefix(s, v, j);
    }
}

/// The average is the floor of the true average: the remainder of the
/// division is dropped, never rounded up.
pub proof fn lemma_mean_is_floor(s: Seq<i32>)
    requires
        s.len() > 0,
    ensures
        mean(s) * s.len() <= sum(s) < (mean(s) + 1) * s.len(),
        sum(s) % (s.len() as int) != 0 ==> mean(s) * s.len() < sum(s),
{
    let n = s.len() as int;
    let t = sum(s);
    lemma_fundamental_div_mod(t, n);
    lemma_mul_is_commutative(n, t / n);
    lemma_mul_is_distributive_add(n, t / n, 1);
    lemma_mul_is_commutative(n, t / n + 1);
}

/// Fixed-length buffer of the most recent samples, newest first.
pub struct Smoother {
    buf: Vec<i32>,
}

impl View for Smoother {
    type V = Seq<i32>;

    /// The samples held, newest first.
    closed spec fn view(&self) -> Seq<i32> {
        self.buf@
    }
}

impl Smoother {
    /// The window holds at least one sample and no more than `MAX_WINDOW`.
    pub closed spec fn wf(&self) -> bool {
        1 <= self.buf@.len() <= MAX_WINDOW
    }

    /// What `wf` says of the window's length.
    pub proof fn lemma_wf_len(&self)
        requires
            self.wf(),
        ensures
            1 <= self@.len() <= MAX_WINDOW,
    {
    }

    /// A smoother over the last `window` samples, filled with zeros.
    /// There is none for an empty window or one beyond `MAX_WINDOW`.
    pub fn new(window: usize) -> (r: Option<Smoother>)
        ensures
            r is Some <==> 1 <= window <= MAX_WINDOW,
            r matches Some(s) ==> s.wf() && s@ == constant_window(window as nat, 0),
    {
        if window == 0 || window > MAX_WINDOW {
            return None;
        }
        let mut buf: Vec<i32> = Vec::new();
        let mut i: usize = 0;
        while i < window
            invariant
                i <= window,
                buf@ == constant_window(i as nat, 0),
            decreases window - i,
        {
            buf.push(0);
            i += 1;
        }
        Some(Smoother { buf })
    }

    /// Number of samples the average is taken over.
    pub fn window(&self) -> (n: usize)
        requires
            self.wf(),
        ensures
            n == self@.len(),
            1 <= n <= MAX_WINDOW,
    {
        self.buf.len()
    }

    /// Puts every sample of the window back to zero.
    pub fn reset(&mut self)
        requires
            old(self).wf(),
        ensures
            final(self).wf(),
            final(self)@ == constant_window(old(self)@.len(), 0),
    {
        let n: usize = self.buf.len();
        let mut i: usize = 0;
        while i < n
            invariant
                i <= n,
                n == self.buf@.len(),
                forall|k: int| 0 <= k < i ==> self.buf@[k] == 0,
            decreases n - i,
        {
            self.buf.set(i, 0);
            i += 1;
        }
    }

    /// Average of the samples now held, rounded down.
    pub fn average(&self) -> (avg: i32)
        requires
            self.wf(),
        ensures
            avg == mean(self@),
    {
        let n: usize = self.buf.len();
        let mut acc: i64 = 0;
        let mut i: usize = 0;
        while i < n
            invariant
                i <= n,
                n == self.buf@.len(),
                n <= MAX_WINDOW,
                acc == sum(self.buf@.take(i as int)),
                i * (i32::MIN as int) <= acc <= i * (i32::MAX as int),
            decreases n - i,
        {
            proof {
                assert(self.buf@.take(i as int) =~= self.buf@.take(i + 1).drop_last());
                lemma_sum_bounds(self.buf@.take(i + 1));
            }
            acc = acc + self.buf[i] as i64;
            i += 1;
        }
        proof {
            assert(self.buf@.take(n as int) =~= self.buf@);
            lemma_mean_bounds(self.buf@);
        }
        floor_div(acc, n as i64) as i32
    }

    /// Takes in one sample: it becomes the newest of the window, the oldest
    /// leaves, and the average of the new window comes back.
    pub fn push(&mut self, raw: i32) -> (smoothed: i32)
        requires
            old(self).wf(),
        ensures
            final(self).wf(),
            final(self)@ == shifted(old(self)@, raw),
            smoothed == mean(final(self)@),
    {
        let n: usize = self.buf.len();
        let mut i: usize = n - 1;
        while i > 0
            invariant
                i < n,
                n == self.buf@.len(),
                n == old(self).buf@.len(),
                forall|k: int| 0 <= k <= i ==> self.buf@[k] == old(self).buf@[k],
                forall|k: int| i < k < n ==> self.buf@[k] == old(self).buf@[k - 1],
            decreases i,
        {
            let x: i32 = self.buf[i - 1];
            self.buf.set(i, x);
            i -= 1;
        }
        self.buf.set(0, raw);
        self.average()
    }
}

/// Quotient of `a` by a positive `d`, rounded towards minus infinity.
fn floor_div(a: i64, d: i64) -> (q: i64)
    requires
        d > 0,
    ensures
        q == a as int / d as int,
{
    let t: i64 = a / d;
    let r: i64 = a % d;
    proof {
        if a < 0 {
            let m: int = -(a as int);
            let e: int = d as int;
            lemma_fundamental_div_mod(m, e);
            assert(a == t * e + r) by (nonlinear_arith)
                requires
                    m == e * (m / e) + (m % e),
                    t == -(m / e),
                    r == -(m % e),
                    a == -m,
            ;
            if r == 0 {
                lemma_fundamental_div_mod_converse(a as int, e, t as int, 0);
            } else {
                assert(a == (t - 1) * e + (e + r)) by (nonlinear_arith)
                    requires
                        a == t * e + r,
                ;
                lemma_fundamental_div_mod_converse(a as int, e, t - 1, e + r);
                assert(t - 1 >= a) by (nonlinear_arith)
                    requires
                        a == (t - 1) * e + (e + r),
                        0 <= e + r < e,
                        a < 0,
                ;
            }
        }
    }
    if r < 0 {
        t - 1
    } else {
        t
    }
}

} // verus!
