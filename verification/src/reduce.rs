//! Host model of the GPU tree reduction that folds the per-pixel comparison
//! scores of one map set into a single fitness scalar.
//!
//! The device holds two equally sized buffers per map set and alternates
//! their "active" and "scratch" roles: each pass combines adjacent pairs of
//! the live front segment of the active buffer into the scratch buffer and
//! then swaps the roles.  [`ReducePair`] reproduces that scheme on the host,
//! with the role swap modelled as a flag flip, so that the reduction result
//! can be pinned down exactly: the final scalar is the sum of the inputs,
//! taken modulo 2^32 because the device adds 32-bit words.

use vstd::prelude::*;
use vstd::arithmetic::div_mod::lemma_add_mod_noop;
use vstd::arithmetic::div_mod::lemma_div_denominator;
use vstd::arithmetic::div_mod::lemma_div_plus_one;
use vstd::arithmetic::div_mod::lemma_small_mod;

verus! {

/// Modulus of the device's 32-bit word arithmetic.
pub open spec fn word_modulus() -> int {
    0x1_0000_0000
}

/// Plain mathematical sum of a sequence of 32-bit scores.
pub open spec fn sum_seq(s: Seq<u32>) -> int
    decreases s.len(),
{
    if s.len() == 0 {
        0
    } else {
        sum_seq(s.drop_last()) + s.last()
    }
}

/// 32-bit wrapping addition, the combination step of one reduction pair.
pub fn wrap_add(x: u32, y: u32) -> (r: u32)
    ensures
        r == (x + y) % word_modulus(),
{
    let s: u64 = x as u64 + y as u64;
    (s % 0x1_0000_0000u64) as u32
}

/// What one reduction pass writes at slot `i`: the wrapping sum of the
/// adjacent pair at `2i`, or the lone leftover element when `m` is odd.
pub open spec fn pair_combined(src: Seq<u32>, m: int, i: int) -> u32 {
    if 2 * i + 1 < m {
        ((src[2 * i] + src[2 * i + 1]) % word_modulus()) as u32
    } else {
        src[2 * i]
    }
}

/// The double-buffered reduction state of one map set: two equally sized
/// buffers whose "active" and "scratch" roles alternate, and the number of
/// live partial sums at the front of the active buffer.  The view is that
/// live front segment; which physical buffer holds it is deliberately not
/// exposed, so no contract can depend on the current role assignment.
pub struct ReducePair {
    a: Vec<u32>,
    b: Vec<u32>,
    a_active: bool,
    live: usize,
}

impl View for ReducePair {
    type V = Seq<u32>;

    closed spec fn view(&self) -> Seq<u32> {
        (if self.a_active {
            self.a@
        } else {
            self.b@
        }).subrange(0, self.live as int)
    }
}

impl ReducePair {
    /// Both buffers are equally sized and the live segment fits in them.
    pub closed spec fn wf(self) -> bool {
        &&& self.a@.len() == self.b@.len()
        &&& 1 <= self.live <= self.a@.len()
    }

    /// A fresh pair whose live segment holds the given per-pixel scores.
    pub fn new(values: Vec<u32>) -> (r: ReducePair)
        requires
            1 <= values@.len(),
        ensures
            r.wf(),
            r@ == values@,
    {
        let n = values.len();
        let mut scratch: Vec<u32> = Vec::new();
        let mut i: usize = 0;
        while i < n
            invariant
                i <= n,
                scratch@.len() == i,
            decreases n - i,
        {
            scratch.push(0u32);
            i = i + 1;
        }
        let r = ReducePair { a: values, b: scratch, a_active: true, live: n };
        proof {
            assert(r@ =~= r.a@);
        }
        r
    }

    /// One reduction pass: combines adjacent pairs of the live segment into
    /// the scratch buffer, swaps the roles, and halves the live count
    /// (rounding up).  Each new slot holds the wrapped sum of its adjacent
    /// pair — so the front really is partial sums, not merely a segment
    /// with the right total — and the wrapped sum overall is unchanged.
    pub fn pass(&mut self)
        requires
            old(self).wf(),
            2 <= old(self)@.len(),
        ensures
            final(self).wf(),
            final(self)@.len() == (old(self)@.len() + 1) / 2,
            forall|i: int|
                0 <= i < final(self)@.len() ==> #[trigger] final(self)@[i] == pair_combined(
                    old(self)@,
                    old(self)@.len() as int,
                    i,
                ),
            sum_seq(final(self)@) % word_modulus() == sum_seq(old(self)@) % word_modulus(),
    {
        let ghost view0 = self@;
        let m = self.live;
        let half = m / 2 + m % 2;
        if self.a_active {
            combine_pairs(&self.a, &mut self.b, m);
        } else {
            combine_pairs(&self.b, &mut self.a, m);
        }
        self.a_active = !self.a_active;
        self.live = half;
        proof {
            assert forall|i: int| 0 <= i < half implies self@[i] == pair_combined(
                view0,
                m as int,
                i,
            ) by {
                assert(pair_combined(view0, m as int, i) == pair_combined(
                    (if self.a_active {
                        self.b@
                    } else {
                        self.a@
                    }),
                    m as int,
                    i,
                ));
            }
            lemma_combined_prefix_sum(view0, self@, half as int);
            assert(self@.subrange(0, half as int) =~= self@);
            assert(view0.subrange(0, m as int) =~= view0);
        }
    }

    /// Number of live partial sums at the front of the active buffer.
    pub fn live_count(&self) -> (n: usize)
        requires
            self.wf(),
        ensures
            n == self@.len(),
    {
        self.live
    }

    /// Runs reduction passes until a single live element remains and
    /// returns it: the wrapped sum of the scores the pair started from.
    pub fn reduce_to_score(&mut self) -> (score: u32)
        requires
            old(self).wf(),
        ensures
            final(self).wf(),
            final(self)@.len() == 1,
            score == final(self)@[0],
            score == sum_seq(old(self)@) % word_modulus(),
    {
        let ghost orig = old(self)@;
        while self.live > 1
            invariant
                self.wf(),
                sum_seq(self@) % word_modulus() == sum_seq(orig) % word_modulus(),
            decreases self.live,
        {
            proof {
                assert(self@.len() == self.live);
            }
            self.pass();
        }
        proof {
            assert(self@.len() == 1);
            lemma_sum_seq_single(self@);
            lemma_sum_seq_nonneg(self@);
            lemma_small_mod(self@[0] as nat, word_modulus() as nat);
        }
        if self.a_active {
            self.a[0]
        } else {
            self.b[0]
        }
    }
}

/// Writes the pairwise wrapped sums of the first `m` elements of `src`
/// into the front of `dst`, leaving the rest of `dst` in place.
fn combine_pairs(src: &Vec<u32>, dst: &mut Vec<u32>, m: usize)
    requires
        2 <= m <= src@.len(),
        old(dst)@.len() == src@.len(),
    ensures
        final(dst)@.len() == old(dst)@.len(),
        forall|i: int|
            0 <= i < (m + 1) / 2 ==> final(dst)@[i] == pair_combined(src@, m as int, i),
{
    let half = m / 2 + m % 2;
    let mut i: usize = 0;
    while i < half
        invariant
            i <= half,
            half == (m + 1) / 2,
            2 <= m <= src@.len(),
            dst@.len() == src@.len(),
            forall|j: int| 0 <= j < i ==> #[trigger] dst@[j] == pair_combined(src@, m as int, j),
        decreases half - i,
    {
        let x = src[2 * i];
        let v = if 2 * i + 1 < m {
            wrap_add(x, src[2 * i + 1])
        } else {
            x
        };
        dst.set(i, v);
        i = i + 1;
    }
}

/// The elements of a singleton sequence sum to the element itself.
proof fn lemma_sum_seq_single(s: Seq<u32>)
    requires
        s.len() == 1,
    ensures
        sum_seq(s) == s[0],
{
    assert(s.drop_last() =~= Seq::<u32>::empty());
    assert(sum_seq(Seq::<u32>::empty()) == 0);
}

/// A sum of unsigned words is never negative.
proof fn lemma_sum_seq_nonneg(s: Seq<u32>)
    ensures
        sum_seq(s) >= 0,
    decreases s.len(),
{
    if s.len() > 0 {
        lemma_sum_seq_nonneg(s.drop_last());
    }
}

/// Extending a prefix by one element adds that element to its sum.
proof fn lemma_sum_prefix_step(s: Seq<u32>, k: int)
    requires
        1 <= k <= s.len(),
    ensures
        sum_seq(s.subrange(0, k)) == sum_seq(s.subrange(0, k - 1)) + s[k - 1],
{
    assert(s.subrange(0, k).drop_last() =~= s.subrange(0, k - 1));
}

/// The wrapped sum of the first `k` combined pairs equals the wrapped sum
/// of the source elements they cover.
proof fn lemma_combined_prefix_sum(s: Seq<u32>, c: Seq<u32>, k: int)
    requires
        2 <= s.len(),
        forall|i: int| 0 <= i < k ==> #[trigger] c[i] == pair_combined(s, s.len() as int, i),
        0 <= k <= (s.len() + 1) / 2,
        k <= c.len(),
    ensures
        sum_seq(c.subrange(0, k)) % word_modulus() == sum_seq(
            s.subrange(0, if 2 * k <= s.len() { 2 * k } else { s.len() as int }),
        ) % word_modulus(),
    decreases k,
{
    let m = s.len() as int;
    let mm = word_modulus();
    if k == 0 {
        assert(c.subrange(0, 0) =~= Seq::<u32>::empty());
        assert(s.subrange(0, 0) =~= Seq::<u32>::empty());
    } else {
        lemma_combined_prefix_sum(s, c, k - 1);
        lemma_sum_prefix_step(c, k);
        let upper_prev: int = if 2 * (k - 1) <= m {
            2 * (k - 1)
        } else {
            m
        };
        let upper: int = if 2 * k <= m {
            2 * k
        } else {
            m
        };
        let cprev = sum_seq(c.subrange(0, k - 1));
        let sprev = sum_seq(s.subrange(0, upper_prev));
        if 2 * (k - 1) + 1 < m {
            // a full pair was combined: the source prefix grows by two
            assert(upper_prev == 2 * (k - 1));
            assert(upper == 2 * k);
            let x = s[2 * (k - 1)] as int;
            let y = s[2 * (k - 1) + 1] as int;
            let w = (x + y) % mm;
            assert(c[k - 1] == pair_combined(s, m, k - 1));
            assert(c[k - 1] == w);
            lemma_sum_prefix_step(s, 2 * k);
            lemma_sum_prefix_step(s, 2 * k - 1);
            assert(sum_seq(s.subrange(0, upper)) == sprev + x + y);
            assert(sum_seq(c.subrange(0, k)) == cprev + w);
            lemma_small_mod(w as nat, mm as nat);
            lemma_add_mod_noop(cprev, w, mm);
            lemma_add_mod_noop(sprev, x + y, mm);
            assert((cprev + w) % mm == ((cprev % mm) + (w % mm)) % mm);
            assert(((cprev % mm) + (w % mm)) % mm == ((sprev % mm) + ((x + y) % mm)) % mm);
            assert(((sprev % mm) + ((x + y) % mm)) % mm == (sprev + (x + y)) % mm);
        } else {
            // the lone leftover element was carried over unchanged
            assert(upper_prev == 2 * (k - 1));
            assert(upper == m);
            assert(m == 2 * k - 1);
            let x = s[2 * (k - 1)] as int;
            assert(c[k - 1] == pair_combined(s, m, k - 1));
            assert(c[k - 1] == x);
            lemma_sum_prefix_step(s, m);
            assert(sum_seq(s.subrange(0, upper)) == sprev + x);
            assert(sum_seq(c.subrange(0, k)) == cprev + x);
            lemma_small_mod(x as nat, mm as nat);
            lemma_add_mod_noop(cprev, x, mm);
            lemma_add_mod_noop(sprev, x, mm);
        }
    }
}

/// Law: reduction computes the total.  Whenever the scores are small
/// enough that their true sum fits in a 32-bit word — always the case for
/// the per-pixel comparison values — the final scalar is exactly the sum
/// of all inputs, with no wrap-around.
pub proof fn lemma_score_is_exact_sum(s: Seq<u32>)
    requires
        sum_seq(s) <= u32::MAX,
    ensures
        sum_seq(s) % word_modulus() == sum_seq(s),
{
    lemma_sum_seq_nonneg(s);
    lemma_small_mod(sum_seq(s) as nat, word_modulus() as nat);
}

/// Law: the score does not depend on the buffer roles.  The view of a
/// reduce pair hides which physical buffer currently holds the live
/// segment, and the score contract is a function of that view alone, so
/// two pairs with the same live content yield the same score whatever
/// their internal role flags are.
pub proof fn lemma_score_role_independent(p: ReducePair, q: ReducePair)
    requires
        p@ == q@,
    ensures
        sum_seq(p@) % word_modulus() == sum_seq(q@) % word_modulus(),
{
}

/// Sizes of the reduction passes over `n` elements: each pass dispatches
/// one thread per combined pair, so the sizes are `n / 2`, `n / 4`, ...
/// down to the final single element.
pub fn reduce_pass_sizes(n: u32) -> (sizes: Vec<u32>)
    ensures
        forall|i: int|
            0 <= i < sizes@.len() ==> 1 <= #[trigger] sizes@[i] && sizes@[i] == n as int / (
            pow2((i + 1) as nat) as int),
        n as int / (pow2((sizes@.len() + 1) as nat) as int) == 0,
{
    let mut sizes: Vec<u32> = Vec::new();
    let mut v: u32 = n / 2;
    proof {
        assert(pow2(0) == 1);
        assert(pow2(1) == 2);
    }
    while v != 0
        invariant
            v == n as int / (pow2((sizes@.len() + 1) as nat) as int),
            forall|i: int|
                0 <= i < sizes@.len() ==> 1 <= #[trigger] sizes@[i] && sizes@[i] == n as int / (
                pow2((i + 1) as nat) as int),
        decreases v,
    {
        sizes.push(v);
        proof {
            lemma_pow2_pos(sizes@.len() as nat);
            lemma_div_denominator(n as int, pow2((sizes@.len()) as nat) as int, 2);
            assert(pow2((sizes@.len()) as nat) * 2 == pow2((sizes@.len() + 1) as nat));
        }
        v = v / 2;
    }
    proof {
        lemma_pow2_pos((sizes@.len() + 1) as nat);
    }
    sizes
}

/// Number of live partial sums left by `k` reduction passes over `n`
/// elements: each pass halves the count, rounding up, as [`ReducePair::pass`]
/// ensures.
pub open spec fn live_after(n: int, k: nat) -> int
    decreases k,
{
    if k == 0 {
        n
    } else {
        (live_after(n, (k - 1) as nat) + 1) / 2
    }
}

/// Ceiling division.
pub open spec fn ceil_div(n: int, d: int) -> int {
    (n + d - 1) / d
}

/// Halving a ceiling quotient once more is dividing by twice the divisor.
proof fn lemma_halving_composes(n: int, a: int)
    requires
        1 <= n,
        1 <= a,
    ensures
        (ceil_div(n, a) + 1) / 2 == ceil_div(n, 2 * a),
{
    let c = (n - 1) / a;
    lemma_div_plus_one(n - 1, a);
    assert(ceil_div(n, a) == c + 1);
    lemma_div_plus_one(c, 2);
    assert((c + 2) / 2 == c / 2 + 1);
    lemma_div_denominator(n - 1, a, 2);
    assert(c / 2 == (n - 1) / (2 * a));
    lemma_div_plus_one(n - 1, 2 * a);
    assert((n - 1) / (2 * a) + 1 == (2 * a + n - 1) / (2 * a));
}

/// Law: after `k` reduction passes over `n` live elements, exactly
/// `ceil(n / 2^k)` valid partial sums occupy the front of the active
/// buffer.
pub proof fn lemma_live_after_passes(n: int, k: nat)
    requires
        1 <= n,
    ensures
        live_after(n, k) == ceil_div(n, pow2(k) as int),
    decreases k,
{
    lemma_pow2_pos(k);
    if k == 0 {
        assert(ceil_div(n, 1) == n) by (nonlinear_arith);
    } else {
        lemma_live_after_passes(n, (k - 1) as nat);
        lemma_pow2_pos((k - 1) as nat);
        let a = pow2((k - 1) as nat) as int;
        lemma_halving_composes(n, a);
        assert(ceil_div(n, a) >= 1) by {
            vstd::arithmetic::div_mod::lemma_div_non_zero(n + a - 1, a);
        }
        assert(live_after(n, (k - 1) as nat) == ceil_div(n, a));
        assert(pow2(k) == 2 * a);
    }
}

/// Two to the `k`-th power.
pub open spec fn pow2(k: nat) -> nat
    decreases k,
{
    if k == 0 {
        1
    } else {
        2 * pow2((k - 1) as nat)
    }
}

/// Powers of two are positive.
proof fn lemma_pow2_pos(k: nat)
    ensures
        pow2(k) >= 1,
    decreases k,
{
    if k > 0 {
        lemma_pow2_pos((k - 1) as nat);
    }
}

/// Number of workgroups that cover `n` threads at `group` threads each:
/// none for no work, otherwise the least count whose span reaches `n`.
pub fn dispatch_count(n: u32, group: u32) -> (c: u32)
    requires
        1 <= group,
    ensures
        n == 0 ==> c == 0,
        n > 0 ==> (c - 1) * group < n <= c * group,
{
    let full = n / group;
    proof {
        vstd::arithmetic::div_mod::lemma_fundamental_div_mod(n as int, group as int);
        vstd::arithmetic::mul::lemma_mul_inequality(1, group as int, full as int);
    }
    let c = if n % group == 0 {
        full
    } else {
        full + 1
    };
    proof {
        if n > 0 {
            assert((c - 1) * group < n <= c * group) by (nonlinear_arith)
                requires
                    1 <= group,
                    0 < n,
                    n == group * (n as int / group as int) + n as int % group as int,
                    0 <= (n as int % group as int) < group,
                    c == (if n as int % group as int == 0 {
                        n as int / group as int
                    } else {
                        n as int / group as int + 1
                    }),
            ;
        }
    }
    c
}

} // verus!
