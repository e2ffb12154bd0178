//! The plan of a radix-2 decimation-in-time transform of one size: its
//! bit-reversal table and the order of its butterflies.

use crate::bitrev::{
    bit_reverse,
    fft_log,
    fft_size,
    is_power_of_two,
    lemma_bit_reverse_bound,
    lemma_bit_reverse_full,
    lemma_bit_reverse_involution,
    lemma_bit_reverse_succ,
    lemma_bit_reverse_zero,
    lemma_fft_size,
    lemma_fft_size_fixed,
    lemma_fft_log,
    lemma_fft_size_least,
    lemma_pow2_gap,
    lemma_pow2_injective,
    lemma_pow2_step,
    reverse_succ,
};
use vstd::arithmetic::div_mod::{lemma_breakdown, lemma_small_mod};
use vstd::arithmetic::power2::{lemma_pow2_pos, pow2};
use vstd::bits::{
    lemma_usize_low_bits_mask_is_mod,
    lemma_usize_pow2_no_overflow,
    lemma_usize_shl_is_mul,
    lemma_usize_shr_is_div,
    low_bits_mask,
};
use vstd::prelude::*;

verus! {

/// What the bitwise steps of the reversed increment compute, for a mask
/// `k = 2^m`.
proof fn lemma_mask_steps(j: usize, k: usize, m: nat)
    requires
        m < usize::BITS,
        k == pow2(m),
    ensures
        (j & k != 0) <==> (j as int / k as int) % 2 == 1,
        j & ((k - 1) as usize) == j as int % k as int,
        k >> 1 == k / 2,
        ((j & ((k - 1) as usize)) | k) == j as int % k as int + k,
{
    let s = m as usize;
    lemma_usize_pow2_no_overflow(m);
    lemma_usize_shl_is_mul(1, s);
    assert(k == 1usize << s);
    lemma_usize_shr_is_div(j, s);
    let q = j >> s;
    assert(q == j as int / k as int);
    assert(((j & (1usize << s)) != 0) == (((j >> s) & 1) == 1)) by (bit_vector)
        requires
            s < usize::BITS,
    ;
    assert((q & 1) == q % 2) by (bit_vector);
    lemma_usize_low_bits_mask_is_mod(j, m);
    assert(low_bits_mask(m) == k - 1);
    let a = j & ((k - 1) as usize);
    assert(a == j as int % k as int);
    assert(k >> 1 == k / 2) by (bit_vector);
    assert(a < k);
    assert((a | (1usize << s)) == a + (1usize << s)) by (bit_vector)
        requires
            a < (1usize << s),
            s < usize::BITS,
    ;
}

/// The cells of `data` in bit-reversed order: cell `i` of the result is
/// the cell of `data` whose index is `i` with its `logn` binary digits
/// reversed.
pub open spec fn bit_reversed<T>(logn: nat, data: Seq<T>) -> Seq<T> {
    Seq::new(data.len(), |i: int| data[bit_reverse(i as nat, logn) as int])
}

/// Whether a transform of `2^logn` points may turn `input` into `output`:
/// the cells are put in bit-reversed order, every butterfly is applied by
/// `op` in order, and each cell is then passed through `scale`.
pub open spec fn transformed<T, B: Fn(T, T, usize, usize, bool) -> (T, T), S: Fn(T, usize) -> T>(
    logn: nat,
    op: &B,
    scale: &S,
    inverse: bool,
    input: Seq<T>,
    output: Seq<T>,
) -> bool {
    exists|trace: Seq<Seq<T>>|
        {
            &&& #[trigger] is_trace(op, logn, inverse, trace)
            &&& trace[0] == bit_reversed(logn, input)
            &&& output.len() == input.len()
            &&& forall|p: int|
                0 <= p < output.len() ==> call_ensures(
                    *scale,
                    (trace.last()[p], pow2(logn) as usize),
                    #[trigger] output[p],
                )
        }
}

/// How many butterflies a transform of `2^logn` points performs.
pub open spec fn butterfly_count(logn: nat) -> nat {
    if logn == 0 {
        0
    } else {
        logn * pow2((logn - 1) as nat)
    }
}

/// Butterfly number `s` of a transform of `2^logn` points, as `(lo, hi,
/// twiddle)`: it combines the cells `lo` and `hi` with the root of unity
/// of index `twiddle`. Stages come in order of doubling span; within a
/// stage the blocks from left to right; within a block the pairs from left
/// to right.
pub open spec fn butterfly_at(logn: nat, s: int) -> (int, int, int) {
    let half = pow2((logn - 1) as nat) as int;
    let stage = s / half;
    let r = s % half;
    let h = pow2(stage as nat) as int;
    let block = r / h;
    let j = r % h;
    (block * (2 * h) + j, block * (2 * h) + j + h, j * pow2((logn - 1 - stage) as nat))
}

/// Whether `after` is `before` with butterfly `s` applied by `op`.
pub open spec fn step_ok<T, B: Fn(T, T, usize, usize, bool) -> (T, T)>(
    op: &B,
    logn: nat,
    inverse: bool,
    s: int,
    before: Seq<T>,
    after: Seq<T>,
) -> bool {
    let (lo, hi, twiddle) = butterfly_at(logn, s);
    &&& after.len() == before.len()
    &&& call_ensures(
        *op,
        (before[lo], before[hi], twiddle as usize, pow2(logn) as usize, inverse),
        (after[lo], after[hi]),
    )
    &&& forall|p: int| 0 <= p < before.len() && p != lo && p != hi ==> after[p] == before[p]
}

/// Whether `trace` holds the cells before the first butterfly and after
/// each one, in order.
pub open spec fn is_trace<T, B: Fn(T, T, usize, usize, bool) -> (T, T)>(
    op: &B,
    logn: nat,
    inverse: bool,
    trace: Seq<Seq<T>>,
) -> bool {
    &&& trace.len() == butterfly_count(logn) + 1
    &&& forall|s: int|
        0 <= s < butterfly_count(logn) ==> step_ok(op, logn, inverse, s, trace[s], #[trigger] trace[s
            + 1])
}

/// Butterfly `j` of block `block` of stage `stage`: its number, the cells
/// it combines and its twiddle index, all within range.
pub proof fn lemma_butterfly_at(logn: nat, stage: nat, block: nat, j: nat)
    requires
        stage < logn,
        block < pow2((logn - 1 - stage) as nat),
        j < pow2(stage),
    ensures
        ({
            let h = pow2(stage);
            let s = stage * pow2((logn - 1) as nat) + block * h + j;
            let lo = block * (2 * h) + j;
            let twiddle = j * pow2((logn - 1 - stage) as nat);
            &&& butterfly_at(logn, s as int) == (lo as int, (lo + h) as int, twiddle as int)
            &&& s < butterfly_count(logn)
            &&& lo + h < pow2(logn)
            &&& 2 * twiddle < pow2(logn)
            &&& pow2(logn) == 2 * pow2((logn - 1) as nat)
            &&& pow2((logn - 1) as nat) == h * pow2((logn - 1 - stage) as nat)
        }),
{
    let h = pow2(stage) as int;
    let stride = pow2((logn - 1 - stage) as nat) as int;
    let half = pow2((logn - 1) as nat) as int;
    let r = block * h + j;
    let s = stage * half + r;
    vstd::arithmetic::power2::lemma_pow2_adds(stage, (logn - 1 - stage) as nat);
    assert(half == h * stride);
    lemma_pow2_step((logn - 1) as nat);
    lemma_pow2_pos(stage);
    assert(0 <= r < h * stride) by (nonlinear_arith)
        requires
            r == block * h + j,
            0 <= block < stride,
            0 <= j < h,
    ;
    vstd::arithmetic::div_mod::lemma_fundamental_div_mod_converse(s, half, stage as int, r);
    vstd::arithmetic::div_mod::lemma_fundamental_div_mod_converse(r, h, block as int, j as int);
    assert(s < logn * half) by (nonlinear_arith)
        requires
            s == stage * half + r,
            0 <= r < half,
            0 <= stage < logn,
    ;
    assert(block * (2 * h) + j + h < 2 * (h * stride)) by (nonlinear_arith)
        requires
            0 <= block < stride,
            0 <= j < h,
    ;
    assert(2 * (j * stride) < 2 * (h * stride)) by (nonlinear_arith)
        requires
            0 <= j < h,
            0 < stride,
    ;
    lemma_pow2_pos((logn - 1 - stage) as nat);
}

/// Whether butterfly `s` of a transform of `2^logn` points belongs to the
/// stage `stage`.
pub open spec fn in_stage(logn: nat, stage: nat, s: int) -> bool {
    stage * pow2((logn - 1) as nat) <= s < (stage + 1) * pow2((logn - 1) as nat)
}

/// Whether butterfly `s` of a transform of `2^logn` points reads and
/// writes the cell `p`.
pub open spec fn touches(logn: nat, s: int, p: int) -> bool {
    butterfly_at(logn, s).0 == p || butterfly_at(logn, s).1 == p
}

/// The butterfly of the stage `stage` that touches the cell `p`.
pub open spec fn butterfly_of(logn: nat, stage: nat, p: int) -> int {
    let h = pow2(stage) as int;
    stage * pow2((logn - 1) as nat) + (p / (2 * h)) * h + (p % (2 * h)) % h
}

/// A butterfly of a stage, taken apart into its block and its place in the
/// block.
proof fn lemma_in_stage(logn: nat, stage: nat, s: int)
    requires
        stage < logn,
        in_stage(logn, stage, s),
    ensures
        ({
            let h = pow2(stage) as int;
            let r = s - stage * pow2((logn - 1) as nat);
            let block = r / h;
            let j = r % h;
            &&& 0 <= block < pow2((logn - 1 - stage) as nat)
            &&& 0 <= j < h
            &&& s == stage * pow2((logn - 1) as nat) + block * h + j
            &&& butterfly_at(logn, s) == (
                block * (2 * h) + j,
                block * (2 * h) + j + h,
                j * pow2((logn - 1 - stage) as nat),
            )
        }),
{
    let h = pow2(stage) as int;
    let stride = pow2((logn - 1 - stage) as nat) as int;
    let half = pow2((logn - 1) as nat) as int;
    let r = s - stage * half;
    lemma_pow2_pos(stage);
    lemma_pow2_pos((logn - 1 - stage) as nat);
    vstd::arithmetic::power2::lemma_pow2_adds(stage, (logn - 1 - stage) as nat);
    assert(half == h * stride);
    assert((stage + 1) * half == stage * half + half) by (nonlinear_arith);
    assert(0 <= r < half);
    vstd::arithmetic::div_mod::lemma_fundamental_div_mod(r, h);
    vstd::arithmetic::div_mod::lemma_mod_bound(r, h);
    let block = r / h;
    let j = r % h;
    assert(h * block == block * h) by (nonlinear_arith);
    assert(0 <= block < stride) by (nonlinear_arith)
        requires
            r == block * h + j,
            0 <= j < h,
            0 <= r < h * stride,
    ;
    lemma_butterfly_at(logn, stage, block as nat, j as nat);
}

/// Every stage touches every cell exactly once: the cell `p` is touched
/// by the butterfly `butterfly_of(logn, stage, p)` of the stage and by no
/// other butterfly of it.
pub proof fn lemma_stage_touches_each_cell_once(logn: nat, stage: nat, p: int)
    requires
        stage < logn,
        0 <= p < pow2(logn),
    ensures
        in_stage(logn, stage, butterfly_of(logn, stage, p)),
        touches(logn, butterfly_of(logn, stage, p), p),
        forall|s: int|
            in_stage(logn, stage, s) && #[trigger] touches(logn, s, p) ==> s == butterfly_of(
                logn,
                stage,
                p,
            ),
{
    let h = pow2(stage) as int;
    let stride = pow2((logn - 1 - stage) as nat) as int;
    let half = pow2((logn - 1) as nat) as int;
    lemma_pow2_pos(stage);
    lemma_pow2_pos((logn - 1 - stage) as nat);
    lemma_pow2_step((logn - 1) as nat);
    vstd::arithmetic::power2::lemma_pow2_adds(stage, (logn - 1 - stage) as nat);
    assert(half == h * stride);
    // The cell's block and its place in the block.
    let block = p / (2 * h);
    let q = p % (2 * h);
    let j = q % h;
    vstd::arithmetic::div_mod::lemma_fundamental_div_mod(p, 2 * h);
    vstd::arithmetic::div_mod::lemma_mod_bound(p, 2 * h);
    assert((2 * h) * block == block * (2 * h)) by (nonlinear_arith);
    assert(0 <= block < stride) by (nonlinear_arith)
        requires
            p == block * (2 * h) + q,
            0 <= q < 2 * h,
            0 <= p < 2 * (h * stride),
    ;
    assert(j == if q < h {
        q
    } else {
        q - h
    }) by {
        if q < h {
            lemma_small_mod(q as nat, h as nat);
        } else {
            vstd::arithmetic::div_mod::lemma_fundamental_div_mod_converse(q, h, 1, q - h);
        }
    }
    lemma_butterfly_at(logn, stage, block as nat, j as nat);
    let own = butterfly_of(logn, stage, p);
    assert(own == stage * half + block * h + j);
    assert(block * h + j < half) by (nonlinear_arith)
        requires
            0 <= block < stride,
            0 <= j < h,
            half == h * stride,
    ;
    assert((stage + 1) * half == stage * half + half) by (nonlinear_arith);
    assert(0 <= block * h) by (nonlinear_arith)
        requires
            0 <= block,
            0 <= h,
    ;
    assert forall|s: int| in_stage(logn, stage, s) && #[trigger] touches(logn, s, p) implies s
        == own by {
        lemma_in_stage(logn, stage, s);
        let r = s - stage * half;
        let b2 = r / h;
        let j2 = r % h;
        let lo = b2 * (2 * h) + j2;
        // Either end of the butterfly lies in the block `b2`.
        let q2 = if butterfly_at(logn, s).0 == p {
            j2
        } else {
            j2 + h
        };
        assert(p == b2 * (2 * h) + q2);
        vstd::arithmetic::div_mod::lemma_fundamental_div_mod_converse(p, 2 * h, b2, q2);
        assert(b2 == block && q2 == q);
        if q < h {
            assert(j2 == j);
        } else {
            assert(j2 == j);
        }
    }
}

/// A plan for transforms of one power-of-two size.
#[derive(Clone, Debug)]
pub struct FFT {
    n: usize,
    logn: usize,
    butterfly: Vec<usize>,
}

impl FFT {
    /// The size of the transforms this plan serves.
    pub closed spec fn size(&self) -> nat {
        self.n as nat
    }

    /// The binary logarithm of [`FFT::size`].
    pub closed spec fn log_size(&self) -> nat {
        self.logn as nat
    }

    /// The bit-reversal table.
    pub closed spec fn table(&self) -> Seq<usize> {
        self.butterfly@
    }

    /// The plan is for the size `2^log_size`, and entry `i` of its table is
    /// `i` with its `log_size` binary digits reversed.
    pub open spec fn wf(&self) -> bool {
        &&& self.size() == pow2(self.log_size())
        &&& self.table().len() == self.size()
        &&& forall|i: int|
            0 <= i < self.size() ==> (#[trigger] self.table()[i]) as nat == bit_reverse(
                i as nat,
                self.log_size(),
            )
    }

    /// The smallest power of two that is at least `n`: the size to which a
    /// dimension of `n` cells is padded.
    pub fn fft_size_of(n: usize) -> (r: usize)
        requires
            fft_size(n as nat) <= usize::MAX,
        ensures
            r == fft_size(n as nat),
    {
        let mut p: usize = 1;
        let ghost mut e: nat = 0;
        proof {
            lemma_pow2_step(0);
            lemma_fft_size(n as nat);
        }
        while p < n
            invariant
                p == pow2(e),
                p == 1 || p < 2 * n,
                fft_size(n as nat) <= usize::MAX,
                is_power_of_two(fft_size(n as nat)),
                n <= fft_size(n as nat),
            decreases fft_size(n as nat) - p,
        {
            proof {
                let b = choose|b: nat| fft_size(n as nat) == pow2(b);
                lemma_pow2_gap(e, b);
                lemma_pow2_step(e);
                e = e + 1;
            }
            p = p * 2;
        }
        proof {
            assert(is_power_of_two(p as nat));
            lemma_fft_size_least(n as nat, p as nat);
            if fft_size(n as nat) < p {
                let b = choose|b: nat| fft_size(n as nat) == pow2(b);
                lemma_pow2_gap(b, e);
            }
        }
        p
    }

    /// The exponent of a well-formed plan is the logarithm of its size.
    pub proof fn lemma_log_size(&self)
        requires
            self.wf(),
        ensures
            is_power_of_two(self.size()),
            self.log_size() == fft_log(self.size()),
    {
        lemma_fft_size_fixed(self.size());
        lemma_fft_log(self.size());
        lemma_pow2_injective(self.log_size(), fft_log(self.size()));
    }

    /// Entry `i` of the table is a position of the transform, and the
    /// table is its own inverse.
    pub proof fn lemma_table(&self, i: int)
        requires
            self.wf(),
            0 <= i < self.size(),
        ensures
            0 <= self.table()[i] < self.size(),
            self.table()[self.table()[i] as int] == i,
    {
        lemma_bit_reverse_bound(i as nat, self.log_size());
        lemma_bit_reverse_involution(i as nat, self.log_size());
    }

    /// The size of the transforms this plan serves.
    pub fn len(&self) -> (r: usize)
        ensures
            r == self.size(),
    {
        self.n
    }

    /// Entry `i` of the bit-reversal table.
    pub fn reversed(&self, i: usize) -> (r: usize)
        requires
            self.wf(),
            i < self.size(),
        ensures
            r == bit_reverse(i as nat, self.log_size()),
            r < self.size(),
    {
        proof {
            self.lemma_table(i as int);
        }
        self.butterfly[i]
    }

    /// Transforms `mat` in place. The cells are first put in bit-reversed
    /// order. Then come the butterflies, stage by stage with the span
    /// doubling from 1: `op` gets the two cells, the index of the root of
    /// unity, the size of the transform and `inverse`, and returns what
    /// takes the cells' places. At last `scale` is applied to every cell,
    /// with the size of the transform.
    pub fn fft<T: Copy, B: Fn(T, T, usize, usize, bool) -> (T, T), S: Fn(T, usize) -> T>(
        &self,
        mat: &mut Vec<T>,
        inverse: bool,
        op: &B,
        scale: &S,
    )
        requires
            self.wf(),
            old(mat)@.len() == self.size(),
            forall|u: T, v: T, k: usize, m: usize|
                m == self.size() && 2 * k < m ==> #[trigger] call_requires(
                    *op,
                    (u, v, k, m, inverse),
                ),
            forall|u: T, m: usize| m == self.size() ==> #[trigger] call_requires(*scale, (u, m)),
        ensures
            transformed(self.log_size(), op, scale, inverse, old(mat)@, final(mat)@),
    {
        let n = self.n;
        let logn = self.logn;
        let ghost bits = self.log_size();
        let ghost input = mat@;
        let ghost table = self.table();
        // Bit-reversed order, by swapping each pair once.
        let mut i: usize = 0;
        while i < n
            invariant
                i <= n,
                self.wf(),
                n == self.size(),
                table == self.table(),
                input.len() == n,
                mat@.len() == n,
                forall|p: int|
                    0 <= p < n ==> #[trigger] mat@[p] == (if p < i || table[p] < i {
                        input[table[p] as int]
                    } else {
                        input[p]
                    }),
            decreases n - i,
        {
            let t = self.butterfly[i];
            proof {
                self.lemma_table(i as int);
                self.lemma_table(t as int);
            }
            if i < t {
                let a = mat[i];
                let b = mat[t];
                let ghost before = mat@;
                mat.set(i, b);
                mat.set(t, a);
                proof {
                    assert forall|p: int| 0 <= p < n implies #[trigger] mat@[p] == (if p < i + 1
                        || table[p] < i + 1 {
                        input[table[p] as int]
                    } else {
                        input[p]
                    }) by {
                        self.lemma_table(p);
                        if p != i && p != t {
                            assert(mat@[p] == before[p]);
                        }
                    }
                }
            } else {
                proof {
                    assert forall|p: int| 0 <= p < n implies #[trigger] mat@[p] == (if p < i + 1
                        || table[p] < i + 1 {
                        input[table[p] as int]
                    } else {
                        input[p]
                    }) by {
                        self.lemma_table(p);
                    }
                }
            }
            i += 1;
        }
        let ghost mut trace: Seq<Seq<T>> = seq![mat@];
        proof {
            assert(mat@ =~= bit_reversed(bits, input)) by {
                assert forall|p: int| 0 <= p < n implies mat@[p] == input[table[p] as int] by {
                    self.lemma_table(p);
                }
            }
            lemma_pow2_step(0);
            if bits > 0 {
                lemma_pow2_step((bits - 1) as nat);
            }
        }
        let ghost half = pow2((bits - 1) as nat);
        let mut h: usize = 1;
        let mut stride: usize = n / 2;
        let mut stage: usize = 0;
        while stage < logn
            invariant
                stage <= logn,
                self.wf(),
                n == self.size(),
                logn == bits,
                bits == self.log_size(),
                half == pow2((bits - 1) as nat),
                h == pow2(stage as nat),
                stage < logn ==> stride == pow2((logn - 1 - stage) as nat),
                mat@.len() == n,
                trace.len() == stage * half + 1,
                trace[0] == bit_reversed(bits, input),
                trace.last() == mat@,
                forall|s: int|
                    0 <= s < trace.len() - 1 ==> step_ok(
                        op,
                        bits,
                        inverse,
                        s,
                        trace[s],
                        #[trigger] trace[s + 1],
                    ),
                forall|u: T, v: T, k: usize, m: usize|
                m == self.size() && 2 * k < m ==> #[trigger] call_requires(
                    *op,
                    (u, v, k, m, inverse),
                ),
            decreases logn - stage,
        {
            let mut i: usize = 0;
            let ghost mut block: nat = 0;
            proof {
                lemma_pow2_pos(stage as nat);
                lemma_pow2_pos((logn - 1 - stage) as nat);
                lemma_butterfly_at(bits, stage as nat, 0, 0);
                assert(0 * h == 0);
            }
            while i < n
                invariant
                    stage < logn,
                    self.wf(),
                    n == self.size(),
                    logn == bits,
                    bits == self.log_size(),
                    half == pow2((bits - 1) as nat),
                    h == pow2(stage as nat),
                    stride == pow2((logn - 1 - stage) as nat),
                    n == 2 * half,
                    half == h * stride,
                    h > 0,
                    block <= stride,
                    i == block * (2 * h),
                    mat@.len() == n,
                    trace.len() == stage * half + block * h + 1,
                    trace[0] == bit_reversed(bits, input),
                    trace.last() == mat@,
                    forall|s: int|
                        0 <= s < trace.len() - 1 ==> step_ok(
                            op,
                            bits,
                            inverse,
                            s,
                            trace[s],
                            #[trigger] trace[s + 1],
                        ),
                    forall|u: T, v: T, k: usize, m: usize|
                m == self.size() && 2 * k < m ==> #[trigger] call_requires(
                    *op,
                    (u, v, k, m, inverse),
                ),
                decreases n - i,
            {
                proof {
                    assert(block < stride) by (nonlinear_arith)
                        requires
                            block <= stride,
                            block * (2 * h) < 2 * (h * stride),
                            h > 0,
                    ;
                }
                let mut j: usize = 0;
                while j < h
                    invariant
                        j <= h,
                        stage < logn,
                        self.wf(),
                        n == self.size(),
                        logn == bits,
                        bits == self.log_size(),
                        half == pow2((bits - 1) as nat),
                        h == pow2(stage as nat),
                        stride == pow2((logn - 1 - stage) as nat),
                        n == 2 * half,
                        half == h * stride,
                        h > 0,
                        block < stride,
                        i == block * (2 * h),
                        mat@.len() == n,
                        trace.len() == stage * half + block * h + j + 1,
                        trace[0] == bit_reversed(bits, input),
                        trace.last() == mat@,
                        forall|s: int|
                            0 <= s < trace.len() - 1 ==> step_ok(
                                op,
                                bits,
                                inverse,
                                s,
                                trace[s],
                                #[trigger] trace[s + 1],
                            ),
                        forall|u: T, v: T, k: usize, m: usize|
                m == self.size() && 2 * k < m ==> #[trigger] call_requires(
                    *op,
                    (u, v, k, m, inverse),
                ),
                    decreases h - j,
                {
                    proof {
                        lemma_butterfly_at(bits, stage as nat, block, j as nat);
                    }
                    let twiddle = j * stride;
                    let lo = i + j;
                    let hi = lo + h;
                    let u = mat[lo];
                    let v = mat[hi];
                    let (a, b) = op(u, v, twiddle, n, inverse);
                    let ghost before = mat@;
                    mat.set(lo, a);
                    mat.set(hi, b);
                    proof {
                        let s = trace.len() - 1;
                        let old_trace = trace;
                        trace = trace.push(mat@);
                        assert(step_ok(op, bits, inverse, s, before, mat@));
                        assert forall|q: int| 0 <= q < trace.len() - 1 implies step_ok(
                            op,
                            bits,
                            inverse,
                            q,
                            trace[q],
                            #[trigger] trace[q + 1],
                        ) by {
                            if q < s {
                                assert(trace[q] == old_trace[q]);
                                assert(trace[q + 1] == old_trace[q + 1]);
                            }
                        }
                    }
                    j += 1;
                }
                proof {
                    assert((block + 1) * (2 * h) <= 2 * (h * stride)) by (nonlinear_arith)
                        requires
                            block < stride,
                            h > 0,
                    ;
                    assert((block + 1) * (2 * h) == block * (2 * h) + 2 * h) by (nonlinear_arith);
                    assert((block + 1) * h == block * h + h) by (nonlinear_arith);
                    block = block + 1;
                }
                i += 2 * h;
            }
            proof {
                assert(block == stride) by (nonlinear_arith)
                    requires
                        block <= stride,
                        block * (2 * h) >= 2 * (h * stride),
                        h > 0,
                ;
                assert(stage * half + block * h == (stage + 1) * half) by (nonlinear_arith)
                    requires
                        block == stride,
                        half == h * stride,
                ;
                lemma_pow2_step(stage as nat);
                if stage + 1 < logn {
                    lemma_pow2_step((logn - 2 - stage) as nat);
                }
                assert(2 * h <= 2 * (h * stride)) by (nonlinear_arith)
                    requires
                        h > 0,
                        stride >= 1,
                ;
            }
            h = h * 2;
            stride = stride / 2;
            stage += 1;
        }
        let ghost mid = mat@;
        let mut p: usize = 0;
        while p < n
            invariant
                p <= n,
                n == self.size(),
                mid.len() == n,
                mat@.len() == n,
                forall|q: int| 0 <= q < p ==> call_ensures(*scale, (mid[q], n), #[trigger] mat@[q]),
                forall|q: int| p <= q < n ==> mat@[q] == mid[q],
                forall|u: T, m: usize| m == self.size() ==> #[trigger] call_requires(*scale, (u, m)),
            decreases n - p,
        {
            let v = scale(mat[p], n);
            mat.set(p, v);
            p += 1;
        }
        proof {
            assert(is_trace(op, bits, inverse, trace));
        }
    }

    /// Builds the plan for transforms of size `n`, a power of two.
    pub fn init(n: usize) -> (r: Self)
        requires
            is_power_of_two(n as nat),
        ensures
            r.wf(),
            r.size() == n,
            r.log_size() == fft_log(n as nat),
    {
        let ghost bits = choose|e: nat| n as nat == pow2(e);
        // The binary logarithm, by doubling.
        let mut logn: usize = 0;
        let mut p: usize = 1;
        proof {
            lemma_pow2_step(0);
            lemma_pow2_pos(bits);
            lemma_width_fits(bits, n);
        }
        while p < n
            invariant
                p == pow2(logn as nat),
                p <= n,
                n == pow2(bits),
                logn <= bits,
                bits < usize::BITS,
            decreases n - p,
        {
            proof {
                lemma_pow2_gap(logn as nat, bits);
                lemma_pow2_step(logn as nat);
            }
            p = p * 2;
            logn = logn + 1;
        }
        proof {
            if logn < bits {
                vstd::arithmetic::power2::lemma_pow2_strictly_increases(logn as nat, bits);
            }
            assert(logn == bits);
            lemma_fft_size_fixed(n as nat);
            lemma_fft_log(n as nat);
            lemma_pow2_injective(bits, fft_log(n as nat));
        }
        let mut butterfly: Vec<usize> = Vec::new();
        let mut i: usize = 0;
        while i < n
            invariant
                i <= n,
                butterfly@.len() == i,
                forall|a: int| 0 <= a < i ==> butterfly@[a] == 0,
            decreases n - i,
        {
            butterfly.push(0);
            i += 1;
        }
        proof {
            assert(bit_reverse(0, bits) == 0) by {
                lemma_bit_reverse_zero(bits);
            }
        }
        let mut j: usize = 0;
        let mut i: usize = 1;
        while i < n
            invariant
                1 <= i,
                n == pow2(bits),
                logn == bits,
                butterfly@.len() == n,
                i <= n ==> j == bit_reverse((i - 1) as nat, bits),
                forall|a: int|
                    0 <= a < i && a < n ==> (#[trigger] butterfly@[a]) as nat == bit_reverse(
                        a as nat,
                        bits,
                    ),
            decreases n - i,
        {
            let ghost j0 = j;
            let ghost mut width: nat = bits;
            proof {
                // At least one digit: 1 <= i < n.
                if bits == 0 {
                    lemma_pow2_step(0);
                }
                lemma_pow2_step((bits - 1) as nat);
                lemma_bit_reverse_bound((i - 1) as nat, bits);
                lemma_small_mod(j0 as nat, pow2(bits));
                if j0 == pow2(bits) - 1 {
                    lemma_bit_reverse_full((i - 1) as nat, bits);
                }
                lemma_width_fits(bits, n);
            }
            let mut k: usize = n >> 1;
            proof {
                assert(n >> 1 == n / 2) by (bit_vector);
            }
            while j & k != 0
                invariant
                    1 <= width <= bits,
                    width <= usize::BITS,
                    n == pow2(bits),
                    j == j0,
                    j0 < n,
                    k == pow2((width - 1) as nat),
                    reverse_succ(j0 as nat, bits) == reverse_succ(
                        j0 as nat % pow2(width),
                        width,
                    ),
                    j0 as nat % pow2(width) != pow2(width) - 1,
                decreases width,
            {
                proof {
                    let m = (width - 1) as nat;
                    lemma_mask_steps(j, k, m);
                    lemma_pow2_step(m);
                    lemma_breakdown(j0 as int, k as int, 2);
                    assert(j0 as int % (k * 2) == k * ((j0 as int / k as int) % 2) + j0 as int
                        % k as int);
                    assert(j0 as nat % pow2(width) == k + j0 as nat % pow2(m));
                    if m == 0 {
                        lemma_pow2_step(0);
                        assert(false);
                    }
                    lemma_pow2_step((m - 1) as nat);
                    width = m;
                }
                k >>= 1;
            }
            proof {
                let m = (width - 1) as nat;
                lemma_mask_steps(j, k, m);
                lemma_pow2_step(m);
                lemma_breakdown(j0 as int, k as int, 2);
                assert(j0 as int % (k * 2) == k * ((j0 as int / k as int) % 2) + j0 as int % k as int);
                assert((j0 as int / k as int) % 2 == 0);
                assert(k * ((j0 as int / k as int) % 2) == 0) by (nonlinear_arith)
                    requires
                        (j0 as int / k as int) % 2 == 0,
                ;
                assert(j0 as nat % pow2(width) == j0 as nat % pow2(m));
                lemma_pow2_strictly_increases_le(width, bits);
                assert(j0 as int % k as int + k < 2 * k <= n);
                lemma_bit_reverse_succ((i - 1) as nat, bits);
            }
            j = j & (k - 1) | k;
            butterfly.set(i, j);
            i += 1;
        }
        FFT { n, logn, butterfly }
    }
}

/// A power of two that fits the machine word has an exponent below the
/// word's width.
proof fn lemma_width_fits(bits: nat, n: usize)
    requires
        n == pow2(bits),
    ensures
        bits < usize::BITS,
{
    if bits >= usize::BITS {
        vstd::arithmetic::power2::lemma2_to64();
        vstd::arithmetic::power2::lemma2_to64_rest();
        if bits > 64 {
            vstd::arithmetic::power2::lemma_pow2_strictly_increases(64, bits);
        }
        if bits > 32 {
            vstd::arithmetic::power2::lemma_pow2_strictly_increases(32, bits);
        }
        assert(false);
    }
}

/// Powers of two grow with the exponent.
proof fn lemma_pow2_strictly_increases_le(a: nat, b: nat)
    requires
        a <= b,
    ensures
        pow2(a) <= pow2(b),
{
    if a < b {
        vstd::arithmetic::power2::lemma_pow2_strictly_increases(a, b);
    }
}

} // verus!
