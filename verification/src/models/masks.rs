//! Attention masks: one value for each query row and key column, row by row.
use vstd::arithmetic::div_mod::*;
use vstd::prelude::*;

verus! {

/// The two values of an additive mask.
#[derive(Clone, Copy)]
pub struct MaskValues<F> {
    pub visible: F,
    pub masked: F,
}

/// The value for a key that a query sees or not.
pub open spec fn level<F>(m: MaskValues<F>, seen: bool) -> F {
    if seen {
        m.visible
    } else {
        m.masked
    }
}

/// The `n` by `n` mask in which query `q` sees key `k` where `sees(q, k)`.
pub open spec fn mask_of<F>(m: MaskValues<F>, n: int, sees: spec_fn(int, int) -> bool) -> Seq<F> {
    Seq::new((n * n) as nat, |i: int| level(m, sees(i / n, i % n)))
}

/// Row and column of a flat index.
proof fn lemma_row_column(n: int, q: int, k: int)
    requires
        0 <= q < n,
        0 <= k < n,
    ensures
        (q * n + k) / n == q,
        (q * n + k) % n == k,
        0 <= q * n + k < n * n,
{
    lemma_fundamental_div_mod_converse(q * n + k, n, q, k);
    assert(q * n + k < n * n) by (nonlinear_arith)
        requires
            0 <= q < n,
            0 <= k < n,
    ;
    assert(0 <= q * n) by (nonlinear_arith)
        requires
            0 <= q,
            0 < n,
    ;
}

/// Query `q` of a causal mask sees the keys up to itself.
pub open spec fn causal(q: int, k: int) -> bool {
    k <= q
}

/// The causal mask over `n` tokens.
pub open spec fn causal_values<F>(m: MaskValues<F>, n: int) -> Seq<F> {
    mask_of(m, n, |q: int, k: int| causal(q, k))
}

/// The causal mask over `n` tokens: a lower triangle of visible keys.
pub fn causal_mask<F: Copy>(n: usize, m: MaskValues<F>) -> (r: Vec<F>)
    requires
        n * n <= usize::MAX,
    ensures
        r@ == causal_values(m, n as int),
{
    let mut buf: Vec<F> = Vec::new();
    let mut i: usize = 0;
    while i < n
        invariant
            i <= n,
            n * n <= usize::MAX,
            buf@ == causal_values(m, n as int).take(i * n),
        decreases n - i,
    {
        let mut j: usize = 0;
        proof {
            assert(i * n + n == (i + 1) * n) by (nonlinear_arith);
            assert((i + 1) * n <= n * n) by (nonlinear_arith)
                requires
                    i < n,
            ;
            assert(0 <= i * n) by (nonlinear_arith);
        }
        while j < n
            invariant
                j <= n,
                i < n,
                i * n + n <= n * n,
                0 <= i * n,
                buf@ == causal_values(m, n as int).take(i * n + j),
            decreases n - j,
        {
            proof {
                lemma_row_column(n as int, i as int, j as int);
            }
            buf.push(
                if j <= i {
                    m.visible
                } else {
                    m.masked
                },
            );
            assert(buf@ =~= causal_values(m, n as int).take(i * n + j + 1));
            j += 1;
        }
        i += 1;
    }
    assert(buf@ =~= causal_values(m, n as int));
    buf
}

/// Sum of the first `s` lengths.
pub open spec fn start_of(lens: Seq<u32>, s: int) -> int
    decreases s,
{
    if s <= 0 {
        0
    } else {
        start_of(lens, s - 1) + lens[s - 1]
    }
}

/// Sum of all lengths.
pub open spec fn total(lens: Seq<u32>) -> int {
    start_of(lens, lens.len() as int)
}

/// Starts do not decrease.
pub proof fn lemma_starts(lens: Seq<u32>, a: int, b: int)
    requires
        0 <= a <= b <= lens.len(),
    ensures
        start_of(lens, a) <= start_of(lens, b),
        start_of(lens, a) >= 0,
    decreases b,
{
    if b > a {
        lemma_starts(lens, a, b - 1);
    } else if a > 0 {
        lemma_starts(lens, a - 1, b - 1);
    }
}

/// Text `s` holds both the query and the key, and the key is not later.
pub open spec fn within(lens: Seq<u32>, s: int, q: int, k: int) -> bool {
    &&& 0 <= s < lens.len()
    &&& start_of(lens, s) <= k
    &&& k <= q
    &&& q < start_of(lens, s + 1)
}

/// Query and key belong to one text, and the key is not later.
pub open spec fn same_text(lens: Seq<u32>, q: int, k: int) -> bool {
    exists|s: int| within(lens, s, q, k)
}

/// The mask of packed texts that each see only themselves.
pub open spec fn packed_values<F>(m: MaskValues<F>, lens: Seq<u32>) -> Seq<F> {
    mask_of(m, total(lens), |q: int, k: int| same_text(lens, q, k))
}

/// The sum of some lengths.
pub fn sum_lens(lens: &[u32]) -> (r: u64)
    requires
        lens@.len() <= u32::MAX,
    ensures
        r == total(lens@),
{
    let mut sum: u64 = 0;
    let mut s: usize = 0;
    while s < lens.len()
        invariant
            s <= lens@.len(),
            lens@.len() <= u32::MAX,
            sum == start_of(lens@, s as int),
            sum <= s * u32::MAX,
        decreases lens@.len() - s,
    {
        assert((s + 1) * u32::MAX == s * u32::MAX + u32::MAX) by (nonlinear_arith);
        assert(s * u32::MAX <= u32::MAX * u32::MAX) by (nonlinear_arith)
            requires
                s <= u32::MAX,
        ;
        sum = sum + lens[s] as u64;
        s += 1;
    }
    sum
}

/// The block-diagonal causal mask of packed texts: query row `q` sees key `k`
/// where both belong to one text and `k` is not later.
pub fn block_diagonal_causal_mask<F: Copy>(lens: &[u32], m: MaskValues<F>) -> (r: Vec<F>)
    requires
        lens@.len() <= u32::MAX,
        total(lens@) * total(lens@) <= usize::MAX,
    ensures
        r@ == packed_values(m, lens@),
{
    let n64: u64 = sum_lens(lens);
    proof {
        lemma_starts(lens@, 0, lens@.len() as int);
        assert(n64 <= n64 * n64) by (nonlinear_arith);
    }
    let n: usize = n64 as usize;
    let mut buf: Vec<F> = Vec::new();
    let mut s: usize = 0;
    let mut start: usize = 0;
    assert(0 * n == 0) by (nonlinear_arith);
    assert(packed_values(m, lens@).take(0) =~= buf@);
    while s < lens.len()
        invariant
            s <= lens@.len(),
            n == total(lens@),
            n * n <= usize::MAX,
            start == start_of(lens@, s as int),
            start <= n,
            buf@ == packed_values(m, lens@).take(start * n),
        decreases lens@.len() - s,
    {
        proof {
            lemma_starts(lens@, s as int + 1, lens@.len() as int);
        }
        let end: usize = start + lens[s] as usize;
        let mut i: usize = start;
        while i < end
            invariant
                s < lens@.len(),
                start <= i <= end,
                end <= n,
                n == total(lens@),
                n * n <= usize::MAX,
                start == start_of(lens@, s as int),
                end == start_of(lens@, s + 1),
                buf@ == packed_values(m, lens@).take(i * n),
            decreases end - i,
        {
            let mut j: usize = 0;
            proof {
                assert(i * n + n == (i + 1) * n) by (nonlinear_arith);
                assert((i + 1) * n <= n * n) by (nonlinear_arith)
                    requires
                        i < n,
                ;
                assert(0 <= i * n) by (nonlinear_arith);
            }
            while j < n
                invariant
                    s < lens@.len(),
                    j <= n,
                    start <= i < end,
                    end <= n,
                    n == total(lens@),
                    i * n + n <= n * n,
                    0 <= i * n,
                    start == start_of(lens@, s as int),
                    end == start_of(lens@, s + 1),
                    buf@ == packed_values(m, lens@).take(i * n + j),
                decreases n - j,
            {
                let seen: bool = start <= j && j <= i;
                proof {
                    lemma_row_column(n as int, i as int, j as int);
                    if seen {
                        assert(within(lens@, s as int, i as int, j as int));
                    } else if same_text(lens@, i as int, j as int) {
                        let t = choose|t: int| within(lens@, t, i as int, j as int);
                        if t < s {
                            lemma_starts(lens@, t + 1, s as int);
                        } else if t > s {
                            lemma_starts(lens@, s + 1, t);
                        }
                    }
                }
                buf.push(
                    if seen {
                        m.visible
                    } else {
                        m.masked
                    },
                );
                assert(buf@ =~= packed_values(m, lens@).take(i * n + j + 1));
                j += 1;
            }
            i += 1;
        }
        start = end;
        s += 1;
    }
    assert(buf@ =~= packed_values(m, lens@));
    buf
}

/// A batch of a single text has exactly the causal mask.
pub proof fn law_one_text_is_causal<F>(m: MaskValues<F>, len: u32)
    ensures
        packed_values(m, seq![len]) == causal_values(m, len as int),
{
    let lens = seq![len];
    reveal_with_fuel(start_of, 3);
    assert(total(lens) == len);
    assert(packed_values(m, lens).len() == causal_values(m, len as int).len());
    assert forall|i: int| 0 <= i < len * len implies packed_values(m, lens)[i] == causal_values(
        m,
        len as int,
    )[i] by {
        let q = i / (len as int);
        let k = i % (len as int);
        assert(0 <= k && 0 <= q < len) by {
            assert(len > 0) by (nonlinear_arith)
                requires
                    0 <= i < len * len,
            ;
            lemma_fundamental_div_mod(i, len as int);
            assert(q < len) by (nonlinear_arith)
                requires
                    i == len * q + k,
                    0 <= k,
                    i < len * len,
                    len > 0,
            ;
            assert(q >= 0) by (nonlinear_arith)
                requires
                    i == len * q + k,
                    k < len,
                    0 <= i,
                    len > 0,
            ;
        }
        if k <= q {
            assert(within(lens, 0, q, k));
        } else if same_text(lens, q, k) {
            let s = choose|s: int| within(lens, s, q, k);
            assert(false);
        }
    }
    assert(packed_values(m, lens) =~= causal_values(m, len as int));
}

/// In a packed batch a query never sees a key of another text, nor a later one.
pub proof fn law_texts_do_not_see_each_other(lens: Seq<u32>, s: int, t: int, q: int, k: int)
    requires
        0 <= s < lens.len(),
        0 <= t < lens.len(),
        s != t,
        start_of(lens, s) <= q < start_of(lens, s + 1),
        start_of(lens, t) <= k < start_of(lens, t + 1),
    ensures
        !same_text(lens, q, k),
{
    if same_text(lens, q, k) {
        let u = choose|u: int| within(lens, u, q, k);
        if u < s {
            lemma_starts(lens, u + 1, s);
        } else if u > s {
            lemma_starts(lens, s + 1, u);
        }
        if u < t {
            lemma_starts(lens, u + 1, t);
        } else if u > t {
            lemma_starts(lens, t + 1, u);
        }
    }
}

/// What a query sees in a sequence of `p` prompt tokens followed by a canvas:
/// a prompt query sees the prompt up to itself, and on sliding layers only the
/// last `window` keys of that; a canvas query sees everything, and on sliding
/// layers only the last `window - 1` prompt tokens besides the canvas.
pub open spec fn region_sees(p: int, window: int, swa: bool, q: int, k: int) -> bool {
    if q < p {
        k <= q && (swa ==> q - k < window)
    } else {
        swa ==> (k >= p || k >= p - window + 1)
    }
}

/// The region mask of `n` tokens, the first `p` of them prompt.
pub open spec fn region_values<F>(m: MaskValues<F>, p: int, n: int, window: int, swa: bool) -> Seq<
    F,
> {
    mask_of(m, n, |q: int, k: int| region_sees(p, window, swa, q, k))
}

/// The region mask of `n` tokens, the first `big_p` of them prompt.
pub fn region_mask_values<F: Copy>(
    big_p: u32,
    n: u32,
    n_swa: u32,
    swa: bool,
    m: MaskValues<F>,
) -> (r: Vec<F>)
    requires
        n * n <= usize::MAX,
    ensures
        r@ == region_values(m, big_p as int, n as int, n_swa as int, swa),
{
    proof {
        assert(n <= n * n) by (nonlinear_arith);
    }
    let nn: usize = n as usize;
    let p: i64 = big_p as i64;
    let window: i64 = n_swa as i64;
    let canvas_prompt_lo: i64 = p - window + 1;
    let ghost all = region_values(m, big_p as int, n as int, n_swa as int, swa);
    let mut buf: Vec<F> = Vec::new();
    let mut q: usize = 0;
    while q < nn
        invariant
            q <= nn,
            nn == n,
            nn * nn <= usize::MAX,
            p == big_p,
            window == n_swa,
            canvas_prompt_lo == p - window + 1,
            all == region_values(m, big_p as int, n as int, n_swa as int, swa),
            buf@ == all.take(q * nn),
        decreases nn - q,
    {
        let mut k: usize = 0;
        let q_is_canvas: bool = q as i64 >= p;
        proof {
            assert(q * nn + nn == (q + 1) * nn) by (nonlinear_arith);
            assert((q + 1) * nn <= nn * nn) by (nonlinear_arith)
                requires
                    q < nn,
            ;
            assert(0 <= q * nn) by (nonlinear_arith);
        }
        while k < nn
            invariant
                k <= nn,
                q < nn,
                nn == n,
                q * nn + nn <= nn * nn,
                0 <= q * nn,
                p == big_p,
                window == n_swa,
                canvas_prompt_lo == p - window + 1,
                q_is_canvas == (q as i64 >= p),
                all == region_values(m, big_p as int, n as int, n_swa as int, swa),
                buf@ == all.take(q * nn + k),
            decreases nn - k,
        {
            let k_is_canvas: bool = k as i64 >= p;
            let mut allow: bool = if q_is_canvas {
                if swa {
                    k_is_canvas || (k as i64 >= canvas_prompt_lo)
                } else {
                    true
                }
            } else {
                !k_is_canvas && (k <= q)
            };
            if allow && swa && !q_is_canvas && (q as i64 - k as i64 >= window) {
                allow = false;
            }
            proof {
                lemma_row_column(nn as int, q as int, k as int);
                assert(allow == region_sees(
                    big_p as int,
                    n_swa as int,
                    swa,
                    q as int,
                    k as int,
                ));
            }
            buf.push(
                if allow {
                    m.visible
                } else {
                    m.masked
                },
            );
            assert(buf@ =~= all.take(q * nn + k + 1));
            k += 1;
        }
        q += 1;
    }
    assert(buf@ =~= all);
    buf
}

/// A prompt query never sees the canvas, and sees nothing later than itself.
pub proof fn law_prompt_is_causal(p: int, window: int, swa: bool, q: int, k: int)
    requires
        q < p,
        region_sees(p, window, swa, q, k),
    ensures
        k <= q,
        k < p,
{
}

/// A canvas query sees the whole canvas; on global layers it sees everything.
pub proof fn law_canvas_is_bidirectional(p: int, window: int, swa: bool, q: int, k: int)
    requires
        q >= p,
        k >= p || !swa,
    ensures
        region_sees(p, window, swa, q, k),
{
}

} // verus!
