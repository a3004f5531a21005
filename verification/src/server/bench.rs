//! The concurrent benchmark: synthetic prompts, run limits and the stability
//! check across batch sizes.
use vstd::prelude::*;

use crate::server::inference::SamplerConfig;
use crate::server::setup::{greater, max_u32};

verus! {

/// Synthetic workload shape.
#[derive(Clone, Copy, PartialEq, Eq, Structural)]
pub enum BenchWorkload {
    /// Each prompt diverges in its leading tokens.
    Distinct,
    /// All prompts share leading tokens, then diverge.
    Shared,
}

impl BenchWorkload {
    /// The name shown in reports.
    pub fn name(self) -> (r: &'static str)
        ensures
            self == BenchWorkload::Distinct ==> r@ == "distinct"@,
            self == BenchWorkload::Shared ==> r@ == "shared"@,
    {
        match self {
            BenchWorkload::Distinct => "distinct",
            BenchWorkload::Shared => "shared",
        }
    }
}

/// Parameters of a benchmark.
pub struct BenchPlan {
    pub batches: Vec<u32>,
    pub prompt_len: u32,
    pub gen_len: u32,
    pub shared_len: u32,
    pub warmup: u32,
    pub prompt: String,
    pub check: bool,
    /// Warm the prefix cache before each timed shared run.
    pub prewarm: bool,
}

/// How far the leading tokens of one sequence lie behind those of the last. It
/// shares no factor with the length of the passage.
pub open spec fn leading_step(n: int) -> int {
    if n % 7 == 0 {
        1
    } else {
        7
    }
}

/// `seq` divided `i` times by `n`.
pub open spec fn shifted(seq: nat, n: int, i: int) -> int
    decreases i,
{
    if i <= 0 {
        seq as int
    } else {
        shifted(seq, n, i - 1) / n
    }
}

/// How far leading token `i` of sequence `seq` lies behind its place in the
/// passage.
pub open spec fn leading_offset(seq: nat, n: int, i: int) -> int {
    seq * leading_step(n) + if i == 0 {
        0
    } else {
        shifted(seq, n, i)
    } + 1
}

/// Token `i` of the prompt of sequence `seq`: the base passage tiled, moved on
/// by a step of the sequence where the workload makes prompts diverge.
pub open spec fn synth_token(
    base: Seq<u32>,
    seq: nat,
    workload: BenchWorkload,
    shared_len: nat,
    i: int,
) -> u32 {
    let n = base.len() as int;
    match workload {
        BenchWorkload::Distinct => if i < 4 {
            base[(i + leading_offset(seq, n, i)) % n]
        } else {
            base[i % n]
        },
        BenchWorkload::Shared => if i >= shared_len {
            base[(i + seq * 13 + 1) % n]
        } else {
            base[i % n]
        },
    }
}

/// Build the prompt of sequence `seq` of a synthetic workload by tiling `base`
/// and perturbing it so that prompts share what the workload says.
pub fn bench_synth_prompt(
    base: &[u32],
    prompt_len: usize,
    seq: usize,
    workload: BenchWorkload,
    shared_len: usize,
) -> (v: Vec<u32>)
    requires
        base@.len() > 0,
        prompt_len + seq * 13 + 1 <= usize::MAX,
    ensures
        v@.len() == prompt_len,
        forall|i: int|
            0 <= i < prompt_len ==> #[trigger] v@[i] == synth_token(
                base@,
                seq as nat,
                workload,
                shared_len as nat,
                i,
            ),
{
    let mut v: Vec<u32> = Vec::new();
    let mut i: usize = 0;
    let n: usize = base.len();
    let step: usize = if n % 7 == 0 {
        1
    } else {
        7
    };
    let mut higher: usize = seq;
    while i < prompt_len
        invariant
            i <= prompt_len,
            base@.len() > 0,
            n == base@.len(),
            step == leading_step(n as int),
            step == 1 || step == 7,
            higher == shifted(seq as nat, n as int, i as int),
            higher <= seq,
            prompt_len + seq * 13 + 1 <= usize::MAX,
            v@.len() == i,
            forall|k: int|
                0 <= k < i ==> #[trigger] v@[k] == synth_token(
                    base@,
                    seq as nat,
                    workload,
                    shared_len as nat,
                    k,
                ),
        decreases prompt_len - i,
    {
        let at: usize = match workload {
            BenchWorkload::Distinct => if i == 0 {
                i + (seq * step + 1)
            } else if i < 4 {
                i + (seq * step + higher + 1)
            } else {
                i
            },
            BenchWorkload::Shared => if i >= shared_len {
                i + seq * 13 + 1
            } else {
                i
            },
        };
        v.push(base[at % base.len()]);
        proof {
            assert(higher as int / n as int <= higher) by (nonlinear_arith)
                requires
                    n >= 1,
                    higher >= 0,
            ;
        }
        higher = higher / n;
        i += 1;
    }
    v
}

/// Places in the passage that differ by a multiple of its length are one.
proof fn lemma_same_place(x: int, y: int, n: int) -> (m: int)
    requires
        n > 0,
        x % n == y % n,
    ensures
        x - y == n * m,
{
    let m = x / n - y / n;
    assert(x - y == n * m) by (nonlinear_arith)
        requires
            n > 0,
            x % n == y % n,
            m == x / n - y / n,
    ;
    m
}

/// A length that 7 does not divide shares no factor with it.
proof fn lemma_seven(n: int, m: int, d: int) -> (k: int)
    requires
        n > 0,
        n % 7 != 0,
        n * m == 7 * d,
    ensures
        d == n * k,
{
    let a = n / 7;
    let r = n % 7;
    let b = m / 7;
    let s = m % 7;
    assert(n * m == 7 * (7 * a * b + a * s + b * r) + r * s) by (nonlinear_arith)
        requires
            n == 7 * a + r,
            m == 7 * b + s,
    ;
    let q = 7 * a * b + a * s + b * r;
    assert(r * s == 7 * (d - q));
    assert(s == 0) by {
        assert(r == 1 || r == 2 || r == 3 || r == 4 || r == 5 || r == 6);
        if r == 1 {
            assert(r * s == s);
        } else if r == 2 {
            assert(r * s == 2 * s);
        } else if r == 3 {
            assert(r * s == 3 * s);
        } else if r == 4 {
            assert(r * s == 4 * s);
        } else if r == 5 {
            assert(r * s == 5 * s);
        } else {
            assert(r * s == 6 * s);
        }
    }
    assert(d == n * b) by (nonlinear_arith)
        requires
            n * m == 7 * d,
            m == 7 * b,
    ;
    b
}

/// The first of two steps that lie a multiple of the length apart are themselves
/// so.
proof fn lemma_steps_apart(a: int, b: int, n: int)
    requires
        n > 0,
        (a * leading_step(n)) % n == (b * leading_step(n)) % n,
    ensures
        a % n == b % n,
{
    let s = leading_step(n);
    let m = lemma_same_place(a * s, b * s, n);
    let k = if s == 7 {
        assert(a * 7 - b * 7 == 7 * (a - b));
        lemma_seven(n, m, a - b)
    } else {
        assert(a * 1 - b * 1 == a - b);
        m
    };
    assert(a == n * k + b);
    vstd::arithmetic::div_mod::lemma_mod_multiples_vanish(k, b, n);
}

/// The remainders of sums with one common term differ where those of the other
/// terms do.
proof fn lemma_shift_kept(c: int, x: int, y: int, n: int)
    requires
        n > 0,
        (c + x) % n == (c + y) % n,
    ensures
        x % n == y % n,
{
    let m = lemma_same_place(c + x, c + y, n);
    assert(x == n * m + y);
    vstd::arithmetic::div_mod::lemma_mod_multiples_vanish(m, y, n);
}

/// Two numbers with the same digits to a base, and nothing beyond them, are one.
proof fn lemma_digits_tell(a: nat, b: nat, n: int)
    requires
        n > 0,
        shifted(a, n, 4) == 0,
        shifted(b, n, 4) == 0,
        forall|i: int| 0 <= i < 4 ==> shifted(a, n, i) % n == #[trigger] shifted(b, n, i) % n,
    ensures
        a == b,
{
    reveal_with_fuel(shifted, 5);
    assert(shifted(b, n, 3) == shifted(a, n, 3)) by {
        lemma_digit(shifted(a, n, 3), n);
        lemma_digit(shifted(b, n, 3), n);
        assert(shifted(a, n, 3) % n == shifted(b, n, 3) % n);
    }
    assert(shifted(b, n, 2) == shifted(a, n, 2)) by {
        lemma_digit(shifted(a, n, 2), n);
        lemma_digit(shifted(b, n, 2), n);
        assert(shifted(a, n, 2) % n == shifted(b, n, 2) % n);
    }
    assert(shifted(b, n, 1) == shifted(a, n, 1)) by {
        lemma_digit(shifted(a, n, 1), n);
        lemma_digit(shifted(b, n, 1), n);
        assert(shifted(a, n, 1) % n == shifted(b, n, 1) % n);
    }
    lemma_digit(a as int, n);
    lemma_digit(b as int, n);
    assert(shifted(a, n, 0) % n == shifted(b, n, 0) % n);
}

/// A number is its quotient and its remainder.
proof fn lemma_digit(x: int, n: int)
    requires
        n > 0,
    ensures
        x == n * (x / n) + x % n,
{
    vstd::arithmetic::div_mod::lemma_fundamental_div_mod(x, n);
}

/// Two distinct prompts part among their first four tokens, where the passage
/// repeats no token and has enough of them to number the sequences with four
/// digits.
pub proof fn law_distinct_prompts_part_early(base: Seq<u32>, a: nat, b: nat, shared_len: nat)
    requires
        base.len() > 0,
        base.no_duplicates(),
        a != b,
        shifted(a, base.len() as int, 4) == 0,
        shifted(b, base.len() as int, 4) == 0,
    ensures
        exists|i: int|
            0 <= i < 4 && #[trigger] synth_token(base, a, BenchWorkload::Distinct, shared_len, i)
                != synth_token(base, b, BenchWorkload::Distinct, shared_len, i),
{
    let n = base.len() as int;
    if forall|i: int|
        0 <= i < 4 ==> #[trigger] synth_token(base, a, BenchWorkload::Distinct, shared_len, i)
            == synth_token(base, b, BenchWorkload::Distinct, shared_len, i) {
        let step = leading_step(n);
        assert forall|i: int| 0 <= i < 4 implies shifted(a, n, i) % n == #[trigger] shifted(b, n, i)
            % n by {
            let pa = (i + leading_offset(a, n, i)) % n;
            let pb = (i + leading_offset(b, n, i)) % n;
            assert(synth_token(base, a, BenchWorkload::Distinct, shared_len, i) == base[pa]);
            assert(synth_token(base, b, BenchWorkload::Distinct, shared_len, i) == base[pb]);
            assert(pa == pb);
            assert(synth_token(base, a, BenchWorkload::Distinct, shared_len, 0) == synth_token(
                base,
                b,
                BenchWorkload::Distinct,
                shared_len,
                0,
            ));
            assert((0 + leading_offset(a, n, 0)) % n == (0 + leading_offset(b, n, 0)) % n);
            lemma_shift_kept(1, a * step, b * step, n);
            if i == 0 {
                lemma_steps_apart(a as int, b as int, n);
            } else {
                let m = lemma_same_place(a * step, b * step, n);
                let x = shifted(a, n, i);
                let y = shifted(b, n, i);
                assert(i + leading_offset(a, n, i) == (i + b * step + 1 + x) + n * m);
                vstd::arithmetic::div_mod::lemma_mod_multiples_vanish(m, i + b * step + 1 + x, n);
                lemma_shift_kept(i + b * step + 1, x, y, n);
            }
        }
        lemma_digits_tell(a, b, n);
    }
}

/// All shared prompts start with the same tiled passage, which is what the
/// prefix cache is warmed with.
pub proof fn law_shared_prompts_share_their_prefix(
    base: Seq<u32>,
    a: nat,
    b: nat,
    shared_len: nat,
    i: int,
)
    requires
        base.len() > 0,
        0 <= i < shared_len,
    ensures
        synth_token(base, a, BenchWorkload::Shared, shared_len, i) == synth_token(
            base,
            b,
            BenchWorkload::Shared,
            shared_len,
            i,
        ),
        synth_token(base, a, BenchWorkload::Shared, shared_len, i) == base[i % base.len() as int],
{
}

/// The passage that warms the prefix cache: the first `shared_len` tokens of
/// every shared prompt. Empty where there is nothing to share.
pub fn bench_prewarm(base: &[u32], shared_len: usize) -> (v: Vec<u32>)
    ensures
        base@.len() == 0 ==> v@.len() == 0,
        base@.len() > 0 ==> v@.len() == shared_len && forall|i: int|
            0 <= i < shared_len ==> #[trigger] v@[i] == base@[i % base@.len() as int],
{
    let mut v: Vec<u32> = Vec::new();
    if base.len() == 0 {
        return v;
    }
    let mut i: usize = 0;
    while i < shared_len
        invariant
            i <= shared_len,
            base@.len() > 0,
            v@.len() == i,
            forall|k: int| 0 <= k < i ==> #[trigger] v@[k] == base@[k % base@.len() as int],
        decreases shared_len - i,
    {
        v.push(base[i % base.len()]);
        i += 1;
    }
    v
}

/// Greedy sampling: no temperature, no truncation, no penalties.
pub fn bench_greedy_cfg<F: Copy>(zero: F, one: F) -> (c: SamplerConfig<F>)
    ensures
        c.temperature == zero,
        c.top_k == 0,
        c.top_p == one,
        c.min_p == zero,
        c.presence_penalty == zero,
        c.frequency_penalty == zero,
        c.repeat_penalty == one,
        c.penalty_last_n == 0,
        c.seed == 0,
        c.logit_bias@.len() == 0,
{
    SamplerConfig {
        temperature: zero,
        top_k: 0,
        top_p: one,
        min_p: zero,
        presence_penalty: zero,
        frequency_penalty: zero,
        repeat_penalty: one,
        penalty_last_n: 0,
        seed: 0,
        logit_bias: Vec::new(),
    }
}

/// `n` is the greatest of `batches`, at least 1.
pub open spec fn is_peak(batches: Seq<u32>, n: u32) -> bool {
    &&& n >= 1
    &&& forall|i: int| 0 <= i < batches.len() ==> #[trigger] batches[i] <= n
    &&& n == 1 || batches.contains(n)
}

/// The number of slots that a benchmark over `batches` needs.
pub fn bench_slots(batches: &[u32]) -> (n: u32)
    ensures
        is_peak(batches@, n),
{
    let mut n: u32 = 1;
    let mut i: usize = 0;
    while i < batches.len()
        invariant
            i <= batches@.len(),
            n >= 1,
            forall|k: int| 0 <= k < i ==> #[trigger] batches@[k] <= n,
            n == 1 || batches@.contains(n),
        decreases batches@.len() - i,
    {
        if batches[i] > n {
            n = batches[i];
            assert(batches@[i as int] == n);
        }
        i += 1;
    }
    n
}

/// Lengths of one run, and the token bound that keeps a sequence from ending
/// inside the timed window.
pub struct RunLimits {
    pub prompt_len: usize,
    pub gen_len: usize,
    pub warmup: usize,
    pub shared_len: usize,
    pub max_tokens: u32,
}

/// The limits of a run of `plan`.
pub fn run_limits(plan: &BenchPlan) -> (r: RunLimits)
    requires
        plan.warmup + greater(plan.gen_len as int, 1) + 32 <= u32::MAX,
    ensures
        r.prompt_len == greater(plan.prompt_len as int, 1),
        r.gen_len == greater(plan.gen_len as int, 1),
        r.warmup == plan.warmup,
        r.shared_len == plan.shared_len,
        r.max_tokens == plan.warmup + r.gen_len + 32,
{
    let gen_len: u32 = max_u32(plan.gen_len, 1);
    RunLimits {
        prompt_len: max_u32(plan.prompt_len, 1) as usize,
        gen_len: gen_len as usize,
        warmup: plan.warmup as usize,
        shared_len: plan.shared_len as usize,
        max_tokens: plan.warmup + gen_len + 32,
    }
}

/// Whether two greedy streams agree as far as both go.
pub fn same_stream(a: &[u32], b: &[u32]) -> (r: bool)
    ensures
        r <==> forall|i: int| 0 <= i < a@.len() && i < b@.len() ==> #[trigger] a@[i] == b@[i],
{
    let mut i: usize = 0;
    while i < a.len() && i < b.len()
        invariant
            i <= a@.len(),
            i <= b@.len(),
            forall|k: int| 0 <= k < i ==> #[trigger] a@[k] == b@[k],
        decreases a@.len() - i,
    {
        if a[i] != b[i] {
            return false;
        }
        i += 1;
    }
    true
}

} // verus!
