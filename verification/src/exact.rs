//! Utilisation as an exact fraction, for the one comparison a floor must not
//! decide: the Liu and Layland pre-check.
//!
//! `Σ Cⱼ·10⁶/Tⱼ` is `exact_num / exact_den`. The floored parts per million
//! drop a remainder `Cⱼ·10⁶ mod Tⱼ` over `Tⱼ` from each task; those
//! remainders, summed over the tasks that leave one, are
//! `rem_num / rem_den`, a smaller fraction that decides the comparison when
//! the floored sum alone cannot. Its numbers can outgrow every machine word,
//! and are held in `wide`.
use vstd::prelude::*;

use crate::model::{ceil_div, demand_term, jitter_term, lemma_ceil_div_basics, sum_of, util_term};
use crate::monotone::periods_positive;
use crate::task::Task;
use crate::FULL_UTILISATION_PPM;

verus! {

/// `C · 10⁶`.
pub open spec fn scaled(t: Task) -> int {
    t.wcet_us * FULL_UTILISATION_PPM
}

/// What the floor of `C·10⁶/T` drops, as a numerator over `T`.
pub open spec fn remainder(t: Task) -> int {
    scaled(t) % (t.period_us as int)
}

/// Numerator of `Σ Cⱼ·10⁶/Tⱼ` over the denominator [`exact_den`].
pub open spec fn exact_num(s: Seq<Task>) -> int
    decreases s.len(),
{
    if s.len() == 0 {
        0
    } else {
        exact_num(s.drop_last()) * s.last().period_us + scaled(s.last()) * exact_den(
            s.drop_last(),
        )
    }
}

/// `Π Tⱼ`.
pub open spec fn exact_den(s: Seq<Task>) -> int
    decreases s.len(),
{
    if s.len() == 0 {
        1
    } else {
        exact_den(s.drop_last()) * s.last().period_us
    }
}

/// Numerator of the dropped remainders `Σ rⱼ/Tⱼ`, over [`rem_den`]; tasks
/// that drop nothing are left out of both.
pub open spec fn rem_num(s: Seq<Task>) -> int
    decreases s.len(),
{
    if s.len() == 0 {
        0
    } else if remainder(s.last()) == 0 {
        rem_num(s.drop_last())
    } else {
        rem_num(s.drop_last()) * s.last().period_us + remainder(s.last()) * rem_den(
            s.drop_last(),
        )
    }
}

/// The product of the periods of the tasks that drop a remainder.
pub open spec fn rem_den(s: Seq<Task>) -> int
    decreases s.len(),
{
    if s.len() == 0 {
        1
    } else if remainder(s.last()) == 0 {
        rem_den(s.drop_last())
    } else {
        rem_den(s.drop_last()) * s.last().period_us
    }
}

/// One for a task whose utilisation the floor rounds down.
pub open spec fn rounded_term() -> spec_fn(Task) -> int {
    |t: Task| if remainder(t) != 0 { 1int } else { 0int }
}

/// `Σ Cⱼ·10⁶/Tⱼ ≤ bound`, exactly.
pub open spec fn exactly_within(s: Seq<Task>, bound: int) -> bool {
    exact_num(s) <= bound * exact_den(s)
}

proof fn lemma_split_step(
    en: int,
    ed: int,
    rn: int,
    rd: int,
    su: int,
    k: int,
    p: int,
    c: int,
    q: int,
    r: int,
)
    requires
        ed > 0,
        rd > 0,
        p > 0,
        0 <= r < p,
        c == q * p + r,
        0 <= rn <= k * rd,
        en * rd == (su * rd + rn) * ed,
    ensures
        r == 0 ==> (en * p + c * ed) * rd == ((su + q) * rd + rn) * (ed * p),
        r != 0 ==> (en * p + c * ed) * (rd * p) == ((su + q) * (rd * p) + (rn * p + r * rd)) * (
        ed * p),
        r != 0 ==> 0 <= rn * p + r * rd <= (k + 1) * (rd * p),
        ed * p > 0,
        rd * p > 0,
{
    assert((en * p + c * ed) * rd == (en * p) * rd + (c * ed) * rd) by (nonlinear_arith);
    assert((en * p) * rd == p * (en * rd)) by (nonlinear_arith);
    assert(c * ed == q * p * ed + r * ed) by (nonlinear_arith)
        requires
            c == q * p + r,
    ;
    assert((q * p * ed + r * ed) * rd == q * p * ed * rd + r * ed * rd) by (nonlinear_arith);
    assert((en * p + c * ed) * rd == p * (en * rd) + q * p * ed * rd + r * ed * rd);
    let x = su * rd + rn;
    let qr = q * rd;
    let y = x * ed;
    // Without the new remainder.
    assert(((su + q) * rd + rn) * (ed * p) == p * y + q * p * ed * rd) by (nonlinear_arith)
        requires
            x == su * rd + rn,
            y == x * ed,
    {
        assert((su + q) * rd + rn == x + q * rd);
        assert((x + q * rd) * (ed * p) == x * (ed * p) + (q * rd) * (ed * p));
        assert(x * (ed * p) == p * (x * ed));
        assert((q * rd) * (ed * p) == q * p * ed * rd);
    }
    let lhs = en * p + c * ed;
    assert(lhs * (rd * p) == p * (lhs * rd)) by (nonlinear_arith);
    // With it.
    let e = ed * p;
    let b1 = (su + q) * (rd * p);
    assert(b1 == p * x + p * qr - p * rn) by (nonlinear_arith)
        requires
            b1 == (su + q) * (rd * p),
            x == su * rd + rn,
            qr == q * rd,
    ;
    assert(rn * p == p * rn) by (nonlinear_arith);
    let m = p * x + p * qr + r * rd;
    assert(m * e == (p * x) * e + (p * qr) * e + (r * rd) * e) by (nonlinear_arith)
        requires
            m == p * x + p * qr + r * rd,
    ;
    assert((p * x) * e == p * (p * y)) by (nonlinear_arith)
        requires
            e == ed * p,
            y == x * ed,
    ;
    assert((p * qr) * e == p * (q * p * ed * rd)) by (nonlinear_arith)
        requires
            e == ed * p,
            qr == q * rd,
    ;
    assert((r * rd) * e == p * (r * ed * rd)) by (nonlinear_arith)
        requires
            e == ed * p,
    ;
    assert((su + q) * (rd * p) + (rn * p + r * rd) == m);
    assert(en * rd == y);
    assert(p * (en * rd) == p * y) by (nonlinear_arith)
        requires
            en * rd == y,
    ;
    let z1 = q * p * ed * rd;
    let z2 = r * ed * rd;
    assert(p * (p * y + z1 + z2) == p * (p * y) + p * z1 + p * z2) by (nonlinear_arith);
    assert(lhs * rd == p * y + z1 + z2);
    assert(p * (lhs * rd) == p * (p * y + z1 + z2)) by (nonlinear_arith)
        requires
            lhs * rd == p * y + z1 + z2,
    ;
    assert(m * e == p * (p * y) + p * z1 + p * z2);
    assert(0 <= rn * p + r * rd <= (k + 1) * (rd * p)) by (nonlinear_arith)
        requires
            rd > 0,
            p > 0,
            0 <= r < p,
            0 <= rn <= k * rd,
    ;
    assert(ed * p > 0 && rd * p > 0) by (nonlinear_arith)
        requires
            ed > 0,
            rd > 0,
            p > 0,
    ;
}

/// The exact fraction is the floored sum plus the dropped remainders:
/// `exact_num / exact_den = Σ ⌊Cⱼ·10⁶/Tⱼ⌋ + rem_num / rem_den`, and the
/// remainders add up to less than one per task that drops one.
pub proof fn lemma_exact_split(s: Seq<Task>)
    requires
        periods_positive(s),
    ensures
        exact_den(s) > 0,
        rem_den(s) > 0,
        0 <= rem_num(s) <= sum_of(s, rounded_term()) * rem_den(s),
        exact_num(s) * rem_den(s) == (sum_of(s, util_term()) * rem_den(s) + rem_num(s))
            * exact_den(s),
    decreases s.len(),
{
    if s.len() > 0 {
        let p = s.drop_last();
        let t = s.last();
        assert(periods_positive(p)) by {
            assert forall|j: int| 0 <= j < p.len() implies (#[trigger] p[j]).period_us > 0 by {
                assert(p[j] == s[j]);
            }
        }
        assert(t == s[s.len() - 1]);
        lemma_exact_split(p);
        let pt = t.period_us as int;
        let q = util_term()(t);
        let r = remainder(t);
        vstd::arithmetic::div_mod::lemma_fundamental_div_mod(scaled(t), pt);
        assert(q == scaled(t) / pt);
        assert(scaled(t) == pt * q + r);
        assert(pt * q == q * pt) by (nonlinear_arith);
        lemma_split_step(
            exact_num(p),
            exact_den(p),
            rem_num(p),
            rem_den(p),
            sum_of(p, util_term()),
            sum_of(p, rounded_term()),
            pt,
            scaled(t),
            q,
            r,
        );
        if r == 0 {
            assert(sum_of(p, rounded_term()) * rem_den(p) == sum_of(s, rounded_term()) * rem_den(s));
        }
    }
}

/// The exact comparison, decided by the remainders alone:
/// `Σ Cⱼ·10⁶/Tⱼ ≤ bound` exactly when `rem_num ≤ (bound − Σ⌊·⌋)·rem_den`.
pub proof fn lemma_exact_compare(s: Seq<Task>, bound: int)
    requires
        periods_positive(s),
    ensures
        exactly_within(s, bound) <==> rem_num(s) <= (bound - sum_of(s, util_term())) * rem_den(
            s,
        ),
{
    lemma_exact_split(s);
    let en = exact_num(s);
    let ed = exact_den(s);
    let rn = rem_num(s);
    let rd = rem_den(s);
    let su = sum_of(s, util_term());
    assert((en <= bound * ed) <==> (rn <= (bound - su) * rd)) by (nonlinear_arith)
        requires
            ed > 0,
            rd > 0,
            en * rd == (su * rd + rn) * ed,
    {
        assert((en <= bound * ed) <==> (en * rd <= bound * ed * rd));
        assert((su * rd + rn) * ed == ed * (su * rd + rn));
        assert((ed * (su * rd + rn) <= ed * (bound * rd)) <==> (su * rd + rn <= bound * rd));
    }
}

proof fn lemma_demand_step(
    f: int,
    d: int,
    en: int,
    ed: int,
    l: int,
    delta: int,
    p: int,
    c: int,
    j: int,
    n: int,
)
    requires
        f > 0,
        ed > 0,
        p > 0,
        l >= 0,
        c >= 0,
        j >= 0,
        n >= 0,
        n * p >= l + j,
        0 <= delta <= 1,
        f * d * ed >= l * en + delta,
    ensures
        f * (d + n * c) * (ed * p) >= l * (en * p + c * f * ed) + p * delta + f * c * ed * j,
        p * delta >= delta,
        j > 0 && c > 0 ==> f * c * ed * j >= 1,
        f * c * ed * j >= 0,
{
    let e = ed * p;
    assert(f * (d + n * c) == f * d + f * (n * c)) by (nonlinear_arith);
    assert((f * d + f * (n * c)) * e == (f * d) * e + (f * (n * c)) * e) by (nonlinear_arith);
    assert((f * d) * e == p * (f * d * ed)) by (nonlinear_arith)
        requires
            e == ed * p,
    ;
    assert((f * (n * c)) * e == f * c * ed * (n * p)) by (nonlinear_arith)
        requires
            e == ed * p,
    ;
    assert(f * (d + n * c) * (ed * p) == p * (f * d * ed) + f * c * ed * (n * p));
    assert(p * (f * d * ed) >= p * (l * en + delta)) by (nonlinear_arith)
        requires
            p > 0,
            f * d * ed >= l * en + delta,
    ;
    assert(f * c * ed * (n * p) >= f * c * ed * (l + j)) by (nonlinear_arith)
        requires
            f > 0,
            c >= 0,
            ed > 0,
            n * p >= l + j,
    ;
    assert(p * (l * en + delta) == l * (en * p) + p * delta) by (nonlinear_arith);
    assert(f * c * ed * (l + j) == l * (c * f * ed) + f * c * ed * j) by (nonlinear_arith);
    assert(l * (en * p + c * f * ed) == l * (en * p) + l * (c * f * ed)) by (nonlinear_arith);
    assert(p * delta >= delta) by (nonlinear_arith)
        requires
            p > 0,
            delta >= 0,
    ;
    assert(j > 0 && c > 0 ==> f * c * ed * j >= 1) by (nonlinear_arith)
        requires
            f > 0,
            ed > 0,
    ;
    assert(f * c * ed * j >= 0) by (nonlinear_arith)
        requires
            f > 0,
            ed > 0,
            c >= 0,
            j >= 0,
    ;
}

/// The work released into a window of length `L` is at least `L` times the
/// exact utilisation, and strictly more when some task carries jitter on
/// nonzero work: `10⁶ · Σ ⌈(L + Jⱼ)/Tⱼ⌉·Cⱼ · exact_den ≥ L · exact_num`,
/// with one to spare under jitter.
pub proof fn lemma_demand_covers_utilisation(s: Seq<Task>, l: int)
    requires
        periods_positive(s),
        l >= 0,
    ensures
        FULL_UTILISATION_PPM * sum_of(s, demand_term(l)) * exact_den(s) >= l * exact_num(s) + (
        if sum_of(s, jitter_term()) > 0 {
            1int
        } else {
            0int
        }),
    decreases s.len(),
{
    lemma_exact_split(s);
    if s.len() > 0 {
        let p = s.drop_last();
        let t = s.last();
        assert(periods_positive(p)) by {
            assert forall|j: int| 0 <= j < p.len() implies (#[trigger] p[j]).period_us > 0 by {
                assert(p[j] == s[j]);
            }
        }
        assert(t == s[s.len() - 1]);
        lemma_demand_covers_utilisation(p, l);
        lemma_exact_split(p);
        let pt = t.period_us as int;
        let n = ceil_div(l + t.jitter_us, pt);
        lemma_ceil_div_basics(l + t.jitter_us, l + t.jitter_us, pt);
        let dp = if sum_of(p, jitter_term()) > 0 {
            1int
        } else {
            0int
        };
        assert(sum_of(p, jitter_term()) >= 0) by {
            lemma_jitter_sum_nonneg(p);
        }
        lemma_demand_step(
            FULL_UTILISATION_PPM as int,
            sum_of(p, demand_term(l)),
            exact_num(p),
            exact_den(p),
            l,
            dp,
            pt,
            t.wcet_us as int,
            t.jitter_us as int,
            n,
        );
        assert(demand_term(l)(t) == n * t.wcet_us);
        assert(sum_of(s, demand_term(l)) == sum_of(p, demand_term(l)) + n * t.wcet_us);
        assert(exact_num(s) == exact_num(p) * pt + t.wcet_us * FULL_UTILISATION_PPM * exact_den(p));
        assert(t.wcet_us * FULL_UTILISATION_PPM * exact_den(p) == t.wcet_us * (
        FULL_UTILISATION_PPM as int) * exact_den(p));
    }
}

/// A sum of jitter indicators is never negative.
proof fn lemma_jitter_sum_nonneg(s: Seq<Task>)
    ensures
        sum_of(s, jitter_term()) >= 0,
    decreases s.len(),
{
    if s.len() > 0 {
        lemma_jitter_sum_nonneg(s.drop_last());
    }
}

} // verus!
