//! Natural numbers wider than any machine word, as little-endian limbs of
//! 32 bits, with the three operations the exact utilisation comparison
//! needs: multiplication by a word, addition, and `≤`.
use vstd::prelude::*;

verus! {

/// The weight of one limb over the one below it.
pub const LIMB_BASE: u64 = 0x1_0000_0000;

/// `LIMB_BASE^n`.
pub open spec fn limb_weight(n: nat) -> int
    decreases n,
{
    if n == 0 {
        1
    } else {
        LIMB_BASE * limb_weight((n - 1) as nat)
    }
}

/// The number the limbs stand for: `Σ limbs[i] · LIMB_BASE^i`.
pub open spec fn wide_value(s: Seq<u64>) -> int
    decreases s.len(),
{
    if s.len() == 0 {
        0
    } else {
        wide_value(s.drop_last()) + s.last() * limb_weight((s.len() - 1) as nat)
    }
}

/// Every limb is below [`LIMB_BASE`].
pub open spec fn limbs_ok(s: Seq<u64>) -> bool {
    forall|i: int| 0 <= i < s.len() ==> #[trigger] s[i] < LIMB_BASE
}

/// Limb weights are positive and grow by [`LIMB_BASE`].
pub proof fn lemma_limb_weight(n: nat)
    ensures
        limb_weight(n) > 0,
        limb_weight(n + 1) == LIMB_BASE * limb_weight(n),
    decreases n,
{
    if n > 0 {
        lemma_limb_weight((n - 1) as nat);
    }
    assert(limb_weight(n) > 0 ==> LIMB_BASE * limb_weight(n) > 0) by (nonlinear_arith);
}

/// Well-formed limbs stand for a number below the weight of the next limb.
pub proof fn lemma_wide_bounds(s: Seq<u64>)
    requires
        limbs_ok(s),
    ensures
        0 <= wide_value(s) < limb_weight(s.len()),
    decreases s.len(),
{
    if s.len() > 0 {
        let p = s.drop_last();
        assert(limbs_ok(p)) by {
            assert forall|i: int| 0 <= i < p.len() implies #[trigger] p[i] < LIMB_BASE by {
                assert(p[i] == s[i]);
            }
        }
        lemma_wide_bounds(p);
        let n = (s.len() - 1) as nat;
        lemma_limb_weight(n);
        let w = limb_weight(n);
        let x = s.last();
        assert(x == s[s.len() - 1]);
        assert(0 <= x * w <= (LIMB_BASE - 1) * w) by (nonlinear_arith)
            requires
                0 <= x < LIMB_BASE,
                w > 0,
        ;
        assert((LIMB_BASE - 1) * w + w == LIMB_BASE * w) by (nonlinear_arith);
    }
}

/// A prefix one limb longer adds that limb at its weight.
proof fn lemma_wide_take_step(s: Seq<u64>, i: int)
    requires
        0 <= i < s.len(),
    ensures
        wide_value(s.take(i + 1)) == wide_value(s.take(i)) + s[i] * limb_weight(i as nat),
{
    assert(s.take(i + 1).drop_last() =~= s.take(i));
}

/// A limb written and a carry kept stand for their sum.
proof fn lemma_carry_step(v: int, x: int, limb: int, carry: int, w: int)
    requires
        x == limb + LIMB_BASE * carry,
    ensures
        v + limb * w + carry * (LIMB_BASE * w) == v + x * w,
{
    assert(limb * w + carry * (LIMB_BASE * w) == (limb + LIMB_BASE * carry) * w)
        by (nonlinear_arith);
}

/// `x` as limbs.
pub fn wide_from(x: u64) -> (r: Vec<u64>)
    ensures
        limbs_ok(r@),
        wide_value(r@) == x,
{
    let mut r: Vec<u64> = Vec::new();
    r.push(x % LIMB_BASE);
    r.push(x / LIMB_BASE);
    proof {
        lemma_limb_weight(0);
        lemma_limb_weight(1);
        let d = r@.drop_last();
        assert(d.len() == 1);
        assert(d.drop_last() =~= Seq::<u64>::empty());
        assert(wide_value(Seq::<u64>::empty()) == 0);
        assert(d.last() == r@[0]);
        assert(wide_value(d) == wide_value(d.drop_last()) + d.last() * limb_weight(0));
        assert(wide_value(r@.drop_last()) == r@[0] * limb_weight(0));
        assert(wide_value(r@) == wide_value(r@.drop_last()) + r@[1] * limb_weight(1));
        assert(x / LIMB_BASE < LIMB_BASE) by (nonlinear_arith);
        assert(x == x % LIMB_BASE + LIMB_BASE * (x / LIMB_BASE)) by (nonlinear_arith);
    }
    r
}

/// `a` extended with zero limbs to at least `n` limbs; the same number.
fn wide_pad(a: &Vec<u64>, n: usize) -> (r: Vec<u64>)
    requires
        limbs_ok(a@),
    ensures
        limbs_ok(r@),
        wide_value(r@) == wide_value(a@),
        r@.len() >= n,
        r@.len() >= a@.len(),
        r@.len() == (if a@.len() >= n { a@.len() } else { n as nat }),
{
    let mut r = a.clone();
    while r.len() < n
        invariant
            limbs_ok(r@),
            wide_value(r@) == wide_value(a@),
            r@.len() >= a@.len(),
            r@.len() <= (if a@.len() >= n { a@.len() } else { n as nat }),
        decreases n - r.len(),
    {
        let ghost before = r@;
        r.push(0);
        proof {
            assert(r@.drop_last() =~= before);
            assert(r@.last() == 0);
            assert(wide_value(r@) == wide_value(before) + 0 * limb_weight(before.len()));
            assert forall|j: int| 0 <= j < r@.len() implies #[trigger] r@[j] < LIMB_BASE by {
                if j < before.len() {
                    assert(r@[j] == before[j]);
                }
            }
        }
    }
    r
}

/// `a · s`.
pub fn wide_mul_word(a: &Vec<u64>, s: u64) -> (r: Vec<u64>)
    requires
        limbs_ok(a@),
    ensures
        limbs_ok(r@),
        wide_value(r@) == wide_value(a@) * s,
{
    let mut r: Vec<u64> = Vec::new();
    let mut carry: u64 = 0;
    let mut i: usize = 0;
    while i < a.len()
        invariant
            limbs_ok(a@),
            limbs_ok(r@),
            i <= a@.len(),
            r@.len() == i,
            wide_value(r@) + carry * limb_weight(i as nat) == wide_value(a@.take(i as int)) * s,
        decreases a.len() - i,
    {
        assert(a@[i as int] < LIMB_BASE);
        proof {
            assert(a@[i as int] * s <= (LIMB_BASE - 1) * 0xffff_ffff_ffff_ffffu64) by (nonlinear_arith)
                requires
                    a@[i as int] < LIMB_BASE,
                    s <= 0xffff_ffff_ffff_ffffu64,
            ;
        }
        let x: u128 = a[i] as u128 * s as u128 + carry as u128;
        proof {
            assert(a@[i as int] < LIMB_BASE);
            assert(x <= LIMB_BASE * 0xffff_ffff_ffff_ffffu128) by (nonlinear_arith)
                requires
                    x == a@[i as int] * s + carry,
                    a@[i as int] < LIMB_BASE,
                    s <= 0xffff_ffff_ffff_ffffu64,
                    carry <= 0xffff_ffff_ffff_ffffu64,
            ;
            assert(x / (LIMB_BASE as u128) <= 0xffff_ffff_ffff_ffffu128) by (nonlinear_arith)
                requires
                    x <= LIMB_BASE * 0xffff_ffff_ffff_ffffu128,
            ;
            assert(x == x % (LIMB_BASE as u128) + LIMB_BASE * (x / (LIMB_BASE as u128)))
                by (nonlinear_arith);
        }
        let limb = (x % (LIMB_BASE as u128)) as u64;
        let next = (x / (LIMB_BASE as u128)) as u64;
        let ghost before = r@;
        r.push(limb);
        proof {
            assert(r@.drop_last() =~= before);
            lemma_limb_weight(i as nat);
            lemma_wide_take_step(a@, i as int);
            let w = limb_weight(i as nat);
            lemma_carry_step(wide_value(before), x as int, limb as int, next as int, w);
            assert(wide_value(a@.take(i as int + 1)) * s == wide_value(a@.take(i as int)) * s
                + a@[i as int] * w * s) by (nonlinear_arith)
                requires
                    wide_value(a@.take(i as int + 1)) == wide_value(a@.take(i as int)) + a@[i as int]
                        * w,
            ;
            assert(x * w == a@[i as int] * w * s + carry * w) by (nonlinear_arith)
                requires
                    x == a@[i as int] * s + carry,
            ;
            assert forall|j: int| 0 <= j < r@.len() implies #[trigger] r@[j] < LIMB_BASE by {
                if j < before.len() {
                    assert(r@[j] == before[j]);
                }
            }
        }
        carry = next;
        i = i + 1;
    }
    proof {
        assert(a@.take(a@.len() as int) =~= a@);
    }
    let n = r.len();
    let ghost before = r@;
    let low = carry % LIMB_BASE;
    let high = carry / LIMB_BASE;
    r.push(low);
    r.push(high);
    proof {
        assert(r@.drop_last().drop_last() =~= before);
        assert(r@.drop_last() =~= before.push(low));
        lemma_limb_weight(n as nat);
        let w = limb_weight(n as nat);
        assert(high < LIMB_BASE) by (nonlinear_arith)
            requires
                high == carry / LIMB_BASE,
        ;
        assert(carry == low + LIMB_BASE * high) by (nonlinear_arith)
            requires
                low == carry % LIMB_BASE,
                high == carry / LIMB_BASE,
        ;
        lemma_carry_step(wide_value(before), carry as int, low as int, high as int, w);
        let mid = before.push(low);
        assert(mid.drop_last() =~= before);
        assert(wide_value(mid) == wide_value(before) + low * w);
        assert(r@.len() == n + 2);
        assert(wide_value(r@) == wide_value(mid) + high * limb_weight((n + 1) as nat));
        assert forall|j: int| 0 <= j < r@.len() implies #[trigger] r@[j] < LIMB_BASE by {
            if j < before.len() {
                assert(r@[j] == before[j]);
            }
        }
    }
    r
}

/// `a + b`.
pub fn wide_add(a: &Vec<u64>, b: &Vec<u64>) -> (r: Vec<u64>)
    requires
        limbs_ok(a@),
        limbs_ok(b@),
    ensures
        limbs_ok(r@),
        wide_value(r@) == wide_value(a@) + wide_value(b@),
{
    let a = wide_pad(a, b.len());
    let b = wide_pad(b, a.len());
    let mut r: Vec<u64> = Vec::new();
    let mut carry: u64 = 0;
    let mut i: usize = 0;
    while i < a.len()
        invariant
            limbs_ok(a@),
            limbs_ok(b@),
            a@.len() == b@.len(),
            limbs_ok(r@),
            i <= a@.len(),
            r@.len() == i,
            carry <= 1,
            wide_value(r@) + carry * limb_weight(i as nat) == wide_value(a@.take(i as int))
                + wide_value(b@.take(i as int)),
        decreases a.len() - i,
    {
        assert(a@[i as int] < LIMB_BASE && b@[i as int] < LIMB_BASE);
        let x: u64 = a[i] + b[i] + carry;
        let limb = x % LIMB_BASE;
        let next = x / LIMB_BASE;
        let ghost before = r@;
        r.push(limb);
        proof {
            assert(next <= 1) by (nonlinear_arith)
                requires
                    next == x / LIMB_BASE,
                    x < 2 * LIMB_BASE,
            ;
            assert(x == limb + LIMB_BASE * next) by (nonlinear_arith)
                requires
                    limb == x % LIMB_BASE,
                    next == x / LIMB_BASE,
            ;
            assert(r@.drop_last() =~= before);
            lemma_limb_weight(i as nat);
            lemma_wide_take_step(a@, i as int);
            lemma_wide_take_step(b@, i as int);
            let w = limb_weight(i as nat);
            lemma_carry_step(wide_value(before), x as int, limb as int, next as int, w);
            assert(x * w == a@[i as int] * w + b@[i as int] * w + carry * w) by (nonlinear_arith)
                requires
                    x == a@[i as int] + b@[i as int] + carry,
            ;
            assert forall|j: int| 0 <= j < r@.len() implies #[trigger] r@[j] < LIMB_BASE by {
                if j < before.len() {
                    assert(r@[j] == before[j]);
                }
            }
        }
        carry = next;
        i = i + 1;
    }
    proof {
        assert(a@.take(a@.len() as int) =~= a@);
        assert(b@.take(b@.len() as int) =~= b@);
    }
    let n = r.len();
    let ghost before = r@;
    r.push(carry);
    proof {
        assert(r@.drop_last() =~= before);
        assert forall|j: int| 0 <= j < r@.len() implies #[trigger] r@[j] < LIMB_BASE by {
            if j < before.len() {
                assert(r@[j] == before[j]);
            }
        }
    }
    r
}

/// Whether `a ≤ b`.
pub fn wide_le(a: &Vec<u64>, b: &Vec<u64>) -> (le: bool)
    requires
        limbs_ok(a@),
        limbs_ok(b@),
    ensures
        le == (wide_value(a@) <= wide_value(b@)),
{
    let a = wide_pad(a, b.len());
    let b = wide_pad(b, a.len());
    // Whether the low limbs of `b` stand for less than those of `a`.
    let mut below = false;
    let mut i: usize = 0;
    while i < a.len()
        invariant
            limbs_ok(a@),
            limbs_ok(b@),
            a@.len() == b@.len(),
            i <= a@.len(),
            below == (wide_value(b@.take(i as int)) < wide_value(a@.take(i as int))),
        decreases a.len() - i,
    {
        proof {
            let pa = a@.take(i as int);
            let pb = b@.take(i as int);
            assert(limbs_ok(pa) && limbs_ok(pb)) by {
                assert forall|j: int| 0 <= j < pa.len() implies #[trigger] pa[j] < LIMB_BASE by {
                    assert(pa[j] == a@[j]);
                }
                assert forall|j: int| 0 <= j < pb.len() implies #[trigger] pb[j] < LIMB_BASE by {
                    assert(pb[j] == b@[j]);
                }
            }
            lemma_wide_bounds(pa);
            lemma_wide_bounds(pb);
            lemma_wide_take_step(a@, i as int);
            lemma_wide_take_step(b@, i as int);
            lemma_limb_weight(i as nat);
            let w = limb_weight(i as nat);
            let va = wide_value(pa);
            let vb = wide_value(pb);
            let x = a@[i as int] as int;
            let y = b@[i as int] as int;
            assert(y < x ==> vb + y * w < va + x * w) by (nonlinear_arith)
                requires
                    0 <= va < w,
                    0 <= vb < w,
            {
                if y < x {
                    assert(x * w >= (y + 1) * w);
                }
            }
            assert(x < y ==> va + x * w < vb + y * w) by (nonlinear_arith)
                requires
                    0 <= va < w,
                    0 <= vb < w,
            {
                if x < y {
                    assert(y * w >= (x + 1) * w);
                }
            }
        }
        if b[i] < a[i] {
            below = true;
        } else if a[i] < b[i] {
            below = false;
        }
        i = i + 1;
    }
    proof {
        assert(a@.take(a@.len() as int) =~= a@);
        assert(b@.take(b@.len() as int) =~= b@);
    }
    !below
}

} // verus!
