//! Dense polynomials over the scalar field.
//!
//! A polynomial is its coefficient vector, low degree first; trailing zero
//! coefficients are allowed.  Contracts speak pointwise through `fcoef`,
//! which reads a coefficient sequence as the everywhere-defined function
//! that is zero beyond the stored length.

use vstd::prelude::*;

verus! {

use vstd::arithmetic::div_mod::lemma_small_mod;
use crate::field::{Fe, pmod, fadd, fsub, fmul, fneg};

/// Every element reduced.
pub open spec fn all_ok(s: Seq<Fe>) -> bool {
    forall|i: int| 0 <= i < s.len() ==> s[i].ok()
}

/// The value of the coefficient of `X^i`, zero beyond the stored length.
pub open spec fn fcoef(s: Seq<Fe>, i: int) -> int {
    if 0 <= i < s.len() {
        s[i].val()
    } else {
        0
    }
}

/// Horner evaluation of a coefficient sequence at a point.
pub open spec fn pval(s: Seq<Fe>, x: int) -> int
    decreases s.len(),
{
    if s.len() == 0 {
        0
    } else {
        fadd(s[0].val(), fmul(x, pval(s.subrange(1, s.len() as int), x)))
    }
}

/// The convolution sum of the first `n` rows:
/// `sum_{i < n} a[i] * b[k - i]` in the field.
pub open spec fn convsum(a: Seq<Fe>, b: Seq<Fe>, k: int, n: nat) -> int
    decreases n,
{
    if n == 0 {
        0
    } else {
        fadd(
            convsum(a, b, k, (n - 1) as nat),
            fmul(fcoef(a, n - 1), fcoef(b, k - (n - 1))),
        )
    }
}

/// The full convolution: coefficient `k` of the product.
pub open spec fn conv(a: Seq<Fe>, b: Seq<Fe>, k: int) -> int {
    convsum(a, b, k, a.len())
}

/// Convolution sums stay reduced.
pub proof fn lemma_convsum_range(a: Seq<Fe>, b: Seq<Fe>, k: int, n: nat)
    ensures
        0 <= convsum(a, b, k, n) < pmod(),
    decreases n,
{
    if n == 0 {
    } else {
        lemma_convsum_range(a, b, k, (n - 1) as nat);
        vstd::arithmetic::div_mod::lemma_mod_bound(
            convsum(a, b, k, (n - 1) as nat)
                + fmul(fcoef(a, n - 1), fcoef(b, k - (n - 1))), pmod());
    }
}

/// A row with an out-of-range coefficient adds nothing.
pub proof fn lemma_convsum_absent(a: Seq<Fe>, b: Seq<Fe>, k: int, n: nat)
    requires
        fcoef(b, k - (n - 1)) == 0 || fcoef(a, n - 1) == 0,
        n > 0,
    ensures
        convsum(a, b, k, n) == convsum(a, b, k, (n - 1) as nat),
{
    lemma_convsum_range(a, b, k, (n - 1) as nat);
    lemma_small_mod(convsum(a, b, k, (n - 1) as nat) as nat, pmod() as nat);
}

/// Out of range, the convolution vanishes.
pub proof fn lemma_conv_out_of_range(a: Seq<Fe>, b: Seq<Fe>, k: int, n: nat)
    requires
        k < 0 || k > a.len() + b.len() - 2 || b.len() == 0,
        n <= a.len(),
    ensures
        convsum(a, b, k, n) == 0,
    decreases n,
{
    if n == 0 {
    } else {
        lemma_conv_out_of_range(a, b, k, (n - 1) as nat);
        assert(fcoef(b, k - (n - 1)) == 0);
        lemma_convsum_absent(a, b, k, n);
    }
}

/// A reduced value as a field element.
pub open spec fn fe_of(x: int) -> Fe {
    Fe { v: x as u64 }
}

/// The coefficient sequence of a pointwise sum.
pub open spec fn padd(a: Seq<Fe>, b: Seq<Fe>) -> Seq<Fe> {
    Seq::new(
        if a.len() >= b.len() { a.len() } else { b.len() },
        |k: int| fe_of(fadd(fcoef(a, k), fcoef(b, k))),
    )
}

/// The coefficient sequence of a pointwise difference.
pub open spec fn psub(a: Seq<Fe>, b: Seq<Fe>) -> Seq<Fe> {
    Seq::new(
        if a.len() >= b.len() { a.len() } else { b.len() },
        |k: int| fe_of(fsub(fcoef(a, k), fcoef(b, k))),
    )
}

/// The coefficient sequence scaled by a scalar.
pub open spec fn pscale(a: Seq<Fe>, s: int) -> Seq<Fe> {
    Seq::new(a.len(), |k: int| fe_of(fmul(fcoef(a, k), s)))
}

/// The coefficient sequence of a product.
pub open spec fn pmul(a: Seq<Fe>, b: Seq<Fe>) -> Seq<Fe> {
    Seq::new(
        if a.len() == 0 || b.len() == 0 { 0 } else { (a.len() + b.len() - 1) as nat },
        |k: int| fe_of(conv(a, b, k)),
    )
}

/// Coefficient `j` of the quotient by `X^n - 1`, from the top down.
pub open spec fn quot_at(p: Seq<Fe>, n: int, j: int) -> int
    decreases p.len() - j,
{
    if n >= 1 && 0 <= j && j < p.len() - n {
        fadd(fcoef(p, j + n), quot_at(p, n, j + n))
    } else {
        0
    }
}

/// The quotient by `X^n - 1` as a coefficient sequence.
pub open spec fn pquot(p: Seq<Fe>, n: int) -> Seq<Fe> {
    Seq::new(
        if p.len() > n { (p.len() - n) as nat } else { 0 },
        |j: int| fe_of(quot_at(p, n, j)),
    )
}

/// The remainder modulo `X^n - 1` as a coefficient sequence.
pub open spec fn prem(p: Seq<Fe>, n: int) -> Seq<Fe> {
    Seq::new(
        if p.len() < n { p.len() } else { n as nat },
        |k: int| fe_of(fadd(fcoef(p, k), quot_at(p, n, k))),
    )
}

/// Whether the remainder modulo `X^n - 1` vanishes.
pub open spec fn divides_vanishing(p: Seq<Fe>, n: int) -> bool {
    forall|k: int| fcoef(prem(p, n), k) == 0
}

/// A dense polynomial: the vector of its coefficients, low degree first.
#[derive(Clone, Debug)]
pub struct Poly {
    pub c: Vec<Fe>,
}

impl Poly {
    /// All coefficients reduced.
    pub open spec fn wf(self) -> bool {
        all_ok(self.c@)
    }

    /// The value of the coefficient of `X^k`, zero beyond the stored length.
    pub open spec fn at(self, k: int) -> int {
        fcoef(self.c@, k)
    }

    /// The stored length.
    pub open spec fn len(self) -> int {
        self.c@.len() as int
    }

    /// The zero polynomial, as an empty vector.
    pub fn new_zero() -> (r: Poly)
        ensures
            r.wf(),
            r.len() == 0,
            forall|k: int| r.at(k) == 0,
    {
        Poly { c: Vec::new() }
    }

    /// A polynomial from its coefficient vector.
    pub fn from_coeffs(c: Vec<Fe>) -> (r: Poly)
        ensures
            r.c@ == c@,
    {
        Poly { c }
    }

    /// An identical copy.
    pub fn copied(&self) -> (r: Poly)
        ensures
            r.c@ == self.c@,
    {
        let mut out: Vec<Fe> = Vec::new();
        let mut k: usize = 0;
        while k < self.c.len()
            invariant
                k <= self.c@.len(),
                out@ == self.c@.subrange(0, k as int),
            decreases self.c@.len() - k,
        {
            out.push(self.c[k]);
            proof {
                assert(out@ =~= self.c@.subrange(0, k + 1));
            }
            k += 1;
        }
        proof {
            assert(out@ =~= self.c@);
        }
        Poly { c: out }
    }

    /// Pointwise sum; the length is the larger of the two.
    pub fn add(&self, other: &Poly) -> (r: Poly)
        requires
            self.wf(),
            other.wf(),
        ensures
            r.wf(),
            r.len() == if self.len() >= other.len() { self.len() } else { other.len() },
            forall|k: int| #[trigger] r.at(k) == fadd(self.at(k), other.at(k)),
            r.c@ == padd(self.c@, other.c@),
    {
        let la = self.c.len();
        let lb = other.c.len();
        let lm = if la >= lb { la } else { lb };
        let mut out: Vec<Fe> = Vec::new();
        let mut k: usize = 0;
        while k < lm
            invariant
                k <= lm,
                la == self.c@.len(),
                lb == other.c@.len(),
                lm == if la >= lb { la } else { lb },
                self.wf(),
                other.wf(),
                out@.len() == k,
                forall|j: int| 0 <= j < k ==> #[trigger] out@[j].ok(),
                forall|j: int| 0 <= j < k ==>
                    #[trigger] out@[j].val() == fadd(self.at(j), other.at(j)),
            decreases lm - k,
        {
            let av = if k < la { self.c[k] } else { Fe::zero() };
            let bv = if k < lb { other.c[k] } else { Fe::zero() };
            out.push(av.add(bv));
            k += 1;
        }
        let ghost oc = out@;
        let r = Poly { c: out };
        proof {
            assert forall|k0: int| #[trigger] r.at(k0)
                == fadd(self.at(k0), other.at(k0)) by {
                assert(r.c@ == oc);
                if 0 <= k0 < oc.len() {
                    assert(oc[k0].val() == fadd(self.at(k0), other.at(k0)));
                } else {
                    assert(self.at(k0) == 0 && other.at(k0) == 0);
                }
            }
            assert forall|k0: int| 0 <= k0 < r.c@.len() implies
                r.c@[k0] == padd(self.c@, other.c@)[k0] by {
                vstd::arithmetic::div_mod::lemma_mod_bound(
                    self.at(k0) + other.at(k0), pmod());
                assert(r.at(k0) == fadd(self.at(k0), other.at(k0)));
                assert(padd(self.c@, other.c@)[k0].val()
                    == fadd(self.at(k0), other.at(k0)));
            }
            assert(r.c@ =~= padd(self.c@, other.c@));
        }
        r
    }

    /// Pointwise difference; the length is the larger of the two.
    pub fn sub(&self, other: &Poly) -> (r: Poly)
        requires
            self.wf(),
            other.wf(),
        ensures
            r.wf(),
            r.len() == if self.len() >= other.len() { self.len() } else { other.len() },
            forall|k: int| #[trigger] r.at(k) == fsub(self.at(k), other.at(k)),
            r.c@ == psub(self.c@, other.c@),
    {
        let la = self.c.len();
        let lb = other.c.len();
        let lm = if la >= lb { la } else { lb };
        let mut out: Vec<Fe> = Vec::new();
        let mut k: usize = 0;
        while k < lm
            invariant
                k <= lm,
                la == self.c@.len(),
                lb == other.c@.len(),
                lm == if la >= lb { la } else { lb },
                self.wf(),
                other.wf(),
                out@.len() == k,
                forall|j: int| 0 <= j < k ==> #[trigger] out@[j].ok(),
                forall|j: int| 0 <= j < k ==>
                    #[trigger] out@[j].val() == fsub(self.at(j), other.at(j)),
            decreases lm - k,
        {
            let av = if k < la { self.c[k] } else { Fe::zero() };
            let bv = if k < lb { other.c[k] } else { Fe::zero() };
            out.push(av.sub(bv));
            k += 1;
        }
        let r = Poly { c: out };
        proof {
            assert forall|k0: int| #[trigger] r.at(k0)
                == fsub(self.at(k0), other.at(k0)) by {
                if !(0 <= k0 < r.c@.len()) {
                    assert(self.at(k0) == 0 && other.at(k0) == 0);
                }
            }
            assert forall|k0: int| 0 <= k0 < r.c@.len() implies
                r.c@[k0] == psub(self.c@, other.c@)[k0] by {
                vstd::arithmetic::div_mod::lemma_mod_bound(
                    self.at(k0) - other.at(k0), pmod());
                assert(r.at(k0) == fsub(self.at(k0), other.at(k0)));
                assert(psub(self.c@, other.c@)[k0].val()
                    == fsub(self.at(k0), other.at(k0)));
            }
            assert(r.c@ =~= psub(self.c@, other.c@));
        }
        r
    }

    /// Every coefficient multiplied by a scalar; the length is kept.
    pub fn scale(&self, s: Fe) -> (r: Poly)
        requires
            self.wf(),
            s.ok(),
        ensures
            r.wf(),
            r.len() == self.len(),
            forall|k: int| #[trigger] r.at(k) == fmul(self.at(k), s.val()),
            r.c@ == pscale(self.c@, s.val()),
    {
        let mut out: Vec<Fe> = Vec::new();
        let mut k: usize = 0;
        while k < self.c.len()
            invariant
                k <= self.c@.len(),
                self.wf(),
                s.ok(),
                out@.len() == k,
                forall|j: int| 0 <= j < k ==> #[trigger] out@[j].ok(),
                forall|j: int| 0 <= j < k ==>
                    #[trigger] out@[j].val() == fmul(self.at(j), s.val()),
            decreases self.c@.len() - k,
        {
            out.push(self.c[k].mul(s));
            k += 1;
        }
        let r = Poly { c: out };
        proof {
            assert forall|k0: int| #[trigger] r.at(k0)
                == fmul(self.at(k0), s.val()) by {
                if !(0 <= k0 < r.c@.len()) {
                    assert(self.at(k0) == 0);
                }
            }
            assert forall|k0: int| 0 <= k0 < r.c@.len() implies
                r.c@[k0] == pscale(self.c@, s.val())[k0] by {
                vstd::arithmetic::div_mod::lemma_mod_bound(
                    self.at(k0) * s.val(), pmod());
                assert(r.at(k0) == fmul(self.at(k0), s.val()));
                assert(pscale(self.c@, s.val())[k0].val()
                    == fmul(self.at(k0), s.val()));
            }
            assert(r.c@ =~= pscale(self.c@, s.val()));
        }
        r
    }

    /// The product, by schoolbook convolution.
    pub fn mul(&self, other: &Poly) -> (r: Poly)
        requires
            self.wf(),
            other.wf(),
            self.c@.len() + other.c@.len() < usize::MAX,
        ensures
            r.wf(),
            r.len() == if self.len() == 0 || other.len() == 0 {
                0int
            } else {
                self.len() + other.len() - 1
            },
            forall|k: int| #[trigger] r.at(k) == conv(self.c@, other.c@, k),
            r.c@ == pmul(self.c@, other.c@),
    {
        let la = self.c.len();
        let lb = other.c.len();
        if la == 0 || lb == 0 {
            let r = Poly { c: Vec::new() };
            proof {
                assert(r.c@ =~= pmul(self.c@, other.c@));
            }
            proof {
                assert forall|k: int| #[trigger] r.at(k) == conv(self.c@, other.c@, k) by {
                    if la == 0 {
                        assert(conv(self.c@, other.c@, k) == 0);
                    } else {
                        lemma_conv_out_of_range(self.c@, other.c@, k, self.c@.len());
                    }
                }
            }
            return r;
        }
        let lo = la + lb - 1;
        let mut out: Vec<Fe> = Vec::new();
        let mut k: usize = 0;
        while k < lo
            invariant
                k <= lo,
                out@.len() == k,
                forall|j: int| 0 <= j < k ==> #[trigger] out@[j].ok(),
                forall|j: int| 0 <= j < k ==> #[trigger] out@[j].val() == 0,
            decreases lo - k,
        {
            out.push(Fe { v: 0 });
            k += 1;
        }
        let mut i: usize = 0;
        while i < la
            invariant
                i <= la,
                la == self.c@.len(),
                lb == other.c@.len(),
                la > 0 && lb > 0,
                lo == la + lb - 1,
                self.wf(),
                other.wf(),
                out@.len() == lo,
                forall|j: int| 0 <= j < lo ==> #[trigger] out@[j].ok(),
                forall|j: int| 0 <= j < lo ==>
                    #[trigger] out@[j].val() == convsum(self.c@, other.c@, j, i as nat),
            decreases la - i,
        {
            let ghost out_entry = out@;
            let mut j: usize = 0;
            while j < lb
                invariant
                    j <= lb,
                    i < la,
                    la == self.c@.len(),
                    lb == other.c@.len(),
                    lo == la + lb - 1,
                    self.wf(),
                    other.wf(),
                    out@.len() == lo,
                    forall|k0: int| 0 <= k0 < lo ==> #[trigger] out@[k0].ok(),
                    forall|k0: int| i <= k0 < i + j ==>
                        #[trigger] out@[k0].val() == convsum(self.c@, other.c@, k0, (i + 1) as nat),
                    forall|k0: int| 0 <= k0 < lo && !(i <= k0 < i + j) ==>
                        #[trigger] out@[k0].val() == convsum(self.c@, other.c@, k0, i as nat),
                decreases lb - j,
            {
                let k0 = i + j;
                let t = out[k0].add(self.c[i].mul(other.c[j]));
                proof {
                    assert(fcoef(self.c@, i as int) == self.c@[i as int].val());
                    assert(fcoef(other.c@, k0 - i) == other.c@[j as int].val());
                }
                out.set(k0, t);
                j += 1;
            }
            proof {
                assert forall|k0: int| 0 <= k0 < lo && !(i <= k0 < i + lb) implies
                    #[trigger] out@[k0].val()
                        == convsum(self.c@, other.c@, k0, (i + 1) as nat) by {
                    assert(fcoef(other.c@, k0 - (i as int)) == 0);
                    lemma_convsum_absent(self.c@, other.c@, k0, (i + 1) as nat);
                }
            }
            i += 1;
        }
        let r = Poly { c: out };
        proof {
            assert forall|k0: int| #[trigger] r.at(k0) == conv(self.c@, other.c@, k0) by {
                if !(0 <= k0 < lo) {
                    lemma_conv_out_of_range(self.c@, other.c@, k0, self.c@.len());
                }
            }
            assert forall|k0: int| 0 <= k0 < r.c@.len() implies
                r.c@[k0] == pmul(self.c@, other.c@)[k0] by {
                lemma_convsum_range(self.c@, other.c@, k0, self.c@.len());
                assert(r.at(k0) == conv(self.c@, other.c@, k0));
                assert(pmul(self.c@, other.c@)[k0].val() == conv(self.c@, other.c@, k0));
            }
            assert(r.c@ =~= pmul(self.c@, other.c@));
        }
        r
    }

    /// Horner evaluation at a point.
    pub fn evaluate(&self, x: Fe) -> (r: Fe)
        requires
            self.wf(),
            x.ok(),
        ensures
            r.ok(),
            r.val() == pval(self.c@, x.val()),
    {
        horner(&self.c, x)
    }

    /// The product with the vanishing polynomial `X^n - 1` of a domain of
    /// size `n`, for a factor short enough not to overlap itself.
    pub fn mul_vanishing(&self, n: usize) -> (r: Poly)
        requires
            self.wf(),
            self.c@.len() <= n,
            n + self.c@.len() < usize::MAX,
        ensures
            r.wf(),
            r.len() == if self.len() == 0 { 0int } else { n + self.len() },
            forall|k: int| #[trigger] r.at(k) == fsub(self.at(k - n), self.at(k)),
    {
        let lc = self.c.len();
        if lc == 0 {
            let r = Poly { c: Vec::new() };
            return r;
        }
        let lo = n + lc;
        let mut out: Vec<Fe> = Vec::new();
        let mut k: usize = 0;
        while k < lo
            invariant
                k <= lo,
                lo == n + lc,
                lc == self.c@.len(),
                0 < lc <= n,
                self.wf(),
                out@.len() == k,
                forall|j: int| 0 <= j < k ==> #[trigger] out@[j].ok(),
                forall|j: int| 0 <= j < k ==>
                    #[trigger] out@[j].val() == fsub(self.at(j - n), self.at(j)),
            decreases lo - k,
        {
            let e = if k < lc {
                proof {
                    assert(self.at(k as int - n) == 0);
                    assert(fsub(0, self.at(k as int)) == fneg(self.at(k as int)));
                }
                self.c[k].neg()
            } else if k < n {
                Fe::zero()
            } else {
                proof {
                    assert(self.at(k as int) == 0);
                    lemma_small_mod(self.c@[k - n].v as nat, pmod() as nat);
                }
                self.c[k - n]
            };
            out.push(e);
            k += 1;
        }
        let r = Poly { c: out };
        proof {
            assert forall|k0: int| #[trigger] r.at(k0)
                == fsub(self.at(k0 - n), self.at(k0)) by {
                if !(0 <= k0 < lo) {
                    assert(self.at(k0 - n) == 0 && self.at(k0) == 0);
                }
            }
        }
        r
    }

    /// Division with remainder by the vanishing polynomial `X^n - 1`:
    /// the returned pair satisfies, coefficient by coefficient,
    /// `self = q * (X^n - 1) + r`, with the remainder of length below `n`.
    pub fn divide_by_vanishing(&self, n: usize) -> (qr: (Poly, Poly))
        requires
            self.wf(),
            n > 0,
        ensures
            qr.0.wf(),
            qr.1.wf(),
            qr.0.len() == if self.len() > n { self.len() - n } else { 0int },
            qr.1.len() == if self.len() < n { self.len() } else { n as int },
            forall|k: int| #[trigger] self.at(k)
                == fadd(fsub(qr.0.at(k - n), qr.0.at(k)), qr.1.at(k)),
            qr.0.c@ == pquot(self.c@, n as int),
            qr.1.c@ == prem(self.c@, n as int),
    {
        let lp = self.c.len();
        let lq = if lp > n { lp - n } else { 0 };
        let lr = if lp < n { lp } else { n };
        let mut q: Vec<Fe> = Vec::new();
        let mut k: usize = 0;
        while k < lq
            invariant
                k <= lq,
                q@.len() == k,
                forall|j: int| 0 <= j < k ==> #[trigger] q@[j].ok(),
                forall|j: int| 0 <= j < k ==> #[trigger] q@[j].val() == 0,
            decreases lq - k,
        {
            q.push(Fe { v: 0 });
            k += 1;
        }
        let mut i: usize = lq;
        while i > 0
            invariant
                i <= lq,
                lq == if lp > n { lp - n } else { 0int },
                lp == self.c@.len(),
                n > 0,
                self.wf(),
                q@.len() == lq,
                forall|j: int| 0 <= j < lq ==> #[trigger] q@[j].ok(),
                forall|j: int| i <= j < lq ==>
                    #[trigger] q@[j].val() == fadd(self.at(j + n), fcoef(q@, j + n)),
            decreases i,
        {
            i -= 1;
            let hi = if i + n < lq { q[i + n] } else { Fe::zero() };
            proof {
                assert(hi.val() == fcoef(q@, i + n));
            }
            let e = self.c[i + n].add(hi);
            q.set(i, e);
            proof {
                assert forall|j: int| i <= j < lq implies
                    #[trigger] q@[j].val() == fadd(self.at(j + n), fcoef(q@, j + n)) by {
                    assert(j + n > i);
                }
            }
        }
        let mut r: Vec<Fe> = Vec::new();
        let mut k: usize = 0;
        while k < lr
            invariant
                k <= lr,
                lr == if lp < n { lp as int } else { n as int },
                lp == self.c@.len(),
                lq == q@.len(),
                lq == if lp > n { lp - n } else { 0int },
                self.wf(),
                forall|j: int| 0 <= j < lq ==> #[trigger] q@[j].ok(),
                forall|j: int| 0 <= j < lq ==>
                    #[trigger] q@[j].val() == fadd(self.at(j + n), fcoef(q@, j + n)),
                r@.len() == k,
                forall|j: int| 0 <= j < k ==> #[trigger] r@[j].ok(),
                forall|j: int| 0 <= j < k ==>
                    #[trigger] r@[j].val() == fadd(self.at(j), fcoef(q@, j)),
            decreases lr - k,
        {
            let qk = if k < lq { q[k] } else { Fe::zero() };
            proof {
                assert(qk.val() == fcoef(q@, k as int));
            }
            r.push(self.c[k].add(qk));
            k += 1;
        }
        let qq = Poly { c: q };
        let rr = Poly { c: r };
        proof {
            assert forall|k0: int| #[trigger] self.at(k0)
                == fadd(fsub(qq.at(k0 - n), qq.at(k0)), rr.at(k0)) by {
                lemma_div_vanishing_point(self.c@, qq.c@, rr.c@, n as int, k0);
            }
            assert forall|j: int| 0 <= j < qq.c@.len() implies
                qq.c@[j] == pquot(self.c@, n as int)[j] by {
                lemma_quot_at_matches(self.c@, qq.c@, n as int, j);
                vstd::arithmetic::div_mod::lemma_mod_bound(
                    fcoef(self.c@, j + n) + fcoef(qq.c@, j + n), pmod());
                assert(pquot(self.c@, n as int)[j].val() == quot_at(self.c@, n as int, j));
            }
            assert(qq.c@ =~= pquot(self.c@, n as int));
            assert forall|k0: int| 0 <= k0 < rr.c@.len() implies
                rr.c@[k0] == prem(self.c@, n as int)[k0] by {
                assert(rr.c@[k0].val() == fadd(self.at(k0), fcoef(qq.c@, k0)));
                if 0 <= k0 < qq.c@.len() {
                    lemma_quot_at_matches(self.c@, qq.c@, n as int, k0);
                } else {
                    assert(fcoef(qq.c@, k0) == 0);
                    assert(quot_at(self.c@, n as int, k0) == 0);
                }
                vstd::arithmetic::div_mod::lemma_mod_bound(
                    fcoef(self.c@, k0) + quot_at(self.c@, n as int, k0), pmod());
                assert(prem(self.c@, n as int)[k0].val()
                    == fadd(fcoef(self.c@, k0), quot_at(self.c@, n as int, k0)));
            }
            assert(rr.c@ =~= prem(self.c@, n as int));
        }
        (qq, rr)
    }

    /// Whether every stored coefficient is zero.
    pub fn is_zero(&self) -> (z: bool)
        ensures
            z == (forall|k: int| #[trigger] self.at(k) == 0),
    {
        let mut k: usize = 0;
        let mut all: bool = true;
        while k < self.c.len()
            invariant
                k <= self.c@.len(),
                all == (forall|j: int| 0 <= j < k ==> #[trigger] self.c@[j].val() == 0),
            decreases self.c@.len() - k,
        {
            let prev = all;
            let here = self.c[k].v == 0;
            all = prev && here;
            proof {
                if prev && here {
                    assert forall|j: int| 0 <= j < k + 1 implies
                        #[trigger] self.c@[j].val() == 0 by {}
                } else if !prev {
                    let w = choose|j: int| 0 <= j < k && #[trigger] self.c@[j].val() != 0;
                    assert(0 <= w < k + 1 && self.c@[w].val() != 0);
                } else {
                    assert(self.c@[k as int].val() != 0);
                }
            }
            k += 1;
        }
        proof {
            if all {
                assert forall|k0: int| #[trigger] self.at(k0) == 0 by {}
            } else {
                let w = choose|j: int| 0 <= j < self.c@.len() && #[trigger] self.c@[j].val() != 0;
                assert(self.at(w) != 0);
            }
        }
        all
    }
}

/// Horner evaluation of a coefficient vector at a point.
pub fn horner(c: &Vec<Fe>, x: Fe) -> (r: Fe)
    requires
        all_ok(c@),
        x.ok(),
    ensures
        r.ok(),
        r.val() == pval(c@, x.val()),
{
    let l = c.len();
    let mut res = Fe::zero();
    let mut k: usize = l;
    proof {
        assert(c@.subrange(l as int, l as int) =~= Seq::<Fe>::empty());
    }
    while k > 0
        invariant
            k <= l,
            l == c@.len(),
            all_ok(c@),
            x.ok(),
            res.ok(),
            res.val() == pval(c@.subrange(k as int, l as int), x.val()),
        decreases k,
    {
        k -= 1;
        res = c[k].add(x.mul(res));
        proof {
            let tail = c@.subrange(k as int + 1, l as int);
            let whole = c@.subrange(k as int, l as int);
            assert(whole[0] == c@[k as int]);
            assert(whole.subrange(1, whole.len() as int) =~= tail);
        }
    }
    proof {
        assert(c@.subrange(0, l as int) =~= c@);
    }
    res
}

/// Quotient entries built from the top down satisfy the closed form.
proof fn lemma_quot_at_matches(p: Seq<Fe>, q: Seq<Fe>, n: int, j: int)
    requires
        n >= 1,
        q.len() == if p.len() > n { p.len() - n } else { 0int },
        forall|t: int| 0 <= t < q.len() ==>
            #[trigger] q[t].val() == fadd(fcoef(p, t + n), fcoef(q, t + n)),
        0 <= j < q.len(),
    ensures
        q[j].val() == quot_at(p, n, j),
    decreases q.len() - j,
{
    if j + n < q.len() {
        lemma_quot_at_matches(p, q, n, j + n);
    } else {
        assert(quot_at(p, n, j + n) == 0);
        assert(fcoef(q, j + n) == 0);
    }
}

/// One point of the division identity, assembled from how the quotient and
/// remainder entries were built.
proof fn lemma_div_vanishing_point(p: Seq<Fe>, q: Seq<Fe>, r: Seq<Fe>, n: int, k: int)
    requires
        n > 0,
        all_ok(p),
        all_ok(q),
        q.len() == if p.len() > n { p.len() - n } else { 0int },
        r.len() == if p.len() < n { p.len() as int } else { n },
        forall|j: int| 0 <= j < q.len() ==>
            #[trigger] q[j].val() == fadd(fcoef(p, j + n), fcoef(q, j + n)),
        forall|j: int| 0 <= j < r.len() ==>
            #[trigger] r[j].val() == fadd(fcoef(p, j), fcoef(q, j)),
    ensures
        fcoef(p, k) == fadd(fsub(fcoef(q, k - n), fcoef(q, k)), fcoef(r, k)),
{
    if 0 <= k < p.len() {
        if k < n {
            // the remainder carries the low part: p[k] == -q[k] + (p[k] + q[k])
            assert(fcoef(q, k - n) == 0);
            assert(fcoef(r, k) == fadd(fcoef(p, k), fcoef(q, k)));
            lemma_cancel_low(fcoef(p, k), fcoef(q, k));
        } else {
            // the quotient relation at j = k - n
            assert(0 <= k - n < q.len());
            assert(fcoef(q, k - n) == fadd(fcoef(p, k), fcoef(q, k)));
            assert(fcoef(r, k) == 0);
            lemma_cancel_high(fcoef(p, k), fcoef(q, k));
        }
    } else {
        assert(fcoef(p, k) == 0);
        assert(fcoef(q, k - n) == 0 && fcoef(q, k) == 0 && fcoef(r, k) == 0);
    }
}

/// `(-b) + (a + b) == a` in the field, for reduced `a`.
proof fn lemma_cancel_low(a: int, b: int)
    requires
        0 <= a < pmod(),
    ensures
        fadd(fsub(0, b), fadd(a, b)) == a,
{
    vstd::arithmetic::div_mod::lemma_add_mod_noop(0 - b, a + b, pmod());
    vstd::arithmetic::div_mod::lemma_mod_twice(0 - b, pmod());
    vstd::arithmetic::div_mod::lemma_mod_twice(a + b, pmod());
    lemma_small_mod(a as nat, pmod() as nat);
}

/// `(a + b) - b == a` in the field, for reduced `a`.
proof fn lemma_cancel_high(a: int, b: int)
    requires
        0 <= a < pmod(),
    ensures
        fadd(fsub(fadd(a, b), b), 0) == a,
{
    vstd::arithmetic::div_mod::lemma_sub_mod_noop(a + b, b, pmod());
    vstd::arithmetic::div_mod::lemma_mod_twice(a + b, pmod());
    vstd::arithmetic::div_mod::lemma_mod_twice(b, pmod());
    lemma_small_mod(a as nat, pmod() as nat);
    vstd::arithmetic::div_mod::lemma_mod_twice(a + b - b, pmod());
}

} // verus!
