//! The structured reference string and the commitment scheme.
//!
//! The scheme is modeled inside the scalar field itself: the reference
//! string holds the successive powers of a setup scalar, a commitment is the
//! inner product of a polynomial's coefficients with those powers, and an
//! opening proof is the commitment to the synthetic quotient of the
//! `v`-combined polynomials by `X - z`.  This keeps the whole homomorphic
//! structure of a pairing-based scheme while every value stays a field
//! element that the verifier can reason about.

use vstd::prelude::*;

verus! {

use crate::field::{Fe, fadd, fmul, fpow, lemma_fpow_succ};
use crate::poly::{Poly, all_ok, fcoef};

/// The errors proof construction can surface.
#[derive(Clone, Copy, Debug, PartialEq, Eq, Structural)]
pub enum ProofError {
    /// The candidate quotient polynomial left a non-zero remainder.
    PolyDivision,
    /// A polynomial was longer than the reference string can commit to.
    SrsTooSmall,
}

/// A commitment: one group element, modeled as a field element.
#[derive(Clone, Copy, Debug, PartialEq, Eq, Structural)]
pub struct GAffine {
    pub x: Fe,
}

/// The inner product of the first `n` coefficients with the reference
/// string, in the field.
pub open spec fn msm(p: Seq<Fe>, s: Seq<Fe>, n: nat) -> int
    decreases n,
{
    if n == 0 {
        0
    } else {
        fadd(msm(p, s, (n - 1) as nat), fmul(fcoef(p, n - 1), fcoef(s, n - 1)))
    }
}

/// The largest stored length among the polynomials from position `i` on.
pub open spec fn max_len_from(ps: Seq<Poly>, i: int) -> int
    decreases ps.len() - i,
{
    if i < 0 || i >= ps.len() {
        0
    } else {
        let rest = max_len_from(ps, i + 1);
        if ps[i].len() >= rest {
            ps[i].len()
        } else {
            rest
        }
    }
}

/// Coefficient `k` of the combination of the polynomials from position `i`
/// on by powers of `v`: `p_i + v * (p_{i+1} + v * (...))`.
pub open spec fn combo_from(ps: Seq<Poly>, v: int, k: int, i: int) -> int
    decreases ps.len() - i,
{
    if i < 0 || i >= ps.len() {
        0
    } else {
        fadd(ps[i].at(k), fmul(v, combo_from(ps, v, k, i + 1)))
    }
}

/// Every polynomial well formed.
pub open spec fn all_wf(ps: Seq<Poly>) -> bool {
    forall|i: int| 0 <= i < ps.len() ==> ps[i].wf()
}

/// Coefficient `k` of the synthetic quotient by `X - z` of the combined
/// polynomial of stored length `l`.
pub open spec fn quot_coef(ps: Seq<Poly>, v: int, z: int, l: int, k: int) -> int
    decreases l - k,
{
    if 0 <= k < l - 1 {
        fadd(combo_from(ps, v, k + 1, 0), fmul(z, quot_coef(ps, v, z, l, k + 1)))
    } else {
        0
    }
}

/// The value of an opening proof: the inner product of the quotient's
/// first `n` coefficients with the reference string.
pub open spec fn open_sum(s: Seq<Fe>, ps: Seq<Poly>, v: int, z: int, l: int, n: nat) -> int
    decreases n,
{
    if n == 0 {
        0
    } else {
        fadd(
            open_sum(s, ps, v, z, l, (n - 1) as nat),
            fmul(quot_coef(ps, v, z, l, n - 1), fcoef(s, n - 1)),
        )
    }
}

/// The views of a batch of polynomials.
pub open spec fn views_of(ps: Seq<Poly>) -> Seq<Seq<Fe>> {
    Seq::new(ps.len(), |i: int| ps[i].c@)
}

/// The largest length among coefficient sequences from position `i` on.
pub open spec fn vmax_from(pss: Seq<Seq<Fe>>, i: int) -> int
    decreases pss.len() - i,
{
    if i < 0 || i >= pss.len() {
        0
    } else {
        let rest = vmax_from(pss, i + 1);
        if pss[i].len() >= rest { pss[i].len() as int } else { rest }
    }
}

/// Coefficient `k` of the `v`-combination of coefficient sequences.
pub open spec fn vcombo_from(pss: Seq<Seq<Fe>>, v: int, k: int, i: int) -> int
    decreases pss.len() - i,
{
    if i < 0 || i >= pss.len() {
        0
    } else {
        fadd(fcoef(pss[i], k), fmul(v, vcombo_from(pss, v, k, i + 1)))
    }
}

/// Coefficient `k` of the synthetic quotient of the combination by `X - z`.
pub open spec fn vquot_coef(pss: Seq<Seq<Fe>>, v: int, z: int, l: int, k: int) -> int
    decreases l - k,
{
    if 0 <= k < l - 1 {
        fadd(vcombo_from(pss, v, k + 1, 0), fmul(z, vquot_coef(pss, v, z, l, k + 1)))
    } else {
        0
    }
}

/// The opening sum over coefficient sequences.
pub open spec fn vopen_sum(s: Seq<Fe>, pss: Seq<Seq<Fe>>, v: int, z: int, l: int, n: nat)
    -> int
    decreases n,
{
    if n == 0 {
        0
    } else {
        fadd(
            vopen_sum(s, pss, v, z, l, (n - 1) as nat),
            fmul(vquot_coef(pss, v, z, l, n - 1), fcoef(s, n - 1)),
        )
    }
}

/// The value of an opening proof, over coefficient sequences alone.
pub open spec fn vopen_val(s: Seq<Fe>, pss: Seq<Seq<Fe>>, v: int, z: int) -> int {
    vopen_sum(s, pss, v, z, vmax_from(pss, 0),
        (if vmax_from(pss, 0) > 0 { vmax_from(pss, 0) - 1 } else { 0int }) as nat)
}

/// The two maximum-length readings agree.
pub proof fn lemma_vmax(ps: Seq<Poly>, i: int)
    ensures
        vmax_from(views_of(ps), i) == max_len_from(ps, i),
    decreases ps.len() - i,
{
    if 0 <= i < ps.len() {
        lemma_vmax(ps, i + 1);
        assert(views_of(ps)[i] == ps[i].c@);
    }
}

/// The two combination readings agree.
pub proof fn lemma_vcombo(ps: Seq<Poly>, v: int, k: int, i: int)
    ensures
        vcombo_from(views_of(ps), v, k, i) == combo_from(ps, v, k, i),
    decreases ps.len() - i,
{
    if 0 <= i < ps.len() {
        lemma_vcombo(ps, v, k, i + 1);
        assert(views_of(ps)[i] == ps[i].c@);
        assert(fcoef(ps[i].c@, k) == ps[i].at(k));
    }
}

/// The two quotient readings agree.
pub proof fn lemma_vquot(ps: Seq<Poly>, v: int, z: int, l: int, k: int)
    ensures
        vquot_coef(views_of(ps), v, z, l, k) == quot_coef(ps, v, z, l, k),
    decreases l - k,
{
    if 0 <= k < l - 1 {
        lemma_vquot(ps, v, z, l, k + 1);
        lemma_vcombo(ps, v, k + 1, 0);
    }
}

/// The two opening sums agree.
pub proof fn lemma_vopen(s: Seq<Fe>, ps: Seq<Poly>, v: int, z: int, l: int, n: nat)
    ensures
        vopen_sum(s, views_of(ps), v, z, l, n) == open_sum(s, ps, v, z, l, n),
    decreases n,
{
    if n > 0 {
        lemma_vopen(s, ps, v, z, l, (n - 1) as nat);
        lemma_vquot(ps, v, z, l, n - 1);
    }
}

/// The structured reference string: the powers of the setup scalar.
#[derive(Clone, Debug)]
pub struct Srs {
    pub powers: Vec<Fe>,
}

impl Srs {
    /// All powers reduced.
    pub open spec fn wf(self) -> bool {
        all_ok(self.powers@)
    }

    /// How many coefficients the string can commit to.
    pub open spec fn depth(self) -> int {
        self.powers@.len() as int
    }

    /// The commitment value of a coefficient vector that fits.
    pub open spec fn commit_val(self, p: Seq<Fe>) -> int {
        msm(p, self.powers@, p.len())
    }

    /// The reference string of the given depth for a setup scalar.
    pub fn create(tau: Fe, depth: usize) -> (r: Srs)
        requires
            tau.ok(),
        ensures
            r.wf(),
            r.powers@.len() == depth,
            forall|i: int| 0 <= i < depth ==>
                #[trigger] r.powers@[i].val() == fpow(tau.val(), i as nat),
    {
        let mut powers: Vec<Fe> = Vec::new();
        let mut wi = Fe::one();
        let mut i: usize = 0;
        while i < depth
            invariant
                i <= depth,
                tau.ok(),
                wi.ok(),
                wi.val() == fpow(tau.val(), i as nat),
                powers@.len() == i,
                forall|j: int| 0 <= j < i ==> #[trigger] powers@[j].ok(),
                forall|j: int| 0 <= j < i ==>
                    #[trigger] powers@[j].val() == fpow(tau.val(), j as nat),
            decreases depth - i,
        {
            powers.push(wi);
            proof {
                lemma_fpow_succ(tau.val(), i as nat);
            }
            wi = wi.mul(tau);
            i += 1;
        }
        Srs { powers }
    }

    /// The commitment to a polynomial: its inner product with the string.
    /// Fails exactly when the polynomial is longer than the string.
    pub fn commit(&self, p: &Poly) -> (r: Result<GAffine, ProofError>)
        requires
            self.wf(),
            p.wf(),
        ensures
            r is Ok <==> p.len() <= self.depth(),
            r is Ok ==> r.unwrap().x.ok()
                && r.unwrap().x.val() == self.commit_val(p.c@),
            r is Err ==> r.unwrap_err() == ProofError::SrsTooSmall,
    {
        if p.c.len() > self.powers.len() {
            return Err(ProofError::SrsTooSmall);
        }
        let mut acc = Fe::zero();
        let mut k: usize = 0;
        while k < p.c.len()
            invariant
                k <= p.c@.len(),
                p.c@.len() <= self.powers@.len(),
                self.wf(),
                p.wf(),
                acc.ok(),
                acc.val() == msm(p.c@, self.powers@, k as nat),
            decreases p.c@.len() - k,
        {
            proof {
                assert(fcoef(p.c@, k as int) == p.c@[k as int].val());
                assert(fcoef(self.powers@, k as int) == self.powers@[k as int].val());
            }
            acc = acc.add(p.c[k].mul(self.powers[k]));
            k += 1;
        }
        Ok(GAffine { x: acc })
    }

    /// One aggregated opening proof for a batch of polynomials at a point:
    /// the commitment to the synthetic quotient by `X - z` of the
    /// combination of the batch by powers of `v`.  Fails exactly when that
    /// quotient is longer than the string.
    pub fn open(&self, polys: &Vec<Poly>, v: Fe, z: Fe) -> (r: Result<GAffine, ProofError>)
        requires
            self.wf(),
            all_wf(polys@),
            v.ok(),
            z.ok(),
            max_len_from(polys@, 0) < usize::MAX,
        ensures
            r is Ok <==> max_len_from(polys@, 0) - 1 <= self.depth(),
            r is Ok ==> r.unwrap().x.ok()
                && r.unwrap().x.val() == open_sum(
                    self.powers@, polys@, v.val(), z.val(),
                    max_len_from(polys@, 0),
                    (if max_len_from(polys@, 0) > 0 {
                        max_len_from(polys@, 0) - 1
                    } else {
                        0int
                    }) as nat),
            r is Err ==> r.unwrap_err() == ProofError::SrsTooSmall,
    {
        let m = polys.len();
        // combine the batch by powers of v, last to first
        let mut acc = Poly::new_zero();
        let mut i: usize = m;
        proof {
            assert(max_len_from(polys@, m as int) == 0);
        }
        while i > 0
            invariant
                i <= m,
                m == polys@.len(),
                all_wf(polys@),
                v.ok(),
                acc.wf(),
                max_len_from(polys@, 0) < usize::MAX,
                acc.len() == max_len_from(polys@, i as int),
                forall|k: int| #[trigger] acc.at(k) == combo_from(polys@, v.val(), k, i as int),
            decreases i,
        {
            i -= 1;
            proof {
                lemma_max_len_from_bound(polys@, i as int);
            }
            let scaled = acc.scale(v);
            acc = scaled.add(&polys[i]);
            proof {
                assert forall|k: int| #[trigger] acc.at(k)
                    == combo_from(polys@, v.val(), k, i as int) by {
                    assert(acc.at(k) == fadd(scaled.at(k), polys@[i as int].at(k)));
                    assert(scaled.at(k) == fmul(combo_from(polys@, v.val(), k, i as int + 1), v.val()));
                    assert(fmul(combo_from(polys@, v.val(), k, i as int + 1), v.val())
                        == fmul(v.val(), combo_from(polys@, v.val(), k, i as int + 1)));
                    crate::field::lemma_fadd_comm(polys@[i as int].at(k),
                        fmul(v.val(), combo_from(polys@, v.val(), k, i as int + 1)));
                }
            }
        }
        let lw = acc.c.len();
        let ghost lg = max_len_from(polys@, 0);
        // synthetic division of the combination by X - z
        let lq = if lw > 0 { lw - 1 } else { 0 };
        let mut q: Vec<Fe> = Vec::new();
        let mut k: usize = 0;
        while k < lq
            invariant
                k <= lq,
                q@.len() == k,
                forall|j: int| 0 <= j < k ==> #[trigger] q@[j].ok(),
                forall|j: int| 0 <= j < k ==> #[trigger] q@[j].val() == 0,
            decreases lq - k,
        {
            q.push(Fe { v: 0 });
            k += 1;
        }
        let mut j: usize = lq;
        while j > 0
            invariant
                j <= lq,
                lq == if lw > 0 { lw - 1 } else { 0int },
                lw == acc.c@.len(),
                lw == lg,
                acc.wf(),
                z.ok(),
                forall|k: int| #[trigger] acc.at(k) == combo_from(polys@, v.val(), k, 0),
                q@.len() == lq,
                forall|k0: int| 0 <= k0 < lq ==> #[trigger] q@[k0].ok(),
                forall|k0: int| j <= k0 < lq ==>
                    #[trigger] q@[k0].val() == quot_coef(polys@, v.val(), z.val(), lg, k0),
            decreases j,
        {
            j -= 1;
            let hi = if j + 1 < lq { q[j + 1] } else { Fe::zero() };
            proof {
                if j + 1 < lq {
                    assert(hi.val() == quot_coef(polys@, v.val(), z.val(), lg, j + 1));
                } else {
                    assert(quot_coef(polys@, v.val(), z.val(), lg, j + 1) == 0);
                }
                assert(acc.at(j + 1) == combo_from(polys@, v.val(), j + 1, 0));
            }
            let e = acc.c[j + 1].add(z.mul(hi));
            q.set(j, e);
        }
        let qp = Poly { c: q };
        let out = self.commit(&qp);
        proof {
            lemma_msm_is_open_sum(
                qp.c@, self.powers@, polys@, v.val(), z.val(), lg, lq as nat);
        }
        out
    }
}

/// Inner products stay reduced.
pub proof fn lemma_msm_range(p: Seq<Fe>, s: Seq<Fe>, n: nat)
    ensures
        0 <= msm(p, s, n) < crate::field::pmod(),
    decreases n,
{
    if n == 0 {
    } else {
        lemma_msm_range(p, s, (n - 1) as nat);
        vstd::arithmetic::div_mod::lemma_mod_bound(
            msm(p, s, (n - 1) as nat) + fmul(fcoef(p, n - 1), fcoef(s, n - 1)),
            crate::field::pmod());
    }
}

/// Rows past the stored coefficients add nothing to the inner product.
pub proof fn lemma_msm_extend(p: Seq<Fe>, s: Seq<Fe>, n: nat)
    requires
        n >= p.len(),
    ensures
        msm(p, s, n) == msm(p, s, p.len()),
    decreases n,
{
    if n == p.len() {
    } else {
        lemma_msm_extend(p, s, (n - 1) as nat);
        assert(fcoef(p, n - 1) == 0);
        lemma_msm_range(p, s, (n - 1) as nat);
        vstd::arithmetic::div_mod::lemma_small_mod(
            msm(p, s, (n - 1) as nat) as nat, crate::field::pmod() as nat);
    }
}

/// The commitment scheme is homomorphic for the chunked quotient: if a
/// polynomial is, coefficient by coefficient, the combination
/// `low + u2 * mid + u3 * high`, then its inner product with the reference
/// string is the same combination of the three chunk inner products.  This
/// is the round trip behind splitting the quotient: recombining the three
/// chunk commitments with `u2 = zeta^n` and `u3 = zeta^(2n)` yields the
/// commitment of the combined polynomial handed to `open`.
pub proof fn lemma_msm_recombine(
    s: Seq<Fe>, tl: Seq<Fe>, tm: Seq<Fe>, th: Seq<Fe>, t: Seq<Fe>, u2: int, u3: int, n: nat)
    requires
        forall|k: int| 0 <= k < n ==> #[trigger] fcoef(t, k)
            == fadd(fadd(fcoef(tl, k), fmul(fcoef(tm, k), u2)), fmul(fcoef(th, k), u3)),
    ensures
        msm(t, s, n) == fadd(
            fadd(msm(tl, s, n), fmul(msm(tm, s, n), u2)),
            fmul(msm(th, s, n), u3)),
    decreases n,
{
    if n == 0 {
        assert(0 * u2 == 0);
        assert(0 * u3 == 0);
        assert(fmul(0, u2) == 0);
        assert(fmul(0, u3) == 0);
    } else {
        lemma_msm_recombine(s, tl, tm, th, t, u2, u3, (n - 1) as nat);
        let k = n - 1;
        let sk = fcoef(s, k);
        let lk = fcoef(tl, k);
        let mk = fcoef(tm, k);
        let hk = fcoef(th, k);
        let ml = msm(tl, s, (n - 1) as nat);
        let mm = msm(tm, s, (n - 1) as nat);
        let mh = msm(th, s, (n - 1) as nat);
        // the new term splits into the three chunk terms
        crate::field::lemma_fmul_fadd_dist(fadd(lk, fmul(mk, u2)), fmul(hk, u3), sk);
        crate::field::lemma_fmul_fadd_dist(lk, fmul(mk, u2), sk);
        crate::field::lemma_fmul_assoc(mk, u2, sk);
        crate::field::lemma_fmul_assoc(mk, sk, u2);
        assert(fmul(u2, sk) == fmul(sk, u2));
        crate::field::lemma_fmul_assoc(hk, u3, sk);
        crate::field::lemma_fmul_assoc(hk, sk, u3);
        assert(fmul(u3, sk) == fmul(sk, u3));
        assert(fmul(fcoef(t, k), sk) == fadd(
            fadd(fmul(lk, sk), fmul(fmul(mk, sk), u2)),
            fmul(fmul(hk, sk), u3)));
        // the scaled running sums absorb their new terms
        crate::field::lemma_fmul_fadd_dist(mm, fmul(mk, sk), u2);
        crate::field::lemma_fmul_fadd_dist(mh, fmul(hk, sk), u3);
        // flatten both sides into one sum modulo the field
        let xl = fmul(lk, sk);
        let xm = fmul(fmul(mk, sk), u2);
        let xh = fmul(fmul(hk, sk), u3);
        let mm2 = fmul(mm, u2);
        let mh3 = fmul(mh, u3);
        lemma_fadd_flat3(ml, mm2, mh3);
        lemma_fadd_flat3(xl, xm, xh);
        crate::field::lemma_fadd_noop(ml + mm2 + mh3, xl + xm + xh);
        crate::field::lemma_fadd_noop(ml + mm2 + mh3, (xl + xm + xh) % crate::field::pmod());
        lemma_fadd_flat3(fadd(ml, xl), fadd(mm2, xm), fadd(mh3, xh));
        crate::field::lemma_fadd_noop(ml + xl, mm2 + xm);
        crate::field::lemma_fadd_noop(ml + xl, (mm2 + xm) % crate::field::pmod());
        crate::field::lemma_fadd_noop((ml + xl) + (mm2 + xm), mh3 + xh);
        crate::field::lemma_fadd_noop((ml + xl) + (mm2 + xm),
            (mh3 + xh) % crate::field::pmod());
        crate::field::lemma_fadd_noop(((ml + xl) + (mm2 + xm)) % crate::field::pmod(),
            mh3 + xh);
    }
}

/// Chunked-commitment round trip, at the level of commitments: when a
/// polynomial is the pointwise combination `low + u2 * mid + u3 * high` of
/// three chunks it can hold, its commitment value is the same combination of
/// the three chunk commitment values.
pub proof fn lemma_commit_chunks(
    srs: Srs, tl: Poly, tm: Poly, th: Poly, t: Poly, u2: int, u3: int)
    requires
        forall|k: int| #[trigger] t.at(k)
            == fadd(fadd(tl.at(k), fmul(tm.at(k), u2)), fmul(th.at(k), u3)),
        tl.len() <= t.len(),
        tm.len() <= t.len(),
        th.len() <= t.len(),
    ensures
        srs.commit_val(t.c@) == fadd(
            fadd(srs.commit_val(tl.c@), fmul(srs.commit_val(tm.c@), u2)),
            fmul(srs.commit_val(th.c@), u3)),
{
    let n = t.c@.len();
    assert forall|k: int| 0 <= k < n implies #[trigger] fcoef(t.c@, k)
        == fadd(fadd(fcoef(tl.c@, k), fmul(fcoef(tm.c@, k), u2)),
            fmul(fcoef(th.c@, k), u3)) by {
        assert(t.at(k) == fadd(fadd(tl.at(k), fmul(tm.at(k), u2)), fmul(th.at(k), u3)));
    }
    lemma_msm_extend(tl.c@, srs.powers@, n);
    lemma_msm_extend(tm.c@, srs.powers@, n);
    lemma_msm_extend(th.c@, srs.powers@, n);
    lemma_msm_recombine(srs.powers@, tl.c@, tm.c@, th.c@, t.c@, u2, u3, n);
}

/// The flattened form of a three-term field sum.
proof fn lemma_fadd_flat3(a: int, b: int, c: int)
    ensures
        fadd(fadd(a, b), c) == (a + b + c) % crate::field::pmod(),
{
    crate::field::lemma_fadd_noop(a + b, c);
}

/// The head never exceeds the running maximum.
pub proof fn lemma_max_len_from_bound(ps: Seq<Poly>, i: int)
    requires
        0 <= i < ps.len(),
    ensures
        ps[i].len() <= max_len_from(ps, i),
        max_len_from(ps, i + 1) <= max_len_from(ps, i),
{
}

/// An inner product over coefficients that agree with the quotient
/// coefficients is the opening sum.
proof fn lemma_msm_is_open_sum(
    qc: Seq<Fe>, s: Seq<Fe>, ps: Seq<Poly>, v: int, z: int, l: int, n: nat)
    requires
        n <= qc.len(),
        forall|k0: int| 0 <= k0 < qc.len() ==>
            #[trigger] qc[k0].val() == quot_coef(ps, v, z, l, k0),
    ensures
        msm(qc, s, n) == open_sum(s, ps, v, z, l, n),
    decreases n,
{
    if n == 0 {
    } else {
        lemma_msm_is_open_sum(qc, s, ps, v, z, l, (n - 1) as nat);
        assert(fcoef(qc, n - 1) == qc[n - 1].val());
    }
}

} // verus!
