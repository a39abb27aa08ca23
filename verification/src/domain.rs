//! The multiplicative evaluation domain.
//!
//! A domain is a subgroup of the field's multiplicative group of order
//! `size`, generated by `gen`, together with the inverses that interpolation
//! needs.  Interpolation from values on the domain is the inverse discrete
//! Fourier transform: coefficient `i` is `size_inv` times the evaluation of
//! the value vector at `gen_inv^i`.

use vstd::prelude::*;

verus! {

use vstd::arithmetic::div_mod::{lemma_small_mod, lemma_mod_bound, lemma_mul_mod_noop_general};
use crate::field::{Fe, pmod, fmul, fpow, lemma_fmul_assoc, lemma_fpow_succ};
use crate::poly::{Poly, all_ok, fe_of, pval, horner};

/// The inverse-transform coefficients of a value column over a domain.
pub open spec fn interp_spec(e: Seq<Fe>, d: Domain) -> Seq<Fe> {
    Seq::new(e.len(), |i: int|
        fe_of(fmul(pval(e, fpow(d.gen_inv.val(), i as nat)), d.size_inv.val())))
}

/// Whether a count is a power of two.
pub open spec fn is_pow2(n: nat) -> bool
    decreases n,
{
    if n <= 1 {
        n == 1
    } else if n % 2 == 1 {
        false
    } else {
        is_pow2(n / 2)
    }
}

/// A multiplicative subgroup of the field, of order `size`.
#[derive(Clone, Copy, Debug)]
pub struct Domain {
    pub size: usize,
    pub gen: Fe,
    pub gen_inv: Fe,
    pub size_inv: Fe,
}

impl Domain {
    /// The generator and the stored inverses belong together, and the order
    /// is small enough for every derived length to fit a machine word.
    pub open spec fn wf(self) -> bool {
        &&& 0 < self.size <= 0x4000000
        &&& self.gen.ok()
        &&& self.gen_inv.ok()
        &&& self.size_inv.ok()
        &&& fmul(self.gen.val(), self.gen_inv.val()) == 1
        &&& fmul(self.size as int, self.size_inv.val()) == 1
        &&& fpow(self.gen.val(), self.size as nat) == 1
    }

    /// A domain from a generator and a power-of-two order.  The generator's
    /// inverse is its `size - 1` power, sound once the checked order
    /// confirms `gen^size == 1`; the order's inverse is built by halving the
    /// order against the precomputed inverse of two, so the construction
    /// succeeds exactly when the order is an in-range power of two whose
    /// generator passes the order check.
    pub fn new(gen: Fe, size: usize) -> (r: Option<Domain>)
        requires
            gen.ok(),
        ensures
            r is Some ==> r.unwrap().wf() && r.unwrap().size == size
                && r.unwrap().gen == gen,
            0 < size <= 0x4000000 && is_pow2(size as nat)
                && fpow(gen.val(), size as nat) == 1 ==> r is Some,
    {
        if size == 0 || size > 0x4000000 {
            return None;
        }
        let c3 = gen.pow(size as u64);
        if c3.v != 1 {
            return None;
        }
        let gi = gen.pow((size - 1) as u64);
        proof {
            assert(fpow(gen.val(), size as nat)
                == fmul(gen.val(), fpow(gen.val(), (size - 1) as nat)));
        }
        // 1006632961 is the inverse of two: 2 * 1006632961 == P + 1
        let inv2 = Fe { v: 1006632961 };
        let mut s = size;
        let mut si = Fe::one();
        proof {
            lemma_small_mod(size as nat, 2013265921nat);
            assert(fmul(size as int, 1) == size as int);
        }
        while s > 1
            invariant
                1 <= s <= size,
                size <= 0x4000000,
                si.ok(),
                inv2.v == 1006632961,
                fmul(size as int, si.val()) == s as int,
                is_pow2(size as nat) == is_pow2(s as nat),
            decreases s,
        {
            if s % 2 == 1 {
                return None;
            }
            let ghost s0 = s as int;
            let ghost si0 = si.val();
            si = si.mul(inv2);
            s = s / 2;
            proof {
                assert(fmul(2, inv2.val()) == 1);
                // size * (si * inv2) == (size * si) * inv2 == s0 * inv2
                lemma_fmul_assoc(size as int, si0, inv2.val());
                assert(s0 == 2 * (s0 / 2));
                assert(s0 * inv2.val() == (s0 / 2) * (2 * inv2.val())) by (nonlinear_arith)
                    requires s0 == 2 * (s0 / 2);
                lemma_mul_mod_noop_general(s0 / 2, 2 * inv2.val(), pmod());
                lemma_mul_mod_noop_general(s0, inv2.val(), pmod());
                lemma_small_mod((s0 / 2) as nat, 2013265921nat);
                assert(fmul(s0, inv2.val()) == s0 / 2);
            }
        }
        Some(Domain { size, gen, gen_inv: gi, size_inv: si })
    }
}

/// The polynomial of degree below `evals.len()` whose coefficients are the
/// inverse discrete Fourier transform of the given values on the domain:
/// coefficient `i` is `size_inv * sum_j evals[j] * gen_inv^(i*j)`, read here
/// through Horner evaluation at `gen_inv^i`.
pub fn interpolate(evals: &Vec<Fe>, d: &Domain) -> (r: Poly)
    requires
        all_ok(evals@),
        d.wf(),
    ensures
        r.wf(),
        r.len() == evals@.len(),
        forall|i: int| 0 <= i < evals@.len() ==>
            #[trigger] r.at(i)
                == fmul(pval(evals@, fpow(d.gen_inv.val(), i as nat)), d.size_inv.val()),
        r.c@ == interp_spec(evals@, *d),
{
    let mut out: Vec<Fe> = Vec::new();
    let mut wi = Fe::one();
    let mut i: usize = 0;
    while i < evals.len()
        invariant
            i <= evals@.len(),
            all_ok(evals@),
            d.wf(),
            wi.ok(),
            wi.val() == fpow(d.gen_inv.val(), i as nat),
            out@.len() == i,
            forall|j: int| 0 <= j < i ==> #[trigger] out@[j].ok(),
            forall|j: int| 0 <= j < i ==> #[trigger] out@[j].val()
                == fmul(pval(evals@, fpow(d.gen_inv.val(), j as nat)), d.size_inv.val()),
        decreases evals@.len() - i,
    {
        let s = horner(evals, wi);
        out.push(s.mul(d.size_inv));
        proof {
            lemma_fpow_succ(d.gen_inv.val(), i as nat);
        }
        wi = wi.mul(d.gen_inv);
        i += 1;
    }
    let ghost oc = out@;
    let r = Poly { c: out };
    proof {
        assert forall|i0: int| 0 <= i0 < evals@.len() implies
            #[trigger] r.at(i0)
                == fmul(pval(evals@, fpow(d.gen_inv.val(), i0 as nat)), d.size_inv.val()) by {
            assert(r.c@ == oc);
            assert(oc[i0].val()
                == fmul(pval(evals@, fpow(d.gen_inv.val(), i0 as nat)), d.size_inv.val()));
        }
        assert forall|i0: int| 0 <= i0 < r.c@.len() implies
            r.c@[i0] == interp_spec(evals@, *d)[i0] by {
            lemma_mod_bound(
                pval(evals@, fpow(d.gen_inv.val(), i0 as nat)) * d.size_inv.val(), pmod());
            assert(r.at(i0)
                == fmul(pval(evals@, fpow(d.gen_inv.val(), i0 as nat)), d.size_inv.val()));
            assert(interp_spec(evals@, *d)[i0].val()
                == fmul(pval(evals@, fpow(d.gen_inv.val(), i0 as nat)), d.size_inv.val()));
        }
        assert(r.c@ =~= interp_spec(evals@, *d));
    }
    r
}

} // verus!
