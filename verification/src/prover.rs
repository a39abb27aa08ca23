//! The prover pipeline.
//!
//! From a witness, a preprocessed circuit and nine blinding scalars, `create`
//! builds the non-interactive argument: the blinded wire polynomials and
//! their commitments, the grand-product permutation polynomial, the quotient
//! of the combined constraint polynomial by the vanishing polynomial of the
//! domain, the linearization polynomial and its evaluation, and the two
//! aggregated opening proofs, with the challenges
//! `beta, gamma, alpha, zeta, v` squeezed from the transcript sponge in that
//! fixed order.

use vstd::prelude::*;

verus! {

use crate::field::{Fe, fadd, fsub, fmul, fdiv, fpow, pmod, batch_inversion};
use crate::gate::CircuitGate;
use crate::poly::{Poly, all_ok, fcoef, fe_of, pval, padd, psub, pscale, pmul, pquot, prem, divides_vanishing};
use crate::domain::{Domain, interpolate, interp_spec};
use crate::sponge::{FqSponge, SpongeParams};
use crate::srs::{Srs, GAffine, ProofError};

/// The preprocessed circuit: domain, selector and permutation polynomials,
/// identity and permutation evaluations, coset scalars, public input count,
/// sponge constants and the reference string.
pub struct Index {
    /// The rows of the circuit, one gate per element of the domain.
    pub gates: Vec<CircuitGate>,
    /// The evaluation domain `H`.
    pub domain: Domain,
    /// The identity evaluations on `H`: `sid[j] = gen^j`.
    pub sid: Vec<Fe>,
    /// The three columns of permutation evaluations on `H`.
    pub sigma_evals: Vec<Vec<Fe>>,
    /// The three permutation polynomials.
    pub sigma: Vec<Poly>,
    /// The five selector polynomials.
    pub ql: Poly,
    pub qr: Poly,
    pub qo: Poly,
    pub qm: Poly,
    pub qc: Poly,
    /// The first coset scalar, `k1`.
    pub r: Fe,
    /// The second coset scalar, `k2`.
    pub o: Fe,
    /// How many leading witness entries are public.
    pub public: usize,
    /// The constants of the transcript sponge.
    pub fq_sponge_params: SpongeParams,
    /// The reference string commitments are made against.
    pub srs: Srs,
}

impl Index {
    /// Shape and reduction of every part.  At least three rows are demanded
    /// only because the degree-two permutation blinder must fit under the
    /// vanishing polynomial without overlapping itself; the excluded one-
    /// and two-row domains carry no usable circuit.
    pub open spec fn wf(self) -> bool {
        &&& self.domain.wf()
        &&& 3 <= self.domain.size
        &&& self.gates@.len() == self.domain.size
        &&& forall|j: int| 0 <= j < self.gates@.len() ==> (#[trigger] self.gates@[j]).wf()
            && self.gates@[j].l.0 < self.domain.size
            && self.gates@[j].r.0 < self.domain.size
            && self.gates@[j].o.0 < self.domain.size
        &&& self.sid@.len() == self.domain.size
        &&& all_ok(self.sid@)
        &&& self.sigma_evals@.len() == 3
        &&& forall|i: int| 0 <= i < 3 ==> (#[trigger] self.sigma_evals@[i])@.len()
            == self.domain.size && all_ok(self.sigma_evals@[i]@)
        &&& self.sigma@.len() == 3
        &&& forall|i: int| 0 <= i < 3 ==> (#[trigger] self.sigma@[i]).wf()
            && self.sigma@[i].len() <= self.domain.size
        &&& self.ql.wf() && self.ql.len() <= self.domain.size
        &&& self.qr.wf() && self.qr.len() <= self.domain.size
        &&& self.qo.wf() && self.qo.len() <= self.domain.size
        &&& self.qm.wf() && self.qm.len() <= self.domain.size
        &&& self.qc.wf() && self.qc.len() <= self.domain.size
        &&& self.r.ok()
        &&& self.o.ok()
        &&& self.public <= self.domain.size
        &&& self.fq_sponge_params.wf()
        &&& self.srs.wf()
    }
}

/// The evaluations the proof carries: the wire and permutation polynomials
/// and the linearization polynomial at `zeta`, and `z` at `zeta * gen`.
#[derive(Clone, Copy, Debug, PartialEq, Eq, Structural)]
pub struct ProofEvaluations {
    pub a: Fe,
    pub b: Fe,
    pub c: Fe,
    pub sigma1: Fe,
    pub sigma2: Fe,
    pub r: Fe,
    pub z: Fe,
}

impl ProofEvaluations {
    /// All evaluations reduced.
    pub open spec fn wf(self) -> bool {
        self.a.ok() && self.b.ok() && self.c.ok() && self.sigma1.ok() && self.sigma2.ok()
            && self.r.ok() && self.z.ok()
    }

    /// All evaluations zero.
    pub fn zero() -> (e: ProofEvaluations)
        ensures
            e.wf(),
            e.a.val() == 0 && e.b.val() == 0 && e.c.val() == 0,
            e.sigma1.val() == 0 && e.sigma2.val() == 0,
            e.r.val() == 0 && e.z.val() == 0,
    {
        ProofEvaluations {
            a: Fe::zero(),
            b: Fe::zero(),
            c: Fe::zero(),
            sigma1: Fe::zero(),
            sigma2: Fe::zero(),
            r: Fe::zero(),
            z: Fe::zero(),
        }
    }
}

/// The transcript challenges, written once each in the order
/// `beta, gamma, alpha, zeta, v`.
#[derive(Clone, Copy, Debug, PartialEq, Eq, Structural)]
pub struct RandomOracles {
    pub beta: Fe,
    pub gamma: Fe,
    pub alpha: Fe,
    pub zeta: Fe,
    pub v: Fe,
}

impl RandomOracles {
    /// All challenges zero, before the transcript writes them.
    pub fn zero() -> (o: RandomOracles)
        ensures
            o.beta.val() == 0 && o.gamma.val() == 0 && o.alpha.val() == 0,
            o.zeta.val() == 0 && o.v.val() == 0,
    {
        RandomOracles {
            beta: Fe::zero(),
            gamma: Fe::zero(),
            alpha: Fe::zero(),
            zeta: Fe::zero(),
            v: Fe::zero(),
        }
    }
}

/// The assembled proof: seven commitments, two opening proofs, the carried
/// evaluations, and the public input slice, published verbatim.
#[derive(Clone, Debug)]
pub struct ProverProof {
    pub a_comm: GAffine,
    pub b_comm: GAffine,
    pub c_comm: GAffine,
    pub z_comm: GAffine,
    pub tlow_comm: GAffine,
    pub tmid_comm: GAffine,
    pub thgh_comm: GAffine,
    pub proof1: GAffine,
    pub proof2: GAffine,
    pub evals: ProofEvaluations,
    pub public: Vec<Fe>,
}

impl ProverProof {
    /// Every carried value reduced.
    pub open spec fn wf(self) -> bool {
        &&& self.a_comm.x.ok() && self.b_comm.x.ok() && self.c_comm.x.ok()
        &&& self.z_comm.x.ok() && self.tlow_comm.x.ok() && self.tmid_comm.x.ok()
        &&& self.thgh_comm.x.ok()
        &&& self.proof1.x.ok() && self.proof2.x.ok()
        &&& self.evals.wf()
        &&& all_ok(self.public@)
    }
}

/// The left wire column over the domain: `w[gate_j.l]` at row `j`.
pub open spec fn wire_l_spec(index: Index, w: Seq<Fe>) -> Seq<Fe> {
    Seq::new(index.gates@.len(), |j: int| w[index.gates@[j].l.0 as int])
}

/// The right wire column scaled by the first coset scalar.
pub open spec fn wire_r_spec(index: Index, w: Seq<Fe>) -> Seq<Fe> {
    Seq::new(index.gates@.len(), |j: int|
        (Fe { v: fmul(index.r.val(), w[index.gates@[j].r.0 as int].val()) as u64 }))
}

/// The output wire column scaled by the second coset scalar.
pub open spec fn wire_o_spec(index: Index, w: Seq<Fe>) -> Seq<Fe> {
    Seq::new(index.gates@.len(), |j: int|
        (Fe { v: fmul(index.o.val(), w[index.gates@[j].o.0 as int].val()) as u64 }))
}

/// A polynomial blinded under the vanishing polynomial: the coefficients of
/// `p + (bl_0 + bl_1 X + ...) * (X^n - 1)`, for `p` of length `n`.
pub open spec fn blinded_spec(p: Seq<Fe>, bl: Seq<Fe>, n: int) -> Seq<Fe> {
    Seq::new((n + bl.len()) as nat, |k: int|
        (Fe { v: fadd(fcoef(p, k), fsub(fcoef(bl, k - n), fcoef(bl, k))) as u64 }))
}

/// The two blinder coefficients of the left wire polynomial, low degree
/// first, as the rounds consume them.
pub open spec fn blinders_a(b: Seq<Fe>) -> Seq<Fe> {
    seq![b[1], b[0]]
}

/// The two blinder coefficients of the right wire polynomial.
pub open spec fn blinders_b(b: Seq<Fe>) -> Seq<Fe> {
    seq![b[3], b[2]]
}

/// The two blinder coefficients of the output wire polynomial.
pub open spec fn blinders_c(b: Seq<Fe>) -> Seq<Fe> {
    seq![b[5], b[4]]
}

/// The commitment value of a blinded, interpolated wire column.
#[verifier::opaque]
pub open spec fn wire_commit_spec(col: Seq<Fe>, bl: Seq<Fe>, index: Index) -> int {
    index.srs.commit_val(
        blinded_spec(interp_spec(col, index.domain), bl, index.domain.size as int))
}

/// The three wire commitments of the first round, as group elements.
pub open spec fn round1_comms_spec(index: Index, w: Seq<Fe>, bl: Seq<Fe>) -> Seq<GAffine> {
    seq![
        GAffine {
            x: Fe { v: wire_commit_spec(wire_l_spec(index, w), blinders_a(bl), index) as u64 },
        },
        GAffine {
            x: Fe { v: wire_commit_spec(wire_r_spec(index, w), blinders_b(bl), index) as u64 },
        },
        GAffine {
            x: Fe { v: wire_commit_spec(wire_o_spec(index, w), blinders_c(bl), index) as u64 },
        },
    ]
}

/// The first transcript challenge: the sponge state after absorbing the
/// three wire commitments and squeezing once.
pub open spec fn beta_spec(index: Index, w: Seq<Fe>, bl: Seq<Fe>) -> int {
    crate::sponge::squeeze(
        crate::sponge::absorb_seq(
            index.fq_sponge_params.init.val(),
            index.fq_sponge_params.mix.val(),
            round1_comms_spec(index, w, bl)),
        index.fq_sponge_params.shift.val())
}

/// The second transcript challenge: one more squeeze.
pub open spec fn gamma_spec(index: Index, w: Seq<Fe>, bl: Seq<Fe>) -> int {
    crate::sponge::squeeze(beta_spec(index, w, bl), index.fq_sponge_params.shift.val())
}

/// The grand-product value at position `j` of the column: the product of
/// the `num/den` ratios of all rows before `j`.
pub open spec fn zcol_val(index: Index, w: Seq<Fe>, beta: int, gamma: int, j: int) -> int
    decreases j,
{
    if j <= 0 {
        1
    } else {
        fmul(
            zcol_val(index, w, beta, gamma, j - 1),
            fdiv(znum(index, w, beta, gamma, j - 1), zden(index, w, beta, gamma, j - 1)),
        )
    }
}

/// The grand-product column as interpolation input.
pub open spec fn zcol_spec(index: Index, w: Seq<Fe>, beta: int, gamma: int) -> Seq<Fe> {
    Seq::new(index.gates@.len(), |j: int|
        (Fe { v: zcol_val(index, w, beta, gamma, j) as u64 }))
}

/// The three blinder coefficients of the permutation polynomial.
pub open spec fn blinders_z(b: Seq<Fe>) -> Seq<Fe> {
    seq![b[8], b[7], b[6]]
}

/// The commitment value of the blinded permutation polynomial.
#[verifier::opaque]
pub open spec fn z_commit_spec(index: Index, w: Seq<Fe>, bl: Seq<Fe>) -> int {
    index.srs.commit_val(blinded_spec(
        interp_spec(
            zcol_spec(index, w, beta_spec(index, w, bl), gamma_spec(index, w, bl)),
            index.domain),
        blinders_z(bl),
        index.domain.size as int))
}

/// The public-input column: the public witness entries padded with zeros.
pub open spec fn pubcol_spec(index: Index, w: Seq<Fe>) -> Seq<Fe> {
    Seq::new(index.gates@.len(), |j: int|
        if j < index.public { w[j] } else { Fe { v: 0u64 } })
}

/// The blinded left wire polynomial, as a coefficient sequence.
#[verifier::opaque]
pub open spec fn apoly_spec(index: Index, w: Seq<Fe>, bl: Seq<Fe>) -> Seq<Fe> {
    blinded_spec(interp_spec(wire_l_spec(index, w), index.domain), blinders_a(bl),
        index.domain.size as int)
}

/// The blinded right wire polynomial.
#[verifier::opaque]
pub open spec fn bpoly_spec(index: Index, w: Seq<Fe>, bl: Seq<Fe>) -> Seq<Fe> {
    blinded_spec(interp_spec(wire_r_spec(index, w), index.domain), blinders_b(bl),
        index.domain.size as int)
}

/// The blinded output wire polynomial.
#[verifier::opaque]
pub open spec fn cpoly_spec(index: Index, w: Seq<Fe>, bl: Seq<Fe>) -> Seq<Fe> {
    blinded_spec(interp_spec(wire_o_spec(index, w), index.domain), blinders_c(bl),
        index.domain.size as int)
}

/// The blinded permutation polynomial.
#[verifier::opaque]
pub open spec fn zpoly_spec(index: Index, w: Seq<Fe>, bl: Seq<Fe>) -> Seq<Fe> {
    blinded_spec(
        interp_spec(
            zcol_spec(index, w, beta_spec(index, w, bl), gamma_spec(index, w, bl)),
            index.domain),
        blinders_z(bl),
        index.domain.size as int)
}

/// The public-input polynomial.
#[verifier::opaque]
pub open spec fn ppoly_spec(index: Index, w: Seq<Fe>) -> Seq<Fe> {
    interp_spec(pubcol_spec(index, w), index.domain)
}

/// The third transcript challenge, after absorbing the permutation
/// commitment.
#[verifier::opaque]
pub open spec fn alpha_spec(index: Index, w: Seq<Fe>, bl: Seq<Fe>) -> int {
    crate::sponge::squeeze(
        crate::sponge::absorb_seq(
            gamma_spec(index, w, bl),
            index.fq_sponge_params.mix.val(),
            seq![GAffine { x: fe_of(z_commit_spec(index, w, bl)) }]),
        index.fq_sponge_params.shift.val())
}

/// The composition with the domain generator: coefficient `k` multiplied by
/// `g^k`.
pub open spec fn pshift_spec(p: Seq<Fe>, g: int) -> Seq<Fe> {
    Seq::new(p.len(), |k: int| fe_of(fmul(fcoef(p, k), fpow(g, k as nat))))
}

/// The combined constraint polynomial `t1 + t2 - t3 + t4` of round 3.
#[verifier::opaque]
pub open spec fn big_spec(index: Index, w: Seq<Fe>, bl: Seq<Fe>) -> Seq<Fe> {
    let a = apoly_spec(index, w, bl);
    let b = bpoly_spec(index, w, bl);
    let c = cpoly_spec(index, w, bl);
    let z = zpoly_spec(index, w, bl);
    let beta = beta_spec(index, w, bl);
    let gamma = gamma_spec(index, w, bl);
    let alpha = alpha_spec(index, w, bl);
    let t1 = padd(padd(padd(padd(padd(
        pmul(pmul(a, b), index.qm.c@),
        pmul(a, index.ql.c@)),
        pmul(b, index.qr.c@)),
        pmul(c, index.qo.c@)),
        ppoly_spec(index, w)),
        index.qc.c@);
    let t2 = pscale(pmul(pmul(pmul(
        padd(a, seq![fe_of(gamma), fe_of(beta)]),
        padd(b, seq![fe_of(gamma), fe_of(fmul(beta, index.r.val()))])),
        padd(c, seq![fe_of(gamma), fe_of(fmul(beta, index.o.val()))])),
        z), alpha);
    let t3 = pscale(pmul(pmul(pmul(
        padd(padd(a, seq![fe_of(gamma)]), pscale(index.sigma@[0].c@, beta)),
        padd(padd(b, seq![fe_of(gamma)]), pscale(index.sigma@[1].c@, beta))),
        padd(padd(c, seq![fe_of(gamma)]), pscale(index.sigma@[2].c@, beta))),
        pshift_spec(z, index.domain.gen.val())), alpha);
    let t4 = pmul(psub(z, seq![fe_of(1)]),
        Seq::new(index.domain.size as nat, |k: int| fe_of(fmul(alpha, alpha))));
    padd(psub(padd(t1, t2), t3), t4)
}

/// Whether the combined constraint polynomial is divisible by the vanishing
/// polynomial of the domain.
pub open spec fn divisible_spec(index: Index, w: Seq<Fe>, bl: Seq<Fe>) -> bool {
    divides_vanishing(big_spec(index, w, bl), index.domain.size as int)
}

/// The quotient of the combined constraint polynomial.
#[verifier::opaque]
pub open spec fn tq_spec(index: Index, w: Seq<Fe>, bl: Seq<Fe>) -> Seq<Fe> {
    pquot(big_spec(index, w, bl), index.domain.size as int)
}

/// The commitment value of the low quotient chunk.
#[verifier::opaque]
pub open spec fn tlow_commit_spec(index: Index, w: Seq<Fe>, bl: Seq<Fe>) -> int {
    index.srs.commit_val(tq_spec(index, w, bl).subrange(0, index.domain.size as int))
}

/// The commitment value of the middle quotient chunk.
#[verifier::opaque]
pub open spec fn tmid_commit_spec(index: Index, w: Seq<Fe>, bl: Seq<Fe>) -> int {
    index.srs.commit_val(tq_spec(index, w, bl).subrange(
        index.domain.size as int, 2 * index.domain.size as int))
}

/// The commitment value of the high quotient chunk.
#[verifier::opaque]
pub open spec fn thgh_commit_spec(index: Index, w: Seq<Fe>, bl: Seq<Fe>) -> int {
    index.srs.commit_val(tq_spec(index, w, bl).subrange(
        2 * index.domain.size as int, tq_spec(index, w, bl).len() as int))
}

/// The fourth transcript challenge, after absorbing the chunk commitments.
#[verifier::opaque]
pub open spec fn zeta_spec(index: Index, w: Seq<Fe>, bl: Seq<Fe>) -> int {
    crate::sponge::squeeze(
        crate::sponge::absorb_seq(
            alpha_spec(index, w, bl),
            index.fq_sponge_params.mix.val(),
            seq![
                GAffine { x: fe_of(tlow_commit_spec(index, w, bl)) },
                GAffine { x: fe_of(tmid_commit_spec(index, w, bl)) },
                GAffine { x: fe_of(thgh_commit_spec(index, w, bl)) },
            ]),
        index.fq_sponge_params.shift.val())
}

/// The carried evaluation of the left wire polynomial at `zeta`.
pub open spec fn ea_spec(index: Index, w: Seq<Fe>, bl: Seq<Fe>) -> int {
    pval(apoly_spec(index, w, bl), zeta_spec(index, w, bl))
}

/// The carried evaluation of the right wire polynomial at `zeta`.
pub open spec fn eb_spec(index: Index, w: Seq<Fe>, bl: Seq<Fe>) -> int {
    pval(bpoly_spec(index, w, bl), zeta_spec(index, w, bl))
}

/// The carried evaluation of the output wire polynomial at `zeta`.
pub open spec fn ec_spec(index: Index, w: Seq<Fe>, bl: Seq<Fe>) -> int {
    pval(cpoly_spec(index, w, bl), zeta_spec(index, w, bl))
}

/// The carried evaluation of the first permutation polynomial at `zeta`.
pub open spec fn es1_spec(index: Index, w: Seq<Fe>, bl: Seq<Fe>) -> int {
    pval(index.sigma@[0].c@, zeta_spec(index, w, bl))
}

/// The carried evaluation of the second permutation polynomial at `zeta`.
pub open spec fn es2_spec(index: Index, w: Seq<Fe>, bl: Seq<Fe>) -> int {
    pval(index.sigma@[1].c@, zeta_spec(index, w, bl))
}

/// The shifted opening: the permutation polynomial at `zeta * gen`.
pub open spec fn ez_spec(index: Index, w: Seq<Fe>, bl: Seq<Fe>) -> int {
    pval(zpoly_spec(index, w, bl),
        fmul(zeta_spec(index, w, bl), index.domain.gen.val()))
}

/// The linearization polynomial of round 4, using the shifted opening in
/// its permutation factors as the pipeline mandates.
#[verifier::opaque]
pub open spec fn rpoly_spec(index: Index, w: Seq<Fe>, bl: Seq<Fe>) -> Seq<Fe> {
    let beta = beta_spec(index, w, bl);
    let gamma = gamma_spec(index, w, bl);
    let alpha = alpha_spec(index, w, bl);
    let ea = ea_spec(index, w, bl);
    let eb = eb_spec(index, w, bl);
    let ec = ec_spec(index, w, bl);
    let es1 = es1_spec(index, w, bl);
    let es2 = es2_spec(index, w, bl);
    let ez = ez_spec(index, w, bl);
    let r1 = padd(padd(padd(padd(
        pscale(index.qm.c@, fmul(ea, eb)),
        pscale(index.ql.c@, ea)),
        pscale(index.qr.c@, eb)),
        pscale(index.qo.c@, ec)),
        index.qc.c@);
    let r2 = pscale(zpoly_spec(index, w, bl), fmul(fmul(fmul(
        fadd(fadd(ea, fmul(beta, ez)), gamma),
        fadd(fadd(eb, fmul(fmul(beta, index.r.val()), ez)), gamma)),
        fadd(fadd(ec, fmul(fmul(beta, index.o.val()), ez)), gamma)), alpha));
    let r3 = pscale(index.sigma@[2].c@, fmul(fmul(
        fadd(fadd(ea, fmul(beta, es1)), gamma),
        fadd(fadd(eb, fmul(beta, es2)), gamma)),
        fmul(fmul(beta, ez), alpha)));
    let r4 = pscale(zpoly_spec(index, w, bl), fmul(alpha, alpha));
    padd(psub(padd(r1, r2), r3), r4)
}

/// The carried evaluation of the linearization polynomial at `zeta`.
pub open spec fn er_spec(index: Index, w: Seq<Fe>, bl: Seq<Fe>) -> int {
    pval(rpoly_spec(index, w, bl), zeta_spec(index, w, bl))
}

/// The last transcript challenge, squeezed with nothing absorbed between.
pub open spec fn v_spec(index: Index, w: Seq<Fe>, bl: Seq<Fe>) -> int {
    crate::sponge::squeeze(zeta_spec(index, w, bl), index.fq_sponge_params.shift.val())
}

/// The value of the second aggregated opening: the permutation polynomial
/// opened at `zeta * gen`.
#[verifier::opaque]
pub open spec fn proof2_spec(index: Index, w: Seq<Fe>, bl: Seq<Fe>) -> int {
    crate::srs::vopen_val(
        index.srs.powers@,
        seq![zpoly_spec(index, w, bl)],
        v_spec(index, w, bl),
        fmul(zeta_spec(index, w, bl), index.domain.gen.val()))
}

/// A column satisfying the grand-product recurrence is the closed-form
/// column.
proof fn lemma_zcol_pinned(index: Index, w: Seq<Fe>, beta: int, gamma: int, z: Seq<Fe>, j: int)
    requires
        z.len() >= 1,
        z[0].val() == 1,
        forall|t: int| 1 <= t < z.len() ==> #[trigger] z[t].val()
            == fmul(z[t - 1].val(),
                fdiv(znum(index, w, beta, gamma, t - 1), zden(index, w, beta, gamma, t - 1))),
        0 <= j < z.len(),
    ensures
        z[j].val() == zcol_val(index, w, beta, gamma, j),
    decreases j,
{
    if j > 0 {
        lemma_zcol_pinned(index, w, beta, gamma, z, j - 1);
    }
}

/// A wire polynomial built as interpolation plus a vanishing-polynomial
/// blinder equals the closed form of its coefficients.
proof fn lemma_wire_poly_pinned(
    pbare: Poly, pblind: Poly, pfull: Poly, col: Seq<Fe>, bl: Seq<Fe>, d: Domain)
    requires
        d.wf(),
        col.len() == d.size,
        1 <= bl.len() <= d.size,
        pbare.len() == col.len(),
        forall|i: int| 0 <= i < col.len() ==> #[trigger] pbare.at(i)
            == fmul(pval(col, fpow(d.gen_inv.val(), i as nat)), d.size_inv.val()),
        pblind.len() == d.size + bl.len(),
        forall|k: int| #[trigger] pblind.at(k) == fsub(fcoef(bl, k - d.size), fcoef(bl, k)),
        pfull.wf(),
        pfull.len() == d.size + bl.len(),
        forall|k: int| #[trigger] pfull.at(k) == fadd(pbare.at(k), pblind.at(k)),
    ensures
        pfull.c@ == blinded_spec(interp_spec(col, d), bl, d.size as int),
{
    let sp = blinded_spec(interp_spec(col, d), bl, d.size as int);
    let n = d.size as int;
    assert forall|k: int| 0 <= k < pfull.c@.len() implies pfull.c@[k] == sp[k] by {
        assert(pfull.at(k) == fadd(pbare.at(k), pblind.at(k)));
        assert(pblind.at(k) == fsub(fcoef(bl, k - n), fcoef(bl, k)));
        vstd::arithmetic::div_mod::lemma_mod_bound(
            pbare.at(k) + fsub(fcoef(bl, k - n), fcoef(bl, k)), pmod());
        if 0 <= k < col.len() {
            assert(pbare.at(k)
                == fmul(pval(col, fpow(d.gen_inv.val(), k as nat)), d.size_inv.val()));
            vstd::arithmetic::div_mod::lemma_mod_bound(
                pval(col, fpow(d.gen_inv.val(), k as nat)) * d.size_inv.val(), pmod());
            assert(interp_spec(col, d)[k].val() == pbare.at(k));
            assert(fcoef(interp_spec(col, d), k) == pbare.at(k));
        } else {
            assert(fcoef(interp_spec(col, d), k) == 0);
            assert(pbare.at(k) == 0);
        }
        assert(sp[k].val()
            == fadd(fcoef(interp_spec(col, d), k), fsub(fcoef(bl, k - n), fcoef(bl, k))));
        assert(pfull.c@[k].val() == sp[k].val());
    }
    assert(pfull.c@ =~= sp);
}

/// The grand-product numerator at row `j`:
/// `(w_l + sid_j*beta + gamma) (w_r + sid_j*beta*k1 + gamma)
///  (w_o + sid_j*beta*k2 + gamma)`.
pub open spec fn znum(index: Index, w: Seq<Fe>, beta: int, gamma: int, j: int) -> int {
    let sidj = fcoef(index.sid@, j);
    let wl = w[index.gates@[j].l.0 as int].val();
    let wr = w[index.gates@[j].r.0 as int].val();
    let wo = w[index.gates@[j].o.0 as int].val();
    fmul(
        fmul(
            crate::field::fadd(crate::field::fadd(wl, fmul(sidj, beta)), gamma),
            crate::field::fadd(
                crate::field::fadd(wr, fmul(fmul(sidj, beta), index.r.val())), gamma),
        ),
        crate::field::fadd(
            crate::field::fadd(wo, fmul(fmul(sidj, beta), index.o.val())), gamma),
    )
}

/// The grand-product denominator at row `j`:
/// `(w_l + sigma1_j*beta + gamma) (w_r + sigma2_j*beta + gamma)
///  (w_o + sigma3_j*beta + gamma)`.
pub open spec fn zden(index: Index, w: Seq<Fe>, beta: int, gamma: int, j: int) -> int {
    let wl = w[index.gates@[j].l.0 as int].val();
    let wr = w[index.gates@[j].r.0 as int].val();
    let wo = w[index.gates@[j].o.0 as int].val();
    fmul(
        fmul(
            crate::field::fadd(
                crate::field::fadd(wl, fmul(fcoef(index.sigma_evals@[0]@, j), beta)), gamma),
            crate::field::fadd(
                crate::field::fadd(wr, fmul(fcoef(index.sigma_evals@[1]@, j), beta)), gamma),
        ),
        crate::field::fadd(
            crate::field::fadd(wo, fmul(fcoef(index.sigma_evals@[2]@, j), beta)), gamma),
    )
}

/// The grand-product column: `z_0 = 1`, and each later entry multiplies in
/// the `num/den` ratio of the row before it, so that the value at a domain
/// point is the product of the ratios of all earlier rows.  The quotient
/// construction telescopes `t2 - t3` over the domain only under exactly
/// this alignment, which is what keeps valid witnesses divisible.  The
/// divisions are carried out with one batched inversion; when its run-time
/// check cannot confirm an inverse — which modular arithmetic alone cannot
/// exclude — no column is returned, rather than a weaker one.
#[verifier::rlimit(100)]
#[verifier::spinoff_prover]
pub fn grand_product_evals(index: &Index, witness: &Vec<Fe>, beta: Fe, gamma: Fe)
    -> (r: Option<Vec<Fe>>)
    requires
        index.wf(),
        witness@.len() == index.domain.size,
        all_ok(witness@),
        beta.ok(),
        gamma.ok(),
    ensures
        r matches Some(z) ==> z@.len() == index.domain.size
            && all_ok(z@)
            && z@[0].val() == 1
            && forall|j: int| 1 <= j < z@.len() ==>
                #[trigger] z@[j].val() == fmul(
                    z@[j - 1].val(),
                    fdiv(znum(*index, witness@, beta.val(), gamma.val(), j - 1),
                         zden(*index, witness@, beta.val(), gamma.val(), j - 1))),
{
    let n = index.gates.len();
    let ghost bv = beta.val();
    let ghost gv = gamma.val();
    // the denominators at rows 0 .. n-2
    let mut dens: Vec<Fe> = Vec::new();
    let mut j: usize = 0;
    while j < n - 1
        invariant
            j <= n - 1,
            index.wf(),
            n == index.gates@.len(),
            n >= 1,
            witness@.len() == index.domain.size,
            all_ok(witness@),
            beta.ok(),
            gamma.ok(),
            bv == beta.val(),
            gv == gamma.val(),
            dens@.len() == j,
            forall|t: int| 0 <= t < j ==> #[trigger] dens@[t].ok(),
            forall|t: int| 0 <= t < j ==>
                #[trigger] dens@[t].val() == zden(*index, witness@, bv, gv, t),
        decreases n - j,
    {
        let g = index.gates[j];
        let wl = witness[g.l.0];
        let wr = witness[g.r.0];
        let wo = witness[g.o.0];
        let s0 = index.sigma_evals[0][j];
        let s1 = index.sigma_evals[1][j];
        let s2 = index.sigma_evals[2][j];
        let f1 = wl.add(s0.mul(beta)).add(gamma);
        let f2 = wr.add(s1.mul(beta)).add(gamma);
        let f3 = wo.add(s2.mul(beta)).add(gamma);
        dens.push(f1.mul(f2).mul(f3));
        j += 1;
    }
    let ghost dens0 = dens@;
    let inverted = batch_inversion(&mut dens);
    if !inverted {
        return None;
    }
    // the running product
    let mut z: Vec<Fe> = Vec::new();
    z.push(Fe::one());
    let mut j: usize = 1;
    while j < n
        invariant
            1 <= j <= n,
            index.wf(),
            n == index.gates@.len(),
            witness@.len() == index.domain.size,
            all_ok(witness@),
            beta.ok(),
            gamma.ok(),
            bv == beta.val(),
            gv == gamma.val(),
            dens@.len() == n - 1,
            dens0.len() == n - 1,
            forall|t: int| 0 <= t < n - 1 ==> #[trigger] dens@[t].ok(),
            forall|t: int| 0 <= t < n - 1 ==>
                #[trigger] dens0[t].val() == zden(*index, witness@, bv, gv, t),
            forall|t: int| 0 <= t < n - 1 ==>
                #[trigger] dens@[t].val() == crate::field::finv(dens0[t].val()),
            z@.len() == j,
            forall|t: int| 0 <= t < j ==> #[trigger] z@[t].ok(),
            z@[0].val() == 1,
            forall|t: int| 1 <= t < j ==>
                #[trigger] z@[t].val() == fmul(
                    z@[t - 1].val(),
                    fdiv(znum(*index, witness@, bv, gv, t - 1),
                         zden(*index, witness@, bv, gv, t - 1))),
        decreases n - j,
    {
        let g = index.gates[j - 1];
        let wl = witness[g.l.0];
        let wr = witness[g.r.0];
        let wo = witness[g.o.0];
        let sidj = index.sid[j - 1];
        let f1 = wl.add(sidj.mul(beta)).add(gamma);
        let f2 = wr.add(sidj.mul(beta).mul(index.r)).add(gamma);
        let f3 = wo.add(sidj.mul(beta).mul(index.o)).add(gamma);
        let num = f1.mul(f2).mul(f3);
        let d = dens[j - 1];
        let prev = z[j - 1];
        let nd = num.mul(d);
        let next = prev.mul(nd);
        proof {
            let nj = znum(*index, witness@, bv, gv, j - 1);
            let dj = zden(*index, witness@, bv, gv, j - 1);
            assert(num.val() == nj);
            assert(d.val() == crate::field::finv(dj));
            assert(nd.val() == fmul(nj, crate::field::finv(dj)));
        }
        z.push(next);
        j += 1;
    }
    Some(z)
}

/// The first `count` entries of a vector, copied.
pub fn vec_prefix(v: &Vec<Fe>, count: usize) -> (r: Vec<Fe>)
    requires
        count <= v@.len(),
    ensures
        r@ == v@.subrange(0, count as int),
{
    let mut out: Vec<Fe> = Vec::new();
    let mut i: usize = 0;
    while i < count
        invariant
            i <= count,
            count <= v@.len(),
            out@ == v@.subrange(0, i as int),
        decreases count - i,
    {
        out.push(v[i]);
        proof {
            assert(out@ =~= v@.subrange(0, i + 1));
        }
        i += 1;
    }
    out
}

/// The entries `from .. to` of a vector, copied.
pub fn vec_slice(v: &Vec<Fe>, from: usize, to: usize) -> (r: Vec<Fe>)
    requires
        from <= to,
        to <= v@.len(),
    ensures
        r@ == v@.subrange(from as int, to as int),
{
    let mut out: Vec<Fe> = Vec::new();
    let mut i: usize = from;
    while i < to
        invariant
            from <= i <= to,
            to <= v@.len(),
            out@ == v@.subrange(from as int, i as int),
        decreases to - i,
    {
        out.push(v[i]);
        proof {
            assert(out@ =~= v@.subrange(from as int, i + 1));
        }
        i += 1;
    }
    out
}

/// The left wire column: `w[gate_j.l]` for each row.
fn wire_evals_l(index: &Index, witness: &Vec<Fe>) -> (r: Vec<Fe>)
    requires
        index.wf(),
        witness@.len() == index.domain.size,
        all_ok(witness@),
    ensures
        r@.len() == index.domain.size,
        all_ok(r@),
        forall|j: int| 0 <= j < r@.len() ==>
            #[trigger] r@[j] == witness@[index.gates@[j].l.0 as int],
{
    let n = index.gates.len();
    let mut out: Vec<Fe> = Vec::new();
    let mut j: usize = 0;
    while j < n
        invariant
            j <= n,
            index.wf(),
            n == index.gates@.len(),
            witness@.len() == index.domain.size,
            all_ok(witness@),
            out@.len() == j,
            all_ok(out@),
            forall|t: int| 0 <= t < j ==>
                #[trigger] out@[t] == witness@[index.gates@[t].l.0 as int],
        decreases n - j,
    {
        let g = index.gates[j];
        out.push(witness[g.l.0]);
        j += 1;
    }
    out
}

/// The right wire column scaled by the first coset scalar:
/// `k1 * w[gate_j.r]` for each row.
fn wire_evals_r(index: &Index, witness: &Vec<Fe>) -> (r: Vec<Fe>)
    requires
        index.wf(),
        witness@.len() == index.domain.size,
        all_ok(witness@),
    ensures
        r@.len() == index.domain.size,
        all_ok(r@),
        forall|j: int| 0 <= j < r@.len() ==> #[trigger] r@[j].val()
            == crate::field::fmul(index.r.val(), witness@[index.gates@[j].r.0 as int].val()),
{
    let n = index.gates.len();
    let mut out: Vec<Fe> = Vec::new();
    let mut j: usize = 0;
    while j < n
        invariant
            j <= n,
            index.wf(),
            n == index.gates@.len(),
            witness@.len() == index.domain.size,
            all_ok(witness@),
            out@.len() == j,
            all_ok(out@),
            forall|t: int| 0 <= t < j ==> #[trigger] out@[t].val()
                == crate::field::fmul(index.r.val(), witness@[index.gates@[t].r.0 as int].val()),
        decreases n - j,
    {
        let g = index.gates[j];
        out.push(index.r.mul(witness[g.r.0]));
        j += 1;
    }
    out
}

/// The output wire column scaled by the second coset scalar:
/// `k2 * w[gate_j.o]` for each row.
fn wire_evals_o(index: &Index, witness: &Vec<Fe>) -> (r: Vec<Fe>)
    requires
        index.wf(),
        witness@.len() == index.domain.size,
        all_ok(witness@),
    ensures
        r@.len() == index.domain.size,
        all_ok(r@),
        forall|j: int| 0 <= j < r@.len() ==> #[trigger] r@[j].val()
            == crate::field::fmul(index.o.val(), witness@[index.gates@[j].o.0 as int].val()),
{
    let n = index.gates.len();
    let mut out: Vec<Fe> = Vec::new();
    let mut j: usize = 0;
    while j < n
        invariant
            j <= n,
            index.wf(),
            n == index.gates@.len(),
            witness@.len() == index.domain.size,
            all_ok(witness@),
            out@.len() == j,
            all_ok(out@),
            forall|t: int| 0 <= t < j ==> #[trigger] out@[t].val()
                == crate::field::fmul(index.o.val(), witness@[index.gates@[t].o.0 as int].val()),
        decreases n - j,
    {
        let g = index.gates[j];
        out.push(index.o.mul(witness[g.o.0]));
        j += 1;
    }
    out
}

/// The public input column: the public witness entries, padded with zeros
/// to the size of the domain.
fn public_evals(index: &Index, witness: &Vec<Fe>) -> (r: Vec<Fe>)
    requires
        index.wf(),
        witness@.len() == index.domain.size,
        all_ok(witness@),
    ensures
        r@.len() == index.domain.size,
        all_ok(r@),
        forall|j: int| 0 <= j < index.public ==> #[trigger] r@[j] == witness@[j],
        forall|j: int| index.public <= j < r@.len() ==> #[trigger] r@[j].val() == 0,
        r@ == pubcol_spec(*index, witness@),
{
    let n = index.gates.len();
    let mut out: Vec<Fe> = Vec::new();
    let mut j: usize = 0;
    while j < n
        invariant
            j <= n,
            index.wf(),
            n == index.gates@.len(),
            witness@.len() == index.domain.size,
            all_ok(witness@),
            out@.len() == j,
            all_ok(out@),
            forall|t: int| 0 <= t < j && t < index.public ==> #[trigger] out@[t] == witness@[t],
            forall|t: int| index.public <= t < j ==> #[trigger] out@[t].val() == 0,
        decreases n - j,
    {
        if j < index.public {
            out.push(witness[j]);
        } else {
            out.push(Fe::zero());
        }
        j += 1;
    }
    proof {
        assert forall|j0: int| 0 <= j0 < out@.len() implies
            out@[j0] == pubcol_spec(*index, witness@)[j0] by {
            if j0 < index.public {
                assert(out@[j0] == witness@[j0]);
            } else {
                assert(out@[j0].val() == 0);
            }
        }
        assert(out@ =~= pubcol_spec(*index, witness@));
    }
    out
}

/// A constant vector of the given length.
fn repeat_fe(x: Fe, count: usize) -> (r: Vec<Fe>)
    requires
        x.ok(),
    ensures
        r@.len() == count,
        all_ok(r@),
        forall|j: int| 0 <= j < r@.len() ==> #[trigger] r@[j] == x,
{
    let mut out: Vec<Fe> = Vec::new();
    let mut i: usize = 0;
    while i < count
        invariant
            i <= count,
            x.ok(),
            out@.len() == i,
            all_ok(out@),
            forall|t: int| 0 <= t < i ==> #[trigger] out@[t] == x,
        decreases count - i,
    {
        out.push(x);
        i += 1;
    }
    out
}

/// The coefficients of the composition `z(gen * X)`: coefficient `k` of `z`
/// multiplied by `gen^k`.
fn shifted_coeffs(z: &Poly, gen: Fe) -> (r: Vec<Fe>)
    requires
        z.wf(),
        gen.ok(),
    ensures
        r@.len() == z.c@.len(),
        all_ok(r@),
        forall|k: int| 0 <= k < r@.len() ==>
            #[trigger] r@[k].val() == fmul(z.c@[k].val(), crate::field::fpow(gen.val(), k as nat)),
        r@ == pshift_spec(z.c@, gen.val()),
{
    let m = z.c.len();
    let mut out: Vec<Fe> = Vec::new();
    let mut wi = Fe::one();
    let mut k: usize = 0;
    while k < m
        invariant
            k <= m,
            m == z.c@.len(),
            z.wf(),
            gen.ok(),
            wi.ok(),
            wi.val() == crate::field::fpow(gen.val(), k as nat),
            out@.len() == k,
            all_ok(out@),
            forall|j: int| 0 <= j < k ==>
                #[trigger] out@[j].val()
                    == fmul(z.c@[j].val(), crate::field::fpow(gen.val(), j as nat)),
        decreases m - k,
    {
        out.push(z.c[k].mul(wi));
        proof {
            crate::field::lemma_fpow_succ(gen.val(), k as nat);
        }
        wi = wi.mul(gen);
        k += 1;
    }
    proof {
        assert forall|k0: int| 0 <= k0 < out@.len() implies
            out@[k0] == pshift_spec(z.c@, gen.val())[k0] by {
            vstd::arithmetic::div_mod::lemma_mod_bound(
                z.c@[k0].val() * fpow(gen.val(), k0 as nat), pmod());
            assert(out@[k0].val() == fmul(z.c@[k0].val(), fpow(gen.val(), k0 as nat)));
            assert(pshift_spec(z.c@, gen.val())[k0].val()
                == fmul(fcoef(z.c@, k0), fpow(gen.val(), k0 as nat)));
        }
        assert(out@ =~= pshift_spec(z.c@, gen.val()));
    }
    out
}

impl ProverProof {
    /// Build the proof for a witness against a preprocessed circuit.
    ///
    /// The nine `blinders` take the place of the prover's random draws; they
    /// are consumed in the order the rounds need them.  Construction fails
    /// only when the combined constraint polynomial is not divisible by the
    /// vanishing polynomial, or when a polynomial outgrows the reference
    /// string; a string of depth `n + 6` always suffices.
    #[verifier::rlimit(100)]
    #[verifier::spinoff_prover]
    pub fn create(witness: &Vec<Fe>, index: &Index, blinders: &Vec<Fe>)
        -> (out: Result<ProverProof, ProofError>)
        requires
            index.wf(),
            witness@.len() == index.domain.size,
            all_ok(witness@),
            blinders@.len() == 9,
            all_ok(blinders@),
        ensures
            out matches Ok(p) ==> p.wf()
                && p.public@ == witness@.subrange(0, index.public as int),
            out matches Err(e) ==> e == ProofError::PolyDivision
                || e == ProofError::SrsTooSmall,
            out matches Err(e) && e == ProofError::SrsTooSmall
                ==> index.srs.depth() < index.domain.size + 6,
            index.srs.depth() >= index.domain.size + 6
                ==> !(out matches Err(e) && e == ProofError::SrsTooSmall),
            index.srs.depth() < index.domain.size + 2
                ==> out == Err::<ProverProof, ProofError>(ProofError::SrsTooSmall),
            index.srs.depth() < index.domain.size + 6 ==> out is Err,
            out matches Ok(p) ==> p.a_comm.x.val()
                == wire_commit_spec(wire_l_spec(*index, witness@), blinders_a(blinders@), *index),
            out matches Ok(p) ==> p.b_comm.x.val()
                == wire_commit_spec(wire_r_spec(*index, witness@), blinders_b(blinders@), *index),
            out matches Ok(p) ==> p.c_comm.x.val()
                == wire_commit_spec(wire_o_spec(*index, witness@), blinders_c(blinders@), *index),
            out matches Ok(p) ==> p.z_comm.x.val()
                == z_commit_spec(*index, witness@, blinders@),
            out matches Ok(p) ==> p.tlow_comm.x.val()
                == tlow_commit_spec(*index, witness@, blinders@)
                && p.tmid_comm.x.val() == tmid_commit_spec(*index, witness@, blinders@)
                && p.thgh_comm.x.val() == thgh_commit_spec(*index, witness@, blinders@),
            out matches Ok(p) ==> p.evals.a.val() == ea_spec(*index, witness@, blinders@)
                && p.evals.b.val() == eb_spec(*index, witness@, blinders@)
                && p.evals.c.val() == ec_spec(*index, witness@, blinders@)
                && p.evals.sigma1.val() == es1_spec(*index, witness@, blinders@)
                && p.evals.sigma2.val() == es2_spec(*index, witness@, blinders@)
                && p.evals.z.val() == ez_spec(*index, witness@, blinders@)
                && p.evals.r.val() == er_spec(*index, witness@, blinders@),
            out matches Ok(p) ==> divisible_spec(*index, witness@, blinders@),
            index.srs.depth() >= index.domain.size + 6
                && !divisible_spec(*index, witness@, blinders@)
                ==> out == Err::<ProverProof, ProofError>(ProofError::PolyDivision),
            out matches Ok(p) ==> p.proof2.x.val()
                == proof2_spec(*index, witness@, blinders@),
    {
        let n = index.domain.size;
        let mut evals = ProofEvaluations::zero();

        // round 1: wire polynomials, blinded, committed, absorbed
        let a_col = wire_evals_l(index, witness);
        let b_col = wire_evals_r(index, witness);
        let c_col = wire_evals_o(index, witness);
        let a_bare = interpolate(&a_col, &index.domain);
        let b_bare = interpolate(&b_col, &index.domain);
        let c_bare = interpolate(&c_col, &index.domain);
        let mut bl_a: Vec<Fe> = Vec::new();
        bl_a.push(blinders[1]);
        bl_a.push(blinders[0]);
        let mut bl_b: Vec<Fe> = Vec::new();
        bl_b.push(blinders[3]);
        bl_b.push(blinders[2]);
        let mut bl_c: Vec<Fe> = Vec::new();
        bl_c.push(blinders[5]);
        bl_c.push(blinders[4]);
        let abl = Poly::from_coeffs(bl_a).mul_vanishing(n);
        let bbl = Poly::from_coeffs(bl_b).mul_vanishing(n);
        let cbl = Poly::from_coeffs(bl_c).mul_vanishing(n);
        let a = a_bare.add(&abl);
        let b = b_bare.add(&bbl);
        let c = c_bare.add(&cbl);
        proof {
            assert(a_col@ =~= wire_l_spec(*index, witness@));
            assert forall|j: int| 0 <= j < b_col@.len() implies
                b_col@[j] == wire_r_spec(*index, witness@)[j] by {
                assert(b_col@[j].val()
                    == fmul(index.r.val(), witness@[index.gates@[j].r.0 as int].val()));
                vstd::arithmetic::div_mod::lemma_mod_bound(
                    index.r.val() * witness@[index.gates@[j].r.0 as int].val(), pmod());
            }
            assert(b_col@ =~= wire_r_spec(*index, witness@));
            assert forall|j: int| 0 <= j < c_col@.len() implies
                c_col@[j] == wire_o_spec(*index, witness@)[j] by {
                assert(c_col@[j].val()
                    == fmul(index.o.val(), witness@[index.gates@[j].o.0 as int].val()));
                vstd::arithmetic::div_mod::lemma_mod_bound(
                    index.o.val() * witness@[index.gates@[j].o.0 as int].val(), pmod());
            }
            assert(c_col@ =~= wire_o_spec(*index, witness@));
            assert(bl_a@ =~= blinders_a(blinders@));
            assert(bl_b@ =~= blinders_b(blinders@));
            assert(bl_c@ =~= blinders_c(blinders@));
            lemma_wire_poly_pinned(a_bare, abl, a, a_col@, bl_a@, index.domain);
            lemma_wire_poly_pinned(b_bare, bbl, b, b_col@, bl_b@, index.domain);
            lemma_wire_poly_pinned(c_bare, cbl, c, c_col@, bl_c@, index.domain);
        }
        let a_comm = match index.srs.commit(&a) {
            Ok(g) => g,
            Err(e) => { return Err(e); },
        };
        let b_comm = match index.srs.commit(&b) {
            Ok(g) => g,
            Err(e) => { return Err(e); },
        };
        let c_comm = match index.srs.commit(&c) {
            Ok(g) => g,
            Err(e) => { return Err(e); },
        };
        let mut fq_sponge = FqSponge::new(&index.fq_sponge_params);
        let mut round1: Vec<GAffine> = Vec::new();
        round1.push(a_comm);
        round1.push(b_comm);
        round1.push(c_comm);
        fq_sponge.absorb_g(&round1);
        let mut oracles = RandomOracles::zero();
        oracles.beta = fq_sponge.challenge();
        oracles.gamma = fq_sponge.challenge();
        proof {
            reveal(crate::prover::wire_commit_spec);
            assert(a_comm.x.val() == wire_commit_spec(
                wire_l_spec(*index, witness@), blinders_a(blinders@), *index));
            assert(b_comm.x.val() == wire_commit_spec(
                wire_r_spec(*index, witness@), blinders_b(blinders@), *index));
            assert(c_comm.x.val() == wire_commit_spec(
                wire_o_spec(*index, witness@), blinders_c(blinders@), *index));
            assert(round1@ =~= round1_comms_spec(*index, witness@, blinders@));
            assert(oracles.beta.val() == beta_spec(*index, witness@, blinders@));
            assert(oracles.gamma.val() == gamma_spec(*index, witness@, blinders@));
        }

        // round 2: the grand-product polynomial, blinded, committed, absorbed
        // a batched inverse that fails its check cannot occur over a prime
        // modulus; it is surfaced as the division failure it would become
        let z_col = match grand_product_evals(index, witness, oracles.beta, oracles.gamma) {
            Some(zc) => zc,
            None => {
                return Err(ProofError::PolyDivision);
            },
        };
        let mut bl_z: Vec<Fe> = Vec::new();
        bl_z.push(blinders[8]);
        bl_z.push(blinders[7]);
        bl_z.push(blinders[6]);
        let z_bare = interpolate(&z_col, &index.domain);
        let zbl = Poly::from_coeffs(bl_z).mul_vanishing(n);
        let z = z_bare.add(&zbl);
        proof {
            let ghost sbv = beta_spec(*index, witness@, blinders@);
            let ghost sgv = gamma_spec(*index, witness@, blinders@);
            assert forall|j: int| 0 <= j < z_col@.len() implies
                z_col@[j] == zcol_spec(*index, witness@, sbv, sgv)[j] by {
                lemma_zcol_pinned(*index, witness@, sbv, sgv, z_col@, j);
            }
            assert(z_col@ =~= zcol_spec(*index, witness@, sbv, sgv));
            assert(bl_z@ =~= blinders_z(blinders@));
            lemma_wire_poly_pinned(z_bare, zbl, z, z_col@, bl_z@, index.domain);
        }
        let z_comm = match index.srs.commit(&z) {
            Ok(g) => g,
            Err(e) => { return Err(e); },
        };
        let mut round2: Vec<GAffine> = Vec::new();
        round2.push(z_comm);
        fq_sponge.absorb_g(&round2);
        oracles.alpha = fq_sponge.challenge();
        let alpsq = oracles.alpha.square();
        proof {
            reveal(crate::prover::zpoly_spec);
            reveal(crate::prover::z_commit_spec);
            reveal(crate::prover::alpha_spec);
            assert(z.c@ == zpoly_spec(*index, witness@, blinders@));
            assert(z_comm.x.val() == z_commit_spec(*index, witness@, blinders@));
            assert(round2@ =~= seq![
                GAffine { x: fe_of(z_commit_spec(*index, witness@, blinders@)) }]);
            assert(oracles.alpha.val() == alpha_spec(*index, witness@, blinders@));
        }

        // round 3: public input polynomial and the quotient
        let public = vec_prefix(witness, index.public);
        let p_col = public_evals(index, witness);
        let p = interpolate(&p_col, &index.domain);
        proof {
            reveal(crate::prover::apoly_spec);
            reveal(crate::prover::bpoly_spec);
            reveal(crate::prover::cpoly_spec);
            reveal(crate::prover::ppoly_spec);
            reveal(crate::prover::zpoly_spec);
            assert(a.c@ == apoly_spec(*index, witness@, blinders@));
            assert(b.c@ == bpoly_spec(*index, witness@, blinders@));
            assert(c.c@ == cpoly_spec(*index, witness@, blinders@));
            assert(z.c@ == zpoly_spec(*index, witness@, blinders@));
            assert(p.c@ == ppoly_spec(*index, witness@));
        }

        let t1 = a.mul(&b).mul(&index.qm)
            .add(&a.mul(&index.ql))
            .add(&b.mul(&index.qr))
            .add(&c.mul(&index.qo))
            .add(&p)
            .add(&index.qc);
        let mut gb: Vec<Fe> = Vec::new();
        gb.push(oracles.gamma);
        gb.push(oracles.beta);
        let mut gb1: Vec<Fe> = Vec::new();
        gb1.push(oracles.gamma);
        gb1.push(oracles.beta.mul(index.r));
        let mut gb2: Vec<Fe> = Vec::new();
        gb2.push(oracles.gamma);
        gb2.push(oracles.beta.mul(index.o));
        proof {
            let ghost bv = beta_spec(*index, witness@, blinders@);
            let ghost gv = gamma_spec(*index, witness@, blinders@);
            assert(gb@ =~= seq![fe_of(gv), fe_of(bv)]);
            assert(gb1@ =~= seq![fe_of(gv), fe_of(fmul(bv, index.r.val()))]);
            assert(gb2@ =~= seq![fe_of(gv), fe_of(fmul(bv, index.o.val()))]);
        }
        let t2 = a.add(&Poly::from_coeffs(gb))
            .mul(&b.add(&Poly::from_coeffs(gb1)))
            .mul(&c.add(&Poly::from_coeffs(gb2)))
            .mul(&z)
            .scale(oracles.alpha);
        let mut gc: Vec<Fe> = Vec::new();
        gc.push(oracles.gamma);
        let gcp = Poly::from_coeffs(gc);
        let zshift = Poly::from_coeffs(shifted_coeffs(&z, index.domain.gen));
        proof {
            assert(gcp.c@ =~= seq![fe_of(gamma_spec(*index, witness@, blinders@))]);
            assert(zshift.c@ == pshift_spec(
                zpoly_spec(*index, witness@, blinders@), index.domain.gen.val()));
        }
        let t3 = a.add(&gcp).add(&index.sigma[0].scale(oracles.beta))
            .mul(&b.add(&gcp).add(&index.sigma[1].scale(oracles.beta)))
            .mul(&c.add(&gcp).add(&index.sigma[2].scale(oracles.beta)))
            .mul(&zshift)
            .scale(oracles.alpha);
        let mut onec: Vec<Fe> = Vec::new();
        onec.push(Fe::one());
        let repv = repeat_fe(alpsq, n);
        proof {
            assert(onec@ =~= seq![fe_of(1)]);
            assert(repv@ =~= Seq::new(n as nat, |k: int| fe_of(fmul(
                alpha_spec(*index, witness@, blinders@),
                alpha_spec(*index, witness@, blinders@)))));
        }
        let t4 = z.sub(&Poly::from_coeffs(onec))
            .mul(&Poly::from_coeffs(repv));

        let big = t1.add(&t2).sub(&t3).add(&t4);
        proof {
            reveal(crate::prover::big_spec);
            assert(big.c@ == big_spec(*index, witness@, blinders@));
        }
        let (t, rem) = big.divide_by_vanishing(n);
        proof {
            reveal(crate::prover::tq_spec);
            assert(t.c@ == tq_spec(*index, witness@, blinders@));
            assert(rem.c@ == prem(big_spec(*index, witness@, blinders@), n as int));
        }
        if !rem.is_zero() {
            return Err(ProofError::PolyDivision);
        }
        proof {
            assert forall|k: int| fcoef(
                prem(big_spec(*index, witness@, blinders@), n as int), k) == 0 by {
                if 0 <= k < rem.c@.len() {
                    assert(rem.at(k) == 0);
                }
            }
            assert(divisible_spec(*index, witness@, blinders@));
        }

        // chunk the quotient and commit
        let tlow = Poly::from_coeffs(vec_slice(&t.c, 0, n));
        let tmid = Poly::from_coeffs(vec_slice(&t.c, n, 2 * n));
        let thgh = Poly::from_coeffs(vec_slice(&t.c, 2 * n, t.c.len()));
        proof {
            let ghost tqs = tq_spec(*index, witness@, blinders@);
            assert(tlow.c@ == tqs.subrange(0, n as int));
            assert(tmid.c@ == tqs.subrange(n as int, 2 * n as int));
            assert(thgh.c@ == tqs.subrange(2 * n as int, tqs.len() as int));
        }
        let tlow_comm = match index.srs.commit(&tlow) {
            Ok(g) => g,
            Err(e) => { return Err(e); },
        };
        let tmid_comm = match index.srs.commit(&tmid) {
            Ok(g) => g,
            Err(e) => { return Err(e); },
        };
        let thgh_comm = match index.srs.commit(&thgh) {
            Ok(g) => g,
            Err(e) => { return Err(e); },
        };
        let mut round3: Vec<GAffine> = Vec::new();
        round3.push(tlow_comm);
        round3.push(tmid_comm);
        round3.push(thgh_comm);
        fq_sponge.absorb_g(&round3);
        oracles.zeta = fq_sponge.challenge();
        proof {
            reveal(crate::prover::tlow_commit_spec);
            reveal(crate::prover::tmid_commit_spec);
            reveal(crate::prover::thgh_commit_spec);
            reveal(crate::prover::zeta_spec);
            assert(tlow_comm.x.val() == tlow_commit_spec(*index, witness@, blinders@));
            assert(tmid_comm.x.val() == tmid_commit_spec(*index, witness@, blinders@));
            assert(thgh_comm.x.val() == thgh_commit_spec(*index, witness@, blinders@));
            assert(round3@ =~= seq![
                GAffine { x: fe_of(tlow_commit_spec(*index, witness@, blinders@)) },
                GAffine { x: fe_of(tmid_commit_spec(*index, witness@, blinders@)) },
                GAffine { x: fe_of(thgh_commit_spec(*index, witness@, blinders@)) },
            ]);
            assert(oracles.zeta.val() == zeta_spec(*index, witness@, blinders@));
        }
        let zeta2 = oracles.zeta.pow(n as u64);
        let zeta3 = zeta2.square();

        // round 4: evaluations and the linearization polynomial
        evals.a = a.evaluate(oracles.zeta);
        evals.b = b.evaluate(oracles.zeta);
        evals.c = c.evaluate(oracles.zeta);
        evals.sigma1 = index.sigma[0].evaluate(oracles.zeta);
        evals.sigma2 = index.sigma[1].evaluate(oracles.zeta);
        evals.z = z.evaluate(oracles.zeta.mul(index.domain.gen));
        proof {
            assert(evals.a.val() == ea_spec(*index, witness@, blinders@));
            assert(evals.b.val() == eb_spec(*index, witness@, blinders@));
            assert(evals.c.val() == ec_spec(*index, witness@, blinders@));
            assert(evals.sigma1.val() == es1_spec(*index, witness@, blinders@));
            assert(evals.sigma2.val() == es2_spec(*index, witness@, blinders@));
            assert(evals.z.val() == ez_spec(*index, witness@, blinders@));
        }

        let r1 = index.qm.scale(evals.a.mul(evals.b))
            .add(&index.ql.scale(evals.a))
            .add(&index.qr.scale(evals.b))
            .add(&index.qo.scale(evals.c))
            .add(&index.qc);
        let r2 = z.scale(
            evals.a.add(oracles.beta.mul(evals.z)).add(oracles.gamma)
                .mul(evals.b.add(oracles.beta.mul(index.r).mul(evals.z)).add(oracles.gamma))
                .mul(evals.c.add(oracles.beta.mul(index.o).mul(evals.z)).add(oracles.gamma))
                .mul(oracles.alpha),
        );
        let r3 = index.sigma[2].scale(
            evals.a.add(oracles.beta.mul(evals.sigma1)).add(oracles.gamma)
                .mul(evals.b.add(oracles.beta.mul(evals.sigma2)).add(oracles.gamma))
                .mul(oracles.beta.mul(evals.z).mul(oracles.alpha)),
        );
        let r4 = z.scale(alpsq);
        let rp = r1.add(&r2).sub(&r3).add(&r4);
        proof {
            reveal(crate::prover::rpoly_spec);
            assert(rp.c@ == rpoly_spec(*index, witness@, blinders@));
        }
        evals.r = rp.evaluate(oracles.zeta);
        proof {
            assert(evals.r.val() == er_spec(*index, witness@, blinders@));
        }

        // round 5: the opening challenge and the two aggregated openings
        oracles.v = fq_sponge.challenge();
        proof {
            assert(oracles.v.val() == v_spec(*index, witness@, blinders@));
        }
        let combined_t = tlow.add(&tmid.scale(zeta2)).add(&thgh.scale(zeta3));
        let mut batch1: Vec<Poly> = Vec::new();
        batch1.push(combined_t);
        batch1.push(rp);
        batch1.push(a);
        batch1.push(b);
        batch1.push(c);
        batch1.push(index.sigma[0].copied());
        batch1.push(index.sigma[1].copied());
        proof {
            reveal_with_fuel(crate::srs::max_len_from, 9);
            assert(crate::srs::max_len_from(batch1@, 0) == n + 6);
        }
        let proof1 = match index.srs.open(&batch1, oracles.v, oracles.zeta) {
            Ok(g) => g,
            Err(e) => { return Err(e); },
        };
        let mut batch2: Vec<Poly> = Vec::new();
        batch2.push(z);
        proof {
            reveal_with_fuel(crate::srs::max_len_from, 3);
            assert(crate::srs::max_len_from(batch2@, 0) == n + 3);
        }
        let proof2 = match index.srs.open(&batch2, oracles.v, oracles.zeta.mul(index.domain.gen)) {
            Ok(g) => g,
            Err(e) => { return Err(e); },
        };
        proof {
            reveal(crate::prover::proof2_spec);
            assert(crate::srs::views_of(batch2@)
                =~= seq![zpoly_spec(*index, witness@, blinders@)]);
            crate::srs::lemma_vmax(batch2@, 0);
            crate::srs::lemma_vopen(index.srs.powers@, batch2@, oracles.v.val(),
                fmul(oracles.zeta.val(), index.domain.gen.val()),
                crate::srs::max_len_from(batch2@, 0),
                (crate::srs::max_len_from(batch2@, 0) - 1) as nat);
            assert(proof2.x.val() == proof2_spec(*index, witness@, blinders@));
        }

        Ok(ProverProof {
            a_comm,
            b_comm,
            c_comm,
            z_comm,
            tlow_comm,
            tmid_comm,
            thgh_comm,
            proof1,
            proof2,
            evals,
            public,
        })
    }
}

} // verus!
