//! End-to-end prover scenarios on small circuits.

use plonk_prover::field::{Fe, P};
use plonk_prover::gate::CircuitGate;
use plonk_prover::domain::{Domain, interpolate};
use plonk_prover::poly::Poly;
use plonk_prover::sponge::{FqSponge, SpongeParams};
use plonk_prover::srs::{Srs, ProofError};
use plonk_prover::prover::{Index, ProverProof};

fn fe(v: u64) -> Fe {
    Fe::new(v)
}

fn neg(v: u64) -> Fe {
    Fe::new(v).neg()
}

/// An element of multiplicative order four (`31` generates the whole group).
fn omega4() -> Fe {
    let om = fe(31).pow((P - 1) / 4);
    assert_eq!(om.pow(4).v, 1);
    assert_ne!(om.pow(2).v, 1);
    om
}

/// A four-row index over the identity permutation (both coset scalars one),
/// with an optional swap of two first-column permutation entries.
fn make_index(
    gates: Vec<CircuitGate>,
    swap: Option<(usize, usize)>,
    public: usize,
    depth: usize,
) -> Index {
    let n = gates.len();
    let domain = Domain::new(omega4(), n).unwrap();
    let mut sid: Vec<Fe> = Vec::new();
    let mut wi = Fe::one();
    for _ in 0..n {
        sid.push(wi);
        wi = wi.mul(domain.gen);
    }
    let mut col0 = sid.clone();
    if let Some((x, y)) = swap {
        let t = col0[x];
        col0[x] = col0[y];
        col0[y] = t;
    }
    let sigma_evals = vec![col0, sid.clone(), sid.clone()];
    let sigma = vec![
        interpolate(&sigma_evals[0], &domain),
        interpolate(&sigma_evals[1], &domain),
        interpolate(&sigma_evals[2], &domain),
    ];
    let mut qlc: Vec<Fe> = Vec::new();
    let mut qrc: Vec<Fe> = Vec::new();
    let mut qoc: Vec<Fe> = Vec::new();
    let mut qmc: Vec<Fe> = Vec::new();
    let mut qcc: Vec<Fe> = Vec::new();
    for g in gates.iter() {
        qlc.push(g.ql());
        qrc.push(g.qr());
        qoc.push(g.qo());
        qmc.push(g.qm());
        qcc.push(g.qc());
    }
    Index {
        gates,
        domain,
        sid,
        sigma_evals,
        sigma,
        ql: interpolate(&qlc, &domain),
        qr: interpolate(&qrc, &domain),
        qo: interpolate(&qoc, &domain),
        qm: interpolate(&qmc, &domain),
        qc: interpolate(&qcc, &domain),
        r: fe(1),
        o: fe(1),
        public,
        fq_sponge_params: SpongeParams { init: fe(17), mix: fe(101), shift: fe(42) },
        srs: Srs::create(fe(12345), depth),
    }
}

fn zero_blinders() -> Vec<Fe> {
    vec![fe(0); 9]
}

/// The identity circuit: one generic gate `w0 - w1 == 0`, three empty rows.
fn identity_index(public: usize, depth: usize) -> Index {
    let gates = vec![
        CircuitGate::create_generic(
            (0, 0), (1, 0), (2, 0), fe(1), neg(1), fe(0), fe(0), fe(0)),
        CircuitGate::zero((0, 0), (1, 0), (2, 0)),
        CircuitGate::zero((0, 0), (1, 0), (2, 0)),
        CircuitGate::zero((0, 0), (1, 0), (2, 0)),
    ];
    make_index(gates, None, public, depth)
}

/// The multiplication circuit: one generic gate `w0 * w1 - w2 == 0`.
fn mul_index(depth: usize) -> Index {
    let gates = vec![
        CircuitGate::create_generic(
            (0, 0), (1, 0), (2, 0), fe(0), fe(0), neg(1), fe(1), fe(0)),
        CircuitGate::zero((0, 0), (1, 0), (2, 0)),
        CircuitGate::zero((0, 0), (1, 0), (2, 0)),
        CircuitGate::zero((0, 0), (1, 0), (2, 0)),
    ];
    make_index(gates, None, 0, depth)
}

#[test]
fn identity_circuit_proves() {
    let index = identity_index(0, 10);
    let witness = vec![fe(17), fe(17), fe(0), fe(0)];
    let proof = ProverProof::create(&witness, &index, &zero_blinders()).unwrap();
    // with zero blinders the wire polynomials are the constant columns
    assert_eq!(proof.evals.a, fe(17));
    assert_eq!(proof.evals.b, index.r.mul(fe(17)));
    assert_eq!(proof.public.len(), 0);
}

#[test]
fn multiplication_circuit_proves() {
    let index = mul_index(10);
    let witness = vec![fe(3), fe(5), fe(15), fe(0)];
    let proof = ProverProof::create(&witness, &index, &zero_blinders());
    assert!(proof.is_ok());
}

#[test]
fn multiplication_circuit_wrong_witness_fails_division() {
    let index = mul_index(10);
    let witness = vec![fe(3), fe(5), fe(16), fe(0)];
    let err = ProverProof::create(&witness, &index, &zero_blinders()).unwrap_err();
    assert_eq!(err, ProofError::PolyDivision);
}

#[test]
fn copy_constraint_consistent_witness_proves() {
    // no gate constraints; sigma ties rows 1 and 2 of the first column
    let gates = vec![
        CircuitGate::zero((0, 0), (0, 0), (0, 0)),
        CircuitGate::zero((1, 0), (1, 0), (1, 0)),
        CircuitGate::zero((2, 0), (2, 0), (2, 0)),
        CircuitGate::zero((3, 0), (3, 0), (3, 0)),
    ];
    let index = make_index(gates, Some((1, 2)), 0, 10);
    let witness = vec![fe(9), fe(8), fe(8), fe(5)];
    assert!(ProverProof::create(&witness, &index, &zero_blinders()).is_ok());
}

#[test]
fn copy_constraint_violated_witness_fails() {
    let gates = vec![
        CircuitGate::zero((0, 0), (0, 0), (0, 0)),
        CircuitGate::zero((1, 0), (1, 0), (1, 0)),
        CircuitGate::zero((2, 0), (2, 0), (2, 0)),
        CircuitGate::zero((3, 0), (3, 0), (3, 0)),
    ];
    let index = make_index(gates, Some((1, 2)), 0, 10);
    let witness = vec![fe(9), fe(8), fe(7), fe(5)];
    let err = ProverProof::create(&witness, &index, &zero_blinders()).unwrap_err();
    assert_eq!(err, ProofError::PolyDivision);
}

#[test]
fn public_input_is_published_verbatim() {
    // one public row, whose gate cancels against the public input polynomial
    let gates = vec![
        CircuitGate::create_generic(
            (0, 0), (1, 0), (2, 0), neg(1), fe(0), fe(0), fe(0), fe(0)),
        CircuitGate::zero((0, 0), (1, 0), (2, 0)),
        CircuitGate::zero((0, 0), (1, 0), (2, 0)),
        CircuitGate::zero((0, 0), (1, 0), (2, 0)),
    ];
    let index = make_index(gates, None, 1, 10);
    let witness = vec![fe(17), fe(17), fe(0), fe(0)];
    let proof = ProverProof::create(&witness, &index, &zero_blinders()).unwrap();
    assert_eq!(proof.public, vec![fe(17)]);
}

#[test]
fn srs_too_small_is_surfaced() {
    let index = identity_index(0, 3);
    let witness = vec![fe(17), fe(17), fe(0), fe(0)];
    let err = ProverProof::create(&witness, &index, &zero_blinders()).unwrap_err();
    assert_eq!(err, ProofError::SrsTooSmall);
}

#[test]
fn proof_is_deterministic_for_fixed_inputs() {
    let index = identity_index(0, 10);
    let witness = vec![fe(17), fe(17), fe(0), fe(0)];
    let blinders: Vec<Fe> = (1..10).map(|i| fe(1000 + i)).collect();
    let p1 = ProverProof::create(&witness, &index, &blinders).unwrap();
    let p2 = ProverProof::create(&witness, &index, &blinders).unwrap();
    assert_eq!(p1.a_comm, p2.a_comm);
    assert_eq!(p1.b_comm, p2.b_comm);
    assert_eq!(p1.c_comm, p2.c_comm);
    assert_eq!(p1.z_comm, p2.z_comm);
    assert_eq!(p1.tlow_comm, p2.tlow_comm);
    assert_eq!(p1.tmid_comm, p2.tmid_comm);
    assert_eq!(p1.thgh_comm, p2.thgh_comm);
    assert_eq!(p1.proof1, p2.proof1);
    assert_eq!(p1.proof2, p2.proof2);
    assert_eq!(p1.evals, p2.evals);
    assert_eq!(p1.public, p2.public);
}

#[test]
fn blinders_change_commitments_not_success() {
    let index = identity_index(0, 10);
    let witness = vec![fe(17), fe(17), fe(0), fe(0)];
    let p1 = ProverProof::create(&witness, &index, &zero_blinders()).unwrap();
    let blinders: Vec<Fe> = (1..10).map(|i| fe(77 * i)).collect();
    let p2 = ProverProof::create(&witness, &index, &blinders).unwrap();
    assert_ne!(p1.a_comm, p2.a_comm);
}

#[test]
fn grand_product_is_all_ones_for_identity_permutation() {
    let index = identity_index(0, 10);
    let witness = vec![fe(17), fe(17), fe(0), fe(0)];
    let z = plonk_prover::prover::grand_product_evals(&index, &witness, fe(3), fe(4)).unwrap();
    assert_eq!(z.len(), 4);
    for e in z.iter() {
        assert_eq!(*e, fe(1));
    }
}

#[test]
fn grand_product_follows_the_recurrence() {
    // a swapped permutation makes the column genuinely non-trivial
    let gates = vec![
        CircuitGate::zero((0, 0), (0, 0), (0, 0)),
        CircuitGate::zero((1, 0), (1, 0), (1, 0)),
        CircuitGate::zero((2, 0), (2, 0), (2, 0)),
        CircuitGate::zero((3, 0), (3, 0), (3, 0)),
    ];
    let index = make_index(gates, Some((1, 2)), 0, 10);
    let witness = vec![fe(9), fe(8), fe(8), fe(5)];
    let beta = fe(3);
    let gamma = fe(4);
    let z = plonk_prover::prover::grand_product_evals(&index, &witness, beta, gamma).unwrap();
    assert_eq!(z[0], fe(1));
    let mut expect = fe(1);
    for j in 1..4usize {
        let row = j - 1;
        let w = witness[row];
        let sid = index.sid[row];
        let num = w.add(sid.mul(beta)).add(gamma)
            .mul(w.add(sid.mul(beta).mul(index.r)).add(gamma))
            .mul(w.add(sid.mul(beta).mul(index.o)).add(gamma));
        let den = w.add(index.sigma_evals[0][row].mul(beta)).add(gamma)
            .mul(w.add(index.sigma_evals[1][row].mul(beta)).add(gamma))
            .mul(w.add(index.sigma_evals[2][row].mul(beta)).add(gamma));
        expect = expect.mul(num.mul(den.inv().unwrap()));
        assert_eq!(z[j], expect);
    }
}

#[test]
fn wire_and_z_commitments_match_an_independent_reconstruction() {
    let index = identity_index(0, 10);
    let witness = vec![fe(17), fe(17), fe(0), fe(0)];
    let blinders: Vec<Fe> = (1..10).map(|i| fe(31 * i)).collect();
    let proof = ProverProof::create(&witness, &index, &blinders).unwrap();
    // the left wire commitment, rebuilt from the column
    let a_col = vec![witness[0], witness[0], witness[0], witness[0]];
    let abl = Poly::from_coeffs(vec![blinders[1], blinders[0]]).mul_vanishing(4);
    let ap = interpolate(&a_col, &index.domain).add(&abl);
    assert_eq!(proof.a_comm, index.srs.commit(&ap).unwrap());
    // the permutation commitment, rebuilt from a replayed transcript
    let mut sponge = FqSponge::new(&index.fq_sponge_params);
    sponge.absorb_g(&vec![proof.a_comm, proof.b_comm, proof.c_comm]);
    let beta = sponge.challenge();
    let gamma = sponge.challenge();
    let zc = plonk_prover::prover::grand_product_evals(&index, &witness, beta, gamma).unwrap();
    let zbl = Poly::from_coeffs(vec![blinders[8], blinders[7], blinders[6]]).mul_vanishing(4);
    let zp = interpolate(&zc, &index.domain).add(&zbl);
    assert_eq!(proof.z_comm, index.srs.commit(&zp).unwrap());
}

#[test]
fn chunked_commitments_recombine_to_the_whole() {
    // commit is additively homomorphic: splitting a polynomial in chunks and
    // recombining the commitments with the chunk scalars gives the
    // commitment of the recombined polynomial
    let srs = Srs::create(fe(987), 16);
    let coeffs: Vec<Fe> = (0..12).map(|i| fe(5 + 3 * i)).collect();
    let low = Poly::from_coeffs(coeffs[0..4].to_vec());
    let mid = Poly::from_coeffs(coeffs[4..8].to_vec());
    let high = Poly::from_coeffs(coeffs[8..12].to_vec());
    let x = fe(4242);
    let x4 = x.pow(4);
    let x8 = x.pow(8);
    // evaluate-style recombination: low + x^4 mid + x^8 high
    let combined = low.add(&mid.scale(x4)).add(&high.scale(x8));
    let u = srs.commit(&combined).unwrap();
    let cl = srs.commit(&low).unwrap();
    let cm = srs.commit(&mid).unwrap();
    let ch = srs.commit(&high).unwrap();
    let recombined = cl.x.add(cm.x.mul(x4)).add(ch.x.mul(x8));
    assert_eq!(u.x, recombined);
}
