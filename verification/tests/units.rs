//! Unit tests for the field, polynomial, domain, sponge and commitment
//! building blocks.

use plonk_prover::field::{Fe, P, batch_inversion};
use plonk_prover::gate::CircuitGate;
use plonk_prover::domain::{Domain, interpolate};
use plonk_prover::poly::{Poly, horner};
use plonk_prover::sponge::{FqSponge, SpongeParams};
use plonk_prover::srs::{Srs, GAffine, ProofError};

fn fe(v: u64) -> Fe {
    Fe::new(v)
}

#[test]
fn field_arithmetic_exact_values() {
    assert_eq!(fe(3).add(fe(4)), fe(7));
    assert_eq!(fe(P - 1).add(fe(2)), fe(1));
    assert_eq!(fe(3).sub(fe(4)), fe(P - 1));
    assert_eq!(fe(3).mul(fe(4)), fe(12));
    assert_eq!(fe(P - 1).mul(fe(P - 1)), fe(1));
    assert_eq!(fe(5).neg().add(fe(5)), fe(0));
    assert_eq!(fe(2).pow(10), fe(1024));
    assert_eq!(fe(2).square(), fe(4));
}

#[test]
fn field_new_reduces_any_machine_word() {
    assert_eq!(Fe::new(P), fe(0));
    assert_eq!(Fe::new(P + 5), fe(5));
    assert_eq!(Fe::new(u64::MAX).v < P, true);
}

#[test]
fn pow_edge_cases() {
    assert_eq!(fe(7).pow(0), fe(1));
    assert_eq!(fe(7).pow(1), fe(7));
    assert_eq!(fe(0).pow(0), fe(1));
    assert_eq!(fe(0).pow(5), fe(0));
}

#[test]
fn field_inverse_round_trips() {
    for v in [1u64, 2, 3, 17, 123456789, P - 1] {
        let x = fe(v);
        assert_eq!(x.mul(x.inv().unwrap()), fe(1));
    }
    assert!(fe(0).inv().is_none());
}

#[test]
fn batch_inversion_inverts_and_skips_zeros() {
    let mut v = vec![fe(2), fe(0), fe(7), fe(123), fe(0)];
    let orig = v.clone();
    assert!(batch_inversion(&mut v));
    for (x, y) in orig.iter().zip(v.iter()) {
        if x.v == 0 {
            assert_eq!(y.v, 0);
        } else {
            assert_eq!(x.mul(*y), fe(1));
        }
    }
}

#[test]
fn poly_mul_is_schoolbook() {
    // (1 + 2x)(3 + x) = 3 + 7x + 2x^2
    let a = Poly::from_coeffs(vec![fe(1), fe(2)]);
    let b = Poly::from_coeffs(vec![fe(3), fe(1)]);
    let p = a.mul(&b);
    assert_eq!(p.c, vec![fe(3), fe(7), fe(2)]);
}

#[test]
fn poly_add_sub_scale() {
    let a = Poly::from_coeffs(vec![fe(1), fe(2), fe(3)]);
    let b = Poly::from_coeffs(vec![fe(5), fe(6)]);
    assert_eq!(a.add(&b).c, vec![fe(6), fe(8), fe(3)]);
    assert_eq!(a.sub(&b).c, vec![fe(P - 4), fe(P - 4), fe(3)]);
    assert_eq!(a.scale(fe(2)).c, vec![fe(2), fe(4), fe(6)]);
}

#[test]
fn horner_evaluates() {
    // 1 + 2x + 3x^2 at x = 5: 1 + 10 + 75 = 86
    let c = vec![fe(1), fe(2), fe(3)];
    assert_eq!(horner(&c, fe(5)), fe(86));
    let p = Poly::from_coeffs(c);
    assert_eq!(p.evaluate(fe(5)), fe(86));
}

#[test]
fn division_by_vanishing_reconstructs() {
    // p of degree 6, n = 3: check p == q * (x^3 - 1) + r at a sample point
    let p = Poly::from_coeffs((1..8).map(fe).collect());
    let (q, r) = p.divide_by_vanishing(3);
    assert!(r.c.len() <= 3);
    let x = fe(999);
    let zh = x.pow(3).sub(fe(1));
    let lhs = p.evaluate(x);
    let rhs = q.evaluate(x).mul(zh).add(r.evaluate(x));
    assert_eq!(lhs, rhs);
}

#[test]
fn division_remainder_zero_iff_divisible() {
    // (x^3 - 1) * (2 + x) has remainder zero
    let f = Poly::from_coeffs(vec![fe(2), fe(1)]).mul_vanishing(3);
    let (q, r) = f.divide_by_vanishing(3);
    assert!(r.is_zero());
    assert_eq!(q.evaluate(fe(11)), fe(13));
    // adding 1 makes it indivisible
    let g = f.add(&Poly::from_coeffs(vec![fe(1)]));
    let (_, r2) = g.divide_by_vanishing(3);
    assert!(!r2.is_zero());
}

#[test]
fn interpolation_round_trips_on_the_domain() {
    let om = fe(31).pow((P - 1) / 4);
    let d = Domain::new(om, 4).unwrap();
    let evals = vec![fe(10), fe(20), fe(30), fe(40)];
    let p = interpolate(&evals, &d);
    let mut x = Fe::one();
    for e in evals.iter() {
        assert_eq!(p.evaluate(x), *e);
        x = x.mul(d.gen);
    }
}

#[test]
fn domain_rejects_a_bad_generator() {
    // 2 has order far above 4
    assert!(Domain::new(fe(2), 4).is_none());
    assert!(Domain::new(fe(2), 0).is_none());
}

#[test]
fn domain_requires_a_power_of_two_order() {
    // an element of order three exists, but three is not a power of two
    let g3 = fe(31).pow((P - 1) / 3);
    assert_eq!(g3.pow(3).v, 1);
    assert!(Domain::new(g3, 3).is_none());
}

#[test]
fn gate_verifies_the_five_term_identity() {
    // 3 * 5 - 15 == 0
    let g = CircuitGate::create_generic(
        (0, 0), (1, 0), (2, 0), fe(0), fe(0), fe(1).neg(), fe(1), fe(0));
    let good = vec![fe(3), fe(5), fe(15)];
    let bad = vec![fe(3), fe(5), fe(16)];
    assert!(g.verify_generic(&good));
    assert!(!g.verify_generic(&bad));
    // a zero row never verifies as generic
    let z = CircuitGate::zero((0, 0), (1, 0), (2, 0));
    assert!(!z.verify_generic(&good));
}

#[test]
fn selectors_read_zero_on_non_generic_rows() {
    let z = CircuitGate::zero((0, 0), (1, 0), (2, 0));
    assert_eq!(z.ql(), fe(0));
    assert_eq!(z.qr(), fe(0));
    assert_eq!(z.qo(), fe(0));
    assert_eq!(z.qm(), fe(0));
    assert_eq!(z.qc(), fe(0));
    let g = CircuitGate::create_generic(
        (0, 0), (1, 0), (2, 0), fe(1), fe(2), fe(3), fe(4), fe(5));
    assert_eq!(g.ql(), fe(1));
    assert_eq!(g.qr(), fe(2));
    assert_eq!(g.qo(), fe(3));
    assert_eq!(g.qm(), fe(4));
    assert_eq!(g.qc(), fe(5));
}

#[test]
fn sponge_is_deterministic_and_order_sensitive() {
    let params = SpongeParams { init: fe(17), mix: fe(101), shift: fe(42) };
    let g1 = GAffine { x: fe(1111) };
    let g2 = GAffine { x: fe(2222) };
    let mut s1 = FqSponge::new(&params);
    s1.absorb_g(&vec![g1, g2]);
    let c1 = s1.challenge();
    let mut s2 = FqSponge::new(&params);
    s2.absorb_g(&vec![g1, g2]);
    let c2 = s2.challenge();
    assert_eq!(c1, c2);
    // permuting the absorb order changes the challenge
    let mut s3 = FqSponge::new(&params);
    s3.absorb_g(&vec![g2, g1]);
    assert_ne!(c1, s3.challenge());
    // skipping an absorption changes the challenge
    let mut s4 = FqSponge::new(&params);
    s4.absorb_g(&vec![g1]);
    assert_ne!(c1, s4.challenge());
}

#[test]
fn commit_is_evaluation_at_the_setup_scalar() {
    let tau = fe(987);
    let srs = Srs::create(tau, 8);
    let p = Poly::from_coeffs(vec![fe(4), fe(0), fe(9)]);
    let c = srs.commit(&p).unwrap();
    assert_eq!(c.x, p.evaluate(tau));
}

#[test]
fn commit_is_additively_homomorphic() {
    let srs = Srs::create(fe(987), 8);
    let p = Poly::from_coeffs(vec![fe(4), fe(1), fe(9)]);
    let q = Poly::from_coeffs(vec![fe(2), fe(7)]);
    let cp = srs.commit(&p).unwrap();
    let cq = srs.commit(&q).unwrap();
    let cs = srs.commit(&p.add(&q)).unwrap();
    assert_eq!(cs.x, cp.x.add(cq.x));
}

#[test]
fn commit_rejects_what_outgrows_the_string() {
    let srs = Srs::create(fe(987), 2);
    let p = Poly::from_coeffs(vec![fe(4), fe(1), fe(9)]);
    assert_eq!(srs.commit(&p).unwrap_err(), ProofError::SrsTooSmall);
}

#[test]
fn open_commits_the_quotient_of_the_combination() {
    // one polynomial, so the opening is commit((p - p(z)) / (x - z)),
    // checked against a hand-built quotient
    let tau = fe(987);
    let srs = Srs::create(tau, 8);
    let p = Poly::from_coeffs(vec![fe(4), fe(1), fe(9)]);
    let z = fe(55);
    let proof = srs.open(&vec![p.clone()], fe(7), z).unwrap();
    // synthetic quotient of 4 + x + 9x^2 by (x - 55): [1 + 9*55, 9]
    let q = Poly::from_coeffs(vec![fe(1).add(fe(9).mul(z)), fe(9)]);
    let cq = srs.commit(&q).unwrap();
    assert_eq!(proof.x, cq.x);
}
