//! Prover core of a PLONK-style zero-knowledge argument over a small
//! FFT-friendly prime field.
//!
//! The crate builds, from a circuit of generic constraint gates, a witness
//! assignment and a structured reference string, the polynomials and
//! commitments of a non-interactive proof: the blinded wire polynomials, the
//! grand-product permutation polynomial, the quotient by the vanishing
//! polynomial of the evaluation domain, the linearization polynomial, and the
//! two aggregated opening proofs, all bound together by a sponge transcript.
//!
//! The cryptographic collaborators are models inside the scalar field: a
//! commitment is an inner product with the powers of a setup scalar rather
//! than a pairing-curve multi-scalar multiplication, and the transcript
//! sponge is a simple exactly-specified mix rather than Poseidon.  The
//! models keep the interfaces and the homomorphic structure the prover
//! relies on, but proofs built here are not interoperable with a verifier
//! of the pairing-based scheme.

pub mod field;
pub mod gate;
pub mod poly;
pub mod domain;
pub mod sponge;
pub mod srs;
pub mod prover;

pub use field::Fe;
