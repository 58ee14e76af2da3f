//! Schnorr identification (proof of knowledge of a secret key), made
//! non-interactive with `ark-transcript`, and the transcript labels
//! shared by the protocol's proofs.
use vstd::prelude::*;
use vstd::string::StringSliceAdditionalSpecFns;

use crate::error::CryptoError;
use crate::group::{
    group_element, lemma_distrib, point_add, point_mul, scalar_add, scalar_mul, scalar_valid, spec_add, spec_mul,
    spec_scalar_add, spec_scalar_mul, Point, Scalar,
};
use crate::transcript::{challenge_two_labels, spec_challenge, witness_two_labels};

verus! {

/// Transcript label, and error label, of Schnorr identification proofs.
pub const SCHNORR: &'static str = "Schnorr Identification";

/// Label of the challenge in both proofs.
pub const CHALLENGE_LABEL: &'static str = "ch";

/// Label of the fork that derives the prover's nonce.
pub const NONCE_LABEL: &'static str = "rng";

/// A Schnorr identification proof that `pk = sk * g`: the commitment
/// `a = o * g` and the response `r = o + c * sk`.
#[derive(Clone, Copy, PartialEq, Eq, Debug)]
pub struct SchnorrProof {
    pub random_commit: Point,
    pub opening: Scalar,
}

/// The challenge of a Schnorr identification proof: the transcript
/// starts from `seed`, takes the `domain` label and its own label, then
/// `g, pk, a`.
pub open spec fn schnorr_challenge(seed: Seq<u8>, domain: Seq<u8>, g: Point, pk: Point, a: Point) -> Scalar {
    spec_challenge(seed, seq![domain, SCHNORR.spec_bytes()], seq![g, pk, a], CHALLENGE_LABEL.spec_bytes())
}

/// The verification equation of a Schnorr identification proof:
/// `r * g == a + c * pk`.
pub open spec fn schnorr_holds(g: Point, pk: Point, proof: SchnorrProof, c: Scalar) -> bool {
    spec_mul(g, proof.opening) == spec_add(proof.random_commit, spec_mul(pk, c))
}

/// `proof` is an honest proof for the secret `sk`, with some valid nonce
/// `o`: `a = o * g` and `r = o + c * sk` for the valid challenge `c` of
/// the transcript.
pub open spec fn schnorr_made(seed: Seq<u8>, domain: Seq<u8>, g: Point, pk: Point, sk: Scalar, proof: SchnorrProof) -> bool {
    let c = schnorr_challenge(seed, domain, g, pk, proof.random_commit);
    &&& scalar_valid(c)
    &&& scalar_valid(spec_scalar_mul(c, sk))
    &&& exists|o: Scalar|
        {
            &&& scalar_valid(o)
            &&& proof.random_commit == spec_mul(g, o)
            &&& proof.opening == spec_scalar_add(o, spec_scalar_mul(c, sk))
        }
}

/// Completeness: an honest proof for `pk = sk * g` verifies.
pub proof fn lemma_schnorr_complete(seed: Seq<u8>, domain: Seq<u8>, g: Point, pk: Point, sk: Scalar, proof: SchnorrProof)
    requires
        group_element(g),
        scalar_valid(sk),
        pk == spec_mul(g, sk),
        schnorr_made(seed, domain, g, pk, sk, proof),
    ensures
        schnorr_holds(g, pk, proof, schnorr_challenge(seed, domain, g, pk, proof.random_commit)),
{
    let c = schnorr_challenge(seed, domain, g, pk, proof.random_commit);
    let cw = spec_scalar_mul(c, sk);
    let o = choose|o: Scalar|
        {
            &&& scalar_valid(o)
            &&& proof.random_commit == spec_mul(g, o)
            &&& proof.opening == spec_scalar_add(o, cw)
        };
    lemma_distrib(g, g, o, cw);
    lemma_distrib(g, g, sk, c);
}

/// Prove knowledge of `sk` with `pk = sk * g`, in the transcript that
/// starts from `seed` and takes the `domain` label.
pub fn schnorr_prove(seed: &[u8], domain: &[u8], g: &Point, pk: &Point, sk: &Scalar) -> (proof:
    SchnorrProof)
    ensures
        schnorr_made(seed@, domain@, *g, *pk, *sk, proof),
        *pk == spec_mul(*g, *sk) ==> schnorr_holds(
            *g,
            *pk,
            proof,
            schnorr_challenge(seed@, domain@, *g, *pk, proof.random_commit),
        ),
{
    let statement = [*g, *pk];
    let omega = witness_two_labels(seed, domain, SCHNORR.as_bytes(), &statement, NONCE_LABEL.as_bytes());
    let a = point_mul(g, &omega);
    let all = [*g, *pk, a];
    let c = challenge_two_labels(seed, domain, SCHNORR.as_bytes(), &all, CHALLENGE_LABEL.as_bytes());
    proof {
        assert(all@ =~= seq![*g, *pk, a]);
    }
    let cw = scalar_mul(&c, sk);
    let r = scalar_add(&omega, &cw);
    let proof = SchnorrProof { random_commit: a, opening: r };
    proof {
        use_type_invariant(g);
        use_type_invariant(sk);
        assert(scalar_valid(omega));
        if *pk == spec_mul(*g, *sk) {
            lemma_schnorr_complete(seed@, domain@, *g, *pk, *sk, proof);
        }
    }
    proof
}

/// Verify a Schnorr identification proof for `pk` in the transcript that
/// starts from `seed` and takes the `domain` label.
pub fn schnorr_verify(seed: &[u8], domain: &[u8], g: &Point, pk: &Point, proof: &SchnorrProof) -> (r:
    Result<(), CryptoError>)
    ensures
        r is Ok <==> schnorr_holds(
            *g,
            *pk,
            *proof,
            schnorr_challenge(seed@, domain@, *g, *pk, proof.random_commit),
        ),
        r is Err ==> r == Err::<(), CryptoError>(
            CryptoError::ProofVerificationError(SCHNORR),
        ),
{
    let all = [*g, *pk, proof.random_commit];
    let c = challenge_two_labels(seed, domain, SCHNORR.as_bytes(), &all, CHALLENGE_LABEL.as_bytes());
    proof {
        assert(all@ =~= seq![*g, *pk, proof.random_commit]);
    }
    let lhs = point_mul(g, &proof.opening);
    let pc = point_mul(pk, &c);
    let rhs = point_add(&proof.random_commit, &pc);
    if !lhs.equals(&rhs) {
        return Err(CryptoError::ProofVerificationError(SCHNORR));
    }
    Ok(())
}

} // verus!
