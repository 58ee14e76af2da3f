//! Chaum-Pedersen proofs of discrete logarithm equality, made
//! non-interactive with `ark-transcript`.
//!
//! For parameters `g, h` and a statement `(x, y)`, the prover shows that
//! `x = w * g` and `y = w * h` for one witness `w`.
use vstd::prelude::*;
use vstd::string::StringSliceAdditionalSpecFns;

use crate::error::CryptoError;
use crate::group::{
    group_element, lemma_distrib, point_add, point_mul, scalar_add, scalar_mul, scalar_valid, spec_add, spec_mul,
    spec_scalar_add, spec_scalar_mul, Point, Scalar,
};
use crate::proofs::{CHALLENGE_LABEL, NONCE_LABEL};
use crate::transcript::{challenge, spec_challenge};

verus! {

/// Transcript label, and error label, of Chaum-Pedersen proofs.
pub const CHAUM_PEDERSEN: &'static str = "Chaum-Pedersen";

/// The proof system itself.
pub struct DLEquality;

/// The two bases `g` and `h`.
#[derive(Clone, Copy, PartialEq, Eq, Debug)]
pub struct Parameters {
    pub g: Point,
    pub h: Point,
}

impl Parameters {
    pub fn new(g: &Point, h: &Point) -> (p: Parameters)
        ensures
            p.g == *g,
            p.h == *h,
    {
        Parameters { g: *g, h: *h }
    }
}

/// The statement `(x, y)`: for some secret `w`, `x = w * g` and
/// `y = w * h`.
#[derive(Clone, Copy, PartialEq, Eq, Debug)]
pub struct Statement(pub Point, pub Point);

impl Statement {
    pub fn new(point_a: &Point, point_b: &Point) -> (s: Statement)
        ensures
            s.0 == *point_a,
            s.1 == *point_b,
    {
        Statement(*point_a, *point_b)
    }
}

/// A proof: the commitments `a = o * g`, `b = o * h` and the response
/// `r = o + c * w`.
#[derive(Clone, Copy, PartialEq, Eq, Debug)]
pub struct Proof {
    pub a: Point,
    pub b: Point,
    pub r: Scalar,
}

/// The prover.
pub struct Prover;

/// The challenge of a Chaum-Pedersen proof: the transcript starts from
/// `seed`, takes the label, then `g, h, x, y, a, b`.
pub open spec fn dleq_challenge(
    seed: Seq<u8>,
    g: Point,
    h: Point,
    x: Point,
    y: Point,
    a: Point,
    b: Point,
) -> Scalar {
    spec_challenge(seed, seq![CHAUM_PEDERSEN.spec_bytes()], seq![g, h, x, y, a, b], CHALLENGE_LABEL.spec_bytes())
}

/// The two verification equations of a Chaum-Pedersen proof:
/// `r * g == a + c * x` and `r * h == b + c * y`.
pub open spec fn dleq_holds(g: Point, h: Point, x: Point, y: Point, proof: Proof, c: Scalar) -> bool {
    &&& spec_mul(g, proof.r) == spec_add(proof.a, spec_mul(x, c))
    &&& spec_mul(h, proof.r) == spec_add(proof.b, spec_mul(y, c))
}

/// `proof` is an honest proof for `witness`, with some valid nonce `o`:
/// `a = o * g`, `b = o * h` and `r = o + c * w` for the valid challenge
/// `c` of the transcript.
pub open spec fn dleq_made(
    seed: Seq<u8>,
    parameters: Parameters,
    statement: Statement,
    witness: Scalar,
    proof: Proof,
) -> bool {
    let c = dleq_challenge(
        seed,
        parameters.g,
        parameters.h,
        statement.0,
        statement.1,
        proof.a,
        proof.b,
    );
    &&& scalar_valid(c)
    &&& scalar_valid(spec_scalar_mul(c, witness))
    &&& exists|o: Scalar|
        {
            &&& scalar_valid(o)
            &&& proof.a == spec_mul(parameters.g, o)
            &&& proof.b == spec_mul(parameters.h, o)
            &&& proof.r == spec_scalar_add(o, spec_scalar_mul(c, witness))
        }
}

/// `proof` passes verification.
pub open spec fn dleq_valid(seed: Seq<u8>, parameters: Parameters, statement: Statement, proof: Proof) -> bool {
    dleq_holds(
        parameters.g,
        parameters.h,
        statement.0,
        statement.1,
        proof,
        dleq_challenge(
            seed,
            parameters.g,
            parameters.h,
            statement.0,
            statement.1,
            proof.a,
            proof.b,
        ),
    )
}

impl Prover {
    /// Prove `statement` with `witness`, in the transcript that starts
    /// from `seed`; the nonce comes from a fork of the transcript fed
    /// with fresh randomness.
    pub fn create_proof(parameters: &Parameters, statement: &Statement, witness: &Scalar, seed: &[u8]) -> (proof: Proof)
        ensures
            dleq_made(seed@, *parameters, *statement, *witness, proof),
            statement.0 == spec_mul(parameters.g, *witness) && statement.1 == spec_mul(
                parameters.h,
                *witness,
            ) ==> dleq_valid(seed@, *parameters, *statement, proof),
    {
        proof {
            use_type_invariant(&parameters.g);
            use_type_invariant(&parameters.h);
            use_type_invariant(witness);
        }
        let public = [parameters.g, parameters.h, statement.0, statement.1];
        let omega = crate::transcript::witness(
            seed,
            CHAUM_PEDERSEN.as_bytes(),
            &public,
            NONCE_LABEL.as_bytes(),
        );
        let a = point_mul(&parameters.g, &omega);
        let b = point_mul(&parameters.h, &omega);
        let all = [parameters.g, parameters.h, statement.0, statement.1, a, b];
        let c = challenge(seed, CHAUM_PEDERSEN.as_bytes(), &all, CHALLENGE_LABEL.as_bytes());
        proof {
            assert(all@ =~= seq![parameters.g, parameters.h, statement.0, statement.1, a, b]);
        }
        let cw = scalar_mul(&c, witness);
        let r = scalar_add(&omega, &cw);
        let proof = Proof { a, b, r };
        proof {
            assert(scalar_valid(omega));
            if statement.0 == spec_mul(parameters.g, *witness) && statement.1 == spec_mul(
                parameters.h,
                *witness,
            ) {
                lemma_dleq_complete(seed@, *parameters, *statement, *witness, proof);
            }
        }
        proof
    }
}

impl Proof {
    /// Verify the proof of `statement` in the transcript that starts from
    /// `seed`.
    pub fn verify(&self, parameters: &Parameters, statement: &Statement, seed: &[u8]) -> (r: Result<(), CryptoError>)
        ensures
            r is Ok <==> dleq_valid(seed@, *parameters, *statement, *self),
            r is Err ==> r == Err::<(), CryptoError>(
                CryptoError::ProofVerificationError(CHAUM_PEDERSEN),
            ),
    {
        let all = [parameters.g, parameters.h, statement.0, statement.1, self.a, self.b];
        let c = challenge(seed, CHAUM_PEDERSEN.as_bytes(), &all, CHALLENGE_LABEL.as_bytes());
        proof {
            assert(all@ =~= seq![parameters.g, parameters.h, statement.0, statement.1, self.a, self.b]);
        }
        let lhs = point_mul(&parameters.g, &self.r);
        let xc = point_mul(&statement.0, &c);
        let rhs = point_add(&self.a, &xc);
        if !lhs.equals(&rhs) {
            return Err(CryptoError::ProofVerificationError(CHAUM_PEDERSEN));
        }
        let lhs = point_mul(&parameters.h, &self.r);
        let yc = point_mul(&statement.1, &c);
        let rhs = point_add(&self.b, &yc);
        if !lhs.equals(&rhs) {
            return Err(CryptoError::ProofVerificationError(CHAUM_PEDERSEN));
        }
        Ok(())
    }
}

impl DLEquality {
    /// Prove `statement` with `witness`; this prover never fails.
    pub fn prove(parameters: &Parameters, statement: &Statement, witness: &Scalar, seed: &[u8]) -> (r: Result<Proof, CryptoError>)
        ensures
            r is Ok,
            dleq_made(seed@, *parameters, *statement, *witness, r->Ok_0),
            statement.0 == spec_mul(parameters.g, *witness) && statement.1 == spec_mul(
                parameters.h,
                *witness,
            ) ==> dleq_valid(seed@, *parameters, *statement, r->Ok_0),
    {
        Ok(Prover::create_proof(parameters, statement, witness, seed))
    }

    /// Verify `proof` of `statement`.
    pub fn verify(parameters: &Parameters, statement: &Statement, proof: &Proof, seed: &[u8]) -> (r: Result<(), CryptoError>)
        ensures
            r is Ok <==> dleq_valid(seed@, *parameters, *statement, *proof),
            r is Err ==> r == Err::<(), CryptoError>(
                CryptoError::ProofVerificationError(CHAUM_PEDERSEN),
            ),
    {
        proof.verify(parameters, statement, seed)
    }
}

/// Completeness: an honest proof of a true statement verifies.  Where
/// `x = w * g`, `y = w * h` and the proof was made with the witness `w`,
/// both verification equations hold, whatever the nonce.
pub proof fn lemma_dleq_complete(
    seed: Seq<u8>,
    parameters: Parameters,
    statement: Statement,
    w: Scalar,
    proof: Proof,
)
    requires
        group_element(parameters.g),
        group_element(parameters.h),
        scalar_valid(w),
        statement.0 == spec_mul(parameters.g, w),
        statement.1 == spec_mul(parameters.h, w),
        dleq_made(seed, parameters, statement, w, proof),
    ensures
        dleq_valid(seed, parameters, statement, proof),
{
    let c = dleq_challenge(
        seed,
        parameters.g,
        parameters.h,
        statement.0,
        statement.1,
        proof.a,
        proof.b,
    );
    let cw = spec_scalar_mul(c, w);
    let o = choose|o: Scalar|
        {
            &&& scalar_valid(o)
            &&& proof.a == spec_mul(parameters.g, o)
            &&& proof.b == spec_mul(parameters.h, o)
            &&& proof.r == spec_scalar_add(o, cw)
        };
    lemma_distrib(parameters.g, parameters.g, o, cw);
    lemma_distrib(parameters.g, parameters.g, w, c);
    lemma_distrib(parameters.h, parameters.h, o, cw);
    lemma_distrib(parameters.h, parameters.h, w, c);
}

} // verus!
