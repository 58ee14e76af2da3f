//! Proofs that a card was masked, or a masked card remasked, correctly
//! under the aggregate key: Chaum-Pedersen proofs that the added mask is
//! `(r * g, r * k)` for one `r`.
use vstd::prelude::*;
use vstd::string::StringSliceAdditionalSpecFns;

use crate::group::{group_element, lemma_add, lemma_assoc, lemma_identity, lemma_mul, lemma_neg, minus_one, point_valid, scalar_valid};
use crate::error::CryptoError;
use crate::group::{point_add, point_mul, scalar_from_u64, scalar_neg, spec_add, spec_mul, Point, Scalar};
use crate::keys::AggregatedPublicKeys;
use crate::masking::{
    spec_cipher_add, spec_cipher_mul, spec_encrypt, spec_remask, Ciphertext, MaskedCard,
    Plaintext, UnmaskedCard,
};
use crate::chaum_pedersen;
use crate::chaum_pedersen::{dleq_made, dleq_valid, lemma_dleq_complete, CHAUM_PEDERSEN};
use crate::setup::Parameters;

verus! {

/// Seed of the transcripts of masking proofs.
pub const MASKING_RNG_SEED: &'static str = "Masking Proof";

/// Seed of the transcripts of remasking proofs.
pub const REMASKING_RNG_SEED: &'static str = "Remasking Proof";

/// The proof that a card was masked honestly.
pub type ZKProofMasking = chaum_pedersen::Proof;

/// The proof that a masked card was remasked honestly.
pub type ZKProofRemasking = chaum_pedersen::Proof;

/// What a masking proof is about: the mask `(c.0, c.1 - m)` that was
/// added to the card `m`.
pub open spec fn mask_statement(card: UnmaskedCard, masked: MaskedCard) -> (Point, Point) {
    (masked.0, spec_add(masked.1, spec_mul(card.0, minus_one())))
}

/// What a remasking proof is about: the mask `c' - c` that was added to
/// the masked card `c`.
pub open spec fn remask_statement(original: MaskedCard, remasked: MaskedCard) -> (Point, Point) {
    let d = spec_cipher_add(remasked, spec_cipher_mul(original, minus_one()));
    (d.0, d.1)
}

/// The masking proof holds for the card, its masking, and the key `k`.
pub open spec fn mask_holds(g: Point, k: Point, card: UnmaskedCard, masked: MaskedCard, proof: ZKProofMasking) -> bool {
    let (x, y) = mask_statement(card, masked);
    dleq_valid(
        MASKING_RNG_SEED.spec_bytes(),
        chaum_pedersen::Parameters { g: g, h: k },
        chaum_pedersen::Statement(x, y),
        proof,
    )
}

/// The remasking proof holds for the masked card, its remasking, and
/// the key `k`.
pub open spec fn remask_holds(g: Point, k: Point, original: MaskedCard, remasked: MaskedCard, proof: ZKProofRemasking) -> bool {
    let (x, y) = remask_statement(original, remasked);
    dleq_valid(
        REMASKING_RNG_SEED.spec_bytes(),
        chaum_pedersen::Parameters { g: g, h: k },
        chaum_pedersen::Statement(x, y),
        proof,
    )
}

/// `(m + x) + (-1) * m == x`.
proof fn lemma_remove_added(m: Point, x: Point)
    requires
        group_element(m),
        point_valid(x),
    ensures
        spec_add(spec_add(m, x), spec_mul(m, minus_one())) == x,
{
    let n = spec_mul(m, minus_one());
    lemma_neg(m);
    lemma_add(m, x);
    lemma_assoc(m, x, n);
    lemma_identity(m, x);
}

/// Completeness of masking proofs: the proof that `prove_mask` makes
/// for the card `m` masked with `r` under the key `k` verifies.
pub proof fn lemma_mask_proof_complete(g: Point, k: Point, card: UnmaskedCard, r: Scalar, proof: ZKProofMasking)
    requires
        group_element(g),
        group_element(k),
        group_element(card.0),
        scalar_valid(r),
        ({
            let (x, y) = mask_statement(card, spec_encrypt(g, k, card, r));
            dleq_made(
                MASKING_RNG_SEED.spec_bytes(),
                chaum_pedersen::Parameters { g: g, h: k },
                chaum_pedersen::Statement(x, y),
                r,
                proof,
            )
        }),
    ensures
        mask_holds(g, k, card, spec_encrypt(g, k, card, r), proof),
{
    lemma_mul(k, r);
    lemma_remove_added(card.0, spec_mul(k, r));
    let (x, y) = mask_statement(card, spec_encrypt(g, k, card, r));
    lemma_dleq_complete(
        MASKING_RNG_SEED.spec_bytes(),
        chaum_pedersen::Parameters { g: g, h: k },
        chaum_pedersen::Statement(x, y),
        r,
        proof,
    );
}

/// Completeness of remasking proofs: the proof that `prove_remask` makes
/// for the masked card `c` remasked with `alpha` under the key `k`
/// verifies.
pub proof fn lemma_remask_proof_complete(
    g: Point,
    k: Point,
    c: MaskedCard,
    alpha: Scalar,
    proof: ZKProofRemasking,
)
    requires
        group_element(g),
        group_element(k),
        group_element(c.0),
        group_element(c.1),
        scalar_valid(alpha),
        ({
            let (x, y) = remask_statement(c, spec_remask(g, k, c, alpha));
            dleq_made(
                REMASKING_RNG_SEED.spec_bytes(),
                chaum_pedersen::Parameters { g: g, h: k },
                chaum_pedersen::Statement(x, y),
                alpha,
                proof,
            )
        }),
    ensures
        remask_holds(g, k, c, spec_remask(g, k, c, alpha), proof),
{
    lemma_mul(g, alpha);
    lemma_mul(k, alpha);
    lemma_identity(k, spec_mul(k, alpha));
    lemma_remove_added(c.0, spec_mul(g, alpha));
    lemma_remove_added(c.1, spec_mul(k, alpha));
    let (x, y) = remask_statement(c, spec_remask(g, k, c, alpha));
    lemma_dleq_complete(
        REMASKING_RNG_SEED.spec_bytes(),
        chaum_pedersen::Parameters { g: g, h: k },
        chaum_pedersen::Statement(x, y),
        alpha,
        proof,
    );
}

fn minus_one_scalar() -> (s: Scalar)
    ensures
        s == minus_one(),
{
    let one = scalar_from_u64(1);
    scalar_neg(&one)
}

impl Parameters {
    /// Mask a card with the factor `r` under the key `shared_key`, and
    /// prove it.
    pub fn prove_mask(&self, shared_key: &Point, original_card: &UnmaskedCard, r: &Scalar) -> (res: (
        MaskedCard,
        ZKProofMasking,
    ))
        ensures
            res.0 == spec_encrypt(self.enc_generator, *shared_key, *original_card, *r),
            ({
                let (x, y) = mask_statement(*original_card, res.0);
                dleq_made(
                    MASKING_RNG_SEED.spec_bytes(),
                    chaum_pedersen::Parameters { g: self.enc_generator, h: *shared_key },
                    chaum_pedersen::Statement(x, y),
                    *r,
                    res.1,
                )
            }),
            mask_holds(self.enc_generator, *shared_key, *original_card, res.0, res.1),
    {
        proof {
            use_type_invariant(&self.enc_generator);
            use_type_invariant(shared_key);
            use_type_invariant(&original_card.0);
            use_type_invariant(r);
        }
        let masked_card = original_card.mask_card(&self.enc_generator, shared_key, r);
        let minus = minus_one_scalar();
        let negative_original = point_mul(&original_card.0, &minus);
        let statement_cipher = point_add(&masked_card.1, &negative_original);
        let cp_parameters = chaum_pedersen::Parameters::new(&self.enc_generator, shared_key);
        let cp_statement = chaum_pedersen::Statement::new(&masked_card.0, &statement_cipher);
        let proof = chaum_pedersen::DLEquality::prove(
            &cp_parameters,
            &cp_statement,
            r,
            MASKING_RNG_SEED.as_bytes(),
        ).unwrap();
        proof {
            lemma_mask_proof_complete(self.enc_generator, *shared_key, *original_card, *r, proof);
        }
        (masked_card, proof)
    }

    /// Verify a masking proof.
    pub fn verify_mask(
        &self,
        shared_key: &Point,
        card: &UnmaskedCard,
        masked_card: &MaskedCard,
        proof: &ZKProofMasking,
    ) -> (r: Result<(), CryptoError>)
        ensures
            r is Ok <==> mask_holds(self.enc_generator, *shared_key, *card, *masked_card, *proof),
            r is Err ==> r == Err::<(), CryptoError>(
                CryptoError::ProofVerificationError(CHAUM_PEDERSEN),
            ),
    {
        let minus = minus_one_scalar();
        let negative_original = point_mul(&card.0, &minus);
        let statement_cipher = point_add(&masked_card.1, &negative_original);
        let cp_parameters = chaum_pedersen::Parameters::new(&self.enc_generator, shared_key);
        let cp_statement = chaum_pedersen::Statement::new(&masked_card.0, &statement_cipher);
        chaum_pedersen::DLEquality::verify(&cp_parameters, &cp_statement, proof, MASKING_RNG_SEED.as_bytes())
    }

    /// Remask a masked card with the factor `alpha` under the key
    /// `shared_key`, and prove it.
    pub fn prove_remask(&self, shared_key: &Point, original_card: &MaskedCard, alpha: &Scalar) -> (res: (
        MaskedCard,
        ZKProofRemasking,
    ))
        ensures
            res.0 == spec_remask(self.enc_generator, *shared_key, *original_card, *alpha),
            ({
                let (x, y) = remask_statement(*original_card, res.0);
                dleq_made(
                    REMASKING_RNG_SEED.spec_bytes(),
                    chaum_pedersen::Parameters { g: self.enc_generator, h: *shared_key },
                    chaum_pedersen::Statement(x, y),
                    *alpha,
                    res.1,
                )
            }),
            remask_holds(self.enc_generator, *shared_key, *original_card, res.0, res.1),
    {
        proof {
            use_type_invariant(&self.enc_generator);
            use_type_invariant(shared_key);
            use_type_invariant(&original_card.0);
            use_type_invariant(&original_card.1);
            use_type_invariant(alpha);
        }
        let remasked = original_card.remask_card(&self.enc_generator, shared_key, alpha);
        let minus = minus_one_scalar();
        let negative_original = original_card.mul_scalar(&minus);
        let statement_cipher = remasked.add_ciphertext(&negative_original);
        let cp_parameters = chaum_pedersen::Parameters::new(&self.enc_generator, shared_key);
        let cp_statement = chaum_pedersen::Statement::new(&statement_cipher.0, &statement_cipher.1);
        let proof = chaum_pedersen::DLEquality::prove(
            &cp_parameters,
            &cp_statement,
            alpha,
            REMASKING_RNG_SEED.as_bytes(),
        ).unwrap();
        proof {
            lemma_remask_proof_complete(self.enc_generator, *shared_key, *original_card, *alpha, proof);
        }
        (remasked, proof)
    }

    /// Verify a remasking proof.
    pub fn verify_remask(
        &self,
        shared_key: &Point,
        original_masked: &MaskedCard,
        remasked: &MaskedCard,
        proof: &ZKProofRemasking,
    ) -> (r: Result<(), CryptoError>)
        ensures
            r is Ok <==> remask_holds(
                self.enc_generator,
                *shared_key,
                *original_masked,
                *remasked,
                *proof,
            ),
            r is Err ==> r == Err::<(), CryptoError>(
                CryptoError::ProofVerificationError(CHAUM_PEDERSEN),
            ),
    {
        let minus = minus_one_scalar();
        let negative_original = original_masked.mul_scalar(&minus);
        let statement_cipher = remasked.add_ciphertext(&negative_original);
        let cp_parameters = chaum_pedersen::Parameters::new(&self.enc_generator, shared_key);
        let cp_statement = chaum_pedersen::Statement::new(&statement_cipher.0, &statement_cipher.1);
        chaum_pedersen::DLEquality::verify(&cp_parameters, &cp_statement, proof, REMASKING_RNG_SEED.as_bytes())
    }
}

/// Masked cards with their masking proofs.
#[derive(Clone, Debug)]
pub struct MaskingBatch {
    pub masked_cards: Vec<MaskedCard>,
    pub masking_proofs: Vec<ZKProofMasking>,
}

impl<'p> AggregatedPublicKeys<'p> {
    /// Mask a card using our aggregate public key.
    pub fn mask_card(&self, plaintext: &Plaintext, r: &Scalar) -> (c: Ciphertext)
        ensures
            c == spec_encrypt(self.spec_parameters().enc_generator, self.spec_key(), *plaintext, *r),
    {
        self.parameters().mask_card(plaintext, self.aggregate_key(), r)
    }

    /// Mask each card with its factor and prove it; cards without a
    /// factor, or factors without a card, are left out.
    pub fn prove_masks(&self, cards: &[UnmaskedCard], rs: &[Scalar]) -> (batch: MaskingBatch)
        ensures
            batch.masked_cards@.len() == batch.masking_proofs@.len(),
            batch.masked_cards@.len() == if cards@.len() <= rs@.len() {
                cards@.len()
            } else {
                rs@.len()
            },
            forall|i: int|
                0 <= i < batch.masked_cards@.len() ==> #[trigger] batch.masked_cards@[i]
                    == spec_encrypt(
                    self.spec_parameters().enc_generator,
                    self.spec_key(),
                    cards@[i],
                    rs@[i],
                ),
            forall|i: int|
                0 <= i < batch.masked_cards@.len() ==> #[trigger] mask_holds(
                    self.spec_parameters().enc_generator,
                    self.spec_key(),
                    cards@[i],
                    batch.masked_cards@[i],
                    batch.masking_proofs@[i],
                ),
    {
        let mut masked_cards: Vec<MaskedCard> = Vec::new();
        let mut masking_proofs: Vec<ZKProofMasking> = Vec::new();
        let n = if cards.len() <= rs.len() {
            cards.len()
        } else {
            rs.len()
        };
        let mut i: usize = 0;
        while i < n
            invariant
                n <= cards@.len(),
                n <= rs@.len(),
                i <= n,
                masked_cards@.len() == i,
                masking_proofs@.len() == i,
                forall|j: int|
                    0 <= j < i ==> #[trigger] masked_cards@[j] == spec_encrypt(
                        self.spec_parameters().enc_generator,
                        self.spec_key(),
                        cards@[j],
                        rs@[j],
                    ),
                forall|j: int|
                    0 <= j < i ==> #[trigger] mask_holds(
                        self.spec_parameters().enc_generator,
                        self.spec_key(),
                        cards@[j],
                        masked_cards@[j],
                        masking_proofs@[j],
                    ),
            decreases n - i,
        {
            let (mc, proof) = self.parameters().prove_mask(self.aggregate_key(), &cards[i], &rs[i]);
            masked_cards.push(mc);
            masking_proofs.push(proof);
            i = i + 1;
        }
        MaskingBatch { masked_cards, masking_proofs }
    }

    /// Verify the masking of each card, in order, stopping at the first
    /// failure.
    pub fn verify_masks(&self, cards: &[UnmaskedCard], masked: &MaskingBatch) -> (r: Result<
        (),
        CryptoError,
    >)
        requires
            cards@.len() <= masked.masked_cards@.len(),
            cards@.len() <= masked.masking_proofs@.len(),
        ensures
            r is Ok <==> forall|i: int|
                0 <= i < cards@.len() ==> #[trigger] mask_holds(
                    self.spec_parameters().enc_generator,
                    self.spec_key(),
                    cards@[i],
                    masked.masked_cards@[i],
                    masked.masking_proofs@[i],
                ),
            r is Err ==> r == Err::<(), CryptoError>(
                CryptoError::ProofVerificationError(CHAUM_PEDERSEN),
            ),
    {
        let mut i: usize = 0;
        while i < cards.len()
            invariant
                i <= cards@.len(),
                cards@.len() <= masked.masked_cards@.len(),
                cards@.len() <= masked.masking_proofs@.len(),
                forall|j: int|
                    0 <= j < i ==> #[trigger] mask_holds(
                        self.spec_parameters().enc_generator,
                        self.spec_key(),
                        cards@[j],
                        masked.masked_cards@[j],
                        masked.masking_proofs@[j],
                    ),
            decreases cards@.len() - i,
        {
            match self.parameters().verify_mask(
                self.aggregate_key(),
                &cards[i],
                &masked.masked_cards[i],
                &masked.masking_proofs[i],
            ) {
                Ok(()) => {},
                Err(e) => {
                    return Err(e);
                },
            }
            i = i + 1;
        }
        Ok(())
    }
}

} // verus!
