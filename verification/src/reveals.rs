//! Revealing masked cards: each player publishes a reveal token
//! `sk * c.0` for the masked card `c` with a Chaum-Pedersen proof, and
//! the tokens of all players together unmask the card.
use vstd::prelude::*;
use vstd::string::StringSliceAdditionalSpecFns;

use crate::error::{CardProtocolError, CardResult, CryptoError};
use crate::group::{
    point_add, point_from_bytes, point_len, point_mul, point_sub, point_to_bytes, scalar_from_bytes,
    scalar_to_bytes, spec_add, spec_mul, spec_point_bytes, spec_point_from_bytes,
    spec_scalar_bytes, spec_scalar_from_bytes, spec_sub, Point, Scalar, group_element, lemma_add, lemma_distrib, lemma_identity, lemma_mul, lemma_mul_valid, point_valid,
    scalar_valid,
};
use crate::keys::{key_sum, lemma_key_sum_valid, slice_range, AggregatedPublicKeys, PlayerKeypair, SerializationError};
use crate::masking::{spec_encrypt, Ciphertext, MaskedCard, Plaintext, UnmaskedCard};
use crate::chaum_pedersen;
use crate::chaum_pedersen::{dleq_made, dleq_valid, lemma_dleq_complete, CHAUM_PEDERSEN};
use crate::setup::Parameters;

verus! {

/// A reveal token: `sk * c.0` for a player's secret key `sk` and the
/// masked card `c`.
pub type RevealToken = Plaintext;

/// Seed of the transcripts of reveal proofs.
pub const REVEAL_RNG_SEED: &'static str = "Reveal Proof";

/// The card that a (total) token reveals: `c.1 - token`.
pub open spec fn spec_reveal(token: RevealToken, cipher: MaskedCard) -> UnmaskedCard {
    Plaintext(spec_sub(cipher.1, token.0))
}

/// The masked card with a token's share of the mask removed.
pub open spec fn spec_partial_unmask(mc: MaskedCard, token: RevealToken) -> MaskedCard {
    Ciphertext(mc.0, spec_sub(mc.1, token.0))
}

/// Reveal a card with the sum of all players' tokens, without checks.
pub fn reveal_unchecked(token: &RevealToken, cipher: &MaskedCard) -> (card: UnmaskedCard)
    ensures
        card == spec_reveal(*token, *cipher),
{
    Plaintext(point_sub(&cipher.1, &token.0))
}

/// Remove a player's share of the mask from a masked card.
pub fn update_masked_card(mc: &mut MaskedCard, token: &RevealToken)
    ensures
        *final(mc) == spec_partial_unmask(*old(mc), *token),
{
    let new = point_sub(&mc.1, &token.0);
    mc.1 = new;
}

/// `i` is the first position of `card` in `deck`.
pub open spec fn is_card_position(deck: Seq<UnmaskedCard>, card: UnmaskedCard, i: int) -> bool {
    &&& 0 <= i < deck.len()
    &&& deck[i] == card
    &&& forall|j: int| 0 <= j < i ==> deck[j] != card
}

/// Find the card in a deck: the identity point is refused as
/// `ZeroCard`, a card not in the deck as `UnrecognizedCard`.
pub fn card_position(deck: &[UnmaskedCard], card: &UnmaskedCard) -> (r: CardResult<usize>)
    ensures
        card.0 == Point::spec_zero() ==> r == Err::<usize, CardProtocolError>(
            CardProtocolError::ZeroCard,
        ),
        card.0 != Point::spec_zero() && !deck@.contains(*card) ==> r == Err::<
            usize,
            CardProtocolError,
        >(CardProtocolError::UnrecognizedCard),
        card.0 != Point::spec_zero() && deck@.contains(*card) ==> (r matches Ok(i)
            && is_card_position(deck@, *card, i as int)),
{
    if card.is_zero() {
        return Err(CardProtocolError::ZeroCard);
    }
    let mut i: usize = 0;
    while i < deck.len()
        invariant
            i <= deck@.len(),
            card.0 != Point::spec_zero(),
            forall|j: int| 0 <= j < i ==> deck@[j] != *card,
        decreases deck@.len() - i,
    {
        if deck[i].equals(card) {
            return Ok(i);
        }
        i = i + 1;
    }
    proof {
        if deck@.contains(*card) {
            let k = choose|k: int| 0 <= k < deck@.len() && deck@[k] == *card;
            assert(deck@[k] != *card);
        }
    }
    Err(CardProtocolError::UnrecognizedCard)
}

/// Reveal a masked card with a (total) token and find it in the deck.
pub fn reveal_position(deck: &[UnmaskedCard], masked_card: &MaskedCard, reveal_token: &RevealToken) -> (r:
    CardResult<usize>)
    ensures
        ({
            let card = spec_reveal(*reveal_token, *masked_card);
            &&& card.0 == Point::spec_zero() ==> r == Err::<usize, CardProtocolError>(
                CardProtocolError::ZeroCard,
            )
            &&& card.0 != Point::spec_zero() && !deck@.contains(card) ==> r == Err::<
                usize,
                CardProtocolError,
            >(CardProtocolError::UnrecognizedCard)
            &&& card.0 != Point::spec_zero() && deck@.contains(card) ==> (r matches Ok(i)
                && is_card_position(deck@, card, i as int))
        }),
{
    let rc = reveal_unchecked(reveal_token, masked_card);
    card_position(deck, &rc)
}

/// The proof that a reveal token is honest.
pub type ZKProofReveal = chaum_pedersen::Proof;

/// A reveal token and its proof.
#[derive(Clone, Copy, Debug)]
pub struct RevealTnP {
    pub token: RevealToken,
    pub proof: ZKProofReveal,
}

/// A reveal token and proof, with the revealing player's key and the
/// masked card it reveals.
#[derive(Clone, Copy, Debug)]
pub struct RevealMessage {
    pub pk: Point,
    pub masked_card: MaskedCard,
    pub tp: RevealTnP,
}

/// The encoding of a reveal message: key, masked card, token, then the
/// proof's two commitments and its response.
pub open spec fn spec_reveal_message_bytes(m: RevealMessage) -> Seq<u8> {
    spec_point_bytes(m.pk) + spec_point_bytes(m.masked_card.0) + spec_point_bytes(m.masked_card.1)
        + spec_point_bytes(m.tp.token.0) + spec_point_bytes(m.tp.proof.a) + spec_point_bytes(
        m.tp.proof.b,
    ) + spec_scalar_bytes(m.tp.proof.r)
}

/// The reveal message decoded from the first 230 bytes, where each part
/// decodes.
pub open spec fn spec_reveal_message_from_bytes(b: Seq<u8>) -> Option<RevealMessage> {
    if b.len() < 230 {
        None
    } else {
        let pk = spec_point_from_bytes(b.subrange(0, 33));
        let c0 = spec_point_from_bytes(b.subrange(33, 66));
        let c1 = spec_point_from_bytes(b.subrange(66, 99));
        let t = spec_point_from_bytes(b.subrange(99, 132));
        let pa = spec_point_from_bytes(b.subrange(132, 165));
        let pb = spec_point_from_bytes(b.subrange(165, 198));
        let pr = spec_scalar_from_bytes(b.subrange(198, 230));
        if pk is Some && c0 is Some && c1 is Some && t is Some && pa is Some && pb is Some
            && pr is Some {
            Some(
                RevealMessage {
                    pk: pk->0,
                    masked_card: Ciphertext(c0->0, c1->0),
                    tp: RevealTnP {
                        token: Plaintext(t->0),
                        proof: chaum_pedersen::Proof { a: pa->0, b: pb->0, r: pr->0 },
                    },
                },
            )
        } else {
            None
        }
    }
}

impl RevealMessage {
    /// The compressed encoding of the message.
    pub fn to_bytes(&self) -> (v: Vec<u8>)
        ensures
            v@ == spec_reveal_message_bytes(*self),
            spec_reveal_message_from_bytes(v@) == Some(*self),
            v@.len() == 230,
            v@.subrange(0, 33) == spec_point_bytes(self.pk),
            v@.subrange(33, 66) == spec_point_bytes(self.masked_card.0),
            v@.subrange(66, 99) == spec_point_bytes(self.masked_card.1),
            v@.subrange(99, 132) == spec_point_bytes(self.tp.token.0),
            v@.subrange(132, 165) == spec_point_bytes(self.tp.proof.a),
            v@.subrange(165, 198) == spec_point_bytes(self.tp.proof.b),
            v@.subrange(198, 230) == spec_scalar_bytes(self.tp.proof.r),
    {
        proof {
            use_type_invariant(&self.pk);
            use_type_invariant(&self.masked_card.0);
            use_type_invariant(&self.masked_card.1);
            use_type_invariant(&self.tp.token.0);
            use_type_invariant(&self.tp.proof.a);
            use_type_invariant(&self.tp.proof.b);
            use_type_invariant(&self.tp.proof.r);
        }
        let mut v = point_to_bytes(&self.pk);
        let mut c0 = point_to_bytes(&self.masked_card.0);
        let mut c1 = point_to_bytes(&self.masked_card.1);
        let mut t = point_to_bytes(&self.tp.token.0);
        let mut pa = point_to_bytes(&self.tp.proof.a);
        let mut pb = point_to_bytes(&self.tp.proof.b);
        let mut pr = scalar_to_bytes(&self.tp.proof.r);
        let ghost parts = seq![v@, c0@, c1@, t@, pa@, pb@, pr@];
        v.append(&mut c0);
        v.append(&mut c1);
        v.append(&mut t);
        v.append(&mut pa);
        v.append(&mut pb);
        v.append(&mut pr);
        proof {
            assert(v@.subrange(0, 33) =~= parts[0]);
            assert(v@.subrange(33, 66) =~= parts[1]);
            assert(v@.subrange(66, 99) =~= parts[2]);
            assert(v@.subrange(99, 132) =~= parts[3]);
            assert(v@.subrange(132, 165) =~= parts[4]);
            assert(v@.subrange(165, 198) =~= parts[5]);
            assert(v@.subrange(198, 230) =~= parts[6]);
        }
        v
    }

    /// Decode a reveal message from the start of `bytes`.
    pub fn from_bytes(bytes: &[u8]) -> (r: Option<RevealMessage>)
        ensures
            r == spec_reveal_message_from_bytes(bytes@),
            r matches Some(m) ==> {
                &&& spec_point_from_bytes(bytes@.subrange(0, 33)) == Some(m.pk)
                &&& spec_point_from_bytes(bytes@.subrange(33, 66)) == Some(m.masked_card.0)
                &&& spec_point_from_bytes(bytes@.subrange(66, 99)) == Some(m.masked_card.1)
                &&& spec_point_from_bytes(bytes@.subrange(99, 132)) == Some(m.tp.token.0)
                &&& spec_point_from_bytes(bytes@.subrange(132, 165)) == Some(m.tp.proof.a)
                &&& spec_point_from_bytes(bytes@.subrange(165, 198)) == Some(m.tp.proof.b)
                &&& spec_scalar_from_bytes(bytes@.subrange(198, 230)) == Some(m.tp.proof.r)
            },
    {
        if bytes.len() < 230 {
            return None;
        }
        let pk = point_from_bytes(slice_range(bytes, 0, 33));
        let c0 = point_from_bytes(slice_range(bytes, 33, 66));
        let c1 = point_from_bytes(slice_range(bytes, 66, 99));
        let t = point_from_bytes(slice_range(bytes, 99, 132));
        let pa = point_from_bytes(slice_range(bytes, 132, 165));
        let pb = point_from_bytes(slice_range(bytes, 165, 198));
        let pr = scalar_from_bytes(slice_range(bytes, 198, 230));
        match (pk, c0, c1, t, pa, pb, pr) {
            (Some(pk), Some(c0), Some(c1), Some(t), Some(pa), Some(pb), Some(pr)) => Some(
                RevealMessage {
                    pk,
                    masked_card: Ciphertext(c0, c1),
                    tp: RevealTnP { token: Plaintext(t), proof: chaum_pedersen::Proof { a: pa, b: pb, r: pr } },
                },
            ),
            _ => None,
        }
    }
}

/// The token of a player for a masked card: `sk * c.0`.
pub open spec fn spec_reveal_token(sk: crate::group::Scalar, mc: MaskedCard) -> RevealToken {
    Plaintext(spec_mul(mc.0, sk))
}

/// The reveal proof of `tp` for the key `pk` and the masked card `mc`
/// holds: `token = sk * c.0` and `pk = sk * g` for one `sk`.
pub open spec fn reveal_holds(g: Point, pk: Point, tp: RevealTnP, mc: MaskedCard) -> bool {
    dleq_valid(
        REVEAL_RNG_SEED.spec_bytes(),
        chaum_pedersen::Parameters { g: g, h: mc.0 },
        chaum_pedersen::Statement(pk, tp.token.0),
        tp.proof,
    )
}

/// The failure of a reveal proof.
pub open spec fn reveal_failure() -> CryptoError {
    CryptoError::ProofVerificationError(CHAUM_PEDERSEN)
}

impl PlayerKeypair {
    /// The player's reveal token for a masked card.
    pub fn compute_reveal_token(&self, masked_card: &MaskedCard) -> (t: RevealToken)
        ensures
            t == spec_reveal_token(self.sk, *masked_card),
    {
        Plaintext(point_mul(&masked_card.0, &self.sk))
    }
}

impl Parameters {
    /// The player's reveal token for a masked card, with its proof.
    pub fn prove_reveal(&self, key: &PlayerKeypair, masked_card: &MaskedCard) -> (tp: RevealTnP)
        ensures
            tp.token == spec_reveal_token(key.sk, *masked_card),
            dleq_made(
                REVEAL_RNG_SEED.spec_bytes(),
                chaum_pedersen::Parameters { g: self.enc_generator, h: masked_card.0 },
                chaum_pedersen::Statement(key.pk, tp.token.0),
                key.sk,
                tp.proof,
            ),
            key.pk == spec_mul(self.enc_generator, key.sk) ==> reveal_holds(
                self.enc_generator,
                key.pk,
                tp,
                *masked_card,
            ),
    {
        proof {
            use_type_invariant(&self.enc_generator);
            use_type_invariant(&masked_card.0);
            use_type_invariant(&key.sk);
        }
        let token = key.compute_reveal_token(masked_card);
        let cp_parameters = chaum_pedersen::Parameters::new(&self.enc_generator, &masked_card.0);
        let cp_statement = chaum_pedersen::Statement::new(&key.pk, &token.0);
        let proof = chaum_pedersen::DLEquality::prove(
            &cp_parameters,
            &cp_statement,
            &key.sk,
            REVEAL_RNG_SEED.as_bytes(),
        ).unwrap();
        let tp = RevealTnP { token, proof };
        proof {
            if key.pk == spec_mul(self.enc_generator, key.sk) {
                lemma_reveal_proof_complete(self.enc_generator, *key, *masked_card, tp);
            }
        }
        tp
    }

    /// Verify a reveal token for the key `pk` and the masked card, and
    /// return the token.
    pub fn verify_reveal<'a>(&self, pk: &Point, reveal: &'a RevealTnP, masked_card: &MaskedCard) -> (r:
        Result<&'a RevealToken, CryptoError>)
        ensures
            r is Ok <==> reveal_holds(self.enc_generator, *pk, *reveal, *masked_card),
            r matches Ok(t) ==> *t == reveal.token,
            r is Err ==> r == Err::<&RevealToken, CryptoError>(reveal_failure()),
    {
        let cp_parameters = chaum_pedersen::Parameters::new(&self.enc_generator, &masked_card.0);
        let cp_statement = chaum_pedersen::Statement::new(pk, &reveal.token.0);
        match chaum_pedersen::DLEquality::verify(
            &cp_parameters,
            &cp_statement,
            &reveal.proof,
            REVEAL_RNG_SEED.as_bytes(),
        ) {
            Ok(()) => Ok(&reveal.token),
            Err(e) => Err(e),
        }
    }

    /// The player's reveal message for a masked card.
    pub fn prove_single_reveal_token(&self, key: &PlayerKeypair, masked_card: &MaskedCard) -> (m:
        RevealMessage)
        ensures
            m.pk == key.pk,
            m.masked_card == *masked_card,
            m.tp.token == spec_reveal_token(key.sk, *masked_card),
            dleq_made(
                REVEAL_RNG_SEED.spec_bytes(),
                chaum_pedersen::Parameters { g: self.enc_generator, h: masked_card.0 },
                chaum_pedersen::Statement(key.pk, m.tp.token.0),
                key.sk,
                m.tp.proof,
            ),
            key.pk == spec_mul(self.enc_generator, key.sk) ==> reveal_holds(
                self.enc_generator,
                m.pk,
                m.tp,
                m.masked_card,
            ),
    {
        let tp = self.prove_reveal(key, masked_card);
        RevealMessage { pk: key.pk, masked_card: *masked_card, tp }
    }

    /// Verify a reveal message and return its masked card with the
    /// player's share of the mask removed.
    pub fn verify_single_reveal(&self, reveal: &RevealMessage) -> (r: Result<MaskedCard, CryptoError>)
        ensures
            r is Ok <==> reveal_holds(self.enc_generator, reveal.pk, reveal.tp, reveal.masked_card),
            r matches Ok(mc) ==> mc == spec_partial_unmask(reveal.masked_card, reveal.tp.token),
            r is Err ==> r == Err::<MaskedCard, CryptoError>(reveal_failure()),
    {
        match self.verify_reveal(&reveal.pk, &reveal.tp, &reveal.masked_card) {
            Ok(_) => {
                let mut masked_card = reveal.masked_card;
                update_masked_card(&mut masked_card, &reveal.tp.token);
                Ok(masked_card)
            },
            Err(e) => Err(e),
        }
    }

    /// Unmask a card with the reveal messages of all players: every
    /// message must be for this card and verify; the card is the masked
    /// card less the sum of the tokens.
    pub fn unmask(&self, decryption_messages: &[RevealMessage], masked_card: &MaskedCard) -> (r:
        CardResult<UnmaskedCard>)
        ensures
            match first_error(self.enc_generator, *masked_card, decryption_messages@) {
                Some(e) => r == Err::<UnmaskedCard, CardProtocolError>(e),
                None => r == Ok::<UnmaskedCard, CardProtocolError>(
                    spec_reveal(Plaintext(token_sum(decryption_messages@)), *masked_card),
                ),
            },
    {
        let mut aggregate_token = Plaintext::zero();
        let mut i: usize = 0;
        while i < decryption_messages.len()
            invariant
                i <= decryption_messages@.len(),
                first_error(self.enc_generator, *masked_card, decryption_messages@.take(i as int))
                    is None,
                aggregate_token.0 == token_sum(decryption_messages@.take(i as int)),
            decreases decryption_messages@.len() - i,
        {
            let reveal_message = &decryption_messages[i];
            proof {
                assert(decryption_messages@.take(i + 1).drop_last() =~= decryption_messages@.take(
                    i as int,
                ));
                assert(decryption_messages@.take(i + 1).last() == *reveal_message);
            }
            if !masked_card.equals(&reveal_message.masked_card) {
                proof {
                    lemma_first_error_prefix(
                        self.enc_generator,
                        *masked_card,
                        decryption_messages@,
                        i + 1,
                    );
                }
                return Err(CardProtocolError::WrongCard);
            }
            match self.verify_single_reveal(reveal_message) {
                Ok(_) => {},
                Err(e) => {
                    proof {
                        lemma_first_error_prefix(
                            self.enc_generator,
                            *masked_card,
                            decryption_messages@,
                            i + 1,
                        );
                    }
                    return Err(CardProtocolError::ProofError(e));
                },
            }
            aggregate_token = Plaintext(point_add(&aggregate_token.0, &reveal_message.tp.token.0));
            i = i + 1;
        }
        proof {
            assert(decryption_messages@.take(i as int) =~= decryption_messages@);
        }
        Ok(reveal_unchecked(&aggregate_token, masked_card))
    }
}

impl<'p> AggregatedPublicKeys<'p> {
    /// Start accumulating the reveals of a masked card.
    pub fn accumulate_reveals(&self, masked_card: MaskedCard) -> (acc: AccumulateReveals<'p>)
        ensures
            acc.spec_parameters() == self.spec_parameters(),
            acc.spec_remaining_key() == self.spec_key(),
            acc.spec_masked_card() == masked_card,
            acc.spec_token() == Plaintext(Point::spec_zero()),
    {
        AccumulateReveals {
            parameters: self.parameters(),
            remaining_key: *self.aggregate_key(),
            masked_card,
            token: Plaintext::zero(),
        }
    }
}

/// Verify and accumulate `RevealMessage`s for one masked card: the sum
/// of the tokens so far, and the aggregate key less the keys of the
/// players who revealed.
#[derive(Clone, Copy, Debug)]
pub struct AccumulateReveals<'p> {
    parameters: &'p Parameters,
    remaining_key: Point,
    masked_card: MaskedCard,
    token: RevealToken,
}

/// The encoding of an accumulation: remaining key, masked card, token.
pub open spec fn spec_accumulate_bytes(k: Point, mc: MaskedCard, t: RevealToken) -> Seq<u8> {
    spec_point_bytes(k) + spec_point_bytes(mc.0) + spec_point_bytes(mc.1) + spec_point_bytes(t.0)
}

/// The four points decoded from the first 132 bytes, where each decodes.
pub open spec fn spec_four_points(b: Seq<u8>) -> Option<(Point, Point, Point, Point)> {
    if b.len() < 4 * point_len() {
        None
    } else {
        let p0 = spec_point_from_bytes(b.subrange(0, 33));
        let p1 = spec_point_from_bytes(b.subrange(33, 66));
        let p2 = spec_point_from_bytes(b.subrange(66, 99));
        let p3 = spec_point_from_bytes(b.subrange(99, 132));
        if p0 is Some && p1 is Some && p2 is Some && p3 is Some {
            Some((p0->0, p1->0, p2->0, p3->0))
        } else {
            None
        }
    }
}

impl<'p> AccumulateReveals<'p> {
    pub closed spec fn spec_parameters(&self) -> Parameters {
        *self.parameters
    }

    pub closed spec fn spec_remaining_key(&self) -> Point {
        self.remaining_key
    }

    pub closed spec fn spec_masked_card(&self) -> MaskedCard {
        self.masked_card
    }

    pub closed spec fn spec_token(&self) -> RevealToken {
        self.token
    }

    pub fn parameters(&self) -> (p: &'p Parameters)
        ensures
            *p == self.spec_parameters(),
    {
        self.parameters
    }

    pub fn remaining_key(&self) -> (k: &Point)
        ensures
            *k == self.spec_remaining_key(),
    {
        &self.remaining_key
    }

    pub fn masked_card(&self) -> (mc: &MaskedCard)
        ensures
            *mc == self.spec_masked_card(),
    {
        &self.masked_card
    }

    pub fn token(&self) -> (t: &RevealToken)
        ensures
            *t == self.spec_token(),
    {
        &self.token
    }

    /// Prove your reveal component for a draw.  You must call this
    /// whenever a drawn card is not intended for you.
    pub fn prove_reveal(&self, sk: &PlayerKeypair) -> (m: RevealMessage)
        ensures
            m.pk == sk.pk,
            m.masked_card == self.spec_masked_card(),
            m.tp.token == spec_reveal_token(sk.sk, self.spec_masked_card()),
    {
        self.parameters.prove_single_reveal_token(sk, &self.masked_card)
    }

    /// Verify a reveal message for our card and accumulate it: add its
    /// token, remove its player's key.  Nothing changes where it fails.
    pub fn add_reveal(&mut self, reveal_message: &RevealMessage) -> (r: CardResult<()>)
        ensures
            r == match message_error(
                old(self).spec_parameters().enc_generator,
                old(self).spec_masked_card(),
                *reveal_message,
            ) {
                Some(e) => Err::<(), CardProtocolError>(e),
                None => Ok::<(), CardProtocolError>(()),
            },
            r is Ok ==> final(self).spec_token().0 == spec_add(
                old(self).spec_token().0,
                reveal_message.tp.token.0,
            ),
            r is Ok ==> final(self).spec_remaining_key() == spec_sub(
                old(self).spec_remaining_key(),
                reveal_message.pk,
            ),
            r is Err ==> *final(self) == *old(self),
            final(self).spec_parameters() == old(self).spec_parameters(),
            final(self).spec_masked_card() == old(self).spec_masked_card(),
    {
        if !self.masked_card.equals(&reveal_message.masked_card) {
            return Err(CardProtocolError::WrongCard);
        }
        match self.parameters.verify_single_reveal(reveal_message) {
            Ok(_) => {},
            Err(e) => {
                return Err(CardProtocolError::ProofError(e));
            },
        }
        self.token = Plaintext(point_add(&self.token.0, &reveal_message.tp.token.0));
        self.remaining_key = point_sub(&self.remaining_key, &reveal_message.pk);
        Ok(())
    }

    /// The remaining aggregate key, and the card with the accumulated
    /// share of the mask removed.
    pub fn status(&self) -> (s: (Point, MaskedCard))
        ensures
            s.0 == self.spec_remaining_key(),
            s.1 == spec_partial_unmask(self.spec_masked_card(), self.spec_token()),
    {
        let mut masked_card = self.masked_card;
        update_masked_card(&mut masked_card, &self.token);
        (self.remaining_key, masked_card)
    }

    /// All players revealed: the remaining key is the identity.
    pub fn is_completed(&self) -> (b: bool)
        ensures
            b == (self.spec_remaining_key() == Point::spec_zero()),
    {
        self.remaining_key.is_zero()
    }

    /// The revealed card, once all players revealed.
    pub fn completed(&self) -> (c: Option<UnmaskedCard>)
        ensures
            c is Some <==> self.spec_remaining_key() == Point::spec_zero(),
            c matches Some(card) ==> card == spec_reveal(self.spec_token(), self.spec_masked_card()),
    {
        if !self.is_completed() {
            return None;
        }
        Some(reveal_unchecked(&self.token, &self.masked_card))
    }

    /// All players but the one with key `pk` revealed.
    pub fn is_completed_for(&self, pk: &Point) -> (b: bool)
        ensures
            b == (self.spec_remaining_key() == *pk),
    {
        self.remaining_key.equals(pk)
    }

    /// The card still masked by `pk` alone, once all other players
    /// revealed.
    pub fn completed_for(&self, pk: &Point) -> (c: Option<MaskedCard>)
        ensures
            c is Some <==> self.spec_remaining_key() == *pk,
            c matches Some(mc) ==> mc == spec_partial_unmask(
                self.spec_masked_card(),
                self.spec_token(),
            ),
    {
        let status = self.status();
        if !status.0.equals(pk) {
            return None;
        }
        Some(status.1)
    }

    /// The compressed encoding: remaining key, masked card, token.
    pub fn to_bytes(&self) -> (v: Vec<u8>)
        ensures
            v@ == spec_accumulate_bytes(self.spec_remaining_key(), self.spec_masked_card(), self.spec_token()),
            v@.len() == 4 * point_len(),
            v@.subrange(0, 33) == spec_point_bytes(self.spec_remaining_key()),
            v@.subrange(33, 66) == spec_point_bytes(self.spec_masked_card().0),
            v@.subrange(66, 99) == spec_point_bytes(self.spec_masked_card().1),
            v@.subrange(99, 132) == spec_point_bytes(self.spec_token().0),
            spec_four_points(v@) == Some(
                (
                    self.spec_remaining_key(),
                    self.spec_masked_card().0,
                    self.spec_masked_card().1,
                    self.spec_token().0,
                ),
            ),
    {
        proof {
            use_type_invariant(&self.remaining_key);
            use_type_invariant(&self.masked_card.0);
            use_type_invariant(&self.masked_card.1);
            use_type_invariant(&self.token.0);
        }
        let mut v = point_to_bytes(&self.remaining_key);
        let mut a = point_to_bytes(&self.masked_card.0);
        let mut b = point_to_bytes(&self.masked_card.1);
        let mut c = point_to_bytes(&self.token.0);
        let ghost (v0, a0, b0, c0) = (v@, a@, b@, c@);
        v.append(&mut a);
        v.append(&mut b);
        v.append(&mut c);
        proof {
            assert(v@.subrange(0, 33) =~= v0);
            assert(v@.subrange(33, 66) =~= a0);
            assert(v@.subrange(66, 99) =~= b0);
            assert(v@.subrange(99, 132) =~= c0);
        }
        v
    }

    /// Decode an accumulation for the given parameters from the start of
    /// `bytes`.
    pub fn deserialize_compressed(bytes: &[u8], parameters: &'p Parameters) -> (r: Result<
        AccumulateReveals<'p>,
        SerializationError,
    >)
        ensures
            r is Ok <==> spec_four_points(bytes@) is Some,
            r matches Ok(acc) ==> {
                let ps = spec_four_points(bytes@)->0;
                &&& acc.spec_parameters() == *parameters
                &&& acc.spec_remaining_key() == ps.0
                &&& acc.spec_masked_card() == Ciphertext(ps.1, ps.2)
                &&& acc.spec_token() == Plaintext(ps.3)
            },
            r is Err ==> r == Err::<AccumulateReveals, SerializationError>(
                SerializationError::InvalidData,
            ),
    {
        if bytes.len() < 132 {
            return Err(SerializationError::InvalidData);
        }
        let k = point_from_bytes(slice_range(bytes, 0, 33));
        let m0 = point_from_bytes(slice_range(bytes, 33, 66));
        let m1 = point_from_bytes(slice_range(bytes, 66, 99));
        let t = point_from_bytes(slice_range(bytes, 99, 132));
        match (k, m0, m1, t) {
            (Some(k), Some(m0), Some(m1), Some(t)) => Ok(
                AccumulateReveals {
                    parameters,
                    remaining_key: k,
                    masked_card: Ciphertext(m0, m1),
                    token: Plaintext(t),
                },
            ),
            _ => Err(SerializationError::InvalidData),
        }
    }
}

/// The error a single reveal message raises when unmasking `mc`.
pub open spec fn message_error(g: Point, mc: MaskedCard, m: RevealMessage) -> Option<
    CardProtocolError,
> {
    if m.masked_card != mc {
        Some(CardProtocolError::WrongCard)
    } else if !reveal_holds(g, m.pk, m.tp, m.masked_card) {
        Some(CardProtocolError::ProofError(reveal_failure()))
    } else {
        None
    }
}

/// The error of the first message that raises one.
pub open spec fn first_error(g: Point, mc: MaskedCard, ms: Seq<RevealMessage>) -> Option<
    CardProtocolError,
>
    decreases ms.len(),
{
    if ms.len() == 0 {
        None
    } else {
        match first_error(g, mc, ms.drop_last()) {
            Some(e) => Some(e),
            None => message_error(g, mc, ms.last()),
        }
    }
}

/// The sum of the tokens of the messages, added in order from the
/// identity.
pub open spec fn token_sum(ms: Seq<RevealMessage>) -> Point
    decreases ms.len(),
{
    if ms.len() == 0 {
        Point::spec_zero()
    } else {
        spec_add(token_sum(ms.drop_last()), ms.last().tp.token.0)
    }
}

/// An error in a prefix is the first error of the whole sequence.
pub proof fn lemma_first_error_prefix(g: Point, mc: MaskedCard, ms: Seq<RevealMessage>, n: int)
    requires
        0 <= n <= ms.len(),
        first_error(g, mc, ms.take(n)) is Some,
    ensures
        first_error(g, mc, ms) == first_error(g, mc, ms.take(n)),
    decreases ms.len() - n,
{
    if n < ms.len() {
        assert(ms.take(n + 1).drop_last() =~= ms.take(n));
        lemma_first_error_prefix(g, mc, ms, n + 1);
    } else {
        assert(ms.take(n) =~= ms);
    }
}

/// Completeness of reveal proofs: the reveal that `prove_reveal` makes
/// for a keypair `pk = sk * g` verifies.
pub proof fn lemma_reveal_proof_complete(g: Point, key: PlayerKeypair, mc: MaskedCard, tp: RevealTnP)
    requires
        group_element(g),
        group_element(mc.0),
        scalar_valid(key.sk),
        key.pk == spec_mul(g, key.sk),
        tp.token == spec_reveal_token(key.sk, mc),
        dleq_made(
            REVEAL_RNG_SEED.spec_bytes(),
            chaum_pedersen::Parameters { g: g, h: mc.0 },
            chaum_pedersen::Statement(key.pk, tp.token.0),
            key.sk,
            tp.proof,
        ),
    ensures
        reveal_holds(g, key.pk, tp, mc),
{
    lemma_dleq_complete(
        REVEAL_RNG_SEED.spec_bytes(),
        chaum_pedersen::Parameters { g: g, h: mc.0 },
        chaum_pedersen::Statement(key.pk, tp.token.0),
        key.sk,
        tp.proof,
    );
}

/// A card masked with `r` under the key `sk * g` of a single player
/// comes back whole once that player's reveal token is removed.
pub proof fn lemma_sole_holder_unmask(g: Point, sk: Scalar, card: UnmaskedCard, r: Scalar)
    requires
        group_element(g),
        group_element(card.0),
        scalar_valid(sk),
        scalar_valid(r),
    ensures
        ({
            let mc = spec_encrypt(g, spec_mul(g, sk), card, r);
            spec_partial_unmask(mc, spec_reveal_token(sk, mc)).1 == card.0
        }),
{
    let t = spec_mul(spec_mul(g, r), sk);
    lemma_distrib(g, g, sk, r);
    lemma_mul(g, r);
    lemma_mul(g, sk);
    lemma_mul_valid(g, spec_mul(g, r), sk);
    lemma_add(card.0, t);
}

/// The aggregate key times `r` is the sum of the players' tokens for a
/// card whose first point is `r * g`.
proof fn lemma_scaled_key_sum(g: Point, sks: Seq<Scalar>, pks: Seq<Point>, ms: Seq<RevealMessage>, r: Scalar)
    requires
        group_element(g),
        scalar_valid(r),
        ms.len() == sks.len(),
        pks.len() == sks.len(),
        forall|i: int| 0 <= i < sks.len() ==> scalar_valid(#[trigger] sks[i]),
        forall|i: int| 0 <= i < pks.len() ==> group_element(#[trigger] pks[i]),
        forall|i: int| 0 <= i < pks.len() ==> #[trigger] pks[i] == spec_mul(g, sks[i]),
        forall|i: int| 0 <= i < ms.len() ==> #[trigger] ms[i].tp.token.0 == spec_mul(spec_mul(g, r), sks[i]),
    ensures
        spec_mul(key_sum(pks), r) == token_sum(ms),
    decreases sks.len(),
{
    if sks.len() == 0 {
        lemma_mul(g, r);
    } else {
        let n = sks.len() - 1;
        let (sd, pd, md) = (sks.drop_last(), pks.drop_last(), ms.drop_last());
        assert forall|i: int| 0 <= i < sd.len() implies scalar_valid(#[trigger] sd[i]) by {
            assert(sd[i] == sks[i]);
        }
        assert forall|i: int| 0 <= i < pd.len() implies group_element(#[trigger] pd[i]) by {
            assert(pd[i] == pks[i]);
        }
        assert forall|i: int| 0 <= i < pd.len() implies #[trigger] pd[i] == spec_mul(g, sd[i]) by {
            assert(pd[i] == pks[i]);
        }
        assert forall|i: int| 0 <= i < md.len() implies #[trigger] md[i].tp.token.0 == spec_mul(
            spec_mul(g, r),
            sd[i],
        ) by {
            assert(md[i] == ms[i]);
        }
        lemma_scaled_key_sum(g, sd, pd, md, r);
        lemma_key_sum_valid(pd);
        lemma_identity(g, g);
        let p = pks[n];
        assert(group_element(p));
        assert(scalar_valid(sks[n]));
        assert(point_valid(key_sum(pd)));
        lemma_distrib(p, key_sum(pd), r, r);
        lemma_distrib(g, g, sks[n], r);
        assert(ms.last().tp.token.0 == spec_mul(spec_mul(g, r), sks[n]));
    }
}

/// The sum of the tokens of group elements is a valid point.
proof fn lemma_token_sum_valid(ms: Seq<RevealMessage>)
    requires
        forall|i: int| 0 <= i < ms.len() ==> group_element(#[trigger] ms[i].tp.token.0),
    ensures
        ms.len() > 0 ==> point_valid(token_sum(ms)),
    decreases ms.len(),
{
    if ms.len() > 0 {
        let d = ms.drop_last();
        let l = ms.last().tp.token.0;
        assert(group_element(ms[ms.len() - 1].tp.token.0));
        lemma_identity(l, l);
        assert forall|i: int| 0 <= i < d.len() implies group_element(#[trigger] d[i].tp.token.0) by {
            assert(d[i] == ms[i]);
        }
        lemma_token_sum_valid(d);
        lemma_add(l, token_sum(d));
    }
}

/// Decryption: a card masked with `r` under the aggregate key of the
/// players with keypairs `pks[i] = sks[i] * g` comes back unchanged once
/// every player's reveal token is removed.
pub proof fn lemma_unmask_gives_card(
    g: Point,
    sks: Seq<Scalar>,
    pks: Seq<Point>,
    ms: Seq<RevealMessage>,
    m: Plaintext,
    r: Scalar,
)
    requires
        group_element(g),
        group_element(m.0),
        scalar_valid(r),
        ms.len() == sks.len(),
        pks.len() == sks.len(),
        forall|i: int| 0 <= i < sks.len() ==> scalar_valid(#[trigger] sks[i]),
        forall|i: int| 0 <= i < pks.len() ==> group_element(#[trigger] pks[i]),
        forall|i: int| 0 <= i < pks.len() ==> #[trigger] pks[i] == spec_mul(g, sks[i]),
        forall|i: int| 0 <= i < ms.len() ==> group_element(#[trigger] ms[i].tp.token.0),
        forall|i: int|
            0 <= i < ms.len() ==> #[trigger] ms[i].tp.token == spec_reveal_token(
                sks[i],
                spec_encrypt(g, key_sum(pks), m, r),
            ),
    ensures
        spec_reveal(Plaintext(token_sum(ms)), spec_encrypt(g, key_sum(pks), m, r)) == m,
{
    let mc = spec_encrypt(g, key_sum(pks), m, r);
    assert forall|i: int| 0 <= i < ms.len() implies #[trigger] ms[i].tp.token.0 == spec_mul(
        spec_mul(g, r),
        sks[i],
    ) by {
        assert(ms[i].tp.token == spec_reveal_token(sks[i], mc));
    }
    lemma_scaled_key_sum(g, sks, pks, ms, r);
    lemma_token_sum_valid(ms);
    let t = token_sum(ms);
    lemma_identity(g, g);
    assert(point_valid(t));
    lemma_add(m.0, t);
}

/// Honest reveal messages of every player, for a card masked under the
/// players' aggregate key, raise no error in `unmask`, which then gives
/// the card back.
pub proof fn lemma_honest_unmask(
    g: Point,
    sks: Seq<Scalar>,
    pks: Seq<Point>,
    ms: Seq<RevealMessage>,
    m: Plaintext,
    r: Scalar,
)
    requires
        group_element(g),
        group_element(m.0),
        group_element(spec_mul(g, r)),
        scalar_valid(r),
        ms.len() == sks.len(),
        pks.len() == sks.len(),
        forall|i: int| 0 <= i < sks.len() ==> scalar_valid(#[trigger] sks[i]),
        forall|i: int| 0 <= i < pks.len() ==> group_element(#[trigger] pks[i]),
        forall|i: int| 0 <= i < pks.len() ==> #[trigger] pks[i] == spec_mul(g, sks[i]),
        forall|i: int| 0 <= i < ms.len() ==> group_element(#[trigger] ms[i].tp.token.0),
        forall|i: int|
            0 <= i < ms.len() ==> {
                let mc = spec_encrypt(g, key_sum(pks), m, r);
                &&& (#[trigger] ms[i]).masked_card == mc
                &&& ms[i].pk == pks[i]
                &&& ms[i].tp.token == spec_reveal_token(sks[i], mc)
                &&& dleq_made(
                    REVEAL_RNG_SEED.spec_bytes(),
                    chaum_pedersen::Parameters { g: g, h: mc.0 },
                    chaum_pedersen::Statement(ms[i].pk, ms[i].tp.token.0),
                    sks[i],
                    ms[i].tp.proof,
                )
            },
    ensures
        first_error(g, spec_encrypt(g, key_sum(pks), m, r), ms) is None,
        spec_reveal(Plaintext(token_sum(ms)), spec_encrypt(g, key_sum(pks), m, r)) == m,
{
    let mc = spec_encrypt(g, key_sum(pks), m, r);
    assert forall|i: int| 0 <= i < ms.len() implies #[trigger] message_error(g, mc, ms[i]) is None by {
        assert(pks[i] == spec_mul(g, sks[i]));
        lemma_reveal_proof_complete(g, PlayerKeypair { sk: sks[i], pk: ms[i].pk }, mc, ms[i].tp);
    }
    lemma_no_first_error(g, mc, ms);
    lemma_unmask_gives_card(g, sks, pks, ms, m, r);
}

/// Where no message raises an error, there is no first error.
proof fn lemma_no_first_error(g: Point, mc: MaskedCard, ms: Seq<RevealMessage>)
    requires
        forall|i: int| 0 <= i < ms.len() ==> #[trigger] message_error(g, mc, ms[i]) is None,
    ensures
        first_error(g, mc, ms) is None,
    decreases ms.len(),
{
    if ms.len() > 0 {
        assert forall|i: int| 0 <= i < ms.drop_last().len() implies #[trigger] message_error(
            g,
            mc,
            ms.drop_last()[i],
        ) is None by {
            assert(ms.drop_last()[i] == ms[i]);
        }
        lemma_no_first_error(g, mc, ms.drop_last());
        assert(message_error(g, mc, ms[ms.len() - 1]) is None);
    }
}

} // verus!
