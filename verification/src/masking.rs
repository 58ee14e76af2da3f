//! ElGamal plaintexts and ciphertexts of cards, masking and remasking.
//!
//! An open card is an ElGamal plaintext, a point `m`.  A masked card is
//! an ElGamal ciphertext `(g * r, m + k * r)` under the aggregate key `k`.
use vstd::prelude::*;

use crate::group::{
    group_element, lemma_assoc, lemma_distrib, lemma_identity, lemma_mul, point_add, point_from_bytes, point_mul, point_to_bytes, point_valid, scalar_valid,
    spec_add, spec_mul, spec_point_bytes, spec_point_from_bytes, Point, Scalar,
};
use crate::keys::AggregatedPublicKeys;
use crate::setup::Parameters;
use crate::transcript::{challenge, challenge_keyed, spec_challenge, spec_keyed_challenge};
use vstd::string::StringSliceAdditionalSpecFns;

verus! {

/// An ElGamal plaintext: a point.
#[derive(Clone, Copy, PartialEq, Eq, Debug)]
pub struct Plaintext(pub Point);

/// An ElGamal ciphertext: a pair of points.
#[derive(Clone, Copy, PartialEq, Eq, Debug)]
pub struct Ciphertext(pub Point, pub Point);

/// An open playing card.
pub type UnmaskedCard = Plaintext;

/// A masked (flipped) playing card.
pub type MaskedCard = Ciphertext;

impl Plaintext {
    /// A uniformly random plaintext: never the identity point.
    pub fn random() -> (p: Plaintext)
        ensures
            p.0 != Point::spec_zero(),
    {
        Plaintext(Point::random())
    }

    /// The plaintext of the identity point.
    pub fn zero() -> (p: Plaintext)
        ensures
            p.0 == Point::spec_zero(),
    {
        Plaintext(Point::zero())
    }

    pub fn equals(&self, other: &Plaintext) -> (b: bool)
        ensures
            b == (*self == *other),
    {
        self.0.equals(&other.0)
    }

    pub fn is_zero(&self) -> (b: bool)
        ensures
            b == (self.0 == Point::spec_zero()),
    {
        self.0.is_zero()
    }
}

/// The encoding of a ciphertext: its two points.
pub open spec fn spec_cipher_bytes(c: Ciphertext) -> Seq<u8> {
    spec_point_bytes(c.0) + spec_point_bytes(c.1)
}

/// The ciphertext decoded from the first 66 bytes, where both points
/// decode.
pub open spec fn spec_cipher_from_bytes(b: Seq<u8>) -> Option<Ciphertext> {
    if b.len() < 66 {
        None
    } else {
        let p0 = spec_point_from_bytes(b.subrange(0, 33));
        let p1 = spec_point_from_bytes(b.subrange(33, 66));
        if p0 is Some && p1 is Some {
            Some(Ciphertext(p0->0, p1->0))
        } else {
            None
        }
    }
}

/// Componentwise sum of two ciphertexts.
pub open spec fn spec_cipher_add(a: Ciphertext, b: Ciphertext) -> Ciphertext {
    Ciphertext(spec_add(a.0, b.0), spec_add(a.1, b.1))
}

/// Componentwise multiple of a ciphertext.
pub open spec fn spec_cipher_mul(a: Ciphertext, s: Scalar) -> Ciphertext {
    Ciphertext(spec_mul(a.0, s), spec_mul(a.1, s))
}

/// ElGamal encryption of `m` under the key `k` with randomness `r`,
/// for the generator `g`: `(g * r, m + k * r)`.
pub open spec fn spec_encrypt(g: Point, k: Point, m: Plaintext, r: Scalar) -> Ciphertext {
    Ciphertext(spec_mul(g, r), spec_add(m.0, spec_mul(k, r)))
}

/// The mask of the identity card without the identity: `(g * r, k * r)`.
pub open spec fn spec_zero_mask_of(g: Point, k: Point, r: Scalar) -> Ciphertext {
    Ciphertext(spec_mul(g, r), spec_mul(k, r))
}

/// Remasking adds an encryption of the identity card.
pub open spec fn spec_remask(g: Point, k: Point, c: Ciphertext, r: Scalar) -> Ciphertext {
    spec_cipher_add(c, spec_encrypt(g, k, Plaintext(Point::spec_zero()), r))
}

/// A card masked without any mask: `(0, m)`.
pub open spec fn spec_zero_mask(card: Plaintext) -> Ciphertext {
    Ciphertext(Point::spec_zero(), card.0)
}

/// Remasking an encryption of `m` with `a` gives the encryption of `m`
/// with `r + a`: a remasked (and so a shuffled) card still decrypts to
/// the same card.
pub proof fn lemma_remask_encrypts(g: Point, k: Point, m: Plaintext, r: Scalar, a: Scalar)
    requires
        group_element(g),
        group_element(k),
        group_element(m.0),
        scalar_valid(r),
        scalar_valid(a),
    ensures
        spec_remask(g, k, spec_encrypt(g, k, m, r), a) == spec_encrypt(
            g,
            k,
            m,
            crate::group::spec_scalar_add(r, a),
        ),
{
    lemma_distrib(g, g, r, a);
    lemma_distrib(k, k, r, a);
    lemma_mul(k, r);
    lemma_mul(k, a);
    lemma_identity(k, spec_mul(k, a));
    lemma_assoc(m.0, spec_mul(k, r), spec_mul(k, a));
}

impl Ciphertext {
    /// A uniformly random ciphertext: neither point is the identity.
    pub fn random() -> (c: Ciphertext)
        ensures
            c.0 != Point::spec_zero(),
            c.1 != Point::spec_zero(),
    {
        Ciphertext(Point::random(), Point::random())
    }

    /// The compressed encoding: both points.
    pub fn to_bytes(&self) -> (v: Vec<u8>)
        ensures
            v@ == spec_cipher_bytes(*self),
            v@.len() == 66,
            spec_cipher_from_bytes(v@) == Some(*self),
            v@.subrange(0, 33) == spec_point_bytes(self.0),
            v@.subrange(33, 66) == spec_point_bytes(self.1),
    {
        proof {
            use_type_invariant(&self.0);
            use_type_invariant(&self.1);
        }
        let mut v = point_to_bytes(&self.0);
        let mut w = point_to_bytes(&self.1);
        let ghost a = v@;
        let ghost b = w@;
        v.append(&mut w);
        proof {
            assert(v@.subrange(0, 33) =~= a);
            assert(v@.subrange(33, 66) =~= b);
        }
        v
    }

    /// Decode a ciphertext from the start of `bytes`.
    pub fn from_bytes(bytes: &[u8]) -> (r: Option<Ciphertext>)
        ensures
            r == spec_cipher_from_bytes(bytes@),
            r matches Some(c) ==> spec_point_from_bytes(bytes@.subrange(0, 33)) == Some(c.0)
                && spec_point_from_bytes(bytes@.subrange(33, 66)) == Some(c.1),
            bytes@.len() >= 66 && spec_point_from_bytes(bytes@.subrange(0, 33)) is Some
                && spec_point_from_bytes(bytes@.subrange(33, 66)) is Some ==> r is Some,
    {
        if bytes.len() < 66 {
            return None;
        }
        let (head, _) = bytes.split_at(66);
        let (b0, b1) = head.split_at(33);
        proof {
            assert(b0@ =~= bytes@.subrange(0, 33));
            assert(b1@ =~= bytes@.subrange(33, 66));
        }
        match (point_from_bytes(b0), point_from_bytes(b1)) {
            (Some(p0), Some(p1)) => Some(Ciphertext(p0, p1)),
            _ => None,
        }
    }

    pub fn equals(&self, other: &Ciphertext) -> (b: bool)
        ensures
            b == (*self == *other),
    {
        self.0.equals(&other.0) && self.1.equals(&other.1)
    }

    /// Componentwise sum.
    pub fn add_ciphertext(&self, other: &Ciphertext) -> (c: Ciphertext)
        ensures
            c == spec_cipher_add(*self, *other),
    {
        Ciphertext(point_add(&self.0, &other.0), point_add(&self.1, &other.1))
    }

    /// Componentwise multiple.
    pub fn mul_scalar(&self, s: &Scalar) -> (c: Ciphertext)
        ensures
            c == spec_cipher_mul(*self, *s),
    {
        Ciphertext(point_mul(&self.0, s), point_mul(&self.1, s))
    }

    /// Remask a masked card with the factor `r` under the key `k`.
    pub fn remask_card(&self, g: &Point, k: &Point, r: &Scalar) -> (c: Ciphertext)
        ensures
            c == spec_remask(*g, *k, *self, *r),
    {
        let masking_point = Plaintext::zero().mask_card(g, k, r);
        self.add_ciphertext(&masking_point)
    }
}

impl Plaintext {
    /// Mask (encrypt) the card with the factor `r` under the key `k`.
    pub fn mask_card(&self, g: &Point, k: &Point, r: &Scalar) -> (c: Ciphertext)
        ensures
            c == spec_encrypt(*g, *k, *self, *r),
    {
        let s = point_mul(k, r);
        let c0 = point_mul(g, r);
        Ciphertext(c0, point_add(&self.0, &s))
    }
}

/// Create a `MaskedCard` from an `UnmaskedCard` without doing any masking.
pub fn zero_mask(card: &UnmaskedCard) -> (c: MaskedCard)
    ensures
        c == spec_zero_mask(*card),
{
    Ciphertext(Point::zero(), card.0)
}

/// Create a `Vec<MaskedCard>` from `UnmaskedCard`s without doing any masking.
pub fn zero_mask_cards(cards: &[UnmaskedCard]) -> (v: Vec<MaskedCard>)
    ensures
        v@.len() == cards@.len(),
        forall|i: int| 0 <= i < cards@.len() ==> #[trigger] v@[i] == spec_zero_mask(cards@[i]),
{
    let mut v: Vec<MaskedCard> = Vec::new();
    let mut i: usize = 0;
    while i < cards.len()
        invariant
            i <= cards@.len(),
            v@.len() == i,
            forall|j: int| 0 <= j < i ==> #[trigger] v@[j] == spec_zero_mask(cards@[j]),
        decreases cards@.len() - i,
    {
        v.push(zero_mask(&cards[i]));
        i = i + 1;
    }
    v
}

/// Create a `Vec<MaskedCard>` from points without doing any masking.
pub fn zero_mask_affines(cards: &[Point]) -> (v: Vec<MaskedCard>)
    ensures
        v@.len() == cards@.len(),
        forall|i: int|
            0 <= i < cards@.len() ==> #[trigger] v@[i] == spec_zero_mask(Plaintext(cards@[i])),
{
    let mut v: Vec<MaskedCard> = Vec::new();
    let mut i: usize = 0;
    while i < cards.len()
        invariant
            i <= cards@.len(),
            v@.len() == i,
            forall|j: int|
                0 <= j < i ==> #[trigger] v@[j] == spec_zero_mask(Plaintext(cards@[j])),
        decreases cards@.len() - i,
    {
        v.push(zero_mask(&Plaintext(cards[i])));
        i = i + 1;
    }
    v
}

impl Parameters {
    /// The mask `(g * r, k * r)` of the identity card under the key `k`.
    pub fn mask_from_key(&self, shared_key: &Point, r: &Scalar) -> (c: MaskedCard)
        ensures
            c == spec_zero_mask_of(self.enc_generator, *shared_key, *r),
    {
        let nonce = point_mul(&self.enc_generator, r);
        let cipher = point_mul(shared_key, r);
        Ciphertext(nonce, cipher)
    }

    /// Mask card using the given aggregate public key.
    pub fn mask_card(&self, plaintext: &Plaintext, shared_key: &Point, r: &Scalar) -> (c: Ciphertext)
        ensures
            c == spec_encrypt(self.enc_generator, *shared_key, *plaintext, *r),
    {
        plaintext.mask_card(&self.enc_generator, shared_key, r)
    }
}

/// Label of the transcript of deterministic masks.
pub const DETERMINISTIC_MASK_LABEL: &'static str = "deterministic_mask";

/// Label of the challenge that gives a deterministic mask.
pub const MASK_LABEL: &'static str = "mask";

/// Label under which the aggregate key enters the transcript.
pub const APK_LABEL: &'static str = "apk";

/// A deterministic masking function: the transcript that each plaintext
/// is appended to before the mask is read off.  It starts from `seed`;
/// where `key` holds an aggregate key and its players, they come first.
#[derive(Clone, Debug)]
pub struct DeterministicMask {
    pub seed: Vec<u8>,
    pub key: Option<(Point, Vec<Point>)>,
}

/// The mask that the transcript `(seed, key)` gives to `plaintext`.
pub open spec fn spec_deterministic_mask(
    seed: Seq<u8>,
    key: Option<(Point, Seq<Point>)>,
    plaintext: Plaintext,
) -> Scalar {
    match key {
        None => spec_challenge(
            seed,
            seq![DETERMINISTIC_MASK_LABEL.spec_bytes()],
            seq![plaintext.0],
            MASK_LABEL.spec_bytes(),
        ),
        Some((k, players)) => spec_keyed_challenge(
            seed,
            APK_LABEL.spec_bytes(),
            k,
            players,
            DETERMINISTIC_MASK_LABEL.spec_bytes(),
            plaintext.0,
            MASK_LABEL.spec_bytes(),
        ),
    }
}

impl DeterministicMask {
    /// The key part of the transcript, as plain values.
    pub open spec fn key_view(&self) -> Option<(Point, Seq<Point>)> {
        match self.key {
            None => None,
            Some((k, players)) => Some((k, players@)),
        }
    }

    /// The mask of `plaintext`.
    pub fn mask(&self, plaintext: &Plaintext) -> (r: Scalar)
        ensures
            r == spec_deterministic_mask(self.seed@, self.key_view(), *plaintext),
    {
        let point = [plaintext.0];
        proof {
            assert(point@ =~= seq![plaintext.0]);
        }
        match &self.key {
            None => challenge(
                self.seed.as_slice(),
                DETERMINISTIC_MASK_LABEL.as_bytes(),
                &point,
                MASK_LABEL.as_bytes(),
            ),
            Some((k, players)) => challenge_keyed(
                self.seed.as_slice(),
                APK_LABEL.as_bytes(),
                k,
                players.as_slice(),
                DETERMINISTIC_MASK_LABEL.as_bytes(),
                &plaintext.0,
                MASK_LABEL.as_bytes(),
            ),
        }
    }
}

impl Parameters {
    /// The deterministic masking function of the transcript that starts
    /// from `t`.
    pub fn deterministic_masking(&self, t: &[u8]) -> (m: DeterministicMask)
        ensures
            m.seed@ == t@,
            m.key is None,
    {
        DeterministicMask { seed: vstd::slice::slice_to_vec(t), key: None }
    }
}

impl<'p> AggregatedPublicKeys<'p> {
    /// The initial deterministic masking function: the transcript that
    /// starts from `t` takes our aggregate key and players first.
    /// Assumes no repeated cards.
    pub fn deterministic_masking(&self, t: &[u8]) -> (m: DeterministicMask)
        ensures
            m.seed@ == t@,
            m.key_view() == Some((self.spec_key(), self.spec_players())),
    {
        let players = vstd::slice::slice_to_vec(self.players());
        DeterministicMask { seed: vstd::slice::slice_to_vec(t), key: Some((*self.aggregate_key(), players)) }
    }

    /// The initial deterministic masking of one card, under our
    /// aggregate key.
    pub fn deterministically_masked_card(&self, plaintext: &Plaintext, t: &[u8]) -> (c: Ciphertext)
        ensures
            c == spec_encrypt(
                self.spec_parameters().enc_generator,
                self.spec_key(),
                *plaintext,
                spec_deterministic_mask(t@, Some((self.spec_key(), self.spec_players())), *plaintext),
            ),
    {
        let mask = self.deterministic_masking(t);
        let r = mask.mask(plaintext);
        self.parameters().mask_card(plaintext, self.aggregate_key(), &r)
    }

    /// The initial deterministic masking of each card, under our
    /// aggregate key.  Assumes no repeated cards.
    pub fn deterministically_masked(&self, cards: &[UnmaskedCard], t: &[u8]) -> (v: Vec<MaskedCard>)
        ensures
            v@.len() == cards@.len(),
            forall|i: int|
                0 <= i < cards@.len() ==> #[trigger] v@[i] == spec_encrypt(
                    self.spec_parameters().enc_generator,
                    self.spec_key(),
                    cards@[i],
                    spec_deterministic_mask(
                        t@,
                        Some((self.spec_key(), self.spec_players())),
                        cards@[i],
                    ),
                ),
    {
        let mask = self.deterministic_masking(t);
        let mut v: Vec<MaskedCard> = Vec::new();
        let mut i: usize = 0;
        while i < cards.len()
            invariant
                i <= cards@.len(),
                v@.len() == i,
                mask.seed@ == t@,
                mask.key_view() == Some((self.spec_key(), self.spec_players())),
                forall|j: int|
                    0 <= j < i ==> #[trigger] v@[j] == spec_encrypt(
                        self.spec_parameters().enc_generator,
                        self.spec_key(),
                        cards@[j],
                        spec_deterministic_mask(
                            t@,
                            Some((self.spec_key(), self.spec_players())),
                            cards@[j],
                        ),
                    ),
            decreases cards@.len() - i,
        {
            let r = mask.mask(&cards[i]);
            v.push(self.parameters().mask_card(&cards[i], self.aggregate_key(), &r));
            i = i + 1;
        }
        v
    }
}

} // verus!
