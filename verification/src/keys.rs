//! Player keys, their ownership proofs, and the aggregation of the
//! players' public keys into the shared key that masks cards.
use vstd::prelude::*;
use vstd::string::StringSliceAdditionalSpecFns;

use crate::error::{CardProtocolError, CryptoError};
use crate::group::{
    group_element, lemma_add, lemma_assoc, lemma_identity, point_valid, scalar_valid, point_add, point_from_bytes, point_len, point_xy, spec_xy, point_mul, point_sub, point_to_bytes, random_scalar,
    points_from_bytes, points_to_bytes, scalar_from_bytes, scalar_len, scalar_to_bytes,
    spec_points_bytes, spec_points_from_bytes, spec_add, spec_mul, spec_point_bytes,
    spec_point_from_bytes, spec_scalar_bytes, spec_scalar_from_bytes, spec_sub, Point, Scalar,
};
use crate::proofs::{
    lemma_schnorr_complete, schnorr_challenge, schnorr_holds, schnorr_made, schnorr_prove, schnorr_verify,
    SchnorrProof, SCHNORR,
};
use crate::setup::Parameters;
use crate::deck::limbs_value;
use crate::sorting::{keys_sorted, lemma_sorted_unique, lex_le, lex_split, search_sorted, sort_by_keys};

verus! {

/// Label of the transcripts of key ownership proofs.
pub const KEY_OWN_RNG_SEED: &'static str = "Key Ownership Proof";

/// The bytes were refused: too short, or not the encoding of a valid
/// value.
#[derive(Debug, PartialEq, Eq, Clone, Copy)]
pub enum SerializationError {
    InvalidData,
}

/// Player's secret key, with the public key as a convenience.
#[derive(Clone, Copy, Debug)]
pub struct PlayerKeypair {
    pub sk: Scalar,
    pub pk: Point,
}

/// The keypair of the secret `sk`: `pk = sk * g`.
pub open spec fn keypair_of(g: Point, sk: Scalar) -> PlayerKeypair {
    PlayerKeypair { sk, pk: spec_mul(g, sk) }
}

/// Player's public key and ownership proof.
#[derive(Clone, Copy, Debug)]
pub struct PlayerHello {
    pub pk: Point,
    pub ownership_proof: SchnorrProof,
}

/// The encoding of a hello: the public key, the proof's commitment,
/// the proof's response.
pub open spec fn spec_hello_bytes(pk: Point, proof: SchnorrProof) -> Seq<u8> {
    spec_point_bytes(pk) + spec_point_bytes(proof.random_commit) + spec_scalar_bytes(proof.opening)
}

/// The length of the encoding of a hello.
pub open spec fn hello_len() -> nat {
    point_len() + point_len() + scalar_len()
}

/// The hello decoded from the first `hello_len()` bytes, where each of
/// its three parts decodes.
pub open spec fn spec_hello_from_bytes(b: Seq<u8>) -> Option<(Point, SchnorrProof)> {
    if b.len() < hello_len() {
        None
    } else {
        let pk = spec_point_from_bytes(b.subrange(0, 33));
        let a = spec_point_from_bytes(b.subrange(33, 66));
        let r = spec_scalar_from_bytes(b.subrange(66, 98));
        if pk is Some && a is Some && r is Some {
            Some((pk->0, SchnorrProof { random_commit: a->0, opening: r->0 }))
        } else {
            None
        }
    }
}

/// The encoding of a hello lays out, in this order, the public key in
/// bytes `0..33`, the proof's commitment in bytes `33..66` and its
/// response in bytes `66..98`.
pub proof fn lemma_hello_layout(pk: Point, proof: SchnorrProof)
    requires
        spec_point_bytes(pk).len() == point_len(),
        spec_point_bytes(proof.random_commit).len() == point_len(),
        spec_scalar_bytes(proof.opening).len() == scalar_len(),
    ensures
        spec_hello_bytes(pk, proof).len() == hello_len(),
        spec_hello_bytes(pk, proof).subrange(0, 33) == spec_point_bytes(pk),
        spec_hello_bytes(pk, proof).subrange(33, 66) == spec_point_bytes(proof.random_commit),
        spec_hello_bytes(pk, proof).subrange(66, 98) == spec_scalar_bytes(proof.opening),
{
    let b = spec_hello_bytes(pk, proof);
    assert(b.subrange(0, 33) =~= spec_point_bytes(pk));
    assert(b.subrange(33, 66) =~= spec_point_bytes(proof.random_commit));
    assert(b.subrange(66, 98) =~= spec_scalar_bytes(proof.opening));
}

/// A decoded hello's public key is the point in bytes `0..33`, its
/// commitment the point in bytes `33..66` and its response the scalar in
/// bytes `66..98`; bytes that do not decode there give no hello.
pub proof fn lemma_hello_decode(b: Seq<u8>)
    ensures
        spec_hello_from_bytes(b) matches Some((pk, proof)) ==> {
            &&& spec_point_from_bytes(b.subrange(0, 33)) == Some(pk)
            &&& spec_point_from_bytes(b.subrange(33, 66)) == Some(proof.random_commit)
            &&& spec_scalar_from_bytes(b.subrange(66, 98)) == Some(proof.opening)
        },
        b.len() >= hello_len() ==> (spec_hello_from_bytes(b) is Some <==> (spec_point_from_bytes(
            b.subrange(0, 33),
        ) is Some && spec_point_from_bytes(b.subrange(33, 66)) is Some && spec_scalar_from_bytes(
            b.subrange(66, 98),
        ) is Some)),
        b.len() < hello_len() ==> spec_hello_from_bytes(b) is None,
{
}

impl PlayerHello {
    /// The player's public key.
    pub fn as_affine(&self) -> (pk: &Point)
        ensures
            *pk == self.pk,
    {
        &self.pk
    }

    /// The ownership proof.
    pub fn ownership_proof(&self) -> (p: &SchnorrProof)
        ensures
            *p == self.ownership_proof,
    {
        &self.ownership_proof
    }

    /// Hellos are equal where their public keys are.
    pub fn equals(&self, other: &PlayerHello) -> (b: bool)
        ensures
            b == (self.pk == other.pk),
    {
        self.pk.equals(&other.pk)
    }

    /// The compressed encoding: public key, then the proof.
    pub fn to_bytes(&self) -> (v: Vec<u8>)
        ensures
            v@ == spec_hello_bytes(self.pk, self.ownership_proof),
            spec_hello_from_bytes(v@) == Some((self.pk, self.ownership_proof)),
            v@.len() == 98,
            v@.subrange(0, 33) == spec_point_bytes(self.pk),
            v@.subrange(33, 66) == spec_point_bytes(self.ownership_proof.random_commit),
            v@.subrange(66, 98) == spec_scalar_bytes(self.ownership_proof.opening),
    {
        proof {
            use_type_invariant(&self.pk);
            use_type_invariant(&self.ownership_proof.random_commit);
            use_type_invariant(&self.ownership_proof.opening);
        }
        let mut v = point_to_bytes(&self.pk);
        let mut a = point_to_bytes(&self.ownership_proof.random_commit);
        let mut r = scalar_to_bytes(&self.ownership_proof.opening);
        let ghost (v0, a0, r0) = (v@, a@, r@);
        v.append(&mut a);
        v.append(&mut r);
        proof {
            assert(v@.subrange(0, 33) =~= v0);
            assert(v@.subrange(33, 66) =~= a0);
            assert(v@.subrange(66, 98) =~= r0);
        }
        v
    }

    /// Decode a hello from the start of `bytes`; bytes after the hello
    /// are not read.
    pub fn from_bytes(bytes: &[u8]) -> (r: Result<PlayerHello, SerializationError>)
        ensures
            r is Ok <==> spec_hello_from_bytes(bytes@) is Some,
            r matches Ok(h) ==> spec_hello_from_bytes(bytes@) == Some((h.pk, h.ownership_proof)),
            r matches Ok(h) ==> spec_point_from_bytes(bytes@.subrange(0, 33)) == Some(h.pk),
            r matches Ok(h) ==> spec_point_from_bytes(bytes@.subrange(33, 66)) == Some(
                h.ownership_proof.random_commit,
            ),
            r matches Ok(h) ==> spec_scalar_from_bytes(bytes@.subrange(66, 98)) == Some(
                h.ownership_proof.opening,
            ),
            r is Err ==> r == Err::<PlayerHello, SerializationError>(
                SerializationError::InvalidData,
            ),
    {
        if bytes.len() < 98 {
            return Err(SerializationError::InvalidData);
        }
        let pk = point_from_bytes(slice_range(bytes, 0, 33));
        let a = point_from_bytes(slice_range(bytes, 33, 66));
        let r = scalar_from_bytes(slice_range(bytes, 66, 98));
        match (pk, a, r) {
            (Some(pk), Some(a), Some(r)) => Ok(
                PlayerHello { pk, ownership_proof: SchnorrProof { random_commit: a, opening: r } },
            ),
            _ => Err(SerializationError::InvalidData),
        }
    }
}

/// The bytes `s[start..end]`.
pub fn slice_range(s: &[u8], start: usize, end: usize) -> (r: &[u8])
    requires
        start <= end <= s@.len(),
    ensures
        r@ == s@.subrange(start as int, end as int),
{
    let (head, _) = s.split_at(end);
    let (_, tail) = head.split_at(start);
    proof {
        assert(tail@ =~= s@.subrange(start as int, end as int));
    }
    tail
}

impl Parameters {
    /// The keypair of the secret key `sk`.
    pub fn player_from_secret(&self, sk: Scalar) -> (key: PlayerKeypair)
        ensures
            key == keypair_of(self.enc_generator, sk),
    {
        let pk = point_mul(&self.enc_generator, &sk);
        PlayerKeypair { sk, pk }
    }

    /// A fresh keypair from system randomness.
    pub fn player_keygen(&self) -> (key: PlayerKeypair)
        ensures
            exists|sk: Scalar| key == keypair_of(self.enc_generator, sk),
    {
        let sk = random_scalar();
        self.player_from_secret(sk)
    }

    /// Decode a keypair from the encoding of its secret key at the start
    /// of `bytes`.
    pub fn deserialize_player(&self, bytes: &[u8]) -> (r: Result<PlayerKeypair, SerializationError>)
        ensures
            r is Ok <==> (bytes@.len() >= scalar_len() && spec_scalar_from_bytes(
                bytes@.subrange(0, 32),
            ) is Some),
            r matches Ok(key) ==> key == keypair_of(
                self.enc_generator,
                spec_scalar_from_bytes(bytes@.subrange(0, 32))->0,
            ),
            r is Err ==> r == Err::<PlayerKeypair, SerializationError>(
                SerializationError::InvalidData,
            ),
    {
        if bytes.len() < 32 {
            return Err(SerializationError::InvalidData);
        }
        match scalar_from_bytes(slice_range(bytes, 0, 32)) {
            Some(sk) => Ok(self.player_from_secret(sk)),
            None => Err(SerializationError::InvalidData),
        }
    }

    /// Prove ownership of the key, bound to the player's public info.
    pub fn prove_key_ownership(&self, key: &PlayerKeypair, player_public_info: &[u8]) -> (proof:
        SchnorrProof)
        ensures
            ownership_proof_made(self.enc_generator, *key, player_public_info@, proof),
            key.pk == spec_mul(self.enc_generator, key.sk) ==> key_ownership_holds(
                self.enc_generator,
                key.pk,
                player_public_info@,
                proof,
            ),
    {
        schnorr_prove(
            player_public_info,
            KEY_OWN_RNG_SEED.as_bytes(),
            &self.enc_generator,
            &key.pk,
            &key.sk,
        )
    }

    /// Verify a proof of ownership of `pk`, bound to the player's public
    /// info.
    pub fn verify_key_ownership(
        &self,
        pk: &Point,
        player_public_info: &[u8],
        proof: &SchnorrProof,
    ) -> (r: Result<(), CryptoError>)
        ensures
            r is Ok <==> key_ownership_holds(self.enc_generator, *pk, player_public_info@, *proof),
            r is Err ==> r == Err::<(), CryptoError>(CryptoError::ProofVerificationError(SCHNORR)),
    {
        schnorr_verify(
            player_public_info,
            KEY_OWN_RNG_SEED.as_bytes(),
            &self.enc_generator,
            pk,
            proof,
        )
    }

    /// The hello of a player: public key and ownership proof.
    pub fn prove_player(&self, key: &PlayerKeypair, player_public_info: &[u8]) -> (hello:
        PlayerHello)
        ensures
            hello.pk == key.pk,
            ownership_proof_made(self.enc_generator, *key, player_public_info@, hello.ownership_proof),
            key.pk == spec_mul(self.enc_generator, key.sk) ==> key_ownership_holds(
                self.enc_generator,
                hello.pk,
                player_public_info@,
                hello.ownership_proof,
            ),
    {
        let ownership_proof = self.prove_key_ownership(key, player_public_info);
        PlayerHello { pk: key.pk, ownership_proof }
    }

    /// A fresh keypair and its hello.
    pub fn generate_player(&self, player_public_info: &[u8]) -> (r: (PlayerHello, PlayerKeypair))
        ensures
            r.0.pk == r.1.pk,
            exists|sk: Scalar| r.1 == keypair_of(self.enc_generator, sk),
            ownership_proof_made(self.enc_generator, r.1, player_public_info@, r.0.ownership_proof),
            key_ownership_holds(self.enc_generator, r.0.pk, player_public_info@, r.0.ownership_proof),
    {
        let key = self.player_keygen();
        (self.prove_player(&key, player_public_info), key)
    }

    /// Verify a player's hello and return its public key.
    pub fn verify_player<'a>(&self, hello: &'a PlayerHello, player_public_info: &[u8]) -> (r:
        Result<&'a Point, CryptoError>)
        ensures
            r is Ok <==> key_ownership_holds(
                self.enc_generator,
                hello.pk,
                player_public_info@,
                hello.ownership_proof,
            ),
            r matches Ok(pk) ==> *pk == hello.pk,
            r is Err ==> r == Err::<&Point, CryptoError>(
                CryptoError::ProofVerificationError(SCHNORR),
            ),
    {
        match self.verify_key_ownership(&hello.pk, player_public_info, &hello.ownership_proof) {
            Ok(()) => Ok(&hello.pk),
            Err(e) => Err(e),
        }
    }
}

/// `proof` is an honest proof of ownership of `key`, bound to the
/// player's public info, with some valid nonce.
pub open spec fn ownership_proof_made(g: Point, key: PlayerKeypair, info: Seq<u8>, proof: SchnorrProof) -> bool {
    schnorr_made(info, KEY_OWN_RNG_SEED.spec_bytes(), g, key.pk, key.sk, proof)
}

/// A key ownership proof for `pk` holds, in the transcript of the
/// player's public info.
pub open spec fn key_ownership_holds(g: Point, pk: Point, info: Seq<u8>, proof: SchnorrProof) -> bool {
    schnorr_holds(g, pk, proof, schnorr_challenge(info, KEY_OWN_RNG_SEED.spec_bytes(), g, pk, proof.random_commit))
}

/// Completeness of key ownership proofs: an honest proof for a keypair
/// `pk = sk * g` verifies for the same public info.
pub proof fn lemma_ownership_complete(g: Point, key: PlayerKeypair, info: Seq<u8>, proof: SchnorrProof)
    requires
        group_element(g),
        scalar_valid(key.sk),
        key.pk == spec_mul(g, key.sk),
        ownership_proof_made(g, key, info, proof),
    ensures
        key_ownership_holds(g, key.pk, info, proof),
{
    lemma_schnorr_complete(info, KEY_OWN_RNG_SEED.spec_bytes(), g, key.pk, key.sk, proof);
}

impl PlayerKeypair {
    /// The encoding of the keypair: its secret key only.
    pub fn to_bytes(&self) -> (v: Vec<u8>)
        ensures
            v@ == spec_scalar_bytes(self.sk),
    {
        scalar_to_bytes(&self.sk)
    }
}

/// The sum of the keys (the aggregate key of players with these keys), added in order from the identity.
pub open spec fn key_sum(keys: Seq<Point>) -> Point
    decreases keys.len(),
{
    if keys.len() == 0 {
        Point::spec_zero()
    } else {
        spec_add(key_sum(keys.drop_last()), keys.last())
    }
}

/// The sum of group elements is a valid point.
pub proof fn lemma_key_sum_valid(keys: Seq<Point>)
    requires
        forall|i: int| 0 <= i < keys.len() ==> group_element(#[trigger] keys[i]),
    ensures
        keys.len() > 0 ==> point_valid(key_sum(keys)),
    decreases keys.len(),
{
    if keys.len() > 0 {
        let d = keys.drop_last();
        let l = keys.last();
        assert(group_element(keys[keys.len() - 1]));
        lemma_identity(l, l);
        assert forall|i: int| 0 <= i < d.len() implies group_element(#[trigger] d[i]) by {
            assert(d[i] == keys[i]);
        }
        lemma_key_sum_valid(d);
        lemma_add(l, key_sum(d));
    }
}

/// Keys with the same multiset as group elements are group elements.
pub proof fn lemma_same_keys_in_group(s1: Seq<Point>, s2: Seq<Point>)
    requires
        s1.to_multiset() == s2.to_multiset(),
        forall|i: int| 0 <= i < s1.len() ==> group_element(#[trigger] s1[i]),
    ensures
        forall|i: int| 0 <= i < s2.len() ==> group_element(#[trigger] s2[i]),
{
    assert forall|t: int| 0 <= t < s2.len() implies group_element(#[trigger] s2[t]) by {
        let x = s2[t];
        assert(s2.contains(x));
        vstd::seq_lib::to_multiset_contains(s2, x);
        vstd::seq_lib::to_multiset_contains(s1, x);
        let u = choose|u: int| 0 <= u < s1.len() && s1[u] == x;
        assert(group_element(s1[u]));
    }
}

/// Removing a key from the sum of keys gives the sum of the other keys.
pub proof fn lemma_key_sum_remove(keys: Seq<Point>, i: int)
    requires
        forall|t: int| 0 <= t < keys.len() ==> group_element(#[trigger] keys[t]),
        0 <= i < keys.len(),
    ensures
        spec_sub(key_sum(keys), keys[i]) == key_sum(keys.remove(i)),
    decreases keys.len(),
{
    let d = keys.drop_last();
    let l = keys.last();
    assert(group_element(keys[keys.len() - 1]));
    lemma_identity(l, l);
    assert forall|t: int| 0 <= t < d.len() implies group_element(#[trigger] d[t]) by {
        assert(d[t] == keys[t]);
    }
    lemma_key_sum_valid(d);
    let k = key_sum(d);
    assert(point_valid(k));
    if i == keys.len() - 1 {
        assert(keys.remove(i) =~= d);
        lemma_add(l, k);
    } else {
        let x = keys[i];
        assert(group_element(x));
        assert(d[i] == x);
        lemma_key_sum_remove(d, i);
        assert(keys.remove(i).drop_last() =~= d.remove(i));
        assert(keys.remove(i).last() == l);
        let u = spec_sub(k, x);
        lemma_add(x, k);
        assert(point_valid(u));
        lemma_add(l, u);
        let y = spec_add(u, l);
        assert(point_valid(y));
        lemma_assoc(l, u, x);
        lemma_add(x, l);
        lemma_assoc(x, u, l);
        assert(spec_add(u, x) == k);
        assert(spec_add(y, x) == spec_add(k, l));
        lemma_add(x, y);
        assert(spec_sub(spec_add(y, x), x) == y);
    }
}

/// The sum of keys does not depend on their order.
pub proof fn lemma_key_sum_permutation(s1: Seq<Point>, s2: Seq<Point>)
    requires
        forall|i: int| 0 <= i < s1.len() ==> group_element(#[trigger] s1[i]),
        s1.to_multiset() == s2.to_multiset(),
    ensures
        key_sum(s1) == key_sum(s2),
    decreases s1.len(),
{
    vstd::seq_lib::to_multiset_len(s1);
    vstd::seq_lib::to_multiset_len(s2);
    lemma_same_keys_in_group(s1, s2);
    if s1.len() > 0 {
        let n = s1.len() - 1;
        let x = s1[n];
        assert(group_element(x));
        vstd::seq_lib::to_multiset_contains(s1, x);
        vstd::seq_lib::to_multiset_contains(s2, x);
        let j = choose|j: int| 0 <= j < s2.len() && s2[j] == x;
        vstd::seq_lib::to_multiset_remove(s1, n);
        vstd::seq_lib::to_multiset_remove(s2, j);
        assert(s1.remove(n) =~= s1.drop_last());
        let d1 = s1.drop_last();
        assert forall|t: int| 0 <= t < d1.len() implies group_element(#[trigger] d1[t]) by {
            assert(d1[t] == s1[t]);
        }
        lemma_key_sum_permutation(d1, s2.remove(j));
        lemma_key_sum_remove(s2, j);
        lemma_key_sum_valid(s2);
        lemma_add(x, key_sum(s2));
        assert(spec_add(spec_sub(key_sum(s2), x), x) == key_sum(s2));
    }
}

/// `i` is the first position of `p` in `s`.
pub open spec fn is_first_position(s: Seq<Point>, p: Point, i: int) -> bool {
    &&& 0 <= i < s.len()
    &&& s[i] == p
    &&& forall|j: int| 0 <= j < i ==> s[j] != p
}

/// The first position of `p` in `s`, or `None` where `p` is not in `s`.
pub open spec fn first_position(s: Seq<Point>, p: Point) -> Option<int> {
    if s.contains(p) {
        Some(choose|i: int| is_first_position(s, p, i))
    } else {
        None
    }
}

/// The first position of `p` in `s` is the position of the first
/// element equal to `p`.
pub proof fn lemma_first_position(s: Seq<Point>, p: Point, i: int)
    requires
        is_first_position(s, p, i),
    ensures
        first_position(s, p) == Some(i),
{
    assert(s.contains(p));
    let k = choose|k: int| is_first_position(s, p, k);
    assert(is_first_position(s, p, k));
    if k < i {
        assert(s[k] != p);
    }
    if i < k {
        assert(s[i] != p);
    }
}

/// Find the first position of `pk` in `keys`.
pub fn position_of(keys: &[Point], pk: &Point) -> (r: Option<usize>)
    ensures
        r matches Some(i) ==> is_first_position(keys@, *pk, i as int),
        r is None <==> !keys@.contains(*pk),
        r matches Some(i) ==> first_position(keys@, *pk) == Some(i as int),
        r is None ==> first_position(keys@, *pk) is None,
{
    let mut i: usize = 0;
    while i < keys.len()
        invariant
            i <= keys@.len(),
            forall|j: int| 0 <= j < i ==> keys@[j] != *pk,
        decreases keys@.len() - i,
    {
        if keys[i].equals(pk) {
            proof {
                lemma_first_position(keys@, *pk, i as int);
            }
            return Some(i);
        }
        i = i + 1;
    }
    proof {
        if keys@.contains(*pk) {
            let k = choose|k: int| 0 <= k < keys@.len() && keys@[k] == *pk;
            assert(keys@[k] != *pk);
        }
    }
    None
}

/// The players' public keys and their sum, the aggregate key that masks
/// cards.  Players join with a verified ownership proof, since attacks
/// on the aggregate exist otherwise.
#[derive(Debug)]
pub struct AggregatedPublicKeys<'p> {
    parameters: &'p Parameters,
    aggregated_key: Point,
    players_public_keys: Vec<Point>,
}

impl<'p> Clone for AggregatedPublicKeys<'p> {
    /// The same parameters, players and aggregate key.
    fn clone(&self) -> (r: Self)
        ensures
            r.spec_parameters() == self.spec_parameters(),
            r.spec_players() == self.spec_players(),
            r.spec_key() == self.spec_key(),
    {
        proof {
            use_type_invariant(self);
        }
        let mut players: Vec<Point> = Vec::new();
        let mut i: usize = 0;
        while i < self.players_public_keys.len()
            invariant
                i <= self.players_public_keys@.len(),
                players@ == self.players_public_keys@.take(i as int),
            decreases self.players_public_keys@.len() - i,
        {
            players.push(self.players_public_keys[i]);
            proof {
                assert(players@ =~= self.players_public_keys@.take(i + 1));
            }
            i = i + 1;
        }
        proof {
            assert(players@ =~= self.players_public_keys@);
        }
        AggregatedPublicKeys {
            parameters: self.parameters,
            aggregated_key: self.aggregated_key,
            players_public_keys: players,
        }
    }
}

impl<'p> AggregatedPublicKeys<'p> {
    /// Every player's key is a valid element of the curve group, and the
    /// aggregate key is the sum of the players' keys.
    #[verifier::type_invariant]
    closed spec fn players_in_group(&self) -> bool {
        &&& forall|i: int| 0 <= i < self.players_public_keys@.len() ==> group_element(
            #[trigger] self.players_public_keys@[i],
        )
        &&& self.aggregated_key == key_sum(self.players_public_keys@)
    }

    /// The players' public keys, in addition order.
    pub closed spec fn spec_players(&self) -> Seq<Point> {
        self.players_public_keys@
    }

    /// The aggregate key.
    pub closed spec fn spec_key(&self) -> Point {
        self.aggregated_key
    }

    /// The parameters of the game.
    pub closed spec fn spec_parameters(&self) -> Parameters {
        *self.parameters
    }

    pub fn parameters(&self) -> (p: &'p Parameters)
        ensures
            *p == self.spec_parameters(),
    {
        self.parameters
    }

    /// The aggregate public key.
    pub fn aggregate_key(&self) -> (k: &Point)
        ensures
            *k == self.spec_key(),
            *k == key_sum(self.spec_players()),
    {
        proof {
            use_type_invariant(self);
        }
        &self.aggregated_key
    }

    /// Returns players in addition order.
    pub fn players(&self) -> (s: &[Point])
        ensures
            s@ == self.spec_players(),
    {
        self.players_public_keys.as_slice()
    }

    /// Add a player's public key into the aggregation, unchecked.
    pub(crate) fn add_unchecked(&mut self, pk: Point)
        ensures
            final(self).spec_players() == old(self).spec_players().push(pk),
            final(self).spec_key() == spec_add(old(self).spec_key(), pk),
            final(self).spec_parameters() == old(self).spec_parameters(),
            final(self).spec_key() == key_sum(final(self).spec_players()),
    {
        proof {
            use_type_invariant(&*self);
            use_type_invariant(&pk);
        }
        let mut taken = self.parameters.create_aggregate_keys();
        std::mem::swap(self, &mut taken);
        let AggregatedPublicKeys { parameters, aggregated_key, players_public_keys } = taken;
        let mut players = players_public_keys;
        players.push(pk);
        proof {
            assert(players@.drop_last() =~= old(self).players_public_keys@);
        }
        let key = point_add(&aggregated_key, &pk);
        *self = AggregatedPublicKeys { parameters, aggregated_key: key, players_public_keys: players };
    }

    /// Add a player's public key into the aggregation, after verifying
    /// its ownership proof; the aggregation is unchanged where it fails.
    pub fn verify_n_add(&mut self, player: PlayerHello, player_public_info: &[u8]) -> (r: Result<
        (),
        CardProtocolError,
    >)
        ensures
            r is Ok <==> key_ownership_holds(
                old(self).spec_parameters().enc_generator,
                player.pk,
                player_public_info@,
                player.ownership_proof,
            ),
            r is Ok ==> final(self).spec_players() == old(self).spec_players().push(player.pk),
            r is Ok ==> final(self).spec_key() == spec_add(old(self).spec_key(), player.pk),
            r is Err ==> final(self).spec_players() == old(self).spec_players(),
            r is Err ==> final(self).spec_key() == old(self).spec_key(),
            r is Err ==> r == Err::<(), CardProtocolError>(
                CardProtocolError::ProofError(CryptoError::ProofVerificationError(SCHNORR)),
            ),
            final(self).spec_parameters() == old(self).spec_parameters(),
            final(self).spec_key() == key_sum(final(self).spec_players()),
    {
        proof {
            use_type_invariant(&*self);
        }
        match self.parameters.verify_key_ownership(
            &player.pk,
            player_public_info,
            &player.ownership_proof,
        ) {
            Ok(()) => {
                self.add_unchecked(player.pk);
                Ok(())
            },
            Err(e) => Err(CardProtocolError::ProofError(e)),
        }
    }

    /// The index of the player with key `pk`.
    pub fn player_index(&self, pk: &Point) -> (r: Result<usize, CardProtocolError>)
        ensures
            r matches Ok(i) ==> is_first_position(self.spec_players(), *pk, i as int),
            r is Err <==> !self.spec_players().contains(*pk),
            r is Err ==> r == Err::<usize, CardProtocolError>(CardProtocolError::PlayerNotPresent),
    {
        match position_of(self.players(), pk) {
            Some(i) => Ok(i),
            None => Err(CardProtocolError::PlayerNotPresent),
        }
    }

    /// The indices of all players but the one with key `pk`, in order;
    /// an error, early, where `pk` is not a player.
    pub fn others_indices(&self, pk: &Point) -> (r: Result<Vec<usize>, CardProtocolError>)
        ensures
            r is Err <==> !self.spec_players().contains(*pk),
            r is Err ==> r == Err::<Vec<usize>, CardProtocolError>(
                CardProtocolError::PlayerNotPresent,
            ),
            r matches Ok(v) ==> exists|i: int|
                {
                    &&& is_first_position(self.spec_players(), *pk, i)
                    &&& v@.len() == self.spec_players().len() - 1
                    &&& forall|j: int|
                        0 <= j < v@.len() ==> #[trigger] v@[j] == if j < i {
                            j
                        } else {
                            j + 1
                        }
                },
    {
        let num_of_players = self.players().len();
        let index = match self.player_index(pk) {
            Ok(i) => i,
            Err(e) => {
                return Err(e);
            },
        };
        let mut v: Vec<usize> = Vec::new();
        let mut i: usize = 0;
        while i < num_of_players
            invariant
                num_of_players == self.spec_players().len(),
                index < num_of_players,
                i <= num_of_players,
                v@.len() == if i <= index {
                    i as int
                } else {
                    i - 1
                },
                forall|j: int|
                    0 <= j < v@.len() ==> #[trigger] v@[j] == if j < index {
                        j
                    } else {
                        j + 1
                    },
            decreases num_of_players - i,
        {
            if i != index {
                v.push(i);
            }
            i = i + 1;
        }
        Ok(v)
    }

    /// Remove the player at `index`, returning its public key.
    pub fn remove(&mut self, index: usize) -> (pk: Point)
        requires
            index < old(self).spec_players().len(),
        ensures
            pk == old(self).spec_players()[index as int],
            final(self).spec_players() == old(self).spec_players().remove(index as int),
            final(self).spec_key() == spec_sub(old(self).spec_key(), pk),
            final(self).spec_parameters() == old(self).spec_parameters(),
            final(self).spec_key() == key_sum(final(self).spec_players()),
    {
        proof {
            use_type_invariant(&*self);
            lemma_key_sum_remove(old(self).spec_players(), index as int);
        }
        let mut taken = self.parameters.create_aggregate_keys();
        std::mem::swap(self, &mut taken);
        let AggregatedPublicKeys { parameters, aggregated_key, players_public_keys } = taken;
        let mut players = players_public_keys;
        let pk = players.remove(index);
        let key = point_sub(&aggregated_key, &pk);
        *self = AggregatedPublicKeys { parameters, aggregated_key: key, players_public_keys: players };
        pk
    }

    /// For each player of `target`, the index of the same key among our
    /// players, if any.
    pub fn player_mapping(&self, target: &AggregatedPublicKeys) -> (r: Vec<Option<usize>>)
        ensures
            r@.len() == target.spec_players().len(),
            forall|j: int|
                0 <= j < r@.len() ==> #[trigger] r@[j] == match first_position(
                    self.spec_players(),
                    target.spec_players()[j],
                ) {
                    Some(i) => Some(i as usize),
                    None => None::<usize>,
                },
    {
        let mut r: Vec<Option<usize>> = Vec::new();
        let mut j: usize = 0;
        let ts = target.players();
        while j < ts.len()
            invariant
                ts@ == target.spec_players(),
                j <= ts@.len(),
                r@.len() == j,
                forall|k: int|
                    0 <= k < j ==> #[trigger] r@[k] == match first_position(
                        self.spec_players(),
                        ts@[k],
                    ) {
                        Some(i) => Some(i as usize),
                        None => None::<usize>,
                    },
            decreases ts@.len() - j,
        {
            let p = position_of(self.players(), &ts[j]);
            r.push(p);
            j = j + 1;
        }
        r
    }
}

impl<'p> AggregatedPublicKeys<'p> {
    /// The compressed encoding: the players' public keys.
    pub fn to_bytes(&self) -> (v: Vec<u8>)
        ensures
            v@ == spec_points_bytes(self.spec_players()),
            spec_points_from_bytes(v@) == Some(self.spec_players()),
            v@.len() == 8 + 33 * self.spec_players().len(),
            crate::group::le_u64(v@, 0) == self.spec_players().len(),
    {
        proof {
            use_type_invariant(self);
        }
        points_to_bytes(self.players())
    }

    /// Decode the players' public keys and aggregate them, without
    /// checking anything else.
    pub fn deserialize_compressed(bytes: &[u8], parameters: &'p Parameters) -> (r: Result<
        AggregatedPublicKeys<'p>,
        SerializationError,
    >)
        ensures
            r is Err <==> spec_points_from_bytes(bytes@) is None,
            r is Err ==> (r matches Err(e) && e == SerializationError::InvalidData),
            r matches Ok(apk) ==> {
                &&& Some(apk.spec_players()) == spec_points_from_bytes(bytes@)
                &&& apk.spec_key() == key_sum(apk.spec_players())
                &&& apk.spec_parameters() == *parameters
            },
    {
        let players_public_keys = match points_from_bytes(bytes) {
            Some(v) => v,
            None => {
                return Err(SerializationError::InvalidData);
            },
        };
        let mut apk = Point::zero();
        let mut i: usize = 0;
        while i < players_public_keys.len()
            invariant
                i <= players_public_keys@.len(),
                apk == key_sum(players_public_keys@.take(i as int)),
            decreases players_public_keys@.len() - i,
        {
            proof {
                assert(players_public_keys@.take(i + 1).drop_last() =~= players_public_keys@.take(
                    i as int,
                ));
            }
            apk = point_add(&apk, &players_public_keys[i]);
            i = i + 1;
        }
        proof {
            assert(players_public_keys@.take(i as int) =~= players_public_keys@);
        }
        Ok(AggregatedPublicKeys { parameters, aggregated_key: apk, players_public_keys })
    }
}

/// The order key of a public key: the identity first, then points by
/// their `x` coordinate as an integer, then by `y` (the order of
/// `Option<(x, y)>` with the integer order on coordinates).
pub open spec fn xy_key(p: Point) -> Seq<u64> {
    match spec_xy(p) {
        None => seq![0u64, 0u64, 0u64, 0u64, 0u64, 0u64, 0u64, 0u64, 0u64],
        Some((x, y)) => seq![1u64, x[3], x[2], x[1], x[0], y[3], y[2], y[1], y[0]],
    }
}

/// The order key of a public key.
pub fn xy_key_of(p: &Point) -> (k: Vec<u64>)
    ensures
        k@ == xy_key(*p),
        k@.len() == 9,
        forall|q: Point| point_valid(q) && #[trigger] xy_key(q) == k@ ==> q == *p,
{
    let r = point_xy(p);
    proof {
        use_type_invariant(p);
        assert forall|q: Point| point_valid(q) && #[trigger] xy_key(q) == xy_key(*p) implies q == *p by {
            broadcast use vstd::array::group_array_axioms;
            lemma_xy_key_determines(q, *p);
        }
    }
    let k = match r {
        None => vec![0u64, 0u64, 0u64, 0u64, 0u64, 0u64, 0u64, 0u64, 0u64],
        Some((x, y)) => vec![1u64, x[3], x[2], x[1], x[0], y[3], y[2], y[1], y[0]],
    };
    proof {
        assert(k@ =~= xy_key(*p));
    }
    k
}

/// Equal order keys come from equal coordinates.
proof fn lemma_xy_key_determines(q: Point, p: Point)
    requires
        xy_key(q) == xy_key(p),
    ensures
        spec_xy(q) == spec_xy(p),
{
    broadcast use vstd::array::group_array_axioms;
    let kq = xy_key(q);
    let kp = xy_key(p);
    assert(kq[0] == kp[0]);
    match (spec_xy(q), spec_xy(p)) {
        (Some((xq, yq)), Some((xp, yp))) => {
            assert(kq[1] == kp[1] && kq[2] == kp[2] && kq[3] == kp[3] && kq[4] == kp[4]);
            assert(kq[5] == kp[5] && kq[6] == kp[6] && kq[7] == kp[7] && kq[8] == kp[8]);
            assert(xq =~= xp);
            assert(yq =~= yp);
        },
        _ => {},
    }
}

/// `p` comes no later than `q` in the order of public keys: the identity
/// first, then points by the integer value of their `x` coordinate, and
/// points with the same `x` by the integer value of their `y`.
pub open spec fn xy_le(p: Point, q: Point) -> bool {
    match (spec_xy(p), spec_xy(q)) {
        (None, _) => true,
        (Some(_), None) => false,
        (Some((xp, yp)), Some((xq, yq))) => limbs_value(xp) < limbs_value(xq) || (limbs_value(xp)
            == limbs_value(xq) && limbs_value(yp) <= limbs_value(yq)),
    }
}

/// A larger high part outweighs any low limb.
proof fn lemma_high_part(hu: int, hw: int, a: int, b: int)
    requires
        hu < hw,
        0 <= a < 0x1_0000_0000_0000_0000,
        0 <= b,
    ensures
        a + 0x1_0000_0000_0000_0000 * hu < b + 0x1_0000_0000_0000_0000 * hw,
{
    assert(0x1_0000_0000_0000_0000 * hu + 0x1_0000_0000_0000_0000 <= 0x1_0000_0000_0000_0000 * hw)
        by (nonlinear_arith)
        requires
            hu < hw,
    ;
}

/// Four limbs compare as integers the way they compare from the most
/// significant limb down.
pub proof fn lemma_limbs_compare(u: [u64; 4], w: [u64; 4])
    ensures
        u[3] < w[3] ==> limbs_value(u) < limbs_value(w),
        u[3] == w[3] && u[2] < w[2] ==> limbs_value(u) < limbs_value(w),
        u[3] == w[3] && u[2] == w[2] && u[1] < w[1] ==> limbs_value(u) < limbs_value(w),
        u[3] == w[3] && u[2] == w[2] && u[1] == w[1] && u[0] < w[0] ==> limbs_value(u)
            < limbs_value(w),
        u[3] == w[3] && u[2] == w[2] && u[1] == w[1] && u[0] == w[0] ==> limbs_value(u)
            == limbs_value(w),
{
    let h2u: int = u[2] as int + 0x1_0000_0000_0000_0000 * (u[3] as int);
    let h2w: int = w[2] as int + 0x1_0000_0000_0000_0000 * (w[3] as int);
    let h1u: int = u[1] as int + 0x1_0000_0000_0000_0000 * h2u;
    let h1w: int = w[1] as int + 0x1_0000_0000_0000_0000 * h2w;
    assert(limbs_value(u) == u[0] as int + 0x1_0000_0000_0000_0000 * h1u);
    assert(limbs_value(w) == w[0] as int + 0x1_0000_0000_0000_0000 * h1w);
    assert(h2u >= 0 && h2w >= 0 && h1u >= 0 && h1w >= 0) by (nonlinear_arith)
        requires
            h2u == u[2] as int + 0x1_0000_0000_0000_0000 * (u[3] as int),
            h2w == w[2] as int + 0x1_0000_0000_0000_0000 * (w[3] as int),
            h1u == u[1] as int + 0x1_0000_0000_0000_0000 * h2u,
            h1w == w[1] as int + 0x1_0000_0000_0000_0000 * h2w,
            u[2] >= 0, u[3] >= 0, w[2] >= 0, w[3] >= 0, u[1] >= 0, w[1] >= 0,
    ;
    if u[3] < w[3] {
        lemma_high_part(u[3] as int, w[3] as int, u[2] as int, w[2] as int);
    }
    if h2u < h2w {
        lemma_high_part(h2u, h2w, u[1] as int, w[1] as int);
    }
    if h1u < h1w {
        lemma_high_part(h1u, h1w, u[0] as int, w[0] as int);
    }
}

/// Keys in the order of `xy_key` are in the order of their coordinates
/// as integers.
pub proof fn lemma_xy_key_order(p: Point, q: Point)
    requires
        lex_le(xy_key(p), xy_key(q)),
    ensures
        xy_le(p, q),
{
    broadcast use vstd::array::group_array_axioms;
    let kp = xy_key(p);
    let kq = xy_key(q);
    match (spec_xy(p), spec_xy(q)) {
        (None, _) => {},
        (Some((xp, yp)), None) => {
            assert(lex_split(kq, kp, 0));
        },
        (Some((xp, yp)), Some((xq, yq))) => {
            lemma_limbs_compare(xq, xp);
            lemma_limbs_compare(yq, yp);
            lemma_limbs_compare(xp, xq);
            lemma_limbs_compare(yp, yq);
            if xq[3] != xp[3] {
                if xq[3] < xp[3] {
                    assert(lex_split(kq, kp, 1));
                }
            } else if xq[2] != xp[2] {
                if xq[2] < xp[2] {
                    assert(lex_split(kq, kp, 2));
                }
            } else if xq[1] != xp[1] {
                if xq[1] < xp[1] {
                    assert(lex_split(kq, kp, 3));
                }
            } else if xq[0] != xp[0] {
                if xq[0] < xp[0] {
                    assert(lex_split(kq, kp, 4));
                }
            } else if yq[3] != yp[3] {
                if yq[3] < yp[3] {
                    assert(lex_split(kq, kp, 5));
                }
            } else if yq[2] != yp[2] {
                if yq[2] < yp[2] {
                    assert(lex_split(kq, kp, 6));
                }
            } else if yq[1] != yp[1] {
                if yq[1] < yp[1] {
                    assert(lex_split(kq, kp, 7));
                }
            } else if yq[0] != yp[0] {
                if yq[0] < yp[0] {
                    assert(lex_split(kq, kp, 8));
                }
            }
        },
    }
}

/// The points are in the order of their keys' coordinates.
pub open spec fn xy_sorted(q: Seq<Point>) -> bool {
    keys_sorted(q.map_values(|p: Point| xy_key(p)))
}

/// Some point of `ps` has the order key of `p`.
pub open spec fn xy_member(ps: Seq<Point>, p: Point) -> bool {
    exists|q: Point| ps.contains(q) && xy_key(q) == xy_key(p)
}

fn xy_keys_of(ps: &[Point]) -> (ks: Vec<Vec<u64>>)
    ensures
        ks@.len() == ps@.len(),
        forall|i: int| 0 <= i < ps@.len() ==> #[trigger] ks@[i]@ == xy_key(ps@[i]),
        forall|i: int| 0 <= i < ps@.len() ==> (#[trigger] ks@[i])@.len() == 9,
        forall|i: int, q: Point|
            0 <= i < ps@.len() && point_valid(q) && #[trigger] xy_key(q) == xy_key(#[trigger] ps@[i])
                ==> q == ps@[i],
{
    let mut ks: Vec<Vec<u64>> = Vec::new();
    let mut i: usize = 0;
    while i < ps.len()
        invariant
            i <= ps@.len(),
            ks@.len() == i,
            forall|t: int| 0 <= t < i ==> #[trigger] ks@[t]@ == xy_key(ps@[t]),
            forall|t: int| 0 <= t < i ==> (#[trigger] ks@[t])@.len() == 9,
            forall|t: int, q: Point|
                0 <= t < i && point_valid(q) && #[trigger] xy_key(q) == xy_key(#[trigger] ps@[t])
                    ==> q == ps@[t],
        decreases ps@.len() - i,
    {
        ks.push(xy_key_of(&ps[i]));
        i = i + 1;
    }
    ks
}

impl<'p> AggregatedPublicKeys<'p> {
    /// Cannonicalize the player indices: sort the players by the order
    /// of their keys' coordinates.
    pub fn sort(&mut self)
        ensures
            final(self).spec_players().to_multiset() == old(self).spec_players().to_multiset(),
            keys_sorted(final(self).spec_players().map_values(|p: Point| xy_key(p))),
            forall|i: int, j: int|
                0 <= i < j < final(self).spec_players().len() ==> xy_le(
                    #[trigger] final(self).spec_players()[i],
                    #[trigger] final(self).spec_players()[j],
                ),
            final(self).spec_key() == old(self).spec_key(),
            final(self).spec_parameters() == old(self).spec_parameters(),
            final(self).spec_key() == key_sum(final(self).spec_players()),
            forall|q: Seq<Point>|
                q.to_multiset() == old(self).spec_players().to_multiset() && #[trigger] xy_sorted(q)
                    ==> q == final(self).spec_players(),
    {
        proof {
            use_type_invariant(&*self);
        }
        let keys = xy_keys_of(self.players_public_keys.as_slice());
        let mut taken = self.parameters.create_aggregate_keys();
        std::mem::swap(self, &mut taken);
        let AggregatedPublicKeys { parameters, aggregated_key, players_public_keys } = taken;
        let players = players_public_keys;
        let (sorted, _) = sort_by_keys(players, keys, Ghost(|p: Point| xy_key(p)), Ghost(9));
        proof {
            let ps = old(self).spec_players();
            lemma_key_sum_permutation(ps, sorted@);
            lemma_same_keys_in_group(ps, sorted@);
            let f = |p: Point| xy_key(p);
            let ks = sorted@.map_values(f);
            assert forall|i: int, j: int| 0 <= i < j < sorted@.len() implies xy_le(
                #[trigger] sorted@[i],
                #[trigger] sorted@[j],
            ) by {
                assert(lex_le(ks[i], ks[j]));
                lemma_xy_key_order(sorted@[i], sorted@[j]);
            }
            assert forall|q: Seq<Point>|
                q.to_multiset() == ps.to_multiset() && #[trigger] xy_sorted(q) implies q == sorted@ by {
                lemma_same_keys_in_group(ps, q);
                assert forall|x: Point| q.contains(x) implies point_valid(x) by {
                    let t = choose|t: int| 0 <= t < q.len() && q[t] == x;
                    assert(group_element(q[t]));
                }
                assert forall|x: Point, y: Point|
                    q.contains(x) && point_valid(y) && #[trigger] f(y) == #[trigger] f(x) implies y == x by {
                    vstd::seq_lib::to_multiset_contains(q, x);
                    vstd::seq_lib::to_multiset_contains(ps, x);
                    let t = choose|t: int| 0 <= t < ps.len() && ps[t] == x;
                    assert(xy_key(y) == xy_key(ps[t]));
                    assert(xy_key(x) == xy_key(ps[t]));
                }
                lemma_sorted_unique(q, sorted@, f, 9);
            }
        }
        *self = AggregatedPublicKeys { parameters, aggregated_key, players_public_keys: sorted };
    }

    /// Our players whose keys' coordinates are those of some player of
    /// `other`, in our order.
    pub fn intersect(&self, other: &AggregatedPublicKeys) -> (r: Vec<Point>)
        ensures
            r@ == self.spec_players().filter(|p: Point| xy_member(other.spec_players(), p)),
    {
        let others = vstd::slice::slice_to_vec(other.players());
        let keys = xy_keys_of(others.as_slice());
        let (sorted, sorted_keys) = sort_by_keys(others, keys, Ghost(|p: Point| xy_key(p)), Ghost(9));
        proof {
            assert forall|q: Point| sorted@.contains(q) <==> other.spec_players().contains(q) by {
                vstd::seq_lib::to_multiset_contains(sorted@, q);
                vstd::seq_lib::to_multiset_contains(other.spec_players(), q);
            }
            assert(sorted_keys@.map_values(|k: Vec<u64>| k@) =~= sorted@.map_values(
                |p: Point| xy_key(p),
            ));
        }
        let mine = self.players();
        let ghost f = |p: Point| xy_member(other.spec_players(), p);
        let mut r: Vec<Point> = Vec::new();
        let mut i: usize = 0;
        while i < mine.len()
            invariant
                mine@ == self.spec_players(),
                i <= mine@.len(),
                r@ == mine@.take(i as int).filter(f),
                f == (|p: Point| xy_member(other.spec_players(), p)),
                forall|q: Point| sorted@.contains(q) <==> other.spec_players().contains(q),
                sorted_keys@.len() == sorted@.len(),
                forall|t: int| 0 <= t < sorted@.len() ==> #[trigger] sorted_keys@[t]@ == xy_key(sorted@[t]),
                forall|t: int| 0 <= t < sorted@.len() ==> (#[trigger] sorted_keys@[t])@.len() == 9,
                keys_sorted(sorted_keys@.map_values(|k: Vec<u64>| k@)),
            decreases mine@.len() - i,
        {
            let p = mine[i];
            let k = xy_key_of(&p);
            let found = search_sorted(sorted_keys.as_slice(), k.as_slice(), Ghost(9));
            proof {
                assert(mine@.take(i + 1) =~= mine@.take(i as int).push(p));
                mine@.take(i as int).lemma_filter_push(p, f);
                match found {
                    Some(j) => {
                        assert(sorted@.contains(sorted@[j as int]));
                        assert(f(p));
                    },
                    None => {
                        if f(p) {
                            let q = choose|q: Point| other.spec_players().contains(q) && xy_key(q)
                                == xy_key(p);
                            assert(sorted@.contains(q));
                            let t = choose|t: int| 0 <= t < sorted@.len() && sorted@[t] == q;
                            assert(sorted_keys@[t]@ == xy_key(q));
                        }
                    },
                }
            }
            if found.is_some() {
                r.push(p);
            }
            i = i + 1;
        }
        proof {
            assert(mine@.take(i as int) =~= mine@);
        }
        r
    }
}

impl Parameters {
    /// An empty aggregation of public keys for these parameters.
    pub fn create_aggregate_keys(&self) -> (apk: AggregatedPublicKeys)
        ensures
            apk.spec_players() == Seq::<Point>::empty(),
            apk.spec_key() == Point::spec_zero(),
            apk.spec_key() == key_sum(apk.spec_players()),
            apk.spec_parameters() == *self,
    {
        AggregatedPublicKeys {
            parameters: self,
            aggregated_key: Point::zero(),
            players_public_keys: Vec::new(),
        }
    }
}

} // verus!
