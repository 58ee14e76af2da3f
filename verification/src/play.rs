//! The byte-level interface of a game: player hellos and their public
//! keys as bytes, and building the aggregate key from a flat buffer of
//! hellos and player names.
use vstd::prelude::*;
use vstd::string::StringExecFns;

use crate::error::{CardProtocolError, CryptoError};
use crate::group::{le_u32, point_to_bytes, spec_add, spec_point_bytes, spec_sub, Point};
use crate::keys::{
    is_first_position, key_ownership_holds, key_sum, slice_range, spec_hello_from_bytes, AggregatedPublicKeys, PlayerHello,
};
use crate::keys::{keypair_of, ownership_proof_made, PlayerKeypair, SerializationError};
use crate::masking::{
    spec_cipher_from_bytes, spec_zero_mask, zero_mask_affines, Ciphertext, MaskedCard, Plaintext,
    UnmaskedCard,
};
use crate::reveals::{
    spec_partial_unmask, update_masked_card, RevealToken, is_card_position, message_error, spec_reveal, spec_reveal_message_from_bytes,
    spec_reveal_token, AccumulateReveals, RevealMessage,
};
use crate::setup::Parameters;

verus! {

/// The public key of an encoded `PlayerHello`, encoded; empty where the
/// hello does not decode.
pub fn player_public(pk: &[u8]) -> (r: Vec<u8>)
    ensures
        r@ == match spec_hello_from_bytes(pk@) {
            Some(h) => spec_point_bytes(h.0),
            None => Seq::<u8>::empty(),
        },
{
    match PlayerHello::from_bytes(pk) {
        Ok(hello) => point_to_bytes(hello.as_affine()),
        Err(_) => Vec::new(),
    }
}

/// A fresh keypair from system randomness.
pub fn player_keygen(params: &Parameters) -> (key: PlayerKeypair)
    ensures
        exists|sk: crate::group::Scalar| key == keypair_of(params.enc_generator, sk),
{
    params.player_keygen()
}

/// Decode a keypair from the encoding of its secret key.
pub fn player_deserialize(params: &Parameters, selfy: &[u8]) -> (r: Result<PlayerKeypair, SerializationError>)
    ensures
        r is Ok <==> (selfy@.len() >= 32 && crate::group::spec_scalar_from_bytes(
            selfy@.subrange(0, 32),
        ) is Some),
        r matches Ok(key) ==> key == keypair_of(
            params.enc_generator,
            crate::group::spec_scalar_from_bytes(selfy@.subrange(0, 32))->0,
        ),
        r is Err ==> r == Err::<PlayerKeypair, SerializationError>(SerializationError::InvalidData),
{
    params.deserialize_player(selfy)
}

/// The hello of a player, bound to the player's public info.
pub fn prove_player(params: &Parameters, key: &PlayerKeypair, player_public_info: &[u8]) -> (hello: PlayerHello)
    ensures
        hello.pk == key.pk,
        ownership_proof_made(params.enc_generator, *key, player_public_info@, hello.ownership_proof),
        key.pk == crate::group::spec_mul(params.enc_generator, key.sk) ==> key_ownership_holds(
            params.enc_generator,
            hello.pk,
            player_public_info@,
            hello.ownership_proof,
        ),
{
    params.prove_player(key, player_public_info)
}

/// A fresh keypair and its hello, bound to the player's public info.
pub fn generate_player(params: &Parameters, player_public_info: &[u8]) -> (r: (PlayerHello, PlayerKeypair))
    ensures
        r.0.pk == r.1.pk,
        exists|sk: crate::group::Scalar| r.1 == keypair_of(params.enc_generator, sk),
        ownership_proof_made(params.enc_generator, r.1, player_public_info@, r.0.ownership_proof),
        key_ownership_holds(params.enc_generator, r.0.pk, player_public_info@, r.0.ownership_proof),
{
    params.generate_player(player_public_info)
}

/// The cards of a deck, as masked cards without any masking.
pub fn zero_mask_deck(deck: &[Point]) -> (v: Vec<MaskedCard>)
    ensures
        v@.len() == deck@.len(),
        forall|i: int| 0 <= i < deck@.len() ==> #[trigger] v@[i] == spec_zero_mask(Plaintext(deck@[i])),
{
    zero_mask_affines(deck)
}

/// Why bytes of the interface were refused.
#[derive(Debug, PartialEq, Eq, Clone, Copy)]
pub enum PlayError {
    /// The buffer of hellos is shorter than its count.
    TooShort,
    /// The buffer of hellos breaks off inside an entry.
    BadFormat,
    /// A hello, card or message does not decode.
    InvalidData,
    /// The card is not yet revealed by every player.
    NotRevealed,
    /// The card protocol refused.
    Protocol(CardProtocolError),
}

impl PlayError {
    /// The human readable description of the error; a refusal of the card
    /// protocol is described as the protocol describes it.
    pub fn message(&self) -> (s: String)
        ensures
            *self == PlayError::TooShort ==> s@ == "too short"@,
            *self == PlayError::BadFormat ==> s@ == "bad format"@,
            *self == PlayError::InvalidData ==> s@ == "invalid data"@,
            *self == PlayError::NotRevealed ==> s@ == "Card not yet fully revealed"@,
            *self matches PlayError::Protocol(e) ==> s@ == crate::error::protocol_message(e),
    {
        match self {
            PlayError::TooShort => String::from_str("too short"),
            PlayError::BadFormat => String::from_str("bad format"),
            PlayError::InvalidData => String::from_str("invalid data"),
            PlayError::NotRevealed => String::from_str("Card not yet fully revealed"),
            PlayError::Protocol(e) => e.message(),
        }
    }
}

/// Verify an encoded hello for the player's public info and return its
/// public key, encoded.
pub fn verify_player(params: &Parameters, pk: &[u8], player_public_info: &[u8]) -> (r: Result<
    Vec<u8>,
    PlayError,
>)
    ensures
        match spec_hello_from_bytes(pk@) {
            None => r == Err::<Vec<u8>, PlayError>(PlayError::InvalidData),
            Some(h) => if key_ownership_holds(params.enc_generator, h.0, player_public_info@, h.1) {
                r matches Ok(v) && v@ == spec_point_bytes(h.0)
            } else {
                r == Err::<Vec<u8>, PlayError>(
                    PlayError::Protocol(
                        CardProtocolError::ProofError(
                            CryptoError::ProofVerificationError(crate::proofs::SCHNORR),
                        ),
                    ),
                )
            },
        },
{
    let hello = match PlayerHello::from_bytes(pk) {
        Ok(h) => h,
        Err(_) => {
            return Err(PlayError::InvalidData);
        },
    };
    match params.verify_player(&hello, player_public_info) {
        Ok(key) => Ok(point_to_bytes(key)),
        Err(e) => Err(PlayError::Protocol(CardProtocolError::ProofError(e))),
    }
}

/// The player's reveal message for an encoded masked card, encoded.
pub fn prove_reveal(params: &Parameters, key: &PlayerKeypair, masked_card_bytes: &[u8]) -> (r: Result<
    Vec<u8>,
    PlayError,
>)
    ensures
        match spec_cipher_from_bytes(masked_card_bytes@) {
            None => r == Err::<Vec<u8>, PlayError>(PlayError::InvalidData),
            Some(mc) => r matches Ok(v) && spec_reveal_message_from_bytes(v@) matches Some(m) && {
                &&& m.pk == key.pk
                &&& m.masked_card == mc
                &&& m.tp.token == spec_reveal_token(key.sk, mc)
            },
        },
{
    let masked_card = match Ciphertext::from_bytes(masked_card_bytes) {
        Some(c) => c,
        None => {
            return Err(PlayError::InvalidData);
        },
    };
    let reveal_msg = params.prove_single_reveal_token(key, &masked_card);
    Ok(reveal_msg.to_bytes())
}

impl<'p> AggregatedPublicKeys<'p> {
    /// Start accumulating the reveals of an encoded masked card.
    pub fn wasm_accumulate_reveals(&self, masked_card_bytes: &[u8]) -> (r: Result<
        AccumulateReveals<'p>,
        PlayError,
    >)
        ensures
            match spec_cipher_from_bytes(masked_card_bytes@) {
                None => r matches Err(e) && e == PlayError::InvalidData,
                Some(mc) => r matches Ok(acc) && {
                    &&& acc.spec_parameters() == self.spec_parameters()
                    &&& acc.spec_remaining_key() == self.spec_key()
                    &&& acc.spec_masked_card() == mc
                    &&& acc.spec_token().0 == Point::spec_zero()
                },
            },
    {
        match Ciphertext::from_bytes(masked_card_bytes) {
            Some(mc) => Ok(self.accumulate_reveals(mc)),
            None => Err(PlayError::InvalidData),
        }
    }
}

/// The position of a card in the deck, `usize::MAX` for the identity.
pub fn card_position_or_max(deck: &[UnmaskedCard], card: &UnmaskedCard) -> (r: Result<usize, PlayError>)
    ensures
        card.0 == Point::spec_zero() ==> r == Ok::<usize, PlayError>(usize::MAX),
        card.0 != Point::spec_zero() && !deck@.contains(*card) ==> r == Err::<usize, PlayError>(
            PlayError::Protocol(CardProtocolError::UnrecognizedCard),
        ),
        card.0 != Point::spec_zero() && deck@.contains(*card) ==> (r matches Ok(i)
            && is_card_position(deck@, *card, i as int)),
{
    if card.is_zero() {
        return Ok(usize::MAX);
    }
    match crate::reveals::card_position(deck, card) {
        Ok(i) => Ok(i),
        Err(e) => Err(PlayError::Protocol(e)),
    }
}

impl<'p> AccumulateReveals<'p> {
    /// Our reveal message for the card, encoded.
    pub fn prove_reveal_wasm(&self, sk: &PlayerKeypair) -> (v: Vec<u8>)
        ensures
            spec_reveal_message_from_bytes(v@) matches Some(m) && {
                &&& m.pk == sk.pk
                &&& m.masked_card == self.spec_masked_card()
                &&& m.tp.token == spec_reveal_token(sk.sk, self.spec_masked_card())
            },
    {
        self.prove_reveal(sk).to_bytes()
    }

    /// Decode a reveal message and accumulate it.
    pub fn add_reveal_wasm(&mut self, reveal_message: &[u8]) -> (r: Result<(), PlayError>)
        ensures
            match spec_reveal_message_from_bytes(reveal_message@) {
                None => r == Err::<(), PlayError>(PlayError::InvalidData) && *final(self) == *old(self),
                Some(m) => match message_error(
                    old(self).spec_parameters().enc_generator,
                    old(self).spec_masked_card(),
                    m,
                ) {
                    Some(e) => r == Err::<(), PlayError>(PlayError::Protocol(e)) && *final(self)
                        == *old(self),
                    None => r == Ok::<(), PlayError>(()) && final(self).spec_token().0 == spec_add(
                        old(self).spec_token().0,
                        m.tp.token.0,
                    ) && final(self).spec_remaining_key() == crate::group::spec_sub(
                        old(self).spec_remaining_key(),
                        m.pk,
                    ) && final(self).spec_masked_card() == old(self).spec_masked_card(),
                },
            },
    {
        let m = match RevealMessage::from_bytes(reveal_message) {
            Some(m) => m,
            None => {
                return Err(PlayError::InvalidData);
            },
        };
        match self.add_reveal(&m) {
            Ok(()) => Ok(()),
            Err(e) => Err(PlayError::Protocol(e)),
        }
    }

    /// Unmask the card, once all reveals are accumulated, and return its
    /// position in the deck.
    pub fn completed_position(&self, deck: &[UnmaskedCard]) -> (r: Result<
        usize,
        PlayError,
    >)
        ensures
            self.spec_remaining_key() != Point::spec_zero() ==> r == Err::<usize, PlayError>(
                PlayError::NotRevealed,
            ),
            self.spec_remaining_key() == Point::spec_zero() ==> ({
                let card = spec_reveal(self.spec_token(), self.spec_masked_card());
                &&& card.0 == Point::spec_zero() ==> r == Ok::<usize, PlayError>(usize::MAX)
                &&& card.0 != Point::spec_zero() && !deck@.contains(card) ==> r == Err::<
                    usize,
                    PlayError,
                >(PlayError::Protocol(CardProtocolError::UnrecognizedCard))
                &&& card.0 != Point::spec_zero() && deck@.contains(card) ==> (r matches Ok(i)
                    && is_card_position(deck@, card, i as int))
            }),
    {
        match self.completed() {
            Some(card) => card_position_or_max(deck, &card),
            None => Err(PlayError::NotRevealed),
        }
    }
}

/// A hello and the player's name.
pub type Frame = (Seq<u8>, Seq<u8>);

/// The `count` entries of the buffer from `cursor` on, each a
/// little-endian `u32` length and that many hello bytes, then a
/// little-endian `u32` length and that many name bytes; `None` where the
/// buffer breaks off inside an entry.
pub open spec fn parse_entries(b: Seq<u8>, cursor: int, count: nat) -> Option<Seq<Frame>>
    decreases count,
{
    if count == 0 {
        Some(Seq::empty())
    } else if b.len() < cursor + 4 {
        None
    } else {
        let c1 = cursor + 4;
        let hl = le_u32(b, cursor);
        if b.len() < c1 + hl {
            None
        } else {
            let c2 = c1 + hl;
            if b.len() < c2 + 4 {
                None
            } else {
                let c3 = c2 + 4;
                let nl = le_u32(b, c2);
                if b.len() < c3 + nl {
                    None
                } else {
                    match parse_entries(b, c3 + nl, (count - 1) as nat) {
                        Some(rest) => Some(
                            seq![(b.subrange(c1, c2), b.subrange(c3, c3 + nl))] + rest,
                        ),
                        None => None,
                    }
                }
            }
        }
    }
}

/// The frames of a buffer: a little-endian `u32` count, then the
/// entries; bytes after the last entry are ignored.
pub open spec fn parse_frames(b: Seq<u8>) -> Result<Seq<Frame>, PlayError> {
    if b.len() < 4 {
        Err(PlayError::TooShort)
    } else {
        match parse_entries(b, 4, le_u32(b, 0) as nat) {
            Some(frames) => Ok(frames),
            None => Err(PlayError::BadFormat),
        }
    }
}

/// The frames held as pairs of byte slices, viewed as byte sequences.
pub open spec fn frames_view(v: Seq<(&[u8], &[u8])>) -> Seq<Frame> {
    v.map_values(|p: (&[u8], &[u8])| (p.0@, p.1@))
}

fn read_le_u32(b: &[u8], i: usize) -> (v: usize)
    requires
        i + 4 <= b@.len(),
    ensures
        v == le_u32(b@, i as int),
{
    (b[i] as usize) + 256 * (b[i + 1] as usize) + 65536 * (b[i + 2] as usize) + 16777216 * (b[i
        + 3] as usize)
}

proof fn lemma_parse_entries_step(b: Seq<u8>, cursor: int, count: nat, c4: int, f: Frame)
    requires
        count > 0,
        b.len() >= cursor + 4,
        b.len() >= cursor + 4 + le_u32(b, cursor),
        b.len() >= cursor + 8 + le_u32(b, cursor),
        b.len() >= cursor + 8 + le_u32(b, cursor) + le_u32(b, cursor + 4 + le_u32(b, cursor)),
        c4 == cursor + 8 + le_u32(b, cursor) + le_u32(b, cursor + 4 + le_u32(b, cursor)),
        f == (
            b.subrange(cursor + 4, cursor + 4 + le_u32(b, cursor)),
            b.subrange(cursor + 8 + le_u32(b, cursor), c4),
        ),
    ensures
        parse_entries(b, cursor, count) == match parse_entries(b, c4, (count - 1) as nat) {
            Some(rest) => Some(seq![f] + rest),
            None => None::<Seq<Frame>>,
        },
{
}

/// Split a flat buffer of hellos and names into its frames.
pub fn parse_hello_frames(buf: &[u8]) -> (r: Result<Vec<(&[u8], &[u8])>, PlayError>)
    ensures
        match parse_frames(buf@) {
            Ok(frames) => r matches Ok(v) && frames_view(v@) == frames,
            Err(e) => r == Err::<Vec<(&[u8], &[u8])>, PlayError>(e),
        },
{
    if buf.len() < 4 {
        return Err(PlayError::TooShort);
    }
    let num = read_le_u32(buf, 0);
    let mut cursor: usize = 4;
    let mut players: Vec<(&[u8], &[u8])> = Vec::new();
    let mut k: usize = 0;
    while k < num
        invariant
            4 <= buf@.len(),
            num == le_u32(buf@, 0),
            k <= num,
            cursor <= buf@.len(),
            parse_entries(buf@, 4, num as nat) == match parse_entries(
                buf@,
                cursor as int,
                (num - k) as nat,
            ) {
                Some(rest) => Some(frames_view(players@) + rest),
                None => None::<Seq<Frame>>,
            },
        decreases num - k,
    {
        let ghost old_players = players@;
        let ghost old_cursor = cursor as int;
        if buf.len() - cursor < 4 {
            return Err(PlayError::BadFormat);
        }
        let hello_len = read_le_u32(buf, cursor);
        cursor = cursor + 4;
        if buf.len() - cursor < hello_len {
            return Err(PlayError::BadFormat);
        }
        let hello = slice_range(buf, cursor, cursor + hello_len);
        cursor = cursor + hello_len;
        if buf.len() - cursor < 4 {
            return Err(PlayError::BadFormat);
        }
        let name_len = read_le_u32(buf, cursor);
        cursor = cursor + 4;
        if buf.len() - cursor < name_len {
            return Err(PlayError::BadFormat);
        }
        let name = slice_range(buf, cursor, cursor + name_len);
        cursor = cursor + name_len;
        players.push((hello, name));
        proof {
            lemma_parse_entries_step(
                buf@,
                old_cursor,
                (num - k) as nat,
                cursor as int,
                (hello@, name@),
            );
            assert(frames_view(players@) =~= frames_view(old_players) + seq![(hello@, name@)]);
            match parse_entries(buf@, cursor as int, (num - k - 1) as nat) {
                Some(rest) => {
                    assert(frames_view(players@) + rest =~= frames_view(old_players) + (seq![
                        (hello@, name@),
                    ] + rest));
                },
                None => {},
            }
        }
        k = k + 1;
    }
    proof {
        assert(frames_view(players@) + Seq::<Frame>::empty() =~= frames_view(players@));
    }
    Ok(players)
}

/// The error a frame raises when joining the aggregation: a hello that
/// does not decode counts as an absent player.
pub open spec fn frame_error(g: Point, f: Frame) -> Option<CardProtocolError> {
    match spec_hello_from_bytes(f.0) {
        None => Some(CardProtocolError::PlayerNotPresent),
        Some(h) => if key_ownership_holds(g, h.0, f.1, h.1) {
            None
        } else {
            Some(
                CardProtocolError::ProofError(
                    CryptoError::ProofVerificationError(crate::proofs::SCHNORR),
                ),
            )
        },
    }
}

/// The error of the first frame that raises one.
pub open spec fn first_frame_error(g: Point, fs: Seq<Frame>) -> Option<CardProtocolError>
    decreases fs.len(),
{
    if fs.len() == 0 {
        None
    } else {
        match first_frame_error(g, fs.drop_last()) {
            Some(e) => Some(e),
            None => frame_error(g, fs.last()),
        }
    }
}

/// The public keys of the hellos of the frames.
pub open spec fn frame_keys(fs: Seq<Frame>) -> Seq<Point> {
    fs.map_values(|f: Frame| (spec_hello_from_bytes(f.0)->0).0)
}

/// An error in a prefix is the first error of the whole sequence.
pub proof fn lemma_first_frame_error_prefix(g: Point, fs: Seq<Frame>, n: int)
    requires
        0 <= n <= fs.len(),
        first_frame_error(g, fs.take(n)) is Some,
    ensures
        first_frame_error(g, fs) == first_frame_error(g, fs.take(n)),
    decreases fs.len() - n,
{
    if n < fs.len() {
        assert(fs.take(n + 1).drop_last() =~= fs.take(n));
        lemma_first_frame_error_prefix(g, fs, n + 1);
    } else {
        assert(fs.take(n) =~= fs);
    }
}

/// Build the aggregation of public keys from (hello, name) pairs:
/// each hello must decode and prove ownership of its key for the
/// player's name; the first failure is returned.
pub fn build_aggregate_keys<'p>(params: &'p Parameters, players: &[(&[u8], &[u8])]) -> (r: Result<
    AggregatedPublicKeys<'p>,
    CardProtocolError,
>)
    ensures
        match first_frame_error(params.enc_generator, frames_view(players@)) {
            Some(e) => r matches Err(e2) && e2 == e,
            None => r matches Ok(apk) && {
                &&& apk.spec_parameters() == *params
                &&& apk.spec_players() == frame_keys(frames_view(players@))
                &&& apk.spec_key() == key_sum(frame_keys(frames_view(players@)))
            },
        },
{
    let ghost fs = frames_view(players@);
    let mut apk = params.create_aggregate_keys();
    let mut i: usize = 0;
    proof {
        assert(frame_keys(fs.take(0)) =~= Seq::<Point>::empty());
    }
    while i < players.len()
        invariant
            fs == frames_view(players@),
            i <= players@.len(),
            first_frame_error(params.enc_generator, fs.take(i as int)) is None,
            apk.spec_parameters() == *params,
            apk.spec_players() == frame_keys(fs.take(i as int)),
            apk.spec_key() == key_sum(frame_keys(fs.take(i as int))),
        decreases players@.len() - i,
    {
        let (hello_bytes, name_bytes) = players[i];
        proof {
            assert(fs.take(i + 1).drop_last() =~= fs.take(i as int));
            assert(fs.take(i + 1).last() == (hello_bytes@, name_bytes@));
        }
        let hello = match PlayerHello::from_bytes(hello_bytes) {
            Ok(h) => h,
            Err(_) => {
                proof {
                    lemma_first_frame_error_prefix(params.enc_generator, fs, i + 1);
                }
                return Err(CardProtocolError::PlayerNotPresent);
            },
        };
        let ghost pk = hello.pk;
        match apk.verify_n_add(hello, name_bytes) {
            Ok(()) => {},
            Err(e) => {
                proof {
                    lemma_first_frame_error_prefix(params.enc_generator, fs, i + 1);
                }
                return Err(e);
            },
        }
        proof {
            let ks = frame_keys(fs.take(i + 1));
            assert(ks =~= frame_keys(fs.take(i as int)).push(pk));
            assert(ks.drop_last() =~= frame_keys(fs.take(i as int)));
        }
        i = i + 1;
    }
    proof {
        assert(fs.take(i as int) =~= fs);
    }
    Ok(apk)
}

impl<'p> AggregatedPublicKeys<'p> {
    /// Build the aggregation of public keys from a flat buffer: a
    /// little-endian `u32` count, then for each player a little-endian `u32`
    /// length and the encoded hello, then a little-endian `u32` length and
    /// the player's name.
    pub fn wasm_build_from_hellos(params: &'p Parameters, hellos_and_names: &[u8]) -> (r: Result<
        AggregatedPublicKeys<'p>,
        PlayError,
    >)
        ensures
            match parse_frames(hellos_and_names@) {
                Err(e) => r matches Err(e2) && e2 == e,
                Ok(fs) => match first_frame_error(params.enc_generator, fs) {
                    Some(e) => r matches Err(e2) && e2 == PlayError::Protocol(e),
                    None => r matches Ok(apk) && {
                        &&& apk.spec_parameters() == *params
                        &&& apk.spec_players() == frame_keys(fs)
                        &&& apk.spec_key() == key_sum(frame_keys(fs))
                    },
                },
            },
    {
        let players = match parse_hello_frames(hellos_and_names) {
            Ok(p) => p,
            Err(e) => {
                return Err(e);
            },
        };
        match build_aggregate_keys(params, players.as_slice()) {
            Ok(apk) => Ok(apk),
            Err(e) => Err(PlayError::Protocol(e)),
        }
    }
}

/// What a quitting player leaves behind once its reveal tokens for the
/// masked cards were verified: each masked card, paired in order with a
/// token, has that token's share of the mask removed, and the player
/// leaves the aggregation.  Where `pk` is no player nothing changes.
pub fn apply_quit(
    apk: &mut AggregatedPublicKeys,
    pk: &Point,
    tokens: &[RevealToken],
    masked_cards: &mut Vec<MaskedCard>,
) -> (r: Result<(), CardProtocolError>)
    ensures
        r is Err <==> !old(apk).spec_players().contains(*pk),
        r is Err ==> r == Err::<(), CardProtocolError>(CardProtocolError::PlayerNotPresent),
        r is Err ==> *final(apk) == *old(apk) && final(masked_cards)@ == old(masked_cards)@,
        r is Ok ==> exists|i: int|
            is_first_position(old(apk).spec_players(), *pk, i) && final(apk).spec_players()
                == old(apk).spec_players().remove(i),
        r is Ok ==> final(apk).spec_key() == spec_sub(old(apk).spec_key(), *pk),
        r is Ok ==> final(apk).spec_parameters() == old(apk).spec_parameters(),
        r is Ok ==> final(masked_cards)@.len() == old(masked_cards)@.len(),
        r is Ok ==> forall|j: int|
            0 <= j < old(masked_cards)@.len() ==> #[trigger] final(masked_cards)@[j] == if j
                < tokens@.len() {
                spec_partial_unmask(old(masked_cards)@[j], tokens@[j])
            } else {
                old(masked_cards)@[j]
            },
{
    let idx = match apk.player_index(pk) {
        Ok(i) => i,
        Err(e) => {
            return Err(e);
        },
    };
    let mut j: usize = 0;
    while j < masked_cards.len() && j < tokens.len()
        invariant
            masked_cards@.len() == old(masked_cards)@.len(),
            j <= masked_cards@.len(),
            j <= tokens@.len(),
            forall|t: int|
                0 <= t < masked_cards@.len() ==> #[trigger] masked_cards@[t] == if t < j {
                    spec_partial_unmask(old(masked_cards)@[t], tokens@[t])
                } else {
                    old(masked_cards)@[t]
                },
        decreases masked_cards@.len() - j,
    {
        let mut mc = masked_cards[j];
        update_masked_card(&mut mc, &tokens[j]);
        masked_cards.set(j, mc);
        j = j + 1;
    }
    let _ = apk.remove(idx);
    Ok(())
}

} // verus!
