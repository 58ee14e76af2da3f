use mental_poker::cards::{ClassicPlayingCard, GameErrors, Suite, Value};
use mental_poker::chaum_pedersen::{DLEquality, Parameters as DleqParameters, Prover, Statement};
use mental_poker::deck::{cast_deck, write_point, Deck, SortedDeck};
use mental_poker::error::{CardProtocolError, CryptoError};
use mental_poker::group::{Point, Scalar};
use mental_poker::keys::{AggregatedPublicKeys, PlayerHello, PlayerKeypair, SerializationError};
use mental_poker::masking::{zero_mask, zero_mask_cards, Ciphertext, Plaintext};
use mental_poker::play::{
    apply_quit, card_position_or_max, parse_hello_frames, player_deserialize, player_public, verify_player,
    zero_mask_deck, PlayError,
};
use mental_poker::reveals::{card_position, reveal_unchecked, update_masked_card, AccumulateReveals, RevealMessage};
use mental_poker::setup::{mid_factor, Parameters};
use mental_poker::shuffle::{pad_masked_cards, AccumulateShuffles, Permutation};
use mental_poker::sorting::compare_keys;

fn players<'p>(parameters: &'p Parameters, n: usize) -> (Vec<PlayerKeypair>, AggregatedPublicKeys<'p>) {
    let mut keys = Vec::new();
    let mut apk = parameters.create_aggregate_keys();
    for i in 0..n {
        let name = [i as u8];
        let (hello, key) = parameters.generate_player(&name);
        apk.verify_n_add(hello, &name).unwrap();
        keys.push(key);
    }
    (keys, apk)
}

fn frame(buf: &mut Vec<u8>, hello: &[u8], name: &[u8]) {
    buf.extend_from_slice(&(hello.len() as u32).to_le_bytes());
    buf.extend_from_slice(hello);
    buf.extend_from_slice(&(name.len() as u32).to_le_bytes());
    buf.extend_from_slice(name);
}

#[test]
fn card_numbers_are_blocks_of_suites() {
    assert_eq!(
        ClassicPlayingCard::from_52(0),
        ClassicPlayingCard { value: Value::Two, suite: Suite::Club }
    );
    assert_eq!(
        ClassicPlayingCard::from_52(51),
        ClassicPlayingCard { value: Value::Ace, suite: Suite::Spade }
    );
    assert_eq!(ClassicPlayingCard { value: Value::Ace, suite: Suite::Heart }.to_52(), 38);
    assert_eq!(ClassicPlayingCard { value: Value::Two, suite: Suite::Diamond }.to_52(), 13);
    let mut seen = [false; 52];
    for x in 0..52 {
        let c = ClassicPlayingCard::from_52(x);
        assert!(!seen[c.to_52()]);
        seen[c.to_52()] = true;
    }
}

#[test]
fn card_symbols() {
    assert_eq!(ClassicPlayingCard { value: Value::Ace, suite: Suite::Spade }.symbol(), "A♠");
    assert_eq!(ClassicPlayingCard { value: Value::Ten, suite: Suite::Heart }.symbol(), "10♥");
    assert_eq!(GameErrors::CardNotFound.message(), "No such card in hand");
    assert_eq!(GameErrors::InvalidCard.message(), "Invalid card");
    assert!(Suite::Club < Suite::Spade);
    assert!(Value::King < Value::Ace);
}

#[test]
fn mid_factor_values() {
    assert_eq!(mid_factor(52), (4, 13, 0));
    assert_eq!(mid_factor(47), (6, 8, 1));
    assert_eq!(mid_factor(7), (2, 4, 1));
    assert_eq!(mid_factor(100), (10, 10, 0));
    assert_eq!(mid_factor(0), (2, 2, 4));
    assert_eq!(mid_factor(1), (2, 2, 3));
}

#[test]
fn deck_size_checks() {
    let parameters = Parameters::setup(13);
    assert_eq!(parameters.parameters_size(), 13);
    assert!(parameters.check_deck_size(52));
    assert!(!parameters.check_deck_size(53 * 53));
    assert!(parameters.check_deck_size(17));
    assert!(!parameters.check_deck_size(194));
}

#[test]
fn group_operations() {
    let p = Point::random();
    let q = Point::random();
    assert_eq!(p.add(&q).sub(&q), p);
    assert_ne!(p.add(&q), p);
    let two = Scalar::from_u64(2);
    assert_eq!(p.mul(&two), p.add(&p));
    assert!(Point::zero().is_zero());
    assert!(!p.is_zero());
    let bytes = p.to_bytes();
    assert_eq!(bytes.len(), 33);
    assert_eq!(Point::from_bytes(&bytes), Some(p));
    assert_eq!(Point::from_bytes(&bytes[..32]), None);
    let s = Scalar::random();
    let sb = s.to_bytes();
    assert_eq!(sb.len(), 32);
    assert_eq!(Scalar::from_bytes(&sb), Some(s));
    assert_eq!(Scalar::from_bytes(&[0xffu8; 32]), None);
}

#[test]
fn chaum_pedersen_completeness_and_soundness() {
    let g = Point::random();
    let h = Point::random();
    let w = Scalar::random();
    let parameters = DleqParameters::new(&g, &h);
    let statement = Statement::new(&g.mul(&w), &h.mul(&w));
    let proof = DLEquality::prove(&parameters, &statement, &w, b"seed").unwrap();
    assert_eq!(DLEquality::verify(&parameters, &statement, &proof, b"seed"), Ok(()));
    assert_eq!(
        DLEquality::verify(&parameters, &statement, &proof, b"other seed"),
        Err(CryptoError::ProofVerificationError("Chaum-Pedersen"))
    );
    let other = Prover::create_proof(&parameters, &statement, &Scalar::random(), b"seed");
    assert_eq!(
        other.verify(&parameters, &statement, b"seed"),
        Err(CryptoError::ProofVerificationError("Chaum-Pedersen"))
    );
}

#[test]
fn hello_round_trip_and_errors() {
    let parameters = Parameters::setup(13);
    let (hello, key) = parameters.generate_player(b"Alice");
    let bytes = hello.to_bytes();
    assert_eq!(PlayerHello::from_bytes(&bytes).map(|h| h.to_bytes()), Ok(bytes.clone()));
    assert_eq!(PlayerHello::from_bytes(&bytes[..10]).err(), Some(SerializationError::InvalidData));
    assert_eq!(player_public(&bytes), key.pk.to_bytes());
    assert_eq!(player_public(&bytes[..10]), Vec::<u8>::new());
    assert_eq!(verify_player(&parameters, &bytes, b"Alice"), Ok(key.pk.to_bytes()));
    assert_eq!(
        verify_player(&parameters, &bytes, b"Bob"),
        Err(PlayError::Protocol(CardProtocolError::ProofError(
            CryptoError::ProofVerificationError("Schnorr Identification")
        )))
    );
    assert_eq!(verify_player(&parameters, &bytes[..5], b"Alice"), Err(PlayError::InvalidData));
    let secret = key.to_bytes();
    assert_eq!(player_deserialize(&parameters, &secret).map(|k| (k.pk, k.sk)), Ok((key.pk, key.sk)));
    assert_eq!(
        player_deserialize(&parameters, &secret[..31]).err(),
        Some(SerializationError::InvalidData)
    );
}

#[test]
fn aggregate_key_is_sum_of_players() {
    let parameters = Parameters::setup(13);
    let (keys, mut apk) = players(&parameters, 4);
    let mut sum = Point::zero();
    for k in &keys {
        sum = sum.add(&k.pk);
    }
    assert_eq!(apk.aggregate_key(), &sum);
    assert_eq!(apk.player_index(&keys[2].pk), Ok(2));
    assert_eq!(apk.player_index(&Point::random()), Err(CardProtocolError::PlayerNotPresent));
    assert_eq!(apk.others_indices(&keys[1].pk), Ok(vec![0, 2, 3]));
    assert_eq!(apk.others_indices(&Point::random()), Err(CardProtocolError::PlayerNotPresent));

    let bytes = apk.to_bytes();
    let decoded = AggregatedPublicKeys::deserialize_compressed(&bytes, &parameters).unwrap();
    assert_eq!(decoded.players(), apk.players());
    assert_eq!(decoded.aggregate_key(), apk.aggregate_key());
    assert!(AggregatedPublicKeys::deserialize_compressed(&bytes[..3], &parameters).is_err());

    let removed = apk.remove(1);
    assert_eq!(removed, keys[1].pk);
    assert_eq!(apk.aggregate_key(), &sum.sub(&keys[1].pk));
    assert_eq!(apk.players().len(), 3);

    let (_, other) = players(&parameters, 2);
    let mapping = decoded.player_mapping(&apk);
    assert_eq!(mapping, vec![Some(0), Some(2), Some(3)]);
    assert_eq!(decoded.player_mapping(&other), vec![None, None]);
}

#[test]
fn sort_and_intersect_keys() {
    let parameters = Parameters::setup(13);
    let (keys, apk) = players(&parameters, 6);
    let mut sorted = apk.clone();
    sorted.sort();
    assert_eq!(sorted.aggregate_key(), apk.aggregate_key());
    assert_eq!(sorted.players().len(), 6);
    for k in &keys {
        assert!(sorted.players().contains(&k.pk));
    }
    let mut again = sorted.clone();
    again.sort();
    assert_eq!(again.players(), sorted.players());

    let mut smaller = apk.clone();
    smaller.remove(4);
    smaller.remove(1);
    let common = apk.intersect(&smaller);
    assert_eq!(common, vec![keys[0].pk, keys[2].pk, keys[3].pk, keys[5].pk]);
    let (_, strangers) = players(&parameters, 3);
    assert_eq!(apk.intersect(&strangers), Vec::<Point>::new());
}

#[test]
fn card_positions() {
    let deck: Vec<Plaintext> = (0..5).map(|_| Plaintext::random()).collect();
    assert_eq!(card_position(&deck, &deck[3]), Ok(3));
    assert_eq!(card_position(&deck, &Plaintext::zero()), Err(CardProtocolError::ZeroCard));
    assert_eq!(
        card_position(&deck, &Plaintext::random()),
        Err(CardProtocolError::UnrecognizedCard)
    );
    assert_eq!(card_position_or_max(&deck, &Plaintext::zero()), Ok(usize::MAX));
    assert_eq!(
        card_position_or_max(&deck, &Plaintext::random()),
        Err(PlayError::Protocol(CardProtocolError::UnrecognizedCard))
    );
}

#[test]
fn reveals_accumulate_to_the_card() {
    let parameters = Parameters::setup(13);
    let (keys, apk) = players(&parameters, 3);
    let deck: Vec<Plaintext> = (0..5).map(|_| Plaintext::random()).collect();
    let masked = apk.mask_card(&deck[2], &Scalar::random());

    let mut acc = apk.accumulate_reveals(masked);
    assert!(!acc.is_completed());
    assert_eq!(acc.completed(), None);
    assert_eq!(acc.completed_position(&deck), Err(PlayError::NotRevealed));

    let other_masked = apk.mask_card(&deck[1], &Scalar::random());
    let wrong = parameters.prove_single_reveal_token(&keys[0], &other_masked);
    assert_eq!(acc.add_reveal(&wrong), Err(CardProtocolError::WrongCard));

    let mut forged = acc.prove_reveal(&keys[0]);
    forged.tp.token = Plaintext::random();
    assert_eq!(
        acc.add_reveal(&forged),
        Err(CardProtocolError::ProofError(CryptoError::ProofVerificationError("Chaum-Pedersen")))
    );

    for k in &keys[..2] {
        let m = acc.prove_reveal(k);
        let bytes = m.to_bytes();
        assert_eq!(RevealMessage::from_bytes(&bytes).map(|r| r.to_bytes()), Some(bytes));
        acc.add_reveal(&m).unwrap();
    }
    assert!(acc.is_completed_for(&keys[2].pk));
    let rest = acc.completed_for(&keys[2].pk).unwrap();
    let last = keys[2].compute_reveal_token(&rest);
    assert_eq!(reveal_unchecked(&last, &rest), deck[2]);

    let saved = acc.to_bytes();
    let mut restored = AccumulateReveals::deserialize_compressed(&saved, &parameters).unwrap();
    assert_eq!(restored.to_bytes(), saved);
    assert!(AccumulateReveals::deserialize_compressed(&saved[..100], &parameters).is_err());

    let m = restored.prove_reveal(&keys[2]);
    restored.add_reveal(&m).unwrap();
    assert!(restored.is_completed());
    assert_eq!(restored.completed(), Some(deck[2]));
    assert_eq!(restored.completed_position(&deck), Ok(2));
}

#[test]
fn partial_unmask_removes_one_share() {
    let parameters = Parameters::setup(13);
    let key = parameters.player_keygen();
    let card = Plaintext::random();
    let mut masked = card.mask_card(&parameters.enc_generator, &key.pk, &Scalar::random());
    let token = key.compute_reveal_token(&masked);
    update_masked_card(&mut masked, &token);
    assert_eq!(masked.1, card.0);
}

#[test]
fn zero_masks() {
    let card = Plaintext::random();
    assert_eq!(zero_mask(&card), Ciphertext(Point::zero(), card.0));
    let cards = vec![Plaintext::random(), Plaintext::random()];
    let masked = zero_mask_cards(&cards);
    assert_eq!(masked[1], Ciphertext(Point::zero(), cards[1].0));
    let points = vec![Point::random(), Point::random(), Point::random()];
    let deck = zero_mask_deck(&points);
    assert_eq!(deck.len(), 3);
    assert_eq!(deck[2], Ciphertext(Point::zero(), points[2]));
    let c = Ciphertext::random();
    assert!(!c.0.is_zero() && !c.1.is_zero());
    assert!(!Plaintext::random().is_zero());
    assert!(!mental_poker::deck::exrtact_card().is_zero());
    assert_eq!(Ciphertext::from_bytes(&c.to_bytes()), Some(c));
}

#[test]
fn deterministic_masks_repeat() {
    let parameters = Parameters::setup(13);
    let (_, apk) = players(&parameters, 2);
    let card = Plaintext::random();
    let a = apk.deterministically_masked_card(&card, b"round one");
    let b = apk.deterministically_masked_card(&card, b"round one");
    let c = apk.deterministically_masked_card(&card, b"round two");
    assert_eq!(a, b);
    assert_ne!(a, c);
    let mask = apk.deterministic_masking(b"round one").mask(&card);
    assert_eq!(a, apk.mask_card(&card, &mask));
    let all = apk.deterministically_masked(&[card, Plaintext::random()], b"round one");
    assert_eq!(all[0], a);
    let plain = parameters.deterministic_masking(b"round one").mask(&card);
    assert_ne!(plain, mask);
}

#[test]
fn permutations() {
    assert!(Permutation::from_mapping(vec![2, 0, 1]).is_some());
    assert!(Permutation::from_mapping(vec![0, 0, 1]).is_none());
    assert!(Permutation::from_mapping(vec![0, 3, 1]).is_none());
    let p = Permutation::from_mapping(vec![2, 0, 1]).unwrap();
    let cards: Vec<Ciphertext> = (0..3).map(|_| Ciphertext::random()).collect();
    let out = p.apply(&cards);
    assert_eq!(out, vec![cards[2], cards[0], cards[1]]);
    let r = Permutation::from_rng(20);
    assert_eq!(r.len(), 20);
    let mut seen = vec![false; 20];
    for &i in r.mapping() {
        assert!(!seen[i]);
        seen[i] = true;
    }
    let mut deck = cards.clone();
    pad_masked_cards(&mut deck, 2);
    assert_eq!(deck.len(), 5);
    assert_eq!(deck[4], Ciphertext(Point::zero(), Point::zero()));
    assert_eq!(deck[1], cards[1]);
}

#[test]
fn shuffles_clear_mask_bits() {
    let parameters = Parameters::setup(13);
    let (keys, apk) = players(&parameters, 3);
    let deck = zero_mask_deck(&[Point::random(), Point::random()]);
    let mut acc = apk.accumulate_shuffles(deck.clone());
    assert_eq!(acc.remaining_mask(), 0b111);
    assert!(!acc.is_completed());
    let shuffled = vec![deck[1], deck[0]];
    assert_eq!(acc.apply_verified_shuffle(&Point::random(), &shuffled), None);
    assert_eq!(acc.remaining_mask(), 0b111);
    assert_eq!(acc.apply_verified_shuffle(&keys[1].pk, &shuffled), Some(1));
    assert_eq!(acc.remaining_mask(), 0b101);
    assert!(acc.completed().is_none());
    acc.apply_verified_shuffle(&keys[0].pk, &deck);
    acc.apply_verified_shuffle(&keys[2].pk, &shuffled);
    assert_eq!(acc.remaining_mask(), 0);
    assert!(acc.is_completed());
    let (done_apk, done_deck) = acc.completed().unwrap();
    assert_eq!(done_apk.players().len(), 3);
    assert_eq!(done_deck, shuffled);
}

#[test]
fn sorted_decks_decode_their_cards() {
    let deck = SortedDeck::from_rng(16);
    let cards = deck.as_affine().to_vec();
    assert_eq!(cards.len(), 16);
    for (i, c) in cards.iter().enumerate() {
        assert_eq!(deck.encode(i), Some(c));
        assert_eq!(deck.decode(c), Some(i));
    }
    assert_eq!(deck.encode(16), None);
    assert_eq!(deck.decode(&Point::random()), None);
    for w in cards.windows(2) {
        assert!(w[0].to_bytes() < w[1].to_bytes());
    }
    let plain = deck.as_el_gamal();
    assert_eq!(plain[3], Plaintext(cards[3]));
    assert_eq!(cast_deck(&cards)[5], Plaintext(cards[5]));
}

#[test]
fn key_order() {
    assert_eq!(compare_keys(&[1, 2], &[1, 3]), -1);
    assert_eq!(compare_keys(&[2, 0], &[1, 9]), 1);
    assert_eq!(compare_keys(&[4, 4], &[4, 4]), 0);
    assert_eq!(compare_keys(&[0, 1, 9], &[0, 2, 0]), -1);
}

#[test]
fn hello_buffers() {
    let parameters = Parameters::setup(13);
    let (h1, k1) = parameters.generate_player(b"ann");
    let (h2, k2) = parameters.generate_player(b"bo");
    let mut buf = 2u32.to_le_bytes().to_vec();
    frame(&mut buf, &h1.to_bytes(), b"ann");
    frame(&mut buf, &h2.to_bytes(), b"bo");
    let frames = parse_hello_frames(&buf).unwrap();
    assert_eq!(frames.len(), 2);
    assert_eq!(frames[1].1, b"bo");
    let apk = AggregatedPublicKeys::wasm_build_from_hellos(&parameters, &buf).unwrap();
    assert_eq!(apk.players(), &[k1.pk, k2.pk]);
    assert_eq!(apk.aggregate_key(), &k1.pk.add(&k2.pk));

    assert_eq!(parse_hello_frames(&[1, 0]).err(), Some(PlayError::TooShort));
    assert_eq!(parse_hello_frames(&buf[..buf.len() - 1]).err(), Some(PlayError::BadFormat));

    let mut wrong_name = 1u32.to_le_bytes().to_vec();
    frame(&mut wrong_name, &h1.to_bytes(), b"bo");
    assert_eq!(
        AggregatedPublicKeys::wasm_build_from_hellos(&parameters, &wrong_name).err(),
        Some(PlayError::Protocol(CardProtocolError::ProofError(
            CryptoError::ProofVerificationError("Schnorr Identification")
        )))
    );
    let mut broken = 1u32.to_le_bytes().to_vec();
    frame(&mut broken, &[7u8; 5], b"ann");
    assert_eq!(
        AggregatedPublicKeys::wasm_build_from_hellos(&parameters, &broken).err(),
        Some(PlayError::Protocol(CardProtocolError::PlayerNotPresent))
    );
}

#[test]
fn shuffle_accumulation_round_trip() {
    let parameters = Parameters::setup(13);
    let (keys, apk) = players(&parameters, 3);
    let deck = zero_mask_deck(&[Point::random(), Point::random(), Point::random()]);
    let mut acc = apk.accumulate_shuffles(deck.clone());
    acc.apply_verified_shuffle(&keys[0].pk, &[deck[2], deck[0], deck[1]]);
    let bytes = acc.to_bytes();
    assert_eq!(bytes.len(), 8 + 33 * 3 + 4 + 33 + 8 + 66 * 3);
    let back = AccumulateShuffles::deserialize_compressed(&bytes, &parameters).unwrap();
    assert_eq!(back.remaining_mask(), 0b110);
    assert_eq!(back.remaining_key(), acc.remaining_key());
    assert_eq!(back.deck(), acc.deck());
    assert_eq!(back.apk().players(), acc.apk().players());
    assert_eq!(back.apk().aggregate_key(), acc.apk().aggregate_key());
    assert_eq!(back.to_bytes(), bytes);
    assert!(AccumulateShuffles::deserialize_compressed(&bytes[..bytes.len() - 1], &parameters).is_err());
    assert!(AccumulateShuffles::deserialize_compressed(&bytes[..7], &parameters).is_err());
}

#[test]
fn deck_code() {
    assert_eq!(write_point("Affine", &Point::zero()), "Affine::zero(),\n");
    // The generator of secp256k1: its `x` coordinate, little-endian, then
    // the flags byte of the compressed encoding.
    let gx = "79be667ef9dcbbac55a06295ce870b07029bfcdb2dce28d959f2815b16f81798";
    let mut bytes: Vec<u8> = (0..32)
        .map(|i| u8::from_str_radix(&gx[2 * i..2 * i + 2], 16).unwrap())
        .rev()
        .collect();
    bytes.push(0);
    let g = match Point::from_bytes(&bytes) {
        Some(g) => g,
        None => {
            bytes[32] = 0x80;
            Point::from_bytes(&bytes).unwrap()
        }
    };
    let line = write_point("Affine", &g);
    assert!(line.starts_with(
        "Affine::new_unchecked(MontFp!(\"55066263022277343669578718895168534326250603453777594175500187360389116729240\"), MontFp!(\""
    ));
    assert!(line.ends_with("\")),\n"));

    let deck = SortedDeck::from_vec(vec![Point::zero(), g]);
    let code = deck.to_code("DECK");
    assert_eq!(
        code,
        format!("pub static DECK: &'static [Affine; 2] = &[\nAffine::zero(),\n{}];\n", line)
    );
}

#[test]
fn unsorted_cards_are_sorted() {
    let cards: Vec<Point> = (0..9).map(|_| Point::random()).collect();
    let deck = SortedDeck::from_unsorted(cards.clone());
    let sorted = deck.as_affine();
    assert_eq!(sorted.len(), 9);
    for c in &cards {
        assert!(sorted.contains(c));
        assert!(deck.decode(c).is_some());
    }
    for w in sorted.windows(2) {
        assert!(w[0].to_bytes() <= w[1].to_bytes());
    }
}

#[test]
fn reveals_over_bytes() {
    let parameters = Parameters::setup(13);
    let (keys, apk) = players(&parameters, 2);
    let deck: Vec<Plaintext> = (0..4).map(|_| Plaintext::random()).collect();
    let masked = apk.mask_card(&deck[1], &Scalar::random());
    let bytes = masked.to_bytes();
    assert_eq!(apk.wasm_accumulate_reveals(&bytes[..40]).err(), Some(PlayError::InvalidData));
    let mut acc = apk.wasm_accumulate_reveals(&bytes).unwrap();
    let first = mental_poker::play::prove_reveal(&parameters, &keys[0], &bytes).unwrap();
    assert_eq!(acc.add_reveal_wasm(&first[..10]), Err(PlayError::InvalidData));
    acc.add_reveal_wasm(&first).unwrap();
    let second = acc.prove_reveal_wasm(&keys[1]);
    acc.add_reveal_wasm(&second).unwrap();
    assert!(acc.is_completed());
    assert_eq!(acc.completed_position(&deck), Ok(1));
    assert_eq!(
        mental_poker::play::prove_reveal(&parameters, &keys[0], &bytes[..3]),
        Err(PlayError::InvalidData)
    );
}

#[test]
fn error_messages() {
    assert_eq!(CardProtocolError::PlayerNotPresent.message(), "Player not present!");
    assert_eq!(CardProtocolError::WrongGame("deck size").message(), "Wrong game: deck size");
    assert_eq!(
        CardProtocolError::ProofError(CryptoError::ProofVerificationError("Chaum-Pedersen")).message(),
        "Chaum-Pedersen"
    );
    assert_eq!(PlayError::Protocol(CardProtocolError::ZeroCard).message(), "Unexpected zero card");
    assert_eq!(PlayError::BadFormat.message(), "bad format");
}

#[test]
fn transcript_decks_repeat() {
    let a = SortedDeck::from_transcript(b"Peer3 secp256k1 card deck", b"200 cards", 20);
    let b = SortedDeck::from_transcript(b"Peer3 secp256k1 card deck", b"200 cards", 20);
    let c = SortedDeck::from_transcript(b"Peer3 secp256k1 card deck", b"other cards", 20);
    assert_eq!(a.as_affine(), b.as_affine());
    assert_ne!(a.as_affine(), c.as_affine());
    assert_eq!(a.as_affine().len(), 20);
    for p in a.as_affine() {
        assert!(!p.is_zero());
    }
}

#[test]
fn completed_shuffles_leave_nothing_behind() {
    let parameters = Parameters::setup(13);
    assert!(!parameters.enc_generator.is_zero());
    assert!(parameters.commit_key.iter().all(|p| !p.is_zero()));
    let (keys, apk) = players(&parameters, 1);
    let deck = zero_mask_deck(&[Point::random()]);
    let mut acc = apk.accumulate_shuffles(deck.clone());
    acc.apply_verified_shuffle(&keys[0].pk, &deck);
    assert!(acc.completed().is_some());
    assert!(acc.apk().players().is_empty());
    assert!(acc.deck().is_empty());

    let (_, apk) = players(&parameters, 2);
    let acc = apk.accumulate_reveals(Ciphertext::random());
    assert_eq!(acc.to_bytes().len(), 4 * 33);
}

#[test]
fn sorting_forgets_the_order_of_joining() {
    let parameters = Parameters::setup(13);
    let mut hellos = Vec::new();
    for i in 0..5u8 {
        hellos.push(parameters.generate_player(&[i]).0);
    }
    let mut forward = parameters.create_aggregate_keys();
    for (i, h) in hellos.iter().enumerate() {
        forward.verify_n_add(h.clone(), &[i as u8]).unwrap();
    }
    let mut backward = parameters.create_aggregate_keys();
    for (i, h) in hellos.iter().enumerate().rev() {
        backward.verify_n_add(h.clone(), &[i as u8]).unwrap();
    }
    assert_ne!(forward.players(), backward.players());
    forward.sort();
    backward.sort();
    assert_eq!(forward.players(), backward.players());
    assert_eq!(forward.aggregate_key(), backward.aggregate_key());
}

#[test]
fn deck_secp256k1() {
    let deck = SortedDeck::from_transcript(b"Peer3 secp256k1 card deck", b"200 cards", 200);
    let again = SortedDeck::from_transcript(b"Peer3 secp256k1 card deck", b"200 cards", 200);
    assert_eq!(deck.as_affine().len(), 200);
    assert_eq!(deck.as_affine(), again.as_affine());
    for i in 1..200 {
        assert_ne!(deck.as_affine()[i - 1], deck.as_affine()[i]);
    }
    let parameters = Parameters::setup(200);
    assert_eq!(parameters.parameters_size(), 200);
}

#[test]
fn shuffle_sequence_clears_each_shuffler() {
    let parameters = Parameters::setup(13);
    let (keys, apk) = players(&parameters, 5);
    let deck = zero_mask_deck(&[Point::random(), Point::random()]);
    let mut acc = apk.accumulate_shuffles(deck.clone());
    assert_eq!(acc.remaining_mask(), 0b11111);
    assert_eq!(acc.apply_verified_shuffle(&keys[3].pk, &deck), Some(3));
    assert_eq!(acc.apply_verified_shuffle(&keys[3].pk, &deck), Some(3));
    assert_eq!(acc.apply_verified_shuffle(&Point::random(), &deck), None);
    assert_eq!(acc.apply_verified_shuffle(&keys[0].pk, &deck), Some(0));
    assert_eq!(acc.remaining_mask(), 0b10110);
    assert!(!acc.is_completed());
}

#[test]
fn quitting_player_strips_its_tokens() {
    let parameters = Parameters::setup(13);
    let (keys, mut apk) = players(&parameters, 3);
    let cards = vec![Plaintext(Point::random()), Plaintext(Point::random())];
    let shared = *apk.aggregate_key();
    let mut masked: Vec<Ciphertext> =
        cards.iter().map(|c| c.mask_card(&parameters.enc_generator, &shared, &Scalar::random())).collect();
    let before = masked.clone();
    let tokens: Vec<Plaintext> = masked.iter().map(|mc| keys[1].compute_reveal_token(mc)).collect();
    assert_eq!(
        apply_quit(&mut apk, &Point::random(), &tokens, &mut masked),
        Err(CardProtocolError::PlayerNotPresent)
    );
    assert_eq!(masked, before);
    assert_eq!(apk.players().len(), 3);
    assert_eq!(apply_quit(&mut apk, &keys[1].pk, &tokens, &mut masked), Ok(()));
    assert_eq!(apk.players(), &[keys[0].pk, keys[2].pk]);
    assert_eq!(*apk.aggregate_key(), keys[0].pk.add(&keys[2].pk));
    for (i, mc) in masked.iter().enumerate() {
        assert_eq!(mc.0, before[i].0);
        assert_eq!(mc.1, before[i].1.sub(&tokens[i].0));
    }
    let rest: Vec<RevealMessage> = [0usize, 2]
        .iter()
        .map(|&k| parameters.prove_single_reveal_token(&keys[k], &masked[0]))
        .collect();
    assert_eq!(parameters.unmask(&rest, &masked[0]), Ok(cards[0]));
}

#[test]
fn sole_key_holder_strips_the_whole_mask() {
    let parameters = Parameters::setup(52);
    let key = parameters.player_keygen();
    let card = Plaintext(Point::random());
    let mc = card.mask_card(&parameters.enc_generator, &key.pk, &Scalar::random());
    let msg = parameters.prove_single_reveal_token(&key, &mc);
    let partial = parameters.verify_single_reveal(&msg).unwrap();
    assert_eq!(partial.1, card.0);
    assert_eq!(partial.0, mc.0);
}

#[test]
fn masking_batches_verify() {
    let parameters = Parameters::setup(13);
    let (_keys, apk) = players(&parameters, 3);
    let cards = vec![Plaintext(Point::random()), Plaintext(Point::random()), Plaintext(Point::random())];
    let rs = vec![Scalar::random(), Scalar::random()];
    let batch = apk.prove_masks(&cards, &rs);
    assert_eq!(batch.masked_cards.len(), 2);
    assert_eq!(batch.masking_proofs.len(), 2);
    assert_eq!(apk.verify_masks(&cards[..2], &batch), Ok(()));
    assert_eq!(
        apk.verify_masks(&[cards[1], cards[0]], &batch),
        Err(CryptoError::ProofVerificationError("Chaum-Pedersen"))
    );
}
