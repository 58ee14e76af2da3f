use mental_poker::error::{CardProtocolError, CryptoError};
use mental_poker::group::{Point, Scalar};
use mental_poker::keys::{AggregatedPublicKeys, PlayerHello, PlayerKeypair};
use mental_poker::masking::{Ciphertext, Plaintext};
use mental_poker::setup::{mid_factor, Parameters};

type PlayerInfo = [u8; 32];

fn player_info(i: usize) -> PlayerInfo {
    let mut info = [0u8; 32];
    let bytes = Scalar::random().to_bytes();
    info.copy_from_slice(&bytes);
    info[0] = i as u8;
    info
}

/// Setup `n` players, each with its own public information.
fn raw_setup_players(
    parameters: &Parameters,
    num_of_players: usize,
) -> (Vec<(PlayerHello, PlayerKeypair, PlayerInfo)>, Point) {
    let mut players = Vec::with_capacity(num_of_players);
    let mut expected_shared_key = Point::zero();
    for i in 0..num_of_players {
        let info = player_info(i);
        let (pk, sk) = parameters.generate_player(&info);
        expected_shared_key = expected_shared_key.add(pk.as_affine());
        players.push((pk, sk, info));
    }
    (players, expected_shared_key)
}

fn setup_players<'p>(
    parameters: &'p Parameters,
    num_of_players: usize,
) -> (Vec<PlayerKeypair>, AggregatedPublicKeys<'p>) {
    let size = parameters.parameters_size();
    let (_m, n, _) = mid_factor(size);
    assert!(num_of_players <= n, "num_of_players = {},  n = {}", num_of_players, n);
    let mut players = Vec::with_capacity(num_of_players);
    let mut apk = parameters.create_aggregate_keys();
    for _ in 0..num_of_players {
        let (pk, sk) = parameters.generate_player(b"");
        let _ = apk.verify_n_add(pk, b"");
        players.push(sk);
    }
    (players, apk)
}

#[test]
fn test_generate_and_verify_key() {
    let parameters = Parameters::setup(52);

    let key = parameters.player_keygen();
    let player_name: &[u8] = b"Alice";

    let p1_keyproof = parameters.prove_key_ownership(&key, player_name);

    parameters.verify_key_ownership(&key.pk, player_name, &p1_keyproof).unwrap();

    let other_key = PlayerKeypair { pk: key.pk.clone(), sk: Scalar::random() };
    let wrong_proof = parameters.prove_key_ownership(&other_key, player_name);

    assert_eq!(
        parameters.verify_key_ownership(&key.pk, player_name, &wrong_proof),
        Err(CryptoError::ProofVerificationError("Schnorr Identification".into()))
    )
}

#[test]
fn test_aggregate_keys() {
    let num_of_players = 10;

    let parameters = Parameters::setup(52);

    let (mut players, expected_shared_key) = raw_setup_players(&parameters, num_of_players);

    let mut aggregate = parameters.create_aggregate_keys();
    for (pk, _sk, name) in &players {
        assert!(aggregate.verify_n_add(pk.clone(), name).is_ok());
    }
    assert_eq!(aggregate.aggregate_key(), &expected_shared_key);

    let five = players[5].0.clone();
    players[5].0.pk = Point::zero();
    for (pk, _sk, name) in players {
        let r = aggregate.verify_n_add(pk.clone(), &name);
        if pk.equals(&five) {
            assert_eq!(
                r,
                Err(CardProtocolError::ProofError(CryptoError::ProofVerificationError(
                    "Schnorr Identification".into()
                )))
            )
        }
    }
}

#[test]
fn test_verify_masking() {
    let num_of_players = 10;

    let parameters = Parameters::setup(52);
    let (m, n, padding) = mid_factor(52);
    assert_eq!(m, 4);
    assert_eq!(n, 13);
    assert_eq!(padding, 0);

    let (_, aggregate_key) = raw_setup_players(&parameters, num_of_players);

    let some_card = Plaintext::random();
    let some_random = Scalar::random();

    let (masked, masking_proof) =
        parameters.prove_mask(&aggregate_key, &some_card, &some_random);

    assert_eq!(Ok(()), parameters.verify_mask(&aggregate_key, &some_card, &masked, &masking_proof));

    let wrong_masked = Ciphertext::random();

    assert_eq!(
        parameters.verify_mask(&aggregate_key, &some_card, &wrong_masked, &masking_proof),
        Err(CryptoError::ProofVerificationError("Chaum-Pedersen".into()))
    )
}

#[test]
fn test_verify_remasking() {
    let num_of_players = 10;

    let parameters = Parameters::setup(52);

    let (_, aggregate_key) = setup_players(&parameters, num_of_players);
    let aggregate_key = aggregate_key.aggregate_key();

    let some_masked_card = Ciphertext::random();
    let some_random = Scalar::random();

    let (remasked, remasking_proof) =
        parameters.prove_remask(&aggregate_key, &some_masked_card, &some_random);

    assert_eq!(
        Ok(()),
        parameters.verify_remask(&aggregate_key, &some_masked_card, &remasked, &remasking_proof)
    );

    let wrong_output = Ciphertext::random();

    assert_eq!(
        parameters.verify_remask(&aggregate_key, &some_masked_card, &wrong_output, &remasking_proof),
        Err(CryptoError::ProofVerificationError("Chaum-Pedersen".into()))
    )
}

#[test]
fn test_verify_reveal() {
    let parameters = Parameters::setup(52);

    let key = parameters.player_keygen();

    let some_unmasked_card = Plaintext::random();
    let r = Scalar::random();
    let some_masked_card = some_unmasked_card.mask_card(&parameters.enc_generator, &key.pk, &r);

    let mut reveal_message = parameters.prove_single_reveal_token(&key, &some_masked_card);

    let revealed = parameters.verify_single_reveal(&reveal_message).unwrap();
    assert_eq!(revealed.1, some_unmasked_card.0);

    reveal_message.tp.token = Plaintext::random();

    assert_eq!(
        parameters.verify_single_reveal(&reveal_message),
        Err(CryptoError::ProofVerificationError("Chaum-Pedersen".into()))
    )
}

#[test]
fn test_unmask() {
    let num_of_players = 10;

    let parameters = Parameters::setup(52);

    let (players, expected_shared_key) = raw_setup_players(&parameters, num_of_players);

    let card = Plaintext::random();
    let alpha = Scalar::random();
    let (masked, _) = parameters.prove_mask(&expected_shared_key, &card, &alpha);

    let decryption_key = players
        .iter()
        .map(|player| parameters.prove_single_reveal_token(&player.1, &masked))
        .collect::<Vec<_>>();

    let unmasked = parameters.unmask(&decryption_key, &masked).unwrap();

    assert_eq!(card, unmasked);

    let mut bad_decryption_key = decryption_key;
    bad_decryption_key[0].tp.token = Plaintext::random();

    let failed_decryption = parameters.unmask(&bad_decryption_key, &masked);

    assert_eq!(
        failed_decryption,
        Err(CardProtocolError::ProofError(CryptoError::ProofVerificationError(
            "Chaum-Pedersen".into()
        )))
    )
}
