//! A mental poker protocol over ElGamal ciphertexts on secp256k1:
//! a classic 52 card deck, shuffle sizing, player key aggregation,
//! card masking, remasking and the accumulation of reveals and shuffles.
pub mod cards;
pub mod group;
pub mod setup;
pub mod error;
pub mod masking;
pub mod transcript;
pub mod proofs;
pub mod chaum_pedersen;
pub mod keys;
pub mod reveals;
pub mod remasking;
pub mod play;
pub mod shuffle;
pub mod sorting;
pub mod deck;
