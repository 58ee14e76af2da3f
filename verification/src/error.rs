//! Errors of the proofs and of the card protocol.
use vstd::prelude::*;
use vstd::string::StringExecFns;

verus! {

/// This is an error that could occur when running a cryptographic
/// primitive: a proof that does not verify, labelled by its kind.
#[derive(Debug, PartialEq, Eq, Clone, Copy)]
pub enum CryptoError {
    ProofVerificationError(&'static str),
}

/// This is an error that could occur when running the card protocol.
#[derive(Debug, PartialEq, Eq, Clone, Copy)]
pub enum CardProtocolError {
    /// Asked an `AggregatedPublicKeys` for a non-existant player.
    PlayerNotPresent,
    /// Reveal applied to the wrong card.
    WrongCard,
    /// Returned by `card_position` and `reveal_position` for the
    /// identity point, which only stands for a card after an eviction.
    ZeroCard,
    /// Returned by `card_position` and `reveal_position`: the card is
    /// not in the deck.
    UnrecognizedCard,
    /// Duplicate cards are not supported.
    DuplicateCard,
    /// Duplicate players are not supported.
    DuplicatePlayer,
    /// Some broken game invariant, such as a deck of the wrong size.
    WrongGame(&'static str),
    /// A proof that does not hold.
    InvalidProof(&'static str),
    /// A proof failed to verify.
    ProofError(CryptoError),
}

pub type CardResult<T> = Result<T, CardProtocolError>;

impl CardProtocolError {
    /// Wraps a failed proof.
    pub fn from_crypto(e: CryptoError) -> (r: CardProtocolError)
        ensures
            r == CardProtocolError::ProofError(e),
    {
        CardProtocolError::ProofError(e)
    }
}

impl CryptoError {
    /// The human readable description of the error: the proof's label.
    pub fn message(&self) -> (s: &'static str)
        ensures
            s@ == crypto_message(*self),
            *self matches CryptoError::ProofVerificationError(l) ==> s@ == l@,
    {
        match self {
            CryptoError::ProofVerificationError(label) => label,
        }
    }
}

/// The human readable description of a cryptographic error.
pub open spec fn crypto_message(e: CryptoError) -> Seq<char> {
    match e {
        CryptoError::ProofVerificationError(label) => label@,
    }
}

/// The human readable description of a protocol error.
pub open spec fn protocol_message(e: CardProtocolError) -> Seq<char> {
    match e {
        CardProtocolError::PlayerNotPresent => "Player not present!"@,
        CardProtocolError::WrongCard => "Wrong card!"@,
        CardProtocolError::ZeroCard => "Unexpected zero card"@,
        CardProtocolError::UnrecognizedCard => "Non-existant card"@,
        CardProtocolError::DuplicateCard => "Duplicate cards not allowed"@,
        CardProtocolError::DuplicatePlayer => "Duplicate player not allowed"@,
        CardProtocolError::WrongGame(s) => "Wrong game: "@ + s@,
        CardProtocolError::InvalidProof(s) => s@,
        CardProtocolError::ProofError(c) => crypto_message(c),
    }
}

impl CardProtocolError {
    /// The human readable description of the error.
    pub fn message(&self) -> (s: String)
        ensures
            s@ == protocol_message(*self),
            *self == CardProtocolError::PlayerNotPresent ==> s@ == "Player not present!"@,
            *self == CardProtocolError::WrongCard ==> s@ == "Wrong card!"@,
            *self == CardProtocolError::ZeroCard ==> s@ == "Unexpected zero card"@,
            *self == CardProtocolError::UnrecognizedCard ==> s@ == "Non-existant card"@,
            *self == CardProtocolError::DuplicateCard ==> s@ == "Duplicate cards not allowed"@,
            *self == CardProtocolError::DuplicatePlayer ==> s@ == "Duplicate player not allowed"@,
            *self matches CardProtocolError::WrongGame(g) ==> s@ == "Wrong game: "@ + g@,
            *self matches CardProtocolError::InvalidProof(p) ==> s@ == p@,
            *self matches CardProtocolError::ProofError(CryptoError::ProofVerificationError(l))
                ==> s@ == l@,
    {
        match self {
            CardProtocolError::PlayerNotPresent => String::from_str("Player not present!"),
            CardProtocolError::WrongCard => String::from_str("Wrong card!"),
            CardProtocolError::ZeroCard => String::from_str("Unexpected zero card"),
            CardProtocolError::UnrecognizedCard => String::from_str("Non-existant card"),
            CardProtocolError::DuplicateCard => String::from_str("Duplicate cards not allowed"),
            CardProtocolError::DuplicatePlayer => String::from_str("Duplicate player not allowed"),
            CardProtocolError::WrongGame(s) => {
                let mut m = String::from_str("Wrong game: ");
                m.append(s);
                m
            },
            CardProtocolError::InvalidProof(s) => String::from_str(s),
            CardProtocolError::ProofError(c) => String::from_str(c.message()),
        }
    }
}

} // verus!
