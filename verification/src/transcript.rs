//! Fiat-Shamir challenges and prover nonces from `ark-transcript`.
//!
//! Every transcript of the protocol starts from some public bytes,
//! takes one or two labels, then a list of points, and finally yields a
//! challenge (or, forked, a nonce).
use vstd::prelude::*;

use crate::group::{scalar_valid, Point, Scalar};

use ark_ff::BigInt;
use ark_secp256k1::{Affine, Fq, Fr};
use ark_transcript::{IsLabel, Transcript};

verus! {

/// The challenge that `ark-transcript` derives: from
/// `Transcript::from_accumulation(seed)`, then `label` for each of
/// `labels`, then `append` for each of `points`, then
/// `challenge(challenge_label).read_reduce()`.
pub uninterp spec fn spec_challenge(
    seed: Seq<u8>,
    labels: Seq<Seq<u8>>,
    points: Seq<Point>,
    challenge_label: Seq<u8>,
) -> Scalar;

/// Calls `Transcript::from_accumulation`, `label`, `append_slice` and
/// `challenge(..).read_reduce()` of `ark-transcript` for one label; the
/// result is named `spec_challenge`.
#[verifier::external_body]
pub(crate) fn challenge(seed: &[u8], label: &[u8], points: &[Point], challenge_label: &[u8]) -> (c:
    Scalar)
    ensures
        c == spec_challenge(seed@, seq![label@], points@, challenge_label@),
        scalar_valid(c),
{
    let v: Vec<Affine> = points.iter().map(
        |p| Affine::new_unchecked(Fq::new_unchecked(BigInt(p.x)), Fq::new_unchecked(BigInt(p.y))),
    ).collect();
    let mut t = Transcript::from_accumulation(seed);
    t.label(IsLabel(label));
    t.append_slice::<Affine, Affine>(&v);
    let c: Fr = t.challenge(IsLabel(challenge_label)).read_reduce();
    Scalar { limbs: c.0.0 }
}

/// Calls `Transcript::from_accumulation`, `label` twice, `append_slice`
/// and `challenge(..).read_reduce()` of `ark-transcript`; the result is
/// named `spec_challenge`.
#[verifier::external_body]
pub(crate) fn challenge_two_labels(
    seed: &[u8],
    first_label: &[u8],
    second_label: &[u8],
    points: &[Point],
    challenge_label: &[u8],
) -> (c: Scalar)
    ensures
        c == spec_challenge(seed@, seq![first_label@, second_label@], points@, challenge_label@),
        scalar_valid(c),
{
    let v: Vec<Affine> = points.iter().map(
        |p| Affine::new_unchecked(Fq::new_unchecked(BigInt(p.x)), Fq::new_unchecked(BigInt(p.y))),
    ).collect();
    let mut t = Transcript::from_accumulation(seed);
    t.label(IsLabel(first_label));
    t.label(IsLabel(second_label));
    t.append_slice::<Affine, Affine>(&v);
    let c: Fr = t.challenge(IsLabel(challenge_label)).read_reduce();
    Scalar { limbs: c.0.0 }
}

/// The challenge that `ark-transcript` derives: from
/// `Transcript::from_accumulation(seed)`, then `label(key_label)`,
/// `append(key)`, `append(players)` (the list as one item, with its
/// length), `label(label)`, `append(point)` and finally
/// `challenge(challenge_label).read_reduce()`.
pub uninterp spec fn spec_keyed_challenge(
    seed: Seq<u8>,
    key_label: Seq<u8>,
    key: Point,
    players: Seq<Point>,
    label: Seq<u8>,
    point: Point,
    challenge_label: Seq<u8>,
) -> Scalar;

/// Calls `Transcript::from_accumulation`, `label`, `append` of a point,
/// `append` of a `Vec` of points, `label`, `append` of a point and
/// `challenge(..).read_reduce()` of `ark-transcript`; the result is named
/// `spec_keyed_challenge`.
#[verifier::external_body]
pub(crate) fn challenge_keyed(
    seed: &[u8],
    key_label: &[u8],
    key: &Point,
    players: &[Point],
    label: &[u8],
    point: &Point,
    challenge_label: &[u8],
) -> (c: Scalar)
    ensures
        c == spec_keyed_challenge(seed@, key_label@, *key, players@, label@, *point, challenge_label@),
        scalar_valid(c),
{
    let affine = |p: &Point| Affine::new_unchecked(Fq::new_unchecked(BigInt(p.x)), Fq::new_unchecked(BigInt(p.y)));
    let v: Vec<Affine> = players.iter().map(affine).collect();
    let mut t = Transcript::from_accumulation(seed);
    t.label(IsLabel(key_label));
    t.append(&affine(key));
    t.append(&v);
    t.label(IsLabel(label));
    t.append(&affine(point));
    let c: Fr = t.challenge(IsLabel(challenge_label)).read_reduce();
    Scalar { limbs: c.0.0 }
}

/// Calls `Transcript::from_accumulation`, `label`, `append_slice`,
/// `fork`, `witness` with system randomness from `getrandom_or_panic`,
/// and `read_reduce` of `ark-transcript`.  Nothing is claimed of the
/// result: it mixes in fresh randomness.
#[verifier::external_body]
pub(crate) fn witness(seed: &[u8], label: &[u8], points: &[Point], fork_label: &[u8]) -> (w:
    Scalar)
    ensures
        scalar_valid(w),
{
    let v: Vec<Affine> = points.iter().map(
        |p| Affine::new_unchecked(Fq::new_unchecked(BigInt(p.x)), Fq::new_unchecked(BigInt(p.y))),
    ).collect();
    let mut t = Transcript::from_accumulation(seed);
    t.label(IsLabel(label));
    t.append_slice::<Affine, Affine>(&v);
    let mut rng = getrandom_or_panic::getrandom_or_panic();
    let w: Fr = t.fork(IsLabel(fork_label)).witness(&mut rng).read_reduce();
    Scalar { limbs: w.0.0 }
}

/// Calls `Transcript::from_accumulation`, `label` twice, `append_slice`,
/// `fork`, `witness` with system randomness from `getrandom_or_panic`,
/// and `read_reduce` of `ark-transcript`.  Nothing is claimed of the
/// result: it mixes in fresh randomness.
#[verifier::external_body]
pub(crate) fn witness_two_labels(
    seed: &[u8],
    first_label: &[u8],
    second_label: &[u8],
    points: &[Point],
    fork_label: &[u8],
) -> (w: Scalar)
    ensures
        scalar_valid(w),
{
    let v: Vec<Affine> = points.iter().map(
        |p| Affine::new_unchecked(Fq::new_unchecked(BigInt(p.x)), Fq::new_unchecked(BigInt(p.y))),
    ).collect();
    let mut t = Transcript::from_accumulation(seed);
    t.label(IsLabel(first_label));
    t.label(IsLabel(second_label));
    t.append_slice::<Affine, Affine>(&v);
    let mut rng = getrandom_or_panic::getrandom_or_panic();
    let w: Fr = t.fork(IsLabel(fork_label)).witness(&mut rng).read_reduce();
    Scalar { limbs: w.0.0 }
}

} // verus!
