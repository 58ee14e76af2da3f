//! Points and scalars of secp256k1 as plain values, and the curve
//! arithmetic of `ark-secp256k1` on them.
//!
//! A `Point` holds the affine coordinates of a curve point exactly as
//! `ark_secp256k1::Affine` holds them (Montgomery limbs of `x` and `y`;
//! the identity is `(0, 0)`), and a `Scalar` holds the Montgomery limbs
//! of an `ark_secp256k1::Fr`.  Their type invariants say that each is a
//! valid value of the curve library's type (its encoding decodes back to
//! it), and for points that the group laws hold: both come only from the
//! curve library.  Equality of these plain values is exactly the equality
//! of the curve library's values.
use vstd::prelude::*;

use ark_ec::{AffineRepr, CurveGroup};
use ark_ff::{BigInt, PrimeField, UniformRand};
use ark_serialize::{CanonicalDeserialize, CanonicalSerialize};
use ark_secp256k1::{Affine, Fq, Fr};

verus! {

/// A point of secp256k1 in affine coordinates.
#[derive(Clone, Copy, PartialEq, Eq, Debug)]
pub struct Point {
    pub(crate) x: [u64; 4],
    pub(crate) y: [u64; 4],
}

/// An element of the scalar field of secp256k1.
#[derive(Clone, Copy, PartialEq, Eq, Debug)]
pub struct Scalar {
    pub(crate) limbs: [u64; 4],
}

impl Point {
    /// The identity of the group, which the curve library represents
    /// by the coordinates `(0, 0)`.
    pub closed spec fn spec_zero() -> Point {
        Point { x: [0u64, 0u64, 0u64, 0u64], y: [0u64, 0u64, 0u64, 0u64] }
    }

    pub fn zero() -> (p: Point)
        ensures
            p == Point::spec_zero(),
    {
        point_identity()
    }

    /// Whether this is the identity, as the curve library decides it:
    /// both coordinates are zero.
    pub fn is_zero(&self) -> (b: bool)
        ensures
            b == (*self == Point::spec_zero()),
    {
        let r = self.x[0] == 0 && self.x[1] == 0 && self.x[2] == 0 && self.x[3] == 0
            && self.y[0] == 0 && self.y[1] == 0 && self.y[2] == 0 && self.y[3] == 0;
        proof {
            broadcast use vstd::array::group_array_axioms;
            let z = Point::spec_zero();
            if r {
                assert(self.x =~= z.x);
                assert(self.y =~= z.y);
            }
        }
        r
    }

    pub fn equals(&self, other: &Point) -> (b: bool)
        ensures
            b == (*self == *other),
    {
        let r = self.x[0] == other.x[0] && self.x[1] == other.x[1] && self.x[2] == other.x[2]
            && self.x[3] == other.x[3] && self.y[0] == other.y[0] && self.y[1] == other.y[1]
            && self.y[2] == other.y[2] && self.y[3] == other.y[3];
        proof {
            broadcast use vstd::array::group_array_axioms;
            if r {
                assert(self.x =~= other.x);
                assert(self.y =~= other.y);
            }
        }
        r
    }
}

impl Scalar {
    pub closed spec fn spec_zero() -> Scalar {
        Scalar { limbs: [0u64, 0u64, 0u64, 0u64] }
    }

    /// The zero scalar, which the curve library represents by zero limbs.
    pub fn zero() -> (s: Scalar)
        ensures
            s == Scalar::spec_zero(),
    {
        scalar_zero()
    }

    /// Every scalar is a canonical element of the scalar field.
    #[verifier::type_invariant]
    pub open spec fn scalar_wf(self) -> bool {
        scalar_valid(self)
    }
}

impl Point {
    /// Every point is a valid element of the curve group.
    #[verifier::type_invariant]
    pub open spec fn point_wf(self) -> bool {
        group_element(self)
    }
}

impl Point {
    /// A uniformly random point of the curve: never the identity.
    pub fn random() -> (p: Point)
        ensures
            p != Point::spec_zero(),
    {
        random_point()
    }

    /// The sum `self + other`.
    pub fn add(&self, other: &Point) -> (r: Point)
        ensures
            r == spec_add(*self, *other),
    {
        point_add(self, other)
    }

    /// The difference `self - other`.
    pub fn sub(&self, other: &Point) -> (r: Point)
        ensures
            r == spec_sub(*self, *other),
    {
        point_sub(self, other)
    }

    /// The multiple `s * self`.
    pub fn mul(&self, s: &Scalar) -> (r: Point)
        ensures
            r == spec_mul(*self, *s),
    {
        point_mul(self, s)
    }

    /// The compressed encoding, 33 bytes.
    pub fn to_bytes(&self) -> (v: Vec<u8>)
        ensures
            v@ == spec_point_bytes(*self),
            v@.len() == point_len(),
            spec_point_from_bytes(v@) == Some(*self),
    {
        proof {
            use_type_invariant(self);
        }
        point_to_bytes(self)
    }

    /// Decode exactly one compressed encoding.
    pub fn from_bytes(bytes: &[u8]) -> (r: Option<Point>)
        ensures
            bytes@.len() != point_len() ==> r is None,
            bytes@.len() == point_len() ==> r == spec_point_from_bytes(bytes@),
    {
        if bytes.len() != 33 {
            return None;
        }
        point_from_bytes(bytes)
    }
}

impl Scalar {
    /// A uniformly random scalar.
    pub fn random() -> (s: Scalar) {
        random_scalar()
    }

    /// The scalar `v`.
    pub fn from_u64(v: u64) -> (s: Scalar)
        ensures
            s == spec_scalar_from_u64(v),
    {
        scalar_from_u64(v)
    }

    /// The encoding, 32 bytes.
    pub fn to_bytes(&self) -> (v: Vec<u8>)
        ensures
            v@ == spec_scalar_bytes(*self),
            v@.len() == scalar_len(),
            spec_scalar_from_bytes(v@) == Some(*self),
    {
        proof {
            use_type_invariant(self);
        }
        scalar_to_bytes(self)
    }

    /// Decode exactly one encoding.
    pub fn from_bytes(bytes: &[u8]) -> (r: Option<Scalar>)
        ensures
            bytes@.len() != scalar_len() ==> r is None,
            bytes@.len() == scalar_len() ==> r == spec_scalar_from_bytes(bytes@),
    {
        if bytes.len() != 32 {
            return None;
        }
        scalar_from_bytes(bytes)
    }
}

/// The sum `a + b` on the curve, as `ark-secp256k1` computes it.
pub uninterp spec fn spec_add(a: Point, b: Point) -> Point;

/// The difference `a - b` on the curve, as `ark-secp256k1` computes it.
pub uninterp spec fn spec_sub(a: Point, b: Point) -> Point;

/// The multiple `s * p` on the curve, as `ark-secp256k1` computes it.
pub uninterp spec fn spec_mul(p: Point, s: Scalar) -> Point;

/// The scalar `v` (an integer below 2^64) in the scalar field.
pub uninterp spec fn spec_scalar_from_u64(v: u64) -> Scalar;

/// The negation `-s` in the scalar field.
pub uninterp spec fn spec_scalar_neg(s: Scalar) -> Scalar;

/// The sum `a + b` in the scalar field.
pub uninterp spec fn spec_scalar_add(a: Scalar, b: Scalar) -> Scalar;

/// The product `a * b` in the scalar field.
pub uninterp spec fn spec_scalar_mul(a: Scalar, b: Scalar) -> Scalar;

/// The compressed encoding of a point by `ark-serialize`.
pub uninterp spec fn spec_point_bytes(p: Point) -> Seq<u8>;

/// The point that `ark-serialize` decodes from a compressed encoding,
/// with validation, or `None` where it refuses the bytes.
pub uninterp spec fn spec_point_from_bytes(bytes: Seq<u8>) -> Option<Point>;

/// The encoding of a scalar by `ark-serialize`.
pub uninterp spec fn spec_scalar_bytes(s: Scalar) -> Seq<u8>;

/// The scalar that `ark-serialize` decodes from its encoding, or `None`
/// where it refuses the bytes.
pub uninterp spec fn spec_scalar_from_bytes(bytes: Seq<u8>) -> Option<Scalar>;

/// The little-endian `u32` at `b[i..i + 4]`.
pub open spec fn le_u32(b: Seq<u8>, i: int) -> int {
    b[i] + 256 * b[i + 1] + 65536 * b[i + 2] + 16777216 * b[i + 3]
}

/// The little-endian `u64` at `b[i..i + 8]`.
pub open spec fn le_u64(b: Seq<u8>, i: int) -> int {
    le_u32(b, i) + 4294967296 * le_u32(b, i + 4)
}

/// The compressed encoding of a list of points by `ark-serialize`: the
/// length as a little-endian `u64`, then each point.
pub uninterp spec fn spec_points_bytes(ps: Seq<Point>) -> Seq<u8>;

/// The list of points that `ark-serialize` decodes from the start of an
/// encoding, with validation, or `None` where it refuses the bytes.
pub uninterp spec fn spec_points_from_bytes(bytes: Seq<u8>) -> Option<Seq<Point>>;

/// The affine coordinates of a point as integers (little-endian limbs),
/// or `None` for the identity: `AffineRepr::xy` of `ark-ec`, then
/// `PrimeField::into_bigint` of `ark-ff` on each coordinate.
pub uninterp spec fn spec_xy(p: Point) -> Option<([u64; 4], [u64; 4])>;

/// The point is a valid element of the curve group: a point of the
/// curve (or the identity) with canonical coordinates, so that its
/// compressed encoding decodes back to it.
pub open spec fn point_valid(p: Point) -> bool {
    spec_point_from_bytes(spec_point_bytes(p)) == Some(p)
}

/// The scalar is a canonical element of the scalar field, so that its
/// encoding decodes back to it.
pub open spec fn scalar_valid(s: Scalar) -> bool {
    spec_scalar_from_bytes(spec_scalar_bytes(s)) == Some(s)
}

/// The scalar `-1`.
pub open spec fn minus_one() -> Scalar {
    spec_scalar_neg(spec_scalar_from_u64(1))
}

/// The point `p` is a valid element of the curve group, and the group
/// laws hold between `p` and every valid point and scalar.
pub open spec fn group_element(p: Point) -> bool {
    point_valid(p) && group_laws(p)
}

/// The laws of a group of prime order, whose scalars form a field, hold
/// between `p` and every valid point and scalar: the results stay valid,
/// addition is commutative and associative with the identity as neutral
/// element, subtraction undoes addition, `p + (-1) * p` is the identity,
/// and the scalar action distributes over sums and composes with the
/// product of scalars.  Proofs reveal it where they need it.
#[verifier::opaque]
pub open spec fn group_laws(p: Point) -> bool {
    &&& point_valid(Point::spec_zero())
    &&& spec_add(p, Point::spec_zero()) == p
    &&& spec_add(Point::spec_zero(), p) == p
    &&& spec_add(p, spec_mul(p, minus_one())) == Point::spec_zero()
    &&& point_valid(spec_mul(p, minus_one()))
    &&& forall|q: Point| point_valid(q) ==> #[trigger] spec_add(q, Point::spec_zero()) == q
    &&& forall|q: Point| point_valid(q) ==> #[trigger] spec_add(Point::spec_zero(), q) == q
    &&& forall|q: Point| point_valid(q) ==> point_valid(#[trigger] spec_add(q, p))
    &&& forall|q: Point| point_valid(q) ==> point_valid(#[trigger] spec_add(p, q))
    &&& forall|q: Point| point_valid(q) ==> point_valid(#[trigger] spec_sub(q, p))
    &&& forall|q: Point| point_valid(q) ==> #[trigger] spec_add(q, p) == spec_add(p, q)
    &&& forall|q: Point| point_valid(q) ==> #[trigger] spec_sub(spec_add(q, p), p) == q
    &&& forall|q: Point| point_valid(q) ==> #[trigger] spec_add(spec_sub(q, p), p) == q
    &&& forall|q: Point| point_valid(q) ==> #[trigger] spec_sub(spec_add(p, q), q) == p
    &&& forall|q: Point, c: Point|
        point_valid(q) && point_valid(c) ==> #[trigger] spec_add(spec_add(p, q), c) == spec_add(
            p,
            spec_add(q, c),
        )
    &&& forall|q: Point, c: Point|
        point_valid(q) && point_valid(c) ==> #[trigger] spec_add(spec_add(q, p), c) == spec_add(
            q,
            spec_add(p, c),
        )
    &&& forall|q: Point, c: Point|
        point_valid(q) && point_valid(c) ==> #[trigger] spec_add(spec_add(q, c), p) == spec_add(
            q,
            spec_add(c, p),
        )
    &&& forall|s: Scalar| scalar_valid(s) ==> point_valid(#[trigger] spec_mul(p, s))
    &&& forall|q: Point, s: Scalar|
        point_valid(q) && scalar_valid(s) ==> point_valid(#[trigger] spec_mul(q, s))
    &&& forall|s: Scalar|
        scalar_valid(s) ==> #[trigger] spec_mul(Point::spec_zero(), s) == Point::spec_zero()
    &&& forall|q: Point, s: Scalar|
        point_valid(q) && scalar_valid(s) ==> #[trigger] spec_mul(spec_add(q, p), s) == spec_add(
            spec_mul(q, s),
            spec_mul(p, s),
        )
    &&& forall|s: Scalar, t: Scalar|
        scalar_valid(s) && scalar_valid(t) ==> #[trigger] spec_mul(p, spec_scalar_add(s, t))
            == spec_add(spec_mul(p, s), spec_mul(p, t))
    &&& forall|s: Scalar, t: Scalar|
        scalar_valid(s) && scalar_valid(t) ==> #[trigger] spec_mul(spec_mul(p, s), t) == spec_mul(
            spec_mul(p, t),
            s,
        ) && spec_mul(spec_mul(p, s), t) == spec_mul(p, spec_scalar_mul(t, s))
}

/// The identity is a valid point, and the neutral element of addition
/// on every valid point.
pub proof fn lemma_identity(p: Point, q: Point)
    requires
        group_element(p),
        point_valid(q),
    ensures
        point_valid(Point::spec_zero()),
        spec_add(q, Point::spec_zero()) == q,
        spec_add(Point::spec_zero(), q) == q,
{
    reveal(group_laws);
}

/// Sums and differences with a group element stay valid; addition
/// commutes and subtraction undoes it.
pub proof fn lemma_add(p: Point, q: Point)
    requires
        group_element(p),
        point_valid(q),
    ensures
        point_valid(spec_add(q, p)),
        point_valid(spec_add(p, q)),
        point_valid(spec_sub(q, p)),
        spec_add(q, p) == spec_add(p, q),
        spec_sub(spec_add(q, p), p) == q,
        spec_add(spec_sub(q, p), p) == q,
        spec_sub(spec_add(p, q), q) == p,
{
    reveal(group_laws);
}

/// Addition is associative, wherever the group element stands.
pub proof fn lemma_assoc(p: Point, q: Point, c: Point)
    requires
        group_element(p),
        point_valid(q),
        point_valid(c),
    ensures
        spec_add(spec_add(p, q), c) == spec_add(p, spec_add(q, c)),
        spec_add(spec_add(q, p), c) == spec_add(q, spec_add(p, c)),
        spec_add(spec_add(q, c), p) == spec_add(q, spec_add(c, p)),
{
    reveal(group_laws);
}

/// A multiple of a group element is valid, and every multiple of the
/// identity is the identity.
pub proof fn lemma_mul(p: Point, s: Scalar)
    requires
        group_element(p),
        scalar_valid(s),
    ensures
        point_valid(spec_mul(p, s)),
        spec_mul(Point::spec_zero(), s) == Point::spec_zero(),
{
    reveal(group_laws);
}

/// Multiples of valid points are valid.
pub proof fn lemma_mul_valid(p: Point, q: Point, s: Scalar)
    requires
        group_element(p),
        point_valid(q),
        scalar_valid(s),
    ensures
        point_valid(spec_mul(q, s)),
{
    reveal(group_laws);
}

/// `(-1) * p` is valid and `p + (-1) * p` is the identity.
pub proof fn lemma_neg(p: Point)
    requires
        group_element(p),
    ensures
        point_valid(spec_mul(p, minus_one())),
        spec_add(p, spec_mul(p, minus_one())) == Point::spec_zero(),
{
    reveal(group_laws);
}

/// The scalar action distributes over the sum of points and over the sum
/// of scalars, and composes with the product of scalars.
pub proof fn lemma_distrib(p: Point, q: Point, s: Scalar, t: Scalar)
    requires
        group_element(p),
        point_valid(q),
        scalar_valid(s),
        scalar_valid(t),
    ensures
        spec_mul(spec_add(q, p), s) == spec_add(spec_mul(q, s), spec_mul(p, s)),
        spec_mul(p, spec_scalar_add(s, t)) == spec_add(spec_mul(p, s), spec_mul(p, t)),
        spec_mul(spec_mul(p, s), t) == spec_mul(spec_mul(p, t), s),
        spec_mul(spec_mul(p, s), t) == spec_mul(p, spec_scalar_mul(t, s)),
{
    reveal(group_laws);
}

/// The length of the compressed encoding of a point.
pub open spec fn point_len() -> nat {
    33
}

/// The length of the encoding of a scalar.
pub open spec fn scalar_len() -> nat {
    32
}

/// Calls `Affine + Affine` and `CurveGroup::into_affine` of `ark-ec` on
/// secp256k1; the result is named `spec_add`.  As for every point that
/// the curve library returns, it is claimed to be a valid element of the
/// curve group, for which the group laws hold (`group_element`).
#[verifier::external_body]
pub(crate) fn point_add(a: &Point, b: &Point) -> (r: Point)
    ensures
        r == spec_add(*a, *b),
        group_element(r),
{
    let a = Affine::new_unchecked(Fq::new_unchecked(BigInt(a.x)), Fq::new_unchecked(BigInt(a.y)));
    let b = Affine::new_unchecked(Fq::new_unchecked(BigInt(b.x)), Fq::new_unchecked(BigInt(b.y)));
    let r = (a + b).into_affine();
    Point { x: r.x.0.0, y: r.y.0.0 }
}

/// Calls `Affine - Affine` and `CurveGroup::into_affine` of `ark-ec` on
/// secp256k1; the result is named `spec_sub`, and is claimed to be a
/// group element.
#[verifier::external_body]
pub(crate) fn point_sub(a: &Point, b: &Point) -> (r: Point)
    ensures
        r == spec_sub(*a, *b),
        group_element(r),
{
    let a = Affine::new_unchecked(Fq::new_unchecked(BigInt(a.x)), Fq::new_unchecked(BigInt(a.y)));
    let b = Affine::new_unchecked(Fq::new_unchecked(BigInt(b.x)), Fq::new_unchecked(BigInt(b.y)));
    let r = (a - b).into_affine();
    Point { x: r.x.0.0, y: r.y.0.0 }
}

/// Calls `Affine * Fr` and `CurveGroup::into_affine` of `ark-ec` on
/// secp256k1; the result is named `spec_mul`, and is claimed to be a
/// group element.
#[verifier::external_body]
pub(crate) fn point_mul(p: &Point, s: &Scalar) -> (r: Point)
    ensures
        r == spec_mul(*p, *s),
        group_element(r),
{
    let p = Affine::new_unchecked(Fq::new_unchecked(BigInt(p.x)), Fq::new_unchecked(BigInt(p.y)));
    let s = Fr::new_unchecked(BigInt(s.limbs));
    let r = (p * s).into_affine();
    Point { x: r.x.0.0, y: r.y.0.0 }
}

/// Calls `From<u64> for Fr` of `ark-ff`; the result is named
/// `spec_scalar_from_u64`, and is claimed to be a canonical element of
/// the field, as every `Fr` that the field arithmetic returns is.
#[verifier::external_body]
pub(crate) fn scalar_from_u64(v: u64) -> (s: Scalar)
    ensures
        s == spec_scalar_from_u64(v),
        scalar_valid(s),
{
    let s = Fr::from(v);
    Scalar { limbs: s.0.0 }
}

/// Calls `Neg for Fr` of `ark-ff`; the result is named `spec_scalar_neg`,
/// and is claimed to be canonical.
#[verifier::external_body]
pub(crate) fn scalar_neg(s: &Scalar) -> (r: Scalar)
    ensures
        r == spec_scalar_neg(*s),
        scalar_valid(r),
{
    let r = -Fr::new_unchecked(BigInt(s.limbs));
    Scalar { limbs: r.0.0 }
}

/// Calls `Add for Fr` of `ark-ff`; the result is named `spec_scalar_add`,
/// and is claimed to be canonical.
#[verifier::external_body]
pub(crate) fn scalar_add(a: &Scalar, b: &Scalar) -> (r: Scalar)
    ensures
        r == spec_scalar_add(*a, *b),
        scalar_valid(r),
{
    let r = Fr::new_unchecked(BigInt(a.limbs)) + Fr::new_unchecked(BigInt(b.limbs));
    Scalar { limbs: r.0.0 }
}

/// Calls `Mul for Fr` of `ark-ff`; the result is named `spec_scalar_mul`,
/// and is claimed to be canonical.
#[verifier::external_body]
pub(crate) fn scalar_mul(a: &Scalar, b: &Scalar) -> (r: Scalar)
    ensures
        r == spec_scalar_mul(*a, *b),
        scalar_valid(r),
{
    let r = Fr::new_unchecked(BigInt(a.limbs)) * Fr::new_unchecked(BigInt(b.limbs));
    Scalar { limbs: r.0.0 }
}

/// Calls `CanonicalSerialize::serialize_compressed` of `ark-serialize` on
/// an `Affine`; the result is named `spec_point_bytes`.  The encoding of
/// a secp256k1 point takes 33 bytes.  That decoding it gives a valid point
/// back is what `point_valid` says, and holds of every `Point`.
#[verifier::external_body]
pub(crate) fn point_to_bytes(p: &Point) -> (r: Vec<u8>)
    ensures
        r@ == spec_point_bytes(*p),
        r@.len() == point_len(),
{
    let p = Affine::new_unchecked(Fq::new_unchecked(BigInt(p.x)), Fq::new_unchecked(BigInt(p.y)));
    let mut v: Vec<u8> = Vec::new();
    p.serialize_compressed(&mut v).unwrap();
    v
}

/// Calls `CanonicalDeserialize::deserialize_compressed` of `ark-serialize`
/// for an `Affine` on exactly the 33 bytes of one encoding; the result is
/// named `spec_point_from_bytes`.  The decoded point is checked to be on
/// the curve and in its group, so it is claimed to be a group element.
#[verifier::external_body]
pub(crate) fn point_from_bytes(bytes: &[u8]) -> (r: Option<Point>)
    requires
        bytes@.len() == point_len(),
    ensures
        r == spec_point_from_bytes(bytes@),
        r matches Some(p) ==> group_element(p),
{
    match Affine::deserialize_compressed(bytes) {
        Ok(p) => Some(Point { x: p.x.0.0, y: p.y.0.0 }),
        Err(_) => None,
    }
}

/// Calls `AffineRepr::xy` of `ark-ec` and `PrimeField::into_bigint` of
/// `ark-ff`; the result is named `spec_xy`.  `xy` gives `None` exactly for
/// the identity, and otherwise the point's two coordinates as integers,
/// which no other valid point shares (a valid point's coordinates are
/// canonical, so the integers determine them).
#[verifier::external_body]
pub(crate) fn point_xy(p: &Point) -> (r: Option<([u64; 4], [u64; 4])>)
    ensures
        r == spec_xy(*p),
        r is None <==> *p == Point::spec_zero(),
        point_valid(*p) ==> forall|q: Point| point_valid(q) && #[trigger] spec_xy(q) == r ==> q == *p,
{
    let p = Affine::new_unchecked(Fq::new_unchecked(BigInt(p.x)), Fq::new_unchecked(BigInt(p.y)));
    p.xy().map(|(x, y)| (x.into_bigint().0, y.into_bigint().0))
}

/// Calls `CanonicalSerialize::serialize_compressed` of `ark-serialize` on
/// a `Vec<Affine>`; the result is named `spec_points_bytes`, and
/// decoding it gives valid points back.  As the source of `ark-serialize`
/// shows, the encoding is the length as a little-endian `u64`, then the
/// 33 bytes of each point.
#[verifier::external_body]
pub(crate) fn points_to_bytes(ps: &[Point]) -> (r: Vec<u8>)
    ensures
        r@ == spec_points_bytes(ps@),
        (forall|i: int| 0 <= i < ps@.len() ==> point_valid(#[trigger] ps@[i])) ==> spec_points_from_bytes(r@)
            == Some(ps@),
        r@.len() == 8 + point_len() * ps@.len(),
        le_u64(r@, 0) == ps@.len(),
{
    let v: Vec<Affine> = ps.iter().map(
        |p| Affine::new_unchecked(Fq::new_unchecked(BigInt(p.x)), Fq::new_unchecked(BigInt(p.y))),
    ).collect();
    let mut out: Vec<u8> = Vec::new();
    v.serialize_compressed(&mut out).unwrap();
    out
}

/// Calls `CanonicalDeserialize::deserialize_compressed` of `ark-serialize`
/// for a `Vec<Affine>` on the bytes; the result is named
/// `spec_points_from_bytes`; each decoded point is checked, and claimed
/// to be a group element.
#[verifier::external_body]
pub(crate) fn points_from_bytes(bytes: &[u8]) -> (r: Option<Vec<Point>>)
    ensures
        r is None <==> spec_points_from_bytes(bytes@) is None,
        r matches Some(v) ==> spec_points_from_bytes(bytes@) == Some(v@),
        r matches Some(v) ==> forall|i: int| 0 <= i < v@.len() ==> group_element(#[trigger] v@[i]),
{
    match Vec::<Affine>::deserialize_compressed(bytes) {
        Ok(v) => Some(v.iter().map(|p| Point { x: p.x.0.0, y: p.y.0.0 }).collect()),
        Err(_) => None,
    }
}

/// Calls `CanonicalSerialize::serialize_compressed` of `ark-serialize` on
/// an `Fr`; the result is named `spec_scalar_bytes`.  The encoding takes
/// 32 bytes.  That decoding it gives the scalar back is what
/// `scalar_valid` says, and holds of every `Scalar`.
#[verifier::external_body]
pub(crate) fn scalar_to_bytes(s: &Scalar) -> (r: Vec<u8>)
    ensures
        r@ == spec_scalar_bytes(*s),
        r@.len() == scalar_len(),
{
    let s = Fr::new_unchecked(BigInt(s.limbs));
    let mut v: Vec<u8> = Vec::new();
    s.serialize_compressed(&mut v).unwrap();
    v
}

/// Calls `CanonicalDeserialize::deserialize_compressed` of `ark-serialize`
/// for an `Fr` on exactly the 32 bytes of one encoding; the result is
/// named `spec_scalar_from_bytes`; a decoded scalar is canonical.
#[verifier::external_body]
pub(crate) fn scalar_from_bytes(bytes: &[u8]) -> (r: Option<Scalar>)
    requires
        bytes@.len() == scalar_len(),
    ensures
        r == spec_scalar_from_bytes(bytes@),
        r matches Some(s) ==> scalar_valid(s),
{
    match Fr::deserialize_compressed(bytes) {
        Ok(s) => Some(Scalar { limbs: s.0.0 }),
        Err(_) => None,
    }
}

/// Calls `UniformRand::rand` of `ark-std` for an `Fr` with system
/// randomness from `getrandom_or_panic`.  The scalar is drawn at random:
/// only that it is canonical is claimed.
#[verifier::external_body]
pub(crate) fn random_scalar() -> (s: Scalar)
    ensures
        scalar_valid(s),
{
    let s = Fr::rand(&mut getrandom_or_panic::getrandom_or_panic());
    Scalar { limbs: s.0.0 }
}

/// Calls `UniformRand::rand` of `ark-std` for an `Affine` with system
/// randomness from `getrandom_or_panic`.  The point is drawn at random;
/// the one thing claimed of it is that it is not the identity: as the
/// source of `ark-ec` shows, sampling draws `x` until it lies on the
/// curve, takes the point `(x, y)` for one of its two `y`, and multiplies
/// it by the cofactor, which is 1 for secp256k1.  It is a group element.
#[verifier::external_body]
pub(crate) fn random_point() -> (p: Point)
    ensures
        p != Point::spec_zero(),
        group_element(p),
{
    let p = Affine::rand(&mut getrandom_or_panic::getrandom_or_panic());
    Point { x: p.x.0.0, y: p.y.0.0 }
}

/// Calls `Affine::identity` of `ark-ec`: the identity, which the curve
/// library represents by the coordinates `(0, 0)`; a group element.
#[verifier::external_body]
fn point_identity() -> (p: Point)
    ensures
        p == Point::spec_zero(),
        group_element(p),
{
    let p = Affine::identity();
    Point { x: p.x.0.0, y: p.y.0.0 }
}

/// Calls `From<u64> for Fr` of `ark-ff` on `0`: the zero scalar, which
/// the field represents by zero limbs; canonical.
#[verifier::external_body]
fn scalar_zero() -> (s: Scalar)
    ensures
        s == Scalar::spec_zero(),
        scalar_valid(s),
{
    let s = Fr::from(0u64);
    Scalar { limbs: s.0.0 }
}

} // verus!
