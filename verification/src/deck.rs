//! Decks of card points sorted by their compressed encoding, so that a
//! revealed point is found by binary search.
use vstd::prelude::*;

use crate::group::{
    point_to_bytes, point_xy, points_to_bytes, random_point, spec_point_bytes, spec_points_bytes,
    spec_xy, group_element, Point,
};
use vstd::string::StringExecFns;

use ark_ff::BigInt;
use ark_secp256k1::Affine;
use ark_std::UniformRand;
use ark_transcript::{IsLabel, Transcript};
use crate::masking::Plaintext;
use crate::sorting::{compare_keys, keys_sorted, lex_le, lex_split, lemma_lex_total, sort_by_keys};

verus! {

/// The sort key of a card: its compressed encoding.
pub open spec fn deck_key(p: Point) -> Seq<u64> {
    spec_point_bytes(p).map_values(|b: u8| b as u64)
}

/// The encoding `a` comes no later than `b` in the lexicographic order
/// of byte strings: `b` is not smaller at the first byte where they
/// differ.
pub open spec fn bytes_le(a: Seq<u8>, b: Seq<u8>) -> bool {
    !exists|k: int|
        0 <= k < a.len() && k < b.len() && #[trigger] b[k] < a[k] && forall|t: int|
            0 <= t < k ==> a[t] == b[t]
}

/// Cards with the same sort key have the same encoding.
pub proof fn lemma_deck_key_injective(p: Point, q: Point)
    requires
        deck_key(p) == deck_key(q),
    ensures
        spec_point_bytes(p) == spec_point_bytes(q),
{
    let (a, b) = (spec_point_bytes(p), spec_point_bytes(q));
    assert(a.len() == deck_key(p).len());
    assert(b.len() == deck_key(q).len());
    assert forall|i: int| 0 <= i < a.len() implies a[i] == b[i] by {
        assert(deck_key(p)[i] == a[i] as u64);
        assert(deck_key(q)[i] == b[i] as u64);
        assert(deck_key(p)[i] == deck_key(q)[i]);
    }
    assert(a =~= b);
}

/// Cards in the order of their sort keys are in the lexicographic order
/// of their encodings.
pub proof fn lemma_deck_key_order(p: Point, q: Point)
    requires
        lex_le(deck_key(p), deck_key(q)),
    ensures
        bytes_le(spec_point_bytes(p), spec_point_bytes(q)),
{
    let (a, b) = (spec_point_bytes(p), spec_point_bytes(q));
    if exists|k: int|
        0 <= k < a.len() && k < b.len() && #[trigger] b[k] < a[k] && forall|t: int|
            0 <= t < k ==> a[t] == b[t] {
        let k = choose|k: int|
            0 <= k < a.len() && k < b.len() && #[trigger] b[k] < a[k] && forall|t: int|
                0 <= t < k ==> a[t] == b[t];
        assert forall|t: int| 0 <= t < k implies deck_key(q)[t] == deck_key(p)[t] by {
            assert(a[t] == b[t]);
        }
        assert(lex_split(deck_key(q), deck_key(p), k));
    }
}

/// The sort key of a card.
pub fn deck_key_of(p: &Point) -> (k: Vec<u64>)
    ensures
        k@ == deck_key(*p),
        k@.len() == 33,
{
    let bytes = point_to_bytes(p);
    let mut k: Vec<u64> = Vec::new();
    let mut i: usize = 0;
    while i < bytes.len()
        invariant
            i <= bytes@.len(),
            k@.len() == i,
            forall|t: int| 0 <= t < i ==> #[trigger] k@[t] == bytes@[t] as u64,
        decreases bytes@.len() - i,
    {
        k.push(bytes[i] as u64);
        i = i + 1;
    }
    proof {
        assert(k@ =~= deck_key(*p));
    }
    k
}

/// The integer that little-endian 64 bit limbs stand for.
pub open spec fn limbs_value(limbs: [u64; 4]) -> nat {
    limbs[0] as nat + 0x1_0000_0000_0000_0000 * (limbs[1] as nat + 0x1_0000_0000_0000_0000 * (
    limbs[2] as nat + 0x1_0000_0000_0000_0000 * (limbs[3] as nat)))
}

/// The decimal digit `d`.
pub open spec fn digit(d: nat) -> char {
    if d == 0 {
        '0'
    } else if d == 1 {
        '1'
    } else if d == 2 {
        '2'
    } else if d == 3 {
        '3'
    } else if d == 4 {
        '4'
    } else if d == 5 {
        '5'
    } else if d == 6 {
        '6'
    } else if d == 7 {
        '7'
    } else if d == 8 {
        '8'
    } else {
        '9'
    }
}

/// The decimal notation of `n`, without leading zeros.
pub open spec fn decimal(n: nat) -> Seq<char>
    decreases n,
{
    if n < 10 {
        seq![digit(n)]
    } else {
        decimal(n / 10).push(digit(n % 10))
    }
}

/// Calls the `Debug` formatting of `ark_ff::BigInt`, which prints the
/// integer (as a `num_bigint::BigUint`) in decimal notation.
#[verifier::external_body]
fn decimal_of_limbs(limbs: &[u64; 4]) -> (r: String)
    ensures
        r@ == decimal(limbs_value(*limbs)),
{
    format!("{:?}", BigInt::<4>(*limbs))
}

/// The line of Rust code that builds the point `p` of the type named
/// `affine` from its coordinates.
pub open spec fn point_code(affine: Seq<char>, p: Point) -> Seq<char> {
    match spec_xy(p) {
        Some((x, y)) => affine + "::new_unchecked(MontFp!(\""@ + decimal(limbs_value(x))
            + "\"), MontFp!(\""@ + decimal(limbs_value(y)) + "\")),\n"@,
        None => affine + "::zero(),\n"@,
    }
}

/// No decimal digit is a double quote.
proof fn lemma_decimal_has_no_quote(n: nat)
    ensures
        decimal(n).len() >= 1,
        forall|i: int| 0 <= i < decimal(n).len() ==> #[trigger] decimal(n)[i] != '"',
    decreases n,
{
    if n >= 10 {
        lemma_decimal_has_no_quote(n / 10);
        let d = decimal(n / 10);
        assert forall|i: int| 0 <= i < decimal(n).len() implies #[trigger] decimal(n)[i] != '"' by {
            if i < d.len() {
                assert(decimal(n)[i] == d[i]);
            }
        }
    }
}

/// Distinct integers have distinct decimal notations.
pub proof fn lemma_decimal_injective(n: nat, m: nat)
    requires
        decimal(n) == decimal(m),
    ensures
        n == m,
    decreases n,
{
    lemma_decimal_has_no_quote(n / 10);
    lemma_decimal_has_no_quote(m / 10);
    if n < 10 && m < 10 {
        assert(decimal(n) == seq![digit(n)]);
        assert(decimal(m) == seq![digit(m)]);
        assert(seq![digit(n)][0] == digit(n));
        assert(seq![digit(m)][0] == digit(m));
        assert(digit(n) == digit(m));
    } else if n >= 10 && m >= 10 {
        let (a, b) = (decimal(n), decimal(m));
        assert(a == decimal(n / 10).push(digit(n % 10)));
        assert(b == decimal(m / 10).push(digit(m % 10)));
        assert(a.drop_last() =~= decimal(n / 10));
        assert(b.drop_last() =~= decimal(m / 10));
        assert(a.last() == b.last());
        assert(digit(n % 10) == digit(m % 10));
        assert(n % 10 == m % 10);
        lemma_decimal_injective(n / 10, m / 10);
        assert(n == 10 * (n / 10) + n % 10);
        assert(m == 10 * (m / 10) + m % 10);
    } else if n < 10 {
        assert(decimal(n) == seq![digit(n)]);
        assert(decimal(m) == decimal(m / 10).push(digit(m % 10)));
        assert(decimal(n).len() != decimal(m).len());
    } else {
        assert(decimal(m) == seq![digit(m)]);
        assert(decimal(n) == decimal(n / 10).push(digit(n % 10)));
        assert(decimal(n).len() != decimal(m).len());
    }
}

/// Distinct limbs stand for distinct integers.
pub proof fn lemma_limbs_injective(u: [u64; 4], w: [u64; 4])
    requires
        limbs_value(u) == limbs_value(w),
    ensures
        u == w,
{
    broadcast use vstd::array::group_array_axioms;
    crate::keys::lemma_limbs_compare(u, w);
    crate::keys::lemma_limbs_compare(w, u);
    assert(u =~= w);
}

/// The line of code of a point determines the point's coordinates: two
/// points with the same line have the same coordinates, the `x`
/// coordinate written first and the `y` coordinate second, each in
/// decimal.
pub proof fn lemma_point_code_determines(affine: Seq<char>, p: Point, q: Point)
    requires
        point_code(affine, p) == point_code(affine, q),
    ensures
        spec_xy(p) == spec_xy(q),
{
    reveal_strlit("::new_unchecked(MontFp!(\"");
    reveal_strlit("\"), MontFp!(\"");
    reveal_strlit("\")),\n");
    reveal_strlit("::zero(),\n");
    let sp = point_code(affine, p);
    let sq = point_code(affine, q);
    let l1 = "::new_unchecked(MontFp!(\""@;
    let l2 = "\"), MontFp!(\""@;
    let l3 = "\")),\n"@;
    let z = "::zero(),\n"@;
    let a: int = affine.len() as int;
    match (spec_xy(p), spec_xy(q)) {
        (Some((xp, yp)), Some((xq, yq))) => {
            let (dxp, dyp) = (decimal(limbs_value(xp)), decimal(limbs_value(yp)));
            let (dxq, dyq) = (decimal(limbs_value(xq)), decimal(limbs_value(yq)));
            lemma_decimal_has_no_quote(limbs_value(xp));
            lemma_decimal_has_no_quote(limbs_value(xq));
            assert(sp == affine + l1 + dxp + l2 + dyp + l3);
            assert(sq == affine + l1 + dxq + l2 + dyq + l3);
            let s0: int = a + l1.len();
            if dxp.len() < dxq.len() {
                assert(sp[s0 + dxp.len()] == l2[0]);
                assert(sq[s0 + dxp.len()] == dxq[dxp.len() as int]);
            }
            if dxq.len() < dxp.len() {
                assert(sq[s0 + dxq.len()] == l2[0]);
                assert(sp[s0 + dxq.len()] == dxp[dxq.len() as int]);
            }
            assert(dxp.len() == dxq.len());
            assert forall|k: int| 0 <= k < dxp.len() implies dxp[k] == dxq[k] by {
                assert(sp[s0 + k] == dxp[k]);
                assert(sq[s0 + k] == dxq[k]);
            }
            assert(dxp =~= dxq);
            assert(dyp.len() == dyq.len());
            let s1: int = s0 + dxp.len() + l2.len();
            assert forall|k: int| 0 <= k < dyp.len() implies dyp[k] == dyq[k] by {
                assert(sp[s1 + k] == dyp[k]);
                assert(sq[s1 + k] == dyq[k]);
            }
            assert(dyp =~= dyq);
            lemma_decimal_injective(limbs_value(xp), limbs_value(xq));
            lemma_decimal_injective(limbs_value(yp), limbs_value(yq));
            lemma_limbs_injective(xp, xq);
            lemma_limbs_injective(yp, yq);
        },
        (Some((xp, yp)), None) => {
            assert(sp[a + 2] == l1[2]);
            assert(sq[a + 2] == z[2]);
        },
        (None, Some((xq, yq))) => {
            assert(sq[a + 2] == l1[2]);
            assert(sp[a + 2] == z[2]);
        },
        (None, None) => {},
    }
}

/// The Rust code of the point `p`, for a table of points of the type named
/// `affine`.
pub fn write_point(affine: &str, p: &Point) -> (s: String)
    ensures
        s@ == point_code(affine@, *p),
{
    let mut s = String::from_str(affine);
    match point_xy(p) {
        Some((x, y)) => {
            s.append("::new_unchecked(MontFp!(\"");
            s.append(decimal_of_limbs(&x).as_str());
            s.append("\"), MontFp!(\"");
            s.append(decimal_of_limbs(&y).as_str());
            s.append("\")),\n");
        },
        None => {
            s.append("::zero(),\n");
        },
    }
    s
}

/// The Rust code of the points of `cards`, one line each.
pub open spec fn points_code(affine: Seq<char>, cards: Seq<Point>) -> Seq<char>
    decreases cards.len(),
{
    if cards.len() == 0 {
        Seq::empty()
    } else {
        points_code(affine, cards.drop_last()) + point_code(affine, cards.last())
    }
}

/// The Rust code of a static table named `name` holding the points of
/// `cards`.
pub open spec fn deck_code(name: Seq<char>, cards: Seq<Point>) -> Seq<char> {
    "pub static "@ + name + ": &'static [Affine; "@ + decimal(cards.len()) + "] = &[\n"@
        + points_code("Affine"@, cards) + "];\n"@
}

/// A uniformly random card point (a generic hash-to-curve): never the
/// identity, which stands for no card.
pub fn exrtact_card() -> (p: Point)
    ensures
        p != Point::spec_zero(),
{
    random_point()
}

/// The cards of a deck as ElGamal plaintexts.
pub fn cast_deck(deck: &[Point]) -> (v: Vec<Plaintext>)
    ensures
        v@ == deck@.map_values(|p: Point| Plaintext(p)),
{
    let mut v: Vec<Plaintext> = Vec::new();
    let mut i: usize = 0;
    while i < deck.len()
        invariant
            i <= deck@.len(),
            v@ == deck@.take(i as int).map_values(|p: Point| Plaintext(p)),
        decreases deck@.len() - i,
    {
        proof {
            assert(deck@.take(i + 1) =~= deck@.take(i as int).push(deck@[i as int]));
        }
        v.push(Plaintext(deck[i]));
        i = i + 1;
        proof {
            assert(v@ =~= deck@.take(i as int).map_values(|p: Point| Plaintext(p)));
        }
    }
    proof {
        assert(deck@.take(i as int) =~= deck@);
    }
    v
}

/// The `count` points that `UniformRand::rand` draws for `Affine`, one
/// after the other, from the reader that `ark-transcript` gives for
/// `Transcript::new_labeled(label).challenge(challenge_label)`.
pub uninterp spec fn spec_transcript_cards(label: Seq<u8>, challenge_label: Seq<u8>, count: nat) -> Seq<Point>;

/// Calls `Transcript::new_labeled` and `challenge` of `ark-transcript`,
/// then `UniformRand::rand` of `ark-std` for an `Affine` `count` times on
/// the reader; the result is named `spec_transcript_cards`.  As for
/// `random_point`, no point drawn is the identity.
#[verifier::external_body]
fn transcript_cards(label: &[u8], challenge_label: &[u8], count: u32) -> (v: Vec<Point>)
    ensures
        v@ == spec_transcript_cards(label@, challenge_label@, count as nat),
        v@.len() == count,
        forall|i: int| 0 <= i < count ==> #[trigger] v@[i] != Point::spec_zero(),
        forall|i: int| 0 <= i < count ==> group_element(#[trigger] v@[i]),
{
    let mut rng = Transcript::new_labeled(IsLabel(label)).challenge(IsLabel(challenge_label));
    let mut v: Vec<Point> = Vec::new();
    for _ in 0..count {
        let p = Affine::rand(&mut rng);
        v.push(Point { x: p.x.0.0, y: p.y.0.0 });
    }
    v
}

/// A deck: cards by index, and the index of a card.
pub trait Deck {
    type C;

    fn encode(&self, card_index: usize) -> Option<&Self::C>;

    fn decode(&self, point: &Self::C) -> Option<usize>;
}

/// A deck of card points, in the order of their compressed encodings.
#[derive(Clone, Debug)]
pub struct SortedDeck {
    cards: Vec<Point>,
}

impl SortedDeck {
    pub closed spec fn spec_cards(&self) -> Seq<Point> {
        self.cards@
    }

    /// The cards are in the order of their encodings.
    pub open spec fn is_sorted(&self) -> bool {
        keys_sorted(self.spec_cards().map_values(|p: Point| deck_key(p)))
    }

    /// A sorted deck holds its cards in the lexicographic order of their
    /// compressed encodings.
    pub proof fn lemma_sorted_by_encoding(&self)
        requires
            self.is_sorted(),
        ensures
            forall|i: int, j: int|
                0 <= i < j < self.spec_cards().len() ==> bytes_le(
                    spec_point_bytes(#[trigger] self.spec_cards()[i]),
                    spec_point_bytes(#[trigger] self.spec_cards()[j]),
                ),
    {
        let ks = self.spec_cards().map_values(|p: Point| deck_key(p));
        assert forall|i: int, j: int| 0 <= i < j < self.spec_cards().len() implies bytes_le(
            spec_point_bytes(#[trigger] self.spec_cards()[i]),
            spec_point_bytes(#[trigger] self.spec_cards()[j]),
        ) by {
            assert(lex_le(ks[i], ks[j]));
            lemma_deck_key_order(self.spec_cards()[i], self.spec_cards()[j]);
        }
    }

    /// A deck of the given cards, taken to be sorted already.
    pub fn from_vec(v: Vec<Point>) -> (d: SortedDeck)
        ensures
            d.spec_cards() == v@,
    {
        SortedDeck { cards: v }
    }

    /// A deck of the given cards, taken to be sorted already.
    pub fn from_slice(s: &[Point]) -> (d: SortedDeck)
        ensures
            d.spec_cards() == s@,
    {
        SortedDeck { cards: vstd::slice::slice_to_vec(s) }
    }

    /// A deck of the given cards, put in the order of their encodings.
    pub fn from_unsorted(v: Vec<Point>) -> (d: SortedDeck)
        ensures
            d.spec_cards().to_multiset() == v@.to_multiset(),
            d.spec_cards().len() == v@.len(),
            d.is_sorted(),
    {
        let mut keys: Vec<Vec<u64>> = Vec::new();
        let mut i: usize = 0;
        while i < v.len()
            invariant
                i <= v@.len(),
                keys@.len() == i,
                forall|t: int| 0 <= t < i ==> #[trigger] keys@[t]@ == deck_key(v@[t]),
                forall|t: int| 0 <= t < i ==> (#[trigger] keys@[t])@.len() == 33,
            decreases v@.len() - i,
        {
            keys.push(deck_key_of(&v[i]));
            i = i + 1;
        }
        let (sorted, _) = sort_by_keys(v, keys, Ghost(|p: Point| deck_key(p)), Ghost(33));
        SortedDeck { cards: sorted }
    }

    /// A deck of `n` cards drawn from the transcript labelled `label`
    /// under the challenge `challenge_label`, sorted: the same labels give
    /// the same deck.
    pub fn from_transcript(label: &[u8], challenge_label: &[u8], n: u32) -> (d: SortedDeck)
        ensures
            d.spec_cards().to_multiset() == spec_transcript_cards(label@, challenge_label@, n as nat).to_multiset(),
            d.spec_cards().len() == n,
            d.is_sorted(),
    {
        SortedDeck::from_unsorted(transcript_cards(label, challenge_label, n))
    }

    /// A deck of `n` random cards, sorted.
    pub fn from_rng(n: u32) -> (d: SortedDeck)
        ensures
            d.spec_cards().len() == n,
            d.is_sorted(),
            forall|i: int| 0 <= i < n ==> #[trigger] d.spec_cards()[i] != Point::spec_zero(),
    {
        let mut v: Vec<Point> = Vec::new();
        let mut i: u32 = 0;
        while i < n
            invariant
                i <= n,
                v@.len() == i,
                forall|t: int| 0 <= t < i ==> #[trigger] v@[t] != Point::spec_zero(),
            decreases n - i,
        {
            v.push(exrtact_card());
            i = i + 1;
        }
        let d = SortedDeck::from_unsorted(v);
        proof {
            assert forall|t: int| 0 <= t < n implies #[trigger] d.spec_cards()[t] != Point::spec_zero() by {
                let c = d.spec_cards()[t];
                assert(d.spec_cards().contains(c));
                vstd::seq_lib::to_multiset_contains(d.spec_cards(), c);
                vstd::seq_lib::to_multiset_contains(v@, c);
            }
        }
        d
    }

    /// The cards in order.
    pub fn as_affine(&self) -> (s: &[Point])
        ensures
            s@ == self.spec_cards(),
    {
        self.cards.as_slice()
    }

    /// The cards in order, as ElGamal plaintexts.
    pub fn as_el_gamal(&self) -> (v: Vec<Plaintext>)
        ensures
            v@ == self.spec_cards().map_values(|p: Point| Plaintext(p)),
    {
        cast_deck(self.cards.as_slice())
    }

    /// The Rust code of a static table named `name` holding the cards.
    pub fn to_code(&self, name: &str) -> (s: String)
        ensures
            s@ == deck_code(name@, self.spec_cards()),
    {
        let n = self.cards.len();
        let count = decimal_of_limbs(&[n as u64, 0, 0, 0]);
        let mut s = String::from_str("pub static ");
        s.append(name);
        s.append(": &'static [Affine; ");
        s.append(count.as_str());
        s.append("] = &[\n");
        let ghost head = s@;
        let mut i: usize = 0;
        while i < n
            invariant
                n == self.cards@.len(),
                i <= n,
                s@ == head + points_code("Affine"@, self.cards@.take(i as int)),
            decreases n - i,
        {
            let line = write_point("Affine", &self.cards[i]);
            proof {
                assert(self.cards@.take(i + 1).drop_last() =~= self.cards@.take(i as int));
            }
            s.append(line.as_str());
            i = i + 1;
        }
        s.append("];\n");
        proof {
            assert(self.cards@.take(n as int) =~= self.cards@);
            assert(limbs_value([n as u64, 0, 0, 0]) == n);
        }
        s
    }

    /// The compressed encoding of the cards.
    pub fn to_bytes(&self) -> (v: Vec<u8>)
        ensures
            v@ == spec_points_bytes(self.spec_cards()),
    {
        points_to_bytes(self.cards.as_slice())
    }
}

impl Deck for SortedDeck {
    type C = Point;

    /// The card of a given index.
    fn encode(&self, card_index: usize) -> (c: Option<&Point>)
        ensures
            card_index < self.spec_cards().len() ==> (c matches Some(p) && *p
                == self.spec_cards()[card_index as int]),
            card_index >= self.spec_cards().len() ==> c is None,
    {
        if card_index < self.cards.len() {
            Some(&self.cards[card_index])
        } else {
            None
        }
    }

    /// The index of a card, by binary search on the encodings: some
    /// index whose card has the point's encoding, or `None` where (for a
    /// sorted deck) no card has it.
    fn decode(&self, point: &Point) -> (r: Option<usize>)
        ensures
            r matches Some(i) ==> i < self.spec_cards().len() && deck_key(self.spec_cards()[i as int])
                == deck_key(*point),
            r matches Some(i) ==> spec_point_bytes(self.spec_cards()[i as int]) == spec_point_bytes(
                *point,
            ),
            r is None && self.is_sorted() ==> forall|i: int|
                0 <= i < self.spec_cards().len() ==> deck_key(#[trigger] self.spec_cards()[i])
                    != deck_key(*point),
    {
        let target = deck_key_of(point);
        let ghost ks = self.cards@.map_values(|p: Point| deck_key(p));
        let mut lo: usize = 0;
        let mut hi: usize = self.cards.len();
        while lo < hi
            invariant
                target@ == deck_key(*point),
                target@.len() == 33,
                ks == self.cards@.map_values(|p: Point| deck_key(p)),
                lo <= hi <= self.cards@.len(),
                keys_sorted(ks) ==> forall|i: int|
                    0 <= i < lo ==> deck_key(#[trigger] self.cards@[i]) != target@,
                keys_sorted(ks) ==> forall|i: int|
                    hi <= i < self.cards@.len() ==> deck_key(#[trigger] self.cards@[i]) != target@,
            decreases hi - lo,
        {
            let mid = lo + (hi - lo) / 2;
            let k = deck_key_of(&self.cards[mid]);
            let c = compare_keys(k.as_slice(), target.as_slice());
            if c == 0 {
                proof {
                    lemma_deck_key_injective(self.cards@[mid as int], *point);
                }
                return Some(mid);
            }
            proof {
                lemma_lex_total(k@, target@);
                if keys_sorted(ks) {
                    if c == -1 {
                        assert forall|i: int| 0 <= i <= mid implies deck_key(
                            #[trigger] self.cards@[i],
                        ) != target@ by {
                            if i < mid {
                                assert(ks[i] == deck_key(self.cards@[i]));
                                assert(ks[mid as int] == k@);
                                assert(lex_le(ks[i], ks[mid as int]));
                            }
                        }
                    } else {
                        assert forall|i: int| mid <= i < self.cards@.len() implies deck_key(
                            #[trigger] self.cards@[i],
                        ) != target@ by {
                            if i > mid {
                                assert(ks[i] == deck_key(self.cards@[i]));
                                assert(ks[mid as int] == k@);
                                assert(lex_le(ks[mid as int], ks[i]));
                            }
                        }
                    }
                }
            }
            if c == -1 {
                lo = mid + 1;
            } else {
                hi = mid;
            }
        }
        None
    }
}

} // verus!
