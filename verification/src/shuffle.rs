//! Shuffling masked decks: permutations, the permute-and-remask step,
//! the padding of a deck to the size the shuffle argument needs, and
//! the accumulation of every player's shuffle.
use vstd::prelude::*;

use crate::group::{
    le_u32, le_u64, point_from_bytes, point_sub, point_to_bytes, spec_point_bytes,
    spec_point_from_bytes, spec_points_bytes, spec_points_from_bytes, spec_sub, group_element, Point, Scalar,
};
use crate::keys::{key_sum, lemma_key_sum_remove, slice_range, AggregatedPublicKeys, SerializationError};
use crate::masking::{spec_cipher_bytes, spec_cipher_from_bytes, spec_remask, Ciphertext, MaskedCard};
use crate::setup::Parameters;

use ark_std::rand::Rng;

verus! {

/// `s` is a permutation of `0..s.len()`.
pub open spec fn is_permutation(s: Seq<usize>) -> bool {
    &&& forall|i: int| 0 <= i < s.len() ==> #[trigger] s[i] < s.len()
    &&& forall|i: int, j: int| 0 <= i < j < s.len() ==> s[i] != s[j]
}

/// A uniformly random index below `bound`.
///
/// Calls `Rng::gen_range(0..bound)` of `rand` (through `ark-std`) with
/// system randomness from `getrandom_or_panic`; the documentation of
/// `gen_range` promises a value of the range, which is not empty.
#[verifier::external_body]
fn random_index(bound: usize) -> (i: usize)
    requires
        bound > 0,
    ensures
        i < bound,
{
    getrandom_or_panic::getrandom_or_panic().gen_range(0..bound)
}

/// A permutation of `0..len`: position `i` of the output takes the
/// element at position `mapping[i]` of the input.
#[derive(Clone, Debug)]
pub struct Permutation {
    mapping: Vec<usize>,
}

impl Permutation {
    pub closed spec fn spec_mapping(&self) -> Seq<usize> {
        self.mapping@
    }

    /// The permutation is valid: a bijection of `0..len`.
    pub closed spec fn wf(&self) -> bool {
        is_permutation(self.mapping@)
    }

    pub fn len(&self) -> (n: usize)
        ensures
            n == self.spec_mapping().len(),
    {
        self.mapping.len()
    }

    pub fn mapping(&self) -> (m: &[usize])
        ensures
            m@ == self.spec_mapping(),
    {
        self.mapping.as_slice()
    }

    /// The permutation with the given mapping, where it is one.
    pub fn from_mapping(mapping: Vec<usize>) -> (r: Option<Permutation>)
        ensures
            r is Some <==> is_permutation(mapping@),
            r matches Some(p) ==> p.spec_mapping() == mapping@ && p.wf(),
    {
        let n = mapping.len();
        let mut seen: Vec<bool> = Vec::new();
        let mut k: usize = 0;
        while k < n
            invariant
                k <= n,
                seen@.len() == k,
                forall|t: int| 0 <= t < k ==> !#[trigger] seen@[t],
            decreases n - k,
        {
            seen.push(false);
            k = k + 1;
        }
        let mut i: usize = 0;
        while i < n
            invariant
                n == mapping@.len(),
                seen@.len() == n,
                i <= n,
                forall|a: int| 0 <= a < i ==> #[trigger] mapping@[a] < n,
                forall|a: int, b: int| 0 <= a < b < i ==> mapping@[a] != mapping@[b],
                forall|t: int| 0 <= t < n ==> (#[trigger] seen@[t] <==> exists|a: int| 0 <= a < i && mapping@[a] == t),
            decreases n - i,
        {
            let v = mapping[i];
            if v >= n {
                return None;
            }
            if seen[v] {
                proof {
                    let a = choose|a: int| 0 <= a < i && mapping@[a] == v;
                    assert(mapping@[a] == mapping@[i as int]);
                }
                return None;
            }
            seen.set(v, true);
            proof {
                assert forall|t: int| 0 <= t < n implies (#[trigger] seen@[t] <==> exists|a: int|
                    0 <= a < i + 1 && mapping@[a] == t) by {
                    if t == v {
                        assert(mapping@[i as int] == t);
                    } else if seen@[t] {
                        let a = choose|a: int| 0 <= a < i && mapping@[a] == t;
                        assert(0 <= a < i + 1 && mapping@[a] == t);
                    }
                }
            }
            i = i + 1;
        }
        Some(Permutation { mapping })
    }

    /// A uniformly random permutation of `0..size` (Fisher-Yates).
    pub fn from_rng(size: usize) -> (p: Permutation)
        ensures
            p.wf(),
            p.spec_mapping().len() == size,
    {
        let mut mapping: Vec<usize> = Vec::new();
        let mut k: usize = 0;
        while k < size
            invariant
                k <= size,
                mapping@.len() == k,
                forall|t: int| 0 <= t < k ==> #[trigger] mapping@[t] == t,
            decreases size - k,
        {
            mapping.push(k);
            k = k + 1;
        }
        let mut i: usize = size;
        while i > 1
            invariant
                i <= size,
                mapping@.len() == size,
                is_permutation(mapping@),
            decreases i,
        {
            let j = random_index(i);
            let a = mapping[i - 1];
            let b = mapping[j];
            let ghost before = mapping@;
            mapping.set(i - 1, b);
            mapping.set(j, a);
            proof {
                assert forall|x: int, y: int| 0 <= x < y < size implies mapping@[x] != mapping@[y] by {
                    let sx = if x == i - 1 { j as int } else if x == j { i - 1 } else { x };
                    let sy = if y == i - 1 { j as int } else if y == j { i - 1 } else { y };
                    assert(mapping@[x] == before[sx]);
                    assert(mapping@[y] == before[sy]);
                    assert(sx != sy);
                }
                assert forall|x: int| 0 <= x < size implies #[trigger] mapping@[x] < size by {
                    let sx = if x == i - 1 { j as int } else if x == j { i - 1 } else { x };
                    assert(mapping@[x] == before[sx]);
                }
            }
            i = i - 1;
        }
        Permutation { mapping }
    }

    /// Permute the cards: position `i` takes the card at `mapping[i]`.
    pub fn apply(&self, input: &[MaskedCard]) -> (out: Vec<MaskedCard>)
        requires
            self.wf(),
            self.spec_mapping().len() <= input@.len(),
        ensures
            out@.len() == self.spec_mapping().len(),
            forall|i: int|
                0 <= i < out@.len() ==> #[trigger] out@[i] == input@[self.spec_mapping()[i] as int],
    {
        let mut out: Vec<MaskedCard> = Vec::new();
        let mut i: usize = 0;
        while i < self.mapping.len()
            invariant
                is_permutation(self.mapping@),
                self.mapping@.len() <= input@.len(),
                i <= self.mapping@.len(),
                out@.len() == i,
                forall|k: int| 0 <= k < i ==> #[trigger] out@[k] == input@[self.mapping@[k] as int],
            decreases self.mapping@.len() - i,
        {
            let pi = self.mapping[i];
            out.push(input[pi]);
            i = i + 1;
        }
        out
    }
}

/// The ciphertext `(0, 0)` that pads decks.
pub open spec fn zero_ciphertext() -> Ciphertext {
    Ciphertext(Point::spec_zero(), Point::spec_zero())
}

/// Pad a deck with `padding` ciphertexts `(0, 0)`.
pub fn pad_masked_cards(cards: &mut Vec<MaskedCard>, padding: usize)
    ensures
        final(cards)@.len() == old(cards)@.len() + padding,
        forall|i: int| 0 <= i < old(cards)@.len() ==> #[trigger] final(cards)@[i] == old(cards)@[i],
        forall|i: int|
            old(cards)@.len() <= i < final(cards)@.len() ==> #[trigger] final(cards)@[i]
                == zero_ciphertext(),
{
    let zero_ct = Ciphertext(Point::zero(), Point::zero());
    let mut k: usize = 0;
    while k < padding
        invariant
            zero_ct == zero_ciphertext(),
            k <= padding,
            cards@.len() == old(cards)@.len() + k,
            forall|i: int| 0 <= i < old(cards)@.len() ==> #[trigger] cards@[i] == old(cards)@[i],
            forall|i: int|
                old(cards)@.len() <= i < cards@.len() ==> #[trigger] cards@[i] == zero_ciphertext(),
        decreases padding - k,
    {
        cards.push(zero_ct);
        k = k + 1;
    }
}

/// The statement and witness of a shuffle argument for an `m` by `n`
/// arrangement: the deck, its shuffle, the permutation and the masking
/// factors, each padded to `m * n` entries.
#[derive(Clone, Debug)]
pub struct ShuffleInstance {
    pub deck: Vec<MaskedCard>,
    pub shuffled: Vec<MaskedCard>,
    pub permutation: Vec<usize>,
    pub masking_factors: Vec<Scalar>,
    pub m: usize,
    pub n: usize,
}

impl Parameters {
    /// The mask-shuffle operation underlying mental poker: position `i`
    /// of the result is the card at `permutation[i]` remasked with the
    /// `i`-th masking factor; it stops where the factors run out.
    pub fn permute_and_remask(
        &self,
        shared_key: &Point,
        deck: &[MaskedCard],
        masking_factors: &[Scalar],
        permutation: &Permutation,
    ) -> (out: Vec<MaskedCard>)
        requires
            permutation.wf(),
            permutation.spec_mapping().len() <= deck@.len(),
        ensures
            out@.len() == if permutation.spec_mapping().len() <= masking_factors@.len() {
                permutation.spec_mapping().len()
            } else {
                masking_factors@.len()
            },
            forall|i: int|
                0 <= i < out@.len() ==> #[trigger] out@[i] == spec_remask(
                    self.enc_generator,
                    *shared_key,
                    deck@[permutation.spec_mapping()[i] as int],
                    masking_factors@[i],
                ),
    {
        let permuted_deck = permutation.apply(deck);
        let n = if permuted_deck.len() <= masking_factors.len() {
            permuted_deck.len()
        } else {
            masking_factors.len()
        };
        let mut out: Vec<MaskedCard> = Vec::new();
        let mut i: usize = 0;
        while i < n
            invariant
                n <= permuted_deck@.len(),
                n <= masking_factors@.len(),
                permuted_deck@.len() == permutation.spec_mapping().len(),
                forall|k: int|
                    0 <= k < permuted_deck@.len() ==> #[trigger] permuted_deck@[k]
                        == deck@[permutation.spec_mapping()[k] as int],
                i <= n,
                out@.len() == i,
                forall|k: int|
                    0 <= k < i ==> #[trigger] out@[k] == spec_remask(
                        self.enc_generator,
                        *shared_key,
                        deck@[permutation.spec_mapping()[k] as int],
                        masking_factors@[k],
                    ),
            decreases n - i,
        {
            let c = permuted_deck[i].remask_card(&self.enc_generator, shared_key, &masking_factors[i]);
            out.push(c);
            i = i + 1;
        }
        out
    }

    /// The padded statement and witness that the shuffle argument proves
    /// for a shuffle computed by `permute_and_remask`: with `padding`
    /// extra positions, the permutation fixes them, their masking
    /// factors are zero, and both decks hold `(0, 0)` there.
    pub fn pad_shuffle_instance(
        &self,
        deck: &[MaskedCard],
        shuffled: &[MaskedCard],
        permutation: &Permutation,
        masking_factors: &[Scalar],
        shape: (usize, usize, usize),
    ) -> (inst: ShuffleInstance)
        requires
            permutation.spec_mapping().len() + shape.2 <= usize::MAX,
        ensures
            inst.m == shape.0,
            inst.n == shape.1,
            inst.deck@.len() == deck@.len() + shape.2,
            inst.shuffled@.len() == shuffled@.len() + shape.2,
            inst.permutation@.len() == permutation.spec_mapping().len() + shape.2,
            inst.masking_factors@.len() == masking_factors@.len() + shape.2,
            forall|i: int| 0 <= i < deck@.len() ==> #[trigger] inst.deck@[i] == deck@[i],
            forall|i: int| 0 <= i < shuffled@.len() ==> #[trigger] inst.shuffled@[i] == shuffled@[i],
            forall|i: int|
                deck@.len() <= i < inst.deck@.len() ==> #[trigger] inst.deck@[i] == zero_ciphertext(),
            forall|i: int|
                shuffled@.len() <= i < inst.shuffled@.len() ==> #[trigger] inst.shuffled@[i]
                    == zero_ciphertext(),
            forall|i: int|
                0 <= i < inst.permutation@.len() ==> #[trigger] inst.permutation@[i] == if i
                    < permutation.spec_mapping().len() {
                    permutation.spec_mapping()[i] as int
                } else {
                    i
                },
            forall|i: int|
                0 <= i < masking_factors@.len() ==> #[trigger] inst.masking_factors@[i]
                    == masking_factors@[i],
            forall|i: int|
                masking_factors@.len() <= i < inst.masking_factors@.len()
                    ==> #[trigger] inst.masking_factors@[i] == Scalar::spec_zero(),
    {
        let (m, n, padding) = shape;
        let mut new_permutation: Vec<usize> = vstd::slice::slice_to_vec(permutation.mapping());
        let mut padded_masking_factors: Vec<Scalar> = vstd::slice::slice_to_vec(masking_factors);
        let ghost pm = permutation.spec_mapping();
        let mut k: usize = 0;
        while k < padding
            invariant
                pm == permutation.spec_mapping(),
                pm.len() + padding <= usize::MAX,
                k <= padding,
                new_permutation@.len() == pm.len() + k,
                padded_masking_factors@.len() == masking_factors@.len() + k,
                forall|i: int|
                    0 <= i < new_permutation@.len() ==> #[trigger] new_permutation@[i] == if i
                        < pm.len() {
                        pm[i] as int
                    } else {
                        i
                    },
                forall|i: int|
                    0 <= i < masking_factors@.len() ==> #[trigger] padded_masking_factors@[i]
                        == masking_factors@[i],
                forall|i: int|
                    masking_factors@.len() <= i < padded_masking_factors@.len()
                        ==> #[trigger] padded_masking_factors@[i] == Scalar::spec_zero(),
            decreases padding - k,
        {
            let l = new_permutation.len();
            new_permutation.push(l);
            padded_masking_factors.push(Scalar::zero());
            k = k + 1;
        }
        let mut padded_deck: Vec<MaskedCard> = vstd::slice::slice_to_vec(deck);
        pad_masked_cards(&mut padded_deck, padding);
        let mut padded_shuffled: Vec<MaskedCard> = vstd::slice::slice_to_vec(shuffled);
        pad_masked_cards(&mut padded_shuffled, padding);
        ShuffleInstance {
            deck: padded_deck,
            shuffled: padded_shuffled,
            permutation: new_permutation,
            masking_factors: padded_masking_factors,
            m,
            n,
        }
    }
}

/// The mask of players who have yet to shuffle, for `l` players: the
/// low `l` bits where `l <= 32`, and no bit otherwise.
pub open spec fn initial_mask_has_bit(l: nat, i: nat) -> bool {
    l <= 32 && i < l
}

/// Bit `i` of `m`.
pub open spec fn has_bit(m: u32, i: u32) -> bool {
    (m >> i) & 1u32 == 1u32
}

/// One applied shuffle changes the mask of players who have yet to
/// shuffle from `old` to `new`: a shuffle by the player at index `i`
/// (`r == Some(i)`) clears bit `i`, one by no player (`r == None`)
/// changes nothing.
pub open spec fn mask_step(old: u32, new: u32, r: Option<usize>) -> bool {
    match r {
        None => new == old,
        Some(i) => forall|b: u32| b < 32 ==> (#[trigger] has_bit(new, b) <==> (has_bit(old, b) && b != i)),
    }
}

/// After any sequence of applied shuffles from the start of an
/// accumulation for `l` players, the mask has bit `b` exactly where the
/// initial mask has it and no shuffle came from the player at index `b`.
/// `masks` are the successive masks, `rs` what each application returned.
pub proof fn lemma_remaining_mask(l: nat, masks: Seq<u32>, rs: Seq<Option<usize>>)
    requires
        masks.len() == rs.len() + 1,
        forall|b: u32| b < 32 ==> (#[trigger] has_bit(masks[0], b) <==> initial_mask_has_bit(l, b as nat)),
        forall|k: int| 0 <= k < rs.len() ==> mask_step(masks[k], masks[k + 1], #[trigger] rs[k]),
    ensures
        forall|b: u32|
            b < 32 ==> (#[trigger] has_bit(masks.last(), b) <==> (initial_mask_has_bit(l, b as nat)
                && !rs.contains(Some(b as usize)))),
    decreases rs.len(),
{
    if rs.len() > 0 {
        let (md, rd) = (masks.drop_last(), rs.drop_last());
        assert forall|k: int| 0 <= k < rd.len() implies mask_step(md[k], md[k + 1], #[trigger] rd[k]) by {
            assert(rd[k] == rs[k]);
            assert(mask_step(masks[k], masks[k + 1], rs[k]));
        }
        lemma_remaining_mask(l, md, rd);
        let n = rs.len() - 1;
        assert(mask_step(masks[n], masks[n + 1], rs[n]));
        assert(md.last() == masks[n]);
        assert forall|b: u32| b < 32 implies (#[trigger] has_bit(masks.last(), b) <==> (
        initial_mask_has_bit(l, b as nat) && !rs.contains(Some(b as usize)))) by {
            assert(has_bit(md.last(), b) <==> (initial_mask_has_bit(l, b as nat) && !rd.contains(
                Some(b as usize),
            )));
            if rd.contains(Some(b as usize)) {
                let k = choose|k: int| 0 <= k < rd.len() && rd[k] == Some(b as usize);
                assert(rs[k] == Some(b as usize));
            }
            if rs.contains(Some(b as usize)) {
                let k = choose|k: int| 0 <= k < rs.len() && rs[k] == Some(b as usize);
                if k < n {
                    assert(rd[k] == Some(b as usize));
                }
            }
            if rs[n] == Some(b as usize) {
                assert(rs.contains(Some(b as usize)));
            }
        }
    }
}

/// One applied shuffle changes the remaining key from `old` to `new`: a
/// shuffle by a player (`r` is `Some`) removes the shuffler's key `pk`,
/// one by no player changes nothing.
pub open spec fn key_step(old: Point, new: Point, pk: Point, r: Option<usize>) -> bool {
    match r {
        None => new == old,
        Some(_) => new == spec_sub(old, pk),
    }
}

/// Once every player's key was removed from the aggregate key, once
/// each and in any order, nothing remains: `keys` are the successive
/// remaining keys, starting from the sum of the players' keys, and
/// `pks` the keys removed at each step.
pub proof fn lemma_all_removed(players: Seq<Point>, keys: Seq<Point>, pks: Seq<Point>)
    requires
        forall|i: int| 0 <= i < players.len() ==> group_element(#[trigger] players[i]),
        keys.len() == pks.len() + 1,
        keys[0] == key_sum(players),
        forall|k: int| 0 <= k < pks.len() ==> #[trigger] keys[k + 1] == spec_sub(keys[k], pks[k]),
        pks.to_multiset() == players.to_multiset(),
    ensures
        keys.last() == Point::spec_zero(),
    decreases pks.len(),
{
    vstd::seq_lib::to_multiset_len(players);
    vstd::seq_lib::to_multiset_len(pks);
    if pks.len() > 0 {
        let x = pks[0];
        vstd::seq_lib::to_multiset_contains(pks, x);
        vstd::seq_lib::to_multiset_contains(players, x);
        let j = choose|j: int| 0 <= j < players.len() && players[j] == x;
        let rest = players.remove(j);
        lemma_key_sum_remove(players, j);
        vstd::seq_lib::to_multiset_remove(players, j);
        vstd::seq_lib::to_multiset_remove(pks, 0);
        assert(pks.remove(0) =~= pks.drop_first());
        assert forall|i: int| 0 <= i < rest.len() implies group_element(#[trigger] rest[i]) by {
            if i < j {
                assert(rest[i] == players[i]);
            } else {
                assert(rest[i] == players[i + 1]);
            }
        }
        let (kd, pd) = (keys.drop_first(), pks.drop_first());
        assert forall|k: int| 0 <= k < pd.len() implies #[trigger] kd[k + 1] == spec_sub(kd[k], pd[k]) by {
            assert(keys[k + 1 + 1] == spec_sub(keys[k + 1], pks[k + 1]));
        }
        assert(keys[0int + 1] == spec_sub(keys[0], pks[0]));
        lemma_all_removed(rest, kd, pd);
    } else {
        assert(players =~= Seq::<Point>::empty());
    }
}

impl<'p> AggregatedPublicKeys<'p> {
    /// Start accumulating every player's shuffle of the deck.
    pub fn accumulate_shuffles(self, deck: Vec<MaskedCard>) -> (acc: AccumulateShuffles<'p>)
        ensures
            acc.spec_apk() == self,
            acc.spec_deck() == deck@,
            acc.spec_remaining_key() == self.spec_key(),
            forall|i: u32|
                i < 32 ==> (#[trigger] has_bit(acc.spec_remaining_mask(), i)
                    <==> initial_mask_has_bit(self.spec_players().len(), i as nat)),
    {
        let l = self.players().len();
        let remaining_mask: u32 = if l <= 32 {
            let l64 = l as u64;
            let full: u64 = 1u64 << l64;
            proof {
                assert(1u64 << l64 >= 1) by (bit_vector)
                    requires
                        l64 <= 32,
                ;
            }
            let m = (full - 1) as u32;
            proof {
                assert forall|i: u32| i < 32 implies (#[trigger] has_bit(m, i)
                    <==> initial_mask_has_bit(l as nat, i as nat)) by {
                    assert(((((1u64 << l64) - 1) as u32 >> i) & 1u32 == 1u32) <==> (i as u64)
                        < l64) by (bit_vector)
                        requires
                            i < 32,
                            l64 <= 32,
                    ;
                }
            }
            m
        } else {
            proof {
                assert forall|i: u32| i < 32 implies !#[trigger] has_bit(0u32, i) by {
                    assert((0u32 >> i) & 1u32 != 1u32) by (bit_vector);
                }
            }
            0
        };
        let remaining_key = *self.aggregate_key();
        AccumulateShuffles { apk: self, remaining_mask, remaining_key, deck }
    }
}

/// The accumulation of every player's shuffle: the deck so far, the
/// players who have yet to shuffle (as bits, for up to 32 players), and
/// the aggregate key less the keys of the players who shuffled.
#[derive(Debug)]
pub struct AccumulateShuffles<'p> {
    apk: AggregatedPublicKeys<'p>,
    remaining_mask: u32,
    remaining_key: Point,
    deck: Vec<MaskedCard>,
}

impl<'p> AccumulateShuffles<'p> {
    /// With more than 32 players no bit tracks them: the mask is zero.
    #[verifier::type_invariant]
    closed spec fn mask_fits(&self) -> bool {
        self.apk.spec_players().len() > 32 ==> self.remaining_mask == 0
    }

    pub closed spec fn spec_apk(&self) -> AggregatedPublicKeys<'p> {
        self.apk
    }

    pub closed spec fn spec_remaining_mask(&self) -> u32 {
        self.remaining_mask
    }

    pub closed spec fn spec_remaining_key(&self) -> Point {
        self.remaining_key
    }

    pub closed spec fn spec_deck(&self) -> Seq<MaskedCard> {
        self.deck@
    }

    pub fn parameters(&self) -> (p: &'p Parameters)
        ensures
            *p == self.spec_apk().spec_parameters(),
    {
        self.apk.parameters()
    }

    pub fn apk(&self) -> (a: &AggregatedPublicKeys<'p>)
        ensures
            *a == self.spec_apk(),
    {
        &self.apk
    }

    pub fn remaining_key(&self) -> (k: &Point)
        ensures
            *k == self.spec_remaining_key(),
    {
        &self.remaining_key
    }

    pub fn deck(&self) -> (d: &[MaskedCard])
        ensures
            d@ == self.spec_deck(),
    {
        self.deck.as_slice()
    }

    /// Always returns zero if more than 32 players.
    pub fn remaining_mask(&self) -> (m: u32)
        ensures
            m == self.spec_remaining_mask(),
            self.spec_apk().spec_players().len() > 32 ==> m == 0,
    {
        proof {
            use_type_invariant(self);
        }
        self.remaining_mask
    }

    /// All players shuffled: the remaining key is the identity.
    pub fn is_completed(&self) -> (b: bool)
        ensures
            b == (self.spec_remaining_key() == Point::spec_zero()),
    {
        self.remaining_key.is_zero()
    }

    /// Apply a shuffle whose proof was verified: the deck becomes the
    /// shuffled deck, and where the shuffler `pk` is a player, its bit
    /// is cleared and its key removed from the remaining key.  Returns
    /// the shuffler's index among the players.
    pub fn apply_verified_shuffle(&mut self, pk: &Point, shuffled: &[MaskedCard]) -> (r: Option<usize>)
        ensures
            final(self).spec_deck() == shuffled@,
            final(self).spec_apk() == old(self).spec_apk(),
            r is None <==> !old(self).spec_apk().spec_players().contains(*pk),
            r matches Some(i) ==> crate::keys::is_first_position(
                old(self).spec_apk().spec_players(),
                *pk,
                i as int,
            ),
            r is None ==> final(self).spec_remaining_key() == old(self).spec_remaining_key(),
            r is None ==> final(self).spec_remaining_mask() == old(self).spec_remaining_mask(),
            r is Some ==> final(self).spec_remaining_key() == spec_sub(
                old(self).spec_remaining_key(),
                *pk,
            ),
            r matches Some(i) ==> forall|b: u32|
                b < 32 ==> (#[trigger] has_bit(final(self).spec_remaining_mask(), b) <==> (
                has_bit(old(self).spec_remaining_mask(), b) && b != i)),
            mask_step(old(self).spec_remaining_mask(), final(self).spec_remaining_mask(), r),
            key_step(old(self).spec_remaining_key(), final(self).spec_remaining_key(), *pk, r),
    {
        proof {
            use_type_invariant(&*self);
        }
        self.deck = vstd::slice::slice_to_vec(shuffled);
        let i = match self.apk.player_index(pk) {
            Ok(i) => i,
            Err(_) => {
                return None;
            },
        };
        let old_mask = self.remaining_mask;
        if i < 32 {
            let s = i as u32;
            let new_mask = old_mask & !(1u32 << s);
            proof {
                assert forall|b: u32| b < 32 implies (#[trigger] has_bit(new_mask, b) <==> (
                has_bit(old_mask, b) && b != s)) by {
                    assert((((old_mask & !(1u32 << s)) >> b) & 1u32 == 1u32) <==> (((old_mask
                        >> b) & 1u32 == 1u32) && b != s)) by (bit_vector)
                        requires
                            b < 32,
                            s < 32,
                    ;
                }
                assert(old_mask == 0 ==> old_mask & !(1u32 << s) == 0) by (bit_vector);
            }
            self.remaining_mask = new_mask;
        } else {
            proof {
                assert(old_mask == 0);
                assert forall|b: u32| b < 32 implies !#[trigger] has_bit(0u32, b) by {
                    assert((0u32 >> b) & 1u32 != 1u32) by (bit_vector);
                }
            }
        }
        self.remaining_key = point_sub(&self.remaining_key, pk);
        Some(i)
    }

    /// Once every player shuffled, hand out the aggregation and the
    /// deck; this leaves an empty aggregation and deck behind.
    pub fn completed(&mut self) -> (r: Option<(AggregatedPublicKeys<'p>, Vec<MaskedCard>)>)
        ensures
            r is Some <==> old(self).spec_remaining_key() == Point::spec_zero(),
            r matches Some(p) ==> p.0 == old(self).spec_apk() && p.1@ == old(self).spec_deck(),
            r is Some ==> final(self).spec_apk().spec_players() == Seq::<Point>::empty(),
            r is Some ==> final(self).spec_apk().spec_parameters() == old(self).spec_apk().spec_parameters(),
            r is Some ==> final(self).spec_deck() == Seq::<MaskedCard>::empty(),
            r is None ==> *final(self) == *old(self),
    {
        if !self.is_completed() {
            return None;
        }
        let mut done = AccumulateShuffles {
            apk: self.apk.parameters().create_aggregate_keys(),
            remaining_mask: self.remaining_mask,
            remaining_key: self.remaining_key,
            deck: Vec::new(),
        };
        std::mem::swap(self, &mut done);
        let AccumulateShuffles { apk, deck, .. } = done;
        Some((apk, deck))
    }
}

/// The little-endian bytes of a `u32`.
pub open spec fn u32_bytes(x: u32) -> Seq<u8> {
    seq![
        (x & 0xff) as u8,
        ((x >> 8u32) & 0xff) as u8,
        ((x >> 16u32) & 0xff) as u8,
        ((x >> 24u32) & 0xff) as u8,
    ]
}

/// The little-endian bytes of a `u64`.
pub open spec fn u64_bytes(x: u64) -> Seq<u8> {
    u32_bytes((x & 0xffff_ffff) as u32) + u32_bytes((x >> 32u64) as u32)
}

fn encode_u32(x: u32) -> (v: Vec<u8>)
    ensures
        v@ == u32_bytes(x),
        le_u32(v@, 0) == x,
{
    let v = vec![
        (x & 0xff) as u8,
        ((x >> 8u32) & 0xff) as u8,
        ((x >> 16u32) & 0xff) as u8,
        ((x >> 24u32) & 0xff) as u8,
    ];
    proof {
        assert((x & 0xff) < 256 && ((x >> 8u32) & 0xff) < 256 && ((x >> 16u32) & 0xff) < 256 && ((x
            >> 24u32) & 0xff) < 256) by (bit_vector);
        assert(v@ =~= u32_bytes(x));
        assert(x == (x & 0xff) + 256 * ((x >> 8u32) & 0xff) + 65536 * ((x >> 16u32) & 0xff)
            + 16777216 * ((x >> 24u32) & 0xff)) by (bit_vector);
    }
    v
}

fn encode_u64(x: u64) -> (v: Vec<u8>)
    ensures
        v@ == u64_bytes(x),
        v@.len() == 8,
        le_u64(v@, 0) == x,
{
    proof {
        assert((x & 0xffff_ffff) < 0x1_0000_0000 && (x >> 32u64) < 0x1_0000_0000) by (bit_vector);
    }
    let lo = (x & 0xffff_ffff) as u32;
    let hi = (x >> 32u64) as u32;
    let mut v = encode_u32(lo);
    let mut w = encode_u32(hi);
    let ghost (a, b) = (v@, w@);
    v.append(&mut w);
    proof {
        assert(v@ =~= u64_bytes(x));
        assert(x == (x & 0xffff_ffff) + 4294967296 * (x >> 32u64)) by (bit_vector);
        assert(le_u32(v@, 4) == le_u32(b, 0));
    }
    v
}

fn decode_u64(b: &[u8], i: usize) -> (x: u64)
    requires
        i + 8 <= b@.len(),
    ensures
        x == le_u64(b@, i as int),
{
    let lo = (b[i] as u64) + 256 * (b[i + 1] as u64) + 65536 * (b[i + 2] as u64) + 16777216 * (b[i
        + 3] as u64);
    let hi = (b[i + 4] as u64) + 256 * (b[i + 5] as u64) + 65536 * (b[i + 6] as u64) + 16777216 * (b[i
        + 7] as u64);
    lo + 4294967296 * hi
}

fn decode_u32(b: &[u8], i: usize) -> (x: u32)
    requires
        i + 4 <= b@.len(),
    ensures
        x == le_u32(b@, i as int),
{
    (b[i] as u32) + 256 * (b[i + 1] as u32) + 65536 * (b[i + 2] as u32) + 16777216 * (b[i + 3] as u32)
}

/// The encodings of the cards one after the other.
pub open spec fn cards_bytes(cards: Seq<MaskedCard>) -> Seq<u8>
    decreases cards.len(),
{
    if cards.len() == 0 {
        Seq::empty()
    } else {
        cards_bytes(cards.drop_last()) + spec_cipher_bytes(cards.last())
    }
}

/// The `count` cards decoded from exactly `66 * count` bytes, where each
/// decodes.
pub open spec fn cards_from_bytes(b: Seq<u8>, count: nat) -> Option<Seq<MaskedCard>>
    decreases count,
{
    if count == 0 {
        Some(Seq::empty())
    } else {
        let k = 66 * (count - 1);
        match (cards_from_bytes(b.subrange(0, k), (count - 1) as nat), spec_cipher_from_bytes(
            b.subrange(k, k + 66),
        )) {
            (Some(front), Some(c)) => Some(front.push(c)),
            _ => None,
        }
    }
}

/// The compressed encoding of an accumulation of shuffles: the players'
/// keys, the mask of players yet to shuffle, the remaining key, and the
/// deck (its length as a little-endian `u64`, then each card).
pub open spec fn shuffles_bytes(
    players: Seq<Point>,
    mask: u32,
    key: Point,
    deck: Seq<MaskedCard>,
) -> Seq<u8> {
    spec_points_bytes(players) + u32_bytes(mask) + spec_point_bytes(key) + u64_bytes(deck.len() as u64)
        + cards_bytes(deck)
}

/// The accumulation of shuffles decoded from the start of `b`: players,
/// mask, remaining key and deck, where each part decodes.
pub open spec fn shuffles_from_bytes(b: Seq<u8>) -> Option<(Seq<Point>, u32, Point, Seq<MaskedCard>)> {
    if b.len() < 8 {
        None
    } else {
        let a = 8 + 33 * le_u64(b, 0);
        if b.len() < a + 45 {
            None
        } else {
            let d = le_u64(b, a + 37);
            let start = a + 45;
            if b.len() < start + 66 * d {
                None
            } else {
                match (
                    spec_points_from_bytes(b.subrange(0, a)),
                    spec_point_from_bytes(b.subrange(a + 4, a + 37)),
                    cards_from_bytes(b.subrange(start, start + 66 * d), d as nat),
                ) {
                    (Some(ps), Some(k), Some(cards)) => Some((ps, le_u32(b, a) as u32, k, cards)),
                    _ => None,
                }
            }
        }
    }
}

impl<'p> AccumulateShuffles<'p> {
    /// The compressed encoding of the accumulation.
    pub fn to_bytes(&self) -> (v: Vec<u8>)
        ensures
            v@ == shuffles_bytes(
                self.spec_apk().spec_players(),
                self.spec_remaining_mask(),
                self.spec_remaining_key(),
                self.spec_deck(),
            ),
            shuffles_from_bytes(v@) == Some(
                (
                    self.spec_apk().spec_players(),
                    self.spec_remaining_mask(),
                    self.spec_remaining_key(),
                    self.spec_deck(),
                ),
            ),
            ({
                let a: int = 8 + 33 * self.spec_apk().spec_players().len() as int;
                &&& v@.subrange(0, a) == spec_points_bytes(self.spec_apk().spec_players())
                &&& le_u32(v@, a) == self.spec_remaining_mask()
                &&& v@.subrange(a + 4, a + 37) == spec_point_bytes(self.spec_remaining_key())
                &&& le_u64(v@, a + 37) == self.spec_deck().len()
                &&& v@.subrange(a + 45, v@.len() as int) == cards_bytes(self.spec_deck())
            }),
    {
        proof {
            use_type_invariant(&self.remaining_key);
        }
        let mut v = self.apk.to_bytes();
        let ghost players_bytes = v@;
        let ghost a: int = v@.len() as int;
        let mut m = encode_u32(self.remaining_mask);
        v.append(&mut m);
        let mut k = point_to_bytes(&self.remaining_key);
        let ghost key_bytes = k@;
        v.append(&mut k);
        let n = self.deck.len();
        let mut l = encode_u64(n as u64);
        let ghost len_bytes = l@;
        v.append(&mut l);
        let ghost head = v@;
        let ghost start: int = v@.len() as int;
        let mut i: usize = 0;
        while i < n
            invariant
                n == self.deck@.len(),
                i <= n,
                head.len() == start,
                v@ == head + cards_bytes(self.deck@.take(i as int)),
                cards_bytes(self.deck@.take(i as int)).len() == 66 * i,
                cards_from_bytes(cards_bytes(self.deck@.take(i as int)), i as nat) == Some(
                    self.deck@.take(i as int),
                ),
            decreases n - i,
        {
            let mut c = self.deck[i].to_bytes();
            let ghost cb = c@;
            let ghost before = cards_bytes(self.deck@.take(i as int));
            v.append(&mut c);
            proof {
                let t = self.deck@.take(i + 1);
                assert(t.drop_last() =~= self.deck@.take(i as int));
                let after = cards_bytes(t);
                assert(after =~= before + cb);
                assert(after.subrange(0, 66 * i) =~= before);
                assert(after.subrange(66 * i, 66 * i + 66) =~= cb);
                assert(t =~= self.deck@.take(i as int).push(self.deck@[i as int]));
            }
            i = i + 1;
        }
        proof {
            assert(self.deck@.take(n as int) =~= self.deck@);
            let players = self.apk.spec_players();
            let b = v@;
            assert(b =~= shuffles_bytes(players, self.remaining_mask, self.remaining_key, self.deck@));
            assert(b.subrange(0, a) =~= players_bytes);
            assert(le_u64(b, 0) == le_u64(players_bytes, 0));
            assert(le_u32(b, a) == le_u32(u32_bytes(self.remaining_mask), 0));
            assert(b.subrange(a + 4, a + 37) =~= key_bytes);
            assert(le_u64(b, a + 37) == le_u64(len_bytes, 0));
            assert(b.subrange(start, start + 66 * n) =~= cards_bytes(self.deck@));
        }
        v
    }

    /// Decode an accumulation of shuffles for the given parameters from
    /// the start of `bytes`; the aggregate key is the sum of the decoded
    /// players.  More than 32 players with a mask that is not zero are
    /// refused, since no bit tracks such players.
    pub fn deserialize_compressed(bytes: &[u8], parameters: &'p Parameters) -> (r: Result<
        AccumulateShuffles<'p>,
        SerializationError,
    >)
        ensures
            r is Ok <==> (shuffles_from_bytes(bytes@) matches Some(parts) && (parts.0.len() > 32
                ==> parts.1 == 0)),
            r matches Ok(acc) ==> {
                let parts = shuffles_from_bytes(bytes@)->0;
                &&& acc.spec_apk().spec_parameters() == *parameters
                &&& acc.spec_apk().spec_players() == parts.0
                &&& acc.spec_apk().spec_key() == key_sum(parts.0)
                &&& acc.spec_remaining_mask() == parts.1
                &&& acc.spec_remaining_key() == parts.2
                &&& acc.spec_deck() == parts.3
            },
            r is Err ==> r == Err::<AccumulateShuffles, SerializationError>(
                SerializationError::InvalidData,
            ),
    {
        if bytes.len() < 8 {
            return Err(SerializationError::InvalidData);
        }
        let count = decode_u64(bytes, 0);
        if count > ((bytes.len() - 8) / 33) as u64 {
            return Err(SerializationError::InvalidData);
        }
        let a = 8 + 33 * (count as usize);
        if bytes.len() - a < 45 {
            return Err(SerializationError::InvalidData);
        }
        let d = decode_u64(bytes, a + 37);
        let start = a + 45;
        if d > ((bytes.len() - start) / 66) as u64 {
            return Err(SerializationError::InvalidData);
        }
        let d = d as usize;
        let apk = match AggregatedPublicKeys::deserialize_compressed(slice_range(bytes, 0, a), parameters) {
            Ok(apk) => apk,
            Err(e) => {
                return Err(e);
            },
        };
        let mask = decode_u32(bytes, a);
        let key = match point_from_bytes(slice_range(bytes, a + 4, a + 37)) {
            Some(k) => k,
            None => {
                return Err(SerializationError::InvalidData);
            },
        };
        let ghost cb = bytes@.subrange(start as int, start + 66 * d);
        let mut deck: Vec<MaskedCard> = Vec::new();
        let mut i: usize = 0;
        while i < d
            invariant
                start + 66 * d <= bytes@.len(),
                bytes@.len() == bytes.len(),
                bytes@.len() >= 8,
                start == 8 + 33 * le_u64(bytes@, 0) + 45,
                d == le_u64(bytes@, start - 8),
                cb == bytes@.subrange(start as int, start + 66 * d),
                i <= d,
                cards_from_bytes(cb.subrange(0, 66 * i), i as nat) == Some(deck@),
            decreases d - i,
        {
            proof {
                assert(66 * i + 66 <= 66 * d) by (nonlinear_arith)
                    requires
                        i < d,
                ;
            }
            let from = start + 66 * i;
            let c = match Ciphertext::from_bytes(slice_range(bytes, from, from + 66)) {
                Some(c) => c,
                None => {
                    proof {
                        assert(cb.subrange(0, 66 * (i + 1)).subrange(0, 66 * i) =~= cb.subrange(0, 66 * i));
                        assert(cb.subrange(0, 66 * (i + 1)).subrange(66 * i, 66 * i + 66)
                            =~= bytes@.subrange(from as int, from + 66));
                        lemma_cards_from_bytes_fails(cb, (i + 1) as nat, d as nat);
                    }
                    return Err(SerializationError::InvalidData);
                },
            };
            proof {
                assert(cb.subrange(0, 66 * (i + 1)).subrange(0, 66 * i) =~= cb.subrange(0, 66 * i));
                assert(cb.subrange(0, 66 * (i + 1)).subrange(66 * i, 66 * i + 66)
                    =~= bytes@.subrange(from as int, from + 66));
            }
            deck.push(c);
            i = i + 1;
        }
        proof {
            assert(cb.subrange(0, 66 * d) =~= cb);
        }
        if apk.players().len() > 32 && mask != 0 {
            return Err(SerializationError::InvalidData);
        }
        Ok(AccumulateShuffles { apk, remaining_mask: mask, remaining_key: key, deck })
    }
}

/// Where a prefix of `count` cards fails to decode, so does the whole.
proof fn lemma_cards_from_bytes_fails(b: Seq<u8>, count: nat, total: nat)
    requires
        count <= total,
        b.len() == 66 * total,
        cards_from_bytes(b.subrange(0, 66 * count as int), count) is None,
    ensures
        cards_from_bytes(b, total) is None,
    decreases total - count,
{
    if count < total {
        let k: int = 66 * count as int;
        assert(b.subrange(0, 66 * (count + 1) as int).subrange(0, k) =~= b.subrange(0, k));
        lemma_cards_from_bytes_fails(b, count + 1, total);
    } else {
        assert(b.subrange(0, 66 * count as int) =~= b);
    }
}

} // verus!
