//! Sorting points by a key, and searching sorted keys: keys are
//! sequences of integers of one length, ordered lexicographically.
use vstd::prelude::*;

use crate::group::{point_valid, Point};

verus! {

broadcast use vstd::seq_lib::group_seq_properties;

/// `a` is lexicographically below `b`: they agree up to some position
/// `k`, where `a` is smaller.
pub open spec fn lex_lt(a: Seq<u64>, b: Seq<u64>) -> bool {
    exists|k: int| #[trigger] lex_split(a, b, k)
}

/// `k` is the first position where `a` and `b` differ, and `a` is
/// smaller there.
pub open spec fn lex_split(a: Seq<u64>, b: Seq<u64>, k: int) -> bool {
    &&& 0 <= k < a.len()
    &&& k < b.len()
    &&& a[k] < b[k]
    &&& forall|t: int| 0 <= t < k ==> a[t] == b[t]
}

/// `a` is at most `b`.
pub open spec fn lex_le(a: Seq<u64>, b: Seq<u64>) -> bool {
    !lex_lt(b, a)
}

/// The keys are in non-decreasing order.
pub open spec fn keys_sorted(keys: Seq<Seq<u64>>) -> bool {
    forall|i: int, j: int| 0 <= i < j < keys.len() ==> lex_le(keys[i], keys[j])
}

/// The lexicographic order is transitive.
pub proof fn lemma_lex_lt_transitive(a: Seq<u64>, b: Seq<u64>, c: Seq<u64>)
    requires
        lex_lt(a, b),
        lex_lt(b, c),
    ensures
        lex_lt(a, c),
{
    let k1 = choose|k: int| lex_split(a, b, k);
    let k2 = choose|k: int| lex_split(b, c, k);
    if k1 <= k2 {
        assert(lex_split(a, c, k1));
    } else {
        assert(lex_split(a, c, k2));
    }
}

/// Of two keys of one length, one is below the other, or they are
/// equal.
pub proof fn lemma_lex_total(a: Seq<u64>, b: Seq<u64>)
    requires
        a.len() == b.len(),
    ensures
        lex_lt(a, b) || lex_lt(b, a) || a == b,
        !(lex_lt(a, b) && lex_lt(b, a)),
        lex_lt(a, b) ==> a != b,
{
    if a != b {
        assert(!(a =~= b));
        let k = choose|k: int| 0 <= k < a.len() && a[k] != b[k];
        lemma_first_difference(a, b, k);
    }
    if lex_lt(a, b) && lex_lt(b, a) {
        let k1 = choose|k: int| lex_split(a, b, k);
        let k2 = choose|k: int| lex_split(b, a, k);
        if k1 < k2 {
            assert(b[k1] == a[k1]);
        } else if k2 < k1 {
            assert(a[k2] == b[k2]);
        }
    }
    if lex_lt(a, b) {
        let k1 = choose|k: int| lex_split(a, b, k);
        assert(a[k1] != b[k1]);
    }
}

/// Two orderings of the same valid points that are both sorted by a key
/// that no two different valid points share are the same sequence.
pub proof fn lemma_sorted_unique(a: Seq<Point>, b: Seq<Point>, key: spec_fn(Point) -> Seq<u64>, len: nat)
    requires
        a.to_multiset() == b.to_multiset(),
        keys_sorted(a.map_values(key)),
        keys_sorted(b.map_values(key)),
        forall|x: Point| a.contains(x) ==> (#[trigger] key(x)).len() == len,
        forall|x: Point| a.contains(x) ==> #[trigger] point_valid(x),
        forall|x: Point, y: Point|
            a.contains(x) && point_valid(y) && #[trigger] key(y) == #[trigger] key(x) ==> y == x,
    ensures
        a == b,
    decreases a.len(),
{
    vstd::seq_lib::to_multiset_len(a);
    vstd::seq_lib::to_multiset_len(b);
    if a.len() == 0 {
        assert(a =~= b);
    } else {
        let n = a.len() - 1;
        let x = a[n];
        let y = b[n];
        vstd::seq_lib::to_multiset_contains(a, x);
        vstd::seq_lib::to_multiset_contains(b, x);
        vstd::seq_lib::to_multiset_contains(a, y);
        vstd::seq_lib::to_multiset_contains(b, y);
        assert(a.contains(x));
        assert(b.contains(y));
        let j = choose|j: int| 0 <= j < b.len() && b[j] == x;
        let i = choose|i: int| 0 <= i < a.len() && a[i] == y;
        assert(lex_le(key(x), key(y))) by {
            if j < n {
                assert(b.map_values(key)[j] == key(x));
                assert(b.map_values(key)[n] == key(y));
            } else {
                lemma_lex_total(key(x), key(y));
            }
        }
        assert(lex_le(key(y), key(x))) by {
            if i < n {
                assert(a.map_values(key)[i] == key(y));
                assert(a.map_values(key)[n] == key(x));
            } else {
                lemma_lex_total(key(x), key(y));
            }
        }
        lemma_lex_total(key(x), key(y));
        assert(y == x);
        vstd::seq_lib::to_multiset_remove(a, n);
        vstd::seq_lib::to_multiset_remove(b, n);
        assert(a.remove(n) =~= a.drop_last());
        assert(b.remove(n) =~= b.drop_last());
        let a1 = a.drop_last();
        let b1 = b.drop_last();
        assert(a1.map_values(key) =~= a.map_values(key).drop_last());
        assert(b1.map_values(key) =~= b.map_values(key).drop_last());
        assert forall|u: Point| a1.contains(u) implies a.contains(u) by {
            let t = choose|t: int| 0 <= t < a1.len() && a1[t] == u;
            assert(a[t] == u);
        }
        lemma_sorted_unique(a1, b1, key, len);
        assert forall|t: int| 0 <= t < a.len() implies a[t] == b[t] by {
            if t < n {
                assert(a1[t] == b1[t]);
            }
        }
        assert(a =~= b);
    }
}

proof fn lemma_first_difference(a: Seq<u64>, b: Seq<u64>, k: int)
    requires
        a.len() == b.len(),
        0 <= k < a.len(),
        a[k] != b[k],
    ensures
        lex_lt(a, b) || lex_lt(b, a),
    decreases k,
{
    if forall|t: int| 0 <= t < k ==> a[t] == b[t] {
        if a[k] < b[k] {
            assert(lex_split(a, b, k));
        } else {
            assert(lex_split(b, a, k));
        }
    } else {
        let t = choose|t: int| 0 <= t < k && a[t] != b[t];
        lemma_first_difference(a, b, t);
    }
}

/// Compare two keys of one length: -1, 0 or 1 as `a` is below, equal
/// to, or above `b`.
pub fn compare_keys(a: &[u64], b: &[u64]) -> (r: i8)
    requires
        a@.len() == b@.len(),
    ensures
        r == -1 <==> lex_lt(a@, b@),
        r == 0 <==> a@ == b@,
        r == 1 <==> lex_lt(b@, a@),
        r == -1 || r == 0 || r == 1,
{
    let mut i: usize = 0;
    while i < a.len()
        invariant
            a@.len() == b@.len(),
            i <= a@.len(),
            forall|t: int| 0 <= t < i ==> a@[t] == b@[t],
        decreases a@.len() - i,
    {
        if a[i] < b[i] {
            proof {
                assert(lex_split(a@, b@, i as int));
                lemma_lex_total(a@, b@);
            }
            return -1;
        }
        if b[i] < a[i] {
            proof {
                assert(lex_split(b@, a@, i as int));
                lemma_lex_total(a@, b@);
            }
            return 1;
        }
        i = i + 1;
    }
    proof {
        assert(a@ =~= b@);
        lemma_lex_total(a@, b@);
    }
    0
}

/// Sort points by their keys, stably: insertion sort.  Each key is the
/// key of its point, and all keys have one length.
pub fn sort_by_keys(points: Vec<Point>, keys: Vec<Vec<u64>>, Ghost(key): Ghost<spec_fn(Point) -> Seq<u64>>, Ghost(len): Ghost<nat>) -> (r: (Vec<Point>, Vec<Vec<u64>>))
    requires
        points@.len() == keys@.len(),
        forall|i: int| 0 <= i < keys@.len() ==> #[trigger] keys@[i]@ == key(points@[i]),
        forall|i: int| 0 <= i < keys@.len() ==> (#[trigger] keys@[i])@.len() == len,
    ensures
        r.0@.len() == points@.len(),
        r.1@.len() == points@.len(),
        r.0@.to_multiset() == points@.to_multiset(),
        forall|i: int| 0 <= i < r.1@.len() ==> #[trigger] r.1@[i]@ == key(r.0@[i]),
        keys_sorted(r.0@.map_values(key)),
{
    let mut out: Vec<Point> = Vec::new();
    let mut out_keys: Vec<Vec<u64>> = Vec::new();
    let mut i: usize = 0;
    while i < points.len()
        invariant
            points@.len() == keys@.len(),
            forall|t: int| 0 <= t < keys@.len() ==> #[trigger] keys@[t]@ == key(points@[t]),
            forall|t: int| 0 <= t < keys@.len() ==> (#[trigger] keys@[t])@.len() == len,
            forall|t: int| 0 <= t < out_keys@.len() ==> (#[trigger] out_keys@[t])@.len() == len,
            i <= points@.len(),
            out@.len() == i,
            out_keys@.len() == i,
            out@.to_multiset() == points@.take(i as int).to_multiset(),
            forall|t: int| 0 <= t < out_keys@.len() ==> #[trigger] out_keys@[t]@ == key(out@[t]),
            keys_sorted(out@.map_values(key)),
        decreases points@.len() - i,
    {
        let p = points[i];
        let k = &keys[i];
        let mut pos: usize = 0;
        let mut done = false;
        while !done && pos < out.len()
            invariant
                out@.len() == out_keys@.len(),
                forall|t: int| 0 <= t < out_keys@.len() ==> #[trigger] out_keys@[t]@ == key(out@[t]),
                forall|t: int| 0 <= t < out_keys@.len() ==> (#[trigger] out_keys@[t])@.len() == len,
                k@ == key(p),
                k@.len() == len,
                pos <= out@.len(),
                forall|t: int| 0 <= t < pos ==> lex_le(#[trigger] key(out@[t]), key(p)),
                done ==> pos < out@.len() && lex_lt(key(p), key(out@[pos as int])),
            decreases out@.len() - pos, if done {
                0int
            } else {
                1int
            },
        {
            let c = compare_keys(k.as_slice(), out_keys[pos].as_slice());
            if c == -1 {
                done = true;
            } else {
                proof {
                    lemma_lex_total(key(p), key(out@[pos as int]));
                }
                pos = pos + 1;
            }
        }
        let ghost old_out = out@;
        let ghost old_keys = out_keys@;
        proof {
            assert forall|t: int| 0 <= t < old_out.len() implies #[trigger] key(old_out[t]).len() == len by {
                assert(old_keys[t]@ == key(old_out[t]));
            }
            assert forall|t: int| pos <= t < old_out.len() implies lex_lt(key(p), #[trigger] key(old_out[t])) by {
                if t > pos {
                    let kp = key(p);
                    let kpos = key(old_out[pos as int]);
                    let kt = key(old_out[t]);
                    assert(lex_le(kpos, kt)) by {
                        assert(old_out.map_values(key)[pos as int] == kpos);
                        assert(old_out.map_values(key)[t] == kt);
                    }
                    lemma_lex_total(kpos, kt);
                    if kpos == kt {
                    } else {
                        lemma_lex_lt_transitive(kp, kpos, kt);
                    }
                }
            }
        }
        out.insert(pos, p);
        out_keys.insert(pos, vstd::slice::slice_to_vec(k.as_slice()));
        proof {
            let s = out@.map_values(key);
            assert forall|a: int, b: int| 0 <= a < b < s.len() implies lex_le(s[a], s[b]) by {
                let os = old_out.map_values(key);
                if a < pos && b < pos {
                    assert(s[a] == os[a] && s[b] == os[b]);
                } else if a < pos && b == pos {
                } else if a < pos && b > pos {
                    assert(s[a] == os[a] && s[b] == os[b - 1]);
                    assert(lex_le(os[a], key(p)));
                    assert(lex_lt(key(p), os[b - 1]));
                    lemma_lex_total(os[a], key(p));
                    lemma_lex_total(os[b - 1], key(p));
                    lemma_lex_total(os[a], os[b - 1]);
                    if lex_lt(os[b - 1], os[a]) {
                        if os[a] == key(p) {
                        } else {
                            lemma_lex_lt_transitive(os[a], key(p), os[b - 1]);
                        }
                    }
                } else if a == pos {
                    assert(s[b] == os[b - 1]);
                    assert(lex_lt(key(p), os[b - 1]));
                    lemma_lex_total(key(p), os[b - 1]);
                } else {
                    assert(s[a] == os[a - 1] && s[b] == os[b - 1]);
                }
            }
            assert(points@.take(i + 1) =~= points@.take(i as int).push(p));
            assert forall|t: int| 0 <= t < out_keys@.len() implies (#[trigger] out_keys@[t])@.len() == len by {
                if t < pos {
                    assert(out_keys@[t] == old_keys[t]);
                } else if t > pos {
                    assert(out_keys@[t] == old_keys[t - 1]);
                }
            }
            vstd::seq_lib::to_multiset_insert(old_out, pos as int, p);
        }
        i = i + 1;
    }
    proof {
        assert(points@.take(i as int) =~= points@);
    }
    (out, out_keys)
}

/// Search sorted keys of one length for `target`: some position holding
/// it, or `None` where no position holds it.
pub fn search_sorted(keys: &[Vec<u64>], target: &[u64], Ghost(len): Ghost<nat>) -> (r: Option<usize>)
    requires
        target@.len() == len,
        forall|i: int| 0 <= i < keys@.len() ==> (#[trigger] keys@[i])@.len() == len,
    ensures
        r matches Some(i) ==> i < keys@.len() && keys@[i as int]@ == target@,
        r is None && keys_sorted(keys@.map_values(|k: Vec<u64>| k@)) ==> forall|i: int|
            0 <= i < keys@.len() ==> (#[trigger] keys@[i])@ != target@,
{
    let mut lo: usize = 0;
    let mut hi: usize = keys.len();
    while lo < hi
        invariant
            target@.len() == len,
            forall|i: int| 0 <= i < keys@.len() ==> (#[trigger] keys@[i])@.len() == len,
            lo <= hi <= keys@.len(),
            keys_sorted(keys@.map_values(|k: Vec<u64>| k@)) ==> forall|i: int|
                0 <= i < lo ==> (#[trigger] keys@[i])@ != target@,
            keys_sorted(keys@.map_values(|k: Vec<u64>| k@)) ==> forall|i: int|
                hi <= i < keys@.len() ==> (#[trigger] keys@[i])@ != target@,
        decreases hi - lo,
    {
        let mid = lo + (hi - lo) / 2;
        let c = compare_keys(keys[mid].as_slice(), target);
        if c == 0 {
            return Some(mid);
        }
        proof {
            let ks = keys@.map_values(|k: Vec<u64>| k@);
            lemma_lex_total(keys@[mid as int]@, target@);
            if keys_sorted(ks) {
                if c == -1 {
                    assert forall|i: int| 0 <= i <= mid implies (#[trigger] keys@[i])@ != target@ by {
                        if i < mid {
                            assert(ks[i] == keys@[i]@ && ks[mid as int] == keys@[mid as int]@);
                            assert(lex_le(ks[i], ks[mid as int]));
                        }
                    }
                } else {
                    assert forall|i: int| mid <= i < keys@.len() implies (#[trigger] keys@[i])@ != target@ by {
                        if i > mid {
                            assert(ks[i] == keys@[i]@ && ks[mid as int] == keys@[mid as int]@);
                            assert(lex_le(ks[mid as int], ks[i]));
                        }
                    }
                }
            }
        }
        if c == -1 {
            lo = mid + 1;
        } else {
            hi = mid;
        }
    }
    None
}

} // verus!
