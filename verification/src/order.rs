//! The order of string keys (code point by code point, as `String`'s `Ord`
//! and a `BTreeMap` keyed by strings use it), and sorting by it.
use vstd::prelude::*;
use crate::text::{chars_of, str_eq};

verus! {

/// `a` comes strictly before `b`: at the first difference `a` has the smaller
/// character, or `a` is a proper prefix of `b`.
pub open spec fn lex_lt(a: Seq<char>, b: Seq<char>) -> bool
    decreases a.len(),
{
    if b.len() == 0 {
        false
    } else if a.len() == 0 {
        true
    } else if a[0] != b[0] {
        a[0] < b[0]
    } else {
        lex_lt(a.drop_first(), b.drop_first())
    }
}

/// `lex_lt` is irreflexive and total: of two different keys exactly one
/// comes first.
pub proof fn lemma_lex_total(a: Seq<char>, b: Seq<char>)
    ensures
        !lex_lt(a, a),
        a != b ==> (lex_lt(a, b) != lex_lt(b, a)),
        a == b ==> !lex_lt(a, b),
    decreases a.len(),
{
    if a.len() > 0 {
        lemma_lex_total(a.drop_first(), a.drop_first());
    }
    if a != b && a.len() > 0 && b.len() > 0 && a[0] == b[0] {
        lemma_lex_total(a.drop_first(), b.drop_first());
        if a.drop_first() == b.drop_first() {
            assert(a =~= seq![a[0]] + a.drop_first());
            assert(b =~= seq![b[0]] + b.drop_first());
        }
    }
    if a.len() == 0 && b.len() == 0 {
        assert(a =~= b);
    }
}

/// `lex_lt` is transitive.
pub proof fn lemma_lex_trans(a: Seq<char>, b: Seq<char>, c: Seq<char>)
    requires
        lex_lt(a, b),
        lex_lt(b, c),
    ensures
        lex_lt(a, c),
    decreases a.len(),
{
    if a.len() > 0 && b.len() > 0 && c.len() > 0 && a[0] == b[0] && b[0] == c[0] {
        lemma_lex_trans(a.drop_first(), b.drop_first(), c.drop_first());
    }
}

/// Whether `a` comes strictly before `b`.
pub fn str_lt(a: &str, b: &str) -> (r: bool)
    ensures
        r == lex_lt(a@, b@),
{
    let av = chars_of(a);
    let bv = chars_of(b);
    let mut i: usize = 0;
    assert(a@.skip(0) =~= a@);
    assert(b@.skip(0) =~= b@);
    while i < av.len() && i < bv.len() && av[i] == bv[i]
        invariant
            av@ == a@,
            bv@ == b@,
            i <= av.len(),
            i <= bv.len(),
            lex_lt(a@, b@) == lex_lt(a@.skip(i as int), b@.skip(i as int)),
        decreases av.len() - i,
    {
        assert(a@.skip(i as int).drop_first() =~= a@.skip(i + 1));
        assert(b@.skip(i as int).drop_first() =~= b@.skip(i + 1));
        i = i + 1;
    }
    if i == bv.len() {
        false
    } else if i == av.len() {
        true
    } else {
        assert(a@.skip(i as int)[0] == av@[i as int]);
        assert(b@.skip(i as int)[0] == bv@[i as int]);
        av[i] < bv[i]
    }
}

/// Each key comes strictly before the next: sorted, with no key twice.
pub open spec fn strictly_sorted(keys: Seq<Seq<char>>) -> bool {
    forall|a: int, b: int| 0 <= a < b < keys.len() ==> lex_lt(#[trigger] keys[a], #[trigger] keys[b])
}

/// The distinct keys of `keys`, in key order (a sort followed by removing
/// repeated keys).
pub fn sorted_unique(keys: &Vec<String>) -> (r: Vec<String>)
    ensures
        strictly_sorted(r@.map_values(|k: String| k@)),
        forall|j: int| 0 <= j < keys.len() ==> r@.map_values(|k: String| k@).contains(#[trigger] keys@[j]@),
        forall|a: int| 0 <= a < r.len() ==> keys@.map_values(|k: String| k@).contains(#[trigger] r@[a]@),
{
    let ghost kv = keys@.map_values(|k: String| k@);
    let order = sort_positions(keys);
    let ghost n = keys@.len();
    let mut out: Vec<String> = Vec::new();
    let mut i: usize = 0;
    while i < order.len()
        invariant
            kv == keys@.map_values(|k: String| k@),
            sorted_positions(kv, order@),
            i <= order.len(),
            strictly_sorted(out@.map_values(|k: String| k@)),
            (i == 0) == (out@.len() == 0),
            i > 0 ==> out@.last()@ == kv[order@[i - 1] as int],
            forall|j: int| 0 <= j < i ==> out@.map_values(|k: String| k@).contains(#[trigger] kv[order@[j] as int]),
            forall|a: int| 0 <= a < out.len() ==> kv.contains(#[trigger] out@[a]@),
        decreases order.len() - i,
    {
        let p = order[i];
        let ghost rv = out@.map_values(|k: String| k@);
        let fresh = out.len() == 0 || !str_eq(out[out.len() - 1].as_str(), keys[p].as_str());
        if fresh {
            let key = keys[p].clone();
            proof {
                if i > 0 {
                    assert(key_before(kv, order@[i - 1] as int, order@[i as int] as int));
                    let last = out@.last()@;
                    assert(lex_lt(last, kv[p as int]));
                    assert forall|a: int| 0 <= a < rv.len() implies lex_lt(#[trigger] rv[a], kv[p as int]) by {
                        if a < rv.len() - 1 {
                            assert(lex_lt(rv[a], rv[rv.len() - 1]));
                            lemma_lex_trans(rv[a], last, kv[p as int]);
                        }
                    }
                }
            }
            out.push(key);
            proof {
                let nv = out@.map_values(|k: String| k@);
                assert(nv =~= rv.push(kv[p as int]));
                assert forall|j: int| 0 <= j <= i implies nv.contains(#[trigger] kv[order@[j] as int]) by {
                    if j < i {
                        let a = choose|a: int| 0 <= a < rv.len() && rv[a] == kv[order@[j] as int];
                        assert(nv[a] == rv[a]);
                    } else {
                        assert(nv[nv.len() - 1] == kv[p as int]);
                    }
                }
                assert(kv[p as int] == keys@[p as int]@);
            }
        } else {
            proof {
                assert(out@.last()@ == kv[p as int]);
                assert forall|j: int| 0 <= j <= i implies rv.contains(#[trigger] kv[order@[j] as int]) by {
                    if j == i {
                        assert(rv[rv.len() - 1] == kv[p as int]);
                    }
                }
            }
        }
        i = i + 1;
    }
    proof {
        broadcast use vstd::seq_lib::group_to_multiset_ensures;

        let ids = Seq::new(n, |x: int| x as usize);
        assert forall|j: int| 0 <= j < keys.len() implies out@.map_values(|k: String| k@).contains(
            #[trigger] keys@[j]@,
        ) by {
            assert(ids[j] == j as usize);
            assert(ids.contains(j as usize));
            assert(order@.to_multiset().count(j as usize) > 0);
            assert(order@.contains(j as usize));
            let q = choose|q: int| 0 <= q < order@.len() && order@[q] == j as usize;
            assert(kv[order@[q] as int] == keys@[j]@);
        }
    }
    out
}

/// Key `i` and its position `p` are in order before key `j` at position `q`:
/// a smaller key, or the same key met earlier.
pub open spec fn key_before(keys: Seq<Seq<char>>, i: int, j: int) -> bool {
    lex_lt(keys[i], keys[j]) || (keys[i] == keys[j] && i < j)
}

/// The positions `0..n` of `keys` in key order, equal keys in their given
/// order (a stable sort).
pub open spec fn sorted_positions(keys: Seq<Seq<char>>, order: Seq<usize>) -> bool {
    &&& order.len() == keys.len()
    &&& order.to_multiset() == Seq::new(keys.len(), |i: int| i as usize).to_multiset()
    &&& forall|i: int| 0 <= i < order.len() ==> order[i] < keys.len()
    &&& forall|i: int, j: int| 0 <= i < j < order.len() ==> key_before(keys, order[i] as int, order[j] as int)
}

/// Positions of `keys` in key order (stable).
pub fn sort_positions(keys: &Vec<String>) -> (order: Vec<usize>)
    ensures
        sorted_positions(keys@.map_values(|k: String| k@), order@),
{
    let ghost kv = keys@.map_values(|k: String| k@);
    let mut order: Vec<usize> = Vec::new();
    let mut k: usize = 0;
    assert(order@.to_multiset() =~= Seq::new(0, |i: int| i as usize).to_multiset()) by {
        assert(order@ =~= Seq::new(0, |i: int| i as usize));
    }
    while k < keys.len()
        invariant
            kv == keys@.map_values(|k: String| k@),
            k <= keys.len(),
            order@.len() == k,
            order@.to_multiset() == Seq::new(k as nat, |i: int| i as usize).to_multiset(),
            forall|i: int| 0 <= i < order@.len() ==> order@[i] < k,
            forall|i: int, j: int| 0 <= i < j < order@.len() ==> key_before(kv, order@[i] as int, order@[j] as int),
        decreases keys.len() - k,
    {
        let mut p: usize = 0;
        while p < order.len() && !str_lt(keys[k].as_str(), keys[order[p]].as_str())
            invariant
                kv == keys@.map_values(|k: String| k@),
                k < keys.len(),
                p <= order@.len(),
                forall|i: int| 0 <= i < order@.len() ==> order@[i] < k,
                forall|q: int| 0 <= q < p ==> !lex_lt(kv[k as int], kv[order@[q] as int]),
            decreases order.len() - p,
        {
            p = p + 1;
        }
        let ghost old_order = order@;
        order.insert(p, k);
        assert(order@ == old_order.insert(p as int, k));
        proof {
            vstd::seq_lib::to_multiset_insert(old_order, p as int, k);
            vstd::seq_lib::to_multiset_build(Seq::new(k as nat, |i: int| i as usize), k);
        }
        assert(order@.to_multiset() == old_order.to_multiset().insert(k));
        assert(Seq::new((k + 1) as nat, |i: int| i as usize) =~= Seq::new(k as nat, |i: int| i as usize).push(
            k,
        ));
        assert(Seq::new((k + 1) as nat, |i: int| i as usize).to_multiset() == Seq::new(k as nat, |i: int| i as usize).push(
            k,
        ).to_multiset());
        assert forall|i: int, j: int| 0 <= i < j < order@.len() implies key_before(
            kv,
            order@[i] as int,
            order@[j] as int,
        ) by {
            let oi = order@[i] as int;
            let oj = order@[j] as int;
            if i < p && j < p {
                assert(order@[i] == old_order[i] && order@[j] == old_order[j]);
            } else if i < p && j == p {
                assert(order@[i] == old_order[i]);
                lemma_lex_total(kv[k as int], kv[oi]);
            } else if i < p && j > p {
                assert(order@[i] == old_order[i] && order@[j] == old_order[j - 1]);
            } else if i == p {
                assert(order@[j] == old_order[j - 1]);
                assert(lex_lt(kv[k as int], kv[old_order[p as int] as int]));
                if j - 1 > p {
                    assert(key_before(kv, old_order[p as int] as int, old_order[j - 1] as int));
                    if lex_lt(kv[old_order[p as int] as int], kv[old_order[j - 1] as int]) {
                        lemma_lex_trans(
                            kv[k as int],
                            kv[old_order[p as int] as int],
                            kv[old_order[j - 1] as int],
                        );
                    }
                }
            } else {
                assert(order@[i] == old_order[i - 1] && order@[j] == old_order[j - 1]);
            }
        }
        k = k + 1;
    }
    assert(kv.len() == keys@.len());
    order
}

/// Position `i` is in order before position `j` by number: a smaller
/// number, or the same number met earlier.
pub open spec fn num_before(keys: Seq<u64>, i: int, j: int) -> bool {
    keys[i] < keys[j] || (keys[i] == keys[j] && i < j)
}

/// The positions `0..n` of `keys` in increasing order of the numbers, equal
/// numbers in their given order (a stable sort).
pub open spec fn sorted_by_number(keys: Seq<u64>, order: Seq<usize>) -> bool {
    &&& order.len() == keys.len()
    &&& order.to_multiset() == Seq::new(keys.len(), |i: int| i as usize).to_multiset()
    &&& forall|i: int| 0 <= i < order.len() ==> order[i] < keys.len()
    &&& forall|i: int, j: int| 0 <= i < j < order.len() ==> num_before(keys, order[i] as int, order[j] as int)
}

/// Positions of `keys` in increasing order of the numbers (stable).
pub fn sort_positions_by_number(keys: &Vec<u64>) -> (order: Vec<usize>)
    ensures
        sorted_by_number(keys@, order@),
{
    let ghost kv = keys@;
    let mut order: Vec<usize> = Vec::new();
    let mut k: usize = 0;
    assert(order@.to_multiset() =~= Seq::new(0, |i: int| i as usize).to_multiset()) by {
        assert(order@ =~= Seq::new(0, |i: int| i as usize));
    }
    while k < keys.len()
        invariant
            kv == keys@,
            k <= keys.len(),
            order@.len() == k,
            order@.to_multiset() == Seq::new(k as nat, |i: int| i as usize).to_multiset(),
            forall|i: int| 0 <= i < order@.len() ==> order@[i] < k,
            forall|i: int, j: int| 0 <= i < j < order@.len() ==> num_before(kv, order@[i] as int, order@[j] as int),
        decreases keys.len() - k,
    {
        let mut p: usize = 0;
        while p < order.len() && keys[order[p]] <= keys[k]
            invariant
                kv == keys@,
                k < keys.len(),
                p <= order@.len(),
                forall|i: int| 0 <= i < order@.len() ==> order@[i] < k,
                forall|q: int| 0 <= q < p ==> kv[order@[q] as int] <= kv[k as int],
            decreases order.len() - p,
        {
            p = p + 1;
        }
        let ghost old_order = order@;
        order.insert(p, k);
        assert(order@ == old_order.insert(p as int, k));
        proof {
            vstd::seq_lib::to_multiset_insert(old_order, p as int, k);
            vstd::seq_lib::to_multiset_build(Seq::new(k as nat, |i: int| i as usize), k);
        }
        assert(Seq::new((k + 1) as nat, |i: int| i as usize) =~= Seq::new(k as nat, |i: int| i as usize).push(
            k,
        ));
        assert forall|i: int, j: int| 0 <= i < j < order@.len() implies num_before(
            kv,
            order@[i] as int,
            order@[j] as int,
        ) by {
            if i < p && j < p {
                assert(order@[i] == old_order[i] && order@[j] == old_order[j]);
            } else if i < p && j == p {
                assert(order@[i] == old_order[i]);
            } else if i < p && j > p {
                assert(order@[i] == old_order[i] && order@[j] == old_order[j - 1]);
            } else if i == p {
                assert(order@[j] == old_order[j - 1]);
                assert(kv[old_order[p as int] as int] > kv[k as int]);
                if j - 1 > p {
                    assert(num_before(kv, old_order[p as int] as int, old_order[j - 1] as int));
                }
            } else {
                assert(order@[i] == old_order[i - 1] && order@[j] == old_order[j - 1]);
            }
        }
        k = k + 1;
    }
    order
}

} // verus!
