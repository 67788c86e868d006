//! Ordering of a hook's commands into execution waves.
//!
//! The commands of a hook form a dependency graph on their indices: node `x`
//! depends on the nodes listed in `g[x]`. Wave `k` holds the nodes whose
//! dependencies all lie in earlier waves and that are in no earlier wave.
//! Within wave 0 nodes come by index; within a later wave they come by the
//! position, in the previous wave, of their last-placed dependency there,
//! then by index. Commands of one wave may run concurrently.
use vstd::prelude::*;

verus! {

// ---------------------------------------------------------------------------
// Graph model
// ---------------------------------------------------------------------------

/// Every dependency index names a node of the graph.
pub open spec fn graph_wf(g: Seq<Seq<int>>) -> bool {
    forall|x: int, q: int| 0 <= x < g.len() && 0 <= q < g[x].len() ==> 0 <= #[trigger] g[x][q] < g.len()
}

/// The index graph of an executable adjacency list.
pub open spec fn graph_view(d: Seq<Vec<usize>>) -> Seq<Seq<int>> {
    d.map_values(|v: Vec<usize>| v@.map_values(|u: usize| u as int))
}

/// Node `x` is not placed in `done` but all its dependencies are.
pub open spec fn ready(g: Seq<Seq<int>>, done: Set<int>, x: int) -> bool {
    &&& 0 <= x < g.len()
    &&& !done.contains(x)
    &&& forall|q: int| 0 <= q < g[x].len() ==> done.contains(#[trigger] g[x][q])
}

/// The nodes placed in waves `0..k`.
pub open spec fn done_upto(g: Seq<Seq<int>>, k: nat) -> Set<int>
    decreases k,
{
    if k == 0 {
        Set::empty()
    } else {
        let d = done_upto(g, (k - 1) as nat);
        d.union(Set::new(|x: int| ready(g, d, x)))
    }
}

/// The nodes of wave `k`.
pub open spec fn layer(g: Seq<Seq<int>>, k: nat) -> Set<int> {
    Set::new(|x: int| ready(g, done_upto(g, k), x))
}

/// Position of the last element of `prev` that occurs in `ds`, or -1.
pub open spec fn trigger_pos(prev: Seq<int>, ds: Seq<int>) -> int
    decreases prev.len(),
{
    if prev.len() == 0 {
        -1
    } else if ds.contains(prev.last()) {
        prev.len() - 1
    } else {
        trigger_pos(prev.drop_last(), ds)
    }
}

/// The numbers below `m` that satisfy `p`, ascending.
pub open spec fn range_filter(m: nat, p: spec_fn(int) -> bool) -> Seq<int>
    decreases m,
{
    if m == 0 {
        Seq::empty()
    } else {
        let r = range_filter((m - 1) as nat, p);
        if p(m - 1) {
            r.push(m - 1)
        } else {
            r
        }
    }
}

/// Concatenation of a list of lists.
pub open spec fn concat_all(s: Seq<Seq<int>>) -> Seq<int>
    decreases s.len(),
{
    if s.len() == 0 {
        Seq::empty()
    } else {
        concat_all(s.drop_last()) + s.last()
    }
}

/// The nodes of wave `k + 1` whose trigger position in wave `k` is `t`.
pub open spec fn wave_block(g: Seq<Seq<int>>, k: nat, prev: Seq<int>, t: int) -> Seq<int> {
    range_filter(g.len(), |x: int| layer(g, k + 1).contains(x) && trigger_pos(prev, g[x]) == t)
}

/// Wave `k` in execution order.
pub open spec fn wave_seq(g: Seq<Seq<int>>, k: nat) -> Seq<int>
    decreases k,
{
    if k == 0 {
        range_filter(g.len(), |x: int| layer(g, 0).contains(x))
    } else {
        let prev = wave_seq(g, (k - 1) as nat);
        concat_all(Seq::new(prev.len(), |t: int| wave_block(g, (k - 1) as nat, prev, t)))
    }
}

/// `w` is the complete list of waves of `g`: the non-empty waves in order,
/// after which no node is left.
pub open spec fn waves_of(g: Seq<Seq<int>>, w: Seq<Seq<int>>) -> bool {
    &&& forall|k: int| 0 <= k < w.len() ==> #[trigger] w[k] == wave_seq(g, k as nat) && w[k].len() > 0
    &&& layer(g, w.len()) == Set::<int>::empty()
    &&& forall|x: int| 0 <= x < g.len() ==> done_upto(g, w.len()).contains(x)
}

/// A non-empty set of nodes each of which depends on a node of the set:
/// such a set exists exactly when the graph has a cycle.
pub open spec fn closed_set(g: Seq<Seq<int>>, s: Set<int>) -> bool {
    &&& exists|x: int| s.contains(x)
    &&& forall|x: int| s.contains(x) ==> 0 <= x < g.len()
    &&& forall|x: int| s.contains(x) ==> exists|q: int| 0 <= q < g[x].len() && s.contains(#[trigger] g[x][q])
}

/// The dependency graph has a cycle.
pub open spec fn has_cycle(g: Seq<Seq<int>>) -> bool {
    exists|s: Set<int>| closed_set(g, s)
}

// ---------------------------------------------------------------------------
// Lemmas
// ---------------------------------------------------------------------------

proof fn lemma_range_filter(m: nat, p: spec_fn(int) -> bool)
    ensures
        forall|x: int| range_filter(m, p).contains(x) <==> 0 <= x < m && p(x),
        forall|i: int| 0 <= i < range_filter(m, p).len() ==> 0 <= #[trigger] range_filter(m, p)[i] < m,
    decreases m,
{
    if m > 0 {
        lemma_range_filter((m - 1) as nat, p);
        let r = range_filter((m - 1) as nat, p);
        if p(m - 1) {
            assert forall|x: int| #[trigger] r.push(m - 1).contains(x) <==> 0 <= x < m && p(x) by {
                if r.push(m - 1).contains(x) {
                    let i = choose|i: int| 0 <= i < r.push(m - 1).len() && #[trigger] r.push(m - 1)[i] == x;
                    if i < r.len() {
                        assert(r.contains(x));
                    }
                }
                if 0 <= x < m - 1 && p(x) {
                    assert(r.contains(x));
                    let i = choose|i: int| 0 <= i < r.len() && #[trigger] r[i] == x;
                    assert(r.push(m - 1)[i] == x);
                }
                if x == m - 1 {
                    assert(r.push(m - 1)[r.len() as int] == x);
                }
            }
        }
    }
}

proof fn lemma_concat_all(s: Seq<Seq<int>>)
    ensures
        forall|x: int| concat_all(s).contains(x) <==> exists|t: int| 0 <= t < s.len() && #[trigger] s[t].contains(x),
    decreases s.len(),
{
    if s.len() > 0 {
        lemma_concat_all(s.drop_last());
        let a = concat_all(s.drop_last());
        let b = s.last();
        assert forall|x: int| #[trigger] (a + b).contains(x) <==> exists|t: int| 0 <= t < s.len() && #[trigger] s[t].contains(x) by {
            if (a + b).contains(x) {
                let i = choose|i: int| 0 <= i < (a + b).len() && #[trigger] (a + b)[i] == x;
                if i < a.len() {
                    assert(a.contains(x));
                    let t = choose|t: int| 0 <= t < s.drop_last().len() && #[trigger] s.drop_last()[t].contains(x);
                    assert(s[t].contains(x));
                } else {
                    assert(b[i - a.len()] == x);
                    assert(s[s.len() - 1].contains(x));
                }
            }
            if exists|t: int| 0 <= t < s.len() && #[trigger] s[t].contains(x) {
                let t = choose|t: int| 0 <= t < s.len() && #[trigger] s[t].contains(x);
                if t < s.len() - 1 {
                    assert(s.drop_last()[t].contains(x));
                    assert(a.contains(x));
                    let i = choose|i: int| 0 <= i < a.len() && #[trigger] a[i] == x;
                    assert((a + b)[i] == x);
                } else {
                    let i = choose|i: int| 0 <= i < b.len() && #[trigger] b[i] == x;
                    assert((a + b)[a.len() + i] == x);
                }
            }
        }
    }
}

/// `trigger_pos` is -1 exactly when no element of `prev` is in `ds`, and
/// otherwise names such an element.
proof fn lemma_trigger_pos(prev: Seq<int>, ds: Seq<int>)
    ensures
        -1 <= trigger_pos(prev, ds) < prev.len(),
        trigger_pos(prev, ds) >= 0 ==> ds.contains(prev[trigger_pos(prev, ds)]),
        trigger_pos(prev, ds) == -1 <==> forall|p: int| 0 <= p < prev.len() ==> !ds.contains(#[trigger] prev[p]),
    decreases prev.len(),
{
    if prev.len() > 0 {
        lemma_trigger_pos(prev.drop_last(), ds);
        if !ds.contains(prev.last()) {
            assert forall|p: int| 0 <= p < prev.len() - 1 implies prev[p] == prev.drop_last()[p] by {}
        }
    }
}

/// The members of wave `k` are exactly the nodes of layer `k`.
pub proof fn lemma_wave_members(g: Seq<Seq<int>>, k: nat)
    requires
        graph_wf(g),
    ensures
        forall|x: int| wave_seq(g, k).contains(x) <==> layer(g, k).contains(x),
        forall|i: int| 0 <= i < wave_seq(g, k).len() ==> 0 <= #[trigger] wave_seq(g, k)[i] < g.len(),
    decreases k,
{
    if k == 0 {
        lemma_range_filter(g.len(), |x: int| layer(g, 0).contains(x));
    } else {
        let km = (k - 1) as nat;
        lemma_wave_members(g, km);
        let prev = wave_seq(g, km);
        let blocks = Seq::new(prev.len(), |t: int| wave_block(g, km, prev, t));
        lemma_concat_all(blocks);
        assert forall|t: int| #![trigger blocks[t]] 0 <= t < blocks.len() implies forall|x: int|
            #[trigger] blocks[t].contains(x) <==> 0 <= x < g.len() && layer(g, k).contains(x)
                && trigger_pos(prev, g[x]) == t by {
            lemma_range_filter(g.len(), |x: int| layer(g, km + 1).contains(x) && trigger_pos(prev, g[x]) == t);
        }
        assert forall|x: int| wave_seq(g, k).contains(x) <==> layer(g, k).contains(x) by {
            if layer(g, k).contains(x) {
                // x has a dependency in the previous wave: otherwise it would
                // have been ready one wave earlier.
                let d = done_upto(g, km);
                assert(done_upto(g, k) == d.union(layer(g, km)));
                if forall|q: int| 0 <= q < g[x].len() ==> !layer(g, km).contains(#[trigger] g[x][q]) {
                    assert forall|q: int| 0 <= q < g[x].len() implies d.contains(#[trigger] g[x][q]) by {
                        assert(done_upto(g, k).contains(g[x][q]));
                    }
                    assert(ready(g, d, x));
                    assert(layer(g, km).contains(x));
                    assert(done_upto(g, k).contains(x));
                    assert(false);
                }
                let q = choose|q: int| 0 <= q < g[x].len() && layer(g, km).contains(#[trigger] g[x][q]);
                assert(prev.contains(g[x][q]));
                let p = choose|p: int| 0 <= p < prev.len() && #[trigger] prev[p] == g[x][q];
                assert(g[x].contains(prev[p]));
                lemma_trigger_pos(prev, g[x]);
                let t = trigger_pos(prev, g[x]);
                assert(t >= 0);
                assert(blocks[t].contains(x));
            }
            if wave_seq(g, k).contains(x) {
                let t = choose|t: int| 0 <= t < blocks.len() && #[trigger] blocks[t].contains(x);
                assert(blocks[t].contains(x));
            }
        }
        assert forall|i: int| 0 <= i < wave_seq(g, k).len() implies 0 <= #[trigger] wave_seq(g, k)[i] < g.len() by {
            let x = wave_seq(g, k)[i];
            assert(wave_seq(g, k).contains(x));
            assert(layer(g, k).contains(x));
        }
    }
}

/// When every node is placed, no set of nodes is closed.
pub proof fn lemma_no_cycle(g: Seq<Seq<int>>, n_waves: nat)
    requires
        forall|x: int| 0 <= x < g.len() ==> done_upto(g, n_waves).contains(x),
    ensures
        !has_cycle(g),
{
    if has_cycle(g) {
        let s = choose|s: Set<int>| closed_set(g, s);
        lemma_closed_disjoint(g, s, n_waves);
        let x = choose|x: int| s.contains(x);
        assert(done_upto(g, n_waves).contains(x));
    }
}

proof fn lemma_closed_disjoint(g: Seq<Seq<int>>, s: Set<int>, k: nat)
    requires
        closed_set(g, s),
    ensures
        forall|x: int| s.contains(x) ==> !done_upto(g, k).contains(x),
    decreases k,
{
    if k > 0 {
        let km = (k - 1) as nat;
        lemma_closed_disjoint(g, s, km);
        let d = done_upto(g, km);
        assert forall|x: int| s.contains(x) implies !done_upto(g, k).contains(x) by {
            if ready(g, d, x) {
                let q = choose|q: int| 0 <= q < g[x].len() && s.contains(#[trigger] g[x][q]);
                assert(d.contains(g[x][q]));
            }
        }
    }
}

/// When wave `k` is empty and some node is unplaced, the unplaced nodes
/// form a closed set.
pub proof fn lemma_cycle_witness(g: Seq<Seq<int>>, k: nat, y: int)
    requires
        graph_wf(g),
        layer(g, k) == Set::<int>::empty(),
        0 <= y < g.len(),
        !done_upto(g, k).contains(y),
    ensures
        has_cycle(g),
{
    let d = done_upto(g, k);
    let u = Set::new(|x: int| 0 <= x < g.len() && !d.contains(x));
    assert(u.contains(y));
    assert forall|x: int| u.contains(x) implies exists|q: int| 0 <= q < g[x].len() && u.contains(#[trigger] g[x][q]) by {
        if forall|q: int| 0 <= q < g[x].len() ==> !u.contains(#[trigger] g[x][q]) {
            assert forall|q: int| 0 <= q < g[x].len() implies d.contains(#[trigger] g[x][q]) by {
                assert(!u.contains(g[x][q]));
            }
            assert(ready(g, d, x));
            assert(layer(g, k).contains(x));
        }
    }
    assert(closed_set(g, u));
}

// ---------------------------------------------------------------------------
// Executable layering
// ---------------------------------------------------------------------------

/// Number of `true` entries.
pub open spec fn count_true(s: Seq<bool>) -> nat
    decreases s.len(),
{
    if s.len() == 0 {
        0
    } else {
        count_true(s.drop_last()) + if s.last() { 1nat } else { 0nat }
    }
}

proof fn lemma_count_true_bound(s: Seq<bool>)
    ensures
        count_true(s) <= s.len(),
    decreases s.len(),
{
    if s.len() > 0 {
        lemma_count_true_bound(s.drop_last());
    }
}

proof fn lemma_count_true_flip(s: Seq<bool>, i: int)
    requires
        0 <= i < s.len(),
        !s[i],
    ensures
        count_true(s.update(i, true)) == count_true(s) + 1,
    decreases s.len(),
{
    let t = s.update(i, true);
    if i < s.len() - 1 {
        lemma_count_true_flip(s.drop_last(), i);
        assert(t.drop_last() == s.drop_last().update(i, true));
    } else {
        assert(t.drop_last() == s.drop_last());
    }
}

proof fn lemma_count_zero(s: Seq<bool>)
    requires
        forall|i: int| 0 <= i < s.len() ==> !s[i],
    ensures
        count_true(s) == 0,
    decreases s.len(),
{
    if s.len() > 0 {
        lemma_count_zero(s.drop_last());
    }
}

proof fn lemma_all_true(s: Seq<bool>, x: int)
    requires
        count_true(s) == s.len(),
        0 <= x < s.len(),
    ensures
        s[x],
    decreases s.len(),
{
    lemma_count_true_bound(s.drop_last());
    if x < s.len() - 1 {
        lemma_all_true(s.drop_last(), x);
    }
}

proof fn lemma_some_false(s: Seq<bool>) -> (y: int)
    requires
        count_true(s) < s.len(),
    ensures
        0 <= y < s.len(),
        !s[y],
    decreases s.len(),
{
    if s.last() {
        let y = lemma_some_false(s.drop_last());
        y
    } else {
        s.len() - 1
    }
}

/// Whether every dependency of `x` is marked done.
fn deps_done(deps: &Vec<Vec<usize>>, done: &Vec<bool>, x: usize) -> (b: bool)
    requires
        x < deps.len(),
        done.len() == deps.len(),
        graph_wf(graph_view(deps@)),
    ensures
        b == forall|q: int| 0 <= q < graph_view(deps@)[x as int].len() ==> done@[#[trigger] graph_view(deps@)[x as int][q]],
{
    let ghost g = graph_view(deps@);
    let ds = &deps[x];
    assert(g[x as int] == ds@.map_values(|u: usize| u as int));
    let mut q: usize = 0;
    while q < ds.len()
        invariant
            g == graph_view(deps@),
            *ds == deps@[x as int],
            g[x as int] == ds@.map_values(|u: usize| u as int),
            done.len() == deps.len(),
            graph_wf(g),
            x < deps.len(),
            q <= ds.len(),
            forall|j: int| 0 <= j < q ==> done@[#[trigger] g[x as int][j]],
        decreases ds.len() - q,
    {
        let y = ds[q];
        assert(g[x as int][q as int] == y as int);
        if !done[y] {
            return false;
        }
        q = q + 1;
    }
    true
}

/// Whether `v` lists `y`.
fn lists(v: &Vec<usize>, y: usize) -> (b: bool)
    ensures
        b == v@.map_values(|u: usize| u as int).contains(y as int),
{
    let mut i: usize = 0;
    while i < v.len()
        invariant
            i <= v.len(),
            forall|j: int| 0 <= j < i ==> v@[j] != y,
        decreases v.len() - i,
    {
        if v[i] == y {
            assert(v@.map_values(|u: usize| u as int)[i as int] == y as int);
            return true;
        }
        i = i + 1;
    }
    let ghost mv = v@.map_values(|u: usize| u as int);
    assert forall|j: int| 0 <= j < mv.len() implies #[trigger] mv[j] != y as int by {}
    false
}

/// The position in `prev` of the last element that `ds` lists.
fn trigger_position(prev: &Vec<usize>, ds: &Vec<usize>) -> (r: Option<usize>)
    ensures
        match r {
            Some(p) => trigger_pos(prev@.map_values(|u: usize| u as int), ds@.map_values(|u: usize| u as int)) == p,
            None => trigger_pos(prev@.map_values(|u: usize| u as int), ds@.map_values(|u: usize| u as int)) == -1,
        },
{
    let ghost pv = prev@.map_values(|u: usize| u as int);
    let ghost dv = ds@.map_values(|u: usize| u as int);
    let mut last: Option<usize> = None;
    let mut p: usize = 0;
    while p < prev.len()
        invariant
            p <= prev.len(),
            pv == prev@.map_values(|u: usize| u as int),
            dv == ds@.map_values(|u: usize| u as int),
            match last {
                Some(l) => trigger_pos(pv.take(p as int), dv) == l,
                None => trigger_pos(pv.take(p as int), dv) == -1,
            },
        decreases prev.len() - p,
    {
        assert(pv.take(p + 1).drop_last() == pv.take(p as int));
        assert(pv.take(p + 1).last() == prev@[p as int] as int);
        if lists(ds, prev[p]) {
            last = Some(p);
        }
        p = p + 1;
    }
    assert(pv.take(p as int) == pv);
    last
}

/// The waves of the graph `deps`, or `None` when it has a cycle.
pub fn wave_indices(deps: &Vec<Vec<usize>>) -> (r: Option<Vec<Vec<usize>>>)
    requires
        graph_wf(graph_view(deps@)),
    ensures
        match r {
            Some(w) => waves_of(graph_view(deps@), graph_view(w@))
                && !has_cycle(graph_view(deps@)),
            None => has_cycle(graph_view(deps@)),
        },
{
    let ghost g = graph_view(deps@);
    let n = deps.len();
    let mut done: Vec<bool> = Vec::new();
    let mut i: usize = 0;
    while i < n
        invariant
            i <= n,
            done.len() == i,
            forall|j: int| 0 <= j < i ==> !done@[j],
        decreases n - i,
    {
        done.push(false);
        i = i + 1;
    }
    proof {
        assert(count_true(done@) == 0) by {
            lemma_count_zero(done@);
        }
    }
    let mut waves: Vec<Vec<usize>> = Vec::new();
    let mut count: usize = 0;
    loop
        invariant
            g == graph_view(deps@),
            graph_wf(g),
            n == deps.len(),
            done.len() == n,
            count == count_true(done@),
            count <= n,
            forall|x: int| 0 <= x < n ==> (done@[x] <==> done_upto(g, waves.len() as nat).contains(x)),
            forall|k: int| 0 <= k < waves.len() ==> (#[trigger] waves@[k])@.map_values(|u: usize| u as int)
                == wave_seq(g, k as nat) && waves@[k].len() > 0,
        decreases n - count,
    {
        let k = waves.len();
        let ghost dk = done_upto(g, k as nat);
        let ghost lk = layer(g, k as nat);
        let mut next: Vec<usize> = Vec::new();
        if k == 0 {
            let ghost pred = |x: int| layer(g, 0).contains(x);
            let mut x: usize = 0;
            while x < n
                invariant
                    g == graph_view(deps@),
                    graph_wf(g),
                    n == deps.len(),
                    done.len() == n,
                    k == 0,
                    forall|y: int| 0 <= y < n ==> (done@[y] <==> dk.contains(y)),
                    dk == done_upto(g, 0),
                    pred == (|x: int| layer(g, 0).contains(x)),
                    x <= n,
                    next@.map_values(|u: usize| u as int) == range_filter(x as nat, pred),
                decreases n - x,
            {
                let ghost before = next@.map_values(|u: usize| u as int);
                if !done[x] && deps_done(deps, &done, x) {
                    assert(ready(g, dk, x as int));
                    next.push(x);
                    assert(next@.map_values(|u: usize| u as int) =~= before.push(x as int));
                } else {
                    assert(!ready(g, dk, x as int));
                }
                x = x + 1;
            }
        } else {
            let prev = &waves[k - 1];
            let ghost pv = prev@.map_values(|u: usize| u as int);
            assert(pv == wave_seq(g, (k - 1) as nat));
            let ghost blocks = Seq::new(pv.len(), |t: int| wave_block(g, (k - 1) as nat, pv, t));
            assert(wave_seq(g, k as nat) == concat_all(blocks));
            let mut t: usize = 0;
            while t < prev.len()
                invariant
                    g == graph_view(deps@),
                    graph_wf(g),
                    n == deps.len(),
                    done.len() == n,
                    k > 0,
                    forall|y: int| 0 <= y < n ==> (done@[y] <==> dk.contains(y)),
                    dk == done_upto(g, k as nat),
                    pv == prev@.map_values(|u: usize| u as int),
                    blocks == Seq::new(pv.len(), |t: int| wave_block(g, (k - 1) as nat, pv, t)),
                    t <= prev.len(),
                    next@.map_values(|u: usize| u as int) == concat_all(blocks.take(t as int)),
                decreases prev.len() - t,
            {
                let ghost pred = |x: int| layer(g, (k - 1) as nat + 1).contains(x) && trigger_pos(pv, g[x]) == t;
                let ghost start = next@.map_values(|u: usize| u as int);
                let mut x: usize = 0;
                while x < n
                    invariant
                        g == graph_view(deps@),
                        graph_wf(g),
                        n == deps.len(),
                        done.len() == n,
                        k > 0,
                        forall|y: int| 0 <= y < n ==> (done@[y] <==> dk.contains(y)),
                        dk == done_upto(g, k as nat),
                        pv == prev@.map_values(|u: usize| u as int),
                        pred == (|x: int| layer(g, (k - 1) as nat + 1).contains(x) && trigger_pos(pv, g[x]) == t),
                        x <= n,
                        t < prev.len(),
                        next@.map_values(|u: usize| u as int) == start + range_filter(x as nat, pred),
                    decreases n - x,
                {
                    let ghost before = next@.map_values(|u: usize| u as int);
                    let ok = !done[x] && deps_done(deps, &done, x);
                    assert(ok == ready(g, dk, x as int));
                    if ok {
                        let tp = trigger_position(prev, &deps[x]);
                        assert(deps@[x as int]@.map_values(|u: usize| u as int) == g[x as int]);
                        let hit = match tp {
                            Some(p) => p == t,
                            None => false,
                        };
                        if hit {
                            next.push(x);
                            assert(next@.map_values(|u: usize| u as int) =~= before.push(x as int));
                        }
                    }
                    assert(next@.map_values(|u: usize| u as int) =~= start + range_filter((x + 1) as nat, pred));
                    x = x + 1;
                }
                assert(blocks.take(t + 1).drop_last() == blocks.take(t as int));
                assert(blocks.take(t + 1).last() == range_filter(n as nat, pred));
                t = t + 1;
            }
            assert(blocks.take(t as int) == blocks);
        }
        assert(next@.map_values(|u: usize| u as int) == wave_seq(g, k as nat));
        proof {
            lemma_wave_members(g, k as nat);
        }
        if next.len() == 0 {
            proof {
                assert forall|x: int| !lk.contains(x) by {
                    if lk.contains(x) {
                        assert(wave_seq(g, k as nat).contains(x));
                    }
                }
                assert(lk =~= Set::<int>::empty());
            }
            if count == n {
                proof {
                    assert forall|x: int| 0 <= x < n implies done_upto(g, k as nat).contains(x) by {
                        lemma_all_true(done@, x);
                    }
                    lemma_no_cycle(g, k as nat);
                    assert(graph_view(waves@).len() == k);
                }
                let r = Some(waves);
                assert(waves_of(g, graph_view(waves@))) by {
                    let wv = graph_view(waves@);
                    assert forall|kk: int| 0 <= kk < wv.len() implies #[trigger] wv[kk] == wave_seq(g, kk as nat)
                        && wv[kk].len() > 0 by {}
                }
                return r;
            } else {
                proof {
                    let y = lemma_some_false(done@);
                    lemma_cycle_witness(g, k as nat, y);
                }
                return None;
            }
        }
        // Mark the new wave as done.
        let ghost dk1 = done_upto(g, (k + 1) as nat);
        assert(dk1 == dk.union(lk));
        let mut j: usize = 0;
        let ghost count_start = count as nat;
        let ghost old_done = done@;
        let ghost first_new = next@[0] as int;
        assert(next@.map_values(|u: usize| u as int)[0] == first_new);
        assert(wave_seq(g, k as nat).contains(first_new));
        assert forall|i: int| 0 <= i < next.len() implies (#[trigger] next@[i] as int) < n
            && lk.contains(next@[i] as int) by {
            assert(next@.map_values(|u: usize| u as int)[i] == next@[i] as int);
            assert(wave_seq(g, k as nat).contains(next@[i] as int));
        }
        while j < next.len()
            invariant
                n == deps.len(),
                done.len() == n,
                count == count_true(done@),
                count <= n,
                j <= next.len(),
                next.len() > 0,
                forall|i: int| 0 <= i < next.len() ==> (#[trigger] next@[i] as int) < n,
                forall|i: int| 0 <= i < next.len() ==> lk.contains(#[trigger] next@[i] as int),
                forall|y: int| #![trigger done@[y]] 0 <= y < n ==> (done@[y] <==> (dk.contains(y) || exists|i: int|
                    0 <= i < j && #[trigger] next@[i] as int == y)),
                lk.contains(first_new),
                !dk.contains(first_new),
                first_new == next@[0] as int,
                j > 0 ==> done@[first_new],
                forall|y: int| 0 <= y < n && dk.contains(y) ==> done@[y],
                count_start <= count,
                j > 0 ==> count_start < count,
                count_start == count_true(old_done),
                old_done.len() == n,
                forall|y: int| 0 <= y < n && !old_done[y] && done@[y] ==> exists|i: int| 0 <= i < j && #[trigger] next@[i] as int == y,
            decreases next.len() - j,
        {
            let y = next[j];
            let ghost prev_done = done@;
            if !done[y] {
                proof {
                    lemma_count_true_flip(done@, y as int);
                    lemma_count_true_bound(done@.update(y as int, true));
                }
                done.set(y, true);
                count = count + 1;
            }
            proof {
                assert forall|yy: int| #![trigger done@[yy]] 0 <= yy < n implies (done@[yy] <==> (dk.contains(yy) || exists|i: int|
                    0 <= i < j + 1 && #[trigger] next@[i] as int == yy)) by {
                    if yy == y as int {
                        assert(next@[j as int] as int == yy);
                    } else {
                        assert(done@[yy] == prev_done[yy]);
                        assert(prev_done[yy] <==> (dk.contains(yy) || exists|i: int|
                            0 <= i < j && #[trigger] next@[i] as int == yy));
                        if exists|i: int| 0 <= i < j + 1 && #[trigger] next@[i] as int == yy {
                            let i = choose|i: int| 0 <= i < j + 1 && #[trigger] next@[i] as int == yy;
                            assert(i != j);
                            assert(0 <= i < j && next@[i] as int == yy);
                        }
                        if exists|i: int| 0 <= i < j && #[trigger] next@[i] as int == yy {
                            let i = choose|i: int| 0 <= i < j && #[trigger] next@[i] as int == yy;
                            assert(0 <= i < j + 1 && next@[i] as int == yy);
                        }
                    }
                }
                assert forall|yy: int| 0 <= yy < n && !old_done[yy] && done@[yy] implies exists|i: int|
                    0 <= i < j + 1 && #[trigger] next@[i] as int == yy by {
                    if yy == y as int {
                        assert(next@[j as int] as int == yy);
                    } else {
                        assert(done@[yy] == prev_done[yy]);
                    }
                }
            }
            j = j + 1;
        }
        proof {
            assert forall|x: int| 0 <= x < n implies (done@[x] <==> dk1.contains(x)) by {
                if lk.contains(x) {
                    assert(wave_seq(g, k as nat).contains(x));
                    let i = choose|i: int| 0 <= i < wave_seq(g, k as nat).len() && #[trigger] wave_seq(g, k as nat)[i] == x;
                    assert(next@.map_values(|u: usize| u as int)[i] == x);
                    assert(next@[i] as int == x);
                }
            }
        }
        waves.push(next);
        proof {
            assert forall|kk: int| 0 <= kk < waves.len() implies (#[trigger] waves@[kk])@.map_values(
                |u: usize| u as int,
            ) == wave_seq(g, kk as nat) && waves@[kk].len() > 0 by {}
        }
    }
}

// ---------------------------------------------------------------------------
// What a wave plan guarantees
// ---------------------------------------------------------------------------

proof fn lemma_done_upto_layers(g: Seq<Seq<int>>, k: nat, x: int)
    requires
        done_upto(g, k).contains(x),
    ensures
        exists|j: nat| j < k && #[trigger] layer(g, j).contains(x),
    decreases k,
{
    let km = (k - 1) as nat;
    if done_upto(g, km).contains(x) {
        lemma_done_upto_layers(g, km, x);
        let j = choose|j: nat| j < km && #[trigger] layer(g, j).contains(x);
        assert(layer(g, j).contains(x));
    } else {
        assert(layer(g, km).contains(x));
    }
}

proof fn lemma_done_upto_grows(g: Seq<Seq<int>>, j: nat, k: nat, x: int)
    requires
        j <= k,
        done_upto(g, j).contains(x),
    ensures
        done_upto(g, k).contains(x),
    decreases k - j,
{
    if j < k {
        lemma_done_upto_grows(g, j, (k - 1) as nat, x);
    }
}

/// Every dependency of a command runs in an earlier wave: for node `w[k][i]`
/// and its dependency `q`, some wave `j < k` holds that dependency.
pub proof fn law_waves_respect_dependencies(g: Seq<Seq<int>>, w: Seq<Seq<int>>, k: int, i: int, q: int)
    requires
        graph_wf(g),
        waves_of(g, w),
        0 <= k < w.len(),
        0 <= i < w[k].len(),
        0 <= q < g[w[k][i]].len(),
    ensures
        exists|j: int, p: int| 0 <= j < k && 0 <= p < w[j].len() && #[trigger] w[j][p] == g[w[k][i]][q],
{
    let x = w[k][i];
    assert(w[k] == wave_seq(g, k as nat));
    lemma_wave_members(g, k as nat);
    assert(wave_seq(g, k as nat).contains(x));
    assert(layer(g, k as nat).contains(x));
    let d = g[x][q];
    assert(done_upto(g, k as nat).contains(d));
    lemma_done_upto_layers(g, k as nat, d);
    let j = choose|j: nat| j < k as nat && #[trigger] layer(g, j).contains(d);
    lemma_wave_members(g, j);
    assert(wave_seq(g, j).contains(d));
    assert(w[j as int] == wave_seq(g, j));
    let p = choose|p: int| 0 <= p < w[j as int].len() && w[j as int][p] == d;
    assert(w[j as int][p] == g[w[k][i]][q]);
}

/// Every command runs in exactly one wave.
pub proof fn law_waves_place_each_once(g: Seq<Seq<int>>, w: Seq<Seq<int>>, x: int)
    requires
        graph_wf(g),
        waves_of(g, w),
        0 <= x < g.len(),
    ensures
        exists|k: int| 0 <= k < w.len() && #[trigger] w[k].contains(x),
        forall|j: int, k: int| 0 <= j < w.len() && 0 <= k < w.len() && w[j].contains(x) && w[k].contains(x) ==> j == k,
{
    assert(done_upto(g, w.len()).contains(x));
    lemma_done_upto_layers(g, w.len(), x);
    let k = choose|k: nat| k < w.len() && #[trigger] layer(g, k).contains(x);
    lemma_wave_members(g, k);
    assert(w[k as int] == wave_seq(g, k));
    assert(w[k as int].contains(x));
    assert forall|j: int, k2: int| 0 <= j < w.len() && 0 <= k2 < w.len() && w[j].contains(x) && w[k2].contains(x) implies j == k2 by {
        lemma_wave_members(g, j as nat);
        lemma_wave_members(g, k2 as nat);
        assert(w[j] == wave_seq(g, j as nat));
        assert(w[k2] == wave_seq(g, k2 as nat));
        assert(layer(g, j as nat).contains(x));
        assert(layer(g, k2 as nat).contains(x));
        if j < k2 {
            assert(done_upto(g, (j + 1) as nat).contains(x));
            lemma_done_upto_grows(g, (j + 1) as nat, k2 as nat, x);
        } else if k2 < j {
            assert(done_upto(g, (k2 + 1) as nat).contains(x));
            lemma_done_upto_grows(g, (k2 + 1) as nat, j as nat, x);
        }
    }
}

} // verus!
