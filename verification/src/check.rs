//! Checks and ordering applied to the commands of a hook before they run:
//! dependency validation, execution waves, and cycle reporting.
use vstd::prelude::*;

use crate::config::{Command, CommandView, commands_view, strs_view};
use crate::text::{str_eq, string_of, push_str, join, join_strings};
use crate::waves::{graph_view, graph_wf, wave_indices, waves_of, has_cycle, closed_set};

verus! {

// ---------------------------------------------------------------------------
// Names and dependency indices
// ---------------------------------------------------------------------------

/// The names of a list of commands.
pub open spec fn cmd_names(c: Seq<CommandView>) -> Seq<Seq<char>> {
    c.map_values(|x: CommandView| x.name)
}

/// Index of the last command named `d`, or -1 (a name seen twice refers to
/// its last occurrence).
pub open spec fn last_named(names: Seq<Seq<char>>, d: Seq<char>) -> int
    decreases names.len(),
{
    if names.len() == 0 {
        -1
    } else if names.last() == d {
        names.len() - 1
    } else {
        last_named(names.drop_last(), d)
    }
}

/// Every dependency names a command of the list.
pub open spec fn deps_known(c: Seq<CommandView>) -> bool {
    forall|i: int, q: int|
        0 <= i < c.len() && 0 <= q < c[i].depends.len() ==> #[trigger] last_named(cmd_names(c), c[i].depends[q]) >= 0
}

/// The dependency graph of a command list whose dependencies are all known.
pub open spec fn dep_graph(c: Seq<CommandView>) -> Seq<Seq<int>> {
    Seq::new(c.len(), |i: int| c[i].depends.map_values(|d: Seq<char>| last_named(cmd_names(c), d)))
}

/// The dependency indices of `ds`, dependencies naming no command left out.
pub open spec fn resolved_deps(names: Seq<Seq<char>>, ds: Seq<Seq<char>>) -> Seq<int>
    decreases ds.len(),
{
    if ds.len() == 0 {
        Seq::empty()
    } else {
        let r = resolved_deps(names, ds.drop_last());
        let j = last_named(names, ds.last());
        if j >= 0 {
            r.push(j)
        } else {
            r
        }
    }
}

/// The dependency graph of any command list, unknown dependencies dropped.
pub open spec fn known_dep_graph(c: Seq<CommandView>) -> Seq<Seq<int>> {
    Seq::new(c.len(), |i: int| resolved_deps(cmd_names(c), c[i].depends))
}

proof fn lemma_last_named(names: Seq<Seq<char>>, d: Seq<char>)
    ensures
        -1 <= last_named(names, d) < names.len(),
        last_named(names, d) >= 0 ==> names[last_named(names, d)] == d,
        last_named(names, d) == -1 <==> !names.contains(d),
    decreases names.len(),
{
    if names.len() > 0 {
        lemma_last_named(names.drop_last(), d);
        if names.last() != d {
            if names.contains(d) {
                let i = choose|i: int| 0 <= i < names.len() && #[trigger] names[i] == d;
                assert(names.drop_last()[i] == d);
            }
        }
    }
}

proof fn lemma_resolved_deps(names: Seq<Seq<char>>, ds: Seq<Seq<char>>)
    ensures
        forall|q: int| 0 <= q < resolved_deps(names, ds).len() ==> 0 <= #[trigger] resolved_deps(names, ds)[q] < names.len(),
        (forall|q: int| 0 <= q < ds.len() ==> #[trigger] last_named(names, ds[q]) >= 0) ==> resolved_deps(names, ds)
            == ds.map_values(|d: Seq<char>| last_named(names, d)),
    decreases ds.len(),
{
    if ds.len() > 0 {
        lemma_resolved_deps(names, ds.drop_last());
        lemma_last_named(names, ds.last());
        let r = resolved_deps(names, ds.drop_last());
        let j = last_named(names, ds.last());
        if j >= 0 {
            assert forall|q: int| 0 <= q < r.push(j).len() implies 0 <= #[trigger] r.push(j)[q] < names.len() by {
                if q < r.len() {
                    assert(r.push(j)[q] == r[q]);
                }
            }
        }
        if forall|q: int| 0 <= q < ds.len() ==> #[trigger] last_named(names, ds[q]) >= 0 {
            assert(last_named(names, ds[ds.len() - 1]) >= 0);
            assert forall|q: int| 0 <= q < ds.drop_last().len() implies #[trigger] last_named(names, ds.drop_last()[q]) >= 0 by {
                assert(last_named(names, ds[q]) >= 0);
            }
            assert(resolved_deps(names, ds) =~= ds.map_values(|d: Seq<char>| last_named(names, d)));
        }
    }
}

/// The index of the last command named `d`.
pub fn last_index_named(commands: &[Command], d: &str) -> (r: Option<usize>)
    ensures
        match r {
            Some(i) => last_named(cmd_names(commands_view(commands@)), d@) == i,
            None => last_named(cmd_names(commands_view(commands@)), d@) == -1,
        },
{
    let ghost names = cmd_names(commands_view(commands@));
    let mut i = commands.len();
    assert(names.take(i as int) == names);
    while i > 0
        invariant
            i <= commands.len(),
            names == cmd_names(commands_view(commands@)),
            last_named(names, d@) == last_named(names.take(i as int), d@),
        decreases i,
    {
        assert(names.take(i as int).drop_last() == names.take(i - 1));
        assert(names.take(i as int).last() == commands@[i - 1].name@);
        if str_eq(commands[i - 1].name.as_str(), d) {
            return Some(i - 1);
        }
        i = i - 1;
    }
    None
}

/// The dependency indices of each command, unknown dependencies dropped.
pub fn dependency_indices(commands: &[Command]) -> (g: Vec<Vec<usize>>)
    ensures
        graph_view(g@) == known_dep_graph(commands_view(commands@)),
        graph_wf(graph_view(g@)),
{
    let ghost c = commands_view(commands@);
    let ghost names = cmd_names(c);
    let mut g: Vec<Vec<usize>> = Vec::new();
    let mut i: usize = 0;
    while i < commands.len()
        invariant
            c == commands_view(commands@),
            names == cmd_names(c),
            i <= commands.len(),
            g.len() == i,
            forall|j: int| 0 <= j < i ==> (#[trigger] g@[j])@.map_values(|u: usize| u as int) == resolved_deps(
                names,
                c[j].depends,
            ),
        decreases commands.len() - i,
    {
        let ds = &commands[i].depends;
        let ghost dv = strs_view(ds@);
        assert(dv == c[i as int].depends);
        let mut row: Vec<usize> = Vec::new();
        let mut q: usize = 0;
        while q < ds.len()
            invariant
                c == commands_view(commands@),
                names == cmd_names(c),
                dv == strs_view(ds@),
                q <= ds.len(),
                row@.map_values(|u: usize| u as int) == resolved_deps(names, dv.take(q as int)),
            decreases ds.len() - q,
        {
            assert(dv.take(q + 1).drop_last() == dv.take(q as int));
            assert(dv.take(q + 1).last() == ds@[q as int]@);
            let ghost before = row@.map_values(|u: usize| u as int);
            match last_index_named(commands, ds[q].as_str()) {
                Some(j) => {
                    row.push(j);
                    assert(row@.map_values(|u: usize| u as int) =~= before.push(j as int));
                },
                None => {},
            }
            q = q + 1;
        }
        assert(dv.take(q as int) == dv);
        g.push(row);
        i = i + 1;
    }
    assert(graph_view(g@) =~= known_dep_graph(c));
    assert forall|x: int, q: int| 0 <= x < graph_view(g@).len() && 0 <= q < graph_view(g@)[x].len() implies 0
        <= #[trigger] graph_view(g@)[x][q] < graph_view(g@).len() by {
        lemma_resolved_deps(names, c[x].depends);
    }
    g
}

/// With every dependency known, the graph without unknown dependencies is
/// the full dependency graph.
pub proof fn lemma_known_graph(c: Seq<CommandView>)
    requires
        deps_known(c),
    ensures
        known_dep_graph(c) == dep_graph(c),
{
    assert forall|i: int| 0 <= i < c.len() implies #[trigger] known_dep_graph(c)[i] == dep_graph(c)[i] by {
        assert forall|q: int| 0 <= q < c[i].depends.len() implies #[trigger] last_named(cmd_names(c), c[i].depends[q])
            >= 0 by {}
        lemma_resolved_deps(cmd_names(c), c[i].depends);
    }
    assert(known_dep_graph(c) =~= dep_graph(c));
}

// ---------------------------------------------------------------------------
// Dependency validation
// ---------------------------------------------------------------------------

/// Why the dependencies of a hook's commands are rejected.
#[derive(Debug)]
pub enum DependsError {
    /// A command depends on a name that no command of the hook has.
    Unknown { command: String, dep: String },
    /// A command depends on itself.
    SelfReference { command: String },
}

/// The mathematical value of a dependency error.
pub enum DependsErrorView {
    Unknown { command: Seq<char>, dep: Seq<char> },
    SelfReference { command: Seq<char> },
}

impl View for DependsError {
    type V = DependsErrorView;

    open spec fn view(&self) -> DependsErrorView {
        match self {
            DependsError::Unknown { command, dep } => DependsErrorView::Unknown { command: command@, dep: dep@ },
            DependsError::SelfReference { command } => DependsErrorView::SelfReference { command: command@ },
        }
    }
}

/// The objection to dependency `q` of command `i`, if any: an unknown name is
/// reported before a self-reference.
pub open spec fn dep_issue(c: Seq<CommandView>, i: int, q: int) -> Option<DependsErrorView> {
    let d = c[i].depends[q];
    if !cmd_names(c).contains(d) {
        Some(DependsErrorView::Unknown { command: c[i].name, dep: d })
    } else if d == c[i].name {
        Some(DependsErrorView::SelfReference { command: c[i].name })
    } else {
        None
    }
}

/// Dependency `(i, q)` comes before `(i2, q2)` in reading order.
pub open spec fn dep_before(i: int, q: int, i2: int, q2: int) -> bool {
    i < i2 || (i == i2 && q < q2)
}

impl DependsError {
    /// The message reported to the user.
    pub fn message(&self) -> (s: String)
        ensures
            s@ == depends_message(self@),
    {
        let mut s = string_of("Command '");
        match self {
            DependsError::Unknown { command, dep } => {
                push_str(&mut s, command.as_str());
                push_str(&mut s, "' depends on '");
                push_str(&mut s, dep.as_str());
                push_str(&mut s, "', which is not defined in this hook.");
            },
            DependsError::SelfReference { command } => {
                push_str(&mut s, command.as_str());
                push_str(&mut s, "' depends on itself.");
            },
        }
        s
    }
}

/// The message of a dependency error.
pub open spec fn depends_message(e: DependsErrorView) -> Seq<char> {
    match e {
        DependsErrorView::Unknown { command, dep } => "Command '"@ + command + "' depends on '"@ + dep
            + "', which is not defined in this hook."@,
        DependsErrorView::SelfReference { command } => "Command '"@ + command + "' depends on itself."@,
    }
}

/// Whether `names` lists `d`.
fn names_contain(commands: &[Command], d: &str) -> (b: bool)
    ensures
        b == cmd_names(commands_view(commands@)).contains(d@),
{
    proof {
        lemma_last_named(cmd_names(commands_view(commands@)), d@);
    }
    last_index_named(commands, d).is_some()
}

/// Checks that every dependency names another command of the same hook.
/// The first offending dependency, in reading order, is reported.
pub fn validate_depends_pub(commands: &[Command]) -> (r: Result<(), DependsError>)
    ensures
        match r {
            Ok(()) => forall|i: int, q: int|
                0 <= i < commands@.len() && 0 <= q < commands@[i]@.depends.len() ==> #[trigger] dep_issue(
                    commands_view(commands@),
                    i,
                    q,
                ) is None,
            Err(e) => exists|i: int, q: int|
                0 <= i < commands@.len() && 0 <= q < commands@[i]@.depends.len() && #[trigger] dep_issue(
                    commands_view(commands@),
                    i,
                    q,
                ) == Some(e@) && forall|i2: int, q2: int|
                    0 <= i2 < commands@.len() && 0 <= q2 < commands@[i2]@.depends.len() && dep_before(i2, q2, i, q)
                        ==> #[trigger] dep_issue(commands_view(commands@), i2, q2) is None,
        },
{
    let ghost c = commands_view(commands@);
    let mut i: usize = 0;
    while i < commands.len()
        invariant
            c == commands_view(commands@),
            i <= commands.len(),
            forall|i2: int, q2: int|
                0 <= i2 < i && 0 <= q2 < commands@[i2]@.depends.len() ==> #[trigger] dep_issue(c, i2, q2) is None,
        decreases commands.len() - i,
    {
        let cmd = &commands[i];
        let mut q: usize = 0;
        while q < cmd.depends.len()
            invariant
                c == commands_view(commands@),
                i < commands.len(),
                *cmd == commands@[i as int],
                q <= cmd.depends.len(),
                forall|i2: int, q2: int|
                    0 <= i2 < commands@.len() && 0 <= q2 < commands@[i2]@.depends.len() && dep_before(i2, q2, i as int, q as int)
                        ==> #[trigger] dep_issue(c, i2, q2) is None,
            decreases cmd.depends.len() - q,
        {
            let dep = &cmd.depends[q];
            assert(c[i as int].depends[q as int] == dep@);
            if !names_contain(commands, dep.as_str()) {
                let e = DependsError::Unknown { command: cmd.name.clone(), dep: dep.clone() };
                assert(dep_issue(c, i as int, q as int) == Some(e@));
                return Err(e);
            }
            if str_eq(dep.as_str(), cmd.name.as_str()) {
                let e = DependsError::SelfReference { command: cmd.name.clone() };
                assert(dep_issue(c, i as int, q as int) == Some(e@));
                return Err(e);
            }
            assert(dep_issue(c, i as int, q as int) is None);
            q = q + 1;
        }
        i = i + 1;
    }
    Ok(())
}

// ---------------------------------------------------------------------------
// Cycle reconstruction
// ---------------------------------------------------------------------------

/// `p` is a closed walk of `g`: it starts and ends at the same node and each
/// node depends on the next one.
pub open spec fn closed_walk(g: Seq<Seq<int>>, p: Seq<int>) -> bool {
    &&& p.len() >= 2
    &&& p[0] == p.last()
    &&& forall|m: int| 0 <= m < p.len() ==> 0 <= #[trigger] p[m] < g.len()
    &&& forall|m: int| 0 <= m < p.len() - 1 ==> g[#[trigger] p[m]].contains(p[m + 1])
}

/// No node of the walk `p` occurs twice before its last step (which
/// returns to the first node).
pub open spec fn simple_walk(p: Seq<int>) -> bool {
    forall|a: int, b: int| 0 <= a < b < p.len() - 1 ==> #[trigger] p[a] != #[trigger] p[b]
}

/// `c` lists the names along some simple cycle of `g`: a closed walk that
/// visits no command twice before returning to the first.
pub open spec fn cycle_names(g: Seq<Seq<int>>, names: Seq<Seq<char>>, c: Seq<Seq<char>>) -> bool {
    exists|p: Seq<int>| closed_walk(g, p) && simple_walk(p) && c == p.map_values(|i: int| names[i])
}

/// The text returned by `CycleFinder::find` when no cycle exists.
pub open spec fn no_cycle_marker() -> Seq<Seq<char>> {
    seq!["<cycle not reconstructed>"@]
}

/// A closed walk makes its nodes a closed set.
pub proof fn lemma_walk_is_cycle(g: Seq<Seq<int>>, p: Seq<int>)
    requires
        closed_walk(g, p),
    ensures
        has_cycle(g),
{
    let s = Set::new(|x: int| p.contains(x));
    assert(s.contains(p[0]));
    assert forall|x: int| s.contains(x) implies exists|q: int| 0 <= q < g[x].len() && s.contains(#[trigger] g[x][q]) by {
        let m = choose|m: int| 0 <= m < p.len() && #[trigger] p[m] == x;
        let m2 = if m == p.len() - 1 { 0 } else { m };
        assert(p[m2] == x);
        assert(g[p[m2]].contains(p[m2 + 1]));
        let q = choose|q: int| 0 <= q < g[x].len() && #[trigger] g[x][q] == p[m2 + 1];
        assert(s.contains(p[m2 + 1]));
    }
    assert(closed_set(g, s));
}

/// Ranks that strictly decrease along every dependency edge rule out cycles.
pub proof fn lemma_ranked_acyclic(g: Seq<Seq<int>>, rank: Seq<int>)
    requires
        rank.len() == g.len(),
        forall|x: int| 0 <= x < g.len() ==> #[trigger] rank[x] >= 0,
        forall|x: int, q: int| 0 <= x < g.len() && 0 <= q < g[x].len() ==> rank[#[trigger] g[x][q]] < rank[x],
    ensures
        !has_cycle(g),
{
    if has_cycle(g) {
        let s = choose|s: Set<int>| closed_set(g, s);
        let x0 = choose|x: int| s.contains(x);
        lemma_rank_floor(g, rank, s, rank[x0] + 1);
    }
}

proof fn lemma_rank_floor(g: Seq<Seq<int>>, rank: Seq<int>, s: Set<int>, r: int)
    requires
        rank.len() == g.len(),
        forall|x: int| 0 <= x < g.len() ==> #[trigger] rank[x] >= 0,
        forall|x: int, q: int| 0 <= x < g.len() && 0 <= q < g[x].len() ==> rank[#[trigger] g[x][q]] < rank[x],
        closed_set(g, s),
        r >= 0,
    ensures
        forall|x: int| s.contains(x) ==> rank[x] >= r,
    decreases r,
{
    if r > 0 {
        lemma_rank_floor(g, rank, s, r - 1);
        assert forall|x: int| s.contains(x) implies rank[x] >= r by {
            let q = choose|q: int| 0 <= q < g[x].len() && s.contains(#[trigger] g[x][q]);
            assert(rank[g[x][q]] < rank[x]);
            assert(rank[g[x][q]] >= r - 1);
        }
    } else {
        assert forall|x: int| s.contains(x) implies rank[x] >= r by {
            assert(rank[x] >= 0);
        }
    }
}

/// Number of zero entries.
pub open spec fn count_zero(s: Seq<u8>) -> nat
    decreases s.len(),
{
    if s.len() == 0 {
        0
    } else {
        count_zero(s.drop_last()) + if s.last() == 0 { 1nat } else { 0nat }
    }
}

proof fn lemma_count_zero_mono(a: Seq<u8>, b: Seq<u8>)
    requires
        a.len() == b.len(),
        forall|x: int| 0 <= x < a.len() && b[x] == 0 ==> a[x] == 0,
    ensures
        count_zero(b) <= count_zero(a),
    decreases a.len(),
{
    if a.len() > 0 {
        lemma_count_zero_mono(a.drop_last(), b.drop_last());
    }
}

/// Turning an unvisited node into a visited one, and no visited node back,
/// lowers the number of unvisited nodes.
pub proof fn lemma_count_zero_strict(a: Seq<u8>, b: Seq<u8>, u: int)
    requires
        a.len() == b.len(),
        forall|x: int| 0 <= x < a.len() && b[x] == 0 ==> a[x] == 0,
        0 <= u < a.len(),
        a[u] == 0,
        b[u] != 0,
    ensures
        count_zero(b) < count_zero(a),
    decreases a.len(),
{
    if u == a.len() - 1 {
        lemma_count_zero_mono(a.drop_last(), b.drop_last());
    } else {
        lemma_count_zero_strict(a.drop_last(), b.drop_last(), u);
    }
}

/// Index of the first occurrence of `v` in `s` (`s.len()` when absent).
pub open spec fn first_pos(s: Seq<int>, v: int) -> int
    decreases s.len(),
{
    if s.len() == 0 {
        0
    } else if s[0] == v {
        0
    } else {
        1 + first_pos(s.drop_first(), v)
    }
}

proof fn lemma_first_pos(s: Seq<int>, v: int, pos: int)
    requires
        0 <= pos < s.len(),
        s[pos] == v,
        forall|m: int| 0 <= m < pos ==> s[m] != v,
    ensures
        first_pos(s, v) == pos,
    decreases pos,
{
    if pos > 0 {
        lemma_first_pos(s.drop_first(), v, pos - 1);
    }
}

/// The cycle closed by an edge to `v`, which is on the search path `stack`:
/// the path from the first `v` on, then `v` again.
pub open spec fn stack_cycle(stack: Seq<int>, v: int) -> Seq<int> {
    stack.subrange(first_pos(stack, v), stack.len() as int).push(v)
}

/// The depth-first search entered at the unvisited node `u` with node
/// colours `color` (0 unvisited, 1 on the path `stack`, 2 finished): the
/// cycle it reports, if any, and the colours when it returns without one.
/// `u` joins the path, its dependencies are tried in order, and an edge to a
/// node on the path closes a cycle.
pub open spec fn dfs_visit(g: Seq<Seq<int>>, color: Seq<u8>, stack: Seq<int>, u: int) -> (Option<Seq<int>>, Seq<u8>)
    decreases count_zero(color), 0int, 0int,
{
    if 0 <= u < color.len() && color[u] == 0 {
        proof {
            lemma_count_zero_strict(color, color.update(u, 1), u);
        }
        dfs_edges(g, color.update(u, 1), stack.push(u), u, 0)
    } else {
        (None, color)
    }
}

/// The search at node `u` (on top of the path `stack`) from its `k`-th
/// dependency on; `u` is finished (colour 2) when all are done.
pub open spec fn dfs_edges(g: Seq<Seq<int>>, color: Seq<u8>, stack: Seq<int>, u: int, k: int) -> (Option<Seq<int>>, Seq<u8>)
    decreases count_zero(color), 1int, g[u].len() - k,
{
    if !(0 <= u < g.len()) || k < 0 || k >= g[u].len() {
        (None, color.update(u, 2))
    } else {
        let v = g[u][k];
        if !(0 <= v < color.len()) {
            dfs_edges(g, color, stack, u, k + 1)
        } else if color[v] == 1 {
            (Some(stack_cycle(stack, v)), color)
        } else if color[v] == 0 {
            let res = dfs_visit(g, color, stack, v);
            match res.0 {
                Some(p) => (Some(p), res.1),
                None => if count_zero(res.1) <= count_zero(color) {
                    dfs_edges(g, res.1, stack, u, k + 1)
                } else {
                    (None, res.1)
                },
            }
        } else {
            dfs_edges(g, color, stack, u, k + 1)
        }
    }
}

/// Entering an unvisited node starts on its first dependency.
pub proof fn lemma_visit_enters(g: Seq<Seq<int>>, color: Seq<u8>, stack: Seq<int>, u: int)
    requires
        0 <= u < color.len(),
        color[u] == 0,
    ensures
        dfs_visit(g, color, stack, u) == dfs_edges(g, color.update(u, 1), stack.push(u), u, 0),
{
}

/// An edge to a node on the path closes the cycle through it.
pub proof fn lemma_edges_on_path(g: Seq<Seq<int>>, color: Seq<u8>, stack: Seq<int>, u: int, k: int)
    requires
        0 <= u < g.len(),
        0 <= k < g[u].len(),
        0 <= g[u][k] < color.len(),
        color[g[u][k]] == 1,
    ensures
        dfs_edges(g, color, stack, u, k) == (Some(stack_cycle(stack, g[u][k])), color),
{
}

/// An edge to a finished node is passed over.
pub proof fn lemma_edges_finished(g: Seq<Seq<int>>, color: Seq<u8>, stack: Seq<int>, u: int, k: int)
    requires
        0 <= u < g.len(),
        0 <= k < g[u].len(),
        0 <= g[u][k] < color.len(),
        color[g[u][k]] == 2,
    ensures
        dfs_edges(g, color, stack, u, k) == dfs_edges(g, color, stack, u, k + 1),
{
}

/// An edge to an unvisited node explores it; a cycle found there is the
/// answer, and otherwise the search goes on with the colours it left.
pub proof fn lemma_edges_unvisited(g: Seq<Seq<int>>, color: Seq<u8>, stack: Seq<int>, u: int, k: int)
    requires
        0 <= u < g.len(),
        0 <= k < g[u].len(),
        0 <= g[u][k] < color.len(),
        color[g[u][k]] == 0,
    ensures
        dfs_visit(g, color, stack, g[u][k]).0 matches Some(p) ==> dfs_edges(g, color, stack, u, k).0 == Some(p),
        dfs_visit(g, color, stack, g[u][k]).0 is None && count_zero(dfs_visit(g, color, stack, g[u][k]).1)
            <= count_zero(color) ==> dfs_edges(g, color, stack, u, k) == dfs_edges(
            g,
            dfs_visit(g, color, stack, g[u][k]).1,
            stack,
            u,
            k + 1,
        ),
{
}

/// With every dependency tried, the node is finished.
pub proof fn lemma_edges_done(g: Seq<Seq<int>>, color: Seq<u8>, stack: Seq<int>, u: int)
    requires
        0 <= u < g.len(),
    ensures
        dfs_edges(g, color, stack, u, g[u].len() as int) == (None::<Seq<int>>, color.update(u, 2)),
{
}

/// The search over the nodes from `i` on, each unvisited one in turn: the
/// first cycle found.
pub open spec fn search_from(g: Seq<Seq<int>>, color: Seq<u8>, i: int) -> Option<Seq<int>>
    decreases g.len() - i,
{
    if i < 0 || i >= g.len() {
        None
    } else if i < color.len() && color[i] == 0 {
        let res = dfs_visit(g, color, Seq::empty(), i);
        match res.0 {
            Some(p) => Some(p),
            None => search_from(g, res.1, i + 1),
        }
    } else {
        search_from(g, color, i + 1)
    }
}

/// The cycle the depth-first search from the first command finds, if any:
/// every node unvisited at the start, tried in order.
pub open spec fn cycle_search(g: Seq<Seq<int>>) -> Option<Seq<int>> {
    search_from(g, Seq::new(g.len(), |x: int| 0u8), 0)
}

/// Depth-first search for a dependency cycle, marking nodes white (0),
/// on the current path (1) or finished (2).
pub struct CycleFinder<'a> {
    pub commands: &'a [Command],
    pub deps_of: Vec<Vec<usize>>,
    pub color: Vec<u8>,
    pub stack: Vec<usize>,
    /// Finishing order of the finished nodes.
    pub rank: Ghost<Seq<int>>,
    /// The next finishing number.
    pub fin: Ghost<int>,
}

impl<'a> CycleFinder<'a> {
    /// The dependency graph searched.
    pub open spec fn graph(&self) -> Seq<Seq<int>> {
        graph_view(self.deps_of@)
    }

    /// The command names, by index.
    pub open spec fn names(&self) -> Seq<Seq<char>> {
        cmd_names(commands_view(self.commands@))
    }

    /// The nodes on the search path, bottom first.
    pub open spec fn stack_view(&self) -> Seq<int> {
        self.stack@.map_values(|x: usize| x as int)
    }

    /// The search state is consistent: the nodes on the path are exactly the
    /// stack, the stack follows edges, and every dependency of a finished
    /// node is finished earlier.
    pub open spec fn wf(&self) -> bool {
        let g = self.graph();
        let n = self.commands@.len();
        &&& g.len() == n
        &&& n <= usize::MAX
        &&& self.fin@ >= 0
        &&& self.color@.len() == n
        &&& self.rank@.len() == n
        &&& graph_wf(g)
        &&& g == known_dep_graph(commands_view(self.commands@))
        &&& forall|x: int| 0 <= x < n ==> #[trigger] self.color@[x] <= 2
        &&& forall|x: int| 0 <= x < n ==> (self.color@[x] == 1 <==> self.stack@.contains(x as usize))
        &&& forall|m: int| 0 <= m < self.stack@.len() ==> (#[trigger] self.stack@[m] as int) < n
        &&& forall|a: int, b: int| 0 <= a < b < self.stack@.len() ==> #[trigger] self.stack@[a] != #[trigger] self.stack@[b]
        &&& forall|m: int| 0 <= m < self.stack@.len() - 1 ==> g[#[trigger] self.stack@[m] as int].contains(
            self.stack@[m + 1] as int,
        )
        &&& forall|x: int| 0 <= x < n && #[trigger] self.color@[x] == 2 ==> 0 <= self.rank@[x] < self.fin@
        &&& forall|x: int, q: int|
            0 <= x < n && self.color@[x] == 2 && 0 <= q < g[x].len() ==> self.color@[#[trigger] g[x][q]] == 2
                && self.rank@[g[x][q]] < self.rank@[x]
    }

    /// A search state with nothing visited yet.
    pub fn new(commands: &'a [Command]) -> (f: Self)
        ensures
            f.wf(),
            f.commands == commands,
            f.stack@.len() == 0,
            f.color@ == Seq::new(commands@.len(), |x: int| 0u8),
    {
        let deps_of = dependency_indices(commands);
        let n = commands.len();
        let mut color: Vec<u8> = Vec::new();
        let mut i: usize = 0;
        while i < n
            invariant
                i <= n,
                color.len() == i,
                forall|j: int| 0 <= j < i ==> color@[j] == 0,
            decreases n - i,
        {
            color.push(0);
            i = i + 1;
        }
        assert(color@ =~= Seq::new(commands@.len(), |x: int| 0u8));
        CycleFinder {
            commands,
            deps_of,
            color,
            stack: Vec::new(),
            rank: Ghost(Seq::new(n as nat, |x: int| 0)),
            fin: Ghost(0),
        }
    }

    /// Returns the names along the dependency cycle that the depth-first
    /// search from the first unvisited command reaches first (the search path
    /// from the command the closing edge leads to, that command repeated at
    /// the end), or a one-line note when the dependencies have no cycle.
    pub fn find(&mut self) -> (r: Vec<String>)
        requires
            old(self).wf(),
            old(self).stack@.len() == 0,
        ensures
            final(self).commands == old(self).commands,
            match search_from(old(self).graph(), old(self).color@, 0) {
                Some(p) => strs_view(r@) == p.map_values(|i: int| old(self).names()[i]) && cycle_names(
                    old(self).graph(),
                    old(self).names(),
                    strs_view(r@),
                ),
                None => strs_view(r@) == no_cycle_marker() && !has_cycle(old(self).graph()),
            },
    {
        let ghost g0 = self.graph();
        let n = self.commands.len();
        let mut i: usize = 0;
        while i < n
            invariant
                self.wf(),
                self.graph() == g0,
                g0 == old(self).graph(),
                self.commands@.len() == n,
                self.names() == old(self).names(),
                self.commands == old(self).commands,
                self.stack@.len() == 0,
                i <= n,
                forall|x: int| 0 <= x < i ==> self.color@[x] != 0,
                search_from(g0, old(self).color@, 0) == search_from(g0, self.color@, i as int),
            decreases n - i,
        {
            assert(self.stack_view() =~= Seq::<int>::empty());
            if self.color[i] == 0 {
                match self.dfs(i) {
                    Some(c) => {
                        assert(cycle_names(g0, old(self).names(), strs_view(c@)));
                        return c;
                    },
                    None => {},
                }
            }
            i = i + 1;
        }
        proof {
            assert forall|x: int| 0 <= x < n implies self.color@[x] == 2 by {
                assert(self.color@[x] != 1);
            }
            let g = self.graph();
            assert forall|x: int, q: int| 0 <= x < g.len() && 0 <= q < g[x].len() implies self.rank@[#[trigger] g[x][q]]
                < self.rank@[x] by {
                assert(self.color@[x] == 2);
            }
            assert forall|x: int| 0 <= x < g.len() implies #[trigger] self.rank@[x] >= 0 by {
                assert(self.color@[x] == 2);
            }
            lemma_ranked_acyclic(g, self.rank@);
        }
        let mut r: Vec<String> = Vec::new();
        r.push(string_of("<cycle not reconstructed>"));
        assert(strs_view(r@) =~= no_cycle_marker());
        r
    }

    /// Explores from the unvisited node `u`, returning the names along a
    /// cycle if one is reached.
    #[verifier::rlimit(90)]
    pub fn dfs(&mut self, u: usize) -> (r: Option<Vec<String>>)
        requires
            old(self).wf(),
            u < old(self).commands@.len(),
            old(self).color@[u as int] == 0,
            old(self).stack@.len() > 0 ==> old(self).graph()[old(self).stack@.last() as int].contains(u as int),
        ensures
            final(self).commands == old(self).commands,
            final(self).deps_of@ == old(self).deps_of@,
            match r {
                Some(c) => {
                    &&& cycle_names(old(self).graph(), old(self).names(), strs_view(c@))
                    &&& dfs_visit(old(self).graph(), old(self).color@, old(self).stack_view(), u as int).0 matches Some(p)
                        && strs_view(c@) == p.map_values(|i: int| old(self).names()[i])
                },
                None => {
                    &&& dfs_visit(old(self).graph(), old(self).color@, old(self).stack_view(), u as int)
                        == (None::<Seq<int>>, final(self).color@)
                    &&& final(self).wf()
                    &&& final(self).color@[u as int] == 2
                    &&& final(self).stack@ == old(self).stack@
                    &&& forall|x: int|
                        0 <= x < old(self).color@.len() && old(self).color@[x] != 0 ==> #[trigger] final(self).color@[x]
                            == old(self).color@[x] && final(self).rank@[x] == old(self).rank@[x]
                },
            },
        decreases count_zero(old(self).color@),
    {
        let ghost g = self.graph();
        let ghost entry_color = self.color@;
        let ghost entry_rank = self.rank@;
        let ghost entry_stack = self.stack@;
        let ghost entry_sv = self.stack_view();
        let ghost st = entry_sv.push(u as int);
        self.color.set(u, 1);
        self.stack.push(u);
        proof {
            assert(self.stack@ == entry_stack.push(u));
            assert(self.stack_view() =~= st);
            lemma_visit_enters(g, entry_color, entry_sv, u as int);
            lemma_count_zero_strict(entry_color, self.color@, u as int);
            assert forall|x: int| 0 <= x < g.len() implies (self.color@[x] == 1 <==> self.stack@.contains(x as usize)) by {
                if x == u as int {
                    assert(self.stack@[self.stack@.len() - 1] == u);
                } else {
                    if entry_stack.contains(x as usize) {
                        let m = choose|m: int| 0 <= m < entry_stack.len() && #[trigger] entry_stack[m] == x as usize;
                        assert(self.stack@[m] == x as usize);
                    }
                    if self.stack@.contains(x as usize) {
                        let m = choose|m: int| 0 <= m < self.stack@.len() && #[trigger] self.stack@[m] == x as usize;
                        if m == entry_stack.len() {
                            assert(self.stack@[m] == u);
                        }
                        assert(entry_stack[m] == x as usize);
                    }
                }
            }
        }
        let deps = self.deps_of[u].clone();
        assert(deps@.map_values(|v: usize| v as int) =~= g[u as int]);
        assert forall|j: int| 0 <= j < deps.len() implies (#[trigger] deps@[j] as int) < g.len() by {
            assert(deps@.map_values(|v: usize| v as int)[j] == g[u as int][j]);
        }
        let mut k: usize = 0;
        while k < deps.len()
            invariant
                self.wf(),
                self.graph() == g,
                g == old(self).graph(),
                entry_color == old(self).color@,
                entry_rank == old(self).rank@,
                entry_stack == old(self).stack@,
                self.commands == old(self).commands,
                self.deps_of@ == old(self).deps_of@,
                self.names() == old(self).names(),
                deps@.map_values(|v: usize| v as int) == g[u as int],
                u < g.len(),
                self.color@[u as int] == 1,
                self.stack@ == entry_stack.push(u),
                entry_sv == old(self).stack_view(),
                st == entry_sv.push(u as int),
                self.stack_view() == st,
                dfs_visit(g, entry_color, entry_sv, u as int) == dfs_edges(g, self.color@, st, u as int, k as int),
                k <= deps.len(),
                forall|j: int| 0 <= j < deps.len() ==> (#[trigger] deps@[j] as int) < g.len(),
                g.len() == entry_color.len(),
                forall|j: int| 0 <= j < k ==> self.color@[#[trigger] deps@[j] as int] == 2,
                forall|x: int|
                    0 <= x < entry_color.len() && entry_color[x] != 0 ==> #[trigger] self.color@[x] == entry_color[x]
                        && self.rank@[x] == entry_rank[x],
                forall|x: int| 0 <= x < entry_color.len() && self.color@[x] == 0 ==> entry_color[x] == 0,
                count_zero(self.color@) < count_zero(entry_color),
                self.color@.len() == entry_color.len(),
            decreases deps.len() - k,
        {
            let v = deps[k];
            assert(g[u as int][k as int] == v as int);
            assert(v < self.commands.len());
            assert(deps@.map_values(|v: usize| v as int)[k as int] == v as int);
            if self.color[v] == 1 {
                proof {
                    lemma_edges_on_path(g, self.color@, st, u as int, k as int);
                }
                let c = self.cycle_through(v, u);
                assert(self.graph() == old(self).graph());
                assert(self.names() == old(self).names());
                assert(cycle_names(old(self).graph(), old(self).names(), strs_view(c@)));
                return Some(c);
            } else if self.color[v] == 0 {
                let ghost before_color = self.color@;
                let ghost before_rank = self.rank@;
                assert(self.stack@.last() == u);
                assert(count_zero(self.color@) < count_zero(entry_color));
                assert(entry_color == old(self).color@);
                assert(count_zero(self.color@) < count_zero(old(self).color@));
                proof {
                    lemma_edges_unvisited(g, before_color, st, u as int, k as int);
                }
                match self.dfs(v) {
                    Some(c) => {
                        assert(cycle_names(old(self).graph(), old(self).names(), strs_view(c@)));
                        return Some(c);
                    },
                    None => {},
                }
                proof {
                    lemma_count_zero_mono(before_color, self.color@);
                    assert forall|x: int| 0 <= x < entry_color.len() && self.color@[x] == 0 implies entry_color[x] == 0 by {
                        assert(before_color[x] == 0);
                    }
                    lemma_count_zero_mono(before_color, self.color@);
                    assert forall|j: int| 0 <= j < k implies self.color@[#[trigger] deps@[j] as int] == 2 by {
                        assert(before_color[deps@[j] as int] == 2);
                    }
                }
            } else {
                proof {
                    lemma_edges_finished(g, self.color@, st, u as int, k as int);
                }
            }
            k = k + 1;
        }
        // Every dependency of `u` is finished: finish `u`.
        let ghost f = self.fin@;
        let ghost pre_color = self.color@;
        let ghost pre_rank = self.rank@;
        assert(forall|x: int| 0 <= x < pre_color.len() && #[trigger] pre_color[x] == 2 ==> 0 <= pre_rank[x] < f);
        self.stack.pop();
        self.color.set(u, 2);
        proof {
            lemma_edges_done(g, pre_color, st, u as int);
            assert(self.color@ == pre_color.update(u as int, 2));
            self.rank@ = self.rank@.update(u as int, f);
            self.fin@ = f + 1;
            assert(self.stack@ =~= entry_stack);
            assert forall|q: int| 0 <= q < g[u as int].len() implies self.color@[#[trigger] g[u as int][q]] == 2 by {
                assert(deps@.map_values(|v: usize| v as int)[q] == g[u as int][q]);
                assert(self.color@[deps@[q] as int] == 2);
            }
            assert forall|x: int| 0 <= x < g.len() implies (self.color@[x] == 1 <==> self.stack@.contains(x as usize)) by {
                if x == u as int {
                    if entry_stack.contains(u) {
                        let m = choose|m: int| 0 <= m < entry_stack.len() && #[trigger] entry_stack[m] == u;
                        assert(entry_stack.push(u)[m] == u);
                    }
                } else {
                    if entry_stack.contains(x as usize) {
                        let m = choose|m: int| 0 <= m < entry_stack.len() && #[trigger] entry_stack[m] == x as usize;
                        assert(entry_stack.push(u)[m] == x as usize);
                        assert(entry_stack.push(u).contains(x as usize));
                    }
                    if entry_stack.push(u).contains(x as usize) {
                        let m = choose|m: int| 0 <= m < entry_stack.push(u).len() && #[trigger] entry_stack.push(u)[m] == x as usize;
                        assert(m < entry_stack.len());
                        assert(entry_stack[m] == x as usize);
                    }
                }
            }
            assert(self.stack@ == old(self).stack@);
            assert(self.color@[u as int] == 2);
            let n = self.commands@.len();
            assert(forall|x: int| 0 <= x < n ==> #[trigger] self.color@[x] <= 2);
            assert(forall|m: int| 0 <= m < self.stack@.len() ==> (#[trigger] self.stack@[m] as int) < n);
            assert(forall|m: int| 0 <= m < self.stack@.len() - 1 ==> g[#[trigger] self.stack@[m] as int].contains(
                self.stack@[m + 1] as int));
            assert forall|x: int| 0 <= x < n && #[trigger] self.color@[x] == 2 implies 0 <= self.rank@[x] < self.fin@ by {
                if x != u as int {
                    assert(pre_color[x] == 2);
                    assert(pre_rank[x] < f);
                }
            }
            assert(forall|x: int, q: int|
                0 <= x < n && self.color@[x] == 2 && 0 <= q < g[x].len() ==> self.color@[#[trigger] g[x][q]] == 2
                    && self.rank@[g[x][q]] < self.rank@[x]);
            assert(self.wf());
        }
        None
    }

    /// The names along the cycle closed by the edge from `u`, the top of the
    /// stack, to `v`, which is on the stack.
    fn cycle_through(&self, v: usize, u: usize) -> (c: Vec<String>)
        requires
            self.wf(),
            self.stack@.len() > 0,
            self.stack@.last() == u,
            v < self.commands@.len(),
            self.color@[v as int] == 1,
            self.graph()[u as int].contains(v as int),
        ensures
            cycle_names(self.graph(), self.names(), strs_view(c@)),
            strs_view(c@) == stack_cycle(self.stack_view(), v as int).map_values(|i: int| self.names()[i]),
    {
        let ghost g = self.graph();
        let ghost names = self.names();
        let mut pos: usize = 0;
        assert(self.stack@.contains(v));
        while pos < self.stack.len() && self.stack[pos] != v
            invariant
                pos <= self.stack@.len(),
                self.stack@.contains(v),
                forall|m: int| 0 <= m < pos ==> self.stack@[m] != v,
            decreases self.stack@.len() - pos,
        {
            pos = pos + 1;
        }
        proof {
            if pos == self.stack@.len() {
                let m = choose|m: int| 0 <= m < self.stack@.len() && #[trigger] self.stack@[m] == v;
                assert(false);
            }
        }
        let ghost p = self.stack@.subrange(pos as int, self.stack@.len() as int).map_values(|x: usize| x as int).push(
            v as int,
        );
        let mut c: Vec<String> = Vec::new();
        let mut m = pos;
        while m < self.stack.len()
            invariant
                self.wf(),
                g == self.graph(),
                names == self.names(),
                pos <= m <= self.stack@.len(),
                pos < self.stack@.len(),
                c@.len() == m - pos,
                forall|j: int| 0 <= j < c@.len() ==> (#[trigger] c@[j])@ == names[p[j]],
                p == self.stack@.subrange(pos as int, self.stack@.len() as int).map_values(|x: usize| x as int).push(
                    v as int,
                ),
            decreases self.stack@.len() - m,
        {
            let x = self.stack[m];
            c.push(self.commands[x].name.clone());
            m = m + 1;
        }
        c.push(self.commands[v].name.clone());
        proof {
            assert(p[0] == v as int);
            assert(p.last() == v as int);
            assert forall|j: int| 0 <= j < p.len() implies 0 <= #[trigger] p[j] < g.len() by {}
            assert forall|j: int| 0 <= j < p.len() - 1 implies g[#[trigger] p[j]].contains(p[j + 1]) by {
                if j < p.len() - 2 {
                    assert(g[self.stack@[pos + j] as int].contains(self.stack@[pos + j + 1] as int));
                } else {
                    assert(p[j] == u as int);
                }
            }
            assert(closed_walk(g, p));
            assert forall|a: int, b: int| 0 <= a < b < p.len() - 1 implies #[trigger] p[a] != #[trigger] p[b] by {
                assert(p[a] == self.stack@[pos + a] as int);
                assert(p[b] == self.stack@[pos + b] as int);
            }
            assert(simple_walk(p));
            assert(strs_view(c@) =~= p.map_values(|i: int| names[i]));
            let sv = self.stack_view();
            lemma_first_pos(sv, v as int, pos as int);
            assert(p =~= stack_cycle(sv, v as int));
        }
        c
    }
}

// ---------------------------------------------------------------------------
// Execution waves of commands
// ---------------------------------------------------------------------------

/// A dependency cycle among a hook's commands.
#[derive(Debug)]
pub struct CycleError {
    /// Names along the cycle, the first repeated at the end.
    pub cycle: Vec<String>,
}

impl CycleError {
    /// The message reported to the user.
    pub fn message(&self) -> (s: String)
        ensures
            s@ == "Circular dependency detected among hook commands:\n  "@ + join(
                self.cycle@.map_values(|c: String| c@),
                " \u{2192} "@,
            ),
    {
        let mut s = string_of("Circular dependency detected among hook commands:\n  ");
        let j = join_strings(&self.cycle, " \u{2192} ");
        push_str(&mut s, j.as_str());
        s
    }
}

/// Groups the commands into execution waves (see [`crate::waves`]).
/// Every dependency must name a command of the list.
pub fn build_execution_waves<'a>(commands: &'a [Command]) -> (r: Result<Vec<Vec<&'a Command>>, CycleError>)
    requires
        deps_known(commands_view(commands@)),
    ensures
        match r {
            Ok(w) => {
                let g = dep_graph(commands_view(commands@));
                &&& !has_cycle(g)
                &&& exists|wi: Seq<Seq<int>>| #[trigger] waves_of(g, wi) && wi.len() == w@.len()
                    && forall|k: int| 0 <= k < w@.len() ==> #[trigger] w@[k]@.len() == wi[k].len()
                        && forall|p: int| 0 <= p < w@[k]@.len() ==> *w@[k]@[p] == commands@[wi[k][p]]
            },
            Err(e) => {
                let g = dep_graph(commands_view(commands@));
                &&& has_cycle(g)
                &&& cycle_names(g, cmd_names(commands_view(commands@)), strs_view(e.cycle@))
                &&& cycle_search(g) matches Some(p) && strs_view(e.cycle@) == p.map_values(
                    |i: int| cmd_names(commands_view(commands@))[i],
                )
            },
        },
{
    let ghost c = commands_view(commands@);
    let deps = dependency_indices(commands);
    proof {
        lemma_known_graph(c);
    }
    match wave_indices(&deps) {
        Some(wi) => {
            let ghost wv = graph_view(wi@);
            let mut out: Vec<Vec<&'a Command>> = Vec::new();
            let mut k: usize = 0;
            while k < wi.len()
                invariant
                    wv == graph_view(wi@),
                    waves_of(graph_view(deps@), wv),
                    graph_wf(graph_view(deps@)),
                    graph_view(deps@).len() == commands@.len(),
                    k <= wi.len(),
                    out.len() == k,
                    forall|kk: int| 0 <= kk < k ==> #[trigger] out@[kk]@.len() == wv[kk].len()
                        && forall|p: int| 0 <= p < out@[kk]@.len() ==> *out@[kk]@[p] == commands@[wv[kk][p]],
                decreases wi.len() - k,
            {
                let row = &wi[k];
                proof {
                    crate::waves::lemma_wave_members(graph_view(deps@), k as nat);
                    assert(wv[k as int] == crate::waves::wave_seq(graph_view(deps@), k as nat));
                    assert(graph_view(deps@).len() == commands@.len());
                }
                let mut refs: Vec<&'a Command> = Vec::new();
                let mut p: usize = 0;
                while p < row.len()
                    invariant
                        wv == graph_view(wi@),
                        *row == wi@[k as int],
                        k < wi.len(),
                        forall|j: int| 0 <= j < wv[k as int].len() ==> 0 <= #[trigger] wv[k as int][j] < commands@.len(),
                        p <= row.len(),
                        refs.len() == p,
                        forall|j: int| 0 <= j < p ==> *refs@[j] == commands@[wv[k as int][j]],
                    decreases row.len() - p,
                {
                    assert(wv[k as int][p as int] == row@[p as int] as int);
                    refs.push(&commands[row[p]]);
                    p = p + 1;
                }
                out.push(refs);
                k = k + 1;
            }
            Ok(out)
        },
        None => {
            assert(has_cycle(dep_graph(c)));
            Err(report_cycle(commands))
        },
    }
}

/// The cycle error for commands whose dependencies have a cycle: the cycle
/// the depth-first search from the first command finds.
fn report_cycle(commands: &[Command]) -> (e: CycleError)
    requires
        deps_known(commands_view(commands@)),
        has_cycle(dep_graph(commands_view(commands@))),
    ensures
        ({
            let g = dep_graph(commands_view(commands@));
            &&& cycle_names(g, cmd_names(commands_view(commands@)), strs_view(e.cycle@))
            &&& cycle_search(g) matches Some(p) && strs_view(e.cycle@) == p.map_values(
                |i: int| cmd_names(commands_view(commands@))[i],
            )
        }),
{
    let ghost c = commands_view(commands@);
    proof {
        lemma_known_graph(c);
    }
    let mut finder = CycleFinder::new(commands);
    assert(finder.graph() == dep_graph(c));
    let cycle = finder.find();
    CycleError { cycle }
}

} // verus!
