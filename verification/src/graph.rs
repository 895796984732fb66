use vstd::prelude::*;

verus! {

/// Where a walk over a graph of points stands: which points it has passed,
/// how many, the path since the last closed loop, the point it stands on, and
/// the closed loops found so far.
pub struct Walk {
    pub visited: Seq<bool>,
    pub count: nat,
    pub path: Seq<usize>,
    pub start: usize,
    pub loops: Seq<Seq<usize>>,
}

/// A walk goes on from a state, or has ended with its result: `None` when it
/// met a point with other than one next point, the closed loops otherwise.
pub enum WalkEnd {
    Running(Walk),
    Finished(Option<Seq<Seq<usize>>>),
}

/// The first point at or after `from` that the walk has not passed; `n` when
/// there is none.
pub open spec fn first_unvisited(visited: Seq<bool>, from: int) -> int
    decreases visited.len() - from,
{
    if from < 0 || from >= visited.len() {
        visited.len() as int
    } else if !visited[from] {
        from
    } else {
        first_unvisited(visited, from + 1)
    }
}

/// One step of the walk over `adj` (the next points of each point). Once every
/// point is passed, the walk ends with its loops. Otherwise it passes the point
/// it stands on: a point with other than one next point ends it with `None`; a
/// next point that starts the current path closes a loop, and the walk goes on
/// from the first point not passed yet (or stays where it is when there is
/// none); any other next point is where the walk goes.
pub open spec fn walk_step(adj: Seq<Seq<usize>>, w: Walk) -> WalkEnd {
    if w.count >= adj.len() {
        WalkEnd::Finished(Some(w.loops))
    } else {
        let path = w.path.push(w.start);
        let visited = w.visited.update(w.start as int, true);
        let count = if w.visited[w.start as int] { w.count } else { w.count + 1 };
        let nexts = adj[w.start as int];
        if nexts.len() != 1 {
            WalkEnd::Finished(None)
        } else if path[0] == nexts[0] {
            let f = first_unvisited(visited, 0);
            WalkEnd::Running(Walk {
                visited,
                count,
                path: Seq::empty(),
                start: if f < adj.len() { f as usize } else { w.start },
                loops: w.loops.push(path),
            })
        } else {
            WalkEnd::Running(Walk { visited, count, path, start: nexts[0], loops: w.loops })
        }
    }
}

/// The result of the walk from `w` within `fuel` steps, if it ends by then.
pub open spec fn run(adj: Seq<Seq<usize>>, w: Walk, fuel: nat) -> Option<Option<Seq<Seq<usize>>>>
    decreases fuel,
{
    match walk_step(adj, w) {
        WalkEnd::Finished(r) => Some(r),
        WalkEnd::Running(next) => if fuel == 0 {
            None
        } else {
            run(adj, next, (fuel - 1) as nat)
        },
    }
}

/// The walk's first state: nothing passed, standing on point 0.
pub open spec fn first_walk(n: nat) -> Walk {
    Walk { visited: Seq::new(n, |i: int| false), count: 0, path: Seq::empty(), start: 0, loops: Seq::empty() }
}

/// Every next point is a point of the graph.
pub open spec fn well_linked(adj: Seq<Seq<usize>>) -> bool {
    forall|i: int, j: int| 0 <= i < adj.len() && 0 <= j < adj[i].len() ==> #[trigger] adj[i][j] < adj.len()
}

/// The walk over `adj` ends.
pub open spec fn walk_ends(adj: Seq<Seq<usize>>) -> bool {
    exists|fuel: nat| #[trigger] run(adj, first_walk(adj.len()), fuel) is Some
}

/// A number of steps within which the walk over `adj` ends, when it ends.
pub open spec fn ending_fuel(adj: Seq<Seq<usize>>) -> nat {
    choose|fuel: nat| #[trigger] run(adj, first_walk(adj.len()), fuel) is Some
}

/// What the walk over `adj` ends with.
pub open spec fn walk_result(adj: Seq<Seq<usize>>) -> Option<Seq<Seq<usize>>> {
    run(adj, first_walk(adj.len()), ending_fuel(adj)).unwrap()
}

/// A walk that ends within some number of steps ends with the same result
/// within any larger number.
proof fn lemma_run_more_fuel(adj: Seq<Seq<usize>>, w: Walk, a: nat, b: nat)
    requires
        a <= b,
        run(adj, w, a) is Some,
    ensures
        run(adj, w, b) == run(adj, w, a),
    decreases a,
{
    match walk_step(adj, w) {
        WalkEnd::Finished(_) => {},
        WalkEnd::Running(next) => {
            lemma_run_more_fuel(adj, next, (a - 1) as nat, (b - 1) as nat);
        },
    }
}

/// The walk's state is well formed for a graph of `n` points.
spec fn walk_inv(adj: Seq<Seq<usize>>, w: Walk) -> bool {
    &&& w.visited.len() == adj.len()
    &&& w.count <= adj.len()
    &&& w.start < adj.len() || adj.len() == 0
    &&& w.count == count_true(w.visited, adj.len() as int)
}

/// How many of the first `k` points are passed.
spec fn count_true(visited: Seq<bool>, k: int) -> nat
    decreases k,
{
    if k <= 0 {
        0
    } else {
        count_true(visited, k - 1) + if visited[k - 1] { 1nat } else { 0nat }
    }
}

proof fn lemma_count_update(visited: Seq<bool>, k: int, p: int)
    requires
        0 <= p < visited.len(),
        0 <= k <= visited.len(),
    ensures
        count_true(visited.update(p, true), k) == count_true(visited, k) + if p < k && !visited[p] { 1nat } else { 0nat },
        count_true(visited, k) <= k,
    decreases k,
{
    if k > 0 {
        lemma_count_update(visited, k - 1, p);
    }
}

/// The walk over the graph of points whose next points are `adj`: the loops
/// it closes, as lists of points, or `None` when it meets a point with other
/// than one next point. The walk starts at point 0; each time a loop closes it
/// goes on from the first point not passed yet, and it ends once every point is
/// passed. The walk must end: on some graphs (a path that runs into a loop
/// away from its start, with points left unpassed) it goes on forever.
pub fn closed_loops(adj: &Vec<Vec<usize>>) -> (r: Option<Vec<Vec<usize>>>)
    requires
        well_linked(adj@.map_values(|v: Vec<usize>| v@)),
        walk_ends(adj@.map_values(|v: Vec<usize>| v@)),
    ensures
        r is None == walk_result(adj@.map_values(|v: Vec<usize>| v@)) is None,
        r matches Some(loops) ==> walk_result(adj@.map_values(|v: Vec<usize>| v@)) == Some(
            loops@.map_values(|l: Vec<usize>| l@),
        ),
{
    let ghost g = adj@.map_values(|v: Vec<usize>| v@);
    let n = adj.len();
    let ghost fuel0: nat = ending_fuel(g);
    let mut visited: Vec<bool> = Vec::new();
    let mut k: usize = 0;
    while k < n
        invariant
            k <= n,
            visited@ == Seq::new(k as nat, |i: int| false),
        decreases n - k,
    {
        visited.push(false);
        k = k + 1;
        proof {
            assert(visited@ =~= Seq::new(k as nat, |i: int| false));
        }
    }
    proof {
        assert(count_true(visited@, n as int) == 0) by {
            lemma_count_zero(visited@, n as int);
        }
    }
    let mut count: usize = 0;
    let mut path: Vec<usize> = Vec::new();
    let mut start: usize = 0;
    let mut loops: Vec<Vec<usize>> = Vec::new();
    let ghost mut fuel: nat = fuel0;
    proof {
        assert(path@ =~= Seq::<usize>::empty());
        assert(loops@.map_values(|l: Vec<usize>| l@) =~= Seq::<Seq<usize>>::empty());
        assert(visited@ =~= first_walk(g.len()).visited);
        assert(Walk { visited: visited@, count: count as nat, path: path@, start, loops: loops@.map_values(|l: Vec<usize>| l@) } == first_walk(g.len()));
    }
    while count < n
        invariant
            g == adj@.map_values(|v: Vec<usize>| v@),
            n == adj@.len(),
            well_linked(g),
            walk_inv(g, Walk { visited: visited@, count: count as nat, path: path@, start, loops: loops@.map_values(|l: Vec<usize>| l@) }),
            run(g, Walk { visited: visited@, count: count as nat, path: path@, start, loops: loops@.map_values(|l: Vec<usize>| l@) }, fuel)
                == run(g, first_walk(g.len()), fuel0),
            run(g, first_walk(g.len()), fuel0) is Some,
            fuel0 == ending_fuel(g),
        decreases fuel,
    {
        let ghost w = Walk { visited: visited@, count: count as nat, path: path@, start, loops: loops@.map_values(|l: Vec<usize>| l@) };
        proof {
            assert(g[start as int] == adj@[start as int]@);
        }
        if !visited[start] {
            count = count + 1;
        }
        visited.set(start, true);
        path.push(start);
        proof {
            lemma_count_update(w.visited, n as int, start as int);
        }
        let nexts = &adj[start];
        if nexts.len() != 1 {
            proof {
                assert(walk_step(g, w) == WalkEnd::Finished(None));
                assert(run(g, w, fuel) == Some(None::<Seq<Seq<usize>>>));
                assert(walk_result(g) is None);

            }
            return None;
        }
        let next = nexts[0];
        proof {
            assert(g[start as int][0] == next);
            assert(next < n);
        }
        if path[0] == next {
            let mut f: usize = 0;
            while f < n && visited[f]
                invariant
                    f <= n,
                    visited@.len() == n,
                    first_unvisited(visited@, 0) == first_unvisited(visited@, f as int),
                decreases n - f,
            {
                f = f + 1;
            }
            loops.push(path);
            path = Vec::new();
            if f < n {
                start = f;
            }
            proof {
                assert(loops@.map_values(|l: Vec<usize>| l@) =~= w.loops.push(w.path.push(w.start)));
            }
        } else {
            start = next;
        }
        proof {
            fuel = (fuel - 1) as nat;
        }
    }
    proof {
        assert(walk_step(g, Walk { visited: visited@, count: count as nat, path: path@, start, loops: loops@.map_values(|l: Vec<usize>| l@) }) == WalkEnd::Finished(Some(loops@.map_values(|l: Vec<usize>| l@))));
    }
    Some(loops)
}

proof fn lemma_step_inv(adj: Seq<Seq<usize>>, w: Walk)
    requires
        well_linked(adj),
        walk_inv(adj, w),
        walk_step(adj, w) is Running,
    ensures
        walk_inv(adj, walk_step(adj, w)->Running_0),
{
    let next = walk_step(adj, w)->Running_0;
    lemma_count_update(w.visited, adj.len() as int, w.start as int);
    let visited = w.visited.update(w.start as int, true);
    lemma_count_update(visited, adj.len() as int, w.start as int);
    assert(adj[w.start as int][0] < adj.len());
    lemma_first_unvisited_bounds(visited, 0);
    assert(next.visited == visited);
    assert(next.count == count_true(visited, adj.len() as int));
    assert(next.count <= adj.len());
    assert(next.start < adj.len());
}

proof fn lemma_first_unvisited_bounds(visited: Seq<bool>, from: int)
    requires
        0 <= from,
    ensures
        from <= first_unvisited(visited, from) || first_unvisited(visited, from) == visited.len(),
        0 <= first_unvisited(visited, from) <= visited.len() || from > visited.len(),
    decreases visited.len() - from,
{
    if 0 <= from < visited.len() && visited[from] {
        lemma_first_unvisited_bounds(visited, from + 1);
    }
}

/// `l` is a closed loop of the graph: each of its points has exactly one next
/// point, the point after it in `l`, and the last one leads back to the first.
pub open spec fn is_cycle(adj: Seq<Seq<usize>>, l: Seq<usize>) -> bool {
    &&& l.len() > 0
    &&& forall|k: int|
        0 <= k < l.len() - 1 ==> adj[#[trigger] l[k] as int].len() == 1 && adj[l[k] as int][0] == l[k + 1]
    &&& adj[l.last() as int].len() == 1
    &&& adj[l.last() as int][0] == l[0]
}

/// The path of the walk follows the graph up to the point it stands on, and
/// every loop found so far is closed.
spec fn path_follows(adj: Seq<Seq<usize>>, w: Walk) -> bool {
    &&& forall|k: int|
        0 <= k < w.path.len() - 1 ==> adj[#[trigger] w.path[k] as int].len() == 1 && adj[w.path[k] as int][0]
            == w.path[k + 1]
    &&& w.path.len() > 0 ==> adj[w.path.last() as int].len() == 1 && adj[w.path.last() as int][0] == w.start
    &&& forall|i: int| 0 <= i < w.loops.len() ==> is_cycle(adj, #[trigger] w.loops[i])
}

proof fn lemma_loops_closed(adj: Seq<Seq<usize>>, w: Walk, fuel: nat, loops: Seq<Seq<usize>>)
    requires
        well_linked(adj),
        path_follows(adj, w),
        walk_inv(adj, w),
        run(adj, w, fuel) == Some(Some(loops)),
    ensures
        forall|i: int| 0 <= i < loops.len() ==> is_cycle(adj, #[trigger] loops[i]),
    decreases fuel,
{
    match walk_step(adj, w) {
        WalkEnd::Finished(_) => {},
        WalkEnd::Running(next) => {
            let path = w.path.push(w.start);
            assert(adj[w.start as int].len() == 1);
            assert(adj[w.start as int][0] < adj.len());
            if path[0] == adj[w.start as int][0] {
                assert(is_cycle(adj, path)) by {
                    assert forall|k: int| 0 <= k < path.len() - 1 implies adj[#[trigger] path[k] as int].len() == 1
                        && adj[path[k] as int][0] == path[k + 1] by {
                        if k < w.path.len() - 1 {
                            assert(path[k] == w.path[k] && path[k + 1] == w.path[k + 1]);
                        } else {
                            assert(path[k] == w.path.last());
                        }
                    }
                }
                assert forall|i: int| 0 <= i < next.loops.len() implies is_cycle(adj, #[trigger] next.loops[i]) by {
                    if i < w.loops.len() {
                        assert(next.loops[i] == w.loops[i]);
                    }
                }
            } else {
                assert forall|k: int| 0 <= k < next.path.len() - 1 implies adj[#[trigger] next.path[k] as int].len() == 1
                    && adj[next.path[k] as int][0] == next.path[k + 1] by {
                    if k < w.path.len() - 1 {
                        assert(next.path[k] == w.path[k] && next.path[k + 1] == w.path[k + 1]);
                    } else {
                        assert(next.path[k] == w.path.last());
                    }
                }
            }
            lemma_step_inv(adj, w);
            lemma_loops_closed(adj, next, (fuel - 1) as nat, loops);
        },
    }
}

/// Every loop that the walk reports is a closed loop of the graph.
pub proof fn law_reported_loops_are_closed(adj: Seq<Seq<usize>>)
    requires
        well_linked(adj),
        walk_ends(adj),
    ensures
        walk_result(adj) matches Some(loops) ==> forall|i: int|
            0 <= i < loops.len() ==> is_cycle(adj, #[trigger] loops[i]),
{
    let w = first_walk(adj.len());
    assert(w.visited =~= Seq::new(adj.len(), |i: int| false));
    lemma_count_zero(w.visited, adj.len() as int);
    match walk_result(adj) {
        Some(loops) => {
            lemma_loops_closed(adj, w, ending_fuel(adj), loops);
        },
        None => {},
    }
}

proof fn lemma_count_zero(visited: Seq<bool>, k: int)
    requires
        0 <= k <= visited.len(),
        forall|i: int| 0 <= i < visited.len() ==> !visited[i],
    ensures
        count_true(visited, k) == 0,
    decreases k,
{
    if k > 0 {
        lemma_count_zero(visited, k - 1);
    }
}

/// Each point has exactly one next point, a point of the graph, and no two
/// points have the same next point: the graph is a set of disjoint loops.
pub open spec fn one_to_one(adj: Seq<Seq<usize>>) -> bool {
    &&& forall|i: int| 0 <= i < adj.len() ==> (#[trigger] adj[i]).len() == 1 && adj[i][0] < adj.len()
    &&& forall|i: int, j: int|
        0 <= i < adj.len() && 0 <= j < adj.len() && (#[trigger] adj[i])[0] == (#[trigger] adj[j])[0] ==> i == j
}

/// Point `x` lies on one of `loops`.
pub open spec fn on_a_loop(loops: Seq<Seq<usize>>, x: int) -> bool {
    exists|a: int, b: int| 0 <= a < loops.len() && 0 <= b < loops[a].len() && #[trigger] loops[a][b] == x
}

/// No point lies twice on `loops`, on one loop or on two.
pub open spec fn no_point_twice(loops: Seq<Seq<usize>>) -> bool {
    forall|a: int, b: int, c: int, d: int|
        0 <= a < loops.len() && 0 <= b < loops[a].len() && 0 <= c < loops.len() && 0 <= d < loops[c].len()
            && (a != c || b != d) ==> #[trigger] loops[a][b] != #[trigger] loops[c][d]
}

/// What a walk over a graph of disjoint loops keeps: the passed points are
/// those of the loops found and of the current path, no point occurs twice
/// among them, the path follows the graph up to the point the walk stands on,
/// which is not the start of the path, and a walk with no path stands on a
/// point not passed yet unless every point is passed.
spec fn ring_walk_inv(adj: Seq<Seq<usize>>, w: Walk) -> bool {
    &&& adj.len() <= usize::MAX
    &&& walk_inv(adj, w)
    &&& forall|i: int| 0 <= i < w.loops.len() ==> is_cycle(adj, #[trigger] w.loops[i])
    &&& forall|x: int| 0 <= x < adj.len() ==> (#[trigger] w.visited[x] <==> (on_a_loop(w.loops, x) || w.path.contains(x as usize)))
    &&& forall|a: int, b: int| 0 <= a < w.loops.len() && 0 <= b < w.loops[a].len() ==> #[trigger] w.loops[a][b] < adj.len()
    &&& forall|j: int| 0 <= j < w.path.len() ==> #[trigger] w.path[j] < adj.len()
    &&& no_point_twice(w.loops)
    &&& forall|j: int, k: int| 0 <= j < k < w.path.len() ==> #[trigger] w.path[j] != #[trigger] w.path[k]
    &&& forall|a: int, b: int, j: int| 0 <= a < w.loops.len() && 0 <= b < w.loops[a].len() && 0 <= j < w.path.len()
        ==> #[trigger] w.loops[a][b] != #[trigger] w.path[j]
    &&& forall|j: int| 0 <= j < w.path.len() - 1 ==> adj[#[trigger] w.path[j] as int][0] == w.path[j + 1]
    &&& w.path.len() > 0 ==> w.start == adj[w.path.last() as int][0] && w.start != w.path[0]
    &&& w.path.len() == 0 && w.count < adj.len() ==> !w.visited[w.start as int]
}

proof fn lemma_count_all(v: Seq<bool>, k: int)
    requires
        0 <= k <= v.len(),
        forall|i: int| 0 <= i < k ==> v[i],
    ensures
        count_true(v, k) == k,
    decreases k,
{
    if k > 0 {
        lemma_count_all(v, k - 1);
    }
}

proof fn lemma_count_misses(v: Seq<bool>, k: int, i: int)
    requires
        0 <= i < k <= v.len(),
        !v[i],
    ensures
        count_true(v, k) < k,
    decreases k,
{
    lemma_count_update(v, k - 1, 0);
    if i < k - 1 {
        lemma_count_misses(v, k - 1, i);
    }
}

proof fn lemma_first_unvisited_found(v: Seq<bool>, from: int, i: int)
    requires
        0 <= from <= i < v.len(),
        !v[i],
    ensures
        first_unvisited(v, from) < v.len(),
        0 <= first_unvisited(v, from),
        !v[first_unvisited(v, from)],
    decreases v.len() - from,
{
    if v[from] {
        lemma_first_unvisited_found(v, from + 1, i);
    }
}

/// The point the walk stands on is not passed yet, when it has a path.
proof fn lemma_standing_point_new(adj: Seq<Seq<usize>>, w: Walk)
    requires
        one_to_one(adj),
        ring_walk_inv(adj, w),
        w.path.len() > 0,
    ensures
        !w.visited[w.start as int],
{
    let last = w.path.last();
    let m = w.path.len() - 1;
    assert(w.path[m] == last);
    if w.visited[w.start as int] {
        if w.path.contains(w.start) {
            let j = choose|j: int| 0 <= j < w.path.len() && w.path[j] == w.start;
            assert(j != 0);
            assert(adj[w.path[j - 1] as int][0] == w.path[j]);
            assert(w.path[j - 1] == last);
        } else {
            assert(on_a_loop(w.loops, w.start as int));
            let (a, b) = choose|a: int, b: int| 0 <= a < w.loops.len() && 0 <= b < w.loops[a].len() && #[trigger] w.loops[a][b] == w.start as int;
            let l = w.loops[a];
            assert(is_cycle(adj, l));
            let y = if b > 0 { l[b - 1] } else { l.last() };
            let yb = if b > 0 { b - 1 } else { l.len() - 1 };
            assert(l[yb] == y);
            assert(adj[y as int][0] == w.start);
            assert(y == last);
            assert(w.loops[a][yb] != w.path[m]);
        }
    }
}

/// The path a step of a walk over disjoint loops makes: no point twice, no
/// point of a found loop, and it follows the graph.
spec fn ring_path_ok(adj: Seq<Seq<usize>>, w: Walk, path: Seq<usize>) -> bool {
    &&& forall|j: int, k: int| 0 <= j < k < path.len() ==> #[trigger] path[j] != #[trigger] path[k]
    &&& forall|a: int, b: int, j: int| 0 <= a < w.loops.len() && 0 <= b < w.loops[a].len() && 0 <= j < path.len()
        ==> #[trigger] w.loops[a][b] != #[trigger] path[j]
    &&& forall|j: int| 0 <= j < path.len() - 1 ==> adj[#[trigger] path[j] as int][0] == path[j + 1]
    &&& forall|j: int| 0 <= j < path.len() ==> #[trigger] path[j] < adj.len()
}

proof fn lemma_ring_path(adj: Seq<Seq<usize>>, w: Walk)
    requires
        one_to_one(adj),
        ring_walk_inv(adj, w),
        w.count < adj.len(),
        !w.visited[w.start as int],
    ensures
        ring_path_ok(adj, w, w.path.push(w.start)),
{
    let path = w.path.push(w.start);
    let s0 = w.start;
    assert forall|j: int, k: int| 0 <= j < k < path.len() implies #[trigger] path[j] != #[trigger] path[k] by {
        if k == path.len() - 1 {
            assert(w.visited[path[j] as int]);
        }
    }
    assert forall|a: int, b: int, j: int| 0 <= a < w.loops.len() && 0 <= b < w.loops[a].len() && 0 <= j < path.len()
        implies #[trigger] w.loops[a][b] != #[trigger] path[j] by {
        if j == path.len() - 1 {
            if w.loops[a][b] == s0 {
                assert(on_a_loop(w.loops, s0 as int));
            }
        }
    }
    assert forall|j: int| 0 <= j < path.len() - 1 implies adj[#[trigger] path[j] as int][0] == path[j + 1] by {
        if j == path.len() - 2 {
            assert(path[j] == w.path.last());
        }
    }
}

/// Closing a path that follows the graph back to its start adds a loop that
/// shares no point with the others.
proof fn lemma_close_loops(adj: Seq<Seq<usize>>, w: Walk)
    requires
        one_to_one(adj),
        ring_walk_inv(adj, w),
        ring_path_ok(adj, w, w.path.push(w.start)),
        w.path.push(w.start)[0] == adj[w.start as int][0],
    ensures
        forall|i: int| 0 <= i < w.loops.push(w.path.push(w.start)).len()
            ==> is_cycle(adj, #[trigger] w.loops.push(w.path.push(w.start))[i]),
        forall|a: int, b: int| 0 <= a < w.loops.push(w.path.push(w.start)).len()
            && 0 <= b < w.loops.push(w.path.push(w.start))[a].len()
            ==> #[trigger] w.loops.push(w.path.push(w.start))[a][b] < adj.len(),
        no_point_twice(w.loops.push(w.path.push(w.start))),
{
    let n = adj.len() as int;
    let path = w.path.push(w.start);
    let loops = w.loops.push(path);
    assert(is_cycle(adj, path));
    assert forall|i: int| 0 <= i < loops.len() implies is_cycle(adj, #[trigger] loops[i]) by {
        if i < w.loops.len() {
            assert(loops[i] == w.loops[i]);
        }
    }
    assert forall|a: int, b: int| 0 <= a < loops.len() && 0 <= b < loops[a].len() implies #[trigger] loops[a][b] < n by {
        if a < w.loops.len() {
            assert(loops[a] == w.loops[a]);
        }
    }
    assert forall|a: int, b: int, c: int, d: int|
        0 <= a < loops.len() && 0 <= b < loops[a].len() && 0 <= c < loops.len() && 0 <= d < loops[c].len()
            && (a != c || b != d) implies #[trigger] loops[a][b] != #[trigger] loops[c][d] by {
        let m = w.loops.len() as int;
        if a < m && c < m {
            assert(loops[a] == w.loops[a] && loops[c] == w.loops[c]);
        } else if a < m {
            assert(loops[a] == w.loops[a] && loops[c] == path);
        } else if c < m {
            assert(loops[c] == w.loops[c] && loops[a] == path);
        } else {
            assert(loops[a] == path && loops[c] == path);
        }
    }
}

/// After closing the path, the passed points are those of the loops.
proof fn lemma_close_visited(adj: Seq<Seq<usize>>, w: Walk)
    requires
        ring_walk_inv(adj, w),
        w.count < adj.len(),
    ensures
        forall|x: int| 0 <= x < adj.len() ==> (#[trigger] w.visited.update(w.start as int, true)[x]
            <==> on_a_loop(w.loops.push(w.path.push(w.start)), x)),
{
    let n = adj.len() as int;
    let path = w.path.push(w.start);
    let loops = w.loops.push(path);
    let visited = w.visited.update(w.start as int, true);
    let s0 = w.start;
    assert forall|x: int| 0 <= x < n implies (#[trigger] visited[x] <==> on_a_loop(loops, x)) by {
        if on_a_loop(w.loops, x) {
            let (a, b) = choose|a: int, b: int| 0 <= a < w.loops.len() && 0 <= b < w.loops[a].len() && #[trigger] w.loops[a][b] == x;
            assert(loops[a][b] == x);
        }
        if path.contains(x as usize) {
            let j = choose|j: int| 0 <= j < path.len() && path[j] == x as usize;
            assert(loops[w.loops.len() as int] == path);
            assert(loops[w.loops.len() as int][j] == x as usize);
        }
        if on_a_loop(loops, x) {
            let (a, b) = choose|a: int, b: int| 0 <= a < loops.len() && 0 <= b < loops[a].len() && #[trigger] loops[a][b] == x;
            if a < w.loops.len() {
                assert(w.loops[a][b] == x);
            } else {
                assert(path[b] == x);
                assert(path.contains(x as usize));
                if x != s0 as int {
                    assert(b < w.path.len());
                    assert(w.path[b] == x as usize);
                    assert(w.path.contains(x as usize));
                }
            }
        }
        if x == s0 as int {
            assert(path[path.len() - 1] == s0);
            assert(path.contains(x as usize));
        }
        if x != s0 as int && visited[x] {
            assert(w.visited[x]);
            if w.path.contains(x as usize) {
                let j = choose|j: int| 0 <= j < w.path.len() && w.path[j] == x as usize;
                assert(path[j] == x as usize);
            }
        }
    }
}

/// A step that closes the path keeps what a walk over disjoint loops keeps.
proof fn lemma_ring_close(adj: Seq<Seq<usize>>, w: Walk)
    requires
        one_to_one(adj),
        ring_walk_inv(adj, w),
        w.count < adj.len(),
        !w.visited[w.start as int],
        ring_path_ok(adj, w, w.path.push(w.start)),
        w.path.push(w.start)[0] == adj[w.start as int][0],
    ensures
        walk_step(adj, w) matches WalkEnd::Running(next) && ring_walk_inv(adj, next) && next.count == w.count + 1,
{
    let n = adj.len() as int;
    lemma_step_inv(adj, w);
    let next = walk_step(adj, w)->Running_0;
    let visited = w.visited.update(w.start as int, true);
    lemma_close_loops(adj, w);
    lemma_close_visited(adj, w);
    assert(next.loops == w.loops.push(w.path.push(w.start)));
    assert(next.visited == visited);
    assert(next.path.len() == 0);
    assert forall|x: int| 0 <= x < n implies (#[trigger] next.visited[x] <==> (on_a_loop(next.loops, x) || next.path.contains(x as usize))) by {
        assert(!next.path.contains(x as usize));
    }
    if next.count < n {
        lemma_count_update(w.visited, n, w.start as int);
        assert(exists|i: int| 0 <= i < n && !visited[i]) by {
            if forall|i: int| 0 <= i < n ==> visited[i] {
                lemma_count_all(visited, n);
            }
        }
        let i = choose|i: int| 0 <= i < n && !visited[i];
        lemma_first_unvisited_found(visited, 0, i);
    }
}

/// A step that does not close the path keeps what a walk over disjoint loops
/// keeps.
proof fn lemma_ring_continue(adj: Seq<Seq<usize>>, w: Walk)
    requires
        one_to_one(adj),
        ring_walk_inv(adj, w),
        w.count < adj.len(),
        !w.visited[w.start as int],
        ring_path_ok(adj, w, w.path.push(w.start)),
        w.path.push(w.start)[0] != adj[w.start as int][0],
    ensures
        walk_step(adj, w) matches WalkEnd::Running(next) && ring_walk_inv(adj, next) && next.count == w.count + 1,
{
    let n = adj.len() as int;
    lemma_step_inv(adj, w);
    let next = walk_step(adj, w)->Running_0;
    let path = w.path.push(w.start);
    let s0 = w.start;
    assert(next.path == path);
    assert forall|x: int| 0 <= x < n implies (#[trigger] next.visited[x] <==> (on_a_loop(next.loops, x) || next.path.contains(x as usize))) by {
        if path.contains(x as usize) && x != s0 as int {
            let j = choose|j: int| 0 <= j < path.len() && path[j] == x as usize;
            assert(path[path.len() - 1] == s0);
            assert(j < w.path.len());
            assert(w.path[j] == x as usize);
        }
        if w.path.contains(x as usize) {
            let j = choose|j: int| 0 <= j < w.path.len() && w.path[j] == x as usize;
            assert(path[j] == x as usize);
        }
        if x == s0 as int {
            assert(path[path.len() - 1] == s0);
        }
    }
}

/// One step of a walk over a graph of disjoint loops keeps what the walk keeps
/// and passes one more point.
proof fn lemma_ring_step(adj: Seq<Seq<usize>>, w: Walk)
    requires
        one_to_one(adj),
        ring_walk_inv(adj, w),
        w.count < adj.len(),
    ensures
        walk_step(adj, w) matches WalkEnd::Running(next) && ring_walk_inv(adj, next) && next.count == w.count + 1,
{
    if w.path.len() > 0 {
        lemma_standing_point_new(adj, w);
    }
    assert(adj[w.start as int].len() == 1);
    lemma_ring_path(adj, w);
    if w.path.push(w.start)[0] == adj[w.start as int][0] {
        lemma_ring_close(adj, w);
    } else {
        lemma_ring_continue(adj, w);
    }
}

/// A walk over a graph of disjoint loops ends, with every point on exactly one
/// of the loops it reports.
proof fn lemma_ring_run_all(adj: Seq<Seq<usize>>, w: Walk)
    requires
        one_to_one(adj),
        ring_walk_inv(adj, w),
    ensures
        run(adj, w, (adj.len() - w.count) as nat) matches Some(Some(loops)) && no_point_twice(loops)
            && forall|x: int| 0 <= x < adj.len() ==> #[trigger] on_a_loop(loops, x),
    decreases adj.len() - w.count,
{
    let n = adj.len() as int;
    if w.count >= n {
        assert(walk_step(adj, w) == WalkEnd::Finished(Some(w.loops)));
        assert forall|x: int| 0 <= x < n implies w.visited[x] by {
            if !w.visited[x] {
                lemma_count_misses(w.visited, n, x);
            }
        }
        if w.path.len() > 0 {
            lemma_standing_point_new(adj, w);
        }
        assert forall|x: int| 0 <= x < n implies #[trigger] on_a_loop(w.loops, x) by {
            assert(w.visited[x]);
        }
    } else {
        lemma_ring_step(adj, w);
        let next = walk_step(adj, w)->Running_0;
        lemma_ring_run_all(adj, next);
        assert(run(adj, w, (n - w.count) as nat) == run(adj, next, (n - next.count) as nat));
    }
}

/// On a graph where each point has exactly one next point and no two points
/// share one (a set of disjoint loops), the walk ends and every loop is found:
/// each point lies on exactly one of the reported loops.
pub proof fn law_every_loop_is_found(adj: Seq<Seq<usize>>)
    requires
        one_to_one(adj),
        adj.len() <= usize::MAX,
    ensures
        walk_ends(adj),
        walk_result(adj) matches Some(loops) && no_point_twice(loops) && forall|x: int|
            0 <= x < adj.len() ==> #[trigger] on_a_loop(loops, x),
{
    let n = adj.len();
    let w = first_walk(n);
    assert(w.visited =~= Seq::new(n, |i: int| false));
    lemma_count_zero(w.visited, n as int);
    assert forall|x: int| 0 <= x < n implies (#[trigger] w.visited[x] <==> (on_a_loop(w.loops, x) || w.path.contains(x as usize))) by {
        if w.path.contains(x as usize) {
            let j = choose|j: int| 0 <= j < w.path.len() && w.path[j] == x as usize;
        }
    }
    assert(ring_walk_inv(adj, w));
    lemma_ring_run_all(adj, w);
    let f = ending_fuel(adj);
    assert(run(adj, w, n) is Some);
    assert(run(adj, first_walk(adj.len()), f) is Some);
    if f <= n {
        lemma_run_more_fuel(adj, w, f, n);
    } else {
        lemma_run_more_fuel(adj, w, n, f);
    }
}

/// The graph of `n` points where each point leads to the next one and the
/// last leads back to point 0: one loop through every point.
pub open spec fn ring(n: nat) -> Seq<Seq<usize>> {
    Seq::new(n, |i: int| seq![((i + 1) % (n as int)) as usize])
}

/// The points `0, 1, ..., n - 1` in order.
pub open spec fn points_upto(n: nat) -> Seq<usize> {
    Seq::new(n, |i: int| i as usize)
}

/// The walk over a ring after it has passed the points `0..k`.
spec fn ring_walk(n: nat, k: nat) -> Walk {
    Walk {
        visited: Seq::new(n, |i: int| i < k),
        count: k,
        path: points_upto(k),
        start: k as usize,
        loops: Seq::empty(),
    }
}

proof fn lemma_first_unvisited_all_passed(visited: Seq<bool>, from: int)
    requires
        0 <= from <= visited.len(),
        forall|i: int| 0 <= i < visited.len() ==> visited[i],
    ensures
        first_unvisited(visited, from) == visited.len(),
    decreases visited.len() - from,
{
    if from < visited.len() {
        lemma_first_unvisited_all_passed(visited, from + 1);
    }
}

proof fn lemma_ring_run(n: nat, k: nat)
    requires
        1 <= n <= usize::MAX,
        k < n,
    ensures
        run(ring(n), ring_walk(n, k), (n - k) as nat) == Some(Some(seq![points_upto(n)])),
    decreases n - k,
{
    let adj = ring(n);
    let w = ring_walk(n, k);
    let path = w.path.push(w.start);
    let visited = w.visited.update(k as int, true);
    assert(path =~= points_upto(k + 1));
    assert(visited =~= Seq::new(n, |i: int| i < k + 1));
    assert(!w.visited[k as int]);
    if k + 1 < n {
        vstd::arithmetic::div_mod::lemma_small_mod((k + 1) as nat, n);
        assert(adj[k as int] == seq![(k + 1) as usize]);
        assert(path[0] == 0);
        assert(walk_step(adj, w) == WalkEnd::Running(ring_walk(n, k + 1)));
        lemma_ring_run(n, k + 1);
        assert(run(adj, w, (n - k) as nat) == run(adj, ring_walk(n, k + 1), (n - (k + 1)) as nat));
    } else {
        vstd::arithmetic::div_mod::lemma_mod_self_0(n as int);
        assert(adj[k as int] == seq![0usize]);
        assert(path[0] == 0);
        lemma_first_unvisited_all_passed(visited, 0);
        let last = Walk {
            visited,
            count: n,
            path: Seq::empty(),
            start: w.start,
            loops: Seq::<Seq<usize>>::empty().push(path),
        };
        assert(walk_step(adj, w) == WalkEnd::Running(last));
        assert(Seq::<Seq<usize>>::empty().push(path) =~= seq![points_upto(n)]);
        assert(walk_step(adj, last) == WalkEnd::Finished(Some(seq![points_upto(n)])));
        assert(run(adj, last, 0) == Some(Some(seq![points_upto(n)])));
        assert((n - k) as nat == 1);
        assert(run(adj, w, 1) == run(adj, last, 0));
    }
}

/// Every loop the walk closes is reported: on a ring of any number of points,
/// where each point leads to the next and the last back to point 0, the walk
/// ends and reports exactly one loop, the points `0, 1, ..., n - 1` in order.
pub proof fn law_ring_is_one_loop(n: nat)
    requires
        1 <= n <= usize::MAX,
    ensures
        well_linked(ring(n)),
        walk_ends(ring(n)),
        walk_result(ring(n)) == Some(seq![points_upto(n)]),
{
    let adj = ring(n);
    assert forall|i: int, j: int| 0 <= i < adj.len() && 0 <= j < adj[i].len() implies #[trigger] adj[i][j] < adj.len() by {
        vstd::arithmetic::div_mod::lemma_mod_bound(i + 1, n as int);
        assert(j == 0);
    }
    assert(ring_walk(n, 0).visited =~= first_walk(n).visited);
    assert(ring_walk(n, 0).path =~= first_walk(n).path);
    assert(ring_walk(n, 0) == first_walk(adj.len()));
    lemma_ring_run(n, 0);
    assert(run(adj, first_walk(adj.len()), n) is Some);
    let f = ending_fuel(adj);
    assert(run(adj, first_walk(adj.len()), f) is Some);
    if f <= n {
        lemma_run_more_fuel(adj, first_walk(adj.len()), f, n);
    } else {
        lemma_run_more_fuel(adj, first_walk(adj.len()), n, f);
    }
}

} // verus!
