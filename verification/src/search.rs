//! Depth-first search for a cycle in a directed graph whose nodes are the
//! numbers below `adj.len()`; `adj[a]` lists the successors of `a`.

use vstd::prelude::*;

verus! {

/// Where a node stands in the search: not reached, on the current path, or done.
#[derive(Clone, Copy, PartialEq, Eq, Structural)]
pub enum Color {
    White,
    Gray,
    Black,
}

/// Every successor is itself a node.
pub open spec fn in_bounds(adj: Seq<Vec<usize>>) -> bool {
    forall|a: int, k: int|
        0 <= a < adj.len() && 0 <= k < adj[a]@.len() ==> (#[trigger] adj[a]@[k]) < adj.len()
}

/// There is an arc from `a` to `b`.
pub open spec fn arc(adj: Seq<Vec<usize>>, a: usize, b: usize) -> bool {
    a < adj.len() && adj[a as int]@.contains(b)
}

/// Following the arcs along `walk` leads back to its first element.
pub open spec fn is_closed_walk(adj: Seq<Vec<usize>>, walk: Seq<usize>) -> bool {
    &&& walk.len() > 0
    &&& forall|i: int|
        0 <= i < walk.len() ==> arc(adj, walk[i], #[trigger] crate::model::after(walk, i))
}

/// A closed walk that meets no node twice.
pub open spec fn is_cycle(adj: Seq<Vec<usize>>, walk: Seq<usize>) -> bool {
    is_closed_walk(adj, walk) && walk.no_duplicates()
}

spec fn all_black(color: Seq<Color>, walk: Seq<usize>) -> bool {
    forall|i: int| 0 <= i < walk.len() ==> color[(#[trigger] walk[i]) as int] == Color::Black
}

/// The gray nodes are those of `path`, and `path` follows arcs.
spec fn path_ok(adj: Seq<Vec<usize>>, color: Seq<Color>, path: Seq<usize>) -> bool {
    &&& color.len() == adj.len()
    &&& path.no_duplicates()
    &&& forall|i: int| 0 <= i < path.len() ==> (#[trigger] path[i]) < adj.len()
    &&& forall|i: int| 0 <= i < path.len() ==> color[(#[trigger] path[i]) as int] == Color::Gray
    &&& forall|a: usize|
        a < adj.len() && #[trigger] color[a as int] == Color::Gray ==> path.contains(a)
    &&& forall|i: int, j: int|
        0 <= i && j == i + 1 && j < path.len() ==> arc(adj, #[trigger] path[i], #[trigger] path[j])
}

/// Black nodes lead to black nodes only.
spec fn black_closed(adj: Seq<Vec<usize>>, color: Seq<Color>) -> bool {
    forall|a: usize, b: usize|
        #[trigger] arc(adj, a, b) && color[a as int] == Color::Black ==> color[b as int]
            == Color::Black
}

/// No closed walk runs through black nodes only.
spec fn black_acyclic(adj: Seq<Vec<usize>>, color: Seq<Color>) -> bool {
    forall|walk: Seq<usize>| #[trigger] is_closed_walk(adj, walk) ==> !all_black(color, walk)
}

spec fn state_ok(adj: Seq<Vec<usize>>, color: Seq<Color>, path: Seq<usize>) -> bool {
    &&& in_bounds(adj)
    &&& path_ok(adj, color, path)
    &&& black_closed(adj, color)
    &&& black_acyclic(adj, color)
}

/// What a part of the search may do to the colors.
spec fn grown(before: Seq<Color>, now: Seq<Color>) -> bool {
    &&& before.len() == now.len()
    &&& forall|i: int|
        0 <= i < before.len() && before[i] != Color::White ==> #[trigger] now[i] == before[i]
}

/// How many nodes are still white.
spec fn whites(color: Seq<Color>) -> nat
    decreases color.len(),
{
    if color.len() == 0 {
        0
    } else {
        whites(color.drop_last()) + if color.last() == Color::White {
            1nat
        } else {
            0nat
        }
    }
}

proof fn lemma_whites_grown(before: Seq<Color>, now: Seq<Color>)
    requires
        grown(before, now),
    ensures
        whites(now) <= whites(before),
    decreases before.len(),
{
    if before.len() > 0 {
        assert(grown(before.drop_last(), now.drop_last()));
        lemma_whites_grown(before.drop_last(), now.drop_last());
    }
}

proof fn lemma_whites_less(before: Seq<Color>, now: Seq<Color>, u: int)
    requires
        grown(before, now),
        0 <= u < before.len(),
        before[u] == Color::White,
        now[u] != Color::White,
    ensures
        whites(now) < whites(before),
    decreases before.len(),
{
    assert(grown(before.drop_last(), now.drop_last()));
    if u == before.len() - 1 {
        lemma_whites_grown(before.drop_last(), now.drop_last());
    } else {
        lemma_whites_less(before.drop_last(), now.drop_last(), u);
    }
}

/// A walk that is among the black nodes at `start` still is so at `k`.
proof fn lemma_walk_stays_black(
    adj: Seq<Vec<usize>>,
    color: Seq<Color>,
    walk: Seq<usize>,
    start: int,
    k: int,
)
    requires
        is_closed_walk(adj, walk),
        black_closed(adj, color),
        0 <= start <= k < walk.len(),
        color[walk[start] as int] == Color::Black,
    ensures
        color[walk[k] as int] == Color::Black,
    decreases k - start,
{
    if start < k {
        lemma_walk_stays_black(adj, color, walk, start, k - 1);
        assert(arc(adj, walk[k - 1], crate::model::after(walk, k - 1)));
    }
}

/// A closed walk that meets a black node runs through black nodes only.
proof fn lemma_walk_all_black(
    adj: Seq<Vec<usize>>,
    color: Seq<Color>,
    walk: Seq<usize>,
    start: int,
)
    requires
        is_closed_walk(adj, walk),
        black_closed(adj, color),
        0 <= start < walk.len(),
        color[walk[start] as int] == Color::Black,
    ensures
        all_black(color, walk),
{
    let last = walk.len() - 1;
    lemma_walk_stays_black(adj, color, walk, start, last);
    assert(arc(adj, walk[last], crate::model::after(walk, last)));
    assert forall|i: int| 0 <= i < walk.len() implies color[(#[trigger] walk[i]) as int]
        == Color::Black by {
        lemma_walk_stays_black(adj, color, walk, 0, i);
    }
}

/// Blackening a gray node all of whose successors are black keeps the black
/// nodes free of closed walks.
proof fn lemma_blacken(adj: Seq<Vec<usize>>, color: Seq<Color>, u: usize)
    requires
        in_bounds(adj),
        color.len() == adj.len(),
        u < adj.len(),
        color[u as int] == Color::Gray,
        black_closed(adj, color),
        black_acyclic(adj, color),
        forall|b: usize| #[trigger] arc(adj, u, b) ==> color[b as int] == Color::Black,
    ensures
        black_closed(adj, color.update(u as int, Color::Black)),
        black_acyclic(adj, color.update(u as int, Color::Black)),
{
    let next = color.update(u as int, Color::Black);
    assert forall|a: usize, b: usize| #[trigger]
        arc(adj, a, b) && next[a as int] == Color::Black implies next[b as int] == Color::Black by {
        let k = choose|k: int| 0 <= k < adj[a as int]@.len() && adj[a as int]@[k] == b;
        assert(adj[a as int]@[k] < adj.len());
        assert(color[b as int] == Color::Black);
    }
    assert forall|walk: Seq<usize>| #[trigger] is_closed_walk(adj, walk) implies !all_black(
        next,
        walk,
    ) by {
        if all_black(next, walk) {
            lemma_black_walk_avoids(adj, color, walk, u);
            assert forall|i: int| 0 <= i < walk.len() implies color[(#[trigger] walk[i]) as int]
                == Color::Black by {
                assert(arc(adj, walk[i], crate::model::after(walk, i)));
                assert(walk.contains(walk[i]));
            }
        }
    }
}

/// A closed walk through black nodes and `u`, all of whose successors are
/// black, does not meet `u`.
proof fn lemma_black_walk_avoids(
    adj: Seq<Vec<usize>>,
    color: Seq<Color>,
    walk: Seq<usize>,
    u: usize,
)
    requires
        is_closed_walk(adj, walk),
        black_closed(adj, color),
        color[u as int] == Color::Gray,
        forall|b: usize| #[trigger] arc(adj, u, b) ==> color[b as int] == Color::Black,
    ensures
        !walk.contains(u),
{
    if walk.contains(u) {
        let i = choose|i: int| 0 <= i < walk.len() && walk[i] == u;
        let j = if i + 1 < walk.len() {
            i + 1
        } else {
            0
        };
        assert(arc(adj, walk[i], crate::model::after(walk, i)));
        lemma_walk_all_black(adj, color, walk, j);
        assert(color[walk[i] as int] == Color::Black);
    }
}

/// The cycle that the arc from the end of `path` back to the gray node `v` closes:
/// the nodes of `path` behind `v`, then `v`.
fn close_cycle(adj: &Vec<Vec<usize>>, color: &Vec<Color>, path: &Vec<usize>, v: usize) -> (cycle:
    Vec<usize>)
    requires
        path_ok(adj@, color@, path@),
        path@.len() > 0,
        arc(adj@, path@.last(), v),
        path@.contains(v),
    ensures
        is_cycle(adj@, cycle@),
{
    let mut p: usize = path.len() - 1;
    while path[p] != v
        invariant
            p < path@.len(),
            path@.contains(v),
            forall|i: int| p < i < path@.len() ==> path@[i] != v,
        decreases p,
    {
        assert(p > 0) by {
            let i = choose|i: int| 0 <= i < path@.len() && path@[i] == v;
            assert(i <= p);
            assert(i != p);
        }
        p = p - 1;
    }
    let mut cycle: Vec<usize> = Vec::new();
    let mut k: usize = p + 1;
    while k < path.len()
        invariant
            p < k <= path@.len(),
            cycle@ == path@.subrange(p + 1, k as int),
        decreases path@.len() - k,
    {
        cycle.push(path[k]);
        k = k + 1;
    }
    cycle.push(v);
    proof {
        let walk = cycle@;
        let n = walk.len();
        assert(n == path@.len() - p);
        assert(walk[n - 1] == path@[p as int]);
        assert forall|i: int| 0 <= i < n implies arc(
            adj@,
            walk[i],
            #[trigger] crate::model::after(walk, i),
        ) by {
            if i < n - 1 {
                assert(walk[i] == path@[p + 1 + i]);
                if i < n - 2 {
                    assert(walk[i + 1] == path@[p + 2 + i]);
                }
            } else if n > 1 {
                assert(walk[0] == path@[p + 1]);
                assert(arc(adj@, path@[p as int], path@[p + 1]));
            }
        }
        assert forall|i: int, j: int| 0 <= i < n && 0 <= j < n && i != j implies walk[i]
            != walk[j] by {
            if i < n - 1 {
                assert(walk[i] == path@[p + 1 + i]);
            }
            if j < n - 1 {
                assert(walk[j] == path@[p + 1 + j]);
            }
        }
    }
    cycle
}

/// Searches from the white node `u`, which the end of `path` leads to.
fn visit(
    adj: &Vec<Vec<usize>>,
    u: usize,
    color: &mut Vec<Color>,
    path: &mut Vec<usize>,
) -> (found: Option<Vec<usize>>)
    requires
        state_ok(adj@, old(color)@, old(path)@),
        u < adj@.len(),
        old(color)@[u as int] == Color::White,
        old(path)@.len() > 0 ==> arc(adj@, old(path)@.last(), u),
    ensures
        match found {
            Some(cycle) => is_cycle(adj@, cycle@),
            None => {
                &&& state_ok(adj@, final(color)@, final(path)@)
                &&& final(path)@ == old(path)@
                &&& final(color)@[u as int] == Color::Black
                &&& grown(old(color)@, final(color)@)
            },
        },
    decreases whites(old(color)@),
{
    let ghost color0 = color@;
    let ghost path0 = path@;
    color.set(u, Color::Gray);
    path.push(u);
    proof {
        lemma_enter(adj@, color0, path0, u);
        lemma_whites_less(color0, color@, u as int);
    }
    let mut k: usize = 0;
    while k < adj[u].len()
        invariant
            state_ok(adj@, color@, path@),
            path@ == path0.push(u),
            u < adj@.len(),
            k <= adj@[u as int]@.len(),
            color0 == old(color)@,
            color0[u as int] == Color::White,
            color@[u as int] == Color::Gray,
            grown(color0, color@),
            whites(color@) < whites(color0),
            forall|m: int| 0 <= m < k ==> color@[(#[trigger] adj@[u as int]@[m]) as int]
                == Color::Black,
        decreases adj@[u as int]@.len() - k,
    {
        let v = adj[u][k];
        let ghost color1 = color@;
        assert(arc(adj@, u, v));
        match color[v] {
            Color::White => {
                match visit(adj, v, color, path) {
                    Some(cycle) => {
                        return Some(cycle);
                    },
                    None => {
                        proof {
                            lemma_whites_grown(color1, color@);
                        }
                    },
                }
            },
            Color::Gray => {
                return Some(close_cycle(adj, color, path, v));
            },
            Color::Black => {},
        }
        k = k + 1;
    }
    let ghost color2 = color@;
    path.pop();
    color.set(u, Color::Black);
    proof {
        assert(path@ =~= path0);
        lemma_leave(adj@, color2, path0, u);
    }
    None
}

/// A cycle of the graph, or `None` where there is none.
pub fn find_cycle(adj: &Vec<Vec<usize>>) -> (found: Option<Vec<usize>>)
    requires
        in_bounds(adj@),
    ensures
        match found {
            Some(cycle) => is_cycle(adj@, cycle@),
            None => forall|walk: Seq<usize>| !#[trigger] is_closed_walk(adj@, walk),
        },
{
    let mut color: Vec<Color> = Vec::new();
    let mut path: Vec<usize> = Vec::new();
    let mut i: usize = 0;
    while i < adj.len()
        invariant
            i <= adj@.len(),
            color@.len() == i,
            forall|a: int| 0 <= a < i ==> color@[a] == Color::White,
        decreases adj@.len() - i,
    {
        color.push(Color::White);
        i = i + 1;
    }
    assert(black_acyclic(adj@, color@)) by {
        assert forall|walk: Seq<usize>| #[trigger] is_closed_walk(adj@, walk) implies !all_black(
            color@,
            walk,
        ) by {
            assert(arc(adj@, walk[0], crate::model::after(walk, 0)));
            assert(color@[walk[0] as int] == Color::White);
        }
    }
    i = 0;
    while i < adj.len()
        invariant
            i <= adj@.len(),
            path@.len() == 0,
            state_ok(adj@, color@, path@),
            forall|a: int| 0 <= a < i ==> #[trigger] color@[a] == Color::Black,
        decreases adj@.len() - i,
    {
        let ghost color1 = color@;
        if let Color::White = color[i] {
            match visit(adj, i, &mut color, &mut path) {
                Some(cycle) => {
                    return Some(cycle);
                },
                None => {},
            }
        }
        assert(color@[i as int] != Color::Gray);
        i = i + 1;
    }
    proof {
        assert forall|walk: Seq<usize>| !#[trigger] is_closed_walk(adj@, walk) by {
            if is_closed_walk(adj@, walk) {
                assert forall|j: int| 0 <= j < walk.len() implies color@[(
                #[trigger] walk[j]) as int] == Color::Black by {
                    assert(arc(adj@, walk[j], crate::model::after(walk, j)));
                }
                assert(all_black(color@, walk));
            }
        }
    }
    None
}

/// Putting a white node at the end of the path keeps the search state.
proof fn lemma_enter(adj: Seq<Vec<usize>>, color: Seq<Color>, path: Seq<usize>, u: usize)
    requires
        state_ok(adj, color, path),
        u < adj.len(),
        color[u as int] == Color::White,
        path.len() > 0 ==> arc(adj, path.last(), u),
    ensures
        state_ok(adj, color.update(u as int, Color::Gray), path.push(u)),
        grown(color, color.update(u as int, Color::Gray)),
{
    let next = color.update(u as int, Color::Gray);
    let longer = path.push(u);
    assert(longer[path.len() as int] == u);
    assert forall|a: usize|
        a < adj.len() && #[trigger] next[a as int] == Color::Gray implies longer.contains(a) by {
        if a != u {
            assert(color[a as int] == Color::Gray);
            let i = choose|i: int| 0 <= i < path.len() && path[i] == a;
            assert(longer[i] == a);
        }
    }
    assert forall|a: usize, b: usize| #[trigger]
        arc(adj, a, b) && next[a as int] == Color::Black implies next[b as int] == Color::Black by {
        assert(color[b as int] == Color::Black);
    }
    assert forall|walk: Seq<usize>| #[trigger] is_closed_walk(adj, walk) implies !all_black(
        next,
        walk,
    ) by {
        if all_black(next, walk) {
            assert forall|i: int| 0 <= i < walk.len() implies color[(#[trigger] walk[i]) as int]
                == Color::Black by {
                assert(arc(adj, walk[i], crate::model::after(walk, i)));
                assert(next[walk[i] as int] == Color::Black);
            }
        }
    }
}

/// Taking a node whose successors are all black off the path keeps the search state.
proof fn lemma_leave(adj: Seq<Vec<usize>>, color: Seq<Color>, path: Seq<usize>, u: usize)
    requires
        state_ok(adj, color, path.push(u)),
        u < adj.len(),
        forall|m: int| 0 <= m < adj[u as int]@.len() ==> color[(
        #[trigger] adj[u as int]@[m]) as int] == Color::Black,
    ensures
        state_ok(adj, color.update(u as int, Color::Black), path),
{
    let longer = path.push(u);
    let next = color.update(u as int, Color::Black);
    assert(longer[path.len() as int] == u);
    assert forall|b: usize| #[trigger] arc(adj, u, b) implies color[b as int] == Color::Black by {
        let m = choose|m: int| 0 <= m < adj[u as int]@.len() && adj[u as int]@[m] == b;
    }
    lemma_blacken(adj, color, u);
    assert forall|i: int, j: int|
        0 <= i < path.len() && 0 <= j < path.len() && i != j implies path[i] != path[j] by {
        assert(longer[i] == path[i]);
        assert(longer[j] == path[j]);
    }
    assert forall|i: int| 0 <= i < path.len() implies (#[trigger] path[i]) < adj.len()
        && next[path[i] as int] == Color::Gray by {
        assert(longer[i] == path[i]);
    }
    assert forall|a: usize|
        a < adj.len() && #[trigger] next[a as int] == Color::Gray implies path.contains(a) by {
        assert(color[a as int] == Color::Gray);
        let i = choose|i: int| 0 <= i < longer.len() && longer[i] == a;
        assert(path[i] == a);
    }
    assert forall|i: int, j: int| 0 <= i && j == i + 1 && j < path.len() implies arc(
        adj,
        #[trigger] path[i],
        #[trigger] path[j],
    ) by {
        assert(longer[i] == path[i]);
        assert(longer[j] == path[j]);
    }
}

} // verus!
